//! The layout of encoded values: fixed parts stand in place, variable parts stand behind and
//! are found by their offsets.

use vstd::bytes::{
    lemma_auto_spec_u32_to_from_le_bytes, spec_u32_from_le_bytes, spec_u32_to_le_bytes,
    u32_from_le_bytes, u32_to_le_bytes,
};
use vstd::prelude::*;
use vstd::slice::slice_subrange;

verus! {

/// How many bytes an offset takes.
pub const BYTES_PER_OFFSET: usize = 4;

/// A part of a value: whether it stands in place, and its bytes.
#[verifier::ext_equal]
pub struct PartView {
    pub fixed: bool,
    pub bytes: Seq<u8>,
}

/// A part that stands in place.
pub open spec fn fixed(bytes: Seq<u8>) -> PartView {
    PartView { fixed: true, bytes }
}

/// A part that stands behind.
pub open spec fn variable(bytes: Seq<u8>) -> PartView {
    PartView { fixed: false, bytes }
}

/// How many bytes the parts take in front.
pub open spec fn head_len(parts: Seq<PartView>) -> nat
    decreases parts.len(),
{
    if parts.len() == 0 {
        0
    } else {
        head_len(parts.drop_last()) + if parts.last().fixed {
            parts.last().bytes.len()
        } else {
            BYTES_PER_OFFSET as nat
        }
    }
}

/// How many bytes the parts take behind.
pub open spec fn tail_len(parts: Seq<PartView>) -> nat
    decreases parts.len(),
{
    if parts.len() == 0 {
        0
    } else {
        tail_len(parts.drop_last()) + if parts.last().fixed {
            0
        } else {
            parts.last().bytes.len()
        }
    }
}

/// What stands in front: the fixed parts, and the offsets of the variable ones, where what stands
/// behind begins at `base`.
pub open spec fn heads(parts: Seq<PartView>, base: nat) -> Seq<u8>
    decreases parts.len(),
{
    if parts.len() == 0 {
        Seq::empty()
    } else {
        heads(parts.drop_last(), base) + if parts.last().fixed {
            parts.last().bytes
        } else {
            spec_u32_to_le_bytes((base + tail_len(parts.drop_last())) as u32)
        }
    }
}

/// What stands behind: the variable parts.
pub open spec fn tails(parts: Seq<PartView>) -> Seq<u8>
    decreases parts.len(),
{
    if parts.len() == 0 {
        Seq::empty()
    } else {
        tails(parts.drop_last()) + if parts.last().fixed {
            Seq::empty()
        } else {
            parts.last().bytes
        }
    }
}

/// The encoding of a value that is made of parts.
pub open spec fn container(parts: Seq<PartView>) -> Seq<u8> {
    heads(parts, head_len(parts)) + tails(parts)
}

/// How many bytes the encoding of the parts takes.
pub open spec fn container_len(parts: Seq<PartView>) -> nat {
    head_len(parts) + tail_len(parts)
}

/// An offset is read back from its bytes.
pub proof fn lemma_offset(x: u32)
    ensures
        spec_u32_to_le_bytes(x).len() == 4,
        spec_u32_from_le_bytes(spec_u32_to_le_bytes(x)) == x,
{
    lemma_auto_spec_u32_to_from_le_bytes();
    assert(spec_u32_to_le_bytes(x).len() == 4);
}

/// The encodings in front and behind are as long as they are said to be.
pub proof fn lemma_lengths(parts: Seq<PartView>, base: nat)
    ensures
        heads(parts, base).len() == head_len(parts),
        tails(parts).len() == tail_len(parts),
    decreases parts.len(),
{
    lemma_auto_spec_u32_to_from_le_bytes();
    if parts.len() > 0 {
        lemma_lengths(parts.drop_last(), base);
    }
}

/// The first parts take no more room than all of them.
pub proof fn lemma_prefix_lengths(parts: Seq<PartView>, k: int)
    requires
        0 <= k <= parts.len(),
    ensures
        head_len(parts.take(k)) <= head_len(parts),
        tail_len(parts.take(k)) <= tail_len(parts),
    decreases parts.len() - k,
{
    if k == parts.len() {
        assert(parts.take(k) =~= parts);
    } else {
        lemma_prefix_lengths(parts, k + 1);
        assert(parts.take(k + 1).drop_last() =~= parts.take(k));
    }
}

/// What one more part adds.
pub proof fn lemma_next_part(parts: Seq<PartView>, k: int, base: nat)
    requires
        0 <= k < parts.len(),
    ensures
        head_len(parts.take(k + 1)) == head_len(parts.take(k)) + if parts[k].fixed {
            parts[k].bytes.len()
        } else {
            BYTES_PER_OFFSET as nat
        },
        tail_len(parts.take(k + 1)) == tail_len(parts.take(k)) + if parts[k].fixed {
            0
        } else {
            parts[k].bytes.len()
        },
        heads(parts.take(k + 1), base) == heads(parts.take(k), base) + if parts[k].fixed {
            parts[k].bytes
        } else {
            spec_u32_to_le_bytes((base + tail_len(parts.take(k))) as u32)
        },
        tails(parts.take(k + 1)) == tails(parts.take(k)) + if parts[k].fixed {
            Seq::empty()
        } else {
            parts[k].bytes
        },
{
    assert(parts.take(k + 1).drop_last() =~= parts.take(k));
    assert(parts.take(k + 1).last() == parts[k]);
}

/// Where each part is found in the encoding.
pub proof fn lemma_part_at(parts: Seq<PartView>, k: int)
    requires
        0 <= k < parts.len(),
    ensures
        ({
            let h = head_len(parts.take(k)) as int;
            let t = (head_len(parts) + tail_len(parts.take(k))) as int;
            let n = parts[k].bytes.len() as int;
            if parts[k].fixed {
                h + n <= container(parts).len() && container(parts).subrange(h, h + n)
                    == parts[k].bytes
            } else {
                &&& h + BYTES_PER_OFFSET <= container(parts).len()
                &&& container(parts).subrange(h, h + BYTES_PER_OFFSET) == spec_u32_to_le_bytes(
                    t as u32,
                )
                &&& t + n <= container(parts).len()
                &&& container(parts).subrange(t, t + n) == parts[k].bytes
            }
        }),
    decreases parts.len(),
{
    let base = head_len(parts);
    lemma_auto_spec_u32_to_from_le_bytes();
    lemma_lengths(parts, base);
    lemma_heads_at(parts, base, k);
    lemma_tails_at(parts, k);
    lemma_prefix_lengths(parts, k);
    lemma_prefix_lengths(parts, k + 1);
    lemma_next_part(parts, k, base);
    let h = head_len(parts.take(k)) as int;
    let t = (head_len(parts) + tail_len(parts.take(k))) as int;
    let n = parts[k].bytes.len() as int;
    let all = container(parts);
    if parts[k].fixed {
        assert(all.subrange(h, h + n) =~= heads(parts, base).subrange(h, h + n));
    } else {
        assert(all.subrange(h, h + 4) =~= heads(parts, base).subrange(h, h + 4));
        assert(all.subrange(t, t + n) =~= tails(parts).subrange(
            tail_len(parts.take(k)) as int,
            tail_len(parts.take(k)) + n,
        ));
    }
}

/// Where each part is found in front.
proof fn lemma_heads_at(parts: Seq<PartView>, base: nat, k: int)
    requires
        0 <= k < parts.len(),
    ensures
        ({
            let h = head_len(parts.take(k)) as int;
            let here = if parts[k].fixed {
                parts[k].bytes
            } else {
                spec_u32_to_le_bytes((base + tail_len(parts.take(k))) as u32)
            };
            h + here.len() <= heads(parts, base).len() && heads(parts, base).subrange(
                h,
                h + here.len(),
            ) == here
        }),
    decreases parts.len(),
{
    lemma_auto_spec_u32_to_from_le_bytes();
    let init = parts.drop_last();
    lemma_lengths(parts, base);
    lemma_lengths(init, base);
    if k == parts.len() - 1 {
        assert(parts.take(k) =~= init);
        let here = if parts[k].fixed {
            parts[k].bytes
        } else {
            spec_u32_to_le_bytes((base + tail_len(parts.take(k))) as u32)
        };
        let h = head_len(init) as int;
        assert(heads(parts, base).subrange(h, h + here.len()) =~= here);
    } else {
        lemma_heads_at(init, base, k);
        assert(init.take(k) =~= parts.take(k));
        let here = if parts[k].fixed {
            parts[k].bytes
        } else {
            spec_u32_to_le_bytes((base + tail_len(parts.take(k))) as u32)
        };
        let h = head_len(parts.take(k)) as int;
        assert(heads(parts, base).subrange(h, h + here.len()) =~= heads(init, base).subrange(
            h,
            h + here.len(),
        ));
    }
}

/// Where each variable part is found behind.
proof fn lemma_tails_at(parts: Seq<PartView>, k: int)
    requires
        0 <= k < parts.len(),
    ensures
        !parts[k].fixed ==> tail_len(parts.take(k)) + parts[k].bytes.len() <= tails(parts).len()
            && tails(parts).subrange(
            tail_len(parts.take(k)) as int,
            (tail_len(parts.take(k)) + parts[k].bytes.len()) as int,
        ) == parts[k].bytes,
    decreases parts.len(),
{
    let init = parts.drop_last();
    lemma_lengths(parts, 0);
    lemma_lengths(init, 0);
    if !parts[k].fixed {
        let t = tail_len(parts.take(k)) as int;
        let n = parts[k].bytes.len() as int;
        if k == parts.len() - 1 {
            assert(parts.take(k) =~= init);
            assert(tails(parts).subrange(t, t + n) =~= parts[k].bytes);
        } else {
            lemma_tails_at(init, k);
            assert(init.take(k) =~= parts.take(k));
            assert(tails(parts).subrange(t, t + n) =~= tails(init).subrange(t, t + n));
        }
    }
}

/// A part of a value.
#[derive(Debug)]
pub struct Part {
    /// Whether the part stands in place.
    pub fixed: bool,
    pub bytes: Vec<u8>,
}

impl View for Part {
    type V = PartView;

    open spec fn view(&self) -> PartView {
        PartView { fixed: self.fixed, bytes: self.bytes@ }
    }
}

/// What a sequence of parts holds.
pub open spec fn part_views(parts: Seq<Part>) -> Seq<PartView> {
    parts.map_values(|p: Part| p@)
}

/// Appends bytes to bytes.
pub fn append_bytes(buffer: &mut Vec<u8>, more: &[u8])
    ensures
        final(buffer)@ == old(buffer)@ + more@,
{
    let mut i: usize = 0;
    while i < more.len()
        invariant
            i <= more@.len(),
            buffer@ == old(buffer)@ + more@.take(i as int),
        decreases more@.len() - i,
    {
        buffer.push(more[i]);
        assert(buffer@ =~= old(buffer)@ + more@.take(i + 1));
        i = i + 1;
    }
    assert(more@.take(i as int) =~= more@);
}

/// The encoding of a value that is made of parts. There is none where an offset could not be
/// written in its bytes.
pub fn encode_container(parts: &Vec<Part>) -> (r: Option<Vec<u8>>)
    ensures
        match r {
            Some(bytes) => container_len(part_views(parts@)) <= u32::MAX && bytes@ == container(
                part_views(parts@),
            ),
            None => container_len(part_views(parts@)) > u32::MAX,
        },
{
    let ghost all = part_views(parts@);
    let mut base: usize = 0;
    let mut behind: usize = 0;
    let mut i: usize = 0;
    while i < parts.len()
        invariant
            i <= parts@.len(),
            all == part_views(parts@),
            base == head_len(all.take(i as int)),
            behind == tail_len(all.take(i as int)),
            base + behind <= u32::MAX,
        decreases parts@.len() - i,
    {
        let size: usize = parts[i].bytes.len();
        proof {
            lemma_next_part(all, i as int, 0);
            lemma_prefix_lengths(all, i + 1);
        }
        let front: usize = if parts[i].fixed {
            size
        } else {
            BYTES_PER_OFFSET
        };
        let back: usize = if parts[i].fixed {
            0
        } else {
            size
        };
        let limit: usize = u32::MAX as usize - base - behind;
        if front > limit || back > limit - front {
            return None;
        }
        base = base + front;
        behind = behind + back;
        i = i + 1;
    }
    assert(all.take(i as int) =~= all);
    let mut r: Vec<u8> = Vec::new();
    let mut offset: usize = base;
    i = 0;
    proof {
        lemma_prefix_lengths(all, 0);
    }
    while i < parts.len()
        invariant
            i <= parts@.len(),
            all == part_views(parts@),
            container_len(all) <= u32::MAX,
            base == head_len(all),
            offset == base + tail_len(all.take(i as int)),
            r@ == heads(all.take(i as int), base as nat),
        decreases parts@.len() - i,
    {
        proof {
            lemma_next_part(all, i as int, base as nat);
            lemma_prefix_lengths(all, i + 1);
        }
        if parts[i].fixed {
            append_bytes(&mut r, parts[i].bytes.as_slice());
        } else {
            let encoded = u32_to_le_bytes(offset as u32);
            append_bytes(&mut r, encoded.as_slice());
            offset = offset + parts[i].bytes.len();
        }
        i = i + 1;
    }
    assert(all.take(i as int) =~= all);
    i = 0;
    while i < parts.len()
        invariant
            i <= parts@.len(),
            all == part_views(parts@),
            r@ == heads(all, base as nat) + tails(all.take(i as int)),
        decreases parts@.len() - i,
    {
        proof {
            lemma_next_part(all, i as int, base as nat);
        }
        if !parts[i].fixed {
            append_bytes(&mut r, parts[i].bytes.as_slice());
        }
        assert(r@ =~= heads(all, base as nat) + tails(all.take(i + 1)));
        i = i + 1;
    }
    assert(all.take(i as int) =~= all);
    Some(r)
}

/// How many bytes parts of these lengths take in front. A part without a length is variable.
pub open spec fn schema_len(schema: Seq<Option<usize>>) -> nat
    decreases schema.len(),
{
    if schema.len() == 0 {
        0
    } else {
        schema_len(schema.drop_last()) + match schema.last() {
            Some(n) => n as nat,
            None => BYTES_PER_OFFSET as nat,
        }
    }
}

/// Whether the parts have the given lengths. A part without a length is variable.
pub open spec fn fits(parts: Seq<PartView>, schema: Seq<Option<usize>>) -> bool {
    &&& parts.len() == schema.len()
    &&& forall|i: int|
        0 <= i < parts.len() ==> match schema[i] {
            Some(n) => (#[trigger] parts[i]).fixed && parts[i].bytes.len() == n,
            None => !parts[i].fixed,
        }
}

/// Whether `bytes` encodes these parts, and they have the given lengths.
pub open spec fn encodes(
    bytes: Seq<u8>,
    parts: Seq<PartView>,
    schema: Seq<Option<usize>>,
) -> bool {
    fits(parts, schema) && container_len(parts) <= u32::MAX && bytes == container(parts)
}

proof fn lemma_schema_next(schema: Seq<Option<usize>>, k: int)
    requires
        0 <= k < schema.len(),
    ensures
        schema_len(schema.take(k + 1)) == schema_len(schema.take(k)) + match schema[k] {
            Some(n) => n as nat,
            None => BYTES_PER_OFFSET as nat,
        },
        schema_len(schema.take(k + 1)) <= schema_len(schema),
    decreases schema.len() - k,
{
    assert(schema.take(k + 1).drop_last() =~= schema.take(k));
    if k + 1 < schema.len() {
        lemma_schema_next(schema, k + 1);
    } else {
        assert(schema.take(k + 1) =~= schema);
    }
}

/// Parts take as much room in front as their lengths say.
proof fn lemma_fits_len(parts: Seq<PartView>, schema: Seq<Option<usize>>, k: int)
    requires
        fits(parts, schema),
        0 <= k <= parts.len(),
    ensures
        head_len(parts.take(k)) == schema_len(schema.take(k)),
    decreases k,
{
    if k > 0 {
        lemma_fits_len(parts, schema, k - 1);
        lemma_next_part(parts, k - 1, 0);
        lemma_schema_next(schema, k - 1);
        assert(parts[k - 1].fixed == (schema[k - 1] is Some));
    }
}

/// What the parts of an encoding are, by the lengths and the items.
pub open spec fn parts_of(items: Seq<Seq<u8>>, schema: Seq<Option<usize>>) -> Seq<PartView> {
    Seq::new(
        items.len(),
        |i: int| PartView { fixed: schema[i] is Some, bytes: items[i] },
    )
}

/// What a sequence of byte vectors holds.
pub open spec fn byte_views(items: Seq<Vec<u8>>) -> Seq<Seq<u8>> {
    items.map_values(|v: Vec<u8>| v@)
}

/// Where a decoder has found the parts: `ends[k]` is where the variable parts before part `k`
/// end.
spec fn found(
    bytes: Seq<u8>,
    parts: Seq<PartView>,
    schema: Seq<Option<usize>>,
    ends: Seq<int>,
    k: int,
) -> bool {
    let h = schema_len(schema.take(k)) as int;
    match schema[k] {
        Some(n) => {
            &&& parts[k].fixed
            &&& parts[k].bytes.len() == n
            &&& bytes.subrange(h, h + n) == parts[k].bytes
            &&& ends[k + 1] == ends[k]
        },
        None => {
            &&& !parts[k].fixed
            &&& ends[k] == spec_u32_from_le_bytes(bytes.subrange(h, h + 4))
            &&& ends[k] <= ends[k + 1] <= bytes.len()
            &&& bytes.subrange(ends[k], ends[k + 1]) == parts[k].bytes
        },
    }
}

/// Parts that a decoder has found, with no byte left over, are what is encoded.
proof fn lemma_rebuild(
    bytes: Seq<u8>,
    parts: Seq<PartView>,
    schema: Seq<Option<usize>>,
    ends: Seq<int>,
    k: int,
)
    requires
        parts.len() == schema.len(),
        ends.len() == parts.len() + 1,
        schema_len(schema) <= bytes.len(),
        ends[0] == schema_len(schema),
        forall|j: int| 0 <= j < parts.len() ==> found(bytes, parts, schema, ends, j),
        0 <= k <= parts.len(),
    ensures
        head_len(parts.take(k)) == schema_len(schema.take(k)),
        tail_len(parts.take(k)) == ends[k] - ends[0],
        ends[0] <= ends[k],
        k > 0 ==> ends[k] <= bytes.len() || ends[k] == ends[0],
        heads(parts.take(k), schema_len(schema)) == bytes.take(schema_len(schema.take(k)) as int),
        tails(parts.take(k)) == bytes.subrange(ends[0], ends[k]),
        ends[k] <= bytes.len(),
    decreases k,
{
    let base = schema_len(schema);
    lemma_auto_spec_u32_to_from_le_bytes();
    if k == 0 {
        assert(heads(parts.take(0), base) =~= bytes.take(0));
        assert(tails(parts.take(0)) =~= bytes.subrange(ends[0], ends[0]));
    } else {
        lemma_rebuild(bytes, parts, schema, ends, k - 1);
        lemma_next_part(parts, k - 1, base);
        lemma_schema_next(schema, k - 1);
        assert(found(bytes, parts, schema, ends, k - 1));
        let h = schema_len(schema.take(k - 1)) as int;
        let h2 = schema_len(schema.take(k)) as int;
        let here = bytes.subrange(h, h2);
        assert(bytes.take(h2) =~= bytes.take(h) + here);
        if parts[k - 1].fixed {
            assert(bytes.subrange(ends[0], ends[k]) =~= bytes.subrange(ends[0], ends[k - 1])
                + Seq::<u8>::empty());
        } else {
            assert(here.len() == 4);
            let at = spec_u32_from_le_bytes(here);
            assert(at as int == ends[k - 1]);
            assert(base + tail_len(parts.take(k - 1)) == at);
            assert(spec_u32_to_le_bytes(at) == here);
            assert(bytes.subrange(ends[0], ends[k]) =~= bytes.subrange(ends[0], ends[k - 1])
                + bytes.subrange(ends[k - 1], ends[k]));
        }
    }
}

/// The bytes from one index up to another, copied.
fn copy_range(bytes: &[u8], from: usize, to: usize) -> (r: Vec<u8>)
    requires
        from <= to <= bytes@.len(),
    ensures
        r@ == bytes@.subrange(from as int, to as int),
{
    let mut r: Vec<u8> = Vec::new();
    append_bytes(&mut r, slice_subrange(bytes, from, to));
    assert(r@ =~= bytes@.subrange(from as int, to as int));
    r
}

/// The parts that `bytes` encodes, where their lengths are as given.
pub fn decode_container(bytes: &[u8], schema: &Vec<Option<usize>>) -> (r: Option<Vec<Vec<u8>>>)
    requires
        schema_len(schema@) <= u32::MAX,
    ensures
        match r {
            Some(items) => {
                &&& items@.len() == schema@.len()
                &&& fits(parts_of(byte_views(items@), schema@), schema@)
                &&& bytes@ == container(parts_of(byte_views(items@), schema@))
            },
            None => forall|parts: Seq<PartView>| !#[trigger] encodes(bytes@, parts, schema@),
        },
{
    let n: usize = schema.len();
    let len: usize = bytes.len();
    let mut base: usize = 0;
    let mut i: usize = 0;
    while i < n
        invariant
            i <= n,
            n == schema@.len(),
            schema_len(schema@) <= u32::MAX,
            base == schema_len(schema@.take(i as int)),
        decreases n - i,
    {
        proof {
            lemma_schema_next(schema@, i as int);
        }
        base =
        base + match schema[i] {
            Some(size) => size,
            None => BYTES_PER_OFFSET,
        };
        i = i + 1;
    }
    assert(schema@.take(i as int) =~= schema@);
    if len < base {
        proof {
            assert forall|parts: Seq<PartView>| !#[trigger] encodes(bytes@, parts, schema@) by {
                if encodes(bytes@, parts, schema@) {
                    lemma_lengths(parts, head_len(parts));
                    lemma_fits_len(parts, schema@, parts.len() as int);
                    assert(parts.take(parts.len() as int) =~= parts);
                }
            }
        }
        return None;
    }
    let mut reversed: Vec<Vec<u8>> = Vec::new();
    let mut end: usize = len;
    let mut at: usize = base;
    let ghost mut ends: Seq<int> = seq![len as int];
    proof {
        assert forall|parts: Seq<PartView>| #[trigger] encodes(bytes@, parts, schema@) implies end
            == base + tail_len(parts.take(i as int)) by {
            lemma_lengths(parts, head_len(parts));
            lemma_fits_len(parts, schema@, parts.len() as int);
            assert(parts.take(parts.len() as int) =~= parts);
        }
    }
    while i > 0
        invariant
            i <= n,
            n == schema@.len(),
            len == bytes@.len(),
            base <= len,
            base == schema_len(schema@),
            base <= u32::MAX,
            at == schema_len(schema@.take(i as int)),
            end <= len,
            reversed@.len() == n - i,
            ends.len() == n - i + 1,
            ends[0] == end,
            ends[n - i] == len,
            forall|j: int|
                i <= j < n ==> #[trigger] found_at(bytes@, reversed@, schema@, ends, i as int, j),
            forall|parts: Seq<PartView>| #[trigger]
                encodes(bytes@, parts, schema@) ==> end == base + tail_len(parts.take(i as int)),
        decreases i,
    {
        let ghost i0 = i as int;
        let ghost reversed0 = reversed@;
        let ghost ends0 = ends;
        i = i - 1;
        proof {
            lemma_schema_next(schema@, i as int);
            assert(schema@.take(n as int) =~= schema@);
        }
        match schema[i] {
            Some(size) => {
                at = at - size;
                let item = copy_range(bytes, at, at + size);
                reversed.push(item);
                proof {
                    ends = seq![end as int] + ends0;
                    assert forall|parts: Seq<PartView>| #[trigger]
                        encodes(bytes@, parts, schema@) implies end == base + tail_len(
                        parts.take(i as int),
                    ) by {
                        lemma_next_part(parts, i as int, 0);
                        assert(parts[i as int].fixed);
                    }
                }
            },
            None => {
                at = at - BYTES_PER_OFFSET;
                let offset: u32 = u32_from_le_bytes(slice_subrange(bytes, at, at + BYTES_PER_OFFSET));
                proof {
                    assert forall|parts: Seq<PartView>| #[trigger]
                        encodes(bytes@, parts, schema@) implies offset == base + tail_len(
                        parts.take(i as int),
                    ) && offset <= end by {
                        lemma_auto_spec_u32_to_from_le_bytes();
                        lemma_part_at(parts, i as int);
                        lemma_fits_len(parts, schema@, i as int);
                        lemma_fits_len(parts, schema@, parts.len() as int);
                        assert(parts.take(parts.len() as int) =~= parts);
                        lemma_prefix_lengths(parts, i as int);
                        lemma_next_part(parts, i as int, 0);
                        assert(!parts[i as int].fixed);
                        let place = (head_len(parts) + tail_len(parts.take(i as int))) as int;
                        assert(place <= u32::MAX);
                        assert(head_len(parts.take(i as int)) == at);
                        assert(bytes@.subrange(at as int, at + 4) == spec_u32_to_le_bytes(
                            place as u32,
                        ));
                        lemma_offset(place as u32);
                    }
                }
                if offset as usize > end {
                    return None;
                }
                let item = copy_range(bytes, offset as usize, end);
                reversed.push(item);
                end = offset as usize;
                proof {
                    ends = seq![end as int] + ends0;
                }
            },
        }
        proof {
            assert forall|j: int| i <= j < n implies #[trigger] found_at(
                bytes@,
                reversed@,
                schema@,
                ends,
                i as int,
                j,
            ) by {
                if j > i {
                    assert(found_at(bytes@, reversed0, schema@, ends0, i0, j));
                    assert(ends[j - i] == ends0[j - i0]);
                    assert(ends[j - i + 1] == ends0[j - i0 + 1]);
                    assert(reversed@[n - 1 - j] == reversed0[n - 1 - j]);
                } else {
                    assert(reversed@[n - 1 - j] == reversed@[reversed0.len() as int]);
                    assert(ends[0] == end);
                    assert(ends[1] == ends0[0]);
                }
            }
        }
    }
    if end != base {
        proof {
            assert forall|parts: Seq<PartView>| !#[trigger] encodes(bytes@, parts, schema@) by {
                if encodes(bytes@, parts, schema@) {
                    assert(tail_len(parts.take(0)) == 0);
                }
            }
        }
        return None;
    }
    let mut items: Vec<Vec<u8>> = Vec::new();
    let ghost collected = reversed@;
    while reversed.len() > 0
        invariant
            collected.len() == n,
            reversed@.len() <= n,
            reversed@ == collected.take(reversed@.len() as int),
            items@.len() == n - reversed@.len(),
            forall|j: int| 0 <= j < items@.len() ==> items@[j] == collected[n - 1 - j],
        decreases reversed@.len(),
    {
        let item = reversed.pop().unwrap();
        items.push(item);
    }
    proof {
        let parts = parts_of(byte_views(items@), schema@);
        assert forall|j: int| 0 <= j < parts.len() implies found(
            bytes@,
            parts,
            schema@,
            ends,
            j,
        ) by {
            assert(found_at(bytes@, collected, schema@, ends, 0, j));
            assert(items@[j] == collected[n - 1 - j]);
        }
        lemma_rebuild(bytes@, parts, schema@, ends, n as int);
        assert(parts.take(n as int) =~= parts);
        assert(schema@.take(n as int) =~= schema@);
        assert(bytes@ =~= bytes@.take(base as int) + bytes@.subrange(base as int, len as int));
        assert(fits(parts, schema@)) by {
            assert forall|j: int| 0 <= j < parts.len() implies match schema@[j] {
                Some(size) => (#[trigger] parts[j]).fixed && parts[j].bytes.len() == size,
                None => !parts[j].fixed,
            } by {
                assert(found(bytes@, parts, schema@, ends, j));
            }
        }
    }
    Some(items)
}

/// Whether part `j` was found, where the parts from `i` on have been, the last one first.
spec fn found_at(
    bytes: Seq<u8>,
    reversed: Seq<Vec<u8>>,
    schema: Seq<Option<usize>>,
    ends: Seq<int>,
    i: int,
    j: int,
) -> bool {
    let h = schema_len(schema.take(j)) as int;
    let item = reversed[schema.len() - 1 - j]@;
    match schema[j] {
        Some(n) => {
            &&& item.len() == n
            &&& bytes.subrange(h, h + n) == item
            &&& ends[j - i + 1] == ends[j - i]
        },
        None => {
            &&& ends[j - i] == spec_u32_from_le_bytes(bytes.subrange(h, h + 4))
            &&& ends[j - i] <= ends[j - i + 1] <= bytes.len()
            &&& bytes.subrange(ends[j - i], ends[j - i + 1]) == item
        },
    }
}

/// Two encodings of parts of the same lengths are the same only where the parts are.
pub proof fn lemma_container_injective(
    a: Seq<PartView>,
    b: Seq<PartView>,
    schema: Seq<Option<usize>>,
)
    requires
        fits(a, schema),
        fits(b, schema),
        container_len(a) <= u32::MAX,
        container_len(b) <= u32::MAX,
        container(a) == container(b),
    ensures
        a == b,
{
    lemma_lengths(a, head_len(a));
    lemma_lengths(b, head_len(b));
    lemma_fits_len(a, schema, a.len() as int);
    lemma_fits_len(b, schema, b.len() as int);
    assert(a.take(a.len() as int) =~= a);
    assert(b.take(b.len() as int) =~= b);
    assert(head_len(a) == head_len(b));
    assert(container(a).len() == head_len(a) + tail_len(a));
    assert(container(b).len() == head_len(b) + tail_len(b));
    assert forall|k: int| 0 <= k < a.len() implies a[k] == b[k] by {
        lemma_parts_agree(a, b, schema, k);
    }
    assert(a =~= b);
}

/// Encodings that are the same agree on each part, from the last one down.
proof fn lemma_parts_agree(
    a: Seq<PartView>,
    b: Seq<PartView>,
    schema: Seq<Option<usize>>,
    k: int,
)
    requires
        fits(a, schema),
        fits(b, schema),
        container_len(a) <= u32::MAX,
        container_len(b) <= u32::MAX,
        container(a) == container(b),
        head_len(a) == head_len(b),
        tail_len(a) == tail_len(b),
        0 <= k < a.len(),
    ensures
        a[k] == b[k],
        tail_len(a.take(k)) == tail_len(b.take(k)),
    decreases a.len() - k,
{
    lemma_auto_spec_u32_to_from_le_bytes();
    if k + 1 < a.len() {
        lemma_parts_agree(a, b, schema, k + 1);
    } else {
        assert(a.take(k + 1) =~= a);
        assert(b.take(k + 1) =~= b);
    }
    lemma_next_part(a, k, 0);
    lemma_next_part(b, k, 0);
    lemma_part_at(a, k);
    lemma_part_at(b, k);
    lemma_fits_len(a, schema, k);
    lemma_fits_len(b, schema, k);
    lemma_prefix_lengths(a, k);
    lemma_prefix_lengths(b, k);
    assert(a[k].fixed == b[k].fixed) by {
        assert(schema[k] is Some <==> a[k].fixed);
        assert(schema[k] is Some <==> b[k].fixed);
    }
    if !a[k].fixed {
        let ta = (head_len(a) + tail_len(a.take(k))) as int;
        let tb = (head_len(b) + tail_len(b.take(k))) as int;
        lemma_offset(ta as u32);
        lemma_offset(tb as u32);
        assert(ta == tb);
    }
    assert(a[k].bytes == b[k].bytes);
}

/// Items as variable parts.
pub open spec fn variables(items: Seq<Seq<u8>>) -> Seq<PartView> {
    items.map_values(|b: Seq<u8>| variable(b))
}

/// The encoding of a list of items of variable length.
pub open spec fn list_of(items: Seq<Seq<u8>>) -> Seq<u8> {
    container(variables(items))
}

/// So many variable parts.
spec fn all_variable(n: nat) -> Seq<Option<usize>> {
    Seq::new(n, |i: int| None::<usize>)
}

proof fn lemma_variables(items: Seq<Seq<u8>>)
    ensures
        fits(variables(items), all_variable(items.len())),
        head_len(variables(items)) == 4 * items.len(),
    decreases items.len(),
{
    let parts = variables(items);
    if items.len() > 0 {
        lemma_variables(items.drop_last());
        assert(parts.drop_last() =~= variables(items.drop_last()));
    }
}

proof fn lemma_all_variable(n: nat)
    ensures
        schema_len(all_variable(n)) == 4 * n,
    decreases n,
{
    if n > 0 {
        lemma_all_variable((n - 1) as nat);
        assert(all_variable(n).drop_last() =~= all_variable((n - 1) as nat));
    }
}

/// The first offset of a list says how many items there are.
proof fn lemma_first_offset(items: Seq<Seq<u8>>)
    requires
        items.len() > 0,
        container_len(variables(items)) <= u32::MAX,
    ensures
        list_of(items).len() >= 4 * items.len(),
        list_of(items).subrange(0, 4) == spec_u32_to_le_bytes((4 * items.len()) as u32),
        spec_u32_from_le_bytes(list_of(items).subrange(0, 4)) == 4 * items.len(),
{
    lemma_auto_spec_u32_to_from_le_bytes();
    let parts = variables(items);
    lemma_variables(items);
    lemma_lengths(parts, head_len(parts));
    lemma_part_at(parts, 0);
    assert(parts.take(0) =~= Seq::<PartView>::empty());
    lemma_offset((4 * items.len()) as u32);
}

/// Two encodings of lists are the same only where the lists are.
pub proof fn lemma_list_injective(a: Seq<Seq<u8>>, b: Seq<Seq<u8>>)
    requires
        container_len(variables(a)) <= u32::MAX,
        container_len(variables(b)) <= u32::MAX,
        list_of(a) == list_of(b),
    ensures
        a == b,
{
    lemma_variables(a);
    lemma_variables(b);
    lemma_lengths(variables(a), head_len(variables(a)));
    lemma_lengths(variables(b), head_len(variables(b)));
    if a.len() > 0 {
        lemma_first_offset(a);
    }
    if b.len() > 0 {
        lemma_first_offset(b);
    }
    assert(a.len() == b.len());
    lemma_container_injective(variables(a), variables(b), all_variable(a.len()));
    assert forall|i: int| 0 <= i < a.len() implies a[i] == b[i] by {
        assert(variables(a)[i].bytes == a[i]);
        assert(variables(b)[i].bytes == b[i]);
    }
    assert(a =~= b);
}

/// The items of variable length that `bytes` encodes.
pub fn decode_list(bytes: &[u8]) -> (r: Option<Vec<Vec<u8>>>)
    ensures
        match r {
            Some(items) => bytes@ == list_of(byte_views(items@)),
            None => forall|items: Seq<Seq<u8>>|
                container_len(variables(items)) <= u32::MAX ==> bytes@ != #[trigger] list_of(items),
        },
{
    let len: usize = bytes.len();
    if len == 0 {
        let items: Vec<Vec<u8>> = Vec::new();
        assert(list_of(byte_views(items@)) =~= bytes@) by {
            assert(variables(byte_views(items@)) =~= Seq::<PartView>::empty());
        }
        return Some(items);
    }
    proof {
        assert forall|items: Seq<Seq<u8>>|
            container_len(variables(items)) <= u32::MAX && bytes@ == #[trigger] list_of(
                items,
            ) implies items.len() > 0 && len >= 4 * items.len() && spec_u32_from_le_bytes(
            bytes@.subrange(0, 4),
        ) == 4 * items.len() by {
            if items.len() == 0 {
                assert(variables(items) =~= Seq::<PartView>::empty());
                assert(list_of(items) =~= Seq::<u8>::empty());
            } else {
                lemma_first_offset(items);
            }
        }
    }
    if len < BYTES_PER_OFFSET {
        return None;
    }
    let first: u32 = u32_from_le_bytes(slice_subrange(bytes, 0, BYTES_PER_OFFSET));
    if first % 4 != 0 || first < 4 || first as usize > len {
        return None;
    }
    let n: usize = first as usize / BYTES_PER_OFFSET;
    let mut schema: Vec<Option<usize>> = Vec::new();
    let mut i: usize = 0;
    while i < n
        invariant
            i <= n,
            schema@ =~= all_variable(i as nat),
        decreases n - i,
    {
        schema.push(None);
        i = i + 1;
    }
    proof {
        lemma_all_variable(n as nat);
    }
    let r = decode_container(bytes, &schema);
    proof {
        match &r {
            Some(items) => {
                assert(parts_of(byte_views(items@), schema@) =~= variables(byte_views(items@)));
            },
            None => {
                assert forall|items: Seq<Seq<u8>>|
                    container_len(variables(items)) <= u32::MAX implies bytes@
                    != #[trigger] list_of(items) by {
                    if bytes@ == list_of(items) {
                        lemma_variables(items);
                        assert(encodes(bytes@, variables(items), schema@));
                    }
                }
            },
        }
    }
    r
}

/// The encoding of a list of items of fixed length: one after the other.
pub open spec fn joined(items: Seq<Seq<u8>>) -> Seq<u8> {
    tails(variables(items))
}

/// Whether every item has this length.
pub open spec fn all_sized(items: Seq<Seq<u8>>, size: nat) -> bool {
    forall|i: int| 0 <= i < items.len() ==> (#[trigger] items[i]).len() == size
}

/// What one more item adds to a list of items of fixed length.
pub proof fn lemma_joined_next(items: Seq<Seq<u8>>, k: int)
    requires
        0 <= k < items.len(),
    ensures
        joined(items.take(k + 1)) == joined(items.take(k)) + items[k],
        joined(items.take(k)).len() + items[k].len() <= joined(items).len(),
        joined(items).subrange(
            joined(items.take(k)).len() as int,
            (joined(items.take(k)).len() + items[k].len()) as int,
        ) == items[k],
{
    let parts = variables(items);
    assert(variables(items.take(k)) =~= parts.take(k));
    assert(variables(items.take(k + 1)) =~= parts.take(k + 1));
    lemma_next_part(parts, k, 0);
    lemma_tails_at(parts, k);
    lemma_lengths(parts.take(k), 0);
    assert(!parts[k].fixed && parts[k].bytes == items[k]);
}

/// The items of this length that `bytes` encodes.
pub fn decode_chunks(bytes: &[u8], size: usize) -> (r: Option<Vec<Vec<u8>>>)
    requires
        size > 0,
    ensures
        match r {
            Some(items) => all_sized(byte_views(items@), size as nat) && bytes@ == joined(
                byte_views(items@),
            ),
            None => forall|items: Seq<Seq<u8>>|
                all_sized(items, size as nat) ==> bytes@ != #[trigger] joined(items),
        },
{
    let len: usize = bytes.len();
    let mut items: Vec<Vec<u8>> = Vec::new();
    let mut at: usize = 0;
    proof {
        assert(variables(byte_views(items@)) =~= Seq::<PartView>::empty());
        assert(bytes@.take(0) =~= joined(byte_views(items@)));
        assert forall|other: Seq<Seq<u8>>|
            all_sized(other, size as nat) && bytes@ == #[trigger] joined(other) implies other.len()
            >= items@.len() && other.take(items@.len() as int) == byte_views(items@) by {
            assert(other.take(0) =~= byte_views(items@));
        }
    }
    while at < len
        invariant
            at <= len,
            len == bytes@.len(),
            size > 0,
            all_sized(byte_views(items@), size as nat),
            bytes@.take(at as int) == joined(byte_views(items@)),
            forall|other: Seq<Seq<u8>>|
                all_sized(other, size as nat) && bytes@ == #[trigger] joined(other) ==> other.len()
                    >= items@.len() && other.take(items@.len() as int) == byte_views(items@),
        decreases len - at,
    {
        let ghost held = byte_views(items@);
        let ghost k = items@.len() as int;
        proof {
            assert forall|other: Seq<Seq<u8>>|
                all_sized(other, size as nat) && bytes@ == #[trigger] joined(
                    other,
                ) implies other.len() > k && at + size <= len && bytes@.subrange(
                at as int,
                at + size,
            ) == other[k] by {
                assert(other.take(k) == held);
                assert(joined(held).len() == at);
                if other.len() == k {
                    assert(other.take(k) =~= other);
                } else {
                    lemma_joined_next(other, k);
                    assert(other[k].len() == size);
                }
            }
        }
        if size > len - at {
            return None;
        }
        let item = copy_range(bytes, at, at + size);
        items.push(item);
        proof {
            let now = byte_views(items@);
            assert(now =~= held.push(item@));
            assert(now.take(k) =~= held);
            assert(now.take(k + 1) =~= now);
            lemma_joined_next(now, k);
            assert(bytes@.take(at + size) =~= bytes@.take(at as int) + item@);
            assert forall|other: Seq<Seq<u8>>|
                all_sized(other, size as nat) && bytes@ == #[trigger] joined(
                    other,
                ) implies other.len() >= items@.len() && other.take(items@.len() as int) == now by {
                assert(other.take(k + 1) =~= other.take(k).push(other[k]));
            }
        }
        at = at + size;
    }
    assert(bytes@.take(at as int) =~= bytes@);
    Some(items)
}

/// Where the encoding of a list of items of variable length has them: the offsets stand in front, in
/// order, and the items follow without a gap.
pub proof fn law_list_layout(items: Seq<Seq<u8>>, k: int) -> (at: int)
    requires
        0 <= k < items.len(),
        list_of(items).len() <= u32::MAX,
    ensures
        list_of(items).subrange(4 * k, 4 * k + 4) == spec_u32_to_le_bytes(at as u32),
        4 * items.len() <= at,
        at + items[k].len() <= list_of(items).len(),
        list_of(items).subrange(at, at + items[k].len()) == items[k],
        k == 0 ==> at == 4 * items.len(),
        k > 0 ==> list_of(items).subrange(4 * k - 4, 4 * k) == spec_u32_to_le_bytes(
            (at - items[k - 1].len()) as u32,
        ),
        k == items.len() - 1 ==> at + items[k].len() == list_of(items).len(),
{
    let parts = variables(items);
    lemma_part_at(parts, k);
    lemma_variables_front(items, k);
    lemma_variables_front(items, items.len() as int);
    assert(parts.take(items.len() as int) =~= parts);
    lemma_lengths(parts, head_len(parts));
    lemma_next_part(parts, k, 0);
    if k == 0 {
        assert(parts.take(0) =~= Seq::<PartView>::empty());
    } else {
        lemma_part_at(parts, k - 1);
        lemma_variables_front(items, k - 1);
        lemma_next_part(parts, k - 1, 0);
    }
    if k == items.len() - 1 {
        assert(parts.take(k + 1) =~= parts);
    }
    (head_len(parts) + tail_len(parts.take(k))) as int
}

/// Offsets take four bytes each.
proof fn lemma_variables_front(items: Seq<Seq<u8>>, k: int)
    requires
        0 <= k <= items.len(),
    ensures
        head_len(variables(items).take(k)) == 4 * k,
    decreases k,
{
    let parts = variables(items);
    if k == 0 {
        assert(parts.take(0) =~= Seq::<PartView>::empty());
    } else {
        lemma_variables_front(items, k - 1);
        lemma_next_part(parts, k - 1, 0);
    }
}

/// Where the encoding of a list of items of fixed length has them.
pub proof fn law_joined_layout(items: Seq<Seq<u8>>, size: nat, k: int)
    requires
        all_sized(items, size),
        0 <= k < items.len(),
    ensures
        joined(items).len() == size * items.len(),
        joined(items).subrange(size * k, size * k + size) == items[k],
{
    lemma_joined_front(items, size, k);
    lemma_joined_front(items, size, items.len() as int);
    assert(items.take(items.len() as int) =~= items);
    lemma_joined_next(items, k);
}

proof fn lemma_joined_front(items: Seq<Seq<u8>>, size: nat, k: int)
    requires
        all_sized(items, size),
        0 <= k <= items.len(),
    ensures
        joined(items.take(k)).len() == size * k,
    decreases k,
{
    if k == 0 {
        assert(items.take(0) =~= Seq::<Seq<u8>>::empty());
        assert(variables(items.take(0)) =~= Seq::<PartView>::empty());
        assert(size * 0 == 0) by (nonlinear_arith);
    } else {
        lemma_joined_front(items, size, k - 1);
        lemma_joined_next(items, k - 1);
        assert(size * k == size * (k - 1) + size) by (nonlinear_arith);
    }
}

} // verus!
