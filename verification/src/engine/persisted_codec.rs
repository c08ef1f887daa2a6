//! How the stored state of the engine is encoded.

use crate::codec::{fixed_part, lemma_hash_bytes, lemma_u64, to_array, to_vec, variable_part};
use crate::encoded::{
    all_valid, decode_items, encode_items, lemma_list_encoding_injective, lemma_part_len,
    list_encoding, views_of, Encoded,
};
use crate::engine::forkchoice::ForkchoiceState;
use crate::engine::persisted_state::{
    PersistedBlockNumberMapping, PersistedBlockProofs, PersistedParentChildren,
    PersistedProofEngineState, PersistedRequestBuffer, PersistedTreeState, RequestRootMapping,
};
use crate::engine::state_model::PayloadRequestView;
use crate::execution_proof::{views, SignedExecutionProof};
use crate::hash::{ExecutionBlockHash, Hash256};
use crate::proof_data::MAX_PROOF_SIZE;
use crate::ssz::{
    all_sized, append_bytes, byte_views, container, container_len, decode_chunks, decode_container,
    encode_container, encodes, fits, fixed, head_len, joined, lemma_container_injective,
    lemma_joined_next, lemma_lengths, lemma_next_part, lemma_part_at, part_views, parts_of,
    schema_len, tails, variable, variables, Part, PartView,
};
use vstd::bytes::{
    spec_u32_to_le_bytes, spec_u64_to_le_bytes, u64_from_le_bytes, u64_to_le_bytes,
};
use vstd::prelude::*;
use vstd::slice::slice_subrange;

verus! {

/// Two lists of items of one length are encoded alike only where the lists are the same.
proof fn lemma_joined_injective(a: Seq<Seq<u8>>, b: Seq<Seq<u8>>, size: nat, k: int)
    requires
        size > 0,
        all_sized(a, size),
        all_sized(b, size),
        joined(a) == joined(b),
        0 <= k <= a.len(),
    ensures
        k <= b.len(),
        a.take(k) == b.take(k),
    decreases k,
{
    if k == 0 {
        assert(a.take(0) =~= b.take(0));
    } else {
        lemma_joined_injective(a, b, size, k - 1);
        lemma_joined_next(a, k - 1);
        if b.len() == k - 1 {
            assert(b.take(k - 1) =~= b);
        } else {
            lemma_joined_next(b, k - 1);
            assert(a[k - 1].len() == size && b[k - 1].len() == size);
            assert(a.take(k) =~= a.take(k - 1).push(a[k - 1]));
            assert(b.take(k) =~= b.take(k - 1).push(b[k - 1]));
        }
    }
}

/// The bytes of block hashes.
pub open spec fn hash_items(hashes: Seq<ExecutionBlockHash>) -> Seq<Seq<u8>> {
    hashes.map_values(|h: ExecutionBlockHash| h.0.0@)
}

/// The encoding of a list of block hashes.
pub open spec fn hashes_encoding(hashes: Seq<ExecutionBlockHash>) -> Seq<u8> {
    joined(hash_items(hashes))
}

proof fn lemma_hashes_injective(a: Seq<ExecutionBlockHash>, b: Seq<ExecutionBlockHash>)
    requires
        hashes_encoding(a) == hashes_encoding(b),
    ensures
        a == b,
{
    let x = hash_items(a);
    let y = hash_items(b);
    assert(all_sized(x, 32) && all_sized(y, 32));
    lemma_joined_injective(x, y, 32, x.len() as int);
    lemma_joined_injective(y, x, 32, y.len() as int);
    assert(x.take(x.len() as int) =~= x);
    assert(y.take(y.len() as int) =~= y);
    assert forall|i: int| 0 <= i < a.len() implies a[i] == b[i] by {
        assert(x[i] == y[i]);
        lemma_hash_bytes(a[i].0, b[i].0);
    }
    assert(a =~= b);
}

/// The encoding of a list of block hashes.
fn encode_hashes(hashes: &Vec<ExecutionBlockHash>) -> (r: Vec<u8>)
    ensures
        r@ == hashes_encoding(hashes@),
{
    let ghost items = hash_items(hashes@);
    let mut r: Vec<u8> = Vec::new();
    let mut i: usize = 0;
    assert(joined(items.take(0)) =~= Seq::<u8>::empty()) by {
        assert(variables(items.take(0)) =~= Seq::<PartView>::empty());
    }
    while i < hashes.len()
        invariant
            i <= hashes@.len(),
            items == hash_items(hashes@),
            r@ == joined(items.take(i as int)),
        decreases hashes@.len() - i,
    {
        append_bytes(&mut r, hashes[i].0.0.as_slice());
        proof {
            lemma_joined_next(items, i as int);
        }
        i = i + 1;
    }
    assert(items.take(i as int) =~= items);
    r
}

/// The list of block hashes that bytes encode.
fn decode_hashes(bytes: &[u8]) -> (r: Option<Vec<ExecutionBlockHash>>)
    ensures
        match r {
            Some(hashes) => bytes@ == hashes_encoding(hashes@),
            None => forall|hashes: Seq<ExecutionBlockHash>| bytes@ != #[trigger] hashes_encoding(
                hashes,
            ),
        },
{
    let chunks = match decode_chunks(bytes, 32) {
        Some(chunks) => chunks,
        None => {
            proof {
                assert forall|hashes: Seq<ExecutionBlockHash>| bytes@
                    != #[trigger] hashes_encoding(hashes) by {
                    assert(all_sized(hash_items(hashes), 32));
                }
            }
            return None;
        },
    };
    let ghost raw = byte_views(chunks@);
    let mut hashes: Vec<ExecutionBlockHash> = Vec::new();
    let mut i: usize = 0;
    while i < chunks.len()
        invariant
            i <= chunks@.len(),
            raw == byte_views(chunks@),
            all_sized(raw, 32),
            hashes@.len() == i,
            forall|j: int| 0 <= j < i ==> (#[trigger] hashes@[j]).0.0@ == raw[j],
        decreases chunks@.len() - i,
    {
        assert(raw[i as int].len() == 32);
        hashes.push(ExecutionBlockHash(Hash256(to_array(chunks[i].as_slice()))));
        i = i + 1;
    }
    assert(hash_items(hashes@) =~= raw);
    Some(hashes)
}

/// The encoding of a root link: the root and the block.
pub open spec fn mapping_encoding(m: RequestRootMapping) -> Seq<u8> {
    m.request_root.0@ + m.block_hash.0.0@
}

/// The encodings of root links.
pub open spec fn mapping_items(mappings: Seq<RequestRootMapping>) -> Seq<Seq<u8>> {
    mappings.map_values(|m: RequestRootMapping| mapping_encoding(m))
}

/// The encoding of a list of root links.
pub open spec fn mappings_encoding(mappings: Seq<RequestRootMapping>) -> Seq<u8> {
    joined(mapping_items(mappings))
}

proof fn lemma_mapping_injective(a: RequestRootMapping, b: RequestRootMapping)
    requires
        mapping_encoding(a) == mapping_encoding(b),
    ensures
        a == b,
{
    let x = mapping_encoding(a);
    let y = mapping_encoding(b);
    assert(x.subrange(0, 32) =~= a.request_root.0@);
    assert(y.subrange(0, 32) =~= b.request_root.0@);
    assert(x.subrange(32, 64) =~= a.block_hash.0.0@);
    assert(y.subrange(32, 64) =~= b.block_hash.0.0@);
    lemma_hash_bytes(a.request_root, b.request_root);
    lemma_hash_bytes(a.block_hash.0, b.block_hash.0);
}

proof fn lemma_mappings_injective(a: Seq<RequestRootMapping>, b: Seq<RequestRootMapping>)
    requires
        mappings_encoding(a) == mappings_encoding(b),
    ensures
        a == b,
{
    let x = mapping_items(a);
    let y = mapping_items(b);
    assert(all_sized(x, 64) && all_sized(y, 64));
    lemma_joined_injective(x, y, 64, x.len() as int);
    lemma_joined_injective(y, x, 64, y.len() as int);
    assert(x.take(x.len() as int) =~= x);
    assert(y.take(y.len() as int) =~= y);
    assert forall|i: int| 0 <= i < a.len() implies a[i] == b[i] by {
        assert(x[i] == y[i]);
        lemma_mapping_injective(a[i], b[i]);
    }
    assert(a =~= b);
}

/// The encoding of a list of root links.
fn encode_mappings(mappings: &Vec<RequestRootMapping>) -> (r: Vec<u8>)
    ensures
        r@ == mappings_encoding(mappings@),
{
    let ghost items = mapping_items(mappings@);
    let mut r: Vec<u8> = Vec::new();
    let mut i: usize = 0;
    assert(joined(items.take(0)) =~= Seq::<u8>::empty()) by {
        assert(variables(items.take(0)) =~= Seq::<PartView>::empty());
    }
    while i < mappings.len()
        invariant
            i <= mappings@.len(),
            items == mapping_items(mappings@),
            r@ == joined(items.take(i as int)),
        decreases mappings@.len() - i,
    {
        let ghost before = r@;
        append_bytes(&mut r, mappings[i].request_root.0.as_slice());
        append_bytes(&mut r, mappings[i].block_hash.0.0.as_slice());
        proof {
            assert(r@ =~= before + mapping_encoding(mappings@[i as int]));
            lemma_joined_next(items, i as int);
        }
        i = i + 1;
    }
    assert(items.take(i as int) =~= items);
    r
}

/// The list of root links that bytes encode.
fn decode_mappings(bytes: &[u8]) -> (r: Option<Vec<RequestRootMapping>>)
    ensures
        match r {
            Some(mappings) => bytes@ == mappings_encoding(mappings@),
            None => forall|mappings: Seq<RequestRootMapping>| bytes@
                != #[trigger] mappings_encoding(mappings),
        },
{
    let chunks = match decode_chunks(bytes, 64) {
        Some(chunks) => chunks,
        None => {
            proof {
                assert forall|mappings: Seq<RequestRootMapping>| bytes@
                    != #[trigger] mappings_encoding(mappings) by {
                    assert(all_sized(mapping_items(mappings), 64));
                }
            }
            return None;
        },
    };
    let ghost raw = byte_views(chunks@);
    let mut mappings: Vec<RequestRootMapping> = Vec::new();
    let mut i: usize = 0;
    while i < chunks.len()
        invariant
            i <= chunks@.len(),
            raw == byte_views(chunks@),
            all_sized(raw, 64),
            mappings@.len() == i,
            forall|j: int| 0 <= j < i ==> mapping_encoding(#[trigger] mappings@[j]) == raw[j],
        decreases chunks@.len() - i,
    {
        assert(raw[i as int].len() == 64);
        let chunk = chunks[i].as_slice();
        let mapping = RequestRootMapping {
            request_root: Hash256(to_array(slice_subrange(chunk, 0, 32))),
            block_hash: ExecutionBlockHash(Hash256(to_array(slice_subrange(chunk, 32, 64)))),
        };
        assert(mapping_encoding(mapping) =~= raw[i as int]);
        mappings.push(mapping);
        i = i + 1;
    }
    assert(mapping_items(mappings@) =~= raw);
    Some(mappings)
}

/// The parts of a stored request.
pub open spec fn block_parts(v: PayloadRequestView) -> Seq<PartView> {
    seq![
        fixed(v.metadata.block_hash.0.0@),
        fixed(v.metadata.request_root.0@),
        fixed(v.metadata.parent_hash.0.0@),
        fixed(spec_u64_to_le_bytes(v.metadata.block_number)),
        variable(list_encoding::<SignedExecutionProof>(v.proofs)),
    ]
}

/// The lengths of the parts of a stored request.
pub open spec fn block_schema() -> Seq<Option<usize>> {
    seq![Some(32), Some(32), Some(32), Some(8), None]
}

proof fn lemma_block_parts(v: PayloadRequestView)
    ensures
        fits(block_parts(v), block_schema()),
        schema_len(block_schema()) == 108,
        list_encoding::<SignedExecutionProof>(v.proofs).len() <= container(block_parts(v)).len(),
        container(block_parts(v)).len() == container_len(block_parts(v)),
{
    lemma_u64(v.metadata.block_number, Seq::empty());
    lemma_part_len(block_parts(v), 4);
    assert(block_parts(v)[4].bytes == list_encoding::<SignedExecutionProof>(v.proofs));
    lemma_block_schema();
}

proof fn lemma_block_schema()
    ensures
        schema_len(block_schema()) == 108,
{
    reveal_with_fuel(schema_len, 6);
    let s = block_schema();
    let s4 = s.drop_last();
    let s3 = s4.drop_last();
    let s2 = s3.drop_last();
    let s1 = s2.drop_last();
    assert(s1.drop_last() =~= Seq::<Option<usize>>::empty());
    assert(s4.last() == s[3] && s3.last() == s[2] && s2.last() == s[1] && s1.last() == s[0]);
}

/// What signed proofs hold, as lists of encoded values see it.
proof fn lemma_views(proofs: Seq<SignedExecutionProof>)
    ensures
        views(proofs) == views_of(proofs),
{
    assert(views(proofs) =~= views_of(proofs));
}

impl Encoded for PersistedBlockProofs {
    open spec fn valid(v: PayloadRequestView) -> bool {
        all_valid::<SignedExecutionProof>(v.proofs)
    }

    open spec fn encoding(v: PayloadRequestView) -> Seq<u8> {
        container(block_parts(v))
    }

    proof fn injective(a: PayloadRequestView, b: PayloadRequestView) {
        lemma_block_parts(a);
        lemma_block_parts(b);
        let x = block_parts(a);
        let y = block_parts(b);
        lemma_container_injective(x, y, block_schema());
        assert(x[0] == y[0] && x[1] == y[1] && x[2] == y[2] && x[3] == y[3] && x[4] == y[4]);
        lemma_hash_bytes(a.metadata.block_hash.0, b.metadata.block_hash.0);
        lemma_hash_bytes(a.metadata.request_root, b.metadata.request_root);
        lemma_hash_bytes(a.metadata.parent_hash.0, b.metadata.parent_hash.0);
        lemma_u64(a.metadata.block_number, Seq::empty());
        lemma_u64(b.metadata.block_number, Seq::empty());
        lemma_list_encoding_injective::<SignedExecutionProof>(a.proofs, b.proofs);
    }

    fn encode(&self) -> (r: Option<Vec<u8>>) {
        proof {
            lemma_views(self.proofs@);
            lemma_block_parts(self@);
        }
        let proofs = match encode_items(&self.proofs) {
            Some(proofs) => proofs,
            None => return None,
        };
        let mut parts: Vec<Part> = Vec::new();
        parts.push(fixed_part(to_vec(self.block_hash.0.0.as_slice())));
        parts.push(fixed_part(to_vec(self.request_root.0.as_slice())));
        parts.push(fixed_part(to_vec(self.parent_hash.0.0.as_slice())));
        parts.push(fixed_part(u64_to_le_bytes(self.block_number)));
        parts.push(variable_part(proofs));
        assert(part_views(parts@) =~= block_parts(self@));
        encode_container(&parts)
    }

    fn decode(bytes: &[u8]) -> (r: Option<Self>) {
        let mut schema: Vec<Option<usize>> = Vec::new();
        schema.push(Some(32));
        schema.push(Some(32));
        schema.push(Some(32));
        schema.push(Some(8));
        schema.push(None);
        proof {
            lemma_block_schema();
            assert(schema@ =~= block_schema());
            assert forall|v: PayloadRequestView|
                Self::encoding(v).len() <= u32::MAX && bytes@ == #[trigger] Self::encoding(
                    v,
                ) implies encodes(bytes@, block_parts(v), schema@) by {
                lemma_block_parts(v);
            }
        }
        let items = match decode_container(bytes, &schema) {
            Some(items) => items,
            None => return None,
        };
        let ghost parts = parts_of(byte_views(items@), schema@);
        proof {
            assert(parts[0].bytes == items@[0]@);
            assert(parts[1].bytes == items@[1]@);
            assert(parts[2].bytes == items@[2]@);
            assert(parts[3].bytes == items@[3]@);
            assert(parts[4].bytes == items@[4]@);
        }
        let block_number: u64 = u64_from_le_bytes(items[3].as_slice());
        proof {
            lemma_u64(block_number, items@[3]@);
        }
        match decode_items::<SignedExecutionProof>(items[4].as_slice()) {
            Some(proofs) => {
                let r = PersistedBlockProofs {
                    block_hash: ExecutionBlockHash(Hash256(to_array(items[0].as_slice()))),
                    request_root: Hash256(to_array(items[1].as_slice())),
                    parent_hash: ExecutionBlockHash(Hash256(to_array(items[2].as_slice()))),
                    block_number,
                    proofs,
                };
                proof {
                    lemma_views(r.proofs@);
                    assert(parts =~= block_parts(r@));
                }
                Some(r)
            },
            None => {
                proof {
                    assert forall|v: PayloadRequestView|
                        Self::valid(v) && Self::encoding(v).len() <= u32::MAX implies bytes@
                        != #[trigger] Self::encoding(v) by {
                        if bytes@ == Self::encoding(v) {
                            lemma_block_parts(v);
                            lemma_lengths(parts, head_len(parts));
                            lemma_container_injective(parts, block_parts(v), schema@);
                            assert(parts[4].bytes == list_encoding::<SignedExecutionProof>(
                                v.proofs,
                            ));
                        }
                    }
                }
                None
            },
        }
    }
}

/// The view of stored children: the block and its children.
impl View for PersistedParentChildren {
    type V = (ExecutionBlockHash, Seq<ExecutionBlockHash>);

    open spec fn view(&self) -> (ExecutionBlockHash, Seq<ExecutionBlockHash>) {
        (self.parent, self.children@)
    }
}

/// The parts of stored children.
pub open spec fn children_parts(v: (ExecutionBlockHash, Seq<ExecutionBlockHash>)) -> Seq<PartView> {
    seq![fixed(v.0.0.0@), variable(hashes_encoding(v.1))]
}

/// The lengths of the parts of stored children.
pub open spec fn children_schema() -> Seq<Option<usize>> {
    seq![Some(32), None]
}

proof fn lemma_two_schema(a: usize)
    ensures
        schema_len(seq![Some(a), None::<usize>]) == a + 4,
{
    reveal_with_fuel(schema_len, 3);
    let s = seq![Some(a), None::<usize>];
    assert(s.drop_last().drop_last() =~= Seq::<Option<usize>>::empty());
    assert(s.drop_last().last() == s[0]);
}

impl Encoded for PersistedParentChildren {
    open spec fn valid(v: (ExecutionBlockHash, Seq<ExecutionBlockHash>)) -> bool {
        true
    }

    open spec fn encoding(v: (ExecutionBlockHash, Seq<ExecutionBlockHash>)) -> Seq<u8> {
        container(children_parts(v))
    }

    proof fn injective(
        a: (ExecutionBlockHash, Seq<ExecutionBlockHash>),
        b: (ExecutionBlockHash, Seq<ExecutionBlockHash>),
    ) {
        let x = children_parts(a);
        let y = children_parts(b);
        lemma_lengths(x, head_len(x));
        lemma_lengths(y, head_len(y));
        assert(fits(x, children_schema()) && fits(y, children_schema()));
        lemma_container_injective(x, y, children_schema());
        assert(x[0] == y[0] && x[1] == y[1]);
        lemma_hash_bytes(a.0.0, b.0.0);
        lemma_hashes_injective(a.1, b.1);
    }

    fn encode(&self) -> (r: Option<Vec<u8>>) {
        let mut parts: Vec<Part> = Vec::new();
        parts.push(fixed_part(to_vec(self.parent.0.0.as_slice())));
        parts.push(variable_part(encode_hashes(&self.children)));
        proof {
            let x = children_parts(self@);
            assert(part_views(parts@) =~= x);
            lemma_lengths(x, head_len(x));
        }
        encode_container(&parts)
    }

    fn decode(bytes: &[u8]) -> (r: Option<Self>) {
        let mut schema: Vec<Option<usize>> = Vec::new();
        schema.push(Some(32));
        schema.push(None);
        proof {
            lemma_two_schema(32);
            assert(schema@ =~= children_schema());
            assert forall|v: (ExecutionBlockHash, Seq<ExecutionBlockHash>)|
                Self::encoding(v).len() <= u32::MAX && bytes@ == #[trigger] Self::encoding(
                    v,
                ) implies encodes(bytes@, children_parts(v), schema@) by {
                lemma_lengths(children_parts(v), head_len(children_parts(v)));
            }
        }
        let items = match decode_container(bytes, &schema) {
            Some(items) => items,
            None => return None,
        };
        let ghost parts = parts_of(byte_views(items@), schema@);
        proof {
            assert(parts[0].bytes == items@[0]@);
            assert(parts[1].bytes == items@[1]@);
        }
        match decode_hashes(items[1].as_slice()) {
            Some(children) => {
                let r = PersistedParentChildren {
                    parent: ExecutionBlockHash(Hash256(to_array(items[0].as_slice()))),
                    children,
                };
                assert(parts =~= children_parts(r@));
                Some(r)
            },
            None => {
                proof {
                    assert forall|v: (ExecutionBlockHash, Seq<ExecutionBlockHash>)|
                        Self::encoding(v).len() <= u32::MAX implies bytes@
                        != #[trigger] Self::encoding(v) by {
                        if bytes@ == Self::encoding(v) {
                            let y = children_parts(v);
                            lemma_lengths(parts, head_len(parts));
                            lemma_lengths(y, head_len(y));
                            lemma_container_injective(parts, y, schema@);
                            assert(parts[1].bytes == hashes_encoding(v.1));
                        }
                    }
                }
                None
            },
        }
    }
}

/// The view of stored heights: the height and its blocks.
impl View for PersistedBlockNumberMapping {
    type V = (u64, Seq<ExecutionBlockHash>);

    open spec fn view(&self) -> (u64, Seq<ExecutionBlockHash>) {
        (self.block_number, self.block_hashes@)
    }
}

/// The parts of a stored height.
pub open spec fn number_parts(v: (u64, Seq<ExecutionBlockHash>)) -> Seq<PartView> {
    seq![fixed(spec_u64_to_le_bytes(v.0)), variable(hashes_encoding(v.1))]
}

/// The lengths of the parts of a stored height.
pub open spec fn number_schema() -> Seq<Option<usize>> {
    seq![Some(8), None]
}

proof fn lemma_number_parts(v: (u64, Seq<ExecutionBlockHash>))
    ensures
        fits(number_parts(v), number_schema()),
        container(number_parts(v)).len() == container_len(number_parts(v)),
{
    lemma_u64(v.0, Seq::empty());
    lemma_lengths(number_parts(v), head_len(number_parts(v)));
}

impl Encoded for PersistedBlockNumberMapping {
    open spec fn valid(v: (u64, Seq<ExecutionBlockHash>)) -> bool {
        true
    }

    open spec fn encoding(v: (u64, Seq<ExecutionBlockHash>)) -> Seq<u8> {
        container(number_parts(v))
    }

    proof fn injective(a: (u64, Seq<ExecutionBlockHash>), b: (u64, Seq<ExecutionBlockHash>)) {
        let x = number_parts(a);
        let y = number_parts(b);
        lemma_number_parts(a);
        lemma_number_parts(b);
        lemma_container_injective(x, y, number_schema());
        assert(x[0] == y[0] && x[1] == y[1]);
        lemma_u64(a.0, Seq::empty());
        lemma_u64(b.0, Seq::empty());
        lemma_hashes_injective(a.1, b.1);
    }

    fn encode(&self) -> (r: Option<Vec<u8>>) {
        let mut parts: Vec<Part> = Vec::new();
        parts.push(fixed_part(u64_to_le_bytes(self.block_number)));
        parts.push(variable_part(encode_hashes(&self.block_hashes)));
        proof {
            assert(part_views(parts@) =~= number_parts(self@));
            lemma_number_parts(self@);
        }
        encode_container(&parts)
    }

    fn decode(bytes: &[u8]) -> (r: Option<Self>) {
        let mut schema: Vec<Option<usize>> = Vec::new();
        schema.push(Some(8));
        schema.push(None);
        proof {
            lemma_two_schema(8);
            assert(schema@ =~= number_schema());
            assert forall|v: (u64, Seq<ExecutionBlockHash>)|
                Self::encoding(v).len() <= u32::MAX && bytes@ == #[trigger] Self::encoding(
                    v,
                ) implies encodes(bytes@, number_parts(v), schema@) by {
                lemma_number_parts(v);
            }
        }
        let items = match decode_container(bytes, &schema) {
            Some(items) => items,
            None => return None,
        };
        let ghost parts = parts_of(byte_views(items@), schema@);
        proof {
            assert(parts[0].bytes == items@[0]@);
            assert(parts[1].bytes == items@[1]@);
        }
        let block_number: u64 = u64_from_le_bytes(items[0].as_slice());
        proof {
            lemma_u64(block_number, items@[0]@);
        }
        match decode_hashes(items[1].as_slice()) {
            Some(block_hashes) => {
                let r = PersistedBlockNumberMapping { block_number, block_hashes };
                assert(parts =~= number_parts(r@));
                Some(r)
            },
            None => {
                proof {
                    assert forall|v: (u64, Seq<ExecutionBlockHash>)|
                        Self::encoding(v).len() <= u32::MAX implies bytes@
                        != #[trigger] Self::encoding(v) by {
                        if bytes@ == Self::encoding(v) {
                            let y = number_parts(v);
                            lemma_number_parts(v);
                            lemma_lengths(parts, head_len(parts));
                            lemma_container_injective(parts, y, schema@);
                            assert(parts[1].bytes == hashes_encoding(v.1));
                        }
                    }
                }
                None
            },
        }
    }
}


/// What a stored tree holds.
pub struct PersistedTreeView {
    pub blocks: Seq<PayloadRequestView>,
    pub roots: Seq<RequestRootMapping>,
    pub children: Seq<(ExecutionBlockHash, Seq<ExecutionBlockHash>)>,
    pub numbers: Seq<(u64, Seq<ExecutionBlockHash>)>,
    pub head: ExecutionBlockHash,
}

impl View for PersistedTreeState {
    type V = PersistedTreeView;

    open spec fn view(&self) -> PersistedTreeView {
        PersistedTreeView {
            blocks: views_of(self.proofs_by_block_hash@),
            roots: self.request_root_to_block_hash@,
            children: views_of(self.parent_to_children@),
            numbers: views_of(self.block_number_to_block_hash@),
            head: self.current_canonical_head,
        }
    }
}

/// The parts of a stored tree.
pub open spec fn tree_parts(v: PersistedTreeView) -> Seq<PartView> {
    seq![
        variable(list_encoding::<PersistedBlockProofs>(v.blocks)),
        variable(mappings_encoding(v.roots)),
        variable(list_encoding::<PersistedParentChildren>(v.children)),
        variable(list_encoding::<PersistedBlockNumberMapping>(v.numbers)),
        fixed(v.head.0.0@),
    ]
}

/// The lengths of the parts of a stored tree.
pub open spec fn tree_schema() -> Seq<Option<usize>> {
    seq![None, None, None, None, Some(32)]
}

proof fn lemma_tree_schema()
    ensures
        schema_len(tree_schema()) == 48,
{
    reveal_with_fuel(schema_len, 6);
    let s = tree_schema();
    let s4 = s.drop_last();
    let s3 = s4.drop_last();
    let s2 = s3.drop_last();
    let s1 = s2.drop_last();
    assert(s1.drop_last() =~= Seq::<Option<usize>>::empty());
    assert(s4.last() == s[3] && s3.last() == s[2] && s2.last() == s[1] && s1.last() == s[0]);
}

proof fn lemma_tree_parts(v: PersistedTreeView)
    ensures
        fits(tree_parts(v), tree_schema()),
        container(tree_parts(v)).len() == container_len(tree_parts(v)),
        forall|i: int|
            0 <= i < 5 ==> (#[trigger] tree_parts(v)[i]).bytes.len() <= container(
                tree_parts(v),
            ).len(),
{
    lemma_lengths(tree_parts(v), head_len(tree_parts(v)));
    assert forall|i: int| 0 <= i < 5 implies (#[trigger] tree_parts(v)[i]).bytes.len()
        <= container(tree_parts(v)).len() by {
        lemma_part_len(tree_parts(v), i);
    }
}

/// The encoding of a stored tree.
#[verifier::opaque]
pub open spec fn tree_encoding(v: PersistedTreeView) -> Seq<u8> {
    container(tree_parts(v))
}

impl Encoded for PersistedTreeState {
    open spec fn valid(v: PersistedTreeView) -> bool {
        all_valid::<PersistedBlockProofs>(v.blocks)
    }

    open spec fn encoding(v: PersistedTreeView) -> Seq<u8> {
        tree_encoding(v)
    }

    proof fn injective(a: PersistedTreeView, b: PersistedTreeView) {
        reveal(tree_encoding);
        let x = tree_parts(a);
        let y = tree_parts(b);
        lemma_tree_parts(a);
        lemma_tree_parts(b);
        lemma_container_injective(x, y, tree_schema());
        assert(x[0] == y[0] && x[1] == y[1] && x[2] == y[2] && x[3] == y[3] && x[4] == y[4]);
        lemma_list_encoding_injective::<PersistedBlockProofs>(a.blocks, b.blocks);
        lemma_mappings_injective(a.roots, b.roots);
        lemma_list_encoding_injective::<PersistedParentChildren>(a.children, b.children);
        lemma_list_encoding_injective::<PersistedBlockNumberMapping>(a.numbers, b.numbers);
        lemma_hash_bytes(a.head.0, b.head.0);
    }

    fn encode(&self) -> (r: Option<Vec<u8>>) {
        proof {
            reveal(tree_encoding);
            lemma_tree_parts(self@);
            let parts = tree_parts(self@);
            assert(parts[0].bytes.len() <= container(parts).len());
            assert(parts[2].bytes.len() <= container(parts).len());
            assert(parts[3].bytes.len() <= container(parts).len());
        }
        let blocks = match encode_items(&self.proofs_by_block_hash) {
            Some(bytes) => bytes,
            None => return None,
        };
        let children = match encode_items(&self.parent_to_children) {
            Some(bytes) => bytes,
            None => return None,
        };
        let numbers = match encode_items(&self.block_number_to_block_hash) {
            Some(bytes) => bytes,
            None => return None,
        };
        let mut parts: Vec<Part> = Vec::new();
        parts.push(variable_part(blocks));
        parts.push(variable_part(encode_mappings(&self.request_root_to_block_hash)));
        parts.push(variable_part(children));
        parts.push(variable_part(numbers));
        parts.push(fixed_part(to_vec(self.current_canonical_head.0.0.as_slice())));
        assert(part_views(parts@) =~= tree_parts(self@));
        encode_container(&parts)
    }

    fn decode(bytes: &[u8]) -> (r: Option<Self>) {
        let mut schema: Vec<Option<usize>> = Vec::new();
        schema.push(None);
        schema.push(None);
        schema.push(None);
        schema.push(None);
        schema.push(Some(32));
        proof {
            reveal(tree_encoding);
            lemma_tree_schema();
            assert(schema@ =~= tree_schema());
            assert forall|v: PersistedTreeView|
                Self::encoding(v).len() <= u32::MAX && bytes@ == #[trigger] Self::encoding(
                    v,
                ) implies encodes(bytes@, tree_parts(v), schema@) by {
                lemma_tree_parts(v);
            }
        }
        let items = match decode_container(bytes, &schema) {
            Some(items) => items,
            None => return None,
        };
        let ghost parts = parts_of(byte_views(items@), schema@);
        proof {
            assert(parts[0].bytes == items@[0]@);
            assert(parts[1].bytes == items@[1]@);
            assert(parts[2].bytes == items@[2]@);
            assert(parts[3].bytes == items@[3]@);
            assert(parts[4].bytes == items@[4]@);
            assert forall|v: PersistedTreeView|
                Self::encoding(v).len() <= u32::MAX && bytes@ == #[trigger] Self::encoding(
                    v,
                ) implies Self::encoding(v).len() <= u32::MAX && same_tree_parts(
                parts,
                v,
            ) by {
                lemma_tree_parts(v);
                lemma_lengths(parts, head_len(parts));
                lemma_container_injective(parts, tree_parts(v), schema@);
                let y = tree_parts(v);
                assert(y[0].bytes.len() <= container(y).len());
                assert(y[2].bytes.len() <= container(y).len());
                assert(y[3].bytes.len() <= container(y).len());
            }
        }
        let proofs_by_block_hash = match decode_items::<PersistedBlockProofs>(
            items[0].as_slice(),
        ) {
            Some(items) => items,
            None => return None,
        };
        let request_root_to_block_hash = match decode_mappings(items[1].as_slice()) {
            Some(items) => items,
            None => return None,
        };
        let parent_to_children = match decode_items::<PersistedParentChildren>(
            items[2].as_slice(),
        ) {
            Some(items) => items,
            None => return None,
        };
        let block_number_to_block_hash = match decode_items::<PersistedBlockNumberMapping>(
            items[3].as_slice(),
        ) {
            Some(items) => items,
            None => return None,
        };
        let r = PersistedTreeState {
            proofs_by_block_hash,
            request_root_to_block_hash,
            parent_to_children,
            block_number_to_block_hash,
            current_canonical_head: ExecutionBlockHash(Hash256(to_array(items[4].as_slice()))),
        };
        assert(parts =~= tree_parts(r@));
        Some(r)
    }
}

/// Whether `parts` holds the lists of the stored tree `v`, short enough to be decoded.
spec fn same_tree_parts(parts: Seq<PartView>, v: PersistedTreeView) -> bool {
    &&& parts[0].bytes == list_encoding::<PersistedBlockProofs>(v.blocks)
    &&& parts[1].bytes == mappings_encoding(v.roots)
    &&& parts[2].bytes == list_encoding::<PersistedParentChildren>(v.children)
    &&& parts[3].bytes == list_encoding::<PersistedBlockNumberMapping>(v.numbers)
    &&& parts[0].bytes.len() <= u32::MAX
    &&& parts[2].bytes.len() <= u32::MAX
    &&& parts[3].bytes.len() <= u32::MAX
    &&& all_valid::<PersistedParentChildren>(v.children)
    &&& all_valid::<PersistedBlockNumberMapping>(v.numbers)
}

/// The view of a stored buffer: its requests.
impl View for PersistedRequestBuffer {
    type V = Seq<PayloadRequestView>;

    open spec fn view(&self) -> Seq<PayloadRequestView> {
        views_of(self.requests@)
    }
}

/// The parts of a stored buffer.
pub open spec fn buffer_parts(v: Seq<PayloadRequestView>) -> Seq<PartView> {
    seq![variable(list_encoding::<PersistedBlockProofs>(v))]
}

/// The lengths of the parts of a stored buffer.
pub open spec fn buffer_schema() -> Seq<Option<usize>> {
    seq![None]
}

proof fn lemma_buffer_parts(v: Seq<PayloadRequestView>)
    ensures
        fits(buffer_parts(v), buffer_schema()),
        container(buffer_parts(v)).len() == container_len(buffer_parts(v)),
        list_encoding::<PersistedBlockProofs>(v).len() <= container(buffer_parts(v)).len(),
{
    lemma_part_len(buffer_parts(v), 0);
    assert(buffer_parts(v)[0].bytes == list_encoding::<PersistedBlockProofs>(v));
}

/// The encoding of a stored buffer.
#[verifier::opaque]
pub open spec fn buffer_encoding(v: Seq<PayloadRequestView>) -> Seq<u8> {
    container(buffer_parts(v))
}

impl Encoded for PersistedRequestBuffer {
    open spec fn valid(v: Seq<PayloadRequestView>) -> bool {
        all_valid::<PersistedBlockProofs>(v)
    }

    open spec fn encoding(v: Seq<PayloadRequestView>) -> Seq<u8> {
        buffer_encoding(v)
    }

    proof fn injective(a: Seq<PayloadRequestView>, b: Seq<PayloadRequestView>) {
        reveal(buffer_encoding);
        let x = buffer_parts(a);
        let y = buffer_parts(b);
        lemma_buffer_parts(a);
        lemma_buffer_parts(b);
        lemma_container_injective(x, y, buffer_schema());
        assert(x[0] == y[0]);
        lemma_list_encoding_injective::<PersistedBlockProofs>(a, b);
    }

    fn encode(&self) -> (r: Option<Vec<u8>>) {
        proof {
            reveal(buffer_encoding);
            lemma_buffer_parts(self@);
        }
        let requests = match encode_items(&self.requests) {
            Some(bytes) => bytes,
            None => return None,
        };
        let mut parts: Vec<Part> = Vec::new();
        parts.push(variable_part(requests));
        assert(part_views(parts@) =~= buffer_parts(self@));
        encode_container(&parts)
    }

    fn decode(bytes: &[u8]) -> (r: Option<Self>) {
        let mut schema: Vec<Option<usize>> = Vec::new();
        schema.push(None);
        proof {
            reveal(buffer_encoding);
            assert(schema@ =~= buffer_schema());
            reveal_with_fuel(schema_len, 2);
            assert(schema@.drop_last() =~= Seq::<Option<usize>>::empty());
            assert forall|v: Seq<PayloadRequestView>|
                Self::encoding(v).len() <= u32::MAX && bytes@ == #[trigger] Self::encoding(
                    v,
                ) implies encodes(bytes@, buffer_parts(v), schema@) by {
                lemma_buffer_parts(v);
            }
        }
        let items = match decode_container(bytes, &schema) {
            Some(items) => items,
            None => return None,
        };
        let ghost parts = parts_of(byte_views(items@), schema@);
        proof {
            assert(parts[0].bytes == items@[0]@);
        }
        match decode_items::<PersistedBlockProofs>(items[0].as_slice()) {
            Some(requests) => {
                let r = PersistedRequestBuffer { requests };
                assert(parts =~= buffer_parts(r@));
                Some(r)
            },
            None => {
                proof {
                    assert forall|v: Seq<PayloadRequestView>|
                        Self::valid(v) && Self::encoding(v).len() <= u32::MAX implies bytes@
                        != #[trigger] Self::encoding(v) by {
                        if bytes@ == Self::encoding(v) {
                            lemma_buffer_parts(v);
                            lemma_lengths(parts, head_len(parts));
                            lemma_container_injective(parts, buffer_parts(v), schema@);
                            assert(parts[0].bytes == list_encoding::<PersistedBlockProofs>(v));
                        }
                    }
                }
                None
            },
        }
    }
}

/// The encoding of a fork choice state: the head, the safe block, the finalized block.
pub open spec fn fcs_encoding(fcs: ForkchoiceState) -> Seq<u8> {
    fcs.head_block_hash.0.0@ + fcs.safe_block_hash.0.0@ + fcs.finalized_block_hash.0.0@
}

/// The encoding of a fork choice state that may be absent: a selector, and the state if there is
/// one.
pub open spec fn optional_fcs_encoding(fcs: Option<ForkchoiceState>) -> Seq<u8> {
    match fcs {
        None => seq![0u8],
        Some(fcs) => seq![1u8] + fcs_encoding(fcs),
    }
}

proof fn lemma_fcs_injective(a: ForkchoiceState, b: ForkchoiceState)
    requires
        fcs_encoding(a) == fcs_encoding(b),
    ensures
        a == b,
{
    let x = fcs_encoding(a);
    let y = fcs_encoding(b);
    assert(x.subrange(0, 32) =~= a.head_block_hash.0.0@);
    assert(y.subrange(0, 32) =~= b.head_block_hash.0.0@);
    assert(x.subrange(32, 64) =~= a.safe_block_hash.0.0@);
    assert(y.subrange(32, 64) =~= b.safe_block_hash.0.0@);
    assert(x.subrange(64, 96) =~= a.finalized_block_hash.0.0@);
    assert(y.subrange(64, 96) =~= b.finalized_block_hash.0.0@);
    lemma_hash_bytes(a.head_block_hash.0, b.head_block_hash.0);
    lemma_hash_bytes(a.safe_block_hash.0, b.safe_block_hash.0);
    lemma_hash_bytes(a.finalized_block_hash.0, b.finalized_block_hash.0);
}

proof fn lemma_optional_fcs_injective(a: Option<ForkchoiceState>, b: Option<ForkchoiceState>)
    requires
        optional_fcs_encoding(a) == optional_fcs_encoding(b),
    ensures
        a == b,
{
    let x = optional_fcs_encoding(a);
    let y = optional_fcs_encoding(b);
    assert(x[0] == (if a is None { 0u8 } else { 1u8 }));
    assert(y[0] == (if b is None { 0u8 } else { 1u8 }));
    if let (Some(p), Some(q)) = (a, b) {
        assert(x.subrange(1, 97) =~= fcs_encoding(p));
        assert(y.subrange(1, 97) =~= fcs_encoding(q));
        lemma_fcs_injective(p, q);
    }
}

/// The encoding of a fork choice state.
fn encode_fcs(fcs: &ForkchoiceState) -> (r: Vec<u8>)
    ensures
        r@ == fcs_encoding(*fcs),
{
    let mut r: Vec<u8> = Vec::new();
    append_bytes(&mut r, fcs.head_block_hash.0.0.as_slice());
    append_bytes(&mut r, fcs.safe_block_hash.0.0.as_slice());
    append_bytes(&mut r, fcs.finalized_block_hash.0.0.as_slice());
    assert(r@ =~= fcs_encoding(*fcs));
    r
}

/// The fork choice state that bytes encode.
fn decode_fcs(bytes: &[u8]) -> (r: Option<ForkchoiceState>)
    ensures
        match r {
            Some(fcs) => bytes@ == fcs_encoding(fcs),
            None => forall|fcs: ForkchoiceState| bytes@ != #[trigger] fcs_encoding(fcs),
        },
{
    if bytes.len() != 96 {
        return None;
    }
    let r = ForkchoiceState {
        head_block_hash: ExecutionBlockHash(Hash256(to_array(slice_subrange(bytes, 0, 32)))),
        safe_block_hash: ExecutionBlockHash(Hash256(to_array(slice_subrange(bytes, 32, 64)))),
        finalized_block_hash: ExecutionBlockHash(Hash256(to_array(slice_subrange(bytes, 64, 96)))),
    };
    assert(bytes@ =~= fcs_encoding(r));
    Some(r)
}

/// The encoding of a fork choice state that may be absent.
fn encode_optional_fcs(fcs: &Option<ForkchoiceState>) -> (r: Vec<u8>)
    ensures
        r@ == optional_fcs_encoding(*fcs),
{
    let mut r: Vec<u8> = Vec::new();
    match fcs {
        None => {
            r.push(0);
        },
        Some(fcs) => {
            r.push(1);
            append_bytes(&mut r, encode_fcs(fcs).as_slice());
        },
    }
    assert(r@ =~= optional_fcs_encoding(*fcs));
    r
}

/// The fork choice state, if any, that bytes encode.
fn decode_optional_fcs(bytes: &[u8]) -> (r: Option<Option<ForkchoiceState>>)
    ensures
        match r {
            Some(fcs) => bytes@ == optional_fcs_encoding(fcs),
            None => forall|fcs: Option<ForkchoiceState>| bytes@ != #[trigger] optional_fcs_encoding(
                fcs,
            ),
        },
{
    if bytes.len() == 1 && bytes[0] == 0 {
        assert(bytes@ =~= optional_fcs_encoding(None));
        return Some(None);
    }
    if bytes.len() == 0 || bytes[0] != 1 {
        proof {
            assert forall|fcs: Option<ForkchoiceState>| bytes@ != #[trigger] optional_fcs_encoding(
                fcs,
            ) by {
                let x = optional_fcs_encoding(fcs);
                assert(x.len() > 0 && x[0] == (if fcs is None { 0u8 } else { 1u8 }));
                assert(fcs is None ==> x.len() == 1);
            }
        }
        return None;
    }
    let body = slice_subrange(bytes, 1, bytes.len());
    match decode_fcs(body) {
        Some(fcs) => {
            assert(bytes@ =~= optional_fcs_encoding(Some(fcs)));
            Some(Some(fcs))
        },
        None => {
            proof {
                assert forall|fcs: Option<ForkchoiceState>| bytes@
                    != #[trigger] optional_fcs_encoding(fcs) by {
                    let x = optional_fcs_encoding(fcs);
                    assert(x[0] == (if fcs is None { 0u8 } else { 1u8 }));
                    if let Some(p) = fcs {
                        assert(x.subrange(1, 97) =~= fcs_encoding(p));
                        assert(x.len() == 97);
                    }
                }
            }
            None
        },
    }
}

/// What a stored state holds.
pub struct PersistedView {
    pub version: u64,
    pub last_valid_fcs: ForkchoiceState,
    pub latest_fcs: Option<ForkchoiceState>,
    pub tree: PersistedTreeView,
    pub buffer: Seq<PayloadRequestView>,
}

impl View for PersistedProofEngineState {
    type V = PersistedView;

    open spec fn view(&self) -> PersistedView {
        PersistedView {
            version: self.version,
            last_valid_fcs: self.last_valid_fcs,
            latest_fcs: self.latest_fcs,
            tree: self.tree@,
            buffer: self.buffer@,
        }
    }
}

/// The parts of a stored state.
pub open spec fn state_parts(v: PersistedView) -> Seq<PartView> {
    seq![
        fixed(spec_u64_to_le_bytes(v.version)),
        fixed(fcs_encoding(v.last_valid_fcs)),
        variable(optional_fcs_encoding(v.latest_fcs)),
        variable(PersistedTreeState::encoding(v.tree)),
        variable(PersistedRequestBuffer::encoding(v.buffer)),
    ]
}

/// The lengths of the parts of a stored state.
pub open spec fn state_schema() -> Seq<Option<usize>> {
    seq![Some(8), Some(96), None, None, None]
}

proof fn lemma_state_schema()
    ensures
        schema_len(state_schema()) == 116,
{
    reveal_with_fuel(schema_len, 6);
    let s = state_schema();
    let s4 = s.drop_last();
    let s3 = s4.drop_last();
    let s2 = s3.drop_last();
    let s1 = s2.drop_last();
    assert(s1.drop_last() =~= Seq::<Option<usize>>::empty());
    assert(s4.last() == s[3] && s3.last() == s[2] && s2.last() == s[1] && s1.last() == s[0]);
}

proof fn lemma_state_parts(v: PersistedView)
    ensures
        fits(state_parts(v), state_schema()),
        container(state_parts(v)).len() == container_len(state_parts(v)),
        PersistedTreeState::encoding(v.tree).len() <= container(state_parts(v)).len(),
        PersistedRequestBuffer::encoding(v.buffer).len() <= container(state_parts(v)).len(),
{
    lemma_u64(v.version, Seq::empty());
    lemma_part_len(state_parts(v), 3);
    lemma_part_len(state_parts(v), 4);
    assert(state_parts(v)[3].bytes == PersistedTreeState::encoding(v.tree));
    assert(state_parts(v)[4].bytes == PersistedRequestBuffer::encoding(v.buffer));
}

/// Whether `parts` holds the parts of the stored state `v`, short enough to be decoded.
spec fn same_state_parts(parts: Seq<PartView>, v: PersistedView) -> bool {
    &&& parts[1].bytes == fcs_encoding(v.last_valid_fcs)
    &&& parts[2].bytes == optional_fcs_encoding(v.latest_fcs)
    &&& parts[3].bytes == PersistedTreeState::encoding(v.tree)
    &&& parts[4].bytes == PersistedRequestBuffer::encoding(v.buffer)
    &&& parts[3].bytes.len() <= u32::MAX
    &&& parts[4].bytes.len() <= u32::MAX
}

proof fn lemma_same_state_parts(parts: Seq<PartView>, v: PersistedView)
    requires
        fits(parts, state_schema()),
        container(parts) == container(state_parts(v)),
        container(parts).len() <= u32::MAX,
    ensures
        same_state_parts(parts, v),
{
    lemma_state_parts(v);
    lemma_lengths(parts, head_len(parts));
    lemma_container_injective(parts, state_parts(v), state_schema());
}

/// The stored state with the given parts.
fn state_of(items: &Vec<Vec<u8>>) -> (r: Option<PersistedProofEngineState>)
    requires
        items@.len() == 5,
        fits(parts_of(byte_views(items@), state_schema()), state_schema()),
    ensures
        ({
            let parts = parts_of(byte_views(items@), state_schema());
            match r {
                Some(x) => parts == state_parts(x@) && PersistedProofEngineState::valid(x@),
                None => forall|v: PersistedView| #[trigger]
                    PersistedProofEngineState::valid(v) ==> !same_state_parts(parts, v),
            }
        }),
{
    let ghost parts = parts_of(byte_views(items@), state_schema());
    proof {
        assert(parts[0].bytes == items@[0]@);
        assert(parts[1].bytes == items@[1]@);
        assert(parts[2].bytes == items@[2]@);
        assert(parts[3].bytes == items@[3]@);
        assert(parts[4].bytes == items@[4]@);
    }
    let version: u64 = u64_from_le_bytes(items[0].as_slice());
    proof {
        lemma_u64(version, items@[0]@);
    }
    let last_valid_fcs = match decode_fcs(items[1].as_slice()) {
        Some(fcs) => fcs,
        None => return None,
    };
    let latest_fcs = match decode_optional_fcs(items[2].as_slice()) {
        Some(fcs) => fcs,
        None => return None,
    };
    let tree = match PersistedTreeState::decode(items[3].as_slice()) {
        Some(tree) => tree,
        None => return None,
    };
    let buffer = match PersistedRequestBuffer::decode(items[4].as_slice()) {
        Some(buffer) => buffer,
        None => return None,
    };
    let r = PersistedProofEngineState { version, last_valid_fcs, latest_fcs, tree, buffer };
    assert(parts =~= state_parts(r@));
    Some(r)
}

impl Encoded for PersistedProofEngineState {
    open spec fn valid(v: PersistedView) -> bool {
        PersistedTreeState::valid(v.tree) && PersistedRequestBuffer::valid(v.buffer)
    }

    open spec fn encoding(v: PersistedView) -> Seq<u8> {
        container(state_parts(v))
    }

    proof fn injective(a: PersistedView, b: PersistedView) {
        let x = state_parts(a);
        let y = state_parts(b);
        lemma_state_parts(a);
        lemma_state_parts(b);
        lemma_container_injective(x, y, state_schema());
        assert(x[0] == y[0] && x[1] == y[1] && x[2] == y[2] && x[3] == y[3] && x[4] == y[4]);
        lemma_u64(a.version, Seq::empty());
        lemma_u64(b.version, Seq::empty());
        lemma_fcs_injective(a.last_valid_fcs, b.last_valid_fcs);
        lemma_optional_fcs_injective(a.latest_fcs, b.latest_fcs);
        PersistedTreeState::injective(a.tree, b.tree);
        PersistedRequestBuffer::injective(a.buffer, b.buffer);
    }

    fn encode(&self) -> (r: Option<Vec<u8>>) {
        proof {
            lemma_state_parts(self@);
        }
        let tree = match self.tree.encode() {
            Some(bytes) => bytes,
            None => return None,
        };
        let buffer = match self.buffer.encode() {
            Some(bytes) => bytes,
            None => return None,
        };
        let mut parts: Vec<Part> = Vec::new();
        parts.push(fixed_part(u64_to_le_bytes(self.version)));
        parts.push(fixed_part(encode_fcs(&self.last_valid_fcs)));
        parts.push(variable_part(encode_optional_fcs(&self.latest_fcs)));
        parts.push(variable_part(tree));
        parts.push(variable_part(buffer));
        assert(part_views(parts@) =~= state_parts(self@));
        encode_container(&parts)
    }

    fn decode(bytes: &[u8]) -> (r: Option<Self>) {
        let mut schema: Vec<Option<usize>> = Vec::new();
        schema.push(Some(8));
        schema.push(Some(96));
        schema.push(None);
        schema.push(None);
        schema.push(None);
        proof {
            lemma_state_schema();
            assert(schema@ =~= state_schema());
            assert forall|v: PersistedView|
                Self::encoding(v).len() <= u32::MAX && bytes@ == #[trigger] Self::encoding(
                    v,
                ) implies encodes(bytes@, state_parts(v), schema@) by {
                lemma_state_parts(v);
            }
        }
        let items = match decode_container(bytes, &schema) {
            Some(items) => items,
            None => return None,
        };
        let r = state_of(&items);
        proof {
            let parts = parts_of(byte_views(items@), schema@);
            if r is None {
                assert forall|v: PersistedView|
                    Self::valid(v) && Self::encoding(v).len() <= u32::MAX implies bytes@
                    != #[trigger] Self::encoding(v) by {
                    if bytes@ == Self::encoding(v) {
                        lemma_same_state_parts(parts, v);
                    }
                }
            }
        }
        r
    }
}

/// Where the encoding of a stored request has its fields.
pub proof fn law_stored_request_layout(v: PayloadRequestView)
    ensures
        ({
            let bytes = PersistedBlockProofs::encoding(v);
            let proofs = list_encoding::<SignedExecutionProof>(v.proofs);
            &&& bytes.len() == 108 + proofs.len()
            &&& bytes.subrange(0, 32) == v.metadata.block_hash.0.0@
            &&& bytes.subrange(32, 64) == v.metadata.request_root.0@
            &&& bytes.subrange(64, 96) == v.metadata.parent_hash.0.0@
            &&& bytes.subrange(96, 104) == spec_u64_to_le_bytes(v.metadata.block_number)
            &&& bytes.subrange(104, 108) == spec_u32_to_le_bytes(108)
            &&& bytes.skip(108) == proofs
        }),
{
    let parts = block_parts(v);
    let bytes = container(parts);
    lemma_u64(v.metadata.block_number, Seq::empty());
    assert(parts.take(0) =~= Seq::<PartView>::empty());
    lemma_next_part(parts, 0, 0);
    lemma_next_part(parts, 1, 0);
    lemma_next_part(parts, 2, 0);
    lemma_next_part(parts, 3, 0);
    lemma_next_part(parts, 4, 0);
    assert(parts.take(5) =~= parts);
    lemma_lengths(parts, head_len(parts));
    lemma_part_at(parts, 0);
    lemma_part_at(parts, 1);
    lemma_part_at(parts, 2);
    lemma_part_at(parts, 3);
    lemma_part_at(parts, 4);
    let n = list_encoding::<SignedExecutionProof>(v.proofs).len() as int;
    assert(bytes.skip(108) =~= bytes.subrange(108, 108 + n));
}

/// Where the encoding of a stored state has its version, its fork choice states, its tree and its
/// buffer.
pub proof fn law_stored_state_layout(v: PersistedView)
    ensures
        ({
            let bytes = PersistedProofEngineState::encoding(v);
            let pending = optional_fcs_encoding(v.latest_fcs);
            let tree = PersistedTreeState::encoding(v.tree);
            let buffer = PersistedRequestBuffer::encoding(v.buffer);
            &&& bytes.len() == 116 + pending.len() + tree.len() + buffer.len()
            &&& bytes.subrange(0, 8) == spec_u64_to_le_bytes(v.version)
            &&& bytes.subrange(8, 40) == v.last_valid_fcs.head_block_hash.0.0@
            &&& bytes.subrange(40, 72) == v.last_valid_fcs.safe_block_hash.0.0@
            &&& bytes.subrange(72, 104) == v.last_valid_fcs.finalized_block_hash.0.0@
            &&& bytes.skip(116) == pending + tree + buffer
            &&& v.latest_fcs is None ==> pending == seq![0u8]
            &&& v.latest_fcs matches Some(fcs) ==> pending == seq![1u8]
                + fcs.head_block_hash.0.0@ + fcs.safe_block_hash.0.0@
                + fcs.finalized_block_hash.0.0@
        }),
{
    let parts = state_parts(v);
    let bytes = container(parts);
    lemma_u64(v.version, Seq::empty());
    assert(parts.take(0) =~= Seq::<PartView>::empty());
    lemma_next_part(parts, 0, 0);
    lemma_next_part(parts, 1, 0);
    lemma_next_part(parts, 2, 0);
    lemma_next_part(parts, 3, 0);
    lemma_next_part(parts, 4, 0);
    assert(parts.take(5) =~= parts);
    lemma_lengths(parts, head_len(parts));
    lemma_part_at(parts, 0);
    lemma_part_at(parts, 1);
    let fcs = fcs_encoding(v.last_valid_fcs);
    assert(bytes.subrange(8, 104) == fcs);
    assert(bytes.subrange(8, 40) =~= fcs.subrange(0, 32));
    assert(bytes.subrange(40, 72) =~= fcs.subrange(32, 64));
    assert(bytes.subrange(72, 104) =~= fcs.subrange(64, 96));
    assert(fcs.subrange(0, 32) =~= v.last_valid_fcs.head_block_hash.0.0@);
    assert(fcs.subrange(32, 64) =~= v.last_valid_fcs.safe_block_hash.0.0@);
    assert(fcs.subrange(64, 96) =~= v.last_valid_fcs.finalized_block_hash.0.0@);
    lemma_state_tails(v);
    assert(bytes.skip(116) =~= tails(parts));
    if let Some(pending) = v.latest_fcs {
        assert(optional_fcs_encoding(v.latest_fcs) =~= seq![1u8] + pending.head_block_hash.0.0@
            + pending.safe_block_hash.0.0@ + pending.finalized_block_hash.0.0@);
    }
}

/// What stands behind in a stored state.
proof fn lemma_state_tails(v: PersistedView)
    ensures
        head_len(state_parts(v)) == 116,
        tails(state_parts(v)) == optional_fcs_encoding(v.latest_fcs) + PersistedTreeState::encoding(
            v.tree,
        ) + PersistedRequestBuffer::encoding(v.buffer),
{
    let parts = state_parts(v);
    lemma_u64(v.version, Seq::empty());
    assert(parts.take(0) =~= Seq::<PartView>::empty());
    lemma_next_part(parts, 0, 0);
    lemma_next_part(parts, 1, 0);
    lemma_next_part(parts, 2, 0);
    lemma_next_part(parts, 3, 0);
    lemma_next_part(parts, 4, 0);
    assert(parts.take(5) =~= parts);
    assert(tails(parts.take(2)) =~= Seq::<u8>::empty());
    assert(tails(parts.take(3)) =~= optional_fcs_encoding(v.latest_fcs));
}

/// A stored state can be read back whatever it holds, as long as no proof in it is larger than a proof
/// may be.
pub proof fn law_readable_states(v: PersistedView)
    ensures
        PersistedProofEngineState::valid(v) <==> {
            &&& forall|i: int, j: int|
                0 <= i < v.tree.blocks.len() && 0 <= j < v.tree.blocks[i].proofs.len() ==> (
                #[trigger] v.tree.blocks[i].proofs[j]).message.proof_data.len() <= MAX_PROOF_SIZE
            &&& forall|i: int, j: int|
                0 <= i < v.buffer.len() && 0 <= j < v.buffer[i].proofs.len() ==> (
                #[trigger] v.buffer[i].proofs[j]).message.proof_data.len() <= MAX_PROOF_SIZE
        },
{
    lemma_readable(v.tree.blocks);
    lemma_readable(v.buffer);
}

proof fn lemma_readable(requests: Seq<PayloadRequestView>)
    ensures
        all_valid::<PersistedBlockProofs>(requests) <==> forall|i: int, j: int|
            0 <= i < requests.len() && 0 <= j < requests[i].proofs.len() ==> (
            #[trigger] requests[i].proofs[j]).message.proof_data.len() <= MAX_PROOF_SIZE,
{
    if all_valid::<PersistedBlockProofs>(requests) {
        assert forall|i: int, j: int|
            0 <= i < requests.len() && 0 <= j < requests[i].proofs.len() implies (
        #[trigger] requests[i].proofs[j]).message.proof_data.len() <= MAX_PROOF_SIZE by {
            assert(PersistedBlockProofs::valid(requests[i]));
            assert(SignedExecutionProof::valid(requests[i].proofs[j]));
        }
    }
    if forall|i: int, j: int|
        0 <= i < requests.len() && 0 <= j < requests[i].proofs.len() ==> (
        #[trigger] requests[i].proofs[j]).message.proof_data.len() <= MAX_PROOF_SIZE {
        assert forall|i: int| 0 <= i < requests.len() implies PersistedBlockProofs::valid(
            #[trigger] requests[i],
        ) by {
            assert forall|j: int| 0 <= j < requests[i].proofs.len() implies
                SignedExecutionProof::valid(#[trigger] requests[i].proofs[j]) by {}
        }
    }
}

} // verus!
