//! Types that have an encoding, and lists of their values.

use crate::codec::{lemma_signed_injective, signed_encoding, variable_part};
use crate::execution_proof::{SignedExecutionProof, SignedExecutionProofView};
use crate::proof_data::{proof_data_len, MAX_PROOF_SIZE};
use crate::ssz::{
    byte_views, container, container_len, decode_list, encode_container, head_len, lemma_lengths,
    lemma_list_injective, lemma_next_part, lemma_prefix_lengths, list_of, part_views, variable,
    variables, Part, PartView,
};
use vstd::prelude::*;

verus! {

/// A type whose values have an encoding. No two values have the same one.
pub trait Encoded: View + Sized {
    /// Whether a value keeps the bounds of its type.
    spec fn valid(v: Self::V) -> bool;

    /// The encoding of a value.
    spec fn encoding(v: Self::V) -> Seq<u8>;

    /// Two encodings are the same only where the values are.
    proof fn injective(a: Self::V, b: Self::V)
        requires
            Self::valid(a),
            Self::valid(b),
            Self::encoding(a) == Self::encoding(b),
            Self::encoding(a).len() <= u32::MAX,
        ensures
            a == b,
    ;

    /// The encoding of the value, unless it is too long for its offsets.
    fn encode(&self) -> (r: Option<Vec<u8>>)
        ensures
            match r {
                Some(bytes) => bytes@ == Self::encoding(self@) && bytes@.len() <= u32::MAX
                    && Self::valid(self@),
                None => Self::encoding(self@).len() > u32::MAX,
            },
    ;

    /// The value that bytes encode.
    fn decode(bytes: &[u8]) -> (r: Option<Self>)
        ensures
            match r {
                Some(x) => bytes@ == Self::encoding(x@) && Self::valid(x@),
                None => forall|v: Self::V|
                    Self::valid(v) && Self::encoding(v).len() <= u32::MAX ==> bytes@
                        != #[trigger] Self::encoding(v),
            },
    ;
}

/// What a sequence of values holds.
pub open spec fn views_of<T: Encoded>(items: Seq<T>) -> Seq<T::V> {
    items.map_values(|t: T| t@)
}

/// The encodings of a sequence of values.
pub open spec fn encodings<T: Encoded>(items: Seq<T::V>) -> Seq<Seq<u8>> {
    items.map_values(|v: T::V| T::encoding(v))
}

/// The encoding of a list of values.
pub open spec fn list_encoding<T: Encoded>(items: Seq<T::V>) -> Seq<u8> {
    list_of(encodings::<T>(items))
}

/// Whether every value keeps the bounds of its type.
pub open spec fn all_valid<T: Encoded>(items: Seq<T::V>) -> bool {
    forall|i: int| 0 <= i < items.len() ==> T::valid(#[trigger] items[i])
}

/// No part is longer than the whole.
pub proof fn lemma_part_len(parts: Seq<PartView>, k: int)
    requires
        0 <= k < parts.len(),
    ensures
        parts[k].bytes.len() <= container_len(parts),
        container(parts).len() == container_len(parts),
{
    lemma_next_part(parts, k, 0);
    lemma_prefix_lengths(parts, k + 1);
    lemma_lengths(parts, head_len(parts));
}

/// Two encodings of lists are the same only where the lists are.
pub proof fn lemma_list_encoding_injective<T: Encoded>(a: Seq<T::V>, b: Seq<T::V>)
    requires
        all_valid::<T>(a),
        all_valid::<T>(b),
        list_encoding::<T>(a) == list_encoding::<T>(b),
        list_encoding::<T>(a).len() <= u32::MAX,
    ensures
        a == b,
{
    let x = encodings::<T>(a);
    let y = encodings::<T>(b);
    lemma_lengths(variables(x), head_len(variables(x)));
    lemma_lengths(variables(y), head_len(variables(y)));
    lemma_list_injective(x, y);
    assert(a.len() == b.len());
    assert forall|i: int| 0 <= i < a.len() implies a[i] == b[i] by {
        assert(x[i] == T::encoding(a[i]));
        assert(y[i] == T::encoding(b[i]));
        lemma_part_len(variables(x), i);
        assert(variables(x)[i].bytes == x[i]);
        T::injective(a[i], b[i]);
    }
    assert(a =~= b);
}

/// The encoding of a list of values, unless it is too long for its offsets.
pub fn encode_items<T: Encoded>(items: &Vec<T>) -> (r: Option<Vec<u8>>)
    ensures
        match r {
            Some(bytes) => bytes@ == list_encoding::<T>(views_of(items@)) && bytes@.len()
                <= u32::MAX && all_valid::<T>(views_of(items@)),
            None => list_encoding::<T>(views_of(items@)).len() > u32::MAX,
        },
{
    let ghost all = encodings::<T>(views_of(items@));
    let mut parts: Vec<Part> = Vec::new();
    let mut i: usize = 0;
    while i < items.len()
        invariant
            i <= items@.len(),
            all == encodings::<T>(views_of(items@)),
            parts@.len() == i,
            forall|j: int| 0 <= j < i ==> (#[trigger] parts@[j])@ == variable(all[j]),
            forall|j: int| 0 <= j < i ==> T::valid(#[trigger] views_of(items@)[j]),
        decreases items@.len() - i,
    {
        match items[i].encode() {
            Some(bytes) => {
                parts.push(variable_part(bytes));
            },
            None => {
                proof {
                    lemma_part_len(variables(all), i as int);
                    assert(variables(all)[i as int].bytes == all[i as int]);
                    assert(all[i as int] == T::encoding(items@[i as int]@));
                }
                return None;
            },
        }
        i = i + 1;
    }
    proof {
        assert(part_views(parts@) =~= variables(all));
        lemma_lengths(variables(all), head_len(variables(all)));
    }
    encode_container(&parts)
}

/// The list of values that bytes encode.
pub fn decode_items<T: Encoded>(bytes: &[u8]) -> (r: Option<Vec<T>>)
    ensures
        match r {
            Some(items) => bytes@ == list_encoding::<T>(views_of(items@)) && all_valid::<T>(
                views_of(items@),
            ),
            None => forall|items: Seq<T::V>|
                all_valid::<T>(items) && list_encoding::<T>(items).len() <= u32::MAX ==> bytes@
                    != #[trigger] list_encoding::<T>(items),
        },
{
    proof {
        assert forall|items: Seq<T::V>|
            list_encoding::<T>(items).len() <= u32::MAX && bytes@ == #[trigger] list_encoding::<T>(
                items,
            ) implies container_len(variables(encodings::<T>(items))) <= u32::MAX by {
            let parts = variables(encodings::<T>(items));
            lemma_lengths(parts, head_len(parts));
        }
    }
    let chunks = match decode_list(bytes) {
        Some(chunks) => chunks,
        None => return None,
    };
    let ghost raw = byte_views(chunks@);
    let mut items: Vec<T> = Vec::new();
    let mut i: usize = 0;
    while i < chunks.len()
        invariant
            i <= chunks@.len(),
            raw == byte_views(chunks@),
            bytes@ == list_of(raw),
            items@.len() == i,
            forall|j: int|
                0 <= j < i ==> raw[j] == T::encoding((#[trigger] items@[j])@) && T::valid(
                    items@[j]@,
                ),
        decreases chunks@.len() - i,
    {
        match T::decode(chunks[i].as_slice()) {
            Some(item) => {
                items.push(item);
            },
            None => {
                proof {
                    assert forall|other: Seq<T::V>|
                        all_valid::<T>(other) && list_encoding::<T>(other).len()
                            <= u32::MAX implies bytes@ != #[trigger] list_encoding::<T>(other) by {
                        if bytes@ == list_encoding::<T>(other) {
                            let x = encodings::<T>(other);
                            lemma_lengths(variables(x), head_len(variables(x)));
                            lemma_lengths(variables(raw), head_len(variables(raw)));
                            lemma_list_injective(x, raw);
                            assert(x[i as int] == T::encoding(other[i as int]));
                            lemma_part_len(variables(x), i as int);
                            assert(variables(x)[i as int].bytes == x[i as int]);
                        }
                    }
                }
                return None;
            },
        }
        i = i + 1;
    }
    proof {
        assert(encodings::<T>(views_of(items@)) =~= raw);
    }
    Some(items)
}

impl Encoded for SignedExecutionProof {
    open spec fn valid(v: SignedExecutionProofView) -> bool {
        v.message.proof_data.len() <= MAX_PROOF_SIZE
    }

    open spec fn encoding(v: SignedExecutionProofView) -> Seq<u8> {
        signed_encoding(v)
    }

    proof fn injective(a: SignedExecutionProofView, b: SignedExecutionProofView) {
        lemma_signed_injective(a, b);
    }

    fn encode(&self) -> (r: Option<Vec<u8>>) {
        let size: usize = proof_data_len(&self.message.proof_data);
        assert(size <= MAX_PROOF_SIZE);
        Some(self.as_ssz_bytes())
    }

    fn decode(bytes: &[u8]) -> (r: Option<Self>) {
        match SignedExecutionProof::from_ssz_bytes(bytes) {
            Ok(signed) => Some(signed),
            Err(_) => None,
        }
    }
}

} // verus!
