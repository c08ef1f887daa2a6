//! Fixed-size byte strings: digests, public keys and signatures.

use vstd::bytes::{lemma_auto_spec_u64_to_from_le_bytes, spec_u64_to_le_bytes, u64_to_le_bytes};
use vstd::prelude::*;

verus! {

/// A 32-byte digest.
#[derive(Debug, Clone, Copy, Hash)]
pub struct Hash256(pub [u8; 32]);

impl Hash256 {
    /// Whether two values hold the same bytes.
    pub fn equals(&self, other: &Self) -> (r: bool)
        ensures
            r == (*self == *other),
    {
        arrays_equal(&self.0, &other.0)
    }
}

impl PartialEq for Hash256 {
    fn eq(&self, other: &Self) -> (r: bool) {
        self.equals(other)
    }
}

impl vstd::std_specs::cmp::PartialEqSpecImpl for Hash256 {
    open spec fn obeys_eq_spec() -> bool {
        true
    }

    open spec fn eq_spec(&self, other: &Self) -> bool {
        *self == *other
    }
}

impl Eq for Hash256 {

}

impl View for Hash256 {
    type V = Hash256;

    open spec fn view(&self) -> Hash256 {
        *self
    }
}

impl Hash256 {
    /// The value whose bytes are all zero.
    pub open spec fn spec_zero() -> Hash256 {
        Hash256(filled(0))
    }

    /// The value whose bytes are all zero.
    pub fn zero() -> (r: Self)
        ensures
            r == Hash256::spec_zero(),
            forall|i: int| 0 <= i < 32 ==> r.0@[i] == 0,
    {
        Hash256([0u8; 32])
    }

    /// The value that holds `byte` at every index.
    pub open spec fn spec_repeat(byte: u8) -> Hash256 {
        Hash256(filled(byte))
    }

    /// The value that holds `byte` at every index.
    pub fn repeat_byte(byte: u8) -> (r: Self)
        ensures
            r == Hash256::spec_repeat(byte),
            forall|i: int| 0 <= i < 32 ==> r.0@[i] == byte,
    {
        Hash256([byte; 32])
    }

    /// The value whose last eight bytes are those of a number, the highest first, and whose other
    /// bytes are zero.
    pub fn from_low_u64_be(x: u64) -> (r: Self)
        ensures
            forall|i: int| 0 <= i < 24 ==> r.0@[i] == 0,
            forall|i: int| 24 <= i < 32 ==> r.0@[i] == spec_u64_to_le_bytes(x)[31 - i],
    {
        let low = u64_to_le_bytes(x);
        let mut bytes = [0u8; 32];
        let mut i: usize = 0;
        proof {
            lemma_auto_spec_u64_to_from_le_bytes();
        }
        while i < 8
            invariant
                i <= 8,
                low@.len() == 8,
                forall|j: int| 0 <= j < 32 - i ==> bytes@[j] == 0,
                forall|j: int| 32 - i <= j < 32 ==> bytes@[j] == low@[31 - j],
            decreases 8 - i,
        {
            bytes[31 - i] = low[i];
            i = i + 1;
        }
        Hash256(bytes)
    }

    /// Whether every byte is zero.
    pub fn is_zero(&self) -> (r: bool)
        ensures
            r == (*self == Hash256::spec_zero()),
    {
        *self == Hash256::zero()
    }
}

impl Default for Hash256 {
    fn default() -> (r: Self)
        ensures
            r == Hash256::spec_zero(),
    {
        Hash256::zero()
    }
}

/// The hash of an execution block.
#[derive(Debug, Clone, Copy, Hash)]
pub struct ExecutionBlockHash(pub Hash256);

impl ExecutionBlockHash {
    /// Whether two values hold the same bytes.
    pub fn equals(&self, other: &Self) -> (r: bool)
        ensures
            r == (*self == *other),
    {
        self.0.equals(&other.0)
    }
}

impl PartialEq for ExecutionBlockHash {
    fn eq(&self, other: &Self) -> (r: bool) {
        self.equals(other)
    }
}

impl vstd::std_specs::cmp::PartialEqSpecImpl for ExecutionBlockHash {
    open spec fn obeys_eq_spec() -> bool {
        true
    }

    open spec fn eq_spec(&self, other: &Self) -> bool {
        *self == *other
    }
}

impl Eq for ExecutionBlockHash {

}

impl View for ExecutionBlockHash {
    type V = ExecutionBlockHash;

    open spec fn view(&self) -> ExecutionBlockHash {
        *self
    }
}

impl ExecutionBlockHash {
    /// The value whose bytes are all zero.
    pub open spec fn spec_zero() -> ExecutionBlockHash {
        ExecutionBlockHash(Hash256::spec_zero())
    }

    /// The value whose bytes are all zero.
    pub fn zero() -> (r: Self)
        ensures
            r == ExecutionBlockHash::spec_zero(),
            forall|i: int| 0 <= i < 32 ==> r.0.0@[i] == 0,
    {
        ExecutionBlockHash(Hash256::zero())
    }

    /// The value that holds `byte` at every index.
    pub open spec fn spec_repeat(byte: u8) -> ExecutionBlockHash {
        ExecutionBlockHash(Hash256::spec_repeat(byte))
    }

    /// The value that holds `byte` at every index.
    pub fn repeat_byte(byte: u8) -> (r: Self)
        ensures
            r == ExecutionBlockHash::spec_repeat(byte),
            forall|i: int| 0 <= i < 32 ==> r.0.0@[i] == byte,
    {
        ExecutionBlockHash(Hash256::repeat_byte(byte))
    }

    /// Whether every byte is zero.
    pub fn is_zero(&self) -> (r: bool)
        ensures
            r == (*self == ExecutionBlockHash::spec_zero()),
    {
        *self == ExecutionBlockHash::zero()
    }
}

impl Default for ExecutionBlockHash {
    fn default() -> (r: Self)
        ensures
            r == ExecutionBlockHash::spec_zero(),
    {
        ExecutionBlockHash::zero()
    }
}

/// The 48 bytes of a compressed public key.
#[derive(Debug, Clone, Copy, Hash)]
pub struct PublicKeyBytes(pub [u8; 48]);

impl PublicKeyBytes {
    /// Whether two values hold the same bytes.
    pub fn equals(&self, other: &Self) -> (r: bool)
        ensures
            r == (*self == *other),
    {
        arrays_equal(&self.0, &other.0)
    }
}

impl PartialEq for PublicKeyBytes {
    fn eq(&self, other: &Self) -> (r: bool) {
        self.equals(other)
    }
}

impl vstd::std_specs::cmp::PartialEqSpecImpl for PublicKeyBytes {
    open spec fn obeys_eq_spec() -> bool {
        true
    }

    open spec fn eq_spec(&self, other: &Self) -> bool {
        *self == *other
    }
}

impl Eq for PublicKeyBytes {

}

impl View for PublicKeyBytes {
    type V = PublicKeyBytes;

    open spec fn view(&self) -> PublicKeyBytes {
        *self
    }
}

/// The 96 bytes of a compressed signature.
#[derive(Debug, Clone, Copy, Hash)]
pub struct SignatureBytes(pub [u8; 96]);

impl SignatureBytes {
    /// Whether two values hold the same bytes.
    pub fn equals(&self, other: &Self) -> (r: bool)
        ensures
            r == (*self == *other),
    {
        arrays_equal(&self.0, &other.0)
    }
}

impl PartialEq for SignatureBytes {
    fn eq(&self, other: &Self) -> (r: bool) {
        self.equals(other)
    }
}

impl vstd::std_specs::cmp::PartialEqSpecImpl for SignatureBytes {
    open spec fn obeys_eq_spec() -> bool {
        true
    }

    open spec fn eq_spec(&self, other: &Self) -> bool {
        *self == *other
    }
}

impl Eq for SignatureBytes {

}

impl View for SignatureBytes {
    type V = SignatureBytes;

    open spec fn view(&self) -> SignatureBytes {
        *self
    }
}

impl SignatureBytes {
    /// The value whose bytes are all zero.
    pub open spec fn spec_empty() -> SignatureBytes {
        SignatureBytes(filled(0))
    }

    /// The value whose bytes are all zero.
    pub fn empty() -> (r: Self)
        ensures
            r == SignatureBytes::spec_empty(),
            forall|i: int| 0 <= i < 96 ==> r.0@[i] == 0,
    {
        SignatureBytes([0u8; 96])
    }
}

/// Whether two arrays hold the same bytes at every index.
fn arrays_equal<const N: usize>(a: &[u8; N], b: &[u8; N]) -> (r: bool)
    ensures
        r == (*a == *b),
{
    let mut i: usize = 0;
    while i < N
        invariant
            i <= N,
            forall|j: int| 0 <= j < i ==> a@[j] == b@[j],
        decreases N - i,
    {
        if a[i] != b[i] {
            return false;
        }
        i = i + 1;
    }
    assert(*a =~= *b);
    true
}

/// The array that holds `byte` at every index.
pub open spec fn filled<const N: usize>(byte: u8) -> [u8; N] {
    vstd::array::spec_array_fill_for_copy_type::<u8, N>(byte)
}

} // verus!
