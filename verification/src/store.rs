//! What is asked of the key-value store of the beacon node.

use crate::codec::to_vec;
use crate::hash::Hash256;
use vstd::prelude::*;

verus! {

/// The columns of the store that hold what this library keeps.
#[derive(Debug, Clone, Copy, PartialEq, Eq, Structural)]
pub enum DBColumn {
    /// The state of the proof engine.
    ProofEngine,
    /// The validators that signed an invalid proof.
    InvalidProofTracker,
}

/// A change to the store.
#[derive(Debug, PartialEq)]
pub enum KeyValueStoreOp {
    /// Set the value of a key of a column.
    PutKeyValue(DBColumn, Vec<u8>, Vec<u8>),
    /// Delete a key of a column.
    DeleteKey(DBColumn, Vec<u8>),
}

/// What a change to the store says.
pub enum StoreOpView {
    PutKeyValue(DBColumn, Seq<u8>, Seq<u8>),
    DeleteKey(DBColumn, Seq<u8>),
}

impl View for KeyValueStoreOp {
    type V = StoreOpView;

    open spec fn view(&self) -> StoreOpView {
        match self {
            KeyValueStoreOp::PutKeyValue(column, key, value) => StoreOpView::PutKeyValue(
                *column,
                key@,
                value@,
            ),
            KeyValueStoreOp::DeleteKey(column, key) => StoreOpView::DeleteKey(*column, key@),
        }
    }
}

/// Why the store could not give or take a value.
#[derive(Debug)]
pub enum StoreError {
    /// The value could not be compressed or decompressed.
    Compression(String),
    /// The bytes of the value encode nothing.
    SszDecodeError,
    /// The value is too long for its offsets.
    TooLong,
}

/// The changes that the upgrade to version 29 of the schema makes: none, the column of the proof
/// engine is filled later.
pub fn upgrade_to_v29() -> (r: Result<Vec<KeyValueStoreOp>, StoreError>)
    ensures
        r matches Ok(ops) && ops@.len() == 0,
{
    Ok(Vec::new())
}

/// The changes that the downgrade from version 29 of the schema makes: the stored state of the
/// proof engine is deleted.
pub fn downgrade_from_v29() -> (r: Result<Vec<KeyValueStoreOp>, StoreError>)
    ensures
        r matches Ok(ops) && ops@.len() == 1 && ops@[0]@ == StoreOpView::DeleteKey(
            DBColumn::ProofEngine,
            Hash256::spec_zero().0@,
        ),
{
    let key = Hash256::zero();
    let mut ops: Vec<KeyValueStoreOp> = Vec::new();
    ops.push(KeyValueStoreOp::DeleteKey(DBColumn::ProofEngine, to_vec(key.0.as_slice())));
    Ok(ops)
}

} // verus!
