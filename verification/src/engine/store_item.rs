//! How the state of the engine goes to the store and comes back.

use crate::codec::to_vec;
use crate::encoded::{views_of, Encoded};
use crate::engine::persisted_codec::PersistedView;
use crate::engine::persisted_state::{
    by_block, by_root, child_pairs, law_store_restore, number_pairs, well_keyed,
    PersistedProofEngineState,
};
use crate::engine::state_model::StateView;
use crate::execution_proof::MIN_REQUIRED_EXECUTION_PROOFS;
use crate::hash::Hash256;
use crate::store::{DBColumn, KeyValueStoreOp, StoreError, StoreOpView};
use vstd::prelude::*;

verus! {

/// Stored states that hold the same stand for the same state.
pub proof fn lemma_same_view(a: PersistedProofEngineState, b: PersistedProofEngineState)
    requires
        a@ == b@,
    ensures
        a.state() == b.state(),
{
    let x = a.tree.proofs_by_block_hash@;
    let y = b.tree.proofs_by_block_hash@;
    assert(views_of(x) == views_of(y));
    assert(by_block(x) =~= by_block(y)) by {
        assert(x.len() == views_of(x).len() && y.len() == views_of(y).len());
        assert forall|i: int| 0 <= i < x.len() implies by_block(x)[i] == by_block(y)[i] by {
            assert(views_of(x)[i] == x[i]@ && views_of(y)[i] == y[i]@);
            assert(x[i].block_hash == x[i]@.metadata.block_hash);
            assert(y[i].block_hash == y[i]@.metadata.block_hash);
        }
    }
    let x = a.buffer.requests@;
    let y = b.buffer.requests@;
    assert(views_of(x) == views_of(y));
    assert(by_root(x) =~= by_root(y)) by {
        assert(x.len() == views_of(x).len() && y.len() == views_of(y).len());
        assert forall|i: int| 0 <= i < x.len() implies by_root(x)[i] == by_root(y)[i] by {
            assert(views_of(x)[i] == x[i]@ && views_of(y)[i] == y[i]@);
            assert(x[i].request_root == x[i]@.metadata.request_root);
            assert(y[i].request_root == y[i]@.metadata.request_root);
        }
    }
    let x = a.tree.parent_to_children@;
    let y = b.tree.parent_to_children@;
    assert(views_of(x) == views_of(y));
    assert(child_pairs(x) =~= child_pairs(y)) by {
        assert(x.len() == views_of(x).len() && y.len() == views_of(y).len());
        assert forall|i: int| 0 <= i < x.len() implies child_pairs(x)[i] == child_pairs(y)[i] by {
            assert(views_of(x)[i] == x[i]@ && views_of(y)[i] == y[i]@);
        }
    }
    let x = a.tree.block_number_to_block_hash@;
    let y = b.tree.block_number_to_block_hash@;
    assert(views_of(x) == views_of(y));
    assert(number_pairs(x) =~= number_pairs(y)) by {
        assert(x.len() == views_of(x).len() && y.len() == views_of(y).len());
        assert forall|i: int| 0 <= i < x.len() implies number_pairs(x)[i] == number_pairs(
            y,
        )[i] by {
            assert(views_of(x)[i] == x[i]@ && views_of(y)[i] == y[i]@);
        }
    }
}

/// What is read back from the bytes of a stored state is the state that was stored, with the
/// default threshold.
pub proof fn law_bytes_restore(
    s: StateView,
    stored: PersistedProofEngineState,
    bytes: Seq<u8>,
    read: PersistedProofEngineState,
)
    requires
        well_keyed(s),
        stored.stores(s),
        PersistedProofEngineState::valid(stored@),
        bytes == PersistedProofEngineState::encoding(stored@),
        bytes.len() <= u32::MAX,
        PersistedProofEngineState::valid(read@),
        bytes == PersistedProofEngineState::encoding(read@),
    ensures
        read.state() == (StateView {
            min_required_proofs: MIN_REQUIRED_EXECUTION_PROOFS as nat,
            ..s
        }),
{
    PersistedProofEngineState::injective(stored@, read@);
    lemma_same_view(stored, read);
    law_store_restore(s, stored);
}

impl PersistedProofEngineState {
    /// The column in which the state is stored.
    pub fn db_column() -> (r: DBColumn)
        ensures
            r == DBColumn::ProofEngine,
    {
        DBColumn::ProofEngine
    }

    /// The encoding of the stored state. An encoding that is too long for its offsets is left
    /// out; `try_as_store_bytes` tells whether it is.
    pub fn as_store_bytes(&self) -> (r: Vec<u8>)
        requires
            PersistedProofEngineState::encoding(self@).len() <= u32::MAX,
        ensures
            r@ == PersistedProofEngineState::encoding(self@),
            PersistedProofEngineState::valid(self@),
    {
        match self.encode() {
            Some(bytes) => bytes,
            None => Vec::new(),
        }
    }

    /// The encoding of the stored state, unless it is too long for its offsets.
    pub fn try_as_store_bytes(&self) -> (r: Result<Vec<u8>, StoreError>)
        ensures
            match r {
                Ok(bytes) => bytes@ == PersistedProofEngineState::encoding(self@) && bytes@.len()
                    <= u32::MAX && PersistedProofEngineState::valid(self@),
                Err(e) => e is TooLong && PersistedProofEngineState::encoding(self@).len()
                    > u32::MAX,
            },
    {
        match self.encode() {
            Some(bytes) => Ok(bytes),
            None => Err(StoreError::TooLong),
        }
    }

    /// The stored state that bytes encode.
    pub fn from_store_bytes(bytes: &[u8]) -> (r: Result<Self, StoreError>)
        ensures
            match r {
                Ok(stored) => bytes@ == PersistedProofEngineState::encoding(stored@)
                    && PersistedProofEngineState::valid(stored@),
                Err(e) => e is SszDecodeError && forall|v: PersistedView|
                    PersistedProofEngineState::valid(v) && PersistedProofEngineState::encoding(
                        v,
                    ).len() <= u32::MAX ==> bytes@ != #[trigger] PersistedProofEngineState::encoding(
                        v,
                    ),
            },
    {
        match Self::decode(bytes) {
            Some(stored) => Ok(stored),
            None => Err(StoreError::SszDecodeError),
        }
    }

    /// The stored state that compressed bytes hold. `decompressed` is what they were decompressed
    /// to, or why they could not be.
    pub fn from_bytes(decompressed: Result<Vec<u8>, String>) -> (r: Result<Self, StoreError>)
        ensures
            match decompressed {
                Err(why) => r == Err::<Self, StoreError>(StoreError::Compression(why)),
                Ok(bytes) => match r {
                    Ok(stored) => bytes@ == PersistedProofEngineState::encoding(stored@)
                        && PersistedProofEngineState::valid(stored@),
                    Err(e) => e is SszDecodeError && forall|v: PersistedView|
                        PersistedProofEngineState::valid(v)
                            && PersistedProofEngineState::encoding(v).len() <= u32::MAX ==> bytes@
                            != #[trigger] PersistedProofEngineState::encoding(v),
                },
            },
    {
        match decompressed {
            Ok(bytes) => Self::from_store_bytes(bytes.as_slice()),
            Err(why) => Err(StoreError::Compression(why)),
        }
    }

    /// The change that stores the state under a key. `compressed` is what its bytes were
    /// compressed to, or why they could not be.
    pub fn as_kv_store_op(key: Hash256, compressed: Result<Vec<u8>, String>) -> (r: Result<
        KeyValueStoreOp,
        StoreError,
    >)
        ensures
            match compressed {
                Err(why) => r == Err::<KeyValueStoreOp, StoreError>(StoreError::Compression(why)),
                Ok(bytes) => r matches Ok(op) && op@ == StoreOpView::PutKeyValue(
                    DBColumn::ProofEngine,
                    key.0@,
                    bytes@,
                ),
            },
    {
        match compressed {
            Ok(bytes) => Ok(
                KeyValueStoreOp::PutKeyValue(
                    DBColumn::ProofEngine,
                    to_vec(key.0.as_slice()),
                    bytes,
                ),
            ),
            Err(why) => Err(StoreError::Compression(why)),
        }
    }
}

} // verus!
