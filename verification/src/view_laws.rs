//! What the views of values keep: every item of a list, in its place, and every field.

use crate::encoded::{encodings, views_of, Encoded};
use crate::engine::errors::ProofEngineStateError;
use crate::engine::forkchoice::{ForkchoiceUpdatedResponse, MissingProofInfo, PayloadStatusV1};
use crate::engine::state_model::missing_views;
use crate::engine::update::outcome_of;
use crate::execution_proof::{views, ExecutionProof, SignedExecutionProof};
use crate::hash::PublicKeyBytes;
use crate::invalid_proof_tracker::key_bytes;
use crate::proof_data::proof_bytes;
use crate::ssz::{byte_views, part_views, variables, Part};
use crate::store::{DBColumn, KeyValueStoreOp, StoreOpView};
use crate::sync::proof_sync::{infos, ProofRequest, ProofRequestView};
use crate::testing::mock_server::{proof_views, texts};
use vstd::prelude::*;

verus! {

/// The view of a list of signed proofs has each of them in its place.
pub proof fn law_signed_proofs_kept(proofs: Seq<SignedExecutionProof>, i: int)
    ensures
        views(proofs).len() == proofs.len(),
        0 <= i < proofs.len() ==> views(proofs)[i] == proofs[i]@,
{
}

/// The view of a list of proofs has each of them in its place.
pub proof fn law_proofs_kept(proofs: Seq<ExecutionProof>, i: int)
    ensures
        proof_views(proofs).len() == proofs.len(),
        0 <= i < proofs.len() ==> proof_views(proofs)[i] == proofs[i]@,
{
}

/// The view of a list of missing proofs has each of them in its place.
pub proof fn law_missing_kept(missing: Seq<MissingProofInfo>, i: int)
    ensures
        infos(missing).len() == missing.len(),
        missing_views(missing).len() == missing.len(),
        0 <= i < missing.len() ==> {
            &&& infos(missing)[i] == missing_views(missing)[i]
            &&& infos(missing)[i].root == missing[i].root
            &&& infos(missing)[i].existing_proof_types == missing[i].existing_proof_types@
            &&& infos(missing)[i].slot == missing[i].slot
        },
{
}

/// The views of lists of texts, of bytes, of keys and of parts have each item in its place.
pub proof fn law_items_kept(
    list: Seq<String>,
    bytes: Seq<Vec<u8>>,
    keys: Seq<PublicKeyBytes>,
    parts: Seq<Part>,
    items: Seq<Seq<u8>>,
    i: int,
)
    ensures
        texts(list).len() == list.len(),
        0 <= i < list.len() ==> texts(list)[i] == list[i]@,
        byte_views(bytes).len() == bytes.len(),
        0 <= i < bytes.len() ==> byte_views(bytes)[i] == bytes[i]@,
        key_bytes(keys).len() == keys.len(),
        0 <= i < keys.len() ==> key_bytes(keys)[i] == keys[i].0@,
        part_views(parts).len() == parts.len(),
        0 <= i < parts.len() ==> part_views(parts)[i] == parts[i]@,
        variables(items).len() == items.len(),
        0 <= i < items.len() ==> variables(items)[i].bytes == items[i] && !variables(
            items,
        )[i].fixed,
{
}

/// The views and the encodings of a list of values have each of them in its place.
pub proof fn law_values_kept<T: Encoded>(values: Seq<T>, held: Seq<T::V>, i: int)
    ensures
        views_of(values).len() == values.len(),
        0 <= i < values.len() ==> views_of(values)[i] == values[i]@,
        encodings::<T>(held).len() == held.len(),
        0 <= i < held.len() ==> encodings::<T>(held)[i] == T::encoding(held[i]),
{
}

/// The view of a signed proof has its fields.
pub proof fn law_signed_proof_fields(signed: SignedExecutionProof)
    ensures
        signed@.message.proof_data == proof_bytes(signed.message.proof_data),
        signed@.message.proof_type == signed.message.proof_type,
        signed@.message.public_input == signed.message.public_input,
        signed@.validator_index == signed.validator_index,
        signed@.signature == signed.signature,
        signed@.request_root() == signed.message.public_input.new_payload_request_root,
{
}

/// The view of an answer has its fields, and so has what an update comes to.
pub proof fn law_answer_fields(
    answer: PayloadStatusV1,
    response: ForkchoiceUpdatedResponse,
    error: ProofEngineStateError,
)
    ensures
        answer@.status == answer.status,
        answer@.latest_valid_hash == answer.latest_valid_hash,
        answer@.validation_error is Some <==> answer.validation_error is Some,
        answer.validation_error matches Some(text) ==> answer@.validation_error == Some(text@),
        outcome_of(Ok(response)) matches Ok(status) && status == response.payload_status@,
        outcome_of(Err(error)) matches Err(e) && e == error,
{
}

/// The view of a request for proofs has its fields.
pub proof fn law_request_fields(request: ProofRequest)
    ensures
        match request {
            ProofRequest::Nothing => request@ is Nothing,
            ProofRequest::Range { peer_id, start_slot, count } => request@ == (
            ProofRequestView::Range { peer_id, start_slot, count }),
            ProofRequest::Roots { peer_id, missing } => request@ matches ProofRequestView::Roots {
                peer_id: asked,
                missing: held,
            } && asked == peer_id && held == infos(missing@),
        },
{
}

/// The view of a change to the store has its fields.
pub proof fn law_store_op_fields(column: DBColumn, key: Vec<u8>, value: Vec<u8>)
    ensures
        KeyValueStoreOp::PutKeyValue(column, key, value)@ == StoreOpView::PutKeyValue(
            column,
            key@,
            value@,
        ),
        KeyValueStoreOp::DeleteKey(column, key)@ == StoreOpView::DeleteKey(column, key@),
{
}

} // verus!
