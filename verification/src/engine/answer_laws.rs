//! What the engine keeps, asks and answers, field by field.

use crate::engine::errors::{ProofEngineError, ProofEngineStateError};
use crate::engine::forkchoice::{
    anchored_at, invalid_status, syncing_status, valid_status, ForkchoiceUpdatedResponse,
    PayloadStatusV1Status, PayloadStatusView,
};
use crate::engine::promotion_laws::law_valid_proof_moves_head;
use crate::engine::proof_engine::{
    lifted, mock_proof, EngineView, PayloadFork, PayloadVerificationView, ProofOutcome,
    VerificationRequest,
};
use crate::engine::state_model::{RequestMetadata, StateView};
use crate::execution_proof::{ProofStatus, SignedExecutionProofView};
use crate::hash::{ExecutionBlockHash, Hash256};
use vstd::prelude::*;

verus! {

/// A request is known if and only if the tree or the buffer has it.
pub proof fn law_known_requests(s: StateView, root: Hash256)
    ensures
        s.knows(root) <==> s.tree.roots.contains_key(root) || s.buffer.contains_key(root),
{
}

/// The proofs of a request are read from the tree, or else from the buffer, all of them and in the
/// order in which they were added. A request without proofs reads as none.
pub proof fn law_proofs_read(s: StateView, root: Hash256, hash: ExecutionBlockHash)
    requires
        s.tidy(),
    ensures
        s.tree.blocks.contains_key(hash) && s.tree.blocks[hash].metadata.request_root == root
            && s.tree.blocks[hash].proofs.len() > 0 ==> s.proofs_of(root) == Some(
            s.tree.blocks[hash].proofs,
        ),
        s.tree.blocks.contains_key(hash) && s.tree.blocks[hash].metadata.request_root == root
            && s.tree.blocks[hash].proofs.len() == 0 ==> s.proofs_of(root) is None,
        s.buffer.contains_key(root) && s.buffer[root].proofs.len() > 0 ==> s.proofs_of(root)
            == Some(s.buffer[root].proofs),
        s.buffer.contains_key(root) && s.buffer[root].proofs.len() == 0 ==> s.proofs_of(
            root,
        ) is None,
        !s.tree.roots.contains_key(root) && !s.buffer.contains_key(root) ==> s.proofs_of(
            root,
        ) is None,
{
}

/// A proof that is put by comes last among those that wait for the same request, which all stay in
/// their order. What waits for other requests stays, and so does everything else.
pub proof fn law_put_by_keeps_all(
    e: EngineView,
    early: SignedExecutionProofView,
    other: Hash256,
    i: int,
)
    ensures
        ({
            let root = early.message.public_input.new_payload_request_root;
            let after = e.put_by(early);
            let before = if e.waiting.contains_key(root) {
                e.waiting[root].len() as int
            } else {
                0
            };
            &&& after.state == e.state
            &&& after.mock_mode == e.mock_mode
            &&& after.latest_promoted == e.latest_promoted
            &&& after.waiting.contains_key(root)
            &&& after.waiting[root].len() == before + 1
            &&& after.waiting[root][before] == early
            &&& 0 <= i < before ==> after.waiting[root][i] == e.waiting[root][i]
            &&& other != root ==> after.waiting.contains_key(other) == e.waiting.contains_key(other)
            &&& other != root && e.waiting.contains_key(other) ==> after.waiting[other]
                == e.waiting[other]
        }),
{
}

/// A payload that is seen is known. The proofs that waited for it wait no longer, and exactly they are
/// then to be verified. What waits for other requests stays.
pub proof fn law_seen_payload(e: EngineView, request: RequestMetadata, other: Hash256)
    ensures
        ({
            let root = request.request_root;
            let after = e.with_payload(request);
            &&& after.state.tree == e.state.tree
            &&& after.state.tree.roots.contains_key(root) || after.state.buffer.contains_key(root)
            &&& after.mock_mode == e.mock_mode
            &&& after.latest_promoted == e.latest_promoted
            &&& !after.waiting.contains_key(root)
            &&& other != root ==> after.waiting.contains_key(other) == e.waiting.contains_key(other)
            &&& other != root && e.waiting.contains_key(other) ==> after.waiting[other]
                == e.waiting[other]
            &&& e.waiting.contains_key(root) ==> e.waiting_for(root) == e.waiting[root]
            &&& !e.waiting.contains_key(root) ==> e.waiting_for(root).len() == 0
        }),
{
}

/// The latest proof that moved the canonical head is the one that was just added if and only if the
/// head then is a block that the proof moved into the tree. Else it is the one from before. What waits
/// goes on waiting.
pub proof fn law_latest_promoted(
    e: EngineView,
    added: SignedExecutionProofView,
    after: EngineView,
    outcome: Result<ProofStatus, ProofEngineStateError>,
)
    requires
        e.state.tidy(),
        e.adds(added, after, outcome),
    ensures
        ({
            let head = after.state.tree.head;
            if after.state.tree.blocks.contains_key(head) && !e.state.tree.blocks.contains_key(
                head,
            ) {
                after.latest_promoted == Some(
                    added.message.public_input.new_payload_request_root,
                )
            } else {
                after.latest_promoted == e.latest_promoted
            }
        }),
        after.waiting == e.waiting,
        after.mock_mode == e.mock_mode,
        e.state.inserts(added, after.state, outcome),
{
    law_valid_proof_moves_head(e.state, added, after.state, outcome);
}

/// The engine passes on what its state says of a proof.
pub proof fn law_outcome_passed_on(outcome: Result<ProofStatus, ProofEngineStateError>)
    ensures
        match lifted(outcome) {
            Ok(status) => outcome is Ok && outcome->Ok_0 == status,
            Err(e) => outcome is Err && e == ProofEngineError::StateError(outcome->Err_0),
        },
{
}

/// A proof node is asked about a proof by its request, its kind and all of its bytes, so questions
/// about proofs that differ in one of these differ.
pub proof fn law_node_asked_about_proof(
    request: VerificationRequest,
    a: SignedExecutionProofView,
    b: SignedExecutionProofView,
)
    requires
        request.asks_about(a),
        request.asks_about(b),
    ensures
        request.root == a.message.public_input.new_payload_request_root,
        request.proof_type == a.message.proof_type,
        request.proof_data@ == a.message.proof_data,
        a.message == b.message,
{
}

/// The dummy proof of a request names the request, and tells requests apart by the first bytes of
/// their roots.
pub proof fn law_dummy_proof(root: Hash256, other: Hash256)
    ensures
        ({
            let dummy = mock_proof(root);
            &&& dummy.message.public_input.new_payload_request_root == root
            &&& dummy.message.proof_type == 0
            &&& dummy.validator_index == 0
            &&& dummy.message.proof_data.len() == 20
            &&& dummy.message.proof_data[0] == 0xDE
            &&& dummy.message.proof_data[1] == 0xAD
            &&& dummy.message.proof_data[2] == 0xBE
            &&& dummy.message.proof_data[3] == 0xEF
            &&& forall|i: int|
                4 <= i < 20 ==> #[trigger] dummy.message.proof_data[i] == root.0@[i - 4]
            &&& mock_proof(other) == dummy ==> other == root
        }),
{
}

/// Each outcome takes one proof off those that are to be verified, the first one, and an error takes
/// them all. The payload is then found valid if and only if it was before or the proof is.
pub proof fn law_verification_goes_on(v: PayloadVerificationView, outcome: ProofOutcome, i: int)
    requires
        v.remaining.len() > 0,
    ensures
        v.after(outcome).block_hash == v.block_hash,
        v.after(outcome).found_valid <==> v.found_valid || outcome == Ok::<
            ProofStatus,
            ProofEngineError,
        >(ProofStatus::Valid),
        outcome is Err ==> v.after(outcome).remaining.len() == 0,
        outcome is Ok ==> v.after(outcome).remaining.len() == v.remaining.len() - 1,
        outcome is Ok && 0 <= i < v.remaining.len() - 1 ==> v.after(outcome).remaining[i]
            == v.remaining[i + 1],
{
}

/// A payload is answered as valid, with its own block, where one of its proofs was found valid. Else
/// the engine is syncing and names no block. It never answers that a payload is invalid.
pub proof fn law_payload_answers(v: PayloadVerificationView)
    ensures
        v.found_valid ==> v.answer().status is Valid && v.answer().latest_valid_hash == Some(
            v.block_hash,
        ),
        !v.found_valid ==> v.answer().status is Syncing && v.answer().latest_valid_hash is None,
        v.answer().validation_error is None,
{
}

/// What the three answers say.
pub proof fn law_answers(head: ExecutionBlockHash)
    ensures
        valid_status(head).status is Valid,
        valid_status(head).latest_valid_hash == Some(head),
        valid_status(head).validation_error is None,
        invalid_status(head).status is Invalid,
        invalid_status(head).latest_valid_hash == Some(head),
        invalid_status(head).validation_error == Some("invalid forkchoice state"@),
        syncing_status().status is Syncing,
        syncing_status().latest_valid_hash is None,
        syncing_status().validation_error is None,
        anchored_at(head).head_block_hash == head,
        anchored_at(head).safe_block_hash == head,
        anchored_at(head).finalized_block_hash == head,
{
}

/// An answer says one thing, and never offers a payload.
pub proof fn law_response_says_one_thing(
    response: ForkchoiceUpdatedResponse,
    a: PayloadStatusView,
    b: PayloadStatusView,
)
    requires
        response.says(a),
    ensures
        response.payload_status.status == a.status,
        response.payload_status.latest_valid_hash == a.latest_valid_hash,
        response.payload_status.validation_error is Some <==> a.validation_error is Some,
        response.payload_id is None,
        response.says(b) <==> a == b,
{
}

/// What each fork is called. No two have one name.
pub proof fn law_fork_names(a: PayloadFork, b: PayloadFork)
    ensures
        a.spec_name() == b.spec_name() ==> a == b,
        a is Bellatrix <==> a.spec_name() == "Bellatrix"@,
        a is Capella <==> a.spec_name() == "Capella"@,
        a is Deneb <==> a.spec_name() == "Deneb"@,
        a is Electra <==> a.spec_name() == "Electra"@,
        a is Fulu <==> a.spec_name() == "Fulu"@,
        a is Gloas <==> a.spec_name() == "Gloas"@,
{
    reveal_strlit("Bellatrix");
    reveal_strlit("Capella");
    reveal_strlit("Deneb");
    reveal_strlit("Electra");
    reveal_strlit("Fulu");
    reveal_strlit("Gloas");
    assert("Bellatrix"@[0] == 'B' && "Capella"@[0] == 'C' && "Deneb"@[0] == 'D' && "Electra"@[0]
        == 'E' && "Fulu"@[0] == 'F' && "Gloas"@[0] == 'G');
}

} // verus!
