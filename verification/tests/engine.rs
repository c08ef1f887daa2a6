//! The proof engine, its errors, its events, and the node that it asks.

use eip8025::engine::errors::{
    ProofEngineError, ProofEngineStateError, INVALID_HEADER_FORMAT, INVALID_PAYLOAD,
    INVALID_PROOF_FORMAT, PROOF_GENERATION_UNAVAILABLE,
};
use eip8025::engine::events::{
    ProofComplete, ProofEvent, ProofEventInfo, ProofEventKind, ProofFailure, SseEventParts,
};
use eip8025::engine::forkchoice::{ForkchoiceState, PayloadStatusV1, PayloadStatusV1Status};
use eip8025::engine::proof_engine::{
    mock_proof_data, EncodedPayload, HttpProofEngine, NewPayloadStep, PayloadFork,
    PayloadVerification, ProofRequestStep, VerificationStep,
};
use eip8025::engine::proof_node_client::{
    body_content_type, proof_types_csv, HttpProofNodeClient, Method, ProofVerificationStatus,
    PROOF_ENGINE_TIMEOUT,
};
use eip8025::engine::state_model::RequestMetadata;
use eip8025::execution_proof::{
    ExecutionProof, ProofAttributes, ProofStatus, PublicInput, SignedExecutionProof,
};
use eip8025::hash::{ExecutionBlockHash, Hash256, SignatureBytes};
use eip8025::mock_url::{mock_proof_engine_url, parse_mock_index};
use eip8025::proof_data::{proof_data, proof_data_to_vec};
use eip8025::testing::mock_client::{MockClientEvent, MockProofNodeClient};

fn make_proof(request_root: Hash256, proof_type: u8) -> SignedExecutionProof {
    SignedExecutionProof {
        message: ExecutionProof {
            proof_data: proof_data(vec![]).unwrap(),
            proof_type,
            public_input: PublicInput { new_payload_request_root: request_root },
        },
        validator_index: 0,
        signature: SignatureBytes::empty(),
    }
}

fn request(byte: u8, parent: u8, number: u64) -> RequestMetadata {
    RequestMetadata {
        request_root: Hash256::repeat_byte(byte + 0x10),
        block_hash: ExecutionBlockHash::repeat_byte(byte),
        parent_hash: ExecutionBlockHash::repeat_byte(parent),
        block_number: number,
    }
}

fn update(head: u8, safe: u8, finalized: u8) -> ForkchoiceState {
    ForkchoiceState {
        head_block_hash: ExecutionBlockHash::repeat_byte(head),
        safe_block_hash: ExecutionBlockHash::repeat_byte(safe),
        finalized_block_hash: ExecutionBlockHash::repeat_byte(finalized),
    }
}

fn answered(step: NewPayloadStep) -> PayloadStatusV1 {
    match step {
        NewPayloadStep::Answered(answer) => answer,
        other => panic!("expected an answer, got {other:?}"),
    }
}

fn to_verify(step: NewPayloadStep) -> PayloadVerification {
    match step {
        NewPayloadStep::Verify(verification) => verification,
        other => panic!("expected proofs, got {other:?}"),
    }
}

fn done(step: VerificationStep) -> ProofStatus {
    match step {
        VerificationStep::Done(outcome) => outcome.unwrap(),
        other => panic!("expected an outcome, got {other:?}"),
    }
}

#[test]
fn mock_client_request_proofs_emits_event() {
    let mut mock = MockProofNodeClient::new(0);
    let body = vec![1, 2, 3];
    let expected_root = Hash256::repeat_byte(0xAA);
    let attrs = ProofAttributes { proof_types: vec![1, 2] };
    let outcome = mock.request_proofs(body.clone(), attrs.clone(), Ok(expected_root)).unwrap();
    assert_eq!(outcome.root, expected_root);
    assert_eq!(mock.request_count(), 1);
    assert_eq!(mock.received_requests(), vec![body.clone()]);
    assert!(matches!(
        outcome.call,
        MockClientEvent::ProofRequested { ssz_body, proof_attributes, root: r }
        if r == expected_root && ssz_body == body && proof_attributes == attrs
    ));
}

#[test]
fn mock_client_verify_proof_emits_event() {
    let mock = MockProofNodeClient::new(0);
    let root = Hash256::repeat_byte(0xBB);
    let (status, event) = mock.verify_proof(root, 1);
    assert!(status.is_valid());
    assert!(matches!(
        event,
        MockClientEvent::ProofVerified { root: r, proof_type: 1 } if r == root
    ));
}

#[test]
fn mock_client_get_proof_emits_event() {
    let mock = MockProofNodeClient::new(0);
    let root = Hash256::repeat_byte(0xCC);
    let (_, event) = mock.get_proof(root, 2);
    assert!(matches!(
        event,
        MockClientEvent::ProofFetched { root: r, proof_type: 2 } if r == root
    ));
}

#[test]
fn mock_client_request_proofs_broadcasts_sse_events() {
    let mut mock = MockProofNodeClient::new(30);
    let attrs = ProofAttributes { proof_types: vec![0, 1] };
    let root = Hash256::repeat_byte(0x42);
    let outcome = mock.request_proofs(vec![], attrs, Ok(root)).unwrap();
    assert_eq!(outcome.root, root);
    assert_eq!(outcome.delay_ms, 30);
    assert_eq!(outcome.completions.len(), 2);
    for (event, expected_type) in outcome.completions.iter().zip([0u8, 1u8]) {
        assert_eq!(event.new_payload_request_root(), root);
        assert_eq!(event.proof_type(), expected_type);
    }
}

#[test]
fn mock_client_refuses_a_body_that_encodes_nothing() {
    let mut mock = MockProofNodeClient::new(0);
    let attrs = ProofAttributes { proof_types: vec![1] };
    let refused = mock.request_proofs(vec![9], attrs, Err("BytesInvalid".to_string()));
    assert_eq!(
        refused.unwrap_err().message(),
        "Invalid payload: SSZ decode failed: BytesInvalid"
    );
    assert_eq!(mock.request_count(), 0);
}

#[test]
fn engine_verify_proof_unknown_root_returns_syncing() {
    let mut engine = HttpProofEngine::with_proof_node();
    let proof = make_proof(Hash256::repeat_byte(0xAB), 0);
    // The node is not asked: the outcome is known.
    assert!(done(engine.verify_execution_proof(&proof)).is_syncing());
}

#[test]
fn mock_client_hands_out_the_same_bytes_for_every_proof() {
    let mock = MockProofNodeClient::new(0);
    let root = Hash256::repeat_byte(0xDE);
    let (bytes, event) = mock.get_proof(root, 3);
    assert_eq!(bytes, vec![0xDE, 0xAD, 0xBE, 0xEF]);
    assert!(matches!(
        event,
        MockClientEvent::ProofFetched { root: r, proof_type: 3 } if r == root
    ));
}

#[test]
fn engine_unknown_root_proof_is_buffered() {
    let mut engine = HttpProofEngine::with_proof_node();
    let root = Hash256::from_low_u64_be(42);
    let proof = make_proof(root, 0);
    assert!(done(engine.verify_execution_proof(&proof)).is_syncing());
    assert_eq!(engine.get_proofs_by_root(&root).len(), 0);
}

#[test]
fn engine_subscribe_proof_events_filters_by_root() {
    let mut mock = MockProofNodeClient::new(0);
    let root1 = Hash256::from_low_u64_be(1);
    let root2 = Hash256::from_low_u64_be(2);
    let mut events = Vec::new();
    for root in [root1, root2] {
        let attrs = ProofAttributes { proof_types: vec![0] };
        events.extend(mock.request_proofs(vec![], attrs, Ok(root)).unwrap().completions);
    }
    let filtered: Vec<_> = events.iter().filter(|e| e.passes(Some(root1))).collect();
    assert_eq!(filtered.len(), 1);
    assert_eq!(filtered[0].new_payload_request_root(), root1);
    assert!(events.iter().all(|e| e.passes(None)));
}

/// A payload, its proof, and the fork choice that makes its block the head.
#[test]
fn proof_is_verified_after_its_payload() {
    let mut engine = HttpProofEngine::with_proof_node();
    assert!(!engine.is_mock());
    engine.forkchoice_updated(update(1, 1, 1)).unwrap();
    let block = request(1, 0xff, 1);
    let early = make_proof(block.request_root, 5);
    assert!(done(engine.verify_execution_proof(&early)).is_syncing());

    // The proof that waited is to be verified once the payload is there.
    let mut verification = to_verify(engine.new_payload(block));
    assert_eq!(verification.next_proof(), Some(&early));
    assert!(matches!(
        engine.verify_execution_proof(&early),
        VerificationStep::AskNode(question)
        if question.root == block.request_root
            && question.proof_type == 5
            && question.proof_data == proof_data_to_vec(early.proof_data())
    ));
    let refused = engine.on_proof_verified(&early, Ok(ProofStatus::Invalid));
    assert_eq!(refused.unwrap(), ProofStatus::Invalid);
    assert_eq!(engine.get_proofs_by_root(&block.request_root).len(), 0);
    let failed = engine.on_proof_verified(&early, Err(ProofEngineError::Timeout));
    assert!(matches!(failed, Err(ProofEngineError::Timeout)));
    let taken = engine.on_proof_verified(&early, Ok(ProofStatus::Valid));
    verification.on_outcome(taken).unwrap();
    assert_eq!(verification.next_proof(), None);
    assert_eq!(verification.answer().status, PayloadStatusV1Status::Valid);
    assert_eq!(engine.get_proofs_by_root(&block.request_root), vec![early]);
    assert_eq!(engine.latest_promoted_request_root(), Some(block.request_root));

    // The same payload again has no proofs that wait for it.
    assert_eq!(to_verify(engine.new_payload(block)).next_proof(), None);
    let response = engine.forkchoice_updated(update(1, 1, 1)).unwrap();
    assert_eq!(response.payload_status.status, PayloadStatusV1Status::Valid);
}

#[test]
fn proof_for_an_unknown_request_is_an_error_of_the_state() {
    let mut engine = HttpProofEngine::with_proof_node();
    let proof = make_proof(Hash256::repeat_byte(9), 0);
    let outcome = engine.on_proof_verified(&proof, Ok(ProofStatus::Valid));
    assert!(matches!(
        outcome,
        Err(ProofEngineError::StateError(ProofEngineStateError::ProofRequestRootNotSeen(root)))
        if root == Hash256::repeat_byte(9)
    ));
}

#[test]
fn mock_engine_vouches_for_everything() {
    let mut engine = HttpProofEngine::with_mock_proof_node();
    assert!(engine.is_mock());
    let response = engine.forkchoice_updated(update(1, 1, 1)).unwrap();
    assert_eq!(response.payload_status.status, PayloadStatusV1Status::Valid);
    let block = request(1, 0xff, 1);
    let answer = answered(engine.new_payload(block));
    assert_eq!(answer.status, PayloadStatusV1Status::Valid);
    assert_eq!(answer.latest_valid_hash, Some(block.block_hash));
    let proofs = engine.get_proofs_by_root(&block.request_root);
    assert_eq!(proofs, vec![HttpProofEngine::generate_mock_proof(block.request_root)]);
    let mut expected = vec![0xDE, 0xAD, 0xBE, 0xEF];
    expected.extend([0x11; 16]);
    assert_eq!(proof_data_to_vec(proofs[0].proof_data()), expected);
    assert_eq!(proof_data_to_vec(&mock_proof_data(&block.request_root)), expected);
    // A head that was never seen is vouched for too.
    let response = engine.forkchoice_updated(update(7, 1, 1)).unwrap();
    assert_eq!(response.payload_status.status, PayloadStatusV1Status::Valid);
    assert_eq!(
        response.payload_status.latest_valid_hash,
        Some(ExecutionBlockHash::repeat_byte(7))
    );
    // Known proofs are added at once.
    let more = make_proof(block.request_root, 3);
    assert_eq!(done(engine.verify_execution_proof(&more)), ProofStatus::Accepted);
    assert_eq!(engine.get_proofs_by_root(&block.request_root).len(), 2);
}

#[test]
fn only_fulu_payloads_are_sent() {
    let engine = HttpProofEngine::with_proof_node();
    let payload = |fork| EncodedPayload { fork, ssz_bytes: vec![1, 2, 3] };
    let attributes = || ProofAttributes { proof_types: vec![4, 5] };
    assert!(matches!(
        engine.request_proofs(payload(PayloadFork::Fulu), attributes()),
        Ok(ProofRequestStep::Send(sent))
        if sent.ssz_body == [1, 2, 3] && sent.proof_attributes.proof_types == [4, 5]
    ));
    for (fork, name) in [
        (PayloadFork::Bellatrix, "Bellatrix"),
        (PayloadFork::Capella, "Capella"),
        (PayloadFork::Deneb, "Deneb"),
        (PayloadFork::Electra, "Electra"),
        (PayloadFork::Gloas, "Gloas"),
    ] {
        let refused = engine.request_proofs(payload(fork), attributes()).unwrap_err();
        assert_eq!(refused.message(), format!("Fork not supported: {name}"));
    }
    let mock = HttpProofEngine::with_mock_proof_node();
    assert!(matches!(
        mock.request_proofs(payload(PayloadFork::Capella), attributes()),
        Ok(ProofRequestStep::Answered(root)) if root.is_zero()
    ));
}

/// The verification of proofs that waited for a payload, as many as given.
fn verification_of(count: u8) -> PayloadVerification {
    let mut engine = HttpProofEngine::with_proof_node();
    let block = request(4, 0xff, 1);
    for kind in 0..count {
        engine.verify_execution_proof(&make_proof(block.request_root, kind));
    }
    to_verify(engine.new_payload(block))
}

#[test]
fn payload_is_valid_as_soon_as_one_proof_is() {
    let mut verification = verification_of(3);
    for (kind, status) in [ProofStatus::Accepted, ProofStatus::Valid, ProofStatus::Invalid]
        .into_iter()
        .enumerate()
    {
        assert_eq!(verification.next_proof().unwrap().proof_type() as usize, kind);
        verification.on_outcome(Ok(status)).unwrap();
    }
    assert_eq!(verification.next_proof(), None);
    let answer = verification.answer();
    assert_eq!(answer.status, PayloadStatusV1Status::Valid);
    assert_eq!(answer.latest_valid_hash, Some(ExecutionBlockHash::repeat_byte(4)));
    for statuses in [vec![], vec![ProofStatus::Accepted, ProofStatus::Invalid]] {
        let mut verification = verification_of(statuses.len() as u8);
        for status in statuses {
            verification.on_outcome(Ok(status)).unwrap();
        }
        let answer = verification.answer();
        assert_eq!(answer.status, PayloadStatusV1Status::Syncing);
        assert_eq!(answer.latest_valid_hash, None);
    }
    // An error ends the verification.
    let mut verification = verification_of(3);
    verification.on_outcome(Ok(ProofStatus::Valid)).unwrap();
    let failed = verification.on_outcome(Err(ProofEngineError::Timeout));
    assert!(matches!(failed, Err(ProofEngineError::Timeout)));
    assert_eq!(verification.next_proof(), None);
}

#[test]
fn engine_state_survives_a_restart() {
    let mut engine = HttpProofEngine::with_proof_node();
    engine.forkchoice_updated(update(1, 1, 1)).unwrap();
    let block = request(1, 0xff, 1);
    let proof = make_proof(block.request_root, 2);
    engine.new_payload(block);
    engine.on_proof_verified(&proof, Ok(ProofStatus::Valid)).unwrap();
    let mut restarted = HttpProofEngine::with_proof_node();
    restarted.restore_from_persisted(engine.to_persisted());
    assert_eq!(restarted.get_proofs_by_root(&block.request_root), vec![proof]);
    assert_eq!(restarted.to_persisted(), engine.to_persisted());
    assert_eq!(restarted.missing_proofs().len(), 0);
}

#[test]
fn messages_of_the_errors() {
    let text = "why".to_string();
    let root = Hash256::repeat_byte(0xab);
    let hash = ExecutionBlockHash::repeat_byte(0x01);
    let shown = format!("0x{}", "ab".repeat(32));
    let shown_hash = format!("0x{}", "01".repeat(32));
    for (error, message) in [
        (ProofEngineError::InvalidProofFormat(text.clone()), "Invalid proof format: why".into()),
        (ProofEngineError::InvalidProofType(text.clone()), "Invalid proof type: why".into()),
        (ProofEngineError::InvalidHeaderFormat(text.clone()), "Invalid header format: why".into()),
        (ProofEngineError::InvalidPayload(text.clone()), "Invalid payload: why".into()),
        (
            ProofEngineError::ProofGenerationUnavailable(text.clone()),
            "Proof generation unavailable: why".into(),
        ),
        (ProofEngineError::HttpClientError(text.clone()), "HTTP request failed: why".into()),
        (
            ProofEngineError::JsonRpcError { code: -39001, message: text.clone() },
            "JSON-RPC error (code -39001): why".into(),
        ),
        (ProofEngineError::SerdeError(text.clone()), "Serialization error: why".into()),
        (ProofEngineError::SszError(text.clone()), "SSZ error: why".into()),
        (ProofEngineError::SseError(text.clone()), "SSE stream error: why".into()),
        (ProofEngineError::ForkNotSupported(text.clone()), "Fork not supported: why".into()),
        (ProofEngineError::ProofTypeNotSupported(250), "Proof type 250 not supported".into()),
        (ProofEngineError::Timeout, "Proof engine request timed out".into()),
        (ProofEngineError::EngineUnavailable, "Proof engine is unavailable".into()),
        (
            ProofEngineError::StateError(ProofEngineStateError::BufferedRequestNotFound(root)),
            format!("State error: BufferedRequestNotFound({shown})"),
        ),
    ] {
        let message: String = message;
        assert_eq!(error.message(), message);
        assert_eq!(error.is_not_supported(), message.starts_with("Proof type"));
        assert_eq!(error.rpc_error_code(), message.starts_with("JSON").then_some(-39001));
    }
    for (error, message) in [
        (
            ProofEngineStateError::BlockHashNotFoundForRequestRoot {
                request_root: root,
                block_hash: hash,
            },
            format!("Block hash {shown_hash} not found for request root {shown}"),
        ),
        (
            ProofEngineStateError::ProofRequestRootNotSeen(root),
            format!("Proof request root {shown} has not been seen in a beacon block"),
        ),
        (
            ProofEngineStateError::BufferedRequestNotFound(root),
            format!("Buffered request with root {shown} not found"),
        ),
        (
            ProofEngineStateError::BlockNumberNotFound(hash),
            format!("Block number not found for block hash {shown_hash}"),
        ),
    ] {
        assert_eq!(error.message(), message);
    }
}

#[test]
fn codes_of_the_errors() {
    assert_eq!(INVALID_PROOF_FORMAT, -39001);
    assert_eq!(INVALID_HEADER_FORMAT, -39002);
    assert_eq!(INVALID_PAYLOAD, -39003);
    assert_eq!(PROOF_GENERATION_UNAVAILABLE, -39004);
}

#[test]
fn events_are_told_by_their_names() {
    let root = Hash256::repeat_byte(6);
    let fields = ProofFailure {
        new_payload_request_root: root,
        proof_type: 4,
        error: "out of memory".to_string(),
    };
    let info = ProofEventInfo { new_payload_request_root: root, proof_type: 4 };
    let complete = ProofComplete { new_payload_request_root: root, proof_type: 4 };
    for (name, kind, event) in [
        ("proof_complete", ProofEventKind::ProofComplete, ProofEvent::ProofComplete(complete)),
        ("proof_failure", ProofEventKind::ProofFailure, ProofEvent::ProofFailure(fields.clone())),
        ("witness_timeout", ProofEventKind::WitnessTimeout, ProofEvent::WitnessTimeout(info)),
        ("proof_timeout", ProofEventKind::ProofTimeout, ProofEvent::ProofTimeout(info)),
    ] {
        let parts = SseEventParts(name, "{}");
        assert_eq!(parts.kind().unwrap(), kind);
        let read = ProofEvent::try_from_parts(parts, Ok(fields.clone())).unwrap();
        assert_eq!(read, event);
        assert_eq!(read.new_payload_request_root(), root);
        assert_eq!(read.proof_type(), 4);
        let unreadable = ProofEvent::try_from_parts(parts, Err("EOF".to_string()));
        assert_eq!(unreadable.unwrap_err().message(), "Serialization error: EOF");
    }
    let unknown = ProofEvent::try_from_parts(SseEventParts("ping", ""), Ok(fields));
    assert_eq!(
        unknown.unwrap_err().message(),
        "SSE stream error: unknown SSE event type: ping"
    );
}

#[test]
fn calls_of_the_proof_node() {
    let client = HttpProofNodeClient::new(None);
    assert_eq!(client.timeout, PROOF_ENGINE_TIMEOUT);
    assert_eq!(PROOF_ENGINE_TIMEOUT, 1000);
    assert_eq!(HttpProofNodeClient::new(Some(7)).timeout, 7);
    assert_eq!(body_content_type(), "application/octet-stream");
    let root = Hash256::repeat_byte(0x0f);
    let shown = format!("0x{}", "0f".repeat(32));
    let name = |text: &str| -> Result<String, ProofEngineError> { Ok(text.to_string()) };

    let call = client.request_proofs(vec![1, 2], vec![name("a-b"), name("c")]).unwrap();
    assert_eq!(call.method, Method::Post);
    assert_eq!(call.path, "/v1/execution_proof_requests");
    assert_eq!(call.query, vec![("proof_types".to_string(), "a-b,c".to_string())]);
    assert_eq!(call.body, Some(vec![1, 2]));
    assert_eq!(call.timeout, Some(1000));

    let call = client.verify_proof(root, name("a"), &[3]).unwrap();
    assert_eq!(call.path, "/v1/execution_proof_verifications");
    assert_eq!(
        call.query,
        vec![
            ("new_payload_request_root".to_string(), shown.clone()),
            ("proof_type".to_string(), "a".to_string()),
        ]
    );
    assert_eq!(call.body, Some(vec![3]));

    let call = client.get_proof(root, name("a")).unwrap();
    assert_eq!(call.method, Method::Get);
    assert_eq!(call.path, format!("/v1/execution_proofs/{shown}/a"));
    assert!(call.query.is_empty() && call.body.is_none());

    let call = client.subscribe_proof_events(Some(root));
    assert_eq!(call.query, vec![("new_payload_request_root".to_string(), shown)]);
    assert_eq!(call.timeout, None);
    assert!(client.subscribe_proof_events(None).query.is_empty());
}

#[test]
fn kinds_without_a_name_are_refused() {
    let client = HttpProofNodeClient::new(None);
    let unknown = |n: u8| -> Result<String, ProofEngineError> {
        Err(ProofEngineError::ProofTypeNotSupported(n))
    };
    let names = vec![Ok("a".to_string()), unknown(8), unknown(9)];
    assert!(matches!(
        client.request_proofs(vec![], names),
        Err(ProofEngineError::ProofTypeNotSupported(8))
    ));
    assert!(client.get_proof(Hash256::zero(), unknown(1)).unwrap_err().is_not_supported());
    assert!(client.verify_proof(Hash256::zero(), unknown(1), &[]).is_err());
    assert_eq!(proof_types_csv(vec![]).unwrap(), "");
    assert_eq!(ProofVerificationStatus::Valid.status(), ProofStatus::Valid);
    assert_eq!(ProofVerificationStatus::Invalid.status(), ProofStatus::Invalid);
}

#[test]
fn addresses_of_mock_engines() {
    assert_eq!(mock_proof_engine_url(0), "http://mock/0/");
    assert_eq!(mock_proof_engine_url(1024), "http://mock/1024/");
    for index in [0, 7, 10, 99, usize::MAX] {
        assert_eq!(parse_mock_index(&mock_proof_engine_url(index)), Some(index));
    }
    assert_eq!(parse_mock_index("http://mock/12"), Some(12));
    assert_eq!(parse_mock_index("http://mock/"), Some(0));
    assert_eq!(parse_mock_index("http://mock/x/"), Some(0));
    assert_eq!(parse_mock_index("http://mock"), None);
    assert_eq!(parse_mock_index("http://localhost:8551/"), None);
}
