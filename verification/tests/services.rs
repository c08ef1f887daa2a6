//! The endpoints, the service of the validator client, and what tests of whole networks need.

use eip8025::api::{
    get_execution_proofs, BlockLookup, Rejection, Submission, SubmitExecutionProofsRequest,
};
use eip8025::engine::proof_engine::HttpProofEngine;
use eip8025::engine::state_model::RequestMetadata;
use eip8025::execution_proof::{
    ExecutionProof, ProofStatus, PublicInput, SignedExecutionProof,
};
use eip8025::hash::{ExecutionBlockHash, Hash256, PublicKeyBytes, SignatureBytes};
use eip8025::proof_data::{proof_data, proof_data_to_vec};
use eip8025::proof_service::{
    next_action, BeaconEvent, FetchedBlock, MonitorAction, MonitorEvent, ProofService,
    RESUBSCRIBE_DELAY,
};
use eip8025::sync::status::{ExecutionProofStatus, NetworkGlobals};
use eip8025::testing::mock_server::{
    check_params, proof_gen_id, request_params, verify_proof_response, DecodeFailure,
    DecodedRequest, MockProofEngineConfig, MockProofEngineServer, RpcResponse,
};
use eip8025::testing::zkboost::{
    mock_el_answer, mock_el_result, trimmed_url, MockElResult, MockProverConfig, ServerConfig,
};

fn execution_proof(root: Hash256, proof_type: u8) -> ExecutionProof {
    ExecutionProof {
        proof_data: proof_data(vec![1, 2]).unwrap(),
        proof_type,
        public_input: PublicInput { new_payload_request_root: root },
    }
}

fn signed(root: Hash256) -> SignedExecutionProof {
    SignedExecutionProof {
        message: execution_proof(root, 1),
        validator_index: 3,
        signature: SignatureBytes::empty(),
    }
}

fn bad_request(rejection: Rejection) -> String {
    match rejection {
        Rejection::BadRequest(text) => text,
        other => panic!("expected a bad request, got {other:?}"),
    }
}

fn server_error(rejection: Rejection) -> String {
    match rejection {
        Rejection::ServerError(text) => text,
        other => panic!("expected a server error, got {other:?}"),
    }
}

const NO_ENGINE: &str =
    "Proof engine not configured. Start with --proof-engine-endpoint to enable EIP-8025.";

#[test]
fn proofs_of_a_block_are_served() {
    let mut engine = HttpProofEngine::with_mock_proof_node();
    let root = Hash256::repeat_byte(0x21);
    engine.new_payload(RequestMetadata {
        request_root: root,
        block_hash: ExecutionBlockHash::repeat_byte(1),
        parent_hash: ExecutionBlockHash::repeat_byte(0xff),
        block_number: 1,
    });
    let block = BlockLookup {
        block_root: Hash256::repeat_byte(2),
        execution_optimistic: true,
        finalized: false,
        request_root: Some(root),
    };
    let response = get_execution_proofs(true, Some(&engine), Ok(block)).unwrap();
    assert!(response.execution_optimistic);
    assert!(!response.finalized);
    assert_eq!(response.data, vec![HttpProofEngine::generate_mock_proof(root)]);

    let unknown = BlockLookup { request_root: None, ..block };
    let refused = get_execution_proofs(true, Some(&engine), Ok(unknown)).unwrap_err();
    assert_eq!(server_error(refused), "request block is unknown");
    let refused = get_execution_proofs(false, Some(&engine), Ok(block)).unwrap_err();
    assert_eq!(server_error(refused), "Execution layer not available");
    let refused = get_execution_proofs(true, None, Ok(block)).unwrap_err();
    assert_eq!(bad_request(refused), NO_ENGINE);
    let lookup = Err(Rejection::BadRequest("no such block".to_string()));
    let refused = get_execution_proofs(true, Some(&engine), lookup).unwrap_err();
    assert_eq!(bad_request(refused), "no such block");
}

#[test]
fn submissions_are_dealt_with_one_by_one() {
    let mut globals = NetworkGlobals::new();
    let roots: Vec<_> = (1..6).map(Hash256::repeat_byte).collect();
    let proofs = roots.iter().map(|root| signed(*root)).collect();
    let mut submission = Submission::begin(true, SubmitExecutionProofsRequest { proofs }).unwrap();
    let found = ExecutionProofStatus { slot: 9, block_root: Hash256::repeat_byte(0x99) };

    assert_eq!(submission.next_proof().unwrap().request_root(), roots[0]);
    let action = submission.on_verified(Ok((ProofStatus::Valid, Some(found))), &mut globals);
    let action = action.unwrap();
    assert!(action.gossip);
    assert_eq!(action.verified, Some(found));
    assert_eq!(globals.local_execution_proof_status(), found);

    let later = ExecutionProofStatus { slot: 10, ..found };
    let action = submission.on_verified(Ok((ProofStatus::Accepted, Some(later))), &mut globals);
    assert!(action.unwrap().gossip);
    assert_eq!(globals.local_execution_proof_status(), found);
    let action = submission.on_verified(Ok((ProofStatus::Syncing, None)), &mut globals);
    assert!(!action.unwrap().gossip);

    let refused = submission.on_verified(Ok((ProofStatus::Invalid, None)), &mut globals);
    assert_eq!(
        bad_request(refused.unwrap_err()),
        format!("Proof 0x{} is invalid", "04".repeat(32))
    );
    let refused = submission.on_verified(Err("no signer".to_string()), &mut globals);
    assert_eq!(bad_request(refused.unwrap_err()), "Proof validation failed: no signer");
    assert!(submission.next_proof().is_none());
}

#[test]
fn submissions_without_an_engine_or_without_proofs_are_refused() {
    let request = |proofs: Vec<SignedExecutionProof>| SubmitExecutionProofsRequest { proofs };
    let refused = Submission::begin(false, request(vec![signed(Hash256::zero())])).unwrap_err();
    assert_eq!(bad_request(refused), NO_ENGINE);
    let refused = Submission::begin(true, request(vec![])).unwrap_err();
    assert_eq!(bad_request(refused), "No proofs provided");
}

#[test]
fn service_follows_the_events() {
    assert!(matches!(next_action(MonitorEvent::Started), MonitorAction::Subscribe));
    assert!(matches!(next_action(MonitorEvent::Waited), MonitorAction::Subscribe));
    assert!(matches!(next_action(MonitorEvent::Subscribed), MonitorAction::AwaitEvent));
    for failure in [
        MonitorEvent::SubscriptionFailed,
        MonitorEvent::StreamFailed,
        MonitorEvent::StreamEnded,
    ] {
        assert!(matches!(next_action(failure), MonitorAction::Wait(RESUBSCRIBE_DELAY)));
    }
    assert_eq!(RESUBSCRIBE_DELAY, 2);
    let block = |execution_optimistic: bool| {
        MonitorEvent::Received(BeaconEvent::Block {
            block: Hash256::repeat_byte(8),
            slot: 5,
            execution_optimistic,
        })
    };
    assert!(matches!(
        next_action(block(false)),
        MonitorAction::HandleBlock { slot: 5, block } if block == Hash256::repeat_byte(8)
    ));
    assert!(matches!(next_action(block(true)), MonitorAction::AwaitEvent));
    let validated = MonitorEvent::Received(BeaconEvent::ExecutionProofValidated {
        execution_proof: execution_proof(Hash256::zero(), 1),
        epoch: 4,
    });
    assert!(matches!(
        next_action(validated),
        MonitorAction::HandleValidatedProof { epoch: 4, .. }
    ));
    assert!(matches!(
        next_action(MonitorEvent::Received(BeaconEvent::Other)),
        MonitorAction::AwaitEvent
    ));
}

#[test]
fn service_requests_and_signs() {
    let service = ProofService::new(None);
    assert_eq!(service.proof_types, vec![0, 1, 2]);
    let attributes = service.handle_block_event(FetchedBlock::WithPayload).unwrap();
    assert_eq!(attributes.proof_types, vec![0, 1, 2]);
    for fetched in [FetchedBlock::WithoutPayload, FetchedBlock::NotFound, FetchedBlock::Failed] {
        assert!(service.handle_block_event(fetched).is_none());
    }
    assert_eq!(ProofService::new(Some(vec![7])).proof_types, vec![7]);

    let keys = vec![PublicKeyBytes([1; 48]), PublicKeyBytes([2; 48])];
    let proof = || execution_proof(Hash256::repeat_byte(3), 1);
    let signing = service.handle_validated_proof(&keys, proof(), 12).unwrap();
    assert_eq!(signing.pubkey, keys[0]);
    assert_eq!(signing.epoch, 12);
    assert_eq!(signing.execution_proof, proof());
    assert!(service.handle_validated_proof(&vec![], proof(), 12).is_none());

    let epoch = |given: Option<u64>, now: Option<u64>| {
        service.handle_proof_request(keys[1], proof(), given, now, 8).epoch
    };
    assert_eq!(epoch(Some(6), Some(100)), 6);
    assert_eq!(epoch(None, Some(100)), 12);
    assert_eq!(epoch(None, None), 0);

    let signature = signed(Hash256::zero());
    assert_eq!(ProofService::on_signed(Ok(signature.clone())), Ok(signature));
    assert_eq!(
        ProofService::on_signed(Err("no key".to_string())),
        Err("Failed to sign execution proof: no key".to_string())
    );
    assert_eq!(ProofService::on_submitted(Ok(())), Ok(()));
    assert_eq!(
        ProofService::on_submitted(Err("offline".to_string())),
        Err("Failed to submit proof to beacon node: offline".to_string())
    );
    assert_eq!(
        ProofService::subscription_error("offline"),
        "All beacon nodes failed to provide event stream: offline"
    );
}

fn error_of(response: RpcResponse) -> (i64, String) {
    match response {
        RpcResponse::Error { code, message } => (code, message),
        other => panic!("expected an error, got {other:?}"),
    }
}

#[test]
fn parameters_are_read_from_the_body() {
    let body = br#"{"method":"engine_requestProofsV1","params":[{"a": 1}, [], "x", null, true]}"#;
    let params = request_params(Ok(body.to_vec())).unwrap();
    assert_eq!(params, vec![r#"{"a":1}"#, "[]", r#""x""#, "null", "true"]);

    let short = request_params(Ok(br#"{"params":[1,2,3]}"#.to_vec())).unwrap_err();
    assert_eq!(
        error_of(short),
        (-32602, "Invalid params: expected 5 params, got 3".to_string())
    );
    let missing = request_params(Ok(br#"{"params":5}"#.to_vec())).unwrap_err();
    assert_eq!(
        error_of(missing),
        (-32602, "Invalid params: params is not an array".to_string())
    );
    let (code, message) = error_of(request_params(Ok(b"{".to_vec())).unwrap_err());
    assert_eq!(code, -32602);
    assert!(message.starts_with("Invalid params: invalid JSON: EOF"));
    let unread = request_params(Err("reset".to_string())).unwrap_err();
    assert_eq!(
        error_of(unread),
        (-32602, "Invalid params: failed to read request body: reset".to_string())
    );
    let more: Vec<String> = (0..6).map(|n| n.to_string()).collect();
    assert_eq!(check_params(Ok(Some(more.clone()))).unwrap(), more);
    assert!(check_params(Ok(None)).is_err());
    assert!(check_params(Err("bad".to_string())).is_err());
}

#[test]
fn requests_are_recorded_and_called_back() {
    let config = MockProofEngineConfig::default();
    assert_eq!(config.callback_delay_ms, 200);
    assert_eq!(config.server_config.listen_port, 0);
    assert_eq!(config.server_config.listen_addr, [127, 0, 0, 1]);
    let mut server = MockProofEngineServer::new(config);
    let mut bytes = [0; 32];
    for (i, byte) in bytes.iter_mut().enumerate() {
        *byte = i as u8 + 1;
    }
    let root = Hash256(bytes);
    let decoded = || Ok(DecodedRequest { request_root: root, proof_types: vec![2, 5] });
    let (response, callback) = server.request_proofs(decoded(), true, 77);
    assert!(matches!(response, RpcResponse::Text(text) if text == "0x0102030405060708"));
    let callback = callback.unwrap();
    assert_eq!(callback.delay_ms, 200);
    assert_eq!(callback.new_payload_request_root, root);
    assert_eq!(callback.proof_types, vec![2, 5]);
    let (_, callback) = server.request_proofs(decoded(), false, 78);
    assert!(callback.is_none());
    let records = server.get_proof_requests();
    assert_eq!(records.len(), 2);
    assert_eq!(records[0].proof_gen_id, [1, 2, 3, 4, 5, 6, 7, 8]);
    assert_eq!(proof_gen_id(&root), records[0].proof_gen_id);
    assert_eq!(records[0].timestamp, 77);
    assert_eq!(records[1].new_payload_request_root, root);

    let keys = vec![PublicKeyBytes([9; 48]), PublicKeyBytes([8; 48])];
    let (key, requests) = MockProofEngineServer::proof_callback(&keys, root, &vec![2, 5]).unwrap();
    assert_eq!(key, keys[0]);
    assert_eq!(requests.len(), 2);
    assert_eq!(requests[1].execution_proof.proof_type, 5);
    assert_eq!(requests[1].epoch, None);
    let mut expected = vec![0xDE, 0xAD, 0xBE, 0xEF];
    expected.extend(1..17);
    assert_eq!(proof_data_to_vec(&requests[0].execution_proof.proof_data), expected);
    assert!(MockProofEngineServer::proof_callback(&vec![], root, &vec![2]).is_none());
}

#[test]
fn requests_that_cannot_be_read_are_refused() {
    let mut server = MockProofEngineServer::new(MockProofEngineConfig::default());
    let why = || "why".to_string();
    for (failure, message) in [
        (DecodeFailure::ExecutionPayload(why()), "invalid execution payload: why"),
        (DecodeFailure::PayloadConversion(why()), "failed to convert payload: why"),
        (DecodeFailure::VersionedHashes(why()), "invalid versioned hashes: why"),
        (DecodeFailure::ParentRoot(why()), "invalid parent root: why"),
        (DecodeFailure::ExecutionRequests(why()), "invalid execution requests: why"),
        (DecodeFailure::ExecutionRequestsList(why()), "why"),
        (DecodeFailure::ProofAttributes(why()), "invalid proof attributes: why"),
    ] {
        let (response, callback) = server.request_proofs(Err(failure), true, 1);
        assert_eq!(error_of(response), (-32602, format!("Invalid params: {message}")));
        assert!(callback.is_none());
    }
    assert!(server.get_proof_requests().is_empty());
    assert!(matches!(
        verify_proof_response(Ok(())),
        RpcResponse::Status(status) if status == "VALID"
    ));
    assert_eq!(
        error_of(verify_proof_response(Err(why()))),
        (-32602, "failed to read request body: why".to_string())
    );
}

#[test]
fn mock_execution_layer_answers_by_method() {
    assert_eq!(mock_el_result(Some("debug_chainConfig")), MockElResult::ChainConfig);
    assert_eq!(mock_el_result(Some("debug_executionWitnessByBlockHash")), MockElResult::Witness);
    assert_eq!(mock_el_result(Some("eth_blockNumber")), MockElResult::Null);
    assert_eq!(mock_el_result(None), MockElResult::Null);
    let answer = |body: &str| mock_el_answer(body.as_bytes());
    assert_eq!(
        answer(r#"{"jsonrpc":"2.0","method":"debug_chainConfig","id":1}"#),
        MockElResult::ChainConfig
    );
    assert_eq!(
        answer(r#"{"id":7, "method": "debug_executionWitnessByBlockHash", "params": []}"#),
        MockElResult::Witness
    );
    assert_eq!(answer(r#"{"method":"eth_blockNumber"}"#), MockElResult::Null);
    assert_eq!(answer(r#"{"method":5}"#), MockElResult::Null);
    assert_eq!(answer(r#"{"name":"debug_chainConfig"}"#), MockElResult::Null);
    assert_eq!(answer("debug_chainConfig"), MockElResult::Null);
    assert_eq!(answer(r#"{"method":"debug_chainConfig"#), MockElResult::Null);
    assert_eq!(trimmed_url("http://127.0.0.1:80//"), "http://127.0.0.1:80");
    assert_eq!(trimmed_url("http://a"), "http://a");
    assert_eq!(trimmed_url("///"), "");
    let prover = MockProverConfig::new(50);
    assert_eq!(prover.mock_proving_time_ms, 50);
    assert!(!prover.mock_failure);
    let server = ServerConfig::default();
    assert_eq!(server.port, 0);
}
