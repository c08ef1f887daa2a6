//! A mock proof engine server: what it answers to requests, and the proofs that it makes up.
//!
//! The caller moves the bytes. It hands in the body of a request, reads the parameters that are
//! returned as the payload types that it knows, and sends the answer.

use crate::execution_proof::{
    ExecutionProof, ExecutionProofView, ProofGenId, ProofType, PublicInput,
};
use crate::engine::proof_engine::{mock_proof_bytes, mock_proof_data};
use crate::hash::{Hash256, PublicKeyBytes};
use crate::text::{append_decimal, decimal, hex_chars, prefixed_hex};
use vstd::prelude::*;
use vstd::string::*;

verus! {

/// The code of an answer to invalid parameters.
pub const INVALID_PARAMS: i64 = -32602;

/// How many parameters a request for proofs has.
pub const REQUEST_PROOFS_PARAMS: usize = 5;

/// Where a mock server listens.
#[derive(Debug, Clone, Copy)]
pub struct ProofEngineServerConfig {
    pub listen_port: u16,
    pub listen_addr: [u8; 4],
}

impl Default for ProofEngineServerConfig {
    /// Any free port of the local host.
    fn default() -> (r: Self)
        ensures
            r.listen_port == 0,
            r.listen_addr@ == seq![127u8, 0, 0, 1],
    {
        let listen_addr: [u8; 4] = [127, 0, 0, 1];
        assert(listen_addr@ =~= seq![127u8, 0, 0, 1]);
        ProofEngineServerConfig { listen_port: 0, listen_addr }
    }
}

/// How a mock server behaves.
#[derive(Debug, Clone, Copy)]
pub struct MockProofEngineConfig {
    pub server_config: ProofEngineServerConfig,
    /// How long after a request its proofs are delivered.
    pub callback_delay_ms: u64,
}

impl Default for MockProofEngineConfig {
    fn default() -> (r: Self)
        ensures
            r.callback_delay_ms == 200,
            r.server_config.listen_port == 0,
            r.server_config.listen_addr@ == seq![127u8, 0, 0, 1],
    {
        MockProofEngineConfig {
            server_config: ProofEngineServerConfig::default(),
            callback_delay_ms: 200,
        }
    }
}

/// A request for proofs that the server has received.
#[derive(Debug, Clone)]
pub struct ProofRequestRecord {
    pub proof_gen_id: ProofGenId,
    pub new_payload_request_root: Hash256,
    pub proof_types: Vec<ProofType>,
    /// When the request came, in the units of the caller's clock.
    pub timestamp: u64,
}

/// An answer of the server.
#[derive(Debug)]
pub enum RpcResponse {
    /// An error.
    Error { code: i64, message: String },
    /// A result that is a text.
    Text(String),
    /// A result that is an object with a status.
    Status(String),
}

impl RpcResponse {
    /// Whether this is the error with this code and message.
    pub open spec fn is_error(self, code: i64, message: Seq<char>) -> bool {
        self matches RpcResponse::Error { code: c, message: m } && c == code && m@ == message
    }
}

/// Why the parameters of a request could not be read, in the order in which they are read.
#[derive(Debug)]
pub enum DecodeFailure {
    /// The execution payload.
    ExecutionPayload(String),
    /// The conversion of the execution payload.
    PayloadConversion(String),
    /// The versioned hashes.
    VersionedHashes(String),
    /// The root of the parent beacon block.
    ParentRoot(String),
    /// The execution requests.
    ExecutionRequests(String),
    /// The list of execution requests.
    ExecutionRequestsList(String),
    /// The kinds of proofs.
    ProofAttributes(String),
}

impl DecodeFailure {
    /// What the server says about the failure.
    pub open spec fn spec_message(self) -> Seq<char> {
        match self {
            DecodeFailure::ExecutionPayload(e) => "invalid execution payload: "@ + e@,
            DecodeFailure::PayloadConversion(e) => "failed to convert payload: "@ + e@,
            DecodeFailure::VersionedHashes(e) => "invalid versioned hashes: "@ + e@,
            DecodeFailure::ParentRoot(e) => "invalid parent root: "@ + e@,
            DecodeFailure::ExecutionRequests(e) => "invalid execution requests: "@ + e@,
            DecodeFailure::ExecutionRequestsList(e) => e@,
            DecodeFailure::ProofAttributes(e) => "invalid proof attributes: "@ + e@,
        }
    }

    /// What the server says about the failure.
    pub fn message(&self) -> (r: String)
        ensures
            r@ == self.spec_message(),
    {
        match self {
            DecodeFailure::ExecutionPayload(e) => joined("invalid execution payload: ", e),
            DecodeFailure::PayloadConversion(e) => joined("failed to convert payload: ", e),
            DecodeFailure::VersionedHashes(e) => joined("invalid versioned hashes: ", e),
            DecodeFailure::ParentRoot(e) => joined("invalid parent root: ", e),
            DecodeFailure::ExecutionRequests(e) => joined("invalid execution requests: ", e),
            DecodeFailure::ExecutionRequestsList(e) => e.clone(),
            DecodeFailure::ProofAttributes(e) => joined("invalid proof attributes: ", e),
        }
    }
}

/// A text after a fixed beginning.
fn joined(prefix: &str, rest: &String) -> (r: String)
    ensures
        r@ == prefix@ + rest@,
{
    let mut r = prefix.to_owned();
    r.append(rest.as_str());
    r
}

/// What the parameters of a request for proofs say.
#[derive(Debug)]
pub struct DecodedRequest {
    /// The tree hash root of the payload request.
    pub request_root: Hash256,
    /// The kinds of proofs that are asked for.
    pub proof_types: Vec<ProofType>,
}

/// A request to sign a proof.
#[derive(Debug)]
pub struct SignExecutionProofRequest {
    pub execution_proof: ExecutionProof,
    /// The epoch to sign for. Without one, the signer uses the current epoch.
    pub epoch: Option<u64>,
}

/// A delivery of proofs that a request gives rise to.
#[derive(Debug)]
pub struct ProofCallback {
    pub delay_ms: u64,
    pub new_payload_request_root: Hash256,
    pub proof_types: Vec<ProofType>,
}

/// The texts of a list.
pub open spec fn texts(list: Seq<String>) -> Seq<Seq<char>> {
    list.map_values(|s: String| s@)
}

/// What reading a body as JSON comes to: the elements of the array that an object has under a
/// field, each written as JSON again; `Ok(None)` where the body is JSON without such an array;
/// or what is wrong with the body.
pub uninterp spec fn json_array(body: Seq<u8>, field: Seq<char>) -> Result<
    Option<Seq<Seq<char>>>,
    Seq<char>,
>;

/// The views of what reading a body came to.
pub open spec fn json_views(r: Result<Option<Vec<String>>, String>) -> Result<
    Option<Seq<Seq<char>>>,
    Seq<char>,
> {
    match r {
        Ok(Some(list)) => Ok(Some(texts(list@))),
        Ok(None) => Ok(None),
        Err(e) => Err(e@),
    }
}

/// `serde_json::from_slice` into a `serde_json::Value`, from which the array under a field is
/// taken with each element written as JSON again. The result depends on the bytes and the field
/// alone. Which bytes are JSON, and how an error reads, is not stated.
#[verifier::external_body]
fn read_json_array(body: &[u8], field: &str) -> (r: Result<Option<Vec<String>>, String>)
    ensures
        json_views(r) == json_array(body@, field@),
{
    match serde_json::from_slice::<serde_json::Value>(body) {
        Ok(value) => Ok(
            value[field].as_array().map(|list| list.iter().map(|v| v.to_string()).collect()),
        ),
        Err(e) => Err(e.to_string()),
    }
}

/// The answer to a request whose parameters are invalid.
fn invalid_params(why: &str) -> (r: RpcResponse)
    ensures
        r.is_error(INVALID_PARAMS, "Invalid params: "@ + why@),
{
    let mut message = "Invalid params: ".to_owned();
    message.append(why);
    RpcResponse::Error { code: INVALID_PARAMS, message }
}

/// The parameters of a request for proofs, by what reading its body came to. At least as many
/// are needed as such a request has.
pub fn check_params(read: Result<Option<Vec<String>>, String>) -> (r: Result<
    Vec<String>,
    RpcResponse,
>)
    ensures
        match json_views(read) {
            Err(e) => r matches Err(answer) && answer.is_error(
                INVALID_PARAMS,
                "Invalid params: "@ + ("invalid JSON: "@ + e),
            ),
            Ok(None) => r matches Err(answer) && answer.is_error(
                INVALID_PARAMS,
                "Invalid params: "@ + "params is not an array"@,
            ),
            Ok(Some(params)) => if params.len() < REQUEST_PROOFS_PARAMS {
                r matches Err(answer) && answer.is_error(
                    INVALID_PARAMS,
                    "Invalid params: "@ + ("expected 5 params, got "@ + decimal(params.len())),
                )
            } else {
                r matches Ok(list) && texts(list@) == params
            },
        },
{
    match read {
        Err(e) => {
            let why = joined("invalid JSON: ", &e);
            Err(invalid_params(why.as_str()))
        },
        Ok(None) => Err(invalid_params("params is not an array")),
        Ok(Some(params)) => {
            if params.len() < REQUEST_PROOFS_PARAMS {
                let mut why = "expected 5 params, got ".to_owned();
                append_decimal(&mut why, params.len() as u64);
                return Err(invalid_params(why.as_str()));
            }
            Ok(params)
        },
    }
}

/// The parameters of a request for proofs, each as JSON, or the answer to a request that has
/// not got them. `body` is the body of the request, or why it could not be read.
pub fn request_params(body: Result<Vec<u8>, String>) -> (r: Result<Vec<String>, RpcResponse>)
    ensures
        match body {
            Err(e) => r matches Err(answer) && answer.is_error(
                INVALID_PARAMS,
                "Invalid params: "@ + ("failed to read request body: "@ + e@),
            ),
            Ok(bytes) => match json_array(bytes@, "params"@) {
                Err(e) => r matches Err(answer) && answer.is_error(
                    INVALID_PARAMS,
                    "Invalid params: "@ + ("invalid JSON: "@ + e),
                ),
                Ok(None) => r matches Err(answer) && answer.is_error(
                    INVALID_PARAMS,
                    "Invalid params: "@ + "params is not an array"@,
                ),
                Ok(Some(params)) => if params.len() < REQUEST_PROOFS_PARAMS {
                    r matches Err(answer) && answer.is_error(
                        INVALID_PARAMS,
                        "Invalid params: "@ + ("expected 5 params, got "@ + decimal(params.len())),
                    )
                } else {
                    r matches Ok(list) && texts(list@) == params
                },
            },
        },
{
    match body {
        Err(e) => {
            let why = joined("failed to read request body: ", &e);
            Err(invalid_params(why.as_str()))
        },
        Ok(bytes) => check_params(read_json_array(bytes.as_slice(), "params")),
    }
}

/// The answer to a request to verify a proof: every proof is valid. `body` says why the body of
/// the request could not be read, where that is so.
pub fn verify_proof_response(body: Result<(), String>) -> (r: RpcResponse)
    ensures
        match body {
            Err(e) => r.is_error(INVALID_PARAMS, "failed to read request body: "@ + e@),
            Ok(_) => r matches RpcResponse::Status(status) && status@ == "VALID"@,
        },
{
    match body {
        Err(e) => RpcResponse::Error {
            code: INVALID_PARAMS,
            message: joined("failed to read request body: ", &e),
        },
        Ok(_) => RpcResponse::Status("VALID".to_owned()),
    }
}

/// A copy of a list of kinds of proofs.
fn copy_types(types: &Vec<ProofType>) -> (r: Vec<ProofType>)
    ensures
        r@ == types@,
{
    let mut r: Vec<ProofType> = Vec::new();
    let mut i: usize = 0;
    while i < types.len()
        invariant
            i <= types@.len(),
            r@ == types@.take(i as int),
        decreases types@.len() - i,
    {
        r.push(types[i]);
        assert(r@ =~= types@.take(i + 1));
        i = i + 1;
    }
    assert(r@ =~= types@);
    r
}

/// The id of the proof generation for a request: the first bytes of its root.
pub open spec fn gen_id_of(root: Hash256) -> Seq<u8> {
    root.0@.take(8)
}

/// The id of the proof generation for a request: the first bytes of its root.
pub fn proof_gen_id(root: &Hash256) -> (r: ProofGenId)
    ensures
        r@ == gen_id_of(*root),
{
    let r: ProofGenId = [
        root.0[0],
        root.0[1],
        root.0[2],
        root.0[3],
        root.0[4],
        root.0[5],
        root.0[6],
        root.0[7],
    ];
    assert(r@ =~= gen_id_of(*root));
    r
}

/// What a sequence of proofs holds.
pub open spec fn proof_views(proofs: Seq<ExecutionProof>) -> Seq<ExecutionProofView> {
    proofs.map_values(|p: ExecutionProof| p@)
}

/// The dummy proof of a kind for a request.
pub open spec fn dummy_proof(root: Hash256, proof_type: ProofType) -> ExecutionProofView {
    ExecutionProofView {
        proof_data: mock_proof_bytes(root),
        proof_type,
        public_input: PublicInput { new_payload_request_root: root },
    }
}

/// A mock proof engine server: its settings, and the requests that it has received.
#[derive(Debug)]
pub struct MockProofEngineServer {
    config: MockProofEngineConfig,
    proof_requests: Vec<ProofRequestRecord>,
}

impl MockProofEngineServer {
    /// The requests that the server has received.
    pub closed spec fn requests(self) -> Seq<ProofRequestRecord> {
        self.proof_requests@
    }

    /// The settings of the server.
    pub closed spec fn settings(self) -> MockProofEngineConfig {
        self.config
    }

    /// The delay of the server.
    pub open spec fn delay(self) -> u64 {
        self.settings().callback_delay_ms
    }

    /// A server that has received nothing.
    pub fn new(config: MockProofEngineConfig) -> (r: Self)
        ensures
            r.requests() == Seq::<ProofRequestRecord>::empty(),
            r.settings() == config,
    {
        MockProofEngineServer { config, proof_requests: Vec::new() }
    }

    /// The requests that the server has received.
    pub fn get_proof_requests(&self) -> (r: &Vec<ProofRequestRecord>)
        ensures
            r@ == self.requests(),
    {
        &self.proof_requests
    }

    /// Whether one more request than `before` is recorded: the decoded one.
    pub open spec fn records(
        self,
        before: Seq<ProofRequestRecord>,
        decoded: DecodedRequest,
        now: u64,
    ) -> bool {
        &&& self.requests().len() == before.len() + 1
        &&& self.requests().drop_last() == before
        &&& self.requests().last().proof_gen_id@ == gen_id_of(decoded.request_root)
        &&& self.requests().last().new_payload_request_root == decoded.request_root
        &&& self.requests().last().proof_types@ == decoded.proof_types@
        &&& self.requests().last().timestamp == now
    }

    /// Takes a request for proofs whose parameters were read, or could not be read. One that was
    /// read is recorded and answered with its id. Where a validator client is known, its proofs
    /// are to be delivered to it.
    pub fn request_proofs(
        &mut self,
        decoded: Result<DecodedRequest, DecodeFailure>,
        has_validator: bool,
        now: u64,
    ) -> (r: (RpcResponse, Option<ProofCallback>))
        ensures
            final(self).settings() == old(self).settings(),
            match decoded {
                Err(e) => {
                    &&& final(self).requests() == old(self).requests()
                    &&& r.0.is_error(INVALID_PARAMS, "Invalid params: "@ + e.spec_message())
                    &&& r.1 is None
                },
                Ok(request) => {
                    &&& final(self).records(old(self).requests(), request, now)
                    &&& r.0 matches RpcResponse::Text(text) && text@ == "0x"@ + hex_chars(
                        gen_id_of(request.request_root),
                    )
                    &&& r.1 is Some <==> has_validator
                    &&& r.1 matches Some(callback) ==> {
                        &&& callback.delay_ms == old(self).delay()
                        &&& callback.new_payload_request_root == request.request_root
                        &&& callback.proof_types@ == request.proof_types@
                    }
                },
            },
    {
        let request = match decoded {
            Ok(request) => request,
            Err(e) => {
                let why = e.message();
                return (invalid_params(why.as_str()), None);
            },
        };
        let callback = if has_validator {
            Some(
                ProofCallback {
                    delay_ms: self.config.callback_delay_ms,
                    new_payload_request_root: request.request_root,
                    proof_types: copy_types(&request.proof_types),
                },
            )
        } else {
            None
        };
        let id = proof_gen_id(&request.request_root);
        let text = prefixed_hex(id.as_slice());
        let ghost before = self.requests();
        self.proof_requests.push(
            ProofRequestRecord {
                proof_gen_id: id,
                new_payload_request_root: request.request_root,
                proof_types: copy_types(&request.proof_types),
                timestamp: now,
            },
        );
        assert(self.requests().drop_last() =~= before);
        (RpcResponse::Text(text), callback)
    }

    /// The dummy proofs of these kinds for a request.
    pub fn generate_dummy_proofs(root: Hash256, proof_types: &Vec<ProofType>) -> (r: Vec<
        ExecutionProof,
    >)
        ensures
            proof_views(r@) == proof_types@.map_values(|t: ProofType| dummy_proof(root, t)),
    {
        let mut proofs: Vec<ExecutionProof> = Vec::new();
        let mut i: usize = 0;
        while i < proof_types.len()
            invariant
                i <= proof_types@.len(),
                proofs@.len() == i,
                forall|j: int|
                    0 <= j < i ==> (#[trigger] proofs@[j])@ == dummy_proof(root, proof_types@[j]),
            decreases proof_types@.len() - i,
        {
            proofs.push(
                ExecutionProof {
                    proof_data: mock_proof_data(&root),
                    proof_type: proof_types[i],
                    public_input: PublicInput { new_payload_request_root: root },
                },
            );
            i = i + 1;
        }
        assert(proof_views(proofs@) =~= proof_types@.map_values(
            |t: ProofType| dummy_proof(root, t),
        ));
        proofs
    }

    /// What the delivery of proofs sends: to the first validator, one request to sign each dummy
    /// proof. Without a validator nothing is sent.
    pub fn proof_callback(
        validators: &Vec<PublicKeyBytes>,
        new_payload_request_root: Hash256,
        proof_types: &Vec<ProofType>,
    ) -> (r: Option<(PublicKeyBytes, Vec<SignExecutionProofRequest>)>)
        ensures
            r is Some <==> validators@.len() > 0,
            r matches Some((pubkey, requests)) ==> {
                &&& pubkey == validators@[0]
                &&& requests@.len() == proof_types@.len()
                &&& forall|j: int|
                    0 <= j < requests@.len() ==> (#[trigger] requests@[j]).epoch is None
                        && requests@[j].execution_proof@ == dummy_proof(
                        new_payload_request_root,
                        proof_types@[j],
                    )
            },
    {
        if validators.len() == 0 {
            return None;
        }
        let mut requests: Vec<SignExecutionProofRequest> = Vec::new();
        let proofs = MockProofEngineServer::generate_dummy_proofs(
            new_payload_request_root,
            proof_types,
        );
        let mut i: usize = 0;
        while i < proofs.len()
            invariant
                i <= proofs@.len(),
                requests@.len() == i,
                forall|j: int|
                    0 <= j < i ==> (#[trigger] requests@[j]).epoch is None
                        && requests@[j].execution_proof@ == proof_views(proofs@)[j],
            decreases proofs@.len() - i,
        {
            requests.push(
                SignExecutionProofRequest { execution_proof: proofs[i].clone(), epoch: None },
            );
            i = i + 1;
        }
        proof {
            assert(proof_views(proofs@).len() == proof_types@.len());
            assert forall|j: int| 0 <= j < requests@.len() implies (#[trigger] requests@[j]).epoch
                is None && requests@[j].execution_proof@ == dummy_proof(
                new_payload_request_root,
                proof_types@[j],
            ) by {
                assert(proof_views(proofs@)[j] == dummy_proof(
                    new_payload_request_root,
                    proof_types@[j],
                ));
            }
        }
        Some((validators[0], requests))
    }
}

/// The dummy proofs of a request differ in their kinds alone.
pub proof fn law_dummy_proofs(root: Hash256, proof_type: ProofType, i: int)
    ensures
        dummy_proof(root, proof_type).proof_type == proof_type,
        dummy_proof(root, proof_type).public_input.new_payload_request_root == root,
        dummy_proof(root, proof_type).proof_data.len() == 20,
        dummy_proof(root, proof_type).proof_data.take(4) == seq![0xDEu8, 0xAD, 0xBE, 0xEF],
        4 <= i < 20 ==> dummy_proof(root, proof_type).proof_data[i] == root.0@[i - 4],
{
    assert(dummy_proof(root, proof_type).proof_data.take(4) =~= seq![0xDEu8, 0xAD, 0xBE, 0xEF]);
}

/// A request that is recorded stands behind those from before, under the first bytes of its root.
pub proof fn law_requests_recorded(
    server: MockProofEngineServer,
    before: Seq<ProofRequestRecord>,
    decoded: DecodedRequest,
    now: u64,
    i: int,
)
    requires
        server.records(before, decoded, now),
    ensures
        server.requests().len() == before.len() + 1,
        0 <= i < before.len() ==> server.requests()[i] == before[i],
        ({
            let record = server.requests()[before.len() as int];
            &&& record.new_payload_request_root == decoded.request_root
            &&& record.proof_types@ == decoded.proof_types@
            &&& record.timestamp == now
            &&& 0 <= i < 8 ==> record.proof_gen_id@[i] == decoded.request_root.0@[i]
        }),
{
    if 0 <= i < before.len() {
        assert(server.requests().drop_last()[i] == server.requests()[i]);
    }
}

/// What the server says about a failure ends with what went wrong.
pub proof fn law_failure_told(failure: DecodeFailure, e: String)
    requires
        ({
            ||| failure == DecodeFailure::ExecutionPayload(e)
            ||| failure == DecodeFailure::PayloadConversion(e)
            ||| failure == DecodeFailure::VersionedHashes(e)
            ||| failure == DecodeFailure::ParentRoot(e)
            ||| failure == DecodeFailure::ExecutionRequests(e)
            ||| failure == DecodeFailure::ExecutionRequestsList(e)
            ||| failure == DecodeFailure::ProofAttributes(e)
        }),
    ensures
        failure.spec_message().len() >= e@.len(),
        failure.spec_message().skip(failure.spec_message().len() - e@.len()) == e@,
{
    let text = failure.spec_message();
    assert(text.skip(text.len() - e@.len()) =~= e@);
}

} // verus!
