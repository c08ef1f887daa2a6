//! What can go wrong in the proof engine.

use crate::hash::{ExecutionBlockHash, Hash256};
use crate::text::{
    append_decimal, append_signed_decimal, decimal, hex_chars, law_hex_tells_bytes, prefixed_hex,
    signed_decimal,
};
use vstd::prelude::*;
use vstd::string::*;

verus! {

/// The code of a malformed execution proof.
pub const INVALID_PROOF_FORMAT: i64 = -39001;

/// The code of a malformed payload request header.
pub const INVALID_HEADER_FORMAT: i64 = -39002;

/// The code of an invalid execution payload.
pub const INVALID_PAYLOAD: i64 = -39003;

/// The code of an engine that cannot generate proofs.
pub const PROOF_GENERATION_UNAVAILABLE: i64 = -39004;

/// What can go wrong in the state of the engine.
#[derive(Debug, Clone, Copy)]
pub enum ProofEngineStateError {
    /// A request root maps to a block that the tree does not hold.
    BlockHashNotFoundForRequestRoot { request_root: Hash256, block_hash: ExecutionBlockHash },
    /// No payload request with this root was ever seen.
    ProofRequestRootNotSeen(Hash256),
    /// A request that was to be promoted is not in the buffer.
    BufferedRequestNotFound(Hash256),
    /// The tree does not hold the block whose number is needed.
    BlockNumberNotFound(ExecutionBlockHash),
}

/// What can go wrong in the engine.
#[derive(Debug)]
pub enum ProofEngineError {
    /// The format of a proof is invalid.
    InvalidProofFormat(String),
    /// The kind of a proof is invalid.
    InvalidProofType(String),
    /// The format of a header is invalid.
    InvalidHeaderFormat(String),
    /// A payload is invalid.
    InvalidPayload(String),
    /// No proofs can be generated.
    ProofGenerationUnavailable(String),
    /// A request over HTTP failed.
    HttpClientError(String),
    /// The engine answered with an error.
    JsonRpcError { code: i64, message: String },
    /// A value could not be read or written.
    SerdeError(String),
    /// A value does not fit its bounds.
    SszError(String),
    /// The stream of events failed.
    SseError(String),
    /// The fork is not supported.
    ForkNotSupported(String),
    /// The kind of proof is not supported.
    ProofTypeNotSupported(u8),
    /// The engine did not answer in time.
    Timeout,
    /// The engine is not available.
    EngineUnavailable,
    /// The state of the engine is at fault.
    StateError(ProofEngineStateError),
}

/// A digest as messages show it.
pub open spec fn shown(hash: Hash256) -> Seq<char> {
    "0x"@ + hex_chars(hash.0@)
}

impl ProofEngineStateError {
    /// The message of the error.
    pub open spec fn spec_message(self) -> Seq<char> {
        match self {
            ProofEngineStateError::BlockHashNotFoundForRequestRoot { request_root, block_hash } =>
                "Block hash "@ + shown(block_hash.0) + " not found for request root "@ + shown(
                    request_root,
                ),
            ProofEngineStateError::ProofRequestRootNotSeen(root) => "Proof request root "@ + shown(
                root,
            ) + " has not been seen in a beacon block"@,
            ProofEngineStateError::BufferedRequestNotFound(root) => "Buffered request with root "@
                + shown(root) + " not found"@,
            ProofEngineStateError::BlockNumberNotFound(hash) =>
                "Block number not found for block hash "@ + shown(hash.0),
        }
    }

    /// The message of the error.
    pub fn message(&self) -> (r: String)
        ensures
            r@ == self.spec_message(),
    {
        match self {
            ProofEngineStateError::BlockHashNotFoundForRequestRoot { request_root, block_hash } => {
                let mut r = "Block hash ".to_owned();
                append_hash(&mut r, &block_hash.0);
                r.append(" not found for request root ");
                append_hash(&mut r, request_root);
                r
            },
            ProofEngineStateError::ProofRequestRootNotSeen(root) => {
                let mut r = "Proof request root ".to_owned();
                append_hash(&mut r, root);
                r.append(" has not been seen in a beacon block");
                r
            },
            ProofEngineStateError::BufferedRequestNotFound(root) => {
                let mut r = "Buffered request with root ".to_owned();
                append_hash(&mut r, root);
                r.append(" not found");
                r
            },
            ProofEngineStateError::BlockNumberNotFound(hash) => {
                let mut r = "Block number not found for block hash ".to_owned();
                append_hash(&mut r, &hash.0);
                r
            },
        }
    }

    /// The error by its name and what it carries.
    pub open spec fn spec_name(self) -> Seq<char> {
        match self {
            ProofEngineStateError::BlockHashNotFoundForRequestRoot { request_root, block_hash } =>
                "BlockHashNotFoundForRequestRoot { request_root: "@ + shown(request_root)
                    + ", block_hash: "@ + shown(block_hash.0) + " }"@,
            ProofEngineStateError::ProofRequestRootNotSeen(root) => "ProofRequestRootNotSeen("@
                + shown(root) + ")"@,
            ProofEngineStateError::BufferedRequestNotFound(root) => "BufferedRequestNotFound("@
                + shown(root) + ")"@,
            ProofEngineStateError::BlockNumberNotFound(hash) => "BlockNumberNotFound("@ + shown(
                hash.0,
            ) + ")"@,
        }
    }

    /// The error by its name and what it carries.
    pub fn name(&self) -> (r: String)
        ensures
            r@ == self.spec_name(),
    {
        match self {
            ProofEngineStateError::BlockHashNotFoundForRequestRoot { request_root, block_hash } => {
                let mut r = "BlockHashNotFoundForRequestRoot { request_root: ".to_owned();
                append_hash(&mut r, request_root);
                r.append(", block_hash: ");
                append_hash(&mut r, &block_hash.0);
                r.append(" }");
                r
            },
            ProofEngineStateError::ProofRequestRootNotSeen(root) => {
                let mut r = "ProofRequestRootNotSeen(".to_owned();
                append_hash(&mut r, root);
                r.append(")");
                r
            },
            ProofEngineStateError::BufferedRequestNotFound(root) => {
                let mut r = "BufferedRequestNotFound(".to_owned();
                append_hash(&mut r, root);
                r.append(")");
                r
            },
            ProofEngineStateError::BlockNumberNotFound(hash) => {
                let mut r = "BlockNumberNotFound(".to_owned();
                append_hash(&mut r, &hash.0);
                r.append(")");
                r
            },
        }
    }
}

/// Appends a digest as messages show it.
fn append_hash(text: &mut String, hash: &Hash256)
    ensures
        final(text)@ == old(text)@ + shown(*hash),
{
    let digits = prefixed_hex(hash.0.as_slice());
    text.append(digits.as_str());
}

/// A message that begins in a fixed way.
fn prefixed(prefix: &str, rest: &String) -> (r: String)
    ensures
        r@ == prefix@ + rest@,
{
    let mut r = prefix.to_owned();
    r.append(rest.as_str());
    r
}

impl ProofEngineError {
    /// The code that the engine answered with, where it answered with an error.
    pub fn rpc_error_code(&self) -> (r: Option<i64>)
        ensures
            r == match *self {
                ProofEngineError::JsonRpcError { code, .. } => Some(code),
                _ => None,
            },
    {
        match self {
            ProofEngineError::JsonRpcError { code, .. } => Some(*code),
            _ => None,
        }
    }

    /// Whether the kind of proof is not supported.
    pub fn is_not_supported(&self) -> (r: bool)
        ensures
            r == (*self is ProofTypeNotSupported),
    {
        matches!(self, ProofEngineError::ProofTypeNotSupported(_))
    }

    /// The message of the error.
    pub open spec fn spec_message(self) -> Seq<char> {
        match self {
            ProofEngineError::InvalidProofFormat(m) => "Invalid proof format: "@ + m@,
            ProofEngineError::InvalidProofType(m) => "Invalid proof type: "@ + m@,
            ProofEngineError::InvalidHeaderFormat(m) => "Invalid header format: "@ + m@,
            ProofEngineError::InvalidPayload(m) => "Invalid payload: "@ + m@,
            ProofEngineError::ProofGenerationUnavailable(m) => "Proof generation unavailable: "@
                + m@,
            ProofEngineError::HttpClientError(m) => "HTTP request failed: "@ + m@,
            ProofEngineError::JsonRpcError { code, message } => "JSON-RPC error (code "@
                + signed_decimal(code as int) + "): "@ + message@,
            ProofEngineError::SerdeError(m) => "Serialization error: "@ + m@,
            ProofEngineError::SszError(m) => "SSZ error: "@ + m@,
            ProofEngineError::SseError(m) => "SSE stream error: "@ + m@,
            ProofEngineError::ForkNotSupported(m) => "Fork not supported: "@ + m@,
            ProofEngineError::ProofTypeNotSupported(t) => "Proof type "@ + decimal(t as nat)
                + " not supported"@,
            ProofEngineError::Timeout => "Proof engine request timed out"@,
            ProofEngineError::EngineUnavailable => "Proof engine is unavailable"@,
            ProofEngineError::StateError(e) => "State error: "@ + e.spec_name(),
        }
    }

    /// The message of the error.
    pub fn message(&self) -> (r: String)
        ensures
            r@ == self.spec_message(),
    {
        match self {
            ProofEngineError::InvalidProofFormat(m) => prefixed("Invalid proof format: ", m),
            ProofEngineError::InvalidProofType(m) => prefixed("Invalid proof type: ", m),
            ProofEngineError::InvalidHeaderFormat(m) => prefixed("Invalid header format: ", m),
            ProofEngineError::InvalidPayload(m) => prefixed("Invalid payload: ", m),
            ProofEngineError::ProofGenerationUnavailable(m) => prefixed(
                "Proof generation unavailable: ",
                m,
            ),
            ProofEngineError::HttpClientError(m) => prefixed("HTTP request failed: ", m),
            ProofEngineError::JsonRpcError { code, message } => {
                let mut r = "JSON-RPC error (code ".to_owned();
                append_signed_decimal(&mut r, *code);
                r.append("): ");
                r.append(message.as_str());
                r
            },
            ProofEngineError::SerdeError(m) => prefixed("Serialization error: ", m),
            ProofEngineError::SszError(m) => prefixed("SSZ error: ", m),
            ProofEngineError::SseError(m) => prefixed("SSE stream error: ", m),
            ProofEngineError::ForkNotSupported(m) => prefixed("Fork not supported: ", m),
            ProofEngineError::ProofTypeNotSupported(t) => {
                let mut r = "Proof type ".to_owned();
                append_decimal(&mut r, *t as u64);
                r.append(" not supported");
                r
            },
            ProofEngineError::Timeout => "Proof engine request timed out".to_owned(),
            ProofEngineError::EngineUnavailable => "Proof engine is unavailable".to_owned(),
            ProofEngineError::StateError(e) => prefixed("State error: ", &e.name()),
        }
    }
}

/// The message of an error that carries a text ends with that text, all of it.
pub proof fn law_message_ends_with_text(e: ProofEngineError, text: String)
    requires
        ({
            ||| e == ProofEngineError::InvalidProofFormat(text)
            ||| e == ProofEngineError::InvalidProofType(text)
            ||| e == ProofEngineError::InvalidHeaderFormat(text)
            ||| e == ProofEngineError::InvalidPayload(text)
            ||| e == ProofEngineError::ProofGenerationUnavailable(text)
            ||| e == ProofEngineError::HttpClientError(text)
            ||| e == ProofEngineError::SerdeError(text)
            ||| e == ProofEngineError::SszError(text)
            ||| e == ProofEngineError::SseError(text)
            ||| e == ProofEngineError::ForkNotSupported(text)
        }),
    ensures
        e.spec_message().len() >= text@.len(),
        e.spec_message().skip(e.spec_message().len() - text@.len()) == text@,
{
    let message = e.spec_message();
    assert(message.skip(message.len() - text@.len()) =~= text@);
}

/// Messages about unknown requests, and about blocks that are not there, tell them apart.
pub proof fn law_messages_tell_roots_apart(a: Hash256, b: Hash256)
    ensures
        shown(a) == shown(b) ==> a.0@ == b.0@,
        ProofEngineStateError::ProofRequestRootNotSeen(a).spec_message()
            == ProofEngineStateError::ProofRequestRootNotSeen(b).spec_message() ==> a.0@ == b.0@,
        ProofEngineStateError::BufferedRequestNotFound(a).spec_message()
            == ProofEngineStateError::BufferedRequestNotFound(b).spec_message() ==> a.0@ == b.0@,
        ProofEngineStateError::BlockNumberNotFound(ExecutionBlockHash(a)).spec_message()
            == ProofEngineStateError::BlockNumberNotFound(ExecutionBlockHash(b)).spec_message()
            ==> a.0@ == b.0@,
{
    lemma_between("0x"@, hex_chars(a.0@), hex_chars(b.0@), Seq::empty());
    assert("0x"@ + hex_chars(a.0@) + Seq::<char>::empty() =~= shown(a));
    assert("0x"@ + hex_chars(b.0@) + Seq::<char>::empty() =~= shown(b));
    law_hex_tells_bytes(a.0@, b.0@, 0);
    law_hex_tells_bytes(b.0@, a.0@, 0);
    lemma_between(
        "Proof request root "@,
        shown(a),
        shown(b),
        " has not been seen in a beacon block"@,
    );
    lemma_between("Buffered request with root "@, shown(a), shown(b), " not found"@);
    lemma_between("Block number not found for block hash "@, shown(a), shown(b), Seq::empty());
    assert("Block number not found for block hash "@ + shown(a) + Seq::<char>::empty()
        =~= "Block number not found for block hash "@ + shown(a));
    assert("Block number not found for block hash "@ + shown(b) + Seq::<char>::empty()
        =~= "Block number not found for block hash "@ + shown(b));
}

/// Texts of one length between the same texts are the same where the whole is.
proof fn lemma_between(before: Seq<char>, a: Seq<char>, b: Seq<char>, after: Seq<char>)
    requires
        a.len() == b.len(),
    ensures
        before + a + after == before + b + after ==> a == b,
{
    let n = before.len() as int;
    let m = n + a.len();
    assert((before + a + after).subrange(n, m) =~= a);
    assert((before + b + after).subrange(n, m) =~= b);
}

} // verus!
