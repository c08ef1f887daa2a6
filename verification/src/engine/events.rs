//! The events that a proof engine broadcasts.

use crate::engine::errors::ProofEngineError;
use crate::execution_proof::ProofType;
use crate::hash::Hash256;
use vstd::prelude::*;
use vstd::string::*;

verus! {

/// A proof is complete.
#[derive(Debug, Clone, Copy, PartialEq)]
pub struct ProofComplete {
    pub new_payload_request_root: Hash256,
    pub proof_type: ProofType,
}

/// A proof has failed.
#[derive(Debug, Clone, PartialEq)]
pub struct ProofFailure {
    pub new_payload_request_root: Hash256,
    pub proof_type: ProofType,
    pub error: String,
}

/// Something took too long.
#[derive(Debug, Clone, Copy, PartialEq)]
pub struct ProofEventInfo {
    pub new_payload_request_root: Hash256,
    pub proof_type: ProofType,
}

/// An event that a proof engine broadcasts.
#[derive(Debug, Clone, PartialEq)]
pub enum ProofEvent {
    /// A proof is complete.
    ProofComplete(ProofComplete),
    /// A proof has failed.
    ProofFailure(ProofFailure),
    /// The witness took too long.
    WitnessTimeout(ProofEventInfo),
    /// The proof took too long.
    ProofTimeout(ProofEventInfo),
}

/// The name and the data of an event as they came.
#[derive(Debug, Clone, Copy)]
pub struct SseEventParts<'a>(pub &'a str, pub &'a str);

/// The kinds of events.
#[derive(Debug, Clone, Copy, PartialEq, Eq, Structural)]
pub enum ProofEventKind {
    ProofComplete,
    ProofFailure,
    WitnessTimeout,
    ProofTimeout,
}

/// Whether two texts are the same.
pub fn same_text(a: &str, b: &str) -> (r: bool)
    ensures
        r == (a@ == b@),
{
    let n: usize = a.unicode_len();
    if b.unicode_len() != n {
        return false;
    }
    let mut i: usize = 0;
    while i < n
        invariant
            i <= n,
            n == a@.len(),
            n == b@.len(),
            forall|j: int| 0 <= j < i ==> a@[j] == b@[j],
        decreases n - i,
    {
        if a.get_char(i) != b.get_char(i) {
            return false;
        }
        i = i + 1;
    }
    assert(a@ =~= b@);
    true
}

/// The kind of event that goes by a name.
pub open spec fn kind_named(name: Seq<char>) -> Option<ProofEventKind> {
    if name == "proof_complete"@ {
        Some(ProofEventKind::ProofComplete)
    } else if name == "proof_failure"@ {
        Some(ProofEventKind::ProofFailure)
    } else if name == "witness_timeout"@ {
        Some(ProofEventKind::WitnessTimeout)
    } else if name == "proof_timeout"@ {
        Some(ProofEventKind::ProofTimeout)
    } else {
        None
    }
}

impl<'a> SseEventParts<'a> {
    /// The kind of the event, by its name.
    pub fn kind(&self) -> (r: Result<ProofEventKind, ProofEngineError>)
        ensures
            match r {
                Ok(kind) => kind_named(self.0@) == Some(kind),
                Err(e) => kind_named(self.0@) is None && (e matches ProofEngineError::SseError(text)
                    && text@ == "unknown SSE event type: "@ + self.0@),
            },
    {
        let name = self.0;
        if same_text(name, "proof_complete") {
            return Ok(ProofEventKind::ProofComplete);
        }
        if same_text(name, "proof_failure") {
            return Ok(ProofEventKind::ProofFailure);
        }
        if same_text(name, "witness_timeout") {
            return Ok(ProofEventKind::WitnessTimeout);
        }
        if same_text(name, "proof_timeout") {
            return Ok(ProofEventKind::ProofTimeout);
        }
        let mut text = "unknown SSE event type: ".to_owned();
        text.append(name);
        Err(ProofEngineError::SseError(text))
    }
}

impl ProofEvent {
    /// The event of a kind, with what its data was read as. Only a failure has an error text.
    pub open spec fn of_kind(self, kind: ProofEventKind, data: ProofFailure) -> bool {
        let root = data.new_payload_request_root;
        let proof_type = data.proof_type;
        match kind {
            ProofEventKind::ProofComplete => self == ProofEvent::ProofComplete(
                ProofComplete { new_payload_request_root: root, proof_type },
            ),
            ProofEventKind::ProofFailure => self == ProofEvent::ProofFailure(data),
            ProofEventKind::WitnessTimeout => self == ProofEvent::WitnessTimeout(
                ProofEventInfo { new_payload_request_root: root, proof_type },
            ),
            ProofEventKind::ProofTimeout => self == ProofEvent::ProofTimeout(
                ProofEventInfo { new_payload_request_root: root, proof_type },
            ),
        }
    }

    /// The event with the given name. `data` is what its data was read as, or why it could not
    /// be read.
    pub fn try_from_parts(parts: SseEventParts, data: Result<ProofFailure, String>) -> (r: Result<
        ProofEvent,
        ProofEngineError,
    >)
        ensures
            match (kind_named(parts.0@), data) {
                (None, _) => r matches Err(ProofEngineError::SseError(text)) && text@
                    == "unknown SSE event type: "@ + parts.0@,
                (Some(_), Err(why)) => r == Err::<ProofEvent, ProofEngineError>(
                    ProofEngineError::SerdeError(why),
                ),
                (Some(kind), Ok(fields)) => r matches Ok(event) && event.of_kind(kind, fields),
            },
    {
        let kind = match parts.kind() {
            Ok(kind) => kind,
            Err(e) => return Err(e),
        };
        let fields = match data {
            Ok(fields) => fields,
            Err(why) => return Err(ProofEngineError::SerdeError(why)),
        };
        let new_payload_request_root = fields.new_payload_request_root;
        let proof_type: u8 = fields.proof_type;
        match kind {
            ProofEventKind::ProofComplete => Ok(
                ProofEvent::ProofComplete(ProofComplete { new_payload_request_root, proof_type }),
            ),
            ProofEventKind::ProofFailure => Ok(ProofEvent::ProofFailure(fields)),
            ProofEventKind::WitnessTimeout => Ok(
                ProofEvent::WitnessTimeout(ProofEventInfo { new_payload_request_root, proof_type }),
            ),
            ProofEventKind::ProofTimeout => Ok(
                ProofEvent::ProofTimeout(ProofEventInfo { new_payload_request_root, proof_type }),
            ),
        }
    }

    /// The request that the event is about.
    pub open spec fn spec_root(self) -> Hash256 {
        match self {
            ProofEvent::ProofComplete(inner) => inner.new_payload_request_root,
            ProofEvent::ProofFailure(inner) => inner.new_payload_request_root,
            ProofEvent::WitnessTimeout(inner) => inner.new_payload_request_root,
            ProofEvent::ProofTimeout(inner) => inner.new_payload_request_root,
        }
    }

    /// The request that the event is about.
    pub fn new_payload_request_root(&self) -> (r: Hash256)
        ensures
            r == self.spec_root(),
    {
        match self {
            ProofEvent::ProofComplete(inner) => inner.new_payload_request_root,
            ProofEvent::ProofFailure(inner) => inner.new_payload_request_root,
            ProofEvent::WitnessTimeout(inner) => inner.new_payload_request_root,
            ProofEvent::ProofTimeout(inner) => inner.new_payload_request_root,
        }
    }

    /// The kind of proof that the event is about.
    pub fn proof_type(&self) -> (r: ProofType)
        ensures
            r == match *self {
                ProofEvent::ProofComplete(inner) => inner.proof_type,
                ProofEvent::ProofFailure(inner) => inner.proof_type,
                ProofEvent::WitnessTimeout(inner) => inner.proof_type,
                ProofEvent::ProofTimeout(inner) => inner.proof_type,
            },
    {
        match self {
            ProofEvent::ProofComplete(inner) => inner.proof_type,
            ProofEvent::ProofFailure(inner) => inner.proof_type,
            ProofEvent::WitnessTimeout(inner) => inner.proof_type,
            ProofEvent::ProofTimeout(inner) => inner.proof_type,
        }
    }

    /// Whether a subscriber to the events of one request, or of all of them, gets the event.
    pub fn passes(&self, filter_root: Option<Hash256>) -> (r: bool)
        ensures
            r == match filter_root {
                Some(root) => self.spec_root() == root,
                None => true,
            },
    {
        match filter_root {
            Some(root) => self.new_payload_request_root().equals(&root),
            None => true,
        }
    }
}

/// The four names of events, and no others, stand for the four kinds.
pub proof fn law_event_names(name: Seq<char>)
    ensures
        kind_named(name) == Some(ProofEventKind::ProofComplete) <==> name == "proof_complete"@,
        kind_named(name) == Some(ProofEventKind::ProofFailure) <==> name == "proof_failure"@,
        kind_named(name) == Some(ProofEventKind::WitnessTimeout) <==> name == "witness_timeout"@,
        kind_named(name) == Some(ProofEventKind::ProofTimeout) <==> name == "proof_timeout"@,
{
    reveal_strlit("proof_complete");
    reveal_strlit("proof_failure");
    reveal_strlit("witness_timeout");
    reveal_strlit("proof_timeout");
    assert("proof_complete"@.len() == 14 && "proof_failure"@.len() == 13 && "witness_timeout"@.len()
        == 15 && "proof_timeout"@.len() == 13);
    assert("proof_failure"@[6] == 'f' && "proof_timeout"@[6] == 't');
}

/// An event is of one kind, and says what its data said: the request, the kind of proof, and of a
/// failure also the error.
pub proof fn law_event_keeps_data(event: ProofEvent, kind: ProofEventKind, data: ProofFailure)
    requires
        event.of_kind(kind, data),
    ensures
        event.spec_root() == data.new_payload_request_root,
        match event {
            ProofEvent::ProofComplete(inner) => kind is ProofComplete
                && inner.new_payload_request_root == data.new_payload_request_root
                && inner.proof_type == data.proof_type,
            ProofEvent::ProofFailure(inner) => kind is ProofFailure && inner == data,
            ProofEvent::WitnessTimeout(inner) => kind is WitnessTimeout
                && inner.new_payload_request_root == data.new_payload_request_root
                && inner.proof_type == data.proof_type,
            ProofEvent::ProofTimeout(inner) => kind is ProofTimeout
                && inner.new_payload_request_root == data.new_payload_request_root
                && inner.proof_type == data.proof_type,
        },
{
}

} // verus!
