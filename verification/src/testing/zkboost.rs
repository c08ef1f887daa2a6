//! What the harness around a real proving server needs: the answers of a mock execution layer, the
//! settings of the server, and its address.

use crate::engine::events::same_text;
use vstd::prelude::*;
use vstd::string::*;

verus! {

/// What the mock execution layer answers with.
#[derive(Debug, Clone, Copy, PartialEq, Eq, Structural)]
pub enum MockElResult {
    /// The settings of the chain.
    ChainConfig,
    /// The witness of an execution.
    Witness,
    /// Nothing.
    Null,
}

/// What the mock execution layer answers a call of a method with. A call without a method is a
/// call of the method with the empty name.
pub fn mock_el_result(method: Option<&str>) -> (r: MockElResult)
    ensures
        r == match method {
            Some(method) => if method@ == "debug_chainConfig"@ {
                MockElResult::ChainConfig
            } else if method@ == "debug_executionWitnessByBlockHash"@ {
                MockElResult::Witness
            } else {
                MockElResult::Null
            },
            None => MockElResult::Null,
        },
{
    match method {
        Some(method) => {
            if same_text(method, "debug_chainConfig") {
                MockElResult::ChainConfig
            } else if same_text(method, "debug_executionWitnessByBlockHash") {
                MockElResult::Witness
            } else {
                MockElResult::Null
            }
        },
        None => MockElResult::Null,
    }
}

/// What reading the body of a request as JSON comes to: the text that an object has under a field,
/// if the body is JSON and there is one.
pub uninterp spec fn json_text(body: Seq<u8>, field: Seq<char>) -> Option<Seq<char>>;

/// The view of a text that may be absent.
pub open spec fn text_view(text: Option<String>) -> Option<Seq<char>> {
    match text {
        Some(text) => Some(text@),
        None => None,
    }
}

/// `serde_json::from_slice` into a `serde_json::Value`, from which the text under a field is taken.
/// The result depends on the bytes and the field alone. Which bytes are JSON is not stated.
#[verifier::external_body]
fn read_json_text(body: &[u8], field: &str) -> (r: Option<String>)
    ensures
        text_view(r) == json_text(body@, field@),
{
    match serde_json::from_slice::<serde_json::Value>(body) {
        Ok(value) => value[field].as_str().map(|text| text.to_owned()),
        Err(_) => None,
    }
}

/// What the mock execution layer answers a request with, by the method that its body names. A body
/// that is no JSON, or names no method, is answered with nothing.
pub fn mock_el_answer(body: &[u8]) -> (r: MockElResult)
    ensures
        r == match json_text(body@, "method"@) {
            Some(method) => if method == "debug_chainConfig"@ {
                MockElResult::ChainConfig
            } else if method == "debug_executionWitnessByBlockHash"@ {
                MockElResult::Witness
            } else {
                MockElResult::Null
            },
            None => MockElResult::Null,
        },
{
    match read_json_text(body, "method") {
        Some(method) => mock_el_result(Some(method.as_str())),
        None => mock_el_result(None),
    }
}

/// The settings of a mock prover.
#[derive(Debug, Clone, Copy)]
pub struct MockProverConfig {
    pub mock_proving_time_ms: u64,
    pub mock_proof_size: u64,
    pub mock_failure: bool,
}

/// The settings of the server.
#[derive(Debug, Clone, Copy)]
pub struct ServerConfig {
    /// Zero leaves the choice of the port to the machine.
    pub port: u16,
    pub witness_timeout_secs: u64,
    pub proof_timeout_secs: u64,
    pub proof_cache_size: u64,
    pub witness_cache_size: u64,
}

impl MockProverConfig {
    /// A prover that takes the given time and never fails.
    pub fn new(mock_proving_time_ms: u64) -> (r: Self)
        ensures
            r == (MockProverConfig {
                mock_proving_time_ms,
                mock_proof_size: 1024,
                mock_failure: false,
            }),
    {
        MockProverConfig { mock_proving_time_ms, mock_proof_size: 1024, mock_failure: false }
    }
}

impl Default for ServerConfig {
    fn default() -> (r: Self)
        ensures
            r == (ServerConfig {
                port: 0,
                witness_timeout_secs: 120,
                proof_timeout_secs: 120,
                proof_cache_size: 128,
                witness_cache_size: 128,
            }),
    {
        ServerConfig {
            port: 0,
            witness_timeout_secs: 120,
            proof_timeout_secs: 120,
            proof_cache_size: 128,
            witness_cache_size: 128,
        }
    }
}

/// A text without the slashes at its end.
pub open spec fn without_slashes(text: Seq<char>) -> Seq<char>
    decreases text.len(),
{
    if text.len() > 0 && text.last() == '/' {
        without_slashes(text.drop_last())
    } else {
        text
    }
}

/// An address without the slashes at its end.
pub fn trimmed_url(endpoint: &str) -> (r: String)
    ensures
        r@ == without_slashes(endpoint@),
{
    let n: usize = endpoint.unicode_len();
    let mut end: usize = n;
    assert(endpoint@.take(n as int) =~= endpoint@);
    while end > 0 && endpoint.get_char(end - 1) == '/'
        invariant
            end <= n,
            n == endpoint@.len(),
            without_slashes(endpoint@.take(end as int)) == without_slashes(endpoint@),
        decreases end,
    {
        proof {
            assert(endpoint@.take(end as int).drop_last() =~= endpoint@.take(end - 1));
        }
        end = end - 1;
    }
    assert(endpoint@.subrange(0, end as int) =~= endpoint@.take(end as int));
    endpoint.substring_char(0, end).to_owned()
}

/// An address without the slashes at its end is what comes before them: it ends with no slash, and
/// slashes alone were taken away.
pub proof fn law_slashes_trimmed(text: Seq<char>)
    ensures
        ({
            let rest = without_slashes(text);
            &&& rest.len() <= text.len()
            &&& rest == text.take(rest.len() as int)
            &&& rest.len() > 0 ==> rest[rest.len() - 1] != '/'
            &&& forall|i: int| rest.len() <= i < text.len() ==> #[trigger] text[i] == '/'
        }),
    decreases text.len(),
{
    if text.len() > 0 && text.last() == '/' {
        let before = text.drop_last();
        law_slashes_trimmed(before);
        let rest = without_slashes(text);
        assert(before.take(rest.len() as int) =~= text.take(rest.len() as int));
        assert forall|i: int| rest.len() <= i < text.len() implies #[trigger] text[i] == '/' by {
            if i < before.len() {
                assert(before[i] == text[i]);
            }
        }
    } else {
        assert(text.take(text.len() as int) =~= text);
    }
}

} // verus!
