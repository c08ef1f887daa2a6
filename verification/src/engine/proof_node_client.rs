//! What is sent to a proof node over HTTP, and what its answers mean.

use crate::codec::to_vec;
use crate::engine::errors::{shown, ProofEngineError};
use crate::execution_proof::ProofStatus;
use crate::hash::Hash256;
use crate::text::prefixed_hex;
use vstd::prelude::*;
use vstd::string::*;

verus! {

/// How long an answer of the proof node is waited for, in milliseconds, unless said otherwise.
pub const PROOF_ENGINE_TIMEOUT: u64 = 1000;

/// The answer to a request for proofs.
#[derive(Debug, Clone, Copy)]
pub struct ProofRequestResponse {
    pub new_payload_request_root: Hash256,
}

/// What a proof node says about a proof.
#[derive(Debug, Clone, Copy, PartialEq, Eq, Structural)]
pub enum ProofVerificationStatus {
    Valid,
    Invalid,
}

/// The methods of requests.
#[derive(Debug, Clone, Copy, PartialEq, Eq, Structural)]
pub enum Method {
    Get,
    Post,
}

/// A request to the proof node.
#[derive(Debug)]
pub struct ProofNodeCall {
    pub method: Method,
    /// The path, which takes the place of that of the base address.
    pub path: String,
    /// The names and values of the query.
    pub query: Vec<(String, String)>,
    /// The body, sent as raw bytes.
    pub body: Option<Vec<u8>>,
    /// How long the answer is waited for, in milliseconds.
    pub timeout: Option<u64>,
}

/// What a query holds.
pub open spec fn query_views(query: Seq<(String, String)>) -> Seq<(Seq<char>, Seq<char>)> {
    query.map_values(|q: (String, String)| (q.0@, q.1@))
}

impl ProofNodeCall {
    /// Whether the request has this method, path, query, body and timeout.
    pub open spec fn says(
        self,
        method: Method,
        path: Seq<char>,
        query: Seq<(Seq<char>, Seq<char>)>,
        body: Option<Seq<u8>>,
        timeout: Option<u64>,
    ) -> bool {
        &&& self.method == method
        &&& self.path@ == path
        &&& query_views(self.query@) == query
        &&& self.timeout == timeout
        &&& match (self.body, body) {
            (Some(held), Some(wanted)) => held@ == wanted,
            (None, None) => true,
            _ => false,
        }
    }
}

/// The value of the header `content-type` of a request with a body.
pub fn body_content_type() -> (r: String)
    ensures
        r@ == "application/octet-stream"@,
{
    "application/octet-stream".to_owned()
}

/// Names with commas between them.
pub open spec fn comma_separated(names: Seq<Seq<char>>) -> Seq<char>
    decreases names.len(),
{
    if names.len() == 0 {
        Seq::empty()
    } else if names.len() == 1 {
        names[0]
    } else {
        comma_separated(names.drop_last()) + ","@ + names.last()
    }
}

/// The names that kinds of proofs were found to have.
pub open spec fn found_names(names: Seq<Result<String, ProofEngineError>>) -> Seq<Seq<char>> {
    names.map_values(|n: Result<String, ProofEngineError>| n->Ok_0@)
}

/// Whether `e` is the first error among names.
pub open spec fn is_first_error(
    names: Seq<Result<String, ProofEngineError>>,
    e: ProofEngineError,
) -> bool {
    exists|k: int|
        0 <= k < names.len() && #[trigger] names[k] == Err::<String, ProofEngineError>(e) && forall|
            j: int,
        | 0 <= j < k ==> (#[trigger] names[j]) is Ok
}

/// Whether all names were found.
pub open spec fn all_found(names: Seq<Result<String, ProofEngineError>>) -> bool {
    forall|j: int| 0 <= j < names.len() ==> (#[trigger] names[j]) is Ok
}

/// The names of kinds of proofs, with commas between them, or the first error among them.
pub fn proof_types_csv(names: Vec<Result<String, ProofEngineError>>) -> (r: Result<
    String,
    ProofEngineError,
>)
    ensures
        match r {
            Ok(text) => all_found(names@) && text@ == comma_separated(found_names(names@)),
            Err(e) => is_first_error(names@, e),
        },
{
    let ghost all = names@;
    let ghost texts = found_names(all);
    let mut rest = names;
    let mut text = String::new();
    let ghost mut k: int = 0;
    assert(texts.take(0) =~= Seq::<Seq<char>>::empty());
    let mut first: bool = true;
    while rest.len() > 0
        invariant
            all == names@,
            0 <= k <= all.len(),
            rest@ == all.skip(k),
            first == (k == 0),
            texts == found_names(all),
            text@ == comma_separated(texts.take(k)),
            forall|j: int| 0 <= j < k ==> (#[trigger] all[j]) is Ok,
        decreases rest@.len(),
    {
        let next = rest.remove(0);
        proof {
            assert(next == all[k]);
            assert(rest@ =~= all.skip(k + 1));
        }
        match next {
            Ok(name) => {
                if !first {
                    text.append(",");
                }
                text.append(name.as_str());
                proof {
                    assert(texts[k] == name@);
                    assert(texts.take(k + 1).drop_last() =~= texts.take(k));
                    assert(texts.take(k + 1).last() == name@);
                    if k == 0 {
                        assert(text@ =~= name@);
                    }
                    k = k + 1;
                }
                first = false;
            },
            Err(e) => {
                return Err(e);
            },
        }
    }
    assert(texts.take(k) =~= texts);
    Ok(text)
}

/// A client of a proof node.
#[derive(Debug, Clone, Copy)]
pub struct HttpProofNodeClient {
    /// How long an answer is waited for, in milliseconds.
    pub timeout: u64,
}

impl HttpProofNodeClient {
    /// A client that waits for the given time, or for the default one.
    pub fn new(timeout: Option<u64>) -> (r: Self)
        ensures
            r.timeout == match timeout {
                Some(timeout) => timeout,
                None => PROOF_ENGINE_TIMEOUT,
            },
    {
        match timeout {
            Some(timeout) => HttpProofNodeClient { timeout },
            None => HttpProofNodeClient { timeout: PROOF_ENGINE_TIMEOUT },
        }
    }

    /// The request for proofs of a payload. `names` are the names of the kinds of proofs that are
    /// wanted, or why a kind has none; the first kind without a name is refused.
    pub fn request_proofs(
        &self,
        ssz_body: Vec<u8>,
        names: Vec<Result<String, ProofEngineError>>,
    ) -> (r: Result<ProofNodeCall, ProofEngineError>)
        ensures
            match r {
                Ok(call) => all_found(names@) && call.says(
                    Method::Post,
                    "/v1/execution_proof_requests"@,
                    seq![("proof_types"@, comma_separated(found_names(names@)))],
                    Some(ssz_body@),
                    Some(self.timeout),
                ),
                Err(e) => is_first_error(names@, e),
            },
    {
        let text = match proof_types_csv(names) {
            Ok(text) => text,
            Err(e) => return Err(e),
        };
        let mut query: Vec<(String, String)> = Vec::new();
        query.push(("proof_types".to_owned(), text));
        assert(query_views(query@) =~= seq![
            ("proof_types"@, comma_separated(found_names(names@))),
        ]);
        Ok(
            ProofNodeCall {
                method: Method::Post,
                path: "/v1/execution_proof_requests".to_owned(),
                query,
                body: Some(ssz_body),
                timeout: Some(self.timeout),
            },
        )
    }

    /// The request to verify a proof. `name` is the name of its kind, or why it has none.
    pub fn verify_proof(
        &self,
        root: Hash256,
        name: Result<String, ProofEngineError>,
        proof_data: &[u8],
    ) -> (r: Result<ProofNodeCall, ProofEngineError>)
        ensures
            match name {
                Ok(name) => r matches Ok(call) && call.says(
                    Method::Post,
                    "/v1/execution_proof_verifications"@,
                    seq![
                        ("new_payload_request_root"@, shown(root)),
                        ("proof_type"@, name@),
                    ],
                    Some(proof_data@),
                    Some(self.timeout),
                ),
                Err(e) => r == Err::<ProofNodeCall, ProofEngineError>(e),
            },
    {
        let name = match name {
            Ok(name) => name,
            Err(e) => return Err(e),
        };
        let ghost text = name@;
        let mut query: Vec<(String, String)> = Vec::new();
        query.push(("new_payload_request_root".to_owned(), prefixed_hex(root.0.as_slice())));
        query.push(("proof_type".to_owned(), name));
        assert(query_views(query@) =~= seq![
            ("new_payload_request_root"@, shown(root)),
            ("proof_type"@, text),
        ]);
        Ok(
            ProofNodeCall {
                method: Method::Post,
                path: "/v1/execution_proof_verifications".to_owned(),
                query,
                body: Some(to_vec(proof_data)),
                timeout: Some(self.timeout),
            },
        )
    }

    /// The request for a proof. `name` is the name of its kind, or why it has none.
    pub fn get_proof(&self, root: Hash256, name: Result<String, ProofEngineError>) -> (r: Result<
        ProofNodeCall,
        ProofEngineError,
    >)
        ensures
            match name {
                Ok(name) => r matches Ok(call) && call.says(
                    Method::Get,
                    "/v1/execution_proofs"@ + "/"@ + shown(root) + "/"@ + name@,
                    Seq::empty(),
                    None,
                    Some(self.timeout),
                ),
                Err(e) => r == Err::<ProofNodeCall, ProofEngineError>(e),
            },
    {
        let name = match name {
            Ok(name) => name,
            Err(e) => return Err(e),
        };
        let mut path = "/v1/execution_proofs".to_owned();
        path.append("/");
        path.append(prefixed_hex(root.0.as_slice()).as_str());
        path.append("/");
        path.append(name.as_str());
        let query: Vec<(String, String)> = Vec::new();
        assert(query_views(query@) =~= Seq::<(Seq<char>, Seq<char>)>::empty());
        Ok(
            ProofNodeCall {
                method: Method::Get,
                path,
                query,
                body: None,
                timeout: Some(self.timeout),
            },
        )
    }

    /// The request for the events of one payload request, or of all of them. It is not limited in
    /// time.
    pub fn subscribe_proof_events(&self, filter_root: Option<Hash256>) -> (r: ProofNodeCall)
        ensures
            r.says(
                Method::Get,
                "/v1/execution_proof_requests"@,
                match filter_root {
                    Some(root) => seq![("new_payload_request_root"@, shown(root))],
                    None => Seq::empty(),
                },
                None,
                None,
            ),
    {
        let mut query: Vec<(String, String)> = Vec::new();
        match filter_root {
            Some(root) => {
                query.push(
                    ("new_payload_request_root".to_owned(), prefixed_hex(root.0.as_slice())),
                );
                assert(query_views(query@) =~= seq![("new_payload_request_root"@, shown(root))]);
            },
            None => {
                assert(query_views(query@) =~= Seq::<(Seq<char>, Seq<char>)>::empty());
            },
        }
        ProofNodeCall {
            method: Method::Get,
            path: "/v1/execution_proof_requests".to_owned(),
            query,
            body: None,
            timeout: None,
        }
    }
}

impl ProofVerificationStatus {
    /// The status that the answer means.
    pub fn status(&self) -> (r: ProofStatus)
        ensures
            r == match *self {
                ProofVerificationStatus::Valid => ProofStatus::Valid,
                ProofVerificationStatus::Invalid => ProofStatus::Invalid,
            },
    {
        match self {
            ProofVerificationStatus::Valid => ProofStatus::Valid,
            ProofVerificationStatus::Invalid => ProofStatus::Invalid,
        }
    }
}

/// A request to the proof node says one thing in each of its parts.
pub proof fn law_call_says_one_thing(
    call: ProofNodeCall,
    method: Method,
    path: Seq<char>,
    query: Seq<(Seq<char>, Seq<char>)>,
    body: Option<Seq<u8>>,
    timeout: Option<u64>,
)
    ensures
        call.says(method, path, query, body, timeout) <==> {
            &&& call.method == method
            &&& call.path@ == path
            &&& call.query@.len() == query.len()
            &&& forall|i: int|
                0 <= i < query.len() ==> (#[trigger] call.query@[i]).0@ == query[i].0
                    && call.query@[i].1@ == query[i].1
            &&& call.timeout == timeout
            &&& call.body is Some <==> body is Some
            &&& call.body is Some ==> call.body->0@ == body->0
        },
{
    let held = query_views(call.query@);
    if call.query@.len() == query.len() && (forall|i: int|
        0 <= i < query.len() ==> (#[trigger] call.query@[i]).0@ == query[i].0
            && call.query@[i].1@ == query[i].1) {
        assert forall|i: int| 0 <= i < query.len() implies held[i] == query[i] by {
            assert(call.query@[i].0@ == query[i].0);
        }
        assert(held =~= query);
    }
    if held == query {
        assert forall|i: int| 0 <= i < query.len() implies (#[trigger] call.query@[i]).0@
            == query[i].0 && call.query@[i].1@ == query[i].1 by {
            assert(held[i] == query[i]);
        }
    }
}

/// Names are all found, or there is one first error among them.
pub proof fn law_names_found_or_refused(
    names: Seq<Result<String, ProofEngineError>>,
    a: ProofEngineError,
    b: ProofEngineError,
    k: int,
)
    ensures
        all_found(names) <==> forall|j: int| 0 <= j < names.len() ==> (#[trigger] names[j]) is Ok,
        is_first_error(names, a) ==> !all_found(names),
        is_first_error(names, a) && is_first_error(names, b) ==> a == b,
        0 <= k < names.len() && names[k] is Err && (forall|j: int|
            0 <= j < k ==> (#[trigger] names[j]) is Ok) ==> is_first_error(names, names[k]->Err_0),
        found_names(names).len() == names.len(),
        0 <= k < names.len() && names[k] is Ok ==> found_names(names)[k] == names[k]->Ok_0@,
{
    if is_first_error(names, a) && is_first_error(names, b) {
        let i = choose|k: int|
            0 <= k < names.len() && #[trigger] names[k] == Err::<String, ProofEngineError>(a)
                && forall|j: int| 0 <= j < k ==> (#[trigger] names[j]) is Ok;
        let l = choose|k: int|
            0 <= k < names.len() && #[trigger] names[k] == Err::<String, ProofEngineError>(b)
                && forall|j: int| 0 <= j < k ==> (#[trigger] names[j]) is Ok;
        assert(i == l) by {
            if i < l {
                assert(names[i] is Ok);
            } else if l < i {
                assert(names[l] is Ok);
            }
        }
    }
    if 0 <= k < names.len() && names[k] is Err {
        assert(names[k] == Err::<String, ProofEngineError>(names[k]->Err_0));
    }
}

/// Names without commas can be told from the text that lists them: none is left out, and their order
/// is kept.
pub proof fn law_listed_names_told_apart(a: Seq<Seq<char>>, b: Seq<Seq<char>>)
    requires
        a.len() > 0,
        b.len() > 0,
        forall|i: int| 0 <= i < a.len() ==> !(#[trigger] a[i]).contains(','),
        forall|i: int| 0 <= i < b.len() ==> !(#[trigger] b[i]).contains(','),
        comma_separated(a) == comma_separated(b),
    ensures
        a == b,
    decreases a.len(),
{
    reveal_strlit(",");
    let text = comma_separated(a);
    let x = a.last();
    let y = b.last();
    assert(x == a[a.len() - 1] && y == b[b.len() - 1]);
    if a.len() == 1 && b.len() == 1 {
        assert(a =~= b);
    } else if a.len() == 1 {
        let k = comma_separated(b.drop_last()).len() as int;
        assert(text[k] == ',');
        assert(a[0][k] == ',');
    } else if b.len() == 1 {
        let k = comma_separated(a.drop_last()).len() as int;
        assert(text[k] == ',');
        assert(b[0][k] == ',');
    } else {
        let p = comma_separated(a.drop_last());
        let q = comma_separated(b.drop_last());
        let k = p.len() as int;
        let l = q.len() as int;
        assert(text == p + ","@ + x && text == q + ","@ + y);
        assert(text.len() == k + 1 + x.len() && text.len() == l + 1 + y.len());
        assert((p + ","@ + x)[k] == ',' && (q + ","@ + y)[l] == ',');
        if k < l {
            assert((p + ","@ + x)[l] == x[l - k - 1]);
            assert(x.contains(x[l - k - 1]));
        }
        if l < k {
            assert((q + ","@ + y)[k] == y[k - l - 1]);
            assert(y.contains(y[k - l - 1]));
        }
        assert(k == l);
        assert(p =~= text.take(k));
        assert(q =~= text.take(l));
        assert(x =~= text.skip(k + 1));
        assert(y =~= text.skip(l + 1));
        assert forall|i: int| 0 <= i < a.drop_last().len() implies !(
        #[trigger] a.drop_last()[i]).contains(',') by {
            assert(a.drop_last()[i] == a[i]);
        }
        assert forall|i: int| 0 <= i < b.drop_last().len() implies !(
        #[trigger] b.drop_last()[i]).contains(',') by {
            assert(b.drop_last()[i] == b[i]);
        }
        law_listed_names_told_apart(a.drop_last(), b.drop_last());
        assert(a =~= a.drop_last().push(x));
        assert(b =~= b.drop_last().push(y));
    }
}

} // verus!
