//! The addresses of mock proof engines.

use crate::text::{append_decimal, decimal, is_digit, lemma_decimal, parse_usize, parsed};
use vstd::prelude::*;
use vstd::string::*;

verus! {

/// What the address of every mock proof engine begins with.
pub open spec fn mock_prefix() -> Seq<char> {
    "http://mock/"@
}

/// The address of the mock proof engine with this index.
pub open spec fn mock_address(index: nat) -> Seq<char> {
    mock_prefix() + decimal(index) + "/"@
}

/// The index in an address of a mock proof engine: the number after the prefix, up to a slash at
/// the end, or zero where there is none. Other addresses have no index.
pub open spec fn mock_index(url: Seq<char>) -> Option<nat> {
    let n = mock_prefix().len() as int;
    if url.len() >= n && url.take(n) == mock_prefix() {
        let rest = url.skip(n);
        let name = if rest.len() > 0 && rest.last() == '/' {
            rest.drop_last()
        } else {
            rest
        };
        match parsed(name) {
            Some(index) => Some(index),
            None => Some(0),
        }
    } else {
        None
    }
}

/// The address of the mock proof engine with this index: `http://mock/{index}/`.
pub fn mock_proof_engine_url(index: usize) -> (r: String)
    ensures
        r@ == mock_address(index as nat),
{
    let mut r = "http://mock/".to_owned();
    append_decimal(&mut r, index as u64);
    r.append("/");
    r
}

/// The index in an address of a mock proof engine. Other addresses have none.
pub fn parse_mock_index(url: &str) -> (r: Option<usize>)
    ensures
        match r {
            Some(index) => mock_index(url@) == Some(index as nat),
            None => mock_index(url@) is None,
        },
{
    let prefix = "http://mock/";
    let n: usize = prefix.unicode_len();
    let len: usize = url.unicode_len();
    if len < n {
        return None;
    }
    let mut i: usize = 0;
    while i < n
        invariant
            i <= n <= len,
            n == prefix@.len(),
            len == url@.len(),
            prefix@ == mock_prefix(),
            forall|j: int| 0 <= j < i ==> url@[j] == prefix@[j],
        decreases n - i,
    {
        if url.get_char(i) != prefix.get_char(i) {
            assert(url@.take(n as int)[i as int] != mock_prefix()[i as int]);
            return None;
        }
        i = i + 1;
    }
    assert(url@.take(n as int) =~= mock_prefix());
    let ghost rest = url@.skip(n as int);
    let mut end: usize = len;
    if end > n && url.get_char(end - 1) == '/' {
        assert(rest.last() == url@[len - 1]);
        end = end - 1;
        assert(url@.subrange(n as int, end as int) =~= rest.drop_last());
    } else {
        if end > n {
            assert(rest.last() == url@[len - 1]);
        }
        assert(url@.subrange(n as int, end as int) =~= rest);
    }
    match parse_usize(url, n, end) {
        Some(index) => Some(index),
        None => Some(0),
    }
}

/// The index is read back from the address that it makes.
pub proof fn law_mock_url_round_trip(index: nat)
    requires
        index <= usize::MAX,
    ensures
        mock_index(mock_address(index)) == Some(index),
{
    let url = mock_address(index);
    let n = mock_prefix().len() as int;
    lemma_decimal(index);
    reveal_strlit("/");
    assert(url.take(n) =~= mock_prefix());
    let rest = url.skip(n);
    assert(rest =~= decimal(index) + "/"@);
    assert(rest.last() == '/');
    assert(rest.drop_last() =~= decimal(index));
    assert(is_digit(decimal(index)[0]));
}

/// Exactly the addresses that begin with `http://mock/` have an index.
pub proof fn law_only_mock_addresses(url: Seq<char>, rest: Seq<char>, index: nat)
    ensures
        mock_index("http://mock/"@ + rest) is Some,
        (forall|end: Seq<char>| url != "http://mock/"@ + #[trigger] end.take(end.len() as int))
            ==> mock_index(url) is None,
        mock_address(index) == "http://mock/"@ + decimal(index) + "/"@,
{
    let prefix = "http://mock/"@;
    let n = prefix.len() as int;
    assert((prefix + rest).take(n) =~= prefix);
    if url.len() >= n && url.take(n) == prefix {
        let end = url.skip(n);
        assert(end.take(end.len() as int) =~= end);
        assert(url =~= prefix + end);
    }
}

} // verus!
