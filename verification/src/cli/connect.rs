//! How a connection is attempted, and when to fall back to plain TCP.

use vstd::prelude::*;
use vstd::string::*;

use crate::cli::args::TlsPolicy;
use crate::net::tls::TlsConfig;

verus! {

/// Cap on simultaneously-handled client connections. Each costs a socket, a
/// link payload of up to 4 KiB and a task.
pub const MAX_CONCURRENT_CONNS: usize = 64;

/// One attempt at a connection.
pub enum Attempt<'a> {
    Plain,
    Tls(&'a TlsConfig),
}

/// `text` in lower case, as `str::to_lowercase` gives it.
pub uninterp spec fn lowercase(text: Seq<char>) -> Seq<char>;

/// `str::to_lowercase`: every character by Unicode's lower-case mapping.
#[verifier::external_body]
fn to_lowercase(text: &str) -> (lower: String)
    ensures
        lower@ == lowercase(text@),
{
    text.to_lowercase()
}

/// `part` stands in `text` at position `i`.
pub open spec fn stands_at(text: Seq<char>, part: Seq<char>, i: int) -> bool {
    &&& 0 <= i
    &&& i + part.len() <= text.len()
    &&& text.subrange(i, i + part.len()) == part
}

/// `part` stands somewhere in `text`.
pub open spec fn stands_in(text: Seq<char>, part: Seq<char>) -> bool {
    exists|i: int| stands_at(text, part, i)
}

/// A message, in lower case, that tells of a peer which does not speak TLS.
pub open spec fn tells_of_plain_peer(lower: Seq<char>) -> bool {
    ||| stands_in(lower, "tls handshake"@)
    ||| stands_in(lower, "invalid sni"@)
    ||| stands_in(lower, "unexpected eof"@)
    ||| stands_in(lower, "connection reset"@)
    ||| stands_in(lower, "decrypt"@)
}

fn matches_at(text: &str, part: &str, i: usize) -> (b: bool)
    requires
        i + part@.len() <= text@.len() <= usize::MAX,
    ensures
        b == stands_at(text@, part@, i as int),
{
    let n: usize = part.unicode_len();
    let mut k: usize = 0;
    while k < n
        invariant
            k <= n == part@.len(),
            i + n <= text@.len() <= usize::MAX,
            forall|j: int| 0 <= j < k ==> text@[i + j] == part@[j],
        decreases n - k,
    {
        if text.get_char(i + k) != part.get_char(k) {
            assert(text@.subrange(i as int, i + n)[k as int] != part@[k as int]);
            return false;
        }
        k = k + 1;
    }
    assert(text@.subrange(i as int, i + n) =~= part@);
    true
}

/// `part` stands somewhere in `text`.
pub fn contains(text: &str, part: &str) -> (b: bool)
    ensures
        b == stands_in(text@, part@),
{
    let n: usize = text.unicode_len();
    let m: usize = part.unicode_len();
    if m > n {
        return false;
    }
    let mut i: usize = 0;
    while i <= n - m
        invariant
            m == part@.len(),
            n == text@.len(),
            m <= n,
            i <= n - m + 1,
            forall|j: int| 0 <= j < i ==> !stands_at(text@, part@, j),
        decreases n - m + 1 - i,
    {
        if matches_at(text, part, i) {
            return true;
        }
        if i == n - m {
            return false;
        }
        i = i + 1;
    }
    false
}

/// A message, in lower case, that tells of a peer which does not speak TLS.
pub fn names_plain_peer(lower: &str) -> (b: bool)
    ensures
        b == tells_of_plain_peer(lower@),
{
    contains(lower, "tls handshake") || contains(lower, "invalid sni") || contains(
        lower,
        "unexpected eof",
    ) || contains(lower, "connection reset") || contains(lower, "decrypt")
}

/// Heuristic: distinguish "server doesn't speak TLS" from an authentication or
/// protocol error after a successful TLS handshake. Only a connection error can
/// be the former; its message decides.
pub fn looks_like_tls_handshake_failure(is_net: bool, message: &str) -> (b: bool)
    ensures
        b == (is_net && tells_of_plain_peer(lowercase(message@))),
{
    is_net && names_plain_peer(to_lowercase(message).as_str())
}

/// The first attempt under a policy. For `Auto` it is TLS.
pub fn first_attempt(policy: &TlsPolicy) -> (a: Attempt<'_>)
    ensures
        a == (match policy {
            TlsPolicy::Plain => Attempt::Plain,
            TlsPolicy::Tls(cfg) => Attempt::Tls(cfg),
            TlsPolicy::Auto(cfg) => Attempt::Tls(cfg),
        }),
{
    match policy {
        TlsPolicy::Plain => Attempt::Plain,
        TlsPolicy::Tls(cfg) => Attempt::Tls(cfg),
        TlsPolicy::Auto(cfg) => Attempt::Tls(cfg),
    }
}

/// The attempt after a first one that failed: only for `Auto`, where the server
/// seems not to speak TLS, and then in plain TCP.
pub fn retry<'a>(policy: &'a TlsPolicy, is_net: bool, message: &str) -> (a: Option<Attempt<'a>>)
    ensures
        a == (if policy is Auto && is_net && tells_of_plain_peer(lowercase(message@)) {
            Some(Attempt::Plain)
        } else {
            None
        }),
{
    match policy {
        TlsPolicy::Auto(_) => if looks_like_tls_handshake_failure(is_net, message) {
            Some(Attempt::Plain)
        } else {
            None
        },
        _ => None,
    }
}

} // verus!
