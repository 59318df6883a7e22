//! TLS support for SPICE link channels: how the server certificate is judged.
//!
//! SPICE TLS is TLS from byte 0, with the link handshake running inside the
//! tunnel. The libvirt-managed CA used by most QEMU deployments is
//! self-signed, so users typically pin via a CA bundle to verify against or
//! via a SHA256 fingerprint of the leaf certificate DER, the same shape
//! virt-viewer uses.

use sha2::Digest;
use vstd::prelude::*;
use vstd::string::*;

use crate::net::error::{NetError, Result};

verus! {

/// How the client should verify the server certificate.
#[derive(Debug, Clone)]
pub enum TlsConfig {
    /// Verify against the OS's system root store. Right for SPICE servers
    /// behind a real CA; rare in practice, as most deployments use the
    /// self-signed libvirt CA.
    SystemRoots,
    /// Verify against a CA bundle PEM file. The standard virt-viewer-style
    /// invocation.
    CaFile(String),
    /// Pin a specific SHA256 fingerprint of the server's leaf certificate DER.
    Fingerprint([u8; 32]),
    /// Skip cert verification entirely. **Plaintext-equivalent.** Useful for
    /// early bring-up against a brand-new VM whose cert is not at hand yet.
    Insecure,
}

/// What a [`TlsConfig`] trusts.
pub enum Trust {
    SystemRoots,
    CaFile(Seq<char>),
    Fingerprint(Seq<u8>),
    Insecure,
}

impl View for TlsConfig {
    type V = Trust;

    open spec fn view(&self) -> Trust {
        match self {
            TlsConfig::SystemRoots => Trust::SystemRoots,
            TlsConfig::CaFile(path) => Trust::CaFile(path@),
            TlsConfig::Fingerprint(f) => Trust::Fingerprint(f@),
            TlsConfig::Insecure => Trust::Insecure,
        }
    }
}

/// The SHA-256 digest of `data`, as `sha2::Sha256` computes it.
pub uninterp spec fn sha256(data: Seq<u8>) -> Seq<u8>;

/// `sha2::Sha256`, fed with all of `data` at once. A digest has 32 bytes.
#[verifier::external_body]
fn sha256_of(data: &[u8]) -> (d: [u8; 32])
    ensures
        d@ == sha256(data@),
{
    sha2::Sha256::digest(data).into()
}

/// The certificates, in DER, of the CA bundle in a PEM text, in their order, as
/// `rustls_pemfile::certs` reads them; sections of other kinds are left out.
/// `None` where one section cannot be read.
pub uninterp spec fn pem_certs_of(pem: Seq<u8>) -> Option<Seq<Seq<u8>>>;

/// The bytes of each of a list of certificates.
pub open spec fn ders(certs: Seq<Vec<u8>>) -> Seq<Seq<u8>> {
    Seq::new(certs.len(), |i: int| certs[i]@)
}

/// `rustls_pemfile::certs`, up to the first section that cannot be read, whose
/// message is the error.
#[verifier::external_body]
fn pem_certs(pem: &[u8]) -> (r: std::result::Result<Vec<Vec<u8>>, String>)
    ensures
        match pem_certs_of(pem@) {
            Some(c) => r matches Ok(v) && ders(v@) == c,
            None => r is Err,
        },
{
    let mut text = pem;
    rustls_pemfile::certs(&mut text)
        .map(|cert| cert.map(|der| der.to_vec()))
        .collect::<std::io::Result<Vec<Vec<u8>>>>()
        .map_err(|e| e.to_string())
}

/// Why a CA bundle is of no use.
#[derive(Debug, Clone, PartialEq, Eq)]
pub enum CaError {
    /// A section of the PEM text cannot be read, with the parser's message.
    Parse(String),
    /// There is no certificate to verify against.
    NoCertificates,
}

/// The certificates of a CA bundle, from what the PEM parser gave. A bundle
/// without any is an error.
pub fn ca_bundle(parsed: std::result::Result<Vec<Vec<u8>>, String>) -> (r: std::result::Result<
    Vec<Vec<u8>>,
    CaError,
>)
    ensures
        r == (match parsed {
            Ok(certs) => if certs@.len() == 0 {
                Err(CaError::NoCertificates)
            } else {
                Ok(certs)
            },
            Err(m) => Err(CaError::Parse(m)),
        }),
{
    match parsed {
        Ok(certs) => if certs.len() == 0 {
            Err(CaError::NoCertificates)
        } else {
            Ok(certs)
        },
        Err(m) => Err(CaError::Parse(m)),
    }
}

/// The certificates, in DER, of the CA bundle in a PEM text.
pub fn ca_certs(pem: &[u8]) -> (r: std::result::Result<Vec<Vec<u8>>, CaError>)
    ensures
        match pem_certs_of(pem@) {
            None => r matches Err(CaError::Parse(_)),
            Some(c) => if c.len() == 0 {
                r == Err::<Vec<Vec<u8>>, CaError>(CaError::NoCertificates)
            } else {
                r matches Ok(v) && ders(v@) == c
            },
        },
{
    ca_bundle(pem_certs(pem))
}

/// Judge a set of root certificates by which of them the store accepted: one
/// is enough, and none is an error.
pub fn check_roots(accepted: &[bool]) -> (r: std::result::Result<(), CaError>)
    ensures
        match r {
            Ok(_) => accepted@.contains(true),
            Err(e) => !accepted@.contains(true) && e == CaError::NoCertificates,
        },
{
    let mut i: usize = 0;
    while i < accepted.len()
        invariant
            i <= accepted@.len(),
            forall|k: int| 0 <= k < i ==> !accepted@[k],
        decreases accepted@.len() - i,
    {
        if accepted[i] {
            assert(accepted@[i as int]);
            return Ok(());
        }
        i = i + 1;
    }
    Err(CaError::NoCertificates)
}

/// The two presented fingerprints differ.
#[derive(Debug, Clone, PartialEq, Eq)]
pub struct FingerprintMismatch {
    /// In hex.
    pub expected: String,
    /// In hex.
    pub actual: String,
}

/// The lower-case hex digit of a value below sixteen.
pub open spec fn hex_digit(d: u8) -> char {
    match d {
        0 => '0',
        1 => '1',
        2 => '2',
        3 => '3',
        4 => '4',
        5 => '5',
        6 => '6',
        7 => '7',
        8 => '8',
        9 => '9',
        10 => 'a',
        11 => 'b',
        12 => 'c',
        13 => 'd',
        14 => 'e',
        _ => 'f',
    }
}

/// Bytes in lower-case hex, two digits for each.
pub open spec fn hex_of(bytes: Seq<u8>) -> Seq<char>
    decreases bytes.len(),
{
    if bytes.len() == 0 {
        Seq::empty()
    } else {
        hex_of(bytes.drop_last()) + seq![
            hex_digit(bytes.last() / 16),
            hex_digit(bytes.last() % 16),
        ]
    }
}

fn digit_str(d: u8) -> (s: &'static str)
    requires
        d < 16,
    ensures
        s@ == seq![hex_digit(d)],
{
    proof {
        reveal_strlit("0");
        reveal_strlit("1");
        reveal_strlit("2");
        reveal_strlit("3");
        reveal_strlit("4");
        reveal_strlit("5");
        reveal_strlit("6");
        reveal_strlit("7");
        reveal_strlit("8");
        reveal_strlit("9");
        reveal_strlit("a");
        reveal_strlit("b");
        reveal_strlit("c");
        reveal_strlit("d");
        reveal_strlit("e");
        reveal_strlit("f");
    }
    let s = match d {
        0 => "0",
        1 => "1",
        2 => "2",
        3 => "3",
        4 => "4",
        5 => "5",
        6 => "6",
        7 => "7",
        8 => "8",
        9 => "9",
        10 => "a",
        11 => "b",
        12 => "c",
        13 => "d",
        14 => "e",
        _ => "f",
    };
    assert(s@ =~= seq![hex_digit(d)]);
    s
}

/// Bytes in lower-case hex.
pub fn hex(bytes: &[u8]) -> (s: String)
    ensures
        s@ == hex_of(bytes@),
{
    let mut s = String::new();
    let mut i: usize = 0;
    assert(s@ =~= hex_of(bytes@.take(0)));
    while i < bytes.len()
        invariant
            i <= bytes@.len(),
            s@ == hex_of(bytes@.take(i as int)),
        decreases bytes@.len() - i,
    {
        s.append(digit_str(bytes[i] / 16));
        s.append(digit_str(bytes[i] % 16));
        proof {
            let now = bytes@.take(i + 1);
            assert(now.drop_last() =~= bytes@.take(i as int));
            assert(s@ =~= hex_of(now));
        }
        i = i + 1;
    }
    assert(bytes@.take(i as int) =~= bytes@);
    s
}

/// Compare a presented digest with the pinned one.
pub fn compare_fingerprint(expected: &[u8; 32], actual: &[u8; 32]) -> (r: std::result::Result<
    (),
    FingerprintMismatch,
>)
    ensures
        match r {
            Ok(_) => expected@ == actual@,
            Err(m) => expected@ != actual@ && m.expected@ == hex_of(expected@) && m.actual@
                == hex_of(actual@),
        },
{
    let mut i: usize = 0;
    while i < 32
        invariant
            i <= 32,
            expected@.len() == 32,
            actual@.len() == 32,
            forall|k: int| 0 <= k < i ==> expected@[k] == actual@[k],
        decreases 32 - i,
    {
        if expected[i] != actual[i] {
            return Err(
                FingerprintMismatch {
                    expected: hex(vstd::array::array_as_slice(expected)),
                    actual: hex(vstd::array::array_as_slice(actual)),
                },
            );
        }
        i = i + 1;
    }
    assert(expected@ =~= actual@);
    Ok(())
}

/// Judge a leaf certificate (DER) against the pinned fingerprint.
pub fn verify_fingerprint(expected: &[u8; 32], certificate: &[u8]) -> (r: std::result::Result<
    (),
    FingerprintMismatch,
>)
    ensures
        match r {
            Ok(_) => expected@ == sha256(certificate@),
            Err(m) => expected@ != sha256(certificate@) && m.expected@ == hex_of(expected@)
                && m.actual@ == hex_of(sha256(certificate@)),
        },
{
    let actual = sha256_of(certificate);
    compare_fingerprint(expected, &actual)
}

/// The position after the last `c`, or 0 where there is none.
pub open spec fn after_last(s: Seq<char>, c: char) -> nat
    decreases s.len(),
{
    if s.len() == 0 {
        0
    } else if s.last() == c {
        s.len()
    } else {
        after_last(s.drop_last(), c)
    }
}

/// A square bracket, as around an IPv6 address.
pub open spec fn is_bracket(c: char) -> bool {
    c == '[' || c == ']'
}

/// Without the brackets at its start.
pub open spec fn trim_start(s: Seq<char>) -> Seq<char>
    decreases s.len(),
{
    if s.len() > 0 && is_bracket(s[0]) {
        trim_start(s.drop_first())
    } else {
        s
    }
}

/// Without the brackets at its end.
pub open spec fn trim_end(s: Seq<char>) -> Seq<char>
    decreases s.len(),
{
    if s.len() > 0 && is_bracket(s.last()) {
        trim_end(s.drop_last())
    } else {
        s
    }
}

/// The host of `host:port`, without brackets; all of an address without a
/// colon.
pub open spec fn host_of(addr: Seq<char>) -> Seq<char> {
    let k = after_last(addr, ':');
    if k == 0 {
        addr
    } else {
        trim_end(trim_start(addr.take(k - 1)))
    }
}

/// The server name to present. Where the certificate is pinned or unchecked
/// the name does not matter, so a placeholder that is always a valid DNS label
/// serves. Else it is the actual host, which the certificate has to name.
pub fn sni_for(addr: &str, tls: &TlsConfig) -> (name: String)
    ensures
        name@ == (match tls {
            TlsConfig::Fingerprint(_) => "spice"@,
            TlsConfig::Insecure => "spice"@,
            _ => host_of(addr@),
        }),
{
    match tls {
        TlsConfig::Fingerprint(_) => String::from_str("spice"),
        TlsConfig::Insecure => String::from_str("spice"),
        _ => host(addr),
    }
}

/// The host of `host:port`.
fn host(addr: &str) -> (h: String)
    ensures
        h@ == host_of(addr@),
{
    let n: usize = addr.unicode_len();
    let mut k: usize = n;
    assert(addr@.take(n as int) =~= addr@);
    while k > 0 && addr.get_char(k - 1) != ':'
        invariant
            k <= n == addr@.len(),
            after_last(addr@.take(k as int), ':') == after_last(addr@, ':'),
        ensures
            k <= n,
            k == after_last(addr@, ':'),
        decreases k,
    {
        assert(addr@.take(k as int).drop_last() =~= addr@.take(k - 1));
        k = k - 1;
    }
    if k == 0 {
        return String::from_str(addr);
    }
    let mut from: usize = 0;
    let mut to: usize = k - 1;
    let ghost all = addr@.take(k - 1);
    assert(addr@.subrange(0, to as int) =~= all);
    while from < to && (addr.get_char(from) == '[' || addr.get_char(from) == ']')
        invariant
            from <= to < addr@.len(),
            to == k - 1,
            trim_start(addr@.subrange(from as int, to as int)) == trim_start(all),
        ensures
            from <= to,
            addr@.subrange(from as int, to as int) == trim_start(all),
        decreases to - from,
    {
        let ghost s = addr@.subrange(from as int, to as int);
        assert(s.drop_first() =~= addr@.subrange(from + 1, to as int));
        from = from + 1;
    }
    let ghost start = trim_start(all);
    while from < to && (addr.get_char(to - 1) == '[' || addr.get_char(to - 1) == ']')
        invariant
            from <= to < addr@.len(),
            trim_end(addr@.subrange(from as int, to as int)) == trim_end(start),
        ensures
            from <= to,
            addr@.subrange(from as int, to as int) == trim_end(start),
        decreases to - from,
    {
        let ghost s = addr@.subrange(from as int, to as int);
        assert(s.drop_last() =~= addr@.subrange(from as int, to - 1));
        to = to - 1;
    }
    String::from_str(addr.substring_char(from, to))
}

/// Separators that a fingerprint may be written with.
pub open spec fn is_separator(b: u8) -> bool {
    b == 0x3a || b == 0x20 || b == 0x2d
}

/// What is left without the separators.
pub open spec fn cleaned(s: Seq<u8>) -> Seq<u8>
    decreases s.len(),
{
    if s.len() == 0 {
        Seq::empty()
    } else if is_separator(s.last()) {
        cleaned(s.drop_last())
    } else {
        cleaned(s.drop_last()).push(s.last())
    }
}

/// The value of an ASCII hex digit of either case.
pub open spec fn nibble(b: u8) -> Option<u8> {
    if 0x30 <= b <= 0x39 {
        Some((b - 0x30) as u8)
    } else if 0x61 <= b <= 0x66 {
        Some((b - 0x61 + 10) as u8)
    } else if 0x41 <= b <= 0x46 {
        Some((b - 0x41 + 10) as u8)
    } else {
        None
    }
}

/// The byte that two hex digits spell.
pub open spec fn hex_pair(a: u8, b: u8) -> Option<u8> {
    match (nibble(a), nibble(b)) {
        (Some(h), Some(l)) => Some((16 * h + l) as u8),
        _ => None,
    }
}

/// All of the first `n` pairs spell a byte.
pub open spec fn pairs_are_hex(c: Seq<u8>, n: int) -> bool {
    forall|i: int| 0 <= i < n ==> #[trigger] hex_pair(c[2 * i], c[2 * i + 1]) is Some
}

/// The fingerprint that a text spells, or what is wrong with it.
pub open spec fn fingerprint_of(s: Seq<u8>) -> Result<Seq<u8>> {
    let c = cleaned(s);
    if c.len() != 64 {
        Err(NetError::FingerprintLength { len: c.len() as usize })
    } else if pairs_are_hex(c, 32) {
        Ok(Seq::new(32, |i: int| hex_pair(c[2 * i], c[2 * i + 1])->0))
    } else {
        Err(NetError::FingerprintHex)
    }
}

fn nibble_of(b: u8) -> (r: Option<u8>)
    ensures
        r == nibble(b),
        r matches Some(v) ==> v < 16,
{
    if 0x30 <= b && b <= 0x39 {
        Some(b - 0x30)
    } else if 0x61 <= b && b <= 0x66 {
        Some(b - 0x61 + 10)
    } else if 0x41 <= b && b <= 0x46 {
        Some(b - 0x41 + 10)
    } else {
        None
    }
}

fn pair_of(a: u8, b: u8) -> (r: Option<u8>)
    ensures
        r == hex_pair(a, b),
{
    match nibble_of(b) {
        None => None,
        Some(l) => match nibble_of(a) {
            Some(h) => Some(16 * h + l),
            None => None,
        },
    }
}

/// Parse a SHA256 fingerprint from `aa:bb:cc:..` or unseparated hex.
pub fn parse_fingerprint(s: &str) -> (r: Result<[u8; 32]>)
    ensures
        match fingerprint_of(s.spec_bytes()) {
            Ok(out) => r matches Ok(f) && f@ == out,
            Err(e) => r == Err::<[u8; 32], NetError>(e),
        },
{
    let bytes = s.as_bytes();
    let mut c: Vec<u8> = Vec::new();
    let mut i: usize = 0;
    assert(c@ =~= cleaned(bytes@.take(0)));
    while i < bytes.len()
        invariant
            i <= bytes@.len(),
            c@ == cleaned(bytes@.take(i as int)),
        decreases bytes@.len() - i,
    {
        let b: u8 = bytes[i];
        assert(bytes@.take(i + 1).drop_last() =~= bytes@.take(i as int));
        if b != 0x3a && b != 0x20 && b != 0x2d {
            c.push(b);
        }
        i = i + 1;
    }
    assert(bytes@.take(i as int) =~= bytes@);
    if c.len() != 64 {
        return Err(NetError::FingerprintLength { len: c.len() });
    }
    let mut out: [u8; 32] = [0u8; 32];
    let mut k: usize = 0;
    while k < 32
        invariant
            k <= 32,
            c@.len() == 64,
            c@ == cleaned(s.spec_bytes()),
            out@.len() == 32,
            pairs_are_hex(c@, k as int),
            forall|i: int|
                0 <= i < k ==> #[trigger] out@[i] == hex_pair(c@[2 * i], c@[2 * i + 1])->0,
        decreases 32 - k,
    {
        match pair_of(c[2 * k], c[2 * k + 1]) {
            Some(b) => {
                out[k] = b;
            },
            None => {
                assert(hex_pair(c@[2 * (k as int)], c@[2 * (k as int) + 1]) is None);
                return Err(NetError::FingerprintHex);
            },
        }
        k = k + 1;
    }
    assert(out@ =~= fingerprint_of(s.spec_bytes())->Ok_0);
    Ok(out)
}

/// A lower-case hex digit.
spec fn is_hex_char(c: char) -> bool {
    '0' <= c <= '9' || 'a' <= c <= 'f'
}

proof fn lemma_hex_of(f: Seq<u8>)
    ensures
        hex_of(f).len() == 2 * f.len(),
        forall|i: int|
            0 <= i < f.len() ==> #[trigger] hex_of(f)[2 * i] == hex_digit(f[i] / 16) && hex_of(f)[2
                * i + 1] == hex_digit(f[i] % 16),
        forall|k: int| 0 <= k < hex_of(f).len() ==> is_hex_char(#[trigger] hex_of(f)[k]),
    decreases f.len(),
{
    if f.len() > 0 {
        let g = f.drop_last();
        lemma_hex_of(g);
        let n = g.len() as int;
        let tail = seq![hex_digit(f.last() / 16), hex_digit(f.last() % 16)];
        assert(hex_of(f) == hex_of(g) + tail);
        assert forall|i: int| 0 <= i < f.len() implies #[trigger] hex_of(f)[2 * i] == hex_digit(
            f[i] / 16,
        ) && hex_of(f)[2 * i + 1] == hex_digit(f[i] % 16) by {
            if i < n {
                assert(hex_of(f)[2 * i] == hex_of(g)[2 * i]);
                assert(g[i] == f[i]);
            } else {
                assert(hex_of(f)[2 * i] == tail[0]);
                assert(hex_of(f)[2 * i + 1] == tail[1]);
            }
        }
        assert forall|k: int| 0 <= k < hex_of(f).len() implies is_hex_char(
            #[trigger] hex_of(f)[k],
        ) by {
            if k < 2 * n {
                assert(hex_of(f)[k] == hex_of(g)[k]);
            }
        }
    }
}

proof fn lemma_cleaned(s: Seq<u8>)
    requires
        forall|k: int| 0 <= k < s.len() ==> !is_separator(#[trigger] s[k]),
    ensures
        cleaned(s) == s,
    decreases s.len(),
{
    if s.len() > 0 {
        lemma_cleaned(s.drop_last());
        assert(s.drop_last().push(s.last()) =~= s);
    } else {
        assert(s =~= Seq::<u8>::empty());
    }
}

/// A fingerprint that was printed reads back.
pub proof fn printed_fingerprint_is_read_back(f: Seq<u8>)
    requires
        f.len() == 32,
    ensures
        fingerprint_of(vstd::utf8::encode_utf8(hex_of(f))) == Ok::<Seq<u8>, NetError>(f),
{
    let text = hex_of(f);
    lemma_hex_of(f);
    assert(vstd::utf8::is_ascii_chars(text));
    vstd::utf8::is_ascii_chars_encode_utf8(text);
    let bytes = vstd::utf8::encode_utf8(text);
    assert forall|k: int| 0 <= k < bytes.len() implies !is_separator(#[trigger] bytes[k]) by {
        assert(bytes[k] == text[k] as u8);
        assert(is_hex_char(text[k]));
    }
    lemma_cleaned(bytes);
    assert forall|i: int| 0 <= i < 32 implies #[trigger] hex_pair(bytes[2 * i], bytes[2 * i + 1])
        == Some(f[i]) by {
        let h = f[i] / 16;
        let l = f[i] % 16;
        assert(text[2 * i] == hex_digit(h) && text[2 * i + 1] == hex_digit(l));
        assert(nibble(hex_digit(h) as u8) == Some(h));
        assert(nibble(hex_digit(l) as u8) == Some(l));
    }
    assert(fingerprint_of(bytes)->Ok_0 =~= f);
}

} // verus!
