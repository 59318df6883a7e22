//! Server side of the link handshake.

use rsa::pkcs8::{DecodePrivateKey, EncodePrivateKey, EncodePublicKey};
use vstd::prelude::*;
use vstd::slice::slice_to_vec;
use vstd::string::*;

use crate::net::auth;
use crate::net::channel::{Channel, DEFAULT_MAX_MESSAGE_SIZE};
use crate::net::error::{lift, NetError, Result};
use crate::net::link as client_link;
use crate::net::link::negotiate_mini_header;
use crate::proto::caps;
use crate::proto::caps::common::{AUTH_SPICE, MINI_HEADER};
use crate::proto::caps::CapSet;
use crate::proto::enums::{ChannelType, LinkError, SPICE_TICKET_PUBKEY_BYTES};
use crate::proto::error::ProtoError;
use crate::proto::limits::MAX_CAPS_ENTRIES;
use crate::proto::link;
use crate::proto::link::{
    key_array, LinkHeader, LinkMess, LinkReply, LinkResult, ENCRYPTED_TICKET_SIZE,
    LINK_REPLY_FIXED_SIZE,
};

verus! {

/// The public half, as DER `SubjectPublicKeyInfo`, of the RSA private key that
/// `rsa::RsaPrivateKey::from_pkcs8_der` reads from `key`: what
/// `rsa::RsaPublicKey::to_public_key_der` gives. `None` where one of the two
/// fails.
pub uninterp spec fn public_der_of(key: Seq<u8>) -> Option<Seq<u8>>;

/// What `rsa::RsaPrivateKey::decrypt` with `rsa::Oaep` over SHA-1 makes of a
/// ciphertext, under the key that `rsa::RsaPrivateKey::from_pkcs8_der` reads
/// from `key`, by its private exponent. `None` where one of the two fails.
pub uninterp spec fn oaep_opened(key: Seq<u8>, ciphertext: Seq<u8>) -> Option<Seq<u8>>;

/// The size of the modulus of a server's key: 1024 bits, as the protocol's
/// ticket has it.
pub const SERVER_KEY_BITS: usize = 1024;

/// `rsa::RsaPrivateKey::new` for a modulus of `bits` bits, with the operating
/// system's randomness, as PKCS#8 DER. Nothing is said of the bytes, which
/// differ from call to call, but that the public half of the key is there and
/// reads back with a modulus of that size, and that it takes 162 bytes for a
/// modulus of 1024 bits and the exponent 65537. Generation needs room for its primes, and
/// a public key of more than 4096 bits is not read back.
#[verifier::external_body]
fn generate_key(bits: usize) -> (r: std::result::Result<Vec<u8>, String>)
    requires
        512 <= bits <= 4096,
        bits % 8 == 0,
    ensures
        r matches Ok(k) ==> {
            &&& public_der_of(k@) matches Some(d)
            &&& auth::modulus_len(d) == Some(bits as nat / 8)
            &&& bits == 1024 ==> d.len() == 162
        },
{
    let key = rsa::RsaPrivateKey::new(&mut rand::rngs::OsRng, bits).map_err(|e| e.to_string())?;
    let der = key.to_pkcs8_der().map_err(|e| e.to_string())?;
    Ok(der.as_bytes().to_vec())
}

/// `rsa::RsaPublicKey::to_public_key_der` of the public half of a private key.
#[verifier::external_body]
fn public_der(key: &[u8]) -> (r: Option<Vec<u8>>)
    ensures
        match public_der_of(key@) {
            Some(d) => r matches Some(v) && v@ == d,
            None => r is None,
        },
{
    let key = rsa::RsaPrivateKey::from_pkcs8_der(key).ok()?;
    let der = rsa::RsaPublicKey::from(&key).to_public_key_der().ok()?;
    Some(der.as_bytes().to_vec())
}

/// `rsa::RsaPrivateKey::decrypt` with `rsa::Oaep` over SHA-1, after
/// `rsa::RsaPrivateKey::clear_precomputed`, so that it goes by the private
/// exponent. The shortcut by the two factors comes to the same where they are
/// prime, but takes a number of steps in proportion to the second divided by
/// the first, and a key may come with factors of any length. A decrypted
/// message is encrypted again and held against the ciphertext before its
/// padding is read, so a plaintext comes out only of a ciphertext that seals
/// it for the public half of the key. That the plaintext of every such
/// ciphertext does come out is not said: it takes factors that are truly
/// prime.
#[verifier::external_body]
fn oaep_decrypt(key: &[u8], ciphertext: &[u8]) -> (r: Option<Vec<u8>>)
    ensures
        match oaep_opened(key@, ciphertext@) {
            Some(p) => r matches Some(v) && v@ == p,
            None => r is None,
        },
        r matches Some(v) ==> match public_der_of(key@) {
            Some(d) => auth::modulus_len(d) is Some ==> auth::seals(d, v@, ciphertext@),
            None => true,
        },
{
    let mut key = rsa::RsaPrivateKey::from_pkcs8_der(key).ok()?;
    key.clear_precomputed();
    key.decrypt(rsa::Oaep::new::<sha1::Sha1>(), ciphertext).ok()
}

/// The RSA private key of a server, as PKCS#8 DER.
pub struct ServerKey {
    pkcs8: Vec<u8>,
}

impl ServerKey {
    /// The key, as PKCS#8 DER.
    pub closed spec fn der(self) -> Seq<u8> {
        self.pkcs8@
    }

    /// Generate a fresh 1024-bit RSA keypair.
    pub fn generate() -> (r: Result<Self>)
        ensures
            match r {
                Ok(k) => {
                    &&& public_der_of(k.der()) matches Some(d)
                    &&& d.len() == SPICE_TICKET_PUBKEY_BYTES
                    &&& auth::modulus_len(d) == Some(ENCRYPTED_TICKET_SIZE as nat)
                },
                Err(e) => e is RsaEncrypt,
            },
    {
        match generate_key(SERVER_KEY_BITS) {
            Ok(pkcs8) => Ok(Self { pkcs8 }),
            Err(m) => Err(NetError::RsaEncrypt(m)),
        }
    }

    /// A key that is at hand as PKCS#8 DER.
    pub fn from_pkcs8(pkcs8: Vec<u8>) -> (k: Self)
        ensures
            k.der() == pkcs8@,
    {
        Self { pkcs8 }
    }
}

/// The key that a reply carries: the public half, where it has the one size
/// that fits.
pub fn reply_key(der: Option<Vec<u8>>) -> (r: Result<[u8; SPICE_TICKET_PUBKEY_BYTES]>)
    ensures
        match der {
            Some(d) => if d@.len() == SPICE_TICKET_PUBKEY_BYTES {
                r matches Ok(k) && k@ == d@
            } else {
                r == Err::<[u8; SPICE_TICKET_PUBKEY_BYTES], NetError>(NetError::BadServerKey)
            },
            None => r == Err::<[u8; SPICE_TICKET_PUBKEY_BYTES], NetError>(NetError::BadServerKey),
        },
{
    match der {
        None => Err(NetError::BadServerKey),
        Some(d) => if d.len() != SPICE_TICKET_PUBKEY_BYTES {
            Err(NetError::BadServerKey)
        } else {
            Ok(key_array(d.as_slice()))
        },
    }
}

/// The password in a decrypted ticket: one trailing zero byte is dropped.
pub open spec fn password_in(plaintext: Seq<u8>) -> Seq<u8> {
    if plaintext.len() > 0 && plaintext.last() == 0 {
        plaintext.drop_last()
    } else {
        plaintext
    }
}

/// How a ticket is answered: with success where it holds the expected
/// password, else with a refusal.
pub open spec fn verdict_of(plaintext: Option<Seq<u8>>, expected: Seq<u8>) -> LinkError {
    match plaintext {
        Some(p) => if password_in(p) == expected {
            LinkError::Success
        } else {
            LinkError::PermissionDenied
        },
        None => LinkError::PermissionDenied,
    }
}

/// The ticket is a password, sealed for the public key in `der`: with the
/// trailing zero byte, or without it.
pub open spec fn ticket_holds(der: Seq<u8>, password: Seq<u8>, ticket: Seq<u8>) -> bool {
    exists|plaintext: Seq<u8>| #[trigger]
        auth::seals(der, plaintext, ticket) && password_in(plaintext) == password
}

/// How a ticket is answered, from what its decryption gave.
pub fn ticket_verdict(plaintext: Option<Vec<u8>>, expected: &str) -> (v: LinkError)
    ensures
        v == verdict_of(
            match plaintext {
                Some(p) => Some(p@),
                None => None,
            },
            expected.spec_bytes(),
        ),
{
    let want = expected.as_bytes();
    match plaintext {
        None => LinkError::PermissionDenied,
        Some(p) => {
            let n: usize = if p.len() > 0 && p[p.len() - 1] == 0 {
                p.len() - 1
            } else {
                p.len()
            };
            assert(p@.take(n as int) =~= password_in(p@));
            if starts_as(p.as_slice(), n, want) {
                LinkError::Success
            } else {
                LinkError::PermissionDenied
            }
        },
    }
}

/// The first `n` bytes are `want`.
fn starts_as(p: &[u8], n: usize, want: &[u8]) -> (b: bool)
    requires
        n <= p@.len(),
    ensures
        b == (p@.take(n as int) == want@),
{
    if n != want.len() {
        return false;
    }
    let mut i: usize = 0;
    while i < n
        invariant
            i <= n == want@.len(),
            n <= p@.len(),
            forall|k: int| 0 <= k < i ==> p@[k] == want@[k],
        decreases n - i,
    {
        if p[i] != want[i] {
            assert(p@.take(n as int)[i as int] != want@[i as int]);
            return false;
        }
        i = i + 1;
    }
    assert(p@.take(n as int) =~= want@);
    true
}

/// A ticket that holds one password is accepted exactly where that is the
/// password expected.
pub proof fn ticket_is_accepted_iff_passwords_match(password: Seq<u8>, expected: Seq<u8>)
    ensures
        verdict_of(Some(auth::plaintext_of(password)), expected) == LinkError::Success <==> password
            == expected,
        verdict_of(None, expected) == LinkError::PermissionDenied,
{
    assert(password_in(auth::plaintext_of(password)) =~= password);
}

/// Result of a successful server-side handshake.
pub struct AcceptedLink<S> {
    pub channel: Channel<S>,
    pub connection_id: u32,
    pub channel_type: ChannelType,
    pub channel_id: u8,
    pub client_common_caps: CapSet,
    pub client_channel_caps: CapSet,
}

/// Knobs of the server-side handshake.
pub struct ServerLinkOptions<'a> {
    pub priv_key: &'a ServerKey,
    pub expected_password: &'a str,
    pub server_common_caps: CapSet,
    pub server_channel_caps: CapSet,
}

/// Read the message that a client's link header announced.
pub fn read_mess(payload: &[u8]) -> (r: Result<LinkMess>)
    ensures
        match r {
            Ok(m) => LinkMess::reads(payload@, Ok(m)),
            Err(NetError::Proto(e)) => LinkMess::reads(payload@, Err(e)),
            Err(_) => false,
        },
{
    lift(LinkMess::decode(payload))
}

/// A reply behind its header.
pub open spec fn reply_wire(reply: LinkReply) -> Seq<u8> {
    LinkHeader::of_size((reply.wire().len() % 4294967296) as u32).wire() + reply.wire()
}

/// The bytes of a server's accepting reply.
pub open spec fn is_reply(out: Seq<u8>, key: Seq<u8>, common: Seq<u32>, channel: Seq<u32>) -> bool {
    exists|reply: LinkReply|
        #![trigger reply.wire()]
        {
            &&& out == reply_wire(reply)
            &&& reply.error == LinkError::Success
            &&& reply.pub_key@ == key
            &&& reply.common_caps@ == common
            &&& reply.channel_caps@ == channel
        }
}

impl<'a> ServerLinkOptions<'a> {
    pub fn new(priv_key: &'a ServerKey, expected_password: &'a str) -> (o: Self)
        ensures
            o.priv_key == priv_key,
            o.expected_password == expected_password,
            forall|c: u32| #[trigger]
                caps::has_cap(o.server_common_caps.0@, c) <==> c == AUTH_SPICE || c == MINI_HEADER,
            o.server_common_caps.0@ == caps::built(seq![AUTH_SPICE, MINI_HEADER], 2),
            o.server_channel_caps.0@ == Seq::<u32>::empty(),
    {
        let server_common_caps = CapSet::with_caps([AUTH_SPICE, MINI_HEADER]);
        let ghost list = [AUTH_SPICE, MINI_HEADER]@;
        assert(list =~= seq![AUTH_SPICE, MINI_HEADER]);
        assert forall|c: u32| #[trigger]
            caps::has_cap(server_common_caps.0@, c) <==> c == AUTH_SPICE || c == MINI_HEADER by {
            assert(list.contains(c) <==> c == AUTH_SPICE || c == MINI_HEADER) by {
                assert(list[0] == AUTH_SPICE && list[1] == MINI_HEADER);
            }
        }
        Self {
            priv_key,
            expected_password,
            server_common_caps,
            server_channel_caps: CapSet::new(),
        }
    }

    /// The bytes that answer a client's message: link header and reply, with
    /// the public key to encrypt the ticket for.
    pub fn reply(&self) -> (r: Result<Vec<u8>>)
        requires
            link::total_len(
                LINK_REPLY_FIXED_SIZE,
                self.server_common_caps.0@,
                self.server_channel_caps.0@,
            ) <= usize::MAX,
        ensures
            match public_der_of(self.priv_key.der()) {
                Some(d) => if d.len() == SPICE_TICKET_PUBKEY_BYTES {
                    r matches Ok(out) && is_reply(
                        out@,
                        d,
                        self.server_common_caps.0@,
                        self.server_channel_caps.0@,
                    )
                } else {
                    r == Err::<Vec<u8>, NetError>(NetError::BadServerKey)
                },
                None => r == Err::<Vec<u8>, NetError>(NetError::BadServerKey),
            },
    {
        let pub_key = reply_key(public_der(self.priv_key.pkcs8.as_slice()))?;
        let reply = LinkReply {
            error: LinkError::Success,
            pub_key,
            common_caps: slice_to_vec(self.server_common_caps.words()),
            channel_caps: slice_to_vec(self.server_channel_caps.words()),
        };
        let len: usize = reply.encoded_len();
        let mut out: Vec<u8> = Vec::new();
        LinkHeader::new((len as u64 % 4294967296) as u32).encode(&mut out);
        reply.encode(&mut out);
        assert(out@ =~= reply_wire(reply));
        Ok(out)
    }

    /// How a client's encrypted ticket is answered.
    pub fn verdict(&self, ticket: &[u8]) -> (v: LinkError)
        ensures
            v == verdict_of(
                oaep_opened(self.priv_key.der(), ticket@),
                self.expected_password.spec_bytes(),
            ),
            v == LinkError::Success ==> match public_der_of(self.priv_key.der()) {
                Some(d) => auth::modulus_len(d) is Some ==> ticket_holds(
                    d,
                    self.expected_password.spec_bytes(),
                    ticket@,
                ),
                None => true,
            },
    {
        ticket_verdict(
            oaep_decrypt(self.priv_key.pkcs8.as_slice(), ticket),
            self.expected_password,
        )
    }

    /// End the handshake after the verdict was sent: the framed channel and
    /// what the client asked for, or the error that the verdict is.
    pub fn finish<S>(&self, stream: S, mess: LinkMess, verdict: LinkError) -> (r: Result<
        AcceptedLink<S>,
    >)
        ensures
            match verdict {
                LinkError::Success => {
                    &&& r matches Ok(a)
                    &&& a.channel.stream() == stream
                    &&& a.channel.mini() == client_link::agreed_mini(
                        mess.common_caps@,
                        self.server_common_caps.0@,
                    )
                    &&& a.channel.serial() == 1
                    &&& a.channel.max() == DEFAULT_MAX_MESSAGE_SIZE
                    &&& a.connection_id == mess.connection_id
                    &&& a.channel_type == mess.channel_type
                    &&& a.channel_id == mess.channel_id
                    &&& a.client_common_caps.0@ == mess.common_caps@
                    &&& a.client_channel_caps.0@ == mess.channel_caps@
                },
                e => r == Err::<AcceptedLink<S>, NetError>(NetError::Link(e)),
            },
    {
        match verdict {
            LinkError::Success => {
                let client_common_caps = CapSet(mess.common_caps);
                let client_channel_caps = CapSet(mess.channel_caps);
                let mini: bool = negotiate_mini_header(
                    &client_common_caps,
                    &self.server_common_caps,
                );
                Ok(
                    AcceptedLink {
                        channel: Channel::new(stream, mini),
                        connection_id: mess.connection_id,
                        channel_type: mess.channel_type,
                        channel_id: mess.channel_id,
                        client_common_caps,
                        client_channel_caps,
                    },
                )
            },
            e => Err(NetError::Link(e)),
        }
    }
}

/// The bytes that announce a verdict to the client.
pub fn verdict_bytes(verdict: LinkError) -> (out: Vec<u8>)
    ensures
        out@ == LinkResult(verdict).wire(),
{
    let mut out: Vec<u8> = Vec::new();
    LinkResult(verdict).encode(&mut out);
    assert(out@ =~= LinkResult(verdict).wire());
    out
}

/// What the server sends first is accepted by the client side: its header
/// announces exactly the reply behind it, which reads back as it was sent.
#[verifier::rlimit(50)]
#[verifier::spinoff_prover]
pub proof fn reply_is_read_back(
    m: LinkReply,
    res: std::result::Result<LinkReply, ProtoError>,
)
    requires
        m.common_caps@.len() <= MAX_CAPS_ENTRIES,
        m.channel_caps@.len() <= MAX_CAPS_ENTRIES,
        LinkReply::reads(reply_wire(m).skip(16), res),
    ensures
        client_link::payload_len(reply_wire(m)) == Ok::<usize, NetError>(
            m.wire().len() as usize,
        ),
        reply_wire(m).len() == 16 + m.wire().len(),
        res matches Ok(n) && n.error == m.error && n.pub_key@ == m.pub_key@ && n.common_caps@
            == m.common_caps@ && n.channel_caps@ == m.channel_caps@,
{
    link::link_reply_len(m);
    client_link::lemma_announced(m.wire());
    link::link_reply_round_trip(m, Seq::empty(), res);
}

/// A verdict reaches the client as it was given: the client's handshake ends
/// well exactly where the server's did.
pub proof fn verdict_is_read_back(verdict: LinkError)
    ensures
        client_link::result_outcome(LinkResult(verdict).wire()) == (if verdict
            == LinkError::Success {
            Ok(())
        } else {
            Err(NetError::Link(verdict))
        }),
{
    let w = LinkResult(verdict).wire();
    link::link_result_round_trip(LinkResult(verdict), Seq::empty());
    assert(w + Seq::<u8>::empty() =~= w);
}

} // verus!
