//! SPICE ticket encryption: RSA-1024 with OAEP/SHA-1 padding.

use rsa::pkcs8::DecodePublicKey;
use vstd::array::array_as_slice;
use vstd::prelude::*;
use vstd::string::*;

use crate::net::error::{NetError, Result};
use crate::proto::enums::{SPICE_MAX_PASSWORD_LENGTH, SPICE_TICKET_PUBKEY_BYTES};
use crate::proto::link::ENCRYPTED_TICKET_SIZE;

verus! {

/// Why no ciphertext came out of the RSA encryption.
#[derive(Debug, Clone, PartialEq, Eq)]
pub enum SealError {
    /// The bytes are not a public key.
    BadKey,
    /// The key refused the plaintext, with the message it gave.
    Refused(String),
}

/// The length in bytes of the modulus of the RSA public key that
/// `rsa::RsaPublicKey::from_public_key_der` reads from `der`, or `None` where
/// it refuses `der`.
pub uninterp spec fn modulus_len(der: Seq<u8>) -> Option<nat>;

/// The ciphertext is one that `rsa::RsaPublicKey::encrypt` with `rsa::Oaep`
/// over SHA-1 makes of the plaintext, for some randomness, under the key that
/// `rsa::RsaPublicKey::from_public_key_der` reads from `der`.
pub uninterp spec fn seals(der: Seq<u8>, plaintext: Seq<u8>, ciphertext: Seq<u8>) -> bool;

/// `rsa::RsaPublicKey::encrypt` with `rsa::Oaep` over SHA-1 and the operating
/// system's randomness, under the key that
/// `rsa::RsaPublicKey::from_public_key_der` reads from `der`. The ciphertext
/// is as long as the modulus. OAEP over SHA-1 takes 42 bytes of the modulus;
/// a plaintext that does not fit in the rest is refused. Of the ciphertext's
/// bytes, which differ from call to call, it is said only that they seal the
/// plaintext for the key.
#[verifier::external_body]
fn oaep_encrypt(der: &[u8], plaintext: &[u8]) -> (r: std::result::Result<Vec<u8>, SealError>)
    ensures
        match modulus_len(der@) {
            None => r == Err::<Vec<u8>, SealError>(SealError::BadKey),
            Some(n) => if plaintext@.len() + 42 <= n {
                r matches Ok(c) && c@.len() == n && seals(der@, plaintext@, c@)
            } else {
                r matches Err(SealError::Refused(_))
            },
        },
{
    let key = rsa::RsaPublicKey::from_public_key_der(der).map_err(|_| SealError::BadKey)?;
    key.encrypt(&mut rand::rngs::OsRng, rsa::Oaep::new::<sha1::Sha1>(), plaintext).map_err(
        |e| SealError::Refused(e.to_string()),
    )
}

/// What is encrypted: the password and a trailing zero byte.
pub open spec fn plaintext_of(password: Seq<u8>) -> Seq<u8> {
    password + seq![0u8]
}

/// What is encrypted: the password and a trailing `\0` byte, matching
/// spice-gtk.
pub fn ticket_plaintext(password: &str) -> (out: Vec<u8>)
    ensures
        out@ == plaintext_of(password.spec_bytes()),
{
    let mut out: Vec<u8> = Vec::new();
    out.extend_from_slice(password.as_bytes());
    out.push(0);
    assert(out@ =~= plaintext_of(password.spec_bytes()));
    out
}

/// The ticket that an encryption gives. A key whose modulus is not the 128
/// bytes of RSA-1024 is no server key.
pub fn ticket_from(sealed: std::result::Result<Vec<u8>, SealError>) -> (r: Result<Vec<u8>>)
    ensures
        r == (match sealed {
            Ok(c) => if c@.len() == ENCRYPTED_TICKET_SIZE {
                Ok(c)
            } else {
                Err(NetError::BadServerKey)
            },
            Err(SealError::BadKey) => Err(NetError::BadServerKey),
            Err(SealError::Refused(m)) => Err(NetError::RsaEncrypt(m)),
        }),
{
    match sealed {
        Ok(c) => if c.len() == ENCRYPTED_TICKET_SIZE {
            Ok(c)
        } else {
            Err(NetError::BadServerKey)
        },
        Err(SealError::BadKey) => Err(NetError::BadServerKey),
        Err(SealError::Refused(m)) => Err(NetError::RsaEncrypt(m)),
    }
}

/// How encrypting a password for the key in `der` ends.
pub open spec fn ticket_outcome(der: Seq<u8>, password: Seq<u8>, r: Result<Vec<u8>>) -> bool {
    let len = password.len();
    if len > SPICE_MAX_PASSWORD_LENGTH {
        r == Err::<Vec<u8>, NetError>(NetError::PasswordTooLong { len: len as usize })
    } else {
        match modulus_len(der) {
            None => r == Err::<Vec<u8>, NetError>(NetError::BadServerKey),
            Some(n) => if len + 43 > n {
                r matches Err(NetError::RsaEncrypt(_))
            } else if n != ENCRYPTED_TICKET_SIZE {
                r == Err::<Vec<u8>, NetError>(NetError::BadServerKey)
            } else {
                r matches Ok(c) && c@.len() == ENCRYPTED_TICKET_SIZE && seals(
                    der,
                    plaintext_of(password),
                    c@,
                )
            },
        }
    }
}

/// Every password of up to 60 bytes gets a ticket for a key of 1024 bits.
pub proof fn every_password_is_sealed(der: Seq<u8>, password: Seq<u8>, r: Result<Vec<u8>>)
    requires
        modulus_len(der) == Some(ENCRYPTED_TICKET_SIZE as nat),
        password.len() <= SPICE_MAX_PASSWORD_LENGTH,
        ticket_outcome(der, password, r),
    ensures
        r matches Ok(c) && c@.len() == ENCRYPTED_TICKET_SIZE && seals(
            der,
            plaintext_of(password),
            c@,
        ),
{
}

/// RSA-OAEP-SHA1 encrypt a password with the server-provided 1024-bit public
/// key. Output is always 128 bytes (RSA-1024 block size).
pub fn encrypt_ticket(pub_key_der: &[u8; SPICE_TICKET_PUBKEY_BYTES], password: &str) -> (r: Result<
    Vec<u8>,
>)
    ensures
        ticket_outcome(pub_key_der@, password.spec_bytes(), r),
{
    let len: usize = password.as_bytes().len();
    if len > SPICE_MAX_PASSWORD_LENGTH {
        return Err(NetError::PasswordTooLong { len });
    }
    let plaintext = ticket_plaintext(password);
    ticket_from(oaep_encrypt(array_as_slice(pub_key_der), plaintext.as_slice()))
}

} // verus!
