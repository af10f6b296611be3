//! Certificates that are told apart by their fingerprints.

use crate::bytes::same_bytes;
use crate::crypto::{sha256, sha256_of};
use crate::encoding::{hex_encode, hex_text};
use crate::error::{Error, Result};
use crate::text::seq_view;
use vstd::prelude::*;
use vstd::utf8::*;

verus! {

/// The protocol name of the transport: `whoosh/1`.
pub const ALPN: [u8; 8] = [0x77, 0x68, 0x6F, 0x6F, 0x73, 0x68, 0x2F, 0x31];

pub const SERVER_NAME: &'static str = "whoosh";

/// The SHA-256 digest of a certificate.
pub fn fingerprint(der: &[u8]) -> (digest: [u8; 32])
    ensures
        digest@ == sha256_of(der@),
{
    sha256(der)
}

pub fn fingerprint_hex(bytes: &[u8; 32]) -> (text: String)
    ensures
        text@ == hex_text(bytes@),
{
    hex_encode(bytes)
}

/// A self-signed certificate with its key, and its fingerprint.
#[derive(Debug, Clone, PartialEq, Eq)]
pub struct IdentityCert {
    pub cert_der: Vec<u8>,
    pub key_der: Vec<u8>,
    pub fingerprint: [u8; 32],
}

/// A host name of letters alone, which no address is.
pub open spec fn is_letters(name: Seq<char>) -> bool {
    0 < name.len() < 64 && forall|i: int|
        0 <= i < name.len() ==> ('a' <= #[trigger] name[i] <= 'z' || 'A' <= name[i] <= 'Z')
}

/// The entry of a host name among the names of a certificate: its tag, its length
/// and its bytes.
pub open spec fn host_entry(name: Seq<char>) -> Seq<u8> {
    seq![0x82u8, encode_utf8(name).len() as u8] + encode_utf8(name)
}

/// The bytes hold `part` somewhere.
pub open spec fn holds_bytes(bytes: Seq<u8>, part: Seq<u8>) -> bool {
    exists|i: int|
        0 <= i && i + part.len() <= bytes.len() && #[trigger] bytes.subrange(i, i + part.len())
            == part
}

/// How many bytes a public key of P-256 takes.
pub const PUBLIC_KEY_LEN: usize = 65;

/// The key goes with the certificate: the document of the key ends in the public
/// key, and the certificate holds the same public key.
pub open spec fn key_fits(cert_der: Seq<u8>, key_der: Seq<u8>) -> bool {
    &&& key_der.len() >= PUBLIC_KEY_LEN
    &&& holds_bytes(cert_der, key_der.skip(key_der.len() - PUBLIC_KEY_LEN))
}

/// Calls `rcgen::generate_simple_self_signed` for some subject names and hands
/// out the certificate and its key as DER. Each name of letters alone has its
/// entry in the certificate, and the certificate holds the public key that ends
/// the document of the key. Of the random numbers in the key, and of the words of
/// an error, nothing is claimed.
#[verifier::external_body]
fn self_signed(names: Vec<String>) -> (made: std::result::Result<(Vec<u8>, Vec<u8>), String>)
    ensures
        made matches Ok((cert_der, _)) ==> forall|i: int|
            0 <= i < names@.len() && is_letters((#[trigger] names@[i])@) ==> holds_bytes(
                cert_der@,
                host_entry(names@[i]@),
            ),
        made matches Ok((cert_der, key_der)) ==> key_fits(cert_der@, key_der@),
{
    match rcgen::generate_simple_self_signed(names) {
        Ok(made) => Ok((made.cert.der().to_vec(), made.key_pair.serialize_der())),
        Err(error) => Err(error.to_string()),
    }
}

/// The subject names of a certificate: the given name alone.
pub fn subject_names(name: &str) -> (names: Vec<String>)
    ensures
        seq_view(names@) == seq![name@],
{
    let names = vec![name.to_owned()];
    assert(seq_view(names@) =~= seq![name@]);
    names
}

/// The identity that goes with a certificate and its key.
pub fn identity_of(cert_der: Vec<u8>, key_der: Vec<u8>) -> (identity: IdentityCert)
    ensures
        identity.cert_der == cert_der,
        identity.key_der == key_der,
        identity.fingerprint@ == sha256_of(cert_der@),
{
    let digest = fingerprint(cert_der.as_slice());
    IdentityCert { cert_der, key_der, fingerprint: digest }
}

/// The identity of a certificate under a name: the certificate holds the name, as
/// far as that is of letters alone, the key goes with the certificate, and the
/// fingerprint is that of the certificate.
pub open spec fn is_identity(identity: IdentityCert, name: Seq<char>) -> bool {
    &&& is_letters(name) ==> holds_bytes(identity.cert_der@, host_entry(name))
    &&& key_fits(identity.cert_der@, identity.key_der@)
    &&& identity.fingerprint@ == sha256_of(identity.cert_der@)
}

/// A new identity under a name.
pub fn generate_identity_for(name: &str) -> (identity: Result<IdentityCert>)
    ensures
        match identity {
            Ok(identity) => is_identity(identity, name@),
            Err(error) => error@ is Crypto,
        },
{
    let names = subject_names(name);
    assert(names@.len() == seq_view(names@).len());
    assert(seq_view(names@)[0] == names@[0]@);
    match self_signed(names) {
        Ok((cert_der, key_der)) => Ok(identity_of(cert_der, key_der)),
        Err(text) => Err(Error::Crypto(text)),
    }
}

/// A new identity of a native receiver, under [`SERVER_NAME`].
pub fn generate_identity() -> (identity: Result<IdentityCert>)
    ensures
        match identity {
            Ok(identity) => {
                &&& holds_bytes(identity.cert_der@, host_entry(SERVER_NAME@))
                &&& key_fits(identity.cert_der@, identity.key_der@)
                &&& identity.fingerprint@ == sha256_of(identity.cert_der@)
            },
            Err(error) => error@ is Crypto,
        },
{
    proof {
        reveal_strlit("whoosh");
        assert(is_letters(SERVER_NAME@));
    }
    generate_identity_for(SERVER_NAME)
}

/// How a sender decides that a certificate is that of the device it meant to
/// reach.
#[derive(Debug, Clone, PartialEq, Eq)]
pub enum Trust {
    /// The usual validation of a path, against one self-signed certificate.
    Roots(Vec<u8>),
    /// Trust on first use, or in a certificate of a fingerprint seen before.
    Fingerprint(Option<[u8; 32]>),
}

/// What is said of a certificate that is not the expected one.
pub open spec fn mismatch_text(seen: Seq<u8>, expected: Seq<u8>) -> Seq<char> {
    "certificate fingerprint "@ + hex_text(seen) + " does not match "@ + hex_text(expected)
}

/// Checks the fingerprint of a certificate against the expected one, where one
/// is expected.
pub fn check_fingerprint(seen: &[u8; 32], expected: Option<[u8; 32]>) -> (checked: std::result::Result<(), String>)
    ensures
        match expected {
            Some(expected) if expected@ != seen@ => checked is Err && checked->Err_0@ == mismatch_text(
                seen@,
                expected@,
            ),
            _ => checked is Ok,
        },
{
    if let Some(expected) = expected {
        if !same_bytes(seen, &expected) {
            let mut text = "certificate fingerprint ".to_owned();
            text.append(fingerprint_hex(seen).as_str());
            text.append(" does not match ");
            text.append(fingerprint_hex(&expected).as_str());
            return Err(text);
        }
    }
    Ok(())
}

} // verus!
