//! Digests, keys, ciphers and random bytes, which outside crates compute.

use crate::text::opt_view;
use aes::Aes256;
use cbc::cipher::block_padding::Pkcs7;
use cbc::cipher::{BlockDecryptMut, BlockEncryptMut, KeyIvInit};
use hmac::Mac;
use p256::elliptic_curve::sec1::{FromEncodedPoint, ToEncodedPoint};
use rand::RngCore;
use sha2::Digest;
use vstd::prelude::*;

verus! {

/// The SHA-256 digest of the data.
pub uninterp spec fn sha256_of(data: Seq<u8>) -> Seq<u8>;

/// The SHA-512 digest of the data.
pub uninterp spec fn sha512_of(data: Seq<u8>) -> Seq<u8>;

/// The HMAC-SHA-256 tag of the data under the key.
pub uninterp spec fn hmac_of(key: Seq<u8>, data: Seq<u8>) -> Seq<u8>;

/// The 32 bytes that HKDF-SHA-256 derives.
pub uninterp spec fn hkdf_of(salt: Seq<u8>, ikm: Seq<u8>, info: Seq<u8>) -> Seq<u8>;

/// The AES-256-CBC ciphertext of the data, padded as PKCS #7 says.
pub uninterp spec fn cbc_sealed(key: Seq<u8>, iv: Seq<u8>, data: Seq<u8>) -> Seq<u8>;

/// The data that an AES-256-CBC ciphertext holds, if its padding is right.
pub uninterp spec fn cbc_opened(key: Seq<u8>, iv: Seq<u8>, data: Seq<u8>) -> Option<Seq<u8>>;

/// The coordinates of the P-256 public key of a secret scalar; `None` where the
/// bytes are no scalar from 1 up to the group's order.
pub uninterp spec fn p256_public(secret: Seq<u8>) -> Option<(Seq<u8>, Seq<u8>)>;

/// The x coordinate that P-256 key agreement gives; `None` where the secret is
/// no scalar or the peer's point is not on the curve.
pub uninterp spec fn p256_shared(secret: Seq<u8>, x: Seq<u8>, y: Seq<u8>) -> Option<Seq<u8>>;

/// Calls `sha2::Sha256::digest`.
#[verifier::external_body]
pub(crate) fn sha256(data: &[u8]) -> (digest: [u8; 32])
    ensures
        digest@ == sha256_of(data@),
{
    sha2::Sha256::digest(data).into()
}

/// Calls `sha2::Sha512::digest`.
#[verifier::external_body]
pub(crate) fn sha512(data: &[u8]) -> (digest: [u8; 64])
    ensures
        digest@ == sha512_of(data@),
{
    sha2::Sha512::digest(data).into()
}

/// Calls `hmac::Hmac::<Sha256>` on a key and one update; a key of any length is
/// taken.
#[verifier::external_body]
pub(crate) fn hmac_sha256(key: &[u8], data: &[u8]) -> (tag: Option<[u8; 32]>)
    ensures
        tag is Some,
        tag->0@ == hmac_of(key@, data@),
{
    let mut mac = hmac::Hmac::<sha2::Sha256>::new_from_slice(key).ok()?;
    mac.update(data);
    Some(mac.finalize().into_bytes().into())
}

/// Calls `verify_slice` of `hmac::Hmac::<Sha256>`, which compares all bytes of
/// the tag.
#[verifier::external_body]
pub(crate) fn hmac_sha256_matches(key: &[u8], data: &[u8], tag: &[u8]) -> (matches: bool)
    ensures
        matches == (tag@ == hmac_of(key@, data@)),
{
    match hmac::Hmac::<sha2::Sha256>::new_from_slice(key) {
        Ok(mac) => mac.chain_update(data).verify_slice(tag).is_ok(),
        Err(_) => false,
    }
}

/// Calls `hkdf::Hkdf::<Sha256>::new` and `expand` for 32 bytes, which is within
/// the length that `expand` allows.
#[verifier::external_body]
pub(crate) fn hkdf_sha256(salt: &[u8], ikm: &[u8], info: &[u8]) -> (key: Option<[u8; 32]>)
    ensures
        key is Some,
        key->0@ == hkdf_of(salt@, ikm@, info@),
{
    let mut out = [0u8; 32];
    hkdf::Hkdf::<sha2::Sha256>::new(Some(salt), ikm).expand(info, &mut out).ok()?;
    Some(out)
}

/// Calls `encrypt_padded_vec_mut` of `cbc::Encryptor<Aes256>`. What it seals is
/// opened again under the same key and initialisation vector.
#[verifier::external_body]
pub(crate) fn cbc_encrypt(key: &[u8; 32], iv: &[u8; 16], data: &[u8]) -> (sealed: Vec<u8>)
    ensures
        sealed@ == cbc_sealed(key@, iv@, data@),
        cbc_opened(key@, iv@, sealed@) == Some(data@),
{
    cbc::Encryptor::<Aes256>::new(key.into(), iv.into()).encrypt_padded_vec_mut::<Pkcs7>(data)
}

/// Calls `decrypt_padded_vec_mut` of `cbc::Decryptor<Aes256>`.
#[verifier::external_body]
pub(crate) fn cbc_decrypt(key: &[u8; 32], iv: &[u8; 16], data: &[u8]) -> (opened: Option<Vec<u8>>)
    ensures
        opt_view(opened) == cbc_opened(key@, iv@, data@),
{
    cbc::Decryptor::<Aes256>::new(key.into(), iv.into()).decrypt_padded_vec_mut::<Pkcs7>(data).ok()
}

/// Calls `fill_bytes` of `rand::rngs::OsRng` on a buffer of the given length.
#[verifier::external_body]
pub(crate) fn random_bytes(len: usize) -> (bytes: Vec<u8>)
    ensures
        bytes@.len() == len,
{
    let mut bytes = vec![0u8; len];
    rand::rngs::OsRng.fill_bytes(&mut bytes);
    bytes
}

/// Calls `p256::SecretKey::random`, which draws a scalar that has a public key.
#[verifier::external_body]
pub(crate) fn p256_random() -> (secret: [u8; 32])
    ensures
        p256_public(secret@) is Some,
{
    p256::SecretKey::random(&mut rand::rngs::OsRng).to_bytes().into()
}

/// Calls `public_key` of `p256::SecretKey`. Key agreement is symmetric: the
/// secret with another key's point gives what that key's secret gives with this
/// point.
#[verifier::external_body]
pub(crate) fn p256_public_point(secret: &[u8; 32]) -> (point: Option<([u8; 32], [u8; 32])>)
    ensures
        match point {
            Some((x, y)) => p256_public(secret@) == Some((x@, y@)),
            None => p256_public(secret@) is None,
        },
        point matches Some((x, y)) ==> forall|other: Seq<u8>|
            (#[trigger] p256_public(other)) matches Some((ox, oy)) ==> {
                &&& p256_shared(secret@, ox, oy) is Some
                &&& p256_shared(secret@, ox, oy) == p256_shared(other, x@, y@)
            },
{
    let key = p256::SecretKey::from_bytes(secret.into()).ok()?;
    let point = key.public_key().to_encoded_point(false);
    Some(((*point.x()?).into(), (*point.y()?).into()))
}

/// Calls `p256::ecdh::diffie_hellman` on a secret scalar and the point with the
/// given coordinates.
#[verifier::external_body]
pub(crate) fn p256_agree(secret: &[u8; 32], x: &[u8; 32], y: &[u8; 32]) -> (shared: Option<
    [u8; 32],
>)
    ensures
        match shared {
            Some(shared) => p256_shared(secret@, x@, y@) == Some(shared@),
            None => p256_shared(secret@, x@, y@) is None,
        },
{
    let key = p256::SecretKey::from_bytes(secret.into()).ok()?;
    let point = p256::EncodedPoint::from_affine_coordinates(x.into(), y.into(), false);
    let peer = p256::PublicKey::from_encoded_point(&point).into_option()?;
    let shared = p256::ecdh::diffie_hellman(key.to_nonzero_scalar(), peer.as_affine());
    Some((*shared.raw_secret_bytes()).into())
}

/// `blake3::Hasher`, which gathers bytes for a digest.
#[verifier::external_type_specification]
#[verifier::external_body]
pub struct ExHasher(blake3::Hasher);

/// The bytes that a hasher has gathered.
pub uninterp spec fn gathered(hasher: blake3::Hasher) -> Seq<u8>;

/// The BLAKE3 digest of the data.
pub uninterp spec fn blake3_of(data: Seq<u8>) -> Seq<u8>;

/// Calls `blake3::Hasher::new`.
#[verifier::external_body]
fn blake3_new() -> (hasher: blake3::Hasher)
    ensures
        gathered(hasher) == Seq::<u8>::empty(),
{
    blake3::Hasher::new()
}

/// Calls `blake3::Hasher::update`.
#[verifier::external_body]
fn blake3_update(hasher: &mut blake3::Hasher, data: &[u8])
    ensures
        gathered(*final(hasher)) == gathered(*old(hasher)) + data@,
{
    hasher.update(data);
}

/// Calls `blake3::Hasher::finalize`: the digest is that of all bytes gathered,
/// however they were cut.
#[verifier::external_body]
fn blake3_finalize(hasher: &blake3::Hasher) -> (digest: [u8; 32])
    ensures
        digest@ == blake3_of(gathered(*hasher)),
{
    *hasher.finalize().as_bytes()
}

/// The digest of a file that is read piece by piece.
pub struct FileDigest {
    hasher: blake3::Hasher,
}

impl FileDigest {
    /// The bytes that were read so far.
    pub closed spec fn data(&self) -> Seq<u8> {
        gathered(self.hasher)
    }

    pub fn new() -> (digest: Self)
        ensures
            digest.data() == Seq::<u8>::empty(),
    {
        FileDigest { hasher: blake3_new() }
    }

    /// Takes the next piece.
    pub fn update(&mut self, piece: &[u8])
        ensures
            final(self).data() == old(self).data() + piece@,
    {
        blake3_update(&mut self.hasher, piece);
    }

    /// The digest of the pieces in a row.
    pub fn finish(&self) -> (digest: [u8; 32])
        ensures
            digest@ == blake3_of(self.data()),
    {
        blake3_finalize(&self.hasher)
    }
}

} // verus!
