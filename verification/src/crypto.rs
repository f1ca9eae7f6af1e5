//! The cryptographic primitives the store is built on, behind trusted
//! wrappers: AES-256-CBC encryption and decryption, URL-safe base64, SHA-256
//! key derivation, and an OS entropy source for fresh IVs.
//!
//! The wrappers give each outside computation a name (`aes_enc`, `b64_encoded`,
//! ...) and state only what the outside crate's own documentation promises;
//! everything built on top of them is verified against those names.

use vstd::prelude::*;
use vstd::utf8::{decode_utf8, valid_utf8};

verus! {

/// What `openssl::symm::encrypt` with `Cipher::aes_256_cbc` returns for a
/// given key, IV and plaintext (PKCS#7 padding; a pure function of its
/// arguments).
pub uninterp spec fn aes_enc(key: Seq<u8>, iv: Seq<u8>, data: Seq<u8>) -> Seq<u8>;

/// What `openssl::symm::decrypt` with `Cipher::aes_256_cbc` returns for a
/// given key, IV and ciphertext: `None` when the padding check fails.
pub uninterp spec fn aes_dec(key: Seq<u8>, iv: Seq<u8>, data: Seq<u8>) -> Option<Seq<u8>>;

/// What `base64::encode_config` with `base64::URL_SAFE` returns for given
/// bytes.
pub uninterp spec fn b64_encoded(data: Seq<u8>) -> Seq<char>;

/// What `base64::decode_config` with `base64::URL_SAFE` returns for a given
/// string: `None` when the string is not valid padded URL-safe base64.
pub uninterp spec fn b64_decoded(text: Seq<char>) -> Option<Seq<u8>>;

/// What `openssl::sha::sha256` returns for given bytes.
pub uninterp spec fn sha256_digest(data: Seq<u8>) -> Seq<u8>;

/// Relies on `openssl::symm::encrypt` with `Cipher::aes_256_cbc`: encryption
/// is a pure function of key, IV and plaintext, it never fails for a 32-byte
/// key and a 16-byte IV, and `openssl::symm::decrypt` under the same key and
/// IV recovers exactly the plaintext (PKCS#7 padding round-trips).
#[verifier::external_body]
pub(crate) fn aes256_cbc_encrypt(key: &[u8], iv: &[u8], data: &[u8]) -> (r: Vec<u8>)
    requires
        key@.len() == 32,
        iv@.len() == 16,
    ensures
        r@ == aes_enc(key@, iv@, data@),
        aes_dec(key@, iv@, r@) == Some(data@),
{
    openssl::symm::encrypt(openssl::symm::Cipher::aes_256_cbc(), key, Some(iv), data)
        .expect("AES-256-CBC encryption with well-sized key and IV cannot fail")
}

/// Relies on `openssl::symm::decrypt` with `Cipher::aes_256_cbc`: decryption
/// is a pure function of key, IV and ciphertext, and reports failure (bad
/// padding) instead of panicking for a 32-byte key and a 16-byte IV.
#[verifier::external_body]
pub(crate) fn aes256_cbc_decrypt(key: &[u8], iv: &[u8], data: &[u8]) -> (r: Option<Vec<u8>>)
    requires
        key@.len() == 32,
        iv@.len() == 16,
    ensures
        match r {
            Some(v) => aes_dec(key@, iv@, data@) == Some(v@),
            None => aes_dec(key@, iv@, data@) is None,
        },
{
    match openssl::symm::decrypt(openssl::symm::Cipher::aes_256_cbc(), key, Some(iv), data) {
        Ok(v) => Some(v),
        Err(_) => None,
    }
}

/// Relies on `base64::encode_config` with `base64::URL_SAFE`: the encoding is
/// a pure function of the input, decoding it returns the input, and the
/// output draws only on `A`-`Z`, `a`-`z`, `0`-`9`, `-`, `_` and `=`, so it
/// never contains the field delimiter `~`.
#[verifier::external_body]
pub(crate) fn b64_encode(data: &[u8]) -> (r: String)
    ensures
        r@ == b64_encoded(data@),
        b64_decoded(r@) == Some(data@),
        forall|i: int| 0 <= i < r@.len() ==> r@[i] != '~',
{
    base64::encode_config(data, base64::URL_SAFE)
}

/// Relies on `base64::decode_config` with `base64::URL_SAFE`: decoding is a
/// pure function of the input and reports invalid base64 instead of
/// panicking.
#[verifier::external_body]
pub(crate) fn b64_decode(text: &str) -> (r: Option<Vec<u8>>)
    ensures
        match r {
            Some(v) => b64_decoded(text@) == Some(v@),
            None => b64_decoded(text@) is None,
        },
{
    match base64::decode_config(text, base64::URL_SAFE) {
        Ok(v) => Some(v),
        Err(_) => None,
    }
}

/// Relies on `openssl::rand::rand_bytes`: it fills the buffer with
/// cryptographically strong random bytes. Nothing is assumed about the values
/// drawn, only the length of the buffer.
#[verifier::external_body]
pub(crate) fn random_iv() -> (r: Vec<u8>)
    ensures
        r@.len() == 16,
{
    let mut buf = vec![0u8; 16];
    openssl::rand::rand_bytes(&mut buf).expect("entropy source failure");
    buf
}

/// Relies on `openssl::sha::sha256`: the digest is a pure function of the
/// input and is 32 bytes long.
#[verifier::external_body]
pub(crate) fn sha256_bytes(data: &[u8]) -> (r: Vec<u8>)
    ensures
        r@ == sha256_digest(data@),
        r@.len() == 32,
{
    openssl::sha::sha256(data).to_vec()
}

/// Relies on `String::from_utf8`: it succeeds exactly on valid UTF-8 and
/// returns the decoded string unchanged.
#[verifier::external_body]
pub(crate) fn bytes_to_string(data: Vec<u8>) -> (r: Option<String>)
    ensures
        r is Some <==> valid_utf8(data@),
        r is Some ==> r->0@ == decode_utf8(data@),
{
    match String::from_utf8(data) {
        Ok(s) => Some(s),
        Err(_) => None,
    }
}

/// Derive the store key from a passphrase: its one-way SHA-256 hash, 32 bytes,
/// with no salt and no stretching.
pub fn derive_key(passphrase: &str) -> (r: Vec<u8>)
    ensures
        r@ == sha256_digest(vstd::utf8::encode_utf8(passphrase@)),
        r@.len() == 32,
{
    sha256_bytes(passphrase.as_bytes())
}

/// The fixed IV of the deterministic scheme.
pub open spec fn default_iv_spec() -> Seq<u8> {
    seq![0u8, 1u8, 2u8, 3u8, 4u8, 5u8, 6u8, 7u8, 0u8, 1u8, 2u8, 3u8, 4u8, 5u8, 6u8, 7u8]
}

/// The fixed IV used for path segments, so that identical cleartext segments
/// always produce byte-identical blobs.
pub fn default_iv() -> (r: Vec<u8>)
    ensures
        r@ == default_iv_spec(),
{
    let r = vec![0u8, 1u8, 2u8, 3u8, 4u8, 5u8, 6u8, 7u8, 0u8, 1u8, 2u8, 3u8, 4u8, 5u8, 6u8, 7u8];
    proof {
        assert(r@ =~= default_iv_spec());
    }
    r
}

} // verus!
