//! The transform layer: from a cleartext segment or body to the blob stored on
//! disk and back.
//!
//! A blob is a `~`-joined sequence of URL-safe base64 fields. The
//! deterministic scheme has two fields, `cipher~mac`, computed under the fixed
//! IV of the parameters, so identical cleartexts yield byte-identical blobs —
//! the invariant that lets directories be reused across writes. The randomized
//! scheme has three fields, `cipher~mac~iv`, computed under a fresh random IV
//! that is appended as the third field. The tag is the ciphertext re-encrypted
//! under the same key and IV — not a general-purpose MAC, preserved for
//! on-disk compatibility — and it is checked before any decryption is
//! attempted.

use crate::crypto::{
    aes256_cbc_decrypt, aes256_cbc_encrypt, aes_dec, aes_enc, b64_decode, b64_decoded, b64_encode,
    b64_encoded, bytes_to_string, random_iv,
};
use crate::errors::ErrorKind;
use crate::text::{
    lemma_split_at_sep, lemma_split_no_sep, slices_equal, split_on_char, split_spec,
};
use vstd::prelude::*;
use vstd::string::StringExecFns;
use vstd::utf8::{decode_utf8, encode_utf8, valid_utf8};

verus! {

/// The immutable parameters of every cryptographic transform: a 32-byte key
/// derived from the passphrase, and the fixed IV of the deterministic scheme.
pub struct EncryptionParams<'a> {
    pub key: &'a [u8],
    pub iv: &'a [u8],
}

impl<'a> EncryptionParams<'a> {
    /// The sizes AES-256-CBC demands of the key and the IV.
    pub open spec fn wf(self) -> bool {
        self.key@.len() == 32 && self.iv@.len() == 16
    }
}

/// The deterministic blob for a given key, IV and plaintext:
/// `base64url(cipher) ~ base64url(mac)`, where the mac is the ciphertext
/// re-encrypted under the same key and IV.
pub open spec fn det_blob(key: Seq<u8>, iv: Seq<u8>, pt: Seq<u8>) -> Seq<char> {
    b64_encoded(aes_enc(key, iv, pt)) + seq!['~'] + b64_encoded(
        aes_enc(key, iv, aes_enc(key, iv, pt)),
    )
}

/// The randomized blob for a given key, IV and plaintext: the deterministic
/// fields computed under that IV, plus the base64url of the IV itself as a
/// third field.
pub open spec fn rnd_blob(key: Seq<u8>, iv: Seq<u8>, pt: Seq<u8>) -> Seq<char> {
    det_blob(key, iv, pt) + seq!['~'] + b64_encoded(iv)
}

/// What deciphering decoded cipher and mac bytes under a given key and IV
/// returns: `AuthenticationFailed` when the recomputed tag differs from the
/// stored one (decryption is not attempted then), `DecryptFailed` when the tag
/// matches but the payload does not decrypt or does not decode as UTF-8, and
/// the cleartext otherwise.
pub open spec fn decipher_bytes(key: Seq<u8>, iv: Seq<u8>, ct: Seq<u8>, mac: Seq<u8>) -> Result<
    Seq<char>,
    ErrorKind,
> {
    if mac != aes_enc(key, iv, ct) {
        Err(ErrorKind::AuthenticationFailed)
    } else {
        match aes_dec(key, iv, ct) {
            Some(pt) => if valid_utf8(pt) {
                Ok(decode_utf8(pt))
            } else {
                Err(ErrorKind::DecryptFailed)
            },
            None => Err(ErrorKind::DecryptFailed),
        }
    }
}

/// Deciphering two base64 fields: `Malformed` when either field is not valid
/// base64, then as `decipher_bytes`.
pub open spec fn decipher_fields(
    key: Seq<u8>,
    iv: Seq<u8>,
    cipher_field: Seq<char>,
    mac_field: Seq<char>,
) -> Result<Seq<char>, ErrorKind> {
    match (b64_decoded(cipher_field), b64_decoded(mac_field)) {
        (Some(ct), Some(mac)) => decipher_bytes(key, iv, ct, mac),
        _ => Err(ErrorKind::Malformed),
    }
}

/// What deciphering a deterministic blob returns: `Malformed` unless the blob
/// splits on `~` into exactly two decodable fields, then as `decipher_bytes`
/// under the fixed IV.
pub open spec fn det_decipher(key: Seq<u8>, iv: Seq<u8>, blob: Seq<char>) -> Result<
    Seq<char>,
    ErrorKind,
> {
    let fields = split_spec(blob, '~');
    if fields.len() != 2 {
        Err(ErrorKind::Malformed)
    } else {
        decipher_fields(key, iv, fields[0], fields[1])
    }
}

/// What deciphering a randomized blob returns: `Malformed` unless the blob
/// splits on `~` into exactly three fields and the third decodes to a 16-byte
/// IV, then as `decipher_bytes` under that IV.
pub open spec fn rnd_decipher(key: Seq<u8>, blob: Seq<char>) -> Result<Seq<char>, ErrorKind> {
    let fields = split_spec(blob, '~');
    if fields.len() != 3 {
        Err(ErrorKind::Malformed)
    } else {
        match b64_decoded(fields[2]) {
            Some(iv) => if iv.len() == 16 {
                decipher_fields(key, iv, fields[0], fields[1])
            } else {
                Err(ErrorKind::Malformed)
            },
            None => Err(ErrorKind::Malformed),
        }
    }
}

/// Encipher one cleartext segment or body under the deterministic scheme.
///
/// The first clause pins the blob down as a function of key, IV and cleartext
/// alone — determinism. The second is the round trip: deciphering the blob
/// under the same parameters returns exactly the cleartext.
pub fn transform_entry(enc_params: &EncryptionParams, entry: &str) -> (r: String)
    requires
        enc_params.wf(),
    ensures
        r@ == det_blob(enc_params.key@, enc_params.iv@, encode_utf8(entry@)),
        det_decipher(enc_params.key@, enc_params.iv@, r@) == Ok::<Seq<char>, ErrorKind>(entry@),
{
    let ct = aes256_cbc_encrypt(enc_params.key, enc_params.iv, entry.as_bytes());
    let tag = aes256_cbc_encrypt(enc_params.key, enc_params.iv, ct.as_slice());
    let cipher_part = b64_encode(ct.as_slice());
    let mac_part = b64_encode(tag.as_slice());
    let mut content = cipher_part;
    let ghost cp = content@;
    content.append("~");
    content.append(mac_part.as_str());
    proof {
        reveal_strlit("~");
        assert("~"@ =~= seq!['~']);
        assert(content@ == cp + seq!['~'] + mac_part@);
        lemma_split_no_sep(mac_part@, '~');
        lemma_split_at_sep(cp, '~', mac_part@);
        let fields = split_spec(content@, '~');
        assert(fields =~= seq![cp, mac_part@]);
        vstd::utf8::encode_utf8_valid_utf8(entry@);
        vstd::utf8::encode_utf8_decode_utf8(entry@);
    }
    content
}

/// Encipher one cleartext body under the randomized scheme: a fresh 16-byte
/// IV from the OS entropy source, the deterministic construction under that
/// IV, and the IV appended as the third field.
///
/// Nothing is promised of which IV was drawn — only that some 16-byte IV
/// produced the blob — so two calls on the same cleartext need not agree; yet
/// every blob produced deciphers back to the cleartext.
pub fn transform_entry_with_random_iv(enc_params: &EncryptionParams, entry: &str) -> (r: String)
    requires
        enc_params.key@.len() == 32,
    ensures
        exists|iv: Seq<u8>|
            iv.len() == 16 && r@ == #[trigger] rnd_blob(enc_params.key@, iv, encode_utf8(entry@)),
        rnd_decipher(enc_params.key@, r@) == Ok::<Seq<char>, ErrorKind>(entry@),
{
    let iv = random_iv();
    let ct = aes256_cbc_encrypt(enc_params.key, iv.as_slice(), entry.as_bytes());
    let tag = aes256_cbc_encrypt(enc_params.key, iv.as_slice(), ct.as_slice());
    let cipher_part = b64_encode(ct.as_slice());
    let mac_part = b64_encode(tag.as_slice());
    let iv_part = b64_encode(iv.as_slice());
    let mut content = cipher_part;
    let ghost cp = content@;
    content.append("~");
    content.append(mac_part.as_str());
    content.append("~");
    content.append(iv_part.as_str());
    proof {
        reveal_strlit("~");
        assert("~"@ =~= seq!['~']);
        assert(content@ =~= cp + seq!['~'] + (mac_part@ + seq!['~'] + iv_part@));
        lemma_split_no_sep(iv_part@, '~');
        lemma_split_at_sep(mac_part@, '~', iv_part@);
        lemma_split_at_sep(cp, '~', mac_part@ + seq!['~'] + iv_part@);
        let fields = split_spec(content@, '~');
        assert(fields =~= seq![cp, mac_part@, iv_part@]);
        assert(content@ =~= rnd_blob(enc_params.key@, iv@, encode_utf8(entry@)));
        vstd::utf8::encode_utf8_valid_utf8(entry@);
        vstd::utf8::encode_utf8_decode_utf8(entry@);
    }
    content
}

/// Check the tag and decrypt decoded cipher and mac bytes; the verified core
/// shared by both decipher directions. The tag is recomputed from the stored
/// ciphertext and compared in full; on mismatch the function returns before
/// the decryption routine is ever invoked.
fn decipher_payload(key: &[u8], iv: &[u8], ct: &[u8], mac: &[u8]) -> (r: Result<String, ErrorKind>)
    requires
        key@.len() == 32,
        iv@.len() == 16,
    ensures
        match decipher_bytes(key@, iv@, ct@, mac@) {
            Ok(s) => r is Ok && r->Ok_0@ == s,
            Err(e) => r is Err && r->Err_0 == e,
        },
{
    let expected = aes256_cbc_encrypt(key, iv, ct);
    if !slices_equal(mac, expected.as_slice()) {
        return Err(ErrorKind::AuthenticationFailed);
    }
    match aes256_cbc_decrypt(key, iv, ct) {
        Some(pt) => {
            let ghost pt_view = pt@;
            match bytes_to_string(pt) {
                Some(s) => Ok(s),
                None => Err(ErrorKind::DecryptFailed),
            }
        },
        None => Err(ErrorKind::DecryptFailed),
    }
}

/// Decipher a deterministic two-field blob, reporting exactly what
/// `det_decipher` says for it.
pub fn retransform_entry(enc_params: &EncryptionParams, entry: &str) -> (r: Result<
    String,
    ErrorKind,
>)
    requires
        enc_params.wf(),
    ensures
        match det_decipher(enc_params.key@, enc_params.iv@, entry@) {
            Ok(s) => r is Ok && r->Ok_0@ == s,
            Err(e) => r is Err && r->Err_0 == e,
        },
{
    let parts = split_on_char(entry, '~');
    if parts.len() != 2 {
        return Err(ErrorKind::Malformed);
    }
    let ct = match b64_decode(parts[0].as_str()) {
        Some(v) => v,
        None => {
            return Err(ErrorKind::Malformed);
        },
    };
    let mac = match b64_decode(parts[1].as_str()) {
        Some(v) => v,
        None => {
            return Err(ErrorKind::Malformed);
        },
    };
    decipher_payload(enc_params.key, enc_params.iv, ct.as_slice(), mac.as_slice())
}

/// Decipher a randomized three-field blob, reporting exactly what
/// `rnd_decipher` says for it. The IV comes from the blob's third field and
/// must decode to 16 bytes, else the blob is malformed.
pub fn retransform_entry_with_random_iv(enc_params: &EncryptionParams, entry: &str) -> (r: Result<
    String,
    ErrorKind,
>)
    requires
        enc_params.key@.len() == 32,
    ensures
        match rnd_decipher(enc_params.key@, entry@) {
            Ok(s) => r is Ok && r->Ok_0@ == s,
            Err(e) => r is Err && r->Err_0 == e,
        },
{
    let parts = split_on_char(entry, '~');
    if parts.len() != 3 {
        return Err(ErrorKind::Malformed);
    }
    let iv = match b64_decode(parts[2].as_str()) {
        Some(v) => v,
        None => {
            return Err(ErrorKind::Malformed);
        },
    };
    if iv.len() != 16 {
        return Err(ErrorKind::Malformed);
    }
    let ct = match b64_decode(parts[0].as_str()) {
        Some(v) => v,
        None => {
            return Err(ErrorKind::Malformed);
        },
    };
    let mac = match b64_decode(parts[1].as_str()) {
        Some(v) => v,
        None => {
            return Err(ErrorKind::Malformed);
        },
    };
    decipher_payload(enc_params.key, iv.as_slice(), ct.as_slice(), mac.as_slice())
}

/// The blobs of a path's segments, in order.
pub open spec fn path_blobs(key: Seq<u8>, iv: Seq<u8>, segs: Seq<Seq<char>>) -> Seq<Seq<char>> {
    segs.map(|j: int, s: Seq<char>| det_blob(key, iv, encode_utf8(s)))
}

/// Encipher a cleartext path: split on `/` and encipher every segment
/// independently under the deterministic scheme, in order, so that segment
/// identity is stable across separate operations on the same logical path.
pub fn transform_path(enc_params: &EncryptionParams, path: &str) -> (r: Vec<String>)
    requires
        enc_params.wf(),
    ensures
        r.deep_view() == path_blobs(enc_params.key@, enc_params.iv@, split_spec(path@, '/')),
        r@.len() == split_spec(path@, '/').len(),
{
    let parts = split_on_char(path, '/');
    let ghost segs = parts.deep_view();
    let mut r: Vec<String> = Vec::new();
    let mut i: usize = 0;
    while i < parts.len()
        invariant
            segs == parts.deep_view(),
            segs == split_spec(path@, '/'),
            enc_params.wf(),
            0 <= i <= parts@.len(),
            parts@.len() == segs.len(),
            r@.len() == i,
            r.deep_view() =~= path_blobs(enc_params.key@, enc_params.iv@, segs.take(i as int)),
        decreases parts@.len() - i,
    {
        let blob = transform_entry(enc_params, parts[i].as_str());
        let ghost dv0 = r.deep_view();
        r.push(blob);
        proof {
            assert(r.deep_view() =~= dv0.push(blob@));
            assert(segs.take(i as int + 1) =~= segs.take(i as int).push(segs[i as int]));
            assert(r.deep_view() =~= path_blobs(
                enc_params.key@,
                enc_params.iv@,
                segs.take(i as int + 1),
            ));
        }
        i += 1;
    }
    proof {
        assert(segs.take(segs.len() as int) =~= segs);
    }
    r
}

/// What deciphering an ordered sequence of segment blobs returns: each blob
/// deciphered under the deterministic scheme, in order, the first failure
/// aborting the whole path.
pub open spec fn unpath_model(key: Seq<u8>, iv: Seq<u8>, blobs: Seq<Seq<char>>) -> Result<
    Seq<Seq<char>>,
    ErrorKind,
>
    decreases blobs,
{
    if blobs.len() == 0 {
        Ok(Seq::empty())
    } else {
        match det_decipher(key, iv, blobs[0]) {
            Ok(s) => match unpath_model(key, iv, blobs.drop_first()) {
                Ok(rest) => Ok(seq![s] + rest),
                Err(e) => Err(e),
            },
            Err(e) => Err(e),
        }
    }
}

proof fn lemma_unpath_model_skip(key: Seq<u8>, iv: Seq<u8>, blobs: Seq<Seq<char>>, i: int)
    requires
        0 <= i < blobs.len(),
    ensures
        unpath_model(key, iv, blobs.skip(i)) == (match det_decipher(key, iv, blobs[i]) {
            Ok(s) => match unpath_model(key, iv, blobs.skip(i + 1)) {
                Ok(rest) => Ok::<Seq<Seq<char>>, ErrorKind>(seq![s] + rest),
                Err(e) => Err(e),
            },
            Err(e) => Err(e),
        }),
{
    assert(blobs.skip(i).len() > 0);
    assert(blobs.skip(i)[0] == blobs[i]);
    assert(blobs.skip(i).drop_first() =~= blobs.skip(i + 1));
}

/// Decipher an ordered sequence of segment blobs back to the cleartext
/// segments, in order — the inverse of `transform_path` — all-or-nothing,
/// exactly as `unpath_model` says.
#[verifier::loop_isolation(false)]
pub fn retransform_path(enc_params: &EncryptionParams, blobs: &Vec<String>) -> (r: Result<
    Vec<String>,
    ErrorKind,
>)
    requires
        enc_params.wf(),
    ensures
        match unpath_model(enc_params.key@, enc_params.iv@, blobs.deep_view()) {
            Ok(segs) => r is Ok && (r->Ok_0).deep_view() == segs,
            Err(e) => r is Err && r->Err_0 == e,
        },
{
    let ghost key = enc_params.key@;
    let ghost iv = enc_params.iv@;
    let ghost bvs = blobs.deep_view();
    let mut segs: Vec<String> = Vec::new();
    let mut i: usize = 0;
    proof {
        assert(bvs.skip(0) =~= bvs);
        assert(segs.deep_view() =~= Seq::<Seq<char>>::empty());
    }
    while i < blobs.len()
        invariant
            0 <= i <= blobs@.len(),
            bvs.len() == blobs@.len(),
            unpath_model(key, iv, bvs) == (match unpath_model(key, iv, bvs.skip(i as int)) {
                Ok(rest) => Ok::<Seq<Seq<char>>, ErrorKind>(segs.deep_view() + rest),
                Err(e) => Err(e),
            }),
        decreases blobs@.len() - i,
    {
        proof {
            lemma_unpath_model_skip(key, iv, bvs, i as int);
        }
        match retransform_entry(enc_params, blobs[i].as_str()) {
            Ok(s) => {
                let ghost s0 = segs.deep_view();
                let ghost sv = s@;
                segs.push(s);
                proof {
                    assert(segs.deep_view() =~= s0.push(sv));
                    if unpath_model(key, iv, bvs.skip(i as int + 1)) is Ok {
                        let rest = unpath_model(key, iv, bvs.skip(i as int + 1))->Ok_0;
                        assert(s0 + (seq![sv] + rest) =~= segs.deep_view() + rest);
                    }
                }
            },
            Err(e) => {
                return Err(e);
            },
        }
        i += 1;
    }
    proof {
        assert(bvs.skip(bvs.len() as int) =~= Seq::<Seq<char>>::empty());
        assert(segs.deep_view() + Seq::<Seq<char>>::empty() =~= segs.deep_view());
    }
    Ok(segs)
}

/// Law: the deterministic scheme is a pure function of key, IV and cleartext —
/// two calls of `transform_entry` on the same parameters and cleartext yield
/// byte-identical blobs, since each equals `det_blob` of the inputs.
pub proof fn lemma_deterministic_blob(
    key: Seq<u8>,
    iv: Seq<u8>,
    pt: Seq<u8>,
    r1: Seq<char>,
    r2: Seq<char>,
)
    requires
        r1 == det_blob(key, iv, pt),
        r2 == det_blob(key, iv, pt),
    ensures
        r1 == r2,
{
}

/// Law: a blob that does not split on `~` into exactly two fields deciphers to
/// `Malformed` under the deterministic scheme, before any field is decoded.
pub proof fn lemma_det_wrong_arity(key: Seq<u8>, iv: Seq<u8>, blob: Seq<char>)
    requires
        split_spec(blob, '~').len() != 2,
    ensures
        det_decipher(key, iv, blob) == Err::<Seq<char>, ErrorKind>(ErrorKind::Malformed),
{
}

/// Law: a blob that does not split on `~` into exactly three fields deciphers
/// to `Malformed` under the randomized scheme, before any field is decoded.
pub proof fn lemma_rnd_wrong_arity(key: Seq<u8>, blob: Seq<char>)
    requires
        split_spec(blob, '~').len() != 3,
    ensures
        rnd_decipher(key, blob) == Err::<Seq<char>, ErrorKind>(ErrorKind::Malformed),
{
}

/// Law: on a well-formed two-field blob whose stored tag differs from the tag
/// recomputed over the stored ciphertext, deciphering reports
/// `AuthenticationFailed` — and by `decipher_bytes`, the decryption routine is
/// never consulted in that case.
pub proof fn lemma_tag_mismatch_detected(key: Seq<u8>, iv: Seq<u8>, blob: Seq<char>)
    requires
        split_spec(blob, '~').len() == 2,
        b64_decoded(split_spec(blob, '~')[0]) is Some,
        b64_decoded(split_spec(blob, '~')[1]) is Some,
        b64_decoded(split_spec(blob, '~')[1])->0 != aes_enc(
            key,
            iv,
            b64_decoded(split_spec(blob, '~')[0])->0,
        ),
    ensures
        det_decipher(key, iv, blob) == Err::<Seq<char>, ErrorKind>(
            ErrorKind::AuthenticationFailed,
        ),
{
}

} // verus!
