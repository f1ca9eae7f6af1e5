use sparkpass::crypto::{default_iv, derive_key};
use sparkpass::errors::ErrorKind;
use sparkpass::transform::{
    retransform_entry, retransform_entry_with_random_iv, retransform_path, transform_entry,
    transform_entry_with_random_iv, transform_path, EncryptionParams,
};

fn key_for(passphrase: &str) -> Vec<u8> {
    derive_key(passphrase)
}

#[test]
fn derive_key_is_sha256() {
    // SHA-256("abc") is a published test vector.
    let key = derive_key("abc");
    assert_eq!(key.len(), 32);
    assert_eq!(key[0], 0xba);
    assert_eq!(key[1], 0x78);
    assert_eq!(key[2], 0x16);
    assert_eq!(key[3], 0xbf);
    assert_eq!(key[31], 0xad);
}

#[test]
fn default_iv_bytes() {
    let iv = default_iv();
    assert_eq!(iv, vec![0u8, 1, 2, 3, 4, 5, 6, 7, 0, 1, 2, 3, 4, 5, 6, 7]);
}

#[test]
fn deterministic_round_trip() {
    let key = key_for("round trip key");
    let iv = default_iv();
    let params = EncryptionParams {
        key: &key,
        iv: &iv,
    };
    for s in ["", "a", "hello world", "Sönderzeichen üß", "name.with-punct_chars"] {
        let blob = transform_entry(&params, s);
        assert_eq!(retransform_entry(&params, &blob), Ok(s.to_string()));
    }
}

#[test]
fn randomized_round_trip() {
    let key = key_for("round trip key");
    let iv = default_iv();
    let params = EncryptionParams {
        key: &key,
        iv: &iv,
    };
    for s in ["", "a", "secret body", "multi\nline\ncontent"] {
        let blob = transform_entry_with_random_iv(&params, s);
        assert_eq!(retransform_entry_with_random_iv(&params, &blob), Ok(s.to_string()));
    }
}

#[test]
fn deterministic_blobs_are_identical() {
    let key = key_for("determinism");
    let iv = default_iv();
    let params = EncryptionParams {
        key: &key,
        iv: &iv,
    };
    let one = transform_entry(&params, "email");
    let two = transform_entry(&params, "email");
    assert_eq!(one, two);
}

#[test]
fn randomized_blobs_differ_yet_both_decipher() {
    let key = key_for("randomness");
    let iv = default_iv();
    let params = EncryptionParams {
        key: &key,
        iv: &iv,
    };
    let one = transform_entry_with_random_iv(&params, "body");
    let two = transform_entry_with_random_iv(&params, "body");
    assert_ne!(one, two);
    let f1: Vec<&str> = one.split('~').collect();
    let f2: Vec<&str> = two.split('~').collect();
    assert_eq!(f1.len(), 3);
    assert_eq!(f2.len(), 3);
    assert_ne!(f1[0], f2[0]);
    assert_ne!(f1[1], f2[1]);
    assert_ne!(f1[2], f2[2]);
    assert_eq!(retransform_entry_with_random_iv(&params, &one), Ok("body".to_string()));
    assert_eq!(retransform_entry_with_random_iv(&params, &two), Ok("body".to_string()));
}

#[test]
fn blob_shape_is_two_base64_fields() {
    let key = key_for("shape");
    let iv = default_iv();
    let params = EncryptionParams {
        key: &key,
        iv: &iv,
    };
    let blob = transform_entry(&params, "ab");
    let fields: Vec<&str> = blob.split('~').collect();
    assert_eq!(fields.len(), 2);
    // One AES block of ciphertext, two of the re-encrypted tag.
    let cipher = base64::decode_config(fields[0], base64::URL_SAFE).unwrap();
    let mac = base64::decode_config(fields[1], base64::URL_SAFE).unwrap();
    assert_eq!(cipher.len(), 16);
    assert_eq!(mac.len(), 32);
    // The ciphertext is not the cleartext.
    assert_ne!(cipher.as_slice(), "ab".as_bytes());
}

#[test]
fn randomized_blob_has_sixteen_byte_iv_field() {
    let key = key_for("shape");
    let iv = default_iv();
    let params = EncryptionParams {
        key: &key,
        iv: &iv,
    };
    let blob = transform_entry_with_random_iv(&params, "ab");
    let fields: Vec<&str> = blob.split('~').collect();
    assert_eq!(fields.len(), 3);
    let iv_bytes = base64::decode_config(fields[2], base64::URL_SAFE).unwrap();
    assert_eq!(iv_bytes.len(), 16);
}

fn flip_bit_in_field(blob: &str, field_idx: usize, byte_idx: usize, bit: u8) -> String {
    let parts: Vec<&str> = blob.split('~').collect();
    let mut bytes = base64::decode_config(parts[field_idx], base64::URL_SAFE).unwrap();
    bytes[byte_idx] ^= 1 << bit;
    let mut fields: Vec<String> = parts.iter().map(|p| p.to_string()).collect();
    fields[field_idx] = base64::encode_config(&bytes, base64::URL_SAFE);
    fields.join("~")
}

#[test]
fn tamper_with_cipher_field_fails_authentication() {
    let key = key_for("tamper");
    let iv = default_iv();
    let params = EncryptionParams {
        key: &key,
        iv: &iv,
    };
    let blob = transform_entry(&params, "pw");
    let cipher_len = base64::decode_config(blob.split('~').next().unwrap(), base64::URL_SAFE)
        .unwrap()
        .len();
    for byte_idx in 0..cipher_len {
        for bit in 0..8 {
            let tampered = flip_bit_in_field(&blob, 0, byte_idx, bit);
            assert_eq!(
                retransform_entry(&params, &tampered),
                Err(ErrorKind::AuthenticationFailed)
            );
        }
    }
}

#[test]
fn tamper_with_mac_field_fails_authentication() {
    let key = key_for("tamper");
    let iv = default_iv();
    let params = EncryptionParams {
        key: &key,
        iv: &iv,
    };
    let blob = transform_entry(&params, "pw");
    let mac_len = base64::decode_config(blob.split('~').nth(1).unwrap(), base64::URL_SAFE)
        .unwrap()
        .len();
    for byte_idx in 0..mac_len {
        for bit in 0..8 {
            let tampered = flip_bit_in_field(&blob, 1, byte_idx, bit);
            assert_eq!(
                retransform_entry(&params, &tampered),
                Err(ErrorKind::AuthenticationFailed)
            );
        }
    }
}

#[test]
fn wrong_key_fails_authentication() {
    let key = key_for("right key");
    let other = key_for("wrong key");
    let iv = default_iv();
    let params = EncryptionParams {
        key: &key,
        iv: &iv,
    };
    let wrong = EncryptionParams {
        key: &other,
        iv: &iv,
    };
    let blob = transform_entry(&params, "secret");
    assert_eq!(retransform_entry(&wrong, &blob), Err(ErrorKind::AuthenticationFailed));
}

#[test]
fn wrong_arity_is_malformed() {
    let key = key_for("arity");
    let iv = default_iv();
    let params = EncryptionParams {
        key: &key,
        iv: &iv,
    };
    // Deterministic scheme wants exactly two fields.
    assert_eq!(retransform_entry(&params, "onlyonefield"), Err(ErrorKind::Malformed));
    assert_eq!(retransform_entry(&params, "a~b~c"), Err(ErrorKind::Malformed));
    assert_eq!(retransform_entry(&params, "a~b~c~d"), Err(ErrorKind::Malformed));
    // Randomized scheme wants exactly three.
    assert_eq!(
        retransform_entry_with_random_iv(&params, "a~b"),
        Err(ErrorKind::Malformed)
    );
    assert_eq!(
        retransform_entry_with_random_iv(&params, "a~b~c~d"),
        Err(ErrorKind::Malformed)
    );
}

#[test]
fn invalid_base64_field_is_malformed() {
    let key = key_for("arity");
    let iv = default_iv();
    let params = EncryptionParams {
        key: &key,
        iv: &iv,
    };
    assert_eq!(retransform_entry(&params, "!!!~???"), Err(ErrorKind::Malformed));
    let good = transform_entry(&params, "x");
    let fields: Vec<&str> = good.split('~').collect();
    let bad = format!("{}~{}", "not*base64", fields[1]);
    assert_eq!(retransform_entry(&params, &bad), Err(ErrorKind::Malformed));
}

#[test]
fn short_iv_field_is_malformed() {
    let key = key_for("ivlen");
    let iv = default_iv();
    let params = EncryptionParams {
        key: &key,
        iv: &iv,
    };
    let blob = transform_entry_with_random_iv(&params, "x");
    let fields: Vec<&str> = blob.split('~').collect();
    let short_iv = base64::encode_config(&[0u8; 4], base64::URL_SAFE);
    let bad = format!("{}~{}~{}", fields[0], fields[1], short_iv);
    assert_eq!(retransform_entry_with_random_iv(&params, &bad), Err(ErrorKind::Malformed));
}

fn forge_blob(key: &[u8], iv: &[u8], ciphertext: &[u8]) -> String {
    // A blob whose tag is honestly computed over the given ciphertext, so
    // authentication passes whatever the payload holds.
    let cipher = openssl::symm::Cipher::aes_256_cbc();
    let mac = openssl::symm::encrypt(cipher, key, Some(iv), ciphertext).unwrap();
    format!(
        "{}~{}",
        base64::encode_config(ciphertext, base64::URL_SAFE),
        base64::encode_config(&mac, base64::URL_SAFE)
    )
}

#[test]
fn undecryptable_payload_with_valid_tag_is_decrypt_failed() {
    let key = key_for("decrypt failure");
    let iv = default_iv();
    let params = EncryptionParams {
        key: &key,
        iv: &iv,
    };
    // Fifteen bytes are no whole cipher block: the tag matches, decryption
    // cannot.
    let blob = forge_blob(&key, &iv, &[7u8; 15]);
    assert_eq!(retransform_entry(&params, &blob), Err(ErrorKind::DecryptFailed));
}

#[test]
fn non_utf8_plaintext_with_valid_tag_is_decrypt_failed() {
    let key = key_for("decrypt failure");
    let iv = default_iv();
    let params = EncryptionParams {
        key: &key,
        iv: &iv,
    };
    // A properly enciphered payload that is not UTF-8 cleartext.
    let cipher = openssl::symm::Cipher::aes_256_cbc();
    let ct = openssl::symm::encrypt(cipher, &key, Some(&iv), &[0xff, 0xfe, 0x80]).unwrap();
    let blob = forge_blob(&key, &iv, &ct);
    assert_eq!(retransform_entry(&params, &blob), Err(ErrorKind::DecryptFailed));
}

#[test]
fn transform_path_enciphers_each_segment() {
    let key = key_for("paths");
    let iv = default_iv();
    let params = EncryptionParams {
        key: &key,
        iv: &iv,
    };
    let blobs = transform_path(&params, "a/b/c");
    assert_eq!(blobs.len(), 3);
    assert_eq!(blobs[0], transform_entry(&params, "a"));
    assert_eq!(blobs[1], transform_entry(&params, "b"));
    assert_eq!(blobs[2], transform_entry(&params, "c"));
    assert_eq!(retransform_entry(&params, &blobs[1]), Ok("b".to_string()));
    // A path without slashes is a single segment.
    let single = transform_path(&params, "alone");
    assert_eq!(single.len(), 1);
    assert_eq!(single[0], transform_entry(&params, "alone"));
}

#[test]
fn path_round_trip() {
    let key = derive_key("paths");
    let iv = default_iv();
    let params = EncryptionParams {
        key: &key,
        iv: &iv,
    };
    let blobs = transform_path(&params, "mail/provider/account");
    let segs = retransform_path(&params, &blobs).unwrap();
    assert_eq!(
        segs,
        vec!["mail".to_string(), "provider".to_string(), "account".to_string()]
    );
}

#[test]
fn path_decipher_aborts_on_bad_segment() {
    let key = derive_key("paths");
    let iv = default_iv();
    let params = EncryptionParams {
        key: &key,
        iv: &iv,
    };
    let mut blobs = transform_path(&params, "a/b");
    blobs.push("bogus".to_string());
    assert_eq!(retransform_path(&params, &blobs).unwrap_err(), ErrorKind::Malformed);
}

#[test]
fn error_messages_name_each_kind() {
    assert_eq!(ErrorKind::NotFound.message(), "Entry does not exist");
    assert_eq!(ErrorKind::IsDirectory.message(), "Entry is a directory");
    assert_eq!(ErrorKind::EntryExists.message(), "Entry already exists");
    assert_eq!(ErrorKind::Malformed.message(), "Malformed entry");
    assert_eq!(
        ErrorKind::AuthenticationFailed.message(),
        "Mac did not match with calculated mac. Key is probably wrong or data was corrupted"
    );
    assert_eq!(ErrorKind::DecryptFailed.message(), "Could not decrypt. Is the key correct?");
    assert_eq!(ErrorKind::IoError.message(), "An error occurred during a file operation");
    assert_eq!(ErrorKind::NoKey.message(), "No key given");
}
