use burrito::codec::canonical_bytes;
use burrito::error::Error;
use burrito::metadata::Metadata;
use burrito::providers::sensitive_text::SensitiveText;
use burrito::record::{Binary, Record, Value};
use burrito::signing::{Signing, SECURITY_PADDING};
use burrito::value::SENSITIVE;
use dryoc::auth::Auth;
use dryoc::sign::{SignedMessage, SigningKeyPair};

fn sample() -> Record {
    let mut record = Record::new();
    record.insert("plaintext", Value::Text("Hello World!".to_string()));
    record.insert("count", Value::Int64(3));
    record
}

fn bytes_of(record: &Record, name: &str) -> Vec<u8> {
    match record.get(name) {
        Some(Value::Binary(binary)) => {
            assert_eq!(binary.subtype, SENSITIVE);
            binary.bytes.clone()
        }
        other => panic!("no binary under {}: {:?}", name, other),
    }
}

fn signing_key() -> [u8; 64] {
    SigningKeyPair::<[u8; 32], [u8; 64]>::from_seed(&[5u8; 32]).secret_key
}

#[test]
fn symmetric_signature_is_the_mac_of_the_canonical_bytes() {
    let key = [3u8; 32];
    let signed = sample().sign_sym_at(key, 42).expect("sign");
    assert_eq!(signed.get("modified"), Some(&Value::Timestamp(42)));
    let tag = bytes_of(&signed, "signature_sym");
    assert_eq!(tag.len(), 32);

    let mut message = sample();
    message.insert("modified", Value::Timestamp(42));
    let bytes = canonical_bytes(&message).expect("bytes");
    let expected: Vec<u8> = Auth::compute_to_vec(&key, bytes.as_slice());
    assert_eq!(tag, expected);
    assert_eq!(signed.clone().verify_sym(key), Ok(signed.clone()));
}

#[test]
fn signatures_do_not_depend_on_the_order_of_insertion() {
    let mut one = Record::new();
    one.insert("a", Value::Int32(1));
    one.insert("b", Value::Text("x".to_string()));
    one.insert("c", Value::Bool(true));
    let mut two = Record::new();
    two.insert("c", Value::Bool(true));
    two.insert("a", Value::Int32(1));
    two.insert("b", Value::Text("x".to_string()));
    assert_ne!(one, two);
    assert_eq!(canonical_bytes(&one).unwrap(), canonical_bytes(&two).unwrap());

    let key = [1u8; 32];
    let first = one.clone().sign_sym_at(key, 7).expect("sign");
    let second = two.clone().sign_sym_at(key, 7).expect("sign");
    assert_eq!(first.get("signature_sym"), second.get("signature_sym"));

    let secret = signing_key();
    let first = one.clone().sign_at(secret, 7).expect("sign");
    let second = two.clone().sign_at(secret, 7).expect("sign");
    assert_eq!(first.get("signature"), second.get("signature"));
    let first = one.with_security_at(secret, 7).expect("attest");
    let second = two.with_security_at(secret, 7).expect("attest");
    assert_eq!(first.get("assumed_secure"), second.get("assumed_secure"));
}

#[test]
fn symmetric_verification_fails_on_any_change() {
    let key = [3u8; 32];
    let signed = sample().sign_sym_at(key, 42).expect("sign");

    assert_eq!(signed.clone().verify_sym([4u8; 32]), Err(Error::SignatureInvalid));

    let mut changed = signed.clone();
    changed.insert("count", Value::Int64(4));
    assert_eq!(changed.verify_sym(key), Err(Error::SignatureInvalid));

    let mut added = signed.clone();
    added.insert("extra", Value::Bool(false));
    assert_eq!(added.verify_sym(key), Err(Error::SignatureInvalid));

    let mut tag = bytes_of(&signed, "signature_sym");
    for bit in [0usize, 100, 255] {
        tag[bit / 8] ^= 1 << (bit % 8);
        let mut forged = signed.clone();
        forged.insert("signature_sym", Value::Binary(Binary { subtype: SENSITIVE, bytes: tag.clone() }));
        assert_eq!(forged.verify_sym(key), Err(Error::SignatureInvalid));
        tag[bit / 8] ^= 1 << (bit % 8);
    }

    let mut short = signed.clone();
    tag.pop();
    short.insert("signature_sym", Value::Binary(Binary { subtype: SENSITIVE, bytes: tag }));
    assert_eq!(short.verify_sym(key), Err(Error::SignatureInvalid));
}

#[test]
fn missing_signatures_are_reported() {
    let key = [3u8; 32];
    assert_eq!(sample().verify_sym(key), Err(Error::MissingSignature));
    assert_eq!(sample().verify(), Err(Error::MissingSignature));
    assert_eq!(sample().verify_with([0u8; 32]), Err(Error::MissingSignature));

    let mut not_binary = sample();
    not_binary.insert("signature_sym", Value::Text("tag".to_string()));
    assert_eq!(not_binary.verify_sym(key), Err(Error::MissingSignature));

    // the key is there, the signature is not
    let signed = sample().sign_at(signing_key(), 1).expect("sign");
    let mut stripped = signed.clone();
    stripped.remove("signature");
    assert_eq!(stripped.verify(), Err(Error::MissingSignature));
    let mut keyless = signed;
    keyless.remove("signing_public_key");
    assert_eq!(keyless.verify(), Err(Error::MissingSignature));
}

#[test]
fn signature_is_made_by_the_secret_key_over_the_canonical_bytes() {
    let pair = SigningKeyPair::<[u8; 32], [u8; 64]>::from_seed(&[5u8; 32]);
    let signed = sample().sign_at(pair.secret_key, 9).expect("sign");
    assert_eq!(signed.get("modified"), Some(&Value::Timestamp(9)));
    assert_eq!(bytes_of(&signed, "signing_public_key"), pair.public_key.to_vec());
    assert_eq!(bytes_of(&signed, "signing_public_key").len(), 32);
    assert_eq!(bytes_of(&signed, "signature").len(), 64);

    let mut message = signed.clone();
    message.remove("signature");
    let bytes = canonical_bytes(&message).expect("bytes");
    let mut signature = [0u8; 64];
    signature.copy_from_slice(&bytes_of(&signed, "signature"));
    let checked = SignedMessage::<[u8; 64], Vec<u8>>::from_parts(signature, bytes);
    assert!(checked.verify(&pair.public_key).is_ok());

    assert_eq!(signed.clone().verify(), Ok(signed.clone()));
    assert_eq!(signed.clone().verify_with(pair.public_key), Ok(signed.clone()));
    let other = SigningKeyPair::<[u8; 32], [u8; 64]>::from_seed(&[6u8; 32]);
    assert_eq!(signed.verify_with(other.public_key), Err(Error::SignatureInvalid));
}

#[test]
fn signature_verification_fails_on_any_change() {
    let signed = sample().sign_at(signing_key(), 9).expect("sign");

    let mut changed = signed.clone();
    changed.insert("plaintext", Value::Text("Hello World?".to_string()));
    assert_eq!(changed.verify(), Err(Error::SignatureInvalid));

    let mut signature = bytes_of(&signed, "signature");
    signature[10] ^= 0x40;
    let mut forged = signed.clone();
    forged.insert("signature", Value::Binary(Binary { subtype: SENSITIVE, bytes: signature.clone() }));
    assert_eq!(forged.verify(), Err(Error::SignatureInvalid));

    signature.truncate(63);
    let mut short = signed.clone();
    short.insert("signature", Value::Binary(Binary { subtype: SENSITIVE, bytes: signature }));
    assert_eq!(short.verify(), Err(Error::SignatureInvalid));

    let mut bad_key = signed.clone();
    bad_key.insert("signing_public_key", Value::Binary(Binary { subtype: SENSITIVE, bytes: vec![1, 2, 3] }));
    assert_eq!(bad_key.verify(), Err(Error::SignatureInvalid));
}

#[test]
fn attestation_signs_the_canonical_bytes_and_the_padding() {
    let pair = SigningKeyPair::<[u8; 32], [u8; 64]>::from_seed(&[5u8; 32]);
    let attested = sample().with_security_at(pair.secret_key, 9).expect("attest");
    assert_eq!(bytes_of(&attested, "security_signing_public_key"), pair.public_key.to_vec());
    assert_eq!(bytes_of(&attested, "assumed_secure").len(), 64);
    assert!(attested.is_secure());
    assert!(attested.is_secure_with(pair.public_key));

    let mut message = attested.clone();
    message.remove("assumed_secure");
    let mut bytes = canonical_bytes(&message).expect("bytes");
    let mut signature = [0u8; 64];
    signature.copy_from_slice(&bytes_of(&attested, "assumed_secure"));
    // without the padding the attestation is no signature of the record
    let bare = SignedMessage::<[u8; 64], Vec<u8>>::from_parts(signature, bytes.clone());
    assert!(bare.verify(&pair.public_key).is_err());
    bytes.extend_from_slice(SECURITY_PADDING.as_bytes());
    let padded = SignedMessage::<[u8; 64], Vec<u8>>::from_parts(signature, bytes);
    assert!(padded.verify(&pair.public_key).is_ok());
    assert_eq!(SECURITY_PADDING.len(), 202);
}

#[test]
fn attestation_and_signature_do_not_stand_for_one_another() {
    let secret = signing_key();
    let signed = sample().sign_at(secret, 9).expect("sign");
    assert!(!signed.is_secure());
    // the signature of a record, stored as its attestation, attests nothing
    let mut swapped = sample().with_security_at(secret, 9).expect("attest");
    let signature = signed.get("signature").unwrap().clone();
    swapped.insert("assumed_secure", signature);
    assert!(!swapped.is_secure());
}

#[test]
fn attestation_breaks_with_any_later_write() {
    let secret = signing_key();
    let attested = sample().with_security_at(secret, 9).expect("attest");
    assert!(attested.is_secure());

    let noted = attested.clone().with_meta("note", Value::Int32(1));
    assert!(!noted.is_secure());

    let rewritten = attested.clone().with_meta("count", Value::Int64(4));
    assert!(!rewritten.is_secure());

    let signed = attested.clone().sign_at(secret, 10).expect("sign");
    assert_eq!(signed.clone().verify(), Ok(signed.clone()));
    assert!(!signed.is_secure());

    let sym = attested.clone().sign_sym_at([1u8; 32], 9).expect("sign");
    assert_eq!(sym.clone().verify_sym([1u8; 32]), Ok(sym.clone()));
    assert!(!sym.is_secure());
}

#[test]
fn absent_or_malformed_attestation_is_not_secure() {
    assert!(!sample().is_secure());
    assert!(!sample().is_secure_with([0u8; 32]));
    let attested = sample().with_security_at(signing_key(), 9).expect("attest");

    let mut keyless = attested.clone();
    keyless.remove("security_signing_public_key");
    assert!(!keyless.is_secure());

    let mut short_key = attested.clone();
    short_key.insert("security_signing_public_key", Value::Binary(Binary { subtype: SENSITIVE, bytes: vec![0u8; 31] }));
    assert!(!short_key.is_secure());

    let mut not_binary = attested.clone();
    not_binary.insert("assumed_secure", Value::Bool(true));
    assert!(!not_binary.is_secure());

    let mut short = attested.clone();
    short.insert("assumed_secure", Value::Binary(Binary { subtype: SENSITIVE, bytes: vec![0u8; 10] }));
    assert!(!short.is_secure());

    let other = SigningKeyPair::<[u8; 32], [u8; 64]>::from_seed(&[6u8; 32]);
    assert!(!attested.is_secure_with(other.public_key));
}

#[test]
fn typed_values_sign_like_their_records() {
    let key = [3u8; 32];
    let typed = SensitiveText::new("Hello World!").sign_sym_at(key, 5).expect("sign");
    let mut record = Record::new();
    record.insert("PLAINTEXT", Value::Text("Hello World!".to_string()));
    let plain = record.sign_sym_at(key, 5).expect("sign");
    assert_eq!(typed.get_meta("signature_sym"), plain.get("signature_sym"));
    assert_eq!(typed.clone().verify_sym(key), Ok(typed.clone()));
    assert_eq!(typed.plaintext, "Hello World!");
}

#[test]
fn a_record_that_the_codec_refuses_is_not_signed() {
    let mut record = Record::new();
    record.insert("bad\0name", Value::Int32(1));
    assert_eq!(record.clone().sign_sym_at([0u8; 32], 1), Err(Error::MalformedRecord));
    assert_eq!(record.clone().sign_at(signing_key(), 1), Err(Error::MalformedRecord));
    assert_eq!(record.with_security_at(signing_key(), 1), Err(Error::MalformedRecord));
}
