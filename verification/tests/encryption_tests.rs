use burrito::codec::encode;
use burrito::encryption::{EncryptionWaiter, EncryptionWaiterSymmetric};
use burrito::error::Error;
use burrito::metadata::Metadata;
use burrito::providers::burrito_box::BurritoBox;
use burrito::providers::burrito_box_sym::BurritoBoxSym;
use burrito::providers::sensitive_text::SensitiveText;
use burrito::providers::Provider;
use burrito::record::{Record, Value};
use burrito::value::{ENCRYPTED, SENSITIVE};
use dryoc::dryocsecretbox::DryocSecretBox;
use dryoc::keypair::KeyPair;

fn payload() -> Record {
    let mut record = Record::new();
    record.insert("plaintext", Value::Text("Hello World!".to_string()));
    record.insert("z", Value::Int32(1));
    record.insert("a", Value::Int32(2));
    record
}

#[test]
fn symmetric_box_is_the_secretbox_of_the_encoded_record() {
    let key = [7u8; 32];
    let nonce = [8u8; 24];
    let sealed = BurritoBoxSym::encrypt_sym_with(payload(), key, nonce, 77).expect("encrypt");
    assert_eq!(sealed.encrypted.subtype, ENCRYPTED);
    assert_eq!(sealed.mac.subtype, SENSITIVE);
    assert_eq!(sealed.nonce.subtype, SENSITIVE);
    assert_eq!(sealed.nonce.bytes, nonce.to_vec());
    assert_eq!(sealed.get_meta("provider"), Some(&Value::Text("burrito_symmetric_box".to_string())));
    assert_eq!(sealed.get_meta("version"), Some(&Value::Text("0.0.0".to_string())));
    assert_eq!(sealed.get_meta("created"), Some(&Value::Timestamp(77)));

    let plain = encode(&payload()).expect("encode");
    assert_ne!(sealed.encrypted.bytes, plain);
    let expected = DryocSecretBox::<[u8; 16], Vec<u8>>::encrypt(plain.as_slice(), &nonce, &key).expect("box");
    let (mac, data) = expected.into_parts();
    assert_eq!(sealed.mac.bytes, mac.to_vec());
    assert_eq!(sealed.encrypted.bytes, data);

    // the order of the fields survives
    let opened = sealed.decrypt_sym(key).expect("decrypt");
    assert_eq!(opened, payload());
    assert_eq!(opened.name_at(1), "z");
}

#[test]
fn fresh_nonces_differ() {
    let one = BurritoBoxSym::encrypt_sym(payload(), [7u8; 32]).expect("encrypt");
    let two = BurritoBoxSym::encrypt_sym(payload(), [7u8; 32]).expect("encrypt");
    assert_ne!(one.nonce, two.nonce);
    assert_ne!(one.encrypted, two.encrypted);
}

#[test]
fn symmetric_box_fails_closed() {
    let key = [7u8; 32];
    let sealed = BurritoBoxSym::encrypt_sym_with(payload(), key, [8u8; 24], 77).expect("encrypt");

    assert_eq!(sealed.clone().decrypt_sym([6u8; 32]), Err(Error::AuthenticationFailure));

    for bit in [0usize, 9, 63] {
        let mut tampered = sealed.clone();
        tampered.encrypted.bytes[bit / 8] ^= 1 << (bit % 8);
        assert_eq!(tampered.decrypt_sym(key), Err(Error::AuthenticationFailure));
        let mut tampered = sealed.clone();
        tampered.mac.bytes[bit / 8] ^= 1 << (bit % 8);
        assert_eq!(tampered.decrypt_sym(key), Err(Error::AuthenticationFailure));
        let mut tampered = sealed.clone();
        tampered.nonce.bytes[bit / 8] ^= 1 << (bit % 8);
        assert_eq!(tampered.decrypt_sym(key), Err(Error::AuthenticationFailure));
    }

    let mut short_mac = sealed.clone();
    short_mac.mac.bytes.pop();
    assert_eq!(short_mac.decrypt_sym(key), Err(Error::AuthenticationFailure));
    let mut long_nonce = sealed.clone();
    long_nonce.nonce.bytes.push(0);
    assert_eq!(long_nonce.decrypt_sym(key), Err(Error::AuthenticationFailure));
    let mut truncated = sealed.clone();
    truncated.encrypted.bytes.pop();
    assert_eq!(truncated.decrypt_sym(key), Err(Error::AuthenticationFailure));
}

#[test]
fn a_box_that_holds_no_record_is_malformed() {
    let key = [7u8; 32];
    let nonce = [8u8; 24];
    let boxed = DryocSecretBox::<[u8; 16], Vec<u8>>::encrypt(&b"not a document"[..], &nonce, &key).expect("box");
    let (mac, data) = boxed.into_parts();
    let sealed = BurritoBoxSym::from_parts(mac, data, nonce, 1);
    assert_eq!(sealed.decrypt_sym(key), Err(Error::MalformedRecord));
}

#[test]
fn a_record_that_the_codec_refuses_is_not_encrypted() {
    let mut record = Record::new();
    record.insert("bad\0name", Value::Int32(1));
    assert_eq!(BurritoBoxSym::encrypt_sym(record.clone(), [0u8; 32]).unwrap_err(), Error::MalformedRecord);
    let recipient = KeyPair::<[u8; 32], [u8; 32]>::from_secret_key([1u8; 32]).public_key;
    assert_eq!(BurritoBox::encrypt(record, recipient).unwrap_err(), Error::MalformedRecord);
}

#[test]
fn sealed_box_opens_for_the_recipient_only() {
    let recipient = KeyPair::<[u8; 32], [u8; 32]>::from_secret_key([1u8; 32]);
    let entry = SensitiveText::new("Hello World!").into_entry_at(3);
    let sealed = BurritoBox::encrypt(entry.clone(), recipient.public_key).expect("encrypt");
    assert_eq!(sealed.encrypted.subtype, ENCRYPTED);
    assert_eq!(sealed.mac.bytes.len(), 16);
    assert_eq!(sealed.ephemeral_public_key.bytes.len(), 32);
    assert_eq!(sealed.get_meta("provider"), Some(&Value::Text("burrito_asymmetric_box".to_string())));
    assert_ne!(sealed.encrypted.bytes, encode(&entry).unwrap());

    assert_eq!(sealed.clone().decrypt(recipient.secret_key), Ok(entry));
    assert_eq!(sealed.clone().decrypt([2u8; 32]), Err(Error::AuthenticationFailure));

    let again = BurritoBox::encrypt(SensitiveText::new("Hello World!").into_entry_at(3), recipient.public_key)
        .expect("encrypt");
    assert_ne!(again.ephemeral_public_key, sealed.ephemeral_public_key);
}

#[test]
fn sealed_box_fails_closed() {
    let recipient = KeyPair::<[u8; 32], [u8; 32]>::from_secret_key([1u8; 32]);
    let entry = SensitiveText::new("Hello World!").into_entry_at(3);
    let sealed = BurritoBox::encrypt(entry, recipient.public_key).expect("encrypt");

    let mut tampered = sealed.clone();
    tampered.encrypted.bytes[3] ^= 0x10;
    assert_eq!(tampered.decrypt(recipient.secret_key), Err(Error::AuthenticationFailure));
    let mut tampered = sealed.clone();
    tampered.mac.bytes[15] ^= 0x80;
    assert_eq!(tampered.decrypt(recipient.secret_key), Err(Error::AuthenticationFailure));

    let mut short_key = sealed.clone();
    short_key.ephemeral_public_key.bytes.pop();
    assert_eq!(short_key.decrypt(recipient.secret_key), Err(Error::MalformedKey));
    let mut long_mac = sealed.clone();
    long_mac.mac.bytes.push(1);
    assert_eq!(long_mac.decrypt(recipient.secret_key), Err(Error::MalformedKey));
}

#[test]
fn password_box_fails_closed_on_malformed_parts() {
    let sealed = BurritoBoxSym::from_parts([0u8; 16], vec![1, 2, 3], [0u8; 24], 1);
    let mut short_nonce = sealed.clone();
    short_nonce.nonce.bytes.truncate(16);
    assert_eq!(short_nonce.decrypt_password("pw".to_string()), Err(Error::AuthenticationFailure));
    let mut short_mac = sealed;
    short_mac.mac.bytes.clear();
    assert_eq!(short_mac.decrypt_password("pw".to_string()), Err(Error::AuthenticationFailure));
}

#[test]
fn password_box_is_salted_by_its_nonce() {
    let mut record = Record::new();
    record.insert("plaintext", Value::Text("Hello World!".to_string()));
    let one = BurritoBoxSym::of_password_with(record.clone(), "pw", [1u8; 24], 1).expect("seal");
    let mut other_nonce = [1u8; 24];
    other_nonce[0] = 2;
    let two = BurritoBoxSym::of_password_with(record, "pw", other_nonce, 1).expect("seal");
    assert_eq!(one.nonce.bytes, vec![1u8; 24]);
    assert_ne!(one.mac, two.mac);
}
