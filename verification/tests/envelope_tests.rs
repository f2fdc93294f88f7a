use burrito::encryption::{EncryptionWaiter, EncryptionWaiterSymmetric};
use burrito::error::Error;
use burrito::metadata::Metadata;
use burrito::providers::burrito_box::BurritoBox;
use burrito::providers::burrito_box_sym::BurritoBoxSym;
use burrito::providers::sensitive_text::SensitiveText;
use burrito::providers::Provider;
use burrito::record::{Binary, Record, Value};
use burrito::signing::Signing;
use dryoc::keypair::KeyPair;
use dryoc::sign::SigningKeyPair;

fn blank_key() -> [u8; 32] {
    [0u8; 32]
}

/// The public key that belongs to the blank secret key.
fn blank_public_key() -> [u8; 32] {
    KeyPair::<[u8; 32], [u8; 32]>::from_secret_key(blank_key()).public_key
}

fn binary_of(record: &Record, name: &str) -> Binary {
    match record.get(name) {
        Some(Value::Binary(binary)) => binary.clone(),
        _ => panic!("Failed to get binary"),
    }
}

#[test]
fn sym_sign_test() {
    let plaintext = SensitiveText::new("Hello World!");
    let public_key = blank_public_key();

    let encrypted = BurritoBox::encrypt(plaintext.into_entry(), public_key).expect("Failed to encrypt");

    let secret_key = blank_key();
    let encrypted = encrypted.into_entry().sign_sym(secret_key).expect("Failed to sign");

    let secret_key = blank_key();
    let mut verify = encrypted.verify_sym(secret_key).expect("Failed to verify signature");

    let mut b = binary_of(&verify, "ENCRYPTED");
    b.bytes.swap_remove(12); // ...oopsie! Our signature is invalid now!
    verify.insert("ENCRYPTED", Value::Binary(b));

    let secret_key = blank_key();
    let err = verify.verify_sym(secret_key).expect_err("Signature should not be valid!");
    assert_eq!(err, Error::SignatureInvalid);
}

#[test]
fn sign_test() {
    let keypair = SigningKeyPair::<[u8; 32], [u8; 64]>::generate();

    let plaintext = SensitiveText::new("Hello World!");

    let plaintext = plaintext.sign(keypair.secret_key).expect("Failed to sign");

    let plaintext = plaintext.verify().expect("Signature must be correct.");

    let plaintext = plaintext.with_security(keypair.secret_key).expect("Failed to attest");

    assert!(plaintext.is_secure());
}

#[test]
fn encrypt_decrypt_test() {
    let keypair = KeyPair::<[u8; 32], [u8; 32]>::generate();

    let public_key = keypair.public_key;
    let secret_key = keypair.secret_key;

    let plaintext = SensitiveText::new("Hello World!")
        .into_entry()
        .sign_sym(public_key)
        .expect("Failed to sign");
    let expected = plaintext.clone();
    let encrypted = BurritoBox::encrypt(plaintext, public_key).expect("Failed to encrypt");

    println!("{:?}", encrypted);

    let decrypted = encrypted.decrypt(secret_key).expect("Failed to decrypt");
    println!("{:?}", decrypted);
    assert_eq!(decrypted, expected);
}

#[test]
fn security_attestation_test() {
    let plaintext = SensitiveText::new("Hello World!");
    let keypair = SigningKeyPair::<[u8; 32], [u8; 64]>::generate();
    let plaintext = plaintext.with_security(keypair.secret_key).expect("Failed to attest");
    let is_secure = plaintext.is_secure();

    assert!(is_secure);

    let plaintext = plaintext.sign(keypair.secret_key).expect("Failed to sign");

    let plaintext = plaintext.verify().expect("Signature must be correct.");

    // By adding a signature, we actually modified the document store, so it should not be secure!
    // This is by design, to prevent accidentally adding unintended extra data to a security-authorized
    // document.
    assert!(!plaintext.is_secure());
}

#[test]
fn encrypt_decrypt_sym_test() {
    let plaintext = SensitiveText::new("Hello World!");
    let secret_box = BurritoBoxSym::encrypt_sym(plaintext.into_entry(), blank_key()).expect("Failed to encrypt");

    println!("{:?}", secret_box);
    assert_eq!(secret_box.mac.bytes.len(), 16);
    assert_eq!(secret_box.nonce.bytes.len(), 24);
}

#[test]
fn serialize_test() {
    let plaintext = SensitiveText::new("Hello World!")
        .and_defaults::<SensitiveText>()
        .sign_sym(blank_key())
        .expect("Failed to sign");
    println!("{:?}", plaintext);
    let verified = plaintext.verify_sym(blank_key()).expect("Failed to verify signature");
    println!("{:?}", verified);

    let entry = verified.into_entry();
    println!("{:?}", entry);
    let plaintext = SensitiveText::from_entry(entry).expect("Failed to verify signature");
    let _plaintext = plaintext.verify_sym(blank_key()).expect("Failed to verify signature");
}

#[test]
fn symmetric_envelope_scenario() {
    let k1 = [7u8; 32];
    let k2 = [9u8; 32];
    let mut payload = Record::new();
    payload.insert("plaintext", Value::Text("Hello World!".to_string()));

    let sealed = BurritoBoxSym::encrypt_sym(payload.clone(), k1).expect("encrypt");
    let signed = sealed.sign_sym(k2).expect("sign");

    // One byte of the stored ciphertext is changed: the signature no longer fits.
    let mut tampered = signed.clone();
    tampered.encrypted.bytes[0] ^= 1;
    assert_eq!(tampered.verify_sym(k2).unwrap_err(), Error::SignatureInvalid);

    // Unchanged, the box verifies and opens to the payload.
    let verified = signed.verify_sym(k2).expect("verify");
    let opened = verified.decrypt_sym(k1).expect("decrypt");
    assert_eq!(opened, payload);
}

#[test]
fn password_envelope_refuses_the_wrong_password() {
    let mut record = Record::new();
    record.insert("plaintext", Value::Text("Hello World!".to_string()));
    let sealed = BurritoBoxSym::of_password(record, "correct-password".to_string()).expect("seal");
    let wrong = sealed.decrypt_password("wrong-password".to_string());
    assert_eq!(wrong.unwrap_err(), Error::AuthenticationFailure);
}

#[test]
fn password_envelope_opens_with_the_right_password() {
    let mut record = Record::new();
    record.insert("plaintext", Value::Text("Hello World!".to_string()));
    let sealed = BurritoBoxSym::of_password(record.clone(), "correct-password".to_string()).expect("seal");
    let opened = sealed.decrypt_password("correct-password".to_string()).expect("open");
    assert_eq!(opened, record);
}

#[test]
fn sealing_for_the_blank_public_key_is_refused() {
    let plaintext = SensitiveText::new("Hello World!");
    let result = BurritoBox::encrypt(plaintext.into_entry(), blank_key());
    assert_eq!(result.unwrap_err(), Error::MalformedKey);
}

#[test]
fn fresh_box_signed_with_a_second_key_verifies() {
    let k1 = [1u8; 32];
    let k2 = [2u8; 32];
    let mut payload = Record::new();
    payload.insert("plaintext", Value::Text("Hello World!".to_string()));

    let sealed = BurritoBoxSym::encrypt_sym(payload, k1).expect("encrypt");
    assert_eq!(sealed.get_meta("signature_sym"), None);
    assert_eq!(sealed.additional_fields.len(), 3);
    let signed = sealed.sign_sym(k2).expect("sign");
    match signed.get_meta("signature_sym") {
        Some(Value::Binary(tag)) => assert_eq!(tag.bytes.len(), 32),
        other => panic!("no signature: {:?}", other),
    }
    assert_eq!(signed.clone().verify_sym(k2), Ok(signed.clone()));
    assert_eq!(signed.verify_sym(k1), Err(Error::SignatureInvalid));
}
