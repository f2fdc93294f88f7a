use burrito::encryption::KeyFrom;
use burrito::error::Error;
use burrito::metadata::Metadata;
use burrito::providers::burrito_box::BurritoBox;
use burrito::providers::burrito_box_password_sym::BurritoBoxPassword;
use burrito::providers::burrito_box_sym::BurritoBoxSym;
use burrito::providers::plaintext::Plaintext;
use burrito::providers::recursive::Recursive;
use burrito::providers::sensitive_text::SensitiveText;
use burrito::providers::Provider;
use burrito::record::{Binary, Record, Value};
use burrito::value::{ENCRYPTED, SENSITIVE};

fn text(s: &str) -> Value {
    Value::Text(s.to_string())
}

#[test]
fn providers_have_their_names_and_versions() {
    assert_eq!(SensitiveText::name(), "sensitive_text");
    assert_eq!(Plaintext::name(), "plaintext");
    assert_eq!(Recursive::name(), "burrito_recursive");
    assert_eq!(BurritoBox::name(), "burrito_asymmetric_box");
    assert_eq!(BurritoBoxSym::name(), "burrito_symmetric_box");
    assert_eq!(BurritoBoxPassword::name(), "burrito_box_password_sym");
    assert_eq!(SensitiveText::version(), "0.0.0");
    assert_eq!(Plaintext::version(), "0.0.0");
    assert_eq!(Recursive::version(), "0.0.0");
    assert_eq!(BurritoBox::version(), "0.0.0");
    assert_eq!(BurritoBoxSym::version(), "0.0.0");
    assert_eq!(BurritoBoxPassword::version(), "0.0.0");
}

#[test]
fn entry_holds_payload_then_metadata_then_tags() {
    let value = SensitiveText::new("Hello World!").with_meta("note", Value::Int32(7));
    let entry = value.into_entry_at(1234);
    assert_eq!(entry.len(), 5);
    assert_eq!(entry.name_at(0), "PLAINTEXT");
    assert_eq!(entry.value_at(0), &text("Hello World!"));
    assert_eq!(entry.name_at(1), "note");
    assert_eq!(entry.name_at(2), "provider");
    assert_eq!(entry.value_at(2), &text("sensitive_text"));
    assert_eq!(entry.name_at(3), "version");
    assert_eq!(entry.value_at(3), &text("0.0.0"));
    assert_eq!(entry.name_at(4), "created");
    assert_eq!(entry.value_at(4), &Value::Timestamp(1234));
}

#[test]
fn sensitive_text_round_trip() {
    let value = SensitiveText::new("Hello World!").with_meta("note", Value::Int32(7));
    let back = SensitiveText::from_entry(value.clone().into_entry_at(5)).expect("from_entry");
    assert_eq!(back.plaintext, "Hello World!");
    assert_eq!(back.get_meta("note"), Some(&Value::Int32(7)));
    assert_eq!(back.get_meta("created"), Some(&Value::Timestamp(5)));
    // once tagged, the value comes back as it went in
    let again = SensitiveText::from_entry(back.clone().into_entry_at(99)).expect("from_entry");
    assert_eq!(again, back);
}

#[test]
fn plaintext_round_trip() {
    let value = Plaintext::new("plain");
    let entry = value.into_entry_at(1);
    assert_eq!(entry.get("plaintext"), Some(&text("plain")));
    let back = Plaintext::from_entry(entry).expect("from_entry");
    assert_eq!(back.plaintext, "plain");
    let again = Plaintext::from_entry(back.clone().into_entry_at(2)).expect("from_entry");
    assert_eq!(again, back);
}

#[test]
fn recursive_round_trip_with_mixed_children() {
    let plain = Plaintext::new("a").into_entry_at(1);
    let secret = SensitiveText::new("b").into_entry_at(2);
    let nested = Recursive::new(vec![SensitiveText::new("c").into_entry_at(3)]).into_entry_at(4);
    let value = Recursive::new(vec![plain.clone(), secret.clone(), nested.clone()]);
    let entry = value.into_entry_at(5);
    assert_eq!(entry.get("CHILDREN"), Some(&Value::List(vec![plain.clone(), secret, nested.clone()])));
    let back = Recursive::from_entry(entry).expect("from_entry");
    assert_eq!(back.children.len(), 3);
    let first = Plaintext::from_entry(back.children[0].clone()).expect("child");
    assert_eq!(first.plaintext, "a");
    let inner = Recursive::from_entry(back.children[2].clone()).expect("nested");
    let leaf = SensitiveText::from_entry(inner.children[0].clone()).expect("leaf");
    assert_eq!(leaf.plaintext, "c");
    let again = Recursive::from_entry(back.clone().into_entry_at(6)).expect("from_entry");
    assert_eq!(again, back);
}

#[test]
fn boxes_round_trip_as_records() {
    let sym = BurritoBoxSym::from_parts([1u8; 16], vec![9, 8, 7], [2u8; 24], 10);
    assert_eq!(sym.encrypted, Binary { subtype: ENCRYPTED, bytes: vec![9, 8, 7] });
    assert_eq!(sym.mac, Binary { subtype: SENSITIVE, bytes: vec![1u8; 16] });
    assert_eq!(sym.nonce, Binary { subtype: SENSITIVE, bytes: vec![2u8; 24] });
    let entry = sym.clone().into_entry_at(11);
    assert_eq!(entry.name_at(0), "ENCRYPTED");
    assert_eq!(entry.name_at(1), "MAC");
    assert_eq!(entry.name_at(2), "NONCE");
    assert_eq!(entry.get("created"), Some(&Value::Timestamp(10)));
    assert_eq!(BurritoBoxSym::from_entry(entry).expect("from_entry"), sym);

    let sealed = BurritoBox::from_encrypted_at(vec![5, 5], [3u8; 16], [4u8; 32], 20);
    assert_eq!(sealed.ephemeral_public_key, Binary { subtype: SENSITIVE, bytes: vec![4u8; 32] });
    let entry = sealed.clone().into_entry_at(21);
    assert_eq!(entry.name_at(0), "ENCRYPTED");
    assert_eq!(entry.name_at(1), "EPHEMERAL_PUBLIC_KEY");
    assert_eq!(entry.name_at(2), "MAC");
    assert_eq!(BurritoBox::from_entry(entry).expect("from_entry"), sealed);

    let stored = BurritoBoxPassword {
        data: Binary { subtype: ENCRYPTED, bytes: vec![1] },
        salt: "0123456789abcdef".to_string(),
        additional_fields: Record::new(),
    };
    let entry = stored.clone().into_entry_at(30);
    assert_eq!(entry.name_at(0), "data");
    assert_eq!(entry.name_at(1), "salt");
    let back = BurritoBoxPassword::from_entry(entry).expect("from_entry");
    assert_eq!(back.data, stored.data);
    assert_eq!(back.salt, stored.salt);
}

#[test]
fn version_gate_refuses_other_versions_whatever_else_holds() {
    let mut entry = SensitiveText::new("x").into_entry_at(1);
    entry.insert("version", text("0.0.1"));
    assert_eq!(SensitiveText::from_entry(entry.clone()).unwrap_err(), Error::VersionMismatch);
    assert_eq!(SensitiveText::verify_version(&entry), Err(Error::VersionMismatch));

    // a version that is not a text, or no version at all
    entry.insert("version", Value::Int32(0));
    assert_eq!(SensitiveText::from_entry(entry.clone()).unwrap_err(), Error::VersionMismatch);
    entry.remove("version");
    assert_eq!(SensitiveText::from_entry(entry.clone()).unwrap_err(), Error::VersionMismatch);

    // the version is checked before the payload
    entry.remove("PLAINTEXT");
    assert_eq!(SensitiveText::from_entry(entry).unwrap_err(), Error::VersionMismatch);

    let mut boxed = BurritoBoxSym::from_parts([0u8; 16], vec![], [0u8; 24], 1).into_entry_at(1);
    boxed.insert("version", text("1.0.0"));
    assert_eq!(BurritoBoxSym::from_entry(boxed).unwrap_err(), Error::VersionMismatch);
    let mut children = Recursive::new(vec![]).into_entry_at(1);
    children.insert("version", text(""));
    assert_eq!(Recursive::from_entry(children).unwrap_err(), Error::VersionMismatch);
}

#[test]
fn malformed_records_are_refused() {
    let good = SensitiveText::new("x").into_entry_at(1);
    assert_eq!(SensitiveText::verify_version(&good), Ok(()));

    let mut missing = good.clone();
    missing.remove("PLAINTEXT");
    assert_eq!(SensitiveText::from_entry(missing).unwrap_err(), Error::MalformedRecord);

    let mut wrong_kind = good.clone();
    wrong_kind.insert("PLAINTEXT", Value::Int32(1));
    assert_eq!(SensitiveText::from_entry(wrong_kind).unwrap_err(), Error::MalformedRecord);

    // the record of one provider is not the record of another
    assert_eq!(Plaintext::from_entry(good.clone()).unwrap_err(), Error::MalformedRecord);
    assert_eq!(Recursive::from_entry(good.clone()).unwrap_err(), Error::MalformedRecord);
    assert_eq!(BurritoBox::from_entry(good.clone()).unwrap_err(), Error::MalformedRecord);
    assert_eq!(BurritoBoxPassword::from_entry(good).unwrap_err(), Error::MalformedRecord);

    let mut boxed = BurritoBoxSym::from_parts([0u8; 16], vec![], [0u8; 24], 1).into_entry_at(1);
    boxed.insert("MAC", text("not a binary"));
    assert_eq!(BurritoBoxSym::from_entry(boxed).unwrap_err(), Error::MalformedRecord);
}

#[test]
fn key_derivation_refuses_a_salt_of_the_wrong_length() {
    let stored = BurritoBoxPassword {
        data: Binary { subtype: ENCRYPTED, bytes: vec![] },
        salt: "short".to_string(),
        additional_fields: Record::new(),
    };
    assert_eq!(stored.key_from(b"password".to_vec()), Err(Error::MalformedKey));
}
