use burrito::error::Error;
use burrito::metadata::Metadata;
use burrito::providers::sensitive_text::SensitiveText;
use burrito::record::{Binary, Record, Value};
use burrito::value::{ENCRYPTED, GENERIC, SENSITIVE};

#[test]
fn insert_appends_new_names_and_replaces_in_place() {
    let mut record = Record::new();
    assert!(record.is_empty());
    assert_eq!(record.insert("b", Value::Int32(1)), None);
    assert_eq!(record.insert("a", Value::Int32(2)), None);
    assert_eq!(record.insert("b", Value::Int32(3)), Some(Value::Int32(1)));
    assert_eq!(record.len(), 2);
    assert_eq!(record.name_at(0), "b");
    assert_eq!(record.value_at(0), &Value::Int32(3));
    assert_eq!(record.name_at(1), "a");
    assert_eq!(record.get("a"), Some(&Value::Int32(2)));
    assert_eq!(record.get("c"), None);
    assert!(record.contains_key("a"));
    assert!(!record.contains_key("c"));
}

#[test]
fn remove_keeps_the_order_of_the_rest() {
    let mut record = Record::new();
    record.insert("x", Value::Bool(true));
    record.insert("y", Value::Bool(false));
    record.insert("z", Value::Int64(5));
    assert_eq!(record.remove("y"), Some(Value::Bool(false)));
    assert_eq!(record.remove("y"), None);
    assert_eq!(record.len(), 2);
    assert_eq!(record.name_at(0), "x");
    assert_eq!(record.name_at(1), "z");
}

#[test]
fn canonical_sorts_by_the_bytes_of_the_names() {
    let mut record = Record::new();
    for name in ["b", "a", "ab", "B", "", "é", "z"] {
        record.insert(name, Value::Text(name.to_string()));
    }
    let sorted = record.canonical();
    let names: Vec<&str> = (0..sorted.len()).map(|i| sorted.name_at(i)).collect();
    assert_eq!(names, vec!["", "B", "a", "ab", "b", "z", "é"]);
    assert_eq!(sorted.len(), record.len());
    for i in 0..sorted.len() {
        assert_eq!(record.get(sorted.name_at(i)), Some(sorted.value_at(i)));
    }
    // the record itself keeps its order
    assert_eq!(record.name_at(0), "b");
}

#[test]
fn clones_are_equal_and_independent() {
    let mut inner = Record::new();
    inner.insert("k", Value::Binary(Binary { subtype: GENERIC, bytes: vec![1, 2] }));
    let mut record = Record::new();
    record.insert("inner", Value::Nested(inner.clone()));
    record.insert("list", Value::List(vec![inner.clone(), Record::new()]));
    let mut copy = record.clone();
    assert_eq!(copy, record);
    copy.insert("more", Value::Bool(true));
    assert_ne!(copy, record);
}

#[test]
fn subtype_constants_are_those_of_the_document_format() {
    assert_eq!(GENERIC, 0);
    assert_eq!(ENCRYPTED, 6);
    assert_eq!(SENSITIVE, 8);
}

#[test]
fn set_meta_overwrites_and_add_meta_keeps_the_first() {
    let mut record = Record::new();
    record.set_meta("k", Value::Int32(1));
    record.set_meta("k", Value::Int32(2));
    assert_eq!(record.get_meta("k"), Some(&Value::Int32(2)));
    record.add_meta("k", Value::Int32(3));
    assert_eq!(record.get_meta("k"), Some(&Value::Int32(2)));
    record.add_meta("fresh", Value::Int32(4));
    assert_eq!(record.get_meta("fresh"), Some(&Value::Int32(4)));
    let record = record.with_meta("k", Value::Int32(5)).and_meta("k", Value::Int32(6));
    assert_eq!(record.get_meta("k"), Some(&Value::Int32(5)));
}

#[test]
fn defaults_refresh_the_provider_and_keep_the_creation_time() {
    let record = Record::new()
        .with_meta("provider", Value::Text("someone else".to_string()))
        .and_defaults_at::<SensitiveText>(1000);
    assert_eq!(record.get_meta("provider"), Some(&Value::Text("sensitive_text".to_string())));
    assert_eq!(record.get_meta("version"), Some(&Value::Text("0.0.0".to_string())));
    assert_eq!(record.get_meta("created"), Some(&Value::Timestamp(1000)));
    let again = record.and_defaults_at::<SensitiveText>(2000);
    assert_eq!(again.get_meta("created"), Some(&Value::Timestamp(1000)));
}

#[test]
fn metadata_of_a_typed_value_never_hides_its_payload() {
    let mut text = SensitiveText::new("secret");
    text.set_meta("PLAINTEXT", Value::Text("other".to_string()));
    text.set_meta("note", Value::Int32(1));
    assert_eq!(text.get_meta("PLAINTEXT"), Some(&Value::Text("other".to_string())));
    let record = text.to_record();
    assert_eq!(record.get("PLAINTEXT"), Some(&Value::Text("secret".to_string())));
    assert_eq!(record.get("note"), Some(&Value::Int32(1)));
    assert_eq!(record.len(), 2);
}

#[test]
fn errors_describe_themselves() {
    assert_eq!(Error::VersionMismatch.describe(), "version mismatch");
    assert_eq!(Error::MalformedRecord.describe(), "malformed record");
    assert_eq!(Error::AuthenticationFailure.describe(), "authentication failure");
    assert_eq!(Error::SignatureInvalid.describe(), "signature invalid");
    assert_eq!(Error::MissingSignature.describe(), "missing signature");
    assert_eq!(Error::MalformedKey.describe(), "malformed key");
}
