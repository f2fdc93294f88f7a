use burrito::codec::{decode, encode, canonical_bytes};
use burrito::record::{Binary, Record, Value};
use burrito::value::{ENCRYPTED, SENSITIVE};

fn sample() -> Record {
    let mut inner = Record::new();
    inner.insert("k", Value::Int32(7));
    let mut child = Record::new();
    child.insert("plaintext", Value::Text("nested".to_string()));
    let mut record = Record::new();
    record.insert("text", Value::Text("Hello World!".to_string()));
    record.insert("small", Value::Int32(-5));
    record.insert("big", Value::Int64(1 << 40));
    record.insert("flag", Value::Bool(true));
    record.insert("when", Value::Timestamp(1_700_000_000_123));
    record.insert("blob", Value::Binary(Binary { subtype: ENCRYPTED, bytes: vec![1, 2, 3] }));
    record.insert("tag", Value::Binary(Binary { subtype: SENSITIVE, bytes: vec![] }));
    record.insert("inner", Value::Nested(inner));
    record.insert("children", Value::List(vec![child, Record::new()]));
    record
}

#[test]
fn encode_then_decode_gives_the_record_back() {
    let record = sample();
    let bytes = encode(&record).expect("encode");
    let back = decode(&bytes).expect("decode");
    assert_eq!(back, record);
}

#[test]
fn encode_writes_the_document_format() {
    let mut record = Record::new();
    record.insert("a", Value::Int32(1));
    let bytes = encode(&record).expect("encode");
    assert_eq!(bytes, vec![12, 0, 0, 0, 0x10, b'a', 0, 1, 0, 0, 0, 0]);
}

#[test]
fn canonical_bytes_sort_the_fields() {
    let mut one = Record::new();
    one.insert("b", Value::Int32(2));
    one.insert("a", Value::Int32(1));
    let mut two = Record::new();
    two.insert("a", Value::Int32(1));
    two.insert("b", Value::Int32(2));
    assert_ne!(encode(&one).unwrap(), encode(&two).unwrap());
    assert_eq!(canonical_bytes(&one).unwrap(), encode(&two).unwrap());
    assert_eq!(canonical_bytes(&one).unwrap(), canonical_bytes(&two).unwrap());
}

#[test]
fn decode_refuses_garbage_and_foreign_values() {
    assert!(decode(&[1, 2, 3]).is_err());
    // { "x": 1.5 }
    let mut doc = bson::Document::new();
    doc.insert("x", 1.5f64);
    let bytes = bson::to_vec(&doc).unwrap();
    assert!(decode(&bytes).is_err());
    // an array that holds something other than documents
    let mut doc = bson::Document::new();
    doc.insert("x", vec![1i32, 2i32]);
    let bytes = bson::to_vec(&doc).unwrap();
    assert!(decode(&bytes).is_err());
}
