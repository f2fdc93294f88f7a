//! Records to bytes and back, through the `bson` crate.
//!
//! The document format is not modelled here. What `bson` writes for a given
//! field list, and what it reads from given bytes, are named and left
//! uninterpreted; the functions of this module say which field list is
//! handed to the crate and which record is made of what it hands back.

use vstd::prelude::*;
use crate::error::Error;
use crate::record::{Binary, Record, Value, records_view};
use crate::value::{
    ValueView, Fields, has_name, lookup, distinct_names, inserted, supported, supported_value,
    lemma_lookup_at,
};
use crate::canonical::canonical_fields;
use crate::value::to_map;
use bson::Bson;

verus! {

/// `bson::Document`: an insertion-ordered map from names to values. Nothing
/// inside it is visible here; what it holds is named by `document_fields`.
#[verifier::external_type_specification]
#[verifier::external_body]
pub struct ExDocument(bson::Document);

/// The fields of a `bson::Document`, in its own order. A string, a 32-bit or
/// 64-bit integer, a boolean, a date-time (by its milliseconds), a binary
/// (by its subtype byte and bytes), a document and an array of documents
/// stand for themselves; every other value is `Foreign`.
pub uninterp spec fn document_fields(doc: bson::Document) -> Seq<(Seq<char>, ValueView)>;

/// The bytes that `bson::to_vec` writes for a document with these fields,
/// or `None` where it refuses them.
pub uninterp spec fn encoding(fields: Seq<(Seq<char>, ValueView)>) -> Option<Seq<u8>>;

/// The fields of the document that `bson::from_slice` reads from these
/// bytes, or `None` where it refuses them.
pub uninterp spec fn decoding(bytes: Seq<u8>) -> Option<Seq<(Seq<char>, ValueView)>>;

/// The field lists of a sequence of documents.
spec fn documents_view(docs: Seq<bson::Document>) -> Seq<Fields> {
    Seq::new(docs.len(), |i: int| document_fields(docs[i]))
}

/// What `Document::get` found under a name, by kind.
enum Slot {
    Text(String),
    Int32(i32),
    Int64(i64),
    Bool(bool),
    Timestamp(i64),
    Binary(u8, Vec<u8>),
    Nested(bson::Document),
    /// The items of an array: each a document, or `None` for anything else.
    List(Vec<Option<bson::Document>>),
    Foreign,
}

/// The field lists of array items that are all documents.
spec fn items_view(items: Seq<Option<bson::Document>>) -> Seq<Fields> {
    Seq::new(items.len(), |i: int| document_fields(items[i]->0))
}

/// The value that a slot stands for.
spec fn slot_view(slot: Slot) -> ValueView {
    match slot {
        Slot::Text(s) => ValueView::Text(s@),
        Slot::Int32(i) => ValueView::Int32(i),
        Slot::Int64(i) => ValueView::Int64(i),
        Slot::Bool(b) => ValueView::Bool(b),
        Slot::Timestamp(t) => ValueView::Timestamp(t),
        Slot::Binary(subtype, bytes) => ValueView::Binary(subtype, bytes@),
        Slot::Nested(doc) => ValueView::Nested(document_fields(doc)),
        Slot::List(items) => if forall|i: int| 0 <= i < items@.len() ==> (#[trigger] items@[i]) is Some {
            ValueView::List(items_view(items@))
        } else {
            ValueView::Foreign
        },
        Slot::Foreign => ValueView::Foreign,
    }
}

/// `Document::new`: a document without fields.
#[verifier::external_body]
fn document_new() -> (doc: bson::Document)
    ensures
        document_fields(doc) == Fields::empty(),
{
    bson::Document::new()
}

/// `Document::insert` with a string: the field is replaced in place or
/// appended, as in an insertion-ordered map.
#[verifier::external_body]
fn document_put_text(doc: &mut bson::Document, name: &str, value: &str)
    ensures
        document_fields(*final(doc)) == inserted(
            document_fields(*old(doc)),
            name@,
            ValueView::Text(value@),
        ),
{
    doc.insert(name, value);
}

/// `Document::insert` with a 32-bit integer.
#[verifier::external_body]
fn document_put_int32(doc: &mut bson::Document, name: &str, value: i32)
    ensures
        document_fields(*final(doc)) == inserted(
            document_fields(*old(doc)),
            name@,
            ValueView::Int32(value),
        ),
{
    doc.insert(name, value);
}

/// `Document::insert` with a 64-bit integer.
#[verifier::external_body]
fn document_put_int64(doc: &mut bson::Document, name: &str, value: i64)
    ensures
        document_fields(*final(doc)) == inserted(
            document_fields(*old(doc)),
            name@,
            ValueView::Int64(value),
        ),
{
    doc.insert(name, value);
}

/// `Document::insert` with a boolean.
#[verifier::external_body]
fn document_put_bool(doc: &mut bson::Document, name: &str, value: bool)
    ensures
        document_fields(*final(doc)) == inserted(
            document_fields(*old(doc)),
            name@,
            ValueView::Bool(value),
        ),
{
    doc.insert(name, value);
}

/// `Document::insert` with the date-time that lies `millis` milliseconds
/// after the Unix epoch.
#[verifier::external_body]
fn document_put_timestamp(doc: &mut bson::Document, name: &str, millis: i64)
    ensures
        document_fields(*final(doc)) == inserted(
            document_fields(*old(doc)),
            name@,
            ValueView::Timestamp(millis),
        ),
{
    doc.insert(name, bson::DateTime::from_millis(millis));
}

/// `Document::insert` with a binary of the given subtype byte.
#[verifier::external_body]
fn document_put_binary(doc: &mut bson::Document, name: &str, subtype: u8, bytes: Vec<u8>)
    ensures
        document_fields(*final(doc)) == inserted(
            document_fields(*old(doc)),
            name@,
            ValueView::Binary(subtype, bytes@),
        ),
{
    doc.insert(name, bson::Binary { subtype: bson::spec::BinarySubtype::from(subtype), bytes });
}

/// `Document::insert` with a document.
#[verifier::external_body]
fn document_put_nested(doc: &mut bson::Document, name: &str, child: bson::Document)
    ensures
        document_fields(*final(doc)) == inserted(
            document_fields(*old(doc)),
            name@,
            ValueView::Nested(document_fields(child)),
        ),
{
    doc.insert(name, child);
}

/// `Document::insert` with an array of documents.
#[verifier::external_body]
fn document_put_list(doc: &mut bson::Document, name: &str, children: Vec<bson::Document>)
    ensures
        document_fields(*final(doc)) == inserted(
            document_fields(*old(doc)),
            name@,
            ValueView::List(documents_view(children@)),
        ),
{
    doc.insert(name, children);
}

/// `Document::keys`: the names in the document's order. A document holds
/// each name once.
#[verifier::external_body]
fn document_keys(doc: &bson::Document) -> (names: Vec<String>)
    ensures
        names@.len() == document_fields(*doc).len(),
        forall|i: int| 0 <= i < names@.len() ==> (#[trigger] names@[i])@ == document_fields(*doc)[i].0,
        forall|i: int, j: int|
            0 <= i < j < names@.len() ==> (#[trigger] names@[i])@ != (#[trigger] names@[j])@,
{
    doc.keys().cloned().collect()
}

/// `Document::get`: the value under `name`, told apart by its kind.
#[verifier::external_body]
fn document_get(doc: &bson::Document, name: &str) -> (slot: Option<Slot>)
    ensures
        match slot {
            Some(found) => lookup(document_fields(*doc), name@) == Some(slot_view(found)),
            None => lookup(document_fields(*doc), name@) is None,
        },
{
    Some(match doc.get(name)? {
        Bson::String(s) => Slot::Text(s.clone()),
        Bson::Int32(i) => Slot::Int32(*i),
        Bson::Int64(i) => Slot::Int64(*i),
        Bson::Boolean(b) => Slot::Bool(*b),
        Bson::DateTime(t) => Slot::Timestamp(t.timestamp_millis()),
        Bson::Binary(b) => Slot::Binary(u8::from(b.subtype), b.bytes.clone()),
        Bson::Document(d) => Slot::Nested(d.clone()),
        Bson::Array(a) => Slot::List(a.iter().map(|b| b.as_document().cloned()).collect()),
        _ => Slot::Foreign,
    })
}

/// `bson::to_vec` on a document. Of a document that holds a foreign value
/// nothing is claimed: its bytes depend on more than its field list shows.
#[verifier::external_body]
fn document_to_vec(doc: &bson::Document) -> (out: Option<Vec<u8>>)
    ensures
        supported(document_fields(*doc)) ==> match out {
            Some(bytes) => encoding(document_fields(*doc)) == Some(bytes@),
            None => encoding(document_fields(*doc)) is None,
        },
{
    bson::to_vec(doc).ok()
}

/// `bson::from_slice` to a document.
#[verifier::external_body]
fn document_from_slice(bytes: &[u8]) -> (out: Option<bson::Document>)
    ensures
        match out {
            Some(doc) => decoding(bytes@) == Some(document_fields(doc)),
            None => decoding(bytes@) is None,
        },
{
    bson::from_slice::<bson::Document>(bytes).ok()
}

/// Writing a name that the list does not hold appends it.
proof fn lemma_inserted_fresh(fields: Fields, whole: Fields, i: int)
    requires
        distinct_names(whole),
        0 <= i < whole.len(),
        fields == whole.take(i),
    ensures
        inserted(fields, whole[i].0, whole[i].1) == whole.take(i + 1),
{
    if has_name(fields, whole[i].0) {
        let k = choose|k: int| 0 <= k < fields.len() && #[trigger] fields[k].0 == whole[i].0;
        assert(whole[k].0 == whole[i].0);
    }
    assert(fields.push(whole[i]) =~= whole.take(i + 1));
}

/// The documents that hold the fields of `records`.
fn to_documents(records: &Vec<Record>, Ghost(parent): Ghost<ValueView>) -> (docs: Vec<bson::Document>)
    requires
        parent == ValueView::List(records_view(records@)),
    ensures
        documents_view(docs@) == records_view(records@),
        forall|i: int| 0 <= i < records@.len() ==> supported(#[trigger] records@[i]@),
    decreases parent, 0nat,
{
    let mut docs: Vec<bson::Document> = Vec::new();
    let mut i: usize = 0;
    while i < records.len()
        invariant
            0 <= i <= records.len(),
            docs@.len() == i,
            parent == ValueView::List(records_view(records@)),
            forall|j: int| 0 <= j < i ==> document_fields(#[trigger] docs@[j]) == records@[j]@,
            forall|j: int| 0 <= j < i ==> supported(#[trigger] records@[j]@),
        decreases records.len() - i,
    {
        proof {
            let views = records_view(records@);
            assert(views[i as int] == records@[i as int]@);
            assert(parent->List_0 == views);
            assert(decreases_to!(parent => parent->List_0));
            assert(decreases_to!(views => views[i as int]));
        }
        let doc = to_document(&records[i]);
        docs.push(doc);
        i += 1;
    }
    assert(documents_view(docs@) =~= records_view(records@));
    docs
}

/// The document that holds the fields of `record`, in the record's order.
fn to_document(record: &Record) -> (doc: bson::Document)
    ensures
        document_fields(doc) == record@,
        supported(record@),
    decreases record@, 1nat,
{
    proof {
        use_type_invariant(record);
    }
    let mut doc = document_new();
    let mut i: usize = 0;
    assert(record@.take(0) =~= Fields::empty());
    while i < record.len()
        invariant
            0 <= i <= record@.len(),
            distinct_names(record@),
            document_fields(doc) == record@.take(i as int),
            forall|j: int| 0 <= j < i ==> supported_value(#[trigger] record@[j].1),
        decreases record@.len() - i,
    {
        let name = record.name_at(i);
        proof {
            lemma_inserted_fresh(document_fields(doc), record@, i as int);
            assert(decreases_to!(record@ => record@[i as int]));
        }
        match record.value_at(i) {
            Value::Text(s) => document_put_text(&mut doc, name, s.as_str()),
            Value::Int32(v) => document_put_int32(&mut doc, name, *v),
            Value::Int64(v) => document_put_int64(&mut doc, name, *v),
            Value::Bool(v) => document_put_bool(&mut doc, name, *v),
            Value::Timestamp(v) => document_put_timestamp(&mut doc, name, *v),
            Value::Binary(b) => document_put_binary(&mut doc, name, b.subtype, b.bytes.clone()),
            Value::Nested(r) => {
                proof {
                    let v = record@[i as int].1;
                    assert(v->Nested_0 == r@);
                    assert(decreases_to!(record@[i as int] => v));
                    assert(decreases_to!(v => v->Nested_0));
                }
                let child = to_document(r);
                document_put_nested(&mut doc, name, child);
            },
            Value::List(rs) => {
                proof {
                    assert(decreases_to!(record@[i as int] => record@[i as int].1));
                }
                let children = to_documents(rs, Ghost(record@[i as int].1));
                document_put_list(&mut doc, name, children);
            },
        }
        i += 1;
    }
    assert(record@.take(i as int) =~= record@);
    doc
}

/// The records made of array items, where each is a document that holds
/// nothing foreign.
fn from_items(items: &Vec<Option<bson::Document>>, Ghost(parent): Ghost<ValueView>) -> (out: Option<
    Vec<Record>,
>)
    requires
        forall|i: int| 0 <= i < items@.len() ==> (#[trigger] items@[i]) is Some,
        parent == ValueView::List(items_view(items@)),
    ensures
        match out {
            Some(records) => records_view(records@) == items_view(items@)
                && supported_value(parent),
            None => !supported_value(parent),
        },
    decreases parent, 0nat,
{
    let mut records: Vec<Record> = Vec::new();
    let mut i: usize = 0;
    while i < items.len()
        invariant
            0 <= i <= items.len(),
            records@.len() == i,
            parent == ValueView::List(items_view(items@)),
            forall|j: int| 0 <= j < items@.len() ==> (#[trigger] items@[j]) is Some,
            forall|j: int| 0 <= j < i ==> (#[trigger] records@[j])@ == items_view(items@)[j],
            forall|j: int| 0 <= j < i ==> supported(#[trigger] items_view(items@)[j]),
        decreases items.len() - i,
    {
        proof {
            let views = items_view(items@);
            assert(views[i as int] == document_fields(items@[i as int]->0));
            assert(parent->List_0 == views);
            assert(decreases_to!(parent => parent->List_0));
            assert(decreases_to!(views => views[i as int]));
        }
        match &items[i] {
            Some(doc) => {
                match from_document(doc) {
                    Some(record) => records.push(record),
                    None => {
                        assert(!supported(parent->List_0[i as int]));
                        return None;
                    },
                }
            },
            None => {
                return None;
            },
        }
        i += 1;
    }
    assert(records_view(records@) =~= items_view(items@));
    Some(records)
}

/// The record that holds the fields of `doc`, where none of them is foreign.
fn from_document(doc: &bson::Document) -> (out: Option<Record>)
    ensures
        match out {
            Some(record) => record@ == document_fields(*doc) && supported(record@),
            None => !supported(document_fields(*doc)),
        },
    decreases document_fields(*doc), 1nat,
{
    let ghost fields = document_fields(*doc);
    let names = document_keys(doc);
    assert forall|a: int, b: int| 0 <= a < b < fields.len() implies (#[trigger] fields[a]).0 != (
    #[trigger] fields[b]).0 by {
        assert(names@[a]@ != names@[b]@);
    }
    let mut record = Record::new();
    let mut i: usize = 0;
    assert(fields.take(0) =~= Fields::empty());
    while i < names.len()
        invariant
            0 <= i <= names@.len(),
            fields == document_fields(*doc),
            names@.len() == fields.len(),
            forall|j: int| 0 <= j < names@.len() ==> (#[trigger] names@[j])@ == fields[j].0,
            distinct_names(fields),
            record@ == fields.take(i as int),
            forall|j: int| 0 <= j < i ==> supported_value(#[trigger] fields[j].1),
        decreases names@.len() - i,
    {
        let name = names[i].as_str();
        let slot = document_get(doc, name);
        proof {
            lemma_lookup_at(fields, i as int);
            lemma_inserted_fresh(record@, fields, i as int);
            assert(decreases_to!(fields => fields[i as int]));
        }
        let value = match slot.unwrap() {
            Slot::Text(s) => Value::Text(s),
            Slot::Int32(v) => Value::Int32(v),
            Slot::Int64(v) => Value::Int64(v),
            Slot::Bool(v) => Value::Bool(v),
            Slot::Timestamp(v) => Value::Timestamp(v),
            Slot::Binary(subtype, bytes) => Value::Binary(Binary { subtype, bytes }),
            Slot::Nested(child) => {
                proof {
                    let v = fields[i as int].1;
                    assert(v->Nested_0 == document_fields(child));
                    assert(decreases_to!(fields[i as int] => v));
                    assert(decreases_to!(v => v->Nested_0));
                }
                match from_document(&child) {
                    Some(inner) => Value::Nested(inner),
                    None => {
                        assert(!supported_value(fields[i as int].1));
                        return None;
                    },
                }
            },
            Slot::List(items) => {
                if !all_documents(&items) {
                    assert(!supported_value(fields[i as int].1));
                    return None;
                }
                proof {
                    assert(decreases_to!(fields[i as int] => fields[i as int].1));
                }
                match from_items(&items, Ghost(fields[i as int].1)) {
                    Some(records) => Value::List(records),
                    None => {
                        return None;
                    },
                }
            },
            Slot::Foreign => {
                assert(!supported_value(fields[i as int].1));
                return None;
            },
        };
        assert(value@ == fields[i as int].1);
        record.insert(name, value);
        i += 1;
    }
    assert(fields.take(i as int) =~= fields);
    Some(record)
}

/// Whether every item is a document.
fn all_documents(items: &Vec<Option<bson::Document>>) -> (all: bool)
    ensures
        all == forall|i: int| 0 <= i < items@.len() ==> (#[trigger] items@[i]) is Some,
{
    let mut i: usize = 0;
    while i < items.len()
        invariant
            0 <= i <= items.len(),
            forall|j: int| 0 <= j < i ==> (#[trigger] items@[j]) is Some,
        decreases items.len() - i,
    {
        if items[i].is_none() {
            return false;
        }
        i += 1;
    }
    true
}

/// What decoding `bytes` yields: the record that the codec reads, where it
/// reads one and the record holds nothing foreign.
pub open spec fn decoded(bytes: Seq<u8>) -> Option<Fields> {
    match decoding(bytes) {
        Some(fields) => if supported(fields) {
            Some(fields)
        } else {
            None
        },
        None => None,
    }
}

/// The bytes of the canonical form of a mapping: what every signature of
/// the record is computed over.
pub open spec fn canonical_encoding(map: Map<Seq<char>, ValueView>) -> Option<Seq<u8>> {
    encoding(canonical_fields(map))
}

/// The bytes of `record`, with its fields in the record's own order.
/// Fails with `MalformedRecord` exactly where the codec refuses the record.
pub fn encode(record: &Record) -> (out: Result<Vec<u8>, Error>)
    ensures
        match out {
            Ok(bytes) => encoding(record@) == Some(bytes@),
            Err(e) => e == Error::MalformedRecord && encoding(record@) is None,
        },
{
    let doc = to_document(record);
    match document_to_vec(&doc) {
        Some(bytes) => Ok(bytes),
        None => Err(Error::MalformedRecord),
    }
}

/// The record that `bytes` hold. Fails with `MalformedRecord` exactly where
/// the codec refuses the bytes or they hold a value that records do not.
/// What the codec reads is its own affair: it need not be what was encoded,
/// and for a document whose names begin with `$` it may well not be.
pub fn decode(bytes: &[u8]) -> (out: Result<Record, Error>)
    ensures
        match out {
            Ok(record) => decoded(bytes@) == Some(record@),
            Err(e) => e == Error::MalformedRecord && decoded(bytes@) is None,
        },
{
    match document_from_slice(bytes) {
        Some(doc) => match from_document(&doc) {
            Some(record) => Ok(record),
            None => Err(Error::MalformedRecord),
        },
        None => Err(Error::MalformedRecord),
    }
}

/// The canonical bytes of `record`: its fields sorted by name, then
/// encoded. Records that hold the same fields have the same canonical bytes.
pub fn canonical_bytes(record: &Record) -> (out: Result<Vec<u8>, Error>)
    ensures
        match out {
            Ok(bytes) => canonical_encoding(to_map(record@)) == Some(bytes@),
            Err(e) => e == Error::MalformedRecord && canonical_encoding(to_map(record@)) is None,
        },
{
    let sorted = record.canonical();
    encode(&sorted)
}

} // verus!
