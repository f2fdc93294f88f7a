//! A container of records. Each child is a record of a provider of its
//! own, so children may be plain, encrypted, or containers themselves.
//! Nothing here bounds how deep containers nest: a caller that needs a bound
//! checks it before it descends.

use vstd::prelude::*;
use crate::clock::now_millis;
use crate::envelope::{
    holds_list, merged, apply_defaults, merge_into, push_field, take_list, overlay, names_of,
    lemma_merged, lemma_stripped_one, lemma_payload_dom,
};
use crate::error::Error;
use crate::metadata::{Metadata, lemma_overlay_write};
use crate::names::{is_reserved, lemma_not_reserved};
use crate::providers::Provider;
use crate::record::{Record, Value, records_view};
use crate::value::{ValueView, Fields, to_map, lemma_absent, lemma_inserted_map, lemma_lookup_map};

verus! {

/// Name of the payload field.
pub const CHILDREN: &'static str = "CHILDREN";

/// A sequence of records with its metadata.
#[derive(Debug, PartialEq)]
pub struct Recursive {
    pub children: Vec<Record>,
    pub additional_fields: Record,
}

impl Clone for Recursive {
    fn clone(&self) -> (out: Self)
        ensures
            out.payload() == self.payload(),
            out.extra() == self.extra(),
    {
        Recursive {
            children: clone_records(&self.children),
            additional_fields: self.additional_fields.clone(),
        }
    }
}

impl Recursive {
    /// The container of `children`, without metadata.
    pub fn new(children: Vec<Record>) -> (out: Self)
        ensures
            out.children == children,
            out.additional_fields@ == Fields::empty(),
    {
        Recursive { children, additional_fields: Record::new() }
    }
}

/// Copies of `records`, with the same views.
pub fn clone_records(records: &Vec<Record>) -> (out: Vec<Record>)
    ensures
        records_view(out@) == records_view(records@),
{
    let mut out: Vec<Record> = Vec::new();
    let mut i: usize = 0;
    while i < records.len()
        invariant
            0 <= i <= records.len(),
            out@.len() == i,
            forall|j: int| 0 <= j < i ==> out@[j]@ == records@[j]@,
        decreases records.len() - i,
    {
        out.push(records[i].clone());
        i += 1;
    }
    assert(records_view(out@) =~= records_view(records@));
    out
}

/// The payload name is not reserved.
proof fn lemma_names()
    ensures
        !is_reserved(CHILDREN@),
{
    reveal_strlit("CHILDREN");
    lemma_not_reserved(CHILDREN@);
}

impl Provider for Recursive {
    open spec fn name_spec() -> Seq<char> {
        "burrito_recursive"@
    }

    open spec fn version_spec() -> Seq<char> {
        "0.0.0"@
    }

    open spec fn payload(&self) -> Fields {
        seq![(CHILDREN@, ValueView::List(records_view(self.children@)))]
    }

    open spec fn extra(&self) -> Fields {
        self.additional_fields@
    }

    open spec fn payload_names() -> Seq<Seq<char>> {
        seq![CHILDREN@]
    }

    open spec fn well_typed(entry: Fields) -> bool {
        holds_list(entry, CHILDREN@)
    }

    proof fn lemma_payload(&self) {
        lemma_names();
        assert(names_of(self.payload()) =~= Self::payload_names());
    }

    proof fn lemma_well_typed(&self, entry: Fields) {
        assert(self.payload()[0].0 == CHILDREN@);
        lemma_lookup_map(entry, CHILDREN@);
    }

    proof fn lemma_same_payload(&self, other: &Self, entry: Fields) {
        assert(self.payload()[0].0 == CHILDREN@);
        assert(other.payload()[0].0 == CHILDREN@);
        assert(self.payload() =~= other.payload());
    }

    fn name() -> (name: String) {
        "burrito_recursive".to_string()
    }

    fn version() -> (version: String) {
        "0.0.0".to_string()
    }

    fn into_entry_at(self, now: i64) -> (entry: Record) {
        let mut entry = self.payload_record();
        merge_into(&mut entry, &self.additional_fields);
        apply_defaults(&mut entry, Self::name().as_str(), Self::version().as_str(), now);
        entry
    }

    fn into_entry(self) -> (entry: Record) {
        let now = now_millis();
        self.into_entry_at(now)
    }

    fn from_entry(entry: Record) -> (r: Result<Self, Error>) {
        match Self::verify_version(&entry) {
            Err(e) => Err(e),
            Ok(()) => {
                let ghost before = entry@;
                let mut rest = entry;
                proof {
                    lemma_lookup_map(before, CHILDREN@);
                    lemma_stripped_one(before, CHILDREN@);
                }
                match take_list(&mut rest, CHILDREN) {
                    Some(children) => {
                        let value = Recursive { children, additional_fields: rest };
                        assert(value.payload()[0] == (
                            CHILDREN@,
                            ValueView::List(records_view(value.children@)),
                        ));
                        Ok(value)
                    },
                    None => Err(Error::MalformedRecord),
                }
            },
        }
    }
}

impl Recursive {
    /// The payload alone, as a record.
    fn payload_record(&self) -> (record: Record)
        ensures
            record@ == self.payload(),
    {
        let mut record = Record::new();
        proof {
            lemma_absent(record@, CHILDREN@);
        }
        push_field(&mut record, CHILDREN, Value::List(clone_records(&self.children)));
        assert(record@ =~= self.payload());
        record
    }
}

impl Metadata for Recursive {
    open spec fn meta(&self) -> Map<Seq<char>, ValueView> {
        to_map(self.additional_fields@)
    }

    open spec fn record_map(&self) -> Map<Seq<char>, ValueView> {
        overlay(to_map(self.payload()), to_map(self.additional_fields@))
    }

    open spec fn is_payload_name(name: Seq<char>) -> bool {
        Self::payload_names().contains(name)
    }

    proof fn lemma_reserved_not_payload(name: Seq<char>) {
        lemma_names();
        if Self::payload_names().contains(name) {
            let i = choose|i: int|
                0 <= i < Self::payload_names().len() && Self::payload_names()[i] == name;
        }
    }

    proof fn lemma_meta_in_record(&self, name: Seq<char>) {
        self.lemma_payload();
        lemma_payload_dom(self.payload(), name);
    }

    fn get_meta(&self, key: &str) -> (r: Option<&Value>) {
        proof {
            lemma_lookup_map(self.additional_fields@, key@);
        }
        self.additional_fields.get(key)
    }

    fn set_meta(&mut self, key: &str, value: Value) {
        proof {
            use_type_invariant(&self.additional_fields);
            lemma_inserted_map(self.additional_fields@, key@, value@);
            self.lemma_payload();
            lemma_payload_dom(self.payload(), key@);
            lemma_overlay_write(
                to_map(self.payload()),
                to_map(self.additional_fields@),
                key@,
                value@,
            );
        }
        self.additional_fields.insert(key, value);
    }

    fn to_record(&self) -> (record: Record)
        ensures
            record@ == merged(self.payload(), self.extra()),
    {
        let mut record = self.payload_record();
        proof {
            use_type_invariant(&self.additional_fields);
            use_type_invariant(&record);
            lemma_merged(record@, self.additional_fields@);
        }
        merge_into(&mut record, &self.additional_fields);
        record
    }
}

} // verus!
