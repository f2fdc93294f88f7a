//! A text that is meant to be kept confidential.

use vstd::prelude::*;
use crate::clock::now_millis;
use crate::envelope::{
    holds_text, merged, apply_defaults, merge_into, push_field, take_text, overlay, names_of,
    lemma_merged, lemma_stripped_one, lemma_payload_dom,
};
use crate::error::Error;
use crate::metadata::{Metadata, lemma_overlay_write};
use crate::names::{is_reserved, lemma_not_reserved};
use crate::providers::Provider;
use crate::record::{Record, Value};
use crate::value::{ValueView, Fields, to_map, lemma_absent, lemma_inserted_map, lemma_lookup_map};

verus! {

/// Name of the payload field.
pub const PLAINTEXT: &'static str = "PLAINTEXT";

/// A confidential text with its metadata.
#[derive(Debug, PartialEq)]
pub struct SensitiveText {
    pub plaintext: String,
    pub additional_fields: Record,
}

impl Clone for SensitiveText {
    fn clone(&self) -> (out: Self)
        ensures
            out.payload() == self.payload(),
            out.extra() == self.extra(),
    {
        SensitiveText {
            plaintext: self.plaintext.clone(),
            additional_fields: self.additional_fields.clone(),
        }
    }
}

impl SensitiveText {
    /// The text without metadata.
    pub fn new(plaintext: &str) -> (out: Self)
        ensures
            out.plaintext@ == plaintext@,
            out.additional_fields@ == Fields::empty(),
    {
        SensitiveText { plaintext: plaintext.to_string(), additional_fields: Record::new() }
    }
}

/// The payload name is not reserved.
proof fn lemma_names()
    ensures
        !is_reserved(PLAINTEXT@),
{
    reveal_strlit("PLAINTEXT");
    lemma_not_reserved(PLAINTEXT@);
}

impl Provider for SensitiveText {
    open spec fn name_spec() -> Seq<char> {
        "sensitive_text"@
    }

    open spec fn version_spec() -> Seq<char> {
        "0.0.0"@
    }

    open spec fn payload(&self) -> Fields {
        seq![(PLAINTEXT@, ValueView::Text(self.plaintext@))]
    }

    open spec fn extra(&self) -> Fields {
        self.additional_fields@
    }

    open spec fn payload_names() -> Seq<Seq<char>> {
        seq![PLAINTEXT@]
    }

    open spec fn well_typed(entry: Fields) -> bool {
        holds_text(entry, PLAINTEXT@)
    }

    proof fn lemma_payload(&self) {
        lemma_names();
        assert(names_of(self.payload()) =~= Self::payload_names());
    }

    proof fn lemma_well_typed(&self, entry: Fields) {
        assert(self.payload()[0].0 == PLAINTEXT@);
        lemma_lookup_map(entry, PLAINTEXT@);
    }

    proof fn lemma_same_payload(&self, other: &Self, entry: Fields) {
        assert(self.payload()[0].0 == PLAINTEXT@);
        assert(other.payload()[0].0 == PLAINTEXT@);
        assert(self.payload() =~= other.payload());
    }

    fn name() -> (name: String) {
        "sensitive_text".to_string()
    }

    fn version() -> (version: String) {
        "0.0.0".to_string()
    }

    fn into_entry_at(self, now: i64) -> (entry: Record) {
        let mut entry = self.payload_record();
        merge_into(&mut entry, &self.additional_fields);
        apply_defaults(&mut entry, Self::name().as_str(), Self::version().as_str(), now);
        entry
    }

    fn into_entry(self) -> (entry: Record) {
        let now = now_millis();
        self.into_entry_at(now)
    }

    fn from_entry(entry: Record) -> (r: Result<Self, Error>) {
        match Self::verify_version(&entry) {
            Err(e) => Err(e),
            Ok(()) => {
                let ghost before = entry@;
                let mut rest = entry;
                proof {
                    lemma_lookup_map(before, PLAINTEXT@);
                    lemma_stripped_one(before, PLAINTEXT@);
                }
                match take_text(&mut rest, PLAINTEXT) {
                    Some(plaintext) => {
                        let value = SensitiveText { plaintext, additional_fields: rest };
                        assert(value.payload()[0] == (PLAINTEXT@, ValueView::Text(value.plaintext@)));
                        Ok(value)
                    },
                    None => Err(Error::MalformedRecord),
                }
            },
        }
    }
}

impl SensitiveText {
    /// The payload alone, as a record.
    fn payload_record(&self) -> (record: Record)
        ensures
            record@ == self.payload(),
    {
        let mut record = Record::new();
        proof {
            lemma_absent(record@, PLAINTEXT@);
        }
        push_field(&mut record, PLAINTEXT, Value::Text(self.plaintext.clone()));
        assert(record@ =~= self.payload());
        record
    }
}

impl Metadata for SensitiveText {
    open spec fn meta(&self) -> Map<Seq<char>, ValueView> {
        to_map(self.additional_fields@)
    }

    open spec fn record_map(&self) -> Map<Seq<char>, ValueView> {
        overlay(to_map(self.payload()), to_map(self.additional_fields@))
    }

    open spec fn is_payload_name(name: Seq<char>) -> bool {
        Self::payload_names().contains(name)
    }

    proof fn lemma_reserved_not_payload(name: Seq<char>) {
        lemma_names();
        if Self::payload_names().contains(name) {
            let i = choose|i: int|
                0 <= i < Self::payload_names().len() && Self::payload_names()[i] == name;
        }
    }

    proof fn lemma_meta_in_record(&self, name: Seq<char>) {
        self.lemma_payload();
        lemma_payload_dom(self.payload(), name);
    }

    fn get_meta(&self, key: &str) -> (r: Option<&Value>) {
        proof {
            lemma_lookup_map(self.additional_fields@, key@);
        }
        self.additional_fields.get(key)
    }

    fn set_meta(&mut self, key: &str, value: Value) {
        proof {
            use_type_invariant(&self.additional_fields);
            lemma_inserted_map(self.additional_fields@, key@, value@);
            self.lemma_payload();
            lemma_payload_dom(self.payload(), key@);
            lemma_overlay_write(
                to_map(self.payload()),
                to_map(self.additional_fields@),
                key@,
                value@,
            );
        }
        self.additional_fields.insert(key, value);
    }

    fn to_record(&self) -> (record: Record)
        ensures
            record@ == merged(self.payload(), self.extra()),
    {
        let mut record = self.payload_record();
        proof {
            use_type_invariant(&self.additional_fields);
            use_type_invariant(&record);
            lemma_merged(record@, self.additional_fields@);
        }
        merge_into(&mut record, &self.additional_fields);
        record
    }
}

} // verus!
