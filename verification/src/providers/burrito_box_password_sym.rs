//! Data kept under a key that is derived, at sensitive cost, from what the
//! caller supplies and a salt that the record stores in the clear.

use vstd::prelude::*;
use crate::clock::now_millis;
use vstd::utf8::encode_utf8;
use crate::crypto::{SENSITIVE_MEMLIMIT, SENSITIVE_OPSLIMIT, derive_key, password_key};
use crate::encryption::KeyFrom;
use crate::envelope::{
    holds_binary, holds_text, merged, apply_defaults, get_binary, get_text, merge_into, push_field,
    strip_two, overlay, names_of, lemma_merged, lemma_held, lemma_payload_dom,
};
use crate::error::Error;
use crate::metadata::{Metadata, lemma_overlay_write};
use crate::names::{is_reserved, lemma_not_reserved};
use crate::providers::Provider;
use crate::record::{Binary, Record, Value};
use crate::value::{ValueView, Fields, to_map, lemma_absent, lemma_inserted_map, lemma_lookup_map};

verus! {

/// Name of the field that holds the data.
pub const DATA: &'static str = "data";

/// Name of the field that holds the salt.
pub const SALT: &'static str = "salt";

/// Protected data, the salt of its key, and its metadata.
#[derive(Debug, PartialEq)]
pub struct BurritoBoxPassword {
    pub data: Binary,
    pub salt: String,
    pub additional_fields: Record,
}

impl Clone for BurritoBoxPassword {
    fn clone(&self) -> (out: Self)
        ensures
            out.payload() == self.payload(),
            out.extra() == self.extra(),
    {
        BurritoBoxPassword {
            data: self.data.clone(),
            salt: self.salt.clone(),
            additional_fields: self.additional_fields.clone(),
        }
    }
}

/// The payload names differ and are not reserved.
proof fn lemma_names()
    ensures
        !is_reserved(DATA@),
        !is_reserved(SALT@),
        DATA@ != SALT@,
{
    reveal_strlit("data");
    reveal_strlit("salt");
    lemma_not_reserved(DATA@);
    lemma_not_reserved(SALT@);
    assert(DATA@[0] != SALT@[0]);
}

impl Provider for BurritoBoxPassword {
    open spec fn name_spec() -> Seq<char> {
        "burrito_box_password_sym"@
    }

    open spec fn version_spec() -> Seq<char> {
        "0.0.0"@
    }

    open spec fn payload(&self) -> Fields {
        seq![
            (DATA@, self.data.value()),
            (SALT@, ValueView::Text(self.salt@)),
        ]
    }

    open spec fn extra(&self) -> Fields {
        self.additional_fields@
    }

    open spec fn payload_names() -> Seq<Seq<char>> {
        seq![DATA@, SALT@]
    }

    open spec fn well_typed(entry: Fields) -> bool {
        &&& holds_binary(entry, DATA@)
        &&& holds_text(entry, SALT@)
    }

    proof fn lemma_payload(&self) {
        lemma_names();
        assert(names_of(self.payload()) =~= Self::payload_names());
    }

    proof fn lemma_well_typed(&self, entry: Fields) {
        assert(self.payload()[0].0 == DATA@);
        assert(self.payload()[1].0 == SALT@);
        lemma_lookup_map(entry, DATA@);
        lemma_lookup_map(entry, SALT@);
    }

    proof fn lemma_same_payload(&self, other: &Self, entry: Fields) {
        assert(self.payload()[0].0 == DATA@ && other.payload()[0].0 == DATA@);
        assert(self.payload()[1].0 == SALT@ && other.payload()[1].0 == SALT@);
        assert(self.payload() =~= other.payload());
    }

    fn name() -> (name: String) {
        "burrito_box_password_sym".to_string()
    }

    fn version() -> (version: String) {
        "0.0.0".to_string()
    }

    fn into_entry_at(self, now: i64) -> (entry: Record) {
        let mut entry = self.payload_record();
        merge_into(&mut entry, &self.additional_fields);
        apply_defaults(&mut entry, Self::name().as_str(), Self::version().as_str(), now);
        entry
    }

    fn into_entry(self) -> (entry: Record) {
        let now = now_millis();
        self.into_entry_at(now)
    }

    fn from_entry(entry: Record) -> (r: Result<Self, Error>) {
        match Self::verify_version(&entry) {
            Err(e) => Err(e),
            Ok(()) => {
                let ghost before = entry@;
                let data = match get_binary(&entry, DATA) {
                    Some(binary) => binary,
                    None => {
                        return Err(Error::MalformedRecord);
                    },
                };
                let salt = match get_text(&entry, SALT) {
                    Some(text) => text,
                    None => {
                        return Err(Error::MalformedRecord);
                    },
                };
                let rest = strip_two(entry, DATA, SALT);
                let value = BurritoBoxPassword { data, salt, additional_fields: rest };
                proof {
                    let payload = value.payload();
                    assert(payload[0] == (DATA@, data.value()));
                    assert(payload[1] == (SALT@, ValueView::Text(salt@)));
                    lemma_held(before, DATA@, payload[0].1);
                    lemma_held(before, SALT@, payload[1].1);
                }
                Ok(value)
            },
        }
    }
}

impl BurritoBoxPassword {
    /// The payload alone, as a record.
    fn payload_record(&self) -> (record: Record)
        ensures
            record@ == self.payload(),
    {
        let mut record = Record::new();
        proof {
            lemma_names();
            lemma_absent(record@, DATA@);
        }
        push_field(&mut record, DATA, Value::Binary(self.data.clone()));
        proof {
            lemma_absent(record@, SALT@);
        }
        push_field(&mut record, SALT, Value::Text(self.salt.clone()));
        assert(record@ =~= self.payload());
        record
    }
}

impl Metadata for BurritoBoxPassword {
    open spec fn meta(&self) -> Map<Seq<char>, ValueView> {
        to_map(self.additional_fields@)
    }

    open spec fn record_map(&self) -> Map<Seq<char>, ValueView> {
        overlay(to_map(self.payload()), to_map(self.additional_fields@))
    }

    open spec fn is_payload_name(name: Seq<char>) -> bool {
        Self::payload_names().contains(name)
    }

    proof fn lemma_reserved_not_payload(name: Seq<char>) {
        lemma_names();
        if Self::payload_names().contains(name) {
            let i = choose|i: int|
                0 <= i < Self::payload_names().len() && Self::payload_names()[i] == name;
        }
    }

    proof fn lemma_meta_in_record(&self, name: Seq<char>) {
        self.lemma_payload();
        lemma_payload_dom(self.payload(), name);
    }

    fn get_meta(&self, key: &str) -> (r: Option<&Value>) {
        proof {
            lemma_lookup_map(self.additional_fields@, key@);
        }
        self.additional_fields.get(key)
    }

    fn set_meta(&mut self, key: &str, value: Value) {
        proof {
            use_type_invariant(&self.additional_fields);
            lemma_inserted_map(self.additional_fields@, key@, value@);
            self.lemma_payload();
            lemma_payload_dom(self.payload(), key@);
            lemma_overlay_write(
                to_map(self.payload()),
                to_map(self.additional_fields@),
                key@,
                value@,
            );
        }
        self.additional_fields.insert(key, value);
    }

    fn to_record(&self) -> (record: Record)
        ensures
            record@ == merged(self.payload(), self.extra()),
    {
        let mut record = self.payload_record();
        proof {
            use_type_invariant(&self.additional_fields);
            use_type_invariant(&record);
            lemma_merged(record@, self.additional_fields@);
        }
        merge_into(&mut record, &self.additional_fields);
        record
    }
}

impl KeyFrom for BurritoBoxPassword {
    open spec fn derived(&self, data: Seq<u8>) -> Option<Seq<u8>> {
        password_key(data, encode_utf8(self.salt@), SENSITIVE_OPSLIMIT, SENSITIVE_MEMLIMIT)
    }

    fn key_from(&self, data: Vec<u8>) -> (r: Result<[u8; 32], Error>) {
        match derive_key(
            data.as_slice(),
            self.salt.as_str().as_bytes(),
            SENSITIVE_OPSLIMIT,
            SENSITIVE_MEMLIMIT,
        ) {
            Some(key) => Ok(key),
            None => Err(Error::MalformedKey),
        }
    }
}

} // verus!
