//! Reading and writing the bookkeeping fields of anything shaped like a
//! record.

use vstd::prelude::*;
use crate::clock::now_millis;
use crate::envelope::{with_defaults, overlay};
use crate::names::{PROVIDER, VERSION, CREATED, is_reserved};
use crate::providers::Provider;
use crate::record::{Record, Value};
use crate::value::{ValueView, to_map, lemma_inserted_map, lemma_lookup_map};

verus! {

/// `map` after a write under `name` that goes through unless the name
/// belongs to the payload: a payload field is never overwritten by metadata.
pub open spec fn written(
    map: Map<Seq<char>, ValueView>,
    name: Seq<char>,
    value: ValueView,
    masked: bool,
) -> Map<Seq<char>, ValueView> {
    if masked {
        map
    } else {
        map.insert(name, value)
    }
}

/// A write to the metadata of a value, seen in the value as a whole.
pub proof fn lemma_overlay_write(
    payload: Map<Seq<char>, ValueView>,
    extra: Map<Seq<char>, ValueView>,
    name: Seq<char>,
    value: ValueView,
)
    ensures
        overlay(payload, extra.insert(name, value)) == written(
            overlay(payload, extra),
            name,
            value,
            payload.dom().contains(name),
        ),
{
    assert(overlay(payload, extra.insert(name, value)) =~= written(
        overlay(payload, extra),
        name,
        value,
        payload.dom().contains(name),
    ));
}

/// A value shaped like a record: a payload of its own and metadata fields
/// beside it. A plain record has no payload; all its fields are metadata.
pub trait Metadata: Sized {
    /// The metadata fields.
    spec fn meta(&self) -> Map<Seq<char>, ValueView>;

    /// The whole value as a mapping: the payload, and the metadata under
    /// every name that the payload does not use.
    spec fn record_map(&self) -> Map<Seq<char>, ValueView>;

    /// Whether the payload of this type uses the name.
    spec fn is_payload_name(name: Seq<char>) -> bool;

    /// No payload uses a reserved name.
    proof fn lemma_reserved_not_payload(name: Seq<char>)
        requires
            is_reserved(name),
        ensures
            !Self::is_payload_name(name),
    ;

    /// Under a name that the payload does not use, the value as a whole
    /// holds what the metadata holds.
    proof fn lemma_meta_in_record(&self, name: Seq<char>)
        requires
            !Self::is_payload_name(name),
        ensures
            self.record_map().dom().contains(name) == self.meta().dom().contains(name),
            self.meta().dom().contains(name) ==> self.record_map()[name] == self.meta()[name],
    ;

    /// The metadata stored under `key`, if any.
    fn get_meta(&self, key: &str) -> (r: Option<&Value>)
        ensures
            match r {
                Some(value) => self.meta().dom().contains(key@) && self.meta()[key@] == value@,
                None => !self.meta().dom().contains(key@),
            },
    ;

    /// Writes `value` under `key`, whatever was there.
    fn set_meta(&mut self, key: &str, value: Value)
        ensures
            final(self).meta() == old(self).meta().insert(key@, value@),
            final(self).record_map() == written(
                old(self).record_map(),
                key@,
                value@,
                Self::is_payload_name(key@),
            ),
    ;

    /// The value laid out as a record.
    fn to_record(&self) -> (record: Record)
        ensures
            to_map(record@) == self.record_map(),
    ;

    /// Writes `value` under `key` only where no metadata is stored under
    /// `key` yet: the first writer wins.
    fn add_meta(&mut self, key: &str, value: Value)
        ensures
            final(self).meta() == if old(self).meta().dom().contains(key@) {
                old(self).meta()
            } else {
                old(self).meta().insert(key@, value@)
            },
            final(self).record_map() == if old(self).meta().dom().contains(key@) {
                old(self).record_map()
            } else {
                written(old(self).record_map(), key@, value@, Self::is_payload_name(key@))
            },
    {
        if self.get_meta(key).is_none() {
            self.set_meta(key, value);
        }
    }

    /// `set_meta`, by value.
    fn with_meta(self, key: &str, value: Value) -> (out: Self)
        ensures
            out.meta() == self.meta().insert(key@, value@),
            out.record_map() == written(
                self.record_map(),
                key@,
                value@,
                Self::is_payload_name(key@),
            ),
    {
        let mut out = self;
        out.set_meta(key, value);
        out
    }

    /// `add_meta`, by value.
    fn and_meta(self, key: &str, value: Value) -> (out: Self)
        ensures
            out.meta() == if self.meta().dom().contains(key@) {
                self.meta()
            } else {
                self.meta().insert(key@, value@)
            },
            out.record_map() == if self.meta().dom().contains(key@) {
                self.record_map()
            } else {
                written(self.record_map(), key@, value@, Self::is_payload_name(key@))
            },
    {
        let mut out = self;
        out.add_meta(key, value);
        out
    }

    /// Tags the value with provider `T` at time `now`: name and version are
    /// always refreshed, the time of creation is written once and then kept.
    fn and_defaults_at<T: Provider>(self, now: i64) -> (out: Self)
        ensures
            out.meta() == with_defaults(self.meta(), T::name_spec(), T::version_spec(), now),
            out.record_map() == with_defaults(
                self.record_map(),
                T::name_spec(),
                T::version_spec(),
                now,
            ),
    {
        proof {
            Self::lemma_reserved_not_payload(PROVIDER@);
            Self::lemma_reserved_not_payload(VERSION@);
            Self::lemma_reserved_not_payload(CREATED@);
        }
        let named = self.with_meta(PROVIDER, Value::Text(T::name()));
        let versioned = named.with_meta(VERSION, Value::Text(T::version()));
        proof {
            versioned.lemma_meta_in_record(CREATED@);
        }
        versioned.and_meta(CREATED, Value::Timestamp(now))
    }

    /// Tags the value with provider `T` at the present time.
    fn and_defaults<T: Provider>(self) -> (out: Self)
        ensures
            exists|now: i64|
                out.meta() == with_defaults(self.meta(), T::name_spec(), T::version_spec(), now)
                    && out.record_map() == with_defaults(
                    self.record_map(),
                    T::name_spec(),
                    T::version_spec(),
                    now,
                ),
    {
        let now = now_millis();
        self.and_defaults_at::<T>(now)
    }
}

impl Metadata for Record {
    open spec fn meta(&self) -> Map<Seq<char>, ValueView> {
        to_map(self@)
    }

    open spec fn record_map(&self) -> Map<Seq<char>, ValueView> {
        to_map(self@)
    }

    open spec fn is_payload_name(name: Seq<char>) -> bool {
        false
    }

    proof fn lemma_reserved_not_payload(name: Seq<char>) {
    }

    proof fn lemma_meta_in_record(&self, name: Seq<char>) {
    }

    fn get_meta(&self, key: &str) -> (r: Option<&Value>) {
        proof {
            lemma_lookup_map(self@, key@);
        }
        self.get(key)
    }

    fn set_meta(&mut self, key: &str, value: Value) {
        proof {
            use_type_invariant(&*self);
            lemma_inserted_map(self@, key@, value@);
        }
        self.insert(key, value);
    }

    fn to_record(&self) -> (record: Record)
        ensures
            record@ == self@,
    {
        self.clone()
    }
}

} // verus!
