//! Providers: named, versioned schemes that turn a typed value into a
//! record and a record back into the value.

use vstd::prelude::*;
use crate::envelope::{check_version, composed, stripped, version_ok, holds_payload, names_of};
use crate::error::Error;
use crate::names::is_reserved;
use crate::record::Record;
use crate::value::{Fields, distinct_names, to_map};

pub mod sensitive_text;
pub mod plaintext;
pub mod recursive;
pub mod burrito_box;
pub mod burrito_box_sym;
pub mod burrito_box_password_sym;

verus! {

/// A scheme for wrapping a payload in a record.
pub trait Provider: Sized {
    /// The stable name of the scheme.
    spec fn name_spec() -> Seq<char>;

    /// The version that the scheme writes and accepts.
    spec fn version_spec() -> Seq<char>;

    /// The payload as named values.
    spec fn payload(&self) -> Fields;

    /// The metadata that the value carries beside its payload.
    spec fn extra(&self) -> Fields;

    /// The names of the payload fields.
    spec fn payload_names() -> Seq<Seq<char>>;

    /// Whether `entry` holds every payload field with a value of its kind.
    spec fn well_typed(entry: Fields) -> bool;

    /// The payload fields carry the payload names, which differ from one
    /// another and from the reserved names.
    proof fn lemma_payload(&self)
        ensures
            names_of(self.payload()) == Self::payload_names(),
            distinct_names(self.payload()),
            forall|i: int|
                0 <= i < Self::payload_names().len() ==> !is_reserved(
                    #[trigger] Self::payload_names()[i],
                ),
    ;

    /// A record that holds the payload of a value is well typed.
    proof fn lemma_well_typed(&self, entry: Fields)
        requires
            holds_payload(to_map(entry), self.payload()),
        ensures
            Self::well_typed(entry),
    ;

    /// Payloads of one provider that stand in the same record are equal.
    proof fn lemma_same_payload(&self, other: &Self, entry: Fields)
        requires
            holds_payload(to_map(entry), self.payload()),
            holds_payload(to_map(entry), other.payload()),
        ensures
            self.payload() == other.payload(),
    ;

    /// The stable name of the scheme.
    fn name() -> (name: String)
        ensures
            name@ == Self::name_spec(),
    ;

    /// The version that the scheme writes and accepts.
    fn version() -> (version: String)
        ensures
            version@ == Self::version_spec(),
    ;

    /// The record of the value, tagged at time `now`: the payload first,
    /// then the metadata under the names that the payload leaves free, then
    /// name and version of the provider and, where none is recorded yet,
    /// the time of creation.
    fn into_entry_at(self, now: i64) -> (entry: Record)
        ensures
            entry@ == composed(
                self.payload(),
                self.extra(),
                Self::name_spec(),
                Self::version_spec(),
                now,
            ),
    ;

    /// The record of the value, tagged at the present time.
    fn into_entry(self) -> (entry: Record)
        ensures
            exists|now: i64|
                entry@ == composed(
                    self.payload(),
                    self.extra(),
                    Self::name_spec(),
                    Self::version_spec(),
                    now,
                ),
    ;

    /// The value that a record holds. The version is checked first: a
    /// record of another version is refused with `VersionMismatch` whatever
    /// else it holds. A record of the right version is refused with
    /// `MalformedRecord` exactly where a payload field is absent or of the
    /// wrong kind. What is not payload becomes the value's metadata.
    fn from_entry(entry: Record) -> (r: Result<Self, Error>)
        ensures
            match r {
                Ok(value) => version_ok(entry@, Self::version_spec()) && Self::well_typed(entry@)
                    && holds_payload(to_map(entry@), value.payload()) && value.extra() == stripped(
                    entry@,
                    Self::payload_names(),
                ),
                Err(e) => if version_ok(entry@, Self::version_spec()) {
                    e == Error::MalformedRecord && !Self::well_typed(entry@)
                } else {
                    e == Error::VersionMismatch
                },
            },
    ;

    /// Accepts a record whose `version` field is the text of this
    /// provider's version, and refuses any other with `VersionMismatch`.
    fn verify_version(entry: &Record) -> (r: Result<(), Error>)
        ensures
            r is Ok <==> version_ok(entry@, Self::version_spec()),
            r is Err ==> r == Err::<(), Error>(Error::VersionMismatch),
    {
        let version = Self::version();
        check_version(entry, version.as_str())
    }
}

} // verus!
