//! The sealed box: a record encrypted to a public key. An ephemeral key
//! pair is made for each box, so the box names no sender.

use vstd::prelude::*;
use crate::clock::now_millis;
use crate::codec::{decode, encode, encoding};
use crate::crypto::{
    box_open, box_pair, box_seal, to_array, to_vec, box_opened, box_public_key, seal_refused,
};
use crate::encryption::{EncryptionWaiter, unboxed};
use crate::envelope::{tagged, 
    holds_binary, merged, apply_defaults, get_binary, merge_into, push_field, strip_three, overlay,
    with_defaults, names_of, holds_payload, lemma_tagged, lemma_merged, lemma_held,
    lemma_payload_dom,
};
use crate::error::Error;
use crate::metadata::{Metadata, lemma_overlay_write};
use crate::names::{is_reserved, lemma_not_reserved};
use crate::providers::Provider;
use crate::record::{Binary, Record, Value};
use crate::value::{
    ValueView, Fields, ENCRYPTED as ENCRYPTED_KIND, SENSITIVE, to_map, lemma_absent,
    lemma_inserted_map, lemma_lookup_map,
};

verus! {

/// Name of the field that holds the ciphertext.
pub const ENCRYPTED: &'static str = "ENCRYPTED";

/// Name of the field that holds the ephemeral public key.
pub const EPHEMERAL_PUBLIC_KEY: &'static str = "EPHEMERAL_PUBLIC_KEY";

/// Name of the field that holds the authentication tag.
pub const MAC: &'static str = "MAC";

/// A record sealed for the holder of a secret key.
#[derive(Debug, PartialEq)]
pub struct BurritoBox {
    pub encrypted: Binary,
    pub ephemeral_public_key: Binary,
    pub mac: Binary,
    pub additional_fields: Record,
}

impl Clone for BurritoBox {
    fn clone(&self) -> (out: Self)
        ensures
            out.payload() == self.payload(),
            out.extra() == self.extra(),
    {
        BurritoBox {
            encrypted: self.encrypted.clone(),
            ephemeral_public_key: self.ephemeral_public_key.clone(),
            mac: self.mac.clone(),
            additional_fields: self.additional_fields.clone(),
        }
    }
}

/// The payload names differ from one another and are not reserved.
proof fn lemma_names()
    ensures
        !is_reserved(ENCRYPTED@),
        !is_reserved(EPHEMERAL_PUBLIC_KEY@),
        !is_reserved(MAC@),
        ENCRYPTED@ != EPHEMERAL_PUBLIC_KEY@,
        ENCRYPTED@ != MAC@,
        EPHEMERAL_PUBLIC_KEY@ != MAC@,
{
    reveal_strlit("ENCRYPTED");
    reveal_strlit("EPHEMERAL_PUBLIC_KEY");
    reveal_strlit("MAC");
    lemma_not_reserved(ENCRYPTED@);
    lemma_not_reserved(EPHEMERAL_PUBLIC_KEY@);
    lemma_not_reserved(MAC@);
    assert(ENCRYPTED@[1] != EPHEMERAL_PUBLIC_KEY@[1]);
    assert(ENCRYPTED@[0] != MAC@[0]);
    assert(EPHEMERAL_PUBLIC_KEY@[0] != MAC@[0]);
}

impl Provider for BurritoBox {
    open spec fn name_spec() -> Seq<char> {
        "burrito_asymmetric_box"@
    }

    open spec fn version_spec() -> Seq<char> {
        "0.0.0"@
    }

    open spec fn payload(&self) -> Fields {
        seq![
            (ENCRYPTED@, self.encrypted.value()),
            (EPHEMERAL_PUBLIC_KEY@, self.ephemeral_public_key.value()),
            (MAC@, self.mac.value()),
        ]
    }

    open spec fn extra(&self) -> Fields {
        self.additional_fields@
    }

    open spec fn payload_names() -> Seq<Seq<char>> {
        seq![ENCRYPTED@, EPHEMERAL_PUBLIC_KEY@, MAC@]
    }

    open spec fn well_typed(entry: Fields) -> bool {
        &&& holds_binary(entry, ENCRYPTED@)
        &&& holds_binary(entry, EPHEMERAL_PUBLIC_KEY@)
        &&& holds_binary(entry, MAC@)
    }

    proof fn lemma_payload(&self) {
        lemma_names();
        assert(names_of(self.payload()) =~= Self::payload_names());
    }

    proof fn lemma_well_typed(&self, entry: Fields) {
        assert(self.payload()[0].0 == ENCRYPTED@);
        assert(self.payload()[1].0 == EPHEMERAL_PUBLIC_KEY@);
        assert(self.payload()[2].0 == MAC@);
        lemma_lookup_map(entry, ENCRYPTED@);
        lemma_lookup_map(entry, EPHEMERAL_PUBLIC_KEY@);
        lemma_lookup_map(entry, MAC@);
    }

    proof fn lemma_same_payload(&self, other: &Self, entry: Fields) {
        assert(self.payload()[0].0 == ENCRYPTED@ && other.payload()[0].0 == ENCRYPTED@);
        assert(self.payload()[1].0 == EPHEMERAL_PUBLIC_KEY@);
        assert(other.payload()[1].0 == EPHEMERAL_PUBLIC_KEY@);
        assert(self.payload()[2].0 == MAC@ && other.payload()[2].0 == MAC@);
        assert(self.payload() =~= other.payload());
    }

    fn name() -> (name: String) {
        "burrito_asymmetric_box".to_string()
    }

    fn version() -> (version: String) {
        "0.0.0".to_string()
    }

    fn into_entry_at(self, now: i64) -> (entry: Record) {
        let mut entry = self.payload_record();
        merge_into(&mut entry, &self.additional_fields);
        apply_defaults(&mut entry, Self::name().as_str(), Self::version().as_str(), now);
        entry
    }

    fn into_entry(self) -> (entry: Record) {
        let now = now_millis();
        self.into_entry_at(now)
    }

    fn from_entry(entry: Record) -> (r: Result<Self, Error>) {
        match Self::verify_version(&entry) {
            Err(e) => Err(e),
            Ok(()) => {
                let ghost before = entry@;
                let encrypted = match get_binary(&entry, ENCRYPTED) {
                    Some(binary) => binary,
                    None => {
                        return Err(Error::MalformedRecord);
                    },
                };
                let ephemeral_public_key = match get_binary(&entry, EPHEMERAL_PUBLIC_KEY) {
                    Some(binary) => binary,
                    None => {
                        return Err(Error::MalformedRecord);
                    },
                };
                let mac = match get_binary(&entry, MAC) {
                    Some(binary) => binary,
                    None => {
                        return Err(Error::MalformedRecord);
                    },
                };
                let rest = strip_three(entry, ENCRYPTED, EPHEMERAL_PUBLIC_KEY, MAC);
                let value =
                    BurritoBox { encrypted, ephemeral_public_key, mac, additional_fields: rest };
                proof {
                    let payload = value.payload();
                    assert(holds_payload(to_map(before), payload)) by {
                        assert(payload[0] == (ENCRYPTED@, encrypted.value()));
                        assert(payload[1] == (EPHEMERAL_PUBLIC_KEY@, ephemeral_public_key.value()));
                        assert(payload[2] == (MAC@, mac.value()));
                        lemma_held(before, ENCRYPTED@, payload[0].1);
                        lemma_held(before, EPHEMERAL_PUBLIC_KEY@, payload[1].1);
                        lemma_held(before, MAC@, payload[2].1);
                    }
                }
                Ok(value)
            },
        }
    }
}

impl Metadata for BurritoBox {
    open spec fn meta(&self) -> Map<Seq<char>, ValueView> {
        to_map(self.additional_fields@)
    }

    open spec fn record_map(&self) -> Map<Seq<char>, ValueView> {
        overlay(to_map(self.payload()), to_map(self.additional_fields@))
    }

    open spec fn is_payload_name(name: Seq<char>) -> bool {
        Self::payload_names().contains(name)
    }

    proof fn lemma_reserved_not_payload(name: Seq<char>) {
        lemma_names();
        if Self::payload_names().contains(name) {
            let i = choose|i: int|
                0 <= i < Self::payload_names().len() && Self::payload_names()[i] == name;
        }
    }

    proof fn lemma_meta_in_record(&self, name: Seq<char>) {
        self.lemma_payload();
        lemma_payload_dom(self.payload(), name);
    }

    fn get_meta(&self, key: &str) -> (r: Option<&Value>) {
        proof {
            lemma_lookup_map(self.additional_fields@, key@);
        }
        self.additional_fields.get(key)
    }

    fn set_meta(&mut self, key: &str, value: Value) {
        proof {
            use_type_invariant(&self.additional_fields);
            lemma_inserted_map(self.additional_fields@, key@, value@);
            self.lemma_payload();
            lemma_payload_dom(self.payload(), key@);
            lemma_overlay_write(
                to_map(self.payload()),
                to_map(self.additional_fields@),
                key@,
                value@,
            );
        }
        self.additional_fields.insert(key, value);
    }

    fn to_record(&self) -> (record: Record)
        ensures
            record@ == merged(self.payload(), self.extra()),
    {
        let mut record = self.payload_record();
        proof {
            use_type_invariant(&self.additional_fields);
            use_type_invariant(&record);
            lemma_merged(record@, self.additional_fields@);
        }
        merge_into(&mut record, &self.additional_fields);
        record
    }
}

/// What the holder of the key pair finds in a sealed box with these parts.
/// Key material of the wrong length is malformed.
pub open spec fn sealed_contents(
    public: Seq<u8>,
    secret: Seq<u8>,
    ephemeral: Seq<u8>,
    mac: Seq<u8>,
    ciphertext: Seq<u8>,
) -> Result<Fields, Error> {
    if ephemeral.len() != 32 || mac.len() != 16 {
        Err(Error::MalformedKey)
    } else {
        unboxed(box_opened(public, secret, ephemeral, mac, ciphertext))
    }
}

/// Whether the tag binds the sealed box: no box that differs from this one
/// in its tag alone opens.
pub open spec fn sealed_tag_binds(
    public: Seq<u8>,
    secret: Seq<u8>,
    ephemeral: Seq<u8>,
    mac: Seq<u8>,
    ciphertext: Seq<u8>,
) -> bool {
    forall|other: Seq<u8>|
        other != mac ==> (#[trigger] sealed_contents(
            public,
            secret,
            ephemeral,
            other,
            ciphertext,
        )) is Err
}

/// Whether `r` is the outcome of sealing `entry` for `recipient` at time
/// `now`: a box with its tags that opens to the encoded record for every
/// holder of a secret key that belongs to `recipient`, or `MalformedRecord`
/// where the codec refuses the record, or `MalformedKey` where the record
/// has bytes and the primitive refuses to seal them for `recipient`.
pub open spec fn sealed_for(
    entry: Fields,
    recipient: Seq<u8>,
    now: i64,
    r: Result<BurritoBox, Error>,
) -> bool {
    match r {
        Ok(out) => {
            &&& encoding(entry) is Some
            &&& !seal_refused(recipient, encoding(entry)->0)
            &&& out.encrypted.subtype == ENCRYPTED_KIND
            &&& out.mac.subtype == SENSITIVE
            &&& out.mac.bytes@.len() == 16
            &&& out.ephemeral_public_key.subtype == SENSITIVE
            &&& out.ephemeral_public_key.bytes@.len() == 32
            &&& out.extra() == tagged(
                Fields::empty(),
                BurritoBox::name_spec(),
                BurritoBox::version_spec(),
                now,
            )
            &&& out.meta() == with_defaults(
                Map::empty(),
                BurritoBox::name_spec(),
                BurritoBox::version_spec(),
                now,
            )
            &&& forall|secret: Seq<u8>|
                secret.len() == 32 && #[trigger] box_public_key(secret) == recipient
                    ==> out.opened_with(secret) == unboxed(encoding(entry))
        },
        Err(e) => if encoding(entry) is None {
            e == Error::MalformedRecord
        } else {
            e == Error::MalformedKey && seal_refused(recipient, encoding(entry)->0)
        },
    }
}

impl BurritoBox {
    /// The payload alone, as a record.
    fn payload_record(&self) -> (record: Record)
        ensures
            record@ == self.payload(),
    {
        let mut record = Record::new();
        proof {
            lemma_names();
            lemma_absent(record@, ENCRYPTED@);
        }
        push_field(&mut record, ENCRYPTED, Value::Binary(self.encrypted.clone()));
        proof {
            lemma_absent(record@, EPHEMERAL_PUBLIC_KEY@);
        }
        push_field(
            &mut record,
            EPHEMERAL_PUBLIC_KEY,
            Value::Binary(self.ephemeral_public_key.clone()),
        );
        proof {
            lemma_absent(record@, MAC@);
        }
        push_field(&mut record, MAC, Value::Binary(self.mac.clone()));
        assert(record@ =~= self.payload());
        record
    }

    /// The box made of the parts of a sealed message, tagged at time `now`.
    pub fn from_encrypted_at(
        encrypted: Vec<u8>,
        mac: [u8; 16],
        ephemeral_public_key: [u8; 32],
        now: i64,
    ) -> (out: Self)
        ensures
            out.encrypted@ == (ENCRYPTED_KIND, encrypted@),
            out.mac@ == (SENSITIVE, mac@),
            out.ephemeral_public_key@ == (SENSITIVE, ephemeral_public_key@),
            out.extra() == tagged(Fields::empty(), Self::name_spec(), Self::version_spec(), now),
            out.meta() == with_defaults(
                Map::empty(),
                Self::name_spec(),
                Self::version_spec(),
                now,
            ),
    {
        let mut tags = Record::new();
        apply_defaults(&mut tags, Self::name().as_str(), Self::version().as_str(), now);
        proof {
            lemma_tagged(Fields::empty(), Self::name_spec(), Self::version_spec(), now);
            assert(to_map(Fields::empty()) =~= Map::empty());
        }
        BurritoBox {
            encrypted: Binary { subtype: ENCRYPTED_KIND, bytes: encrypted },
            ephemeral_public_key: Binary {
                subtype: SENSITIVE,
                bytes: to_vec(&ephemeral_public_key),
            },
            mac: Binary { subtype: SENSITIVE, bytes: to_vec(&mac) },
            additional_fields: tags,
        }
    }

    /// The box made of the parts of a sealed message, tagged at the present
    /// time.
    pub fn from_encrypted(encrypted: Vec<u8>, mac: [u8; 16], ephemeral_public_key: [u8; 32]) -> (out:
        Self)
        ensures
            out.encrypted@ == (ENCRYPTED_KIND, encrypted@),
            out.mac@ == (SENSITIVE, mac@),
            out.ephemeral_public_key@ == (SENSITIVE, ephemeral_public_key@),
            exists|now: i64|
                out.meta() == #[trigger] with_defaults(
                    Map::empty(),
                    Self::name_spec(),
                    Self::version_spec(),
                    now,
                ),
    {
        let now = now_millis();
        Self::from_encrypted_at(encrypted, mac, ephemeral_public_key, now)
    }
}

impl EncryptionWaiter for BurritoBox {
    open spec fn opened_with(&self, secret: Seq<u8>) -> Result<Fields, Error> {
        sealed_contents(
            box_public_key(secret),
            secret,
            self.ephemeral_public_key.bytes@,
            self.mac.bytes@,
            self.encrypted.bytes@,
        )
    }

    fn encrypt(entry: Record, key: [u8; 32]) -> (r: Result<Self, Error>)
        ensures
            exists|now: i64| #[trigger] sealed_for(entry@, key@, now, r),
    {
        let ghost before = entry@;
        let bytes = match encode(&entry) {
            Ok(bytes) => bytes,
            Err(e) => {
                assert(sealed_for(before, key@, 0, Err::<Self, Error>(e)));
                return Err(e);
            },
        };
        match box_seal(&key, bytes.as_slice()) {
            Some(parts) => {
                let now = now_millis();
                let out = Self::from_encrypted_at(parts.2, parts.1, parts.0, now);
                assert(sealed_for(before, key@, now, Ok::<Self, Error>(out)));
                Ok(out)
            },
            None => {
                assert(sealed_for(before, key@, 0, Err::<Self, Error>(Error::MalformedKey)));
                Err(Error::MalformedKey)
            },
        }
    }

    fn decrypt(self, key: [u8; 32]) -> (r: Result<Record, Error>)
        ensures
            r is Ok ==> sealed_tag_binds(
                box_public_key(key@),
                key@,
                self.ephemeral_public_key.bytes@,
                self.mac.bytes@,
                self.encrypted.bytes@,
            ),
    {
        let ephemeral = match to_array::<32>(&self.ephemeral_public_key.bytes) {
            Some(ephemeral) => ephemeral,
            None => {
                return Err(Error::MalformedKey);
            },
        };
        let mac = match to_array::<16>(&self.mac.bytes) {
            Some(mac) => mac,
            None => {
                return Err(Error::MalformedKey);
            },
        };
        let public = box_pair(&key);
        match box_open(&public, &key, &ephemeral, &mac, self.encrypted.bytes.as_slice()) {
            Some(plain) => decode(plain.as_slice()),
            None => Err(Error::AuthenticationFailure),
        }
    }
}

} // verus!
