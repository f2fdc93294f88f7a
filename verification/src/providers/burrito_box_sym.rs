//! The symmetric box: a record encrypted and authenticated under a key that
//! both sides hold, or under a key derived from a password.

use vstd::prelude::*;
use vstd::slice::slice_subrange;
use vstd::string::StringSliceAdditionalSpecFns;
use vstd::utf8::encode_utf8;
use crate::clock::now_millis;
use crate::codec::{decode, encode, encoding};
use crate::crypto::{
    INTERACTIVE_MEMLIMIT, INTERACTIVE_OPSLIMIT, derive_key, fresh_nonce, secretbox_open,
    secretbox_seal, to_array, to_vec, opened, password_key, sealed,
};
use crate::encryption::{EncryptionWaiterSymmetric, unboxed};
use crate::envelope::{tagged, 
    holds_binary, merged, apply_defaults, get_binary, merge_into, push_field, strip_three, overlay,
    with_defaults, names_of, holds_payload, lemma_tagged, lemma_merged, lemma_held,
    lemma_payload_dom,
};
use crate::error::Error;
use crate::metadata::{Metadata, lemma_overlay_write};
use crate::names::{is_reserved, lemma_not_reserved};
use crate::providers::Provider;
use crate::record::{Binary, Record, Value};
use crate::value::{
    ValueView, Fields, ENCRYPTED as ENCRYPTED_KIND, SENSITIVE, to_map, lemma_absent,
    lemma_inserted_map, lemma_lookup_map,
};

verus! {

/// Name of the field that holds the ciphertext.
pub const ENCRYPTED: &'static str = "ENCRYPTED";

/// Name of the field that holds the authentication tag.
pub const MAC: &'static str = "MAC";

/// Name of the field that holds the nonce.
pub const NONCE: &'static str = "NONCE";

/// A record encrypted under a symmetric key. The nonce is stored in the
/// clear; it is no secret.
#[derive(Debug, PartialEq)]
pub struct BurritoBoxSym {
    pub encrypted: Binary,
    pub mac: Binary,
    pub nonce: Binary,
    pub additional_fields: Record,
}

impl Clone for BurritoBoxSym {
    fn clone(&self) -> (out: Self)
        ensures
            out.payload() == self.payload(),
            out.extra() == self.extra(),
    {
        BurritoBoxSym {
            encrypted: self.encrypted.clone(),
            mac: self.mac.clone(),
            nonce: self.nonce.clone(),
            additional_fields: self.additional_fields.clone(),
        }
    }
}

/// The payload names differ from one another and are not reserved.
proof fn lemma_names()
    ensures
        !is_reserved(ENCRYPTED@),
        !is_reserved(MAC@),
        !is_reserved(NONCE@),
        ENCRYPTED@ != MAC@,
        ENCRYPTED@ != NONCE@,
        MAC@ != NONCE@,
{
    reveal_strlit("ENCRYPTED");
    reveal_strlit("MAC");
    reveal_strlit("NONCE");
    lemma_not_reserved(ENCRYPTED@);
    lemma_not_reserved(MAC@);
    lemma_not_reserved(NONCE@);
    assert(ENCRYPTED@[0] != MAC@[0]);
    assert(ENCRYPTED@[0] != NONCE@[0]);
    assert(MAC@[0] != NONCE@[0]);
}

impl Provider for BurritoBoxSym {
    open spec fn name_spec() -> Seq<char> {
        "burrito_symmetric_box"@
    }

    open spec fn version_spec() -> Seq<char> {
        "0.0.0"@
    }

    open spec fn payload(&self) -> Fields {
        seq![
            (ENCRYPTED@, self.encrypted.value()),
            (MAC@, self.mac.value()),
            (NONCE@, self.nonce.value()),
        ]
    }

    open spec fn extra(&self) -> Fields {
        self.additional_fields@
    }

    open spec fn payload_names() -> Seq<Seq<char>> {
        seq![ENCRYPTED@, MAC@, NONCE@]
    }

    open spec fn well_typed(entry: Fields) -> bool {
        &&& holds_binary(entry, ENCRYPTED@)
        &&& holds_binary(entry, MAC@)
        &&& holds_binary(entry, NONCE@)
    }

    proof fn lemma_payload(&self) {
        lemma_names();
        assert(names_of(self.payload()) =~= Self::payload_names());
    }

    proof fn lemma_well_typed(&self, entry: Fields) {
        assert(self.payload()[0].0 == ENCRYPTED@);
        assert(self.payload()[1].0 == MAC@);
        assert(self.payload()[2].0 == NONCE@);
        lemma_lookup_map(entry, ENCRYPTED@);
        lemma_lookup_map(entry, MAC@);
        lemma_lookup_map(entry, NONCE@);
    }

    proof fn lemma_same_payload(&self, other: &Self, entry: Fields) {
        assert(self.payload()[0].0 == ENCRYPTED@ && other.payload()[0].0 == ENCRYPTED@);
        assert(self.payload()[1].0 == MAC@ && other.payload()[1].0 == MAC@);
        assert(self.payload()[2].0 == NONCE@ && other.payload()[2].0 == NONCE@);
        assert(self.payload() =~= other.payload());
    }

    fn name() -> (name: String) {
        "burrito_symmetric_box".to_string()
    }

    fn version() -> (version: String) {
        "0.0.0".to_string()
    }

    fn into_entry_at(self, now: i64) -> (entry: Record) {
        let mut entry = self.payload_record();
        merge_into(&mut entry, &self.additional_fields);
        apply_defaults(&mut entry, Self::name().as_str(), Self::version().as_str(), now);
        entry
    }

    fn into_entry(self) -> (entry: Record) {
        let now = now_millis();
        self.into_entry_at(now)
    }

    fn from_entry(entry: Record) -> (r: Result<Self, Error>) {
        match Self::verify_version(&entry) {
            Err(e) => Err(e),
            Ok(()) => {
                let ghost before = entry@;
                let encrypted = match get_binary(&entry, ENCRYPTED) {
                    Some(binary) => binary,
                    None => {
                        return Err(Error::MalformedRecord);
                    },
                };
                let mac = match get_binary(&entry, MAC) {
                    Some(binary) => binary,
                    None => {
                        return Err(Error::MalformedRecord);
                    },
                };
                let nonce = match get_binary(&entry, NONCE) {
                    Some(binary) => binary,
                    None => {
                        return Err(Error::MalformedRecord);
                    },
                };
                let rest = strip_three(entry, ENCRYPTED, MAC, NONCE);
                let value = BurritoBoxSym { encrypted, mac, nonce, additional_fields: rest };
                proof {
                    let payload = value.payload();
                    assert(holds_payload(to_map(before), payload)) by {
                        assert(payload[0] == (ENCRYPTED@, encrypted.value()));
                        assert(payload[1] == (MAC@, mac.value()));
                        assert(payload[2] == (NONCE@, nonce.value()));
                        lemma_held(before, ENCRYPTED@, payload[0].1);
                        lemma_held(before, MAC@, payload[1].1);
                        lemma_held(before, NONCE@, payload[2].1);
                    }
                }
                Ok(value)
            },
        }
    }
}

impl Metadata for BurritoBoxSym {
    open spec fn meta(&self) -> Map<Seq<char>, ValueView> {
        to_map(self.additional_fields@)
    }

    open spec fn record_map(&self) -> Map<Seq<char>, ValueView> {
        overlay(to_map(self.payload()), to_map(self.additional_fields@))
    }

    open spec fn is_payload_name(name: Seq<char>) -> bool {
        Self::payload_names().contains(name)
    }

    proof fn lemma_reserved_not_payload(name: Seq<char>) {
        lemma_names();
        if Self::payload_names().contains(name) {
            let i = choose|i: int|
                0 <= i < Self::payload_names().len() && Self::payload_names()[i] == name;
        }
    }

    proof fn lemma_meta_in_record(&self, name: Seq<char>) {
        self.lemma_payload();
        lemma_payload_dom(self.payload(), name);
    }

    fn get_meta(&self, key: &str) -> (r: Option<&Value>) {
        proof {
            lemma_lookup_map(self.additional_fields@, key@);
        }
        self.additional_fields.get(key)
    }

    fn set_meta(&mut self, key: &str, value: Value) {
        proof {
            use_type_invariant(&self.additional_fields);
            lemma_inserted_map(self.additional_fields@, key@, value@);
            self.lemma_payload();
            lemma_payload_dom(self.payload(), key@);
            lemma_overlay_write(
                to_map(self.payload()),
                to_map(self.additional_fields@),
                key@,
                value@,
            );
        }
        self.additional_fields.insert(key, value);
    }

    fn to_record(&self) -> (record: Record)
        ensures
            record@ == merged(self.payload(), self.extra()),
    {
        let mut record = self.payload_record();
        proof {
            use_type_invariant(&self.additional_fields);
            use_type_invariant(&record);
            lemma_merged(record@, self.additional_fields@);
        }
        merge_into(&mut record, &self.additional_fields);
        record
    }
}

/// What the holder of the key finds in a box with these parts. Parts of the
/// wrong length do not authenticate.
pub open spec fn box_contents(key: Seq<u8>, nonce: Seq<u8>, mac: Seq<u8>, ciphertext: Seq<u8>) -> Result<
    Fields,
    Error,
> {
    if mac.len() != 16 || nonce.len() != 24 {
        Err(Error::AuthenticationFailure)
    } else {
        unboxed(opened(key, nonce, mac, ciphertext))
    }
}

/// Whether the tag binds the box: no box that differs from this one in its
/// tag alone opens.
pub open spec fn tag_binds(key: Seq<u8>, nonce: Seq<u8>, mac: Seq<u8>, ciphertext: Seq<u8>) -> bool {
    forall|other: Seq<u8>|
        other != mac ==> #[trigger] box_contents(key, nonce, other, ciphertext) == Err::<
            Fields,
            Error,
        >(Error::AuthenticationFailure)
}

/// The salt of the key derivation: the first sixteen bytes of the nonce.
pub open spec fn salt_of(nonce: Seq<u8>) -> Seq<u8> {
    nonce.subrange(0, 16)
}

/// The key that a password gives for a box with this nonce.
pub open spec fn key_of_password(password: Seq<u8>, nonce: Seq<u8>) -> Option<Seq<u8>> {
    password_key(password, salt_of(nonce), INTERACTIVE_OPSLIMIT, INTERACTIVE_MEMLIMIT)
}

/// Whether `r` is the outcome of encrypting `entry` under `key` with the
/// nonce `nonce` at time `now`: the box of the encoded record with its
/// tags, or `MalformedRecord` where the codec refuses the record or the
/// cipher refuses its bytes.
pub open spec fn sym_sealed_with(
    entry: Fields,
    key: Seq<u8>,
    nonce: Seq<u8>,
    now: i64,
    r: Result<BurritoBoxSym, Error>,
) -> bool {
    nonce.len() == 24 && match r {
        Ok(out) => encoding(entry) is Some && sealed(key, nonce, encoding(entry)->0) == Some(
            (out.mac.bytes@, out.encrypted.bytes@),
        ) && out.encrypted.subtype == ENCRYPTED_KIND && out.mac.subtype == SENSITIVE
            && out.mac.bytes@.len() == 16 && out.nonce@ == (SENSITIVE, nonce) && out.extra()
            == tagged(
            Fields::empty(),
            BurritoBoxSym::name_spec(),
            BurritoBoxSym::version_spec(),
            now,
        ) && out.meta() == with_defaults(
            Map::empty(),
            BurritoBoxSym::name_spec(),
            BurritoBoxSym::version_spec(),
            now,
        ),
        Err(e) => e == Error::MalformedRecord && (encoding(entry) is None || sealed(
            key,
            nonce,
            encoding(entry)->0,
        ) is None),
    }
}

/// Whether `r` is the outcome of encrypting `entry` under the key that
/// `password` gives with the nonce `nonce` at time `now`: as for a key,
/// with `MalformedKey` where the record has bytes and the derivation
/// refuses the password.
pub open spec fn password_sealed_with(
    entry: Fields,
    password: Seq<u8>,
    nonce: Seq<u8>,
    now: i64,
    r: Result<BurritoBoxSym, Error>,
) -> bool {
    nonce.len() == 24 && match r {
        Ok(out) => key_of_password(password, nonce) is Some && sym_sealed_with(
            entry,
            key_of_password(password, nonce)->0,
            nonce,
            now,
            r,
        ),
        Err(e) => if encoding(entry) is None {
            e == Error::MalformedRecord
        } else if key_of_password(password, nonce) is None {
            e == Error::MalformedKey
        } else {
            e == Error::MalformedRecord && sealed(
                key_of_password(password, nonce)->0,
                nonce,
                encoding(entry)->0,
            ) is None
        },
    }
}

impl BurritoBoxSym {
    /// The payload alone, as a record.
    fn payload_record(&self) -> (record: Record)
        ensures
            record@ == self.payload(),
    {
        let mut record = Record::new();
        proof {
            lemma_names();
            lemma_absent(record@, ENCRYPTED@);
        }
        push_field(&mut record, ENCRYPTED, Value::Binary(self.encrypted.clone()));
        proof {
            lemma_absent(record@, MAC@);
        }
        push_field(&mut record, MAC, Value::Binary(self.mac.clone()));
        proof {
            lemma_absent(record@, NONCE@);
        }
        push_field(&mut record, NONCE, Value::Binary(self.nonce.clone()));
        assert(record@ =~= self.payload());
        record
    }

    /// The box made of a tag, a ciphertext and the nonce they were made
    /// with, tagged at time `now`.
    pub fn from_parts(mac: [u8; 16], ciphertext: Vec<u8>, nonce: [u8; 24], now: i64) -> (out: Self)
        ensures
            out.encrypted@ == (ENCRYPTED_KIND, ciphertext@),
            out.mac@ == (SENSITIVE, mac@),
            out.nonce@ == (SENSITIVE, nonce@),
            out.extra() == tagged(Fields::empty(), Self::name_spec(), Self::version_spec(), now),
            out.meta() == with_defaults(
                Map::empty(),
                Self::name_spec(),
                Self::version_spec(),
                now,
            ),
    {
        let mut tags = Record::new();
        apply_defaults(&mut tags, Self::name().as_str(), Self::version().as_str(), now);
        proof {
            lemma_tagged(Fields::empty(), Self::name_spec(), Self::version_spec(), now);
            assert(to_map(Fields::empty()) =~= Map::empty());
        }
        BurritoBoxSym {
            encrypted: Binary { subtype: ENCRYPTED_KIND, bytes: ciphertext },
            mac: Binary { subtype: SENSITIVE, bytes: to_vec(&mac) },
            nonce: Binary { subtype: SENSITIVE, bytes: to_vec(&nonce) },
            additional_fields: tags,
        }
    }

    /// Encrypts `entry` under `key` with the given nonce, and tags the box
    /// at time `now`. The box opens under the same key to what the codec
    /// reads back from the bytes that it wrote.
    pub fn encrypt_sym_with(entry: Record, key: [u8; 32], nonce: [u8; 24], now: i64) -> (r: Result<
        Self,
        Error,
    >)
        ensures
            sym_sealed_with(entry@, key@, nonce@, now, r),
            r is Ok ==> r->Ok_0.sym_opened(key@) == unboxed(encoding(entry@)),
    {
        let bytes = match encode(&entry) {
            Ok(bytes) => bytes,
            Err(e) => {
                return Err(e);
            },
        };
        match secretbox_seal(&key, &nonce, bytes.as_slice()) {
            Some(parts) => Ok(Self::from_parts(parts.0, parts.1, nonce, now)),
            None => Err(Error::MalformedRecord),
        }
    }

    /// Opens a box with these parts.
    fn open_parts(key: &[u8; 32], nonce: &Vec<u8>, mac: &Vec<u8>, ciphertext: &Vec<u8>) -> (r: Result<
        Record,
        Error,
    >)
        ensures
            match r {
                Ok(record) => box_contents(key@, nonce@, mac@, ciphertext@) == Ok::<Fields, Error>(
                    record@,
                ),
                Err(e) => box_contents(key@, nonce@, mac@, ciphertext@) == Err::<Fields, Error>(e),
            },
            r is Ok ==> tag_binds(key@, nonce@, mac@, ciphertext@),
    {
        let mac = match to_array::<16>(mac) {
            Some(mac) => mac,
            None => {
                return Err(Error::AuthenticationFailure);
            },
        };
        let nonce = match to_array::<24>(nonce) {
            Some(nonce) => nonce,
            None => {
                return Err(Error::AuthenticationFailure);
            },
        };
        match secretbox_open(key, &nonce, &mac, ciphertext.as_slice()) {
            Some(plain) => decode(plain.as_slice()),
            None => Err(Error::AuthenticationFailure),
        }
    }

    /// What the holder of the password finds in the box.
    pub open spec fn password_opened(&self, password: Seq<u8>) -> Result<Fields, Error> {
        if self.mac.bytes@.len() != 16 || self.nonce.bytes@.len() != 24 {
            Err(Error::AuthenticationFailure)
        } else {
            match key_of_password(password, self.nonce.bytes@) {
                None => Err(Error::AuthenticationFailure),
                Some(key) => box_contents(
                    key,
                    self.nonce.bytes@,
                    self.mac.bytes@,
                    self.encrypted.bytes@,
                ),
            }
        }
    }

    /// Encrypts `entry` under the key that `password` gives with the given
    /// nonce, whose first sixteen bytes salt the derivation, and tags the
    /// box at time `now`. Fails with `MalformedRecord` where the codec
    /// refuses the record or it is too long to encrypt, and with
    /// `MalformedKey` where the derivation refuses the password.
    pub fn of_password_with(entry: Record, password: &str, nonce: [u8; 24], now: i64) -> (r: Result<
        Self,
        Error,
    >)
        ensures
            password_sealed_with(entry@, password.spec_bytes(), nonce@, now, r),
            r is Ok ==> r->Ok_0.password_opened(password.spec_bytes()) == unboxed(
                encoding(entry@),
            ),
    {
        let bytes = match encode(&entry) {
            Ok(bytes) => bytes,
            Err(e) => {
                return Err(e);
            },
        };
        let salt = to_vec(&nonce);
        let key = match derive_key(
            password.as_bytes(),
            slice_subrange(salt.as_slice(), 0, 16),
            INTERACTIVE_OPSLIMIT,
            INTERACTIVE_MEMLIMIT,
        ) {
            Some(key) => key,
            None => {
                return Err(Error::MalformedKey);
            },
        };
        match secretbox_seal(&key, &nonce, bytes.as_slice()) {
            Some(parts) => Ok(Self::from_parts(parts.0, parts.1, nonce, now)),
            None => Err(Error::MalformedRecord),
        }
    }

    /// Encrypts `entry` under the key that `password` gives, with a fresh
    /// nonce whose first sixteen bytes salt the derivation. The box opens
    /// under the same password to what the codec reads back from the bytes
    /// that it wrote.
    pub fn of_password(entry: Record, password: String) -> (r: Result<Self, Error>)
        ensures
            exists|nonce: Seq<u8>, now: i64| #[trigger]
                password_sealed_with(entry@, encode_utf8(password@), nonce, now, r),
            r is Ok ==> r->Ok_0.password_opened(encode_utf8(password@)) == unboxed(
                encoding(entry@),
            ),
    {
        let nonce = fresh_nonce();
        let now = now_millis();
        let ghost before = entry@;
        let r = Self::of_password_with(entry, password.as_str(), nonce, now);
        assert(password_sealed_with(before, encode_utf8(password@), nonce@, now, r));
        r
    }

    /// Opens the box with the key that `password` gives and hands back the
    /// record in it. A wrong password and an altered box fail alike, with
    /// `AuthenticationFailure`. Where the box opens, the same box with any
    /// other tag does not.
    pub fn decrypt_password(self, password: String) -> (r: Result<Record, Error>)
        ensures
            match r {
                Ok(record) => self.password_opened(encode_utf8(password@)) == Ok::<
                    Fields,
                    Error,
                >(record@),
                Err(e) => self.password_opened(encode_utf8(password@)) == Err::<
                    Fields,
                    Error,
                >(e),
            },
            r is Ok ==> tag_binds(
                key_of_password(encode_utf8(password@), self.nonce.bytes@)->0,
                self.nonce.bytes@,
                self.mac.bytes@,
                self.encrypted.bytes@,
            ),
    {
        if self.mac.bytes.len() != 16 || self.nonce.bytes.len() != 24 {
            return Err(Error::AuthenticationFailure);
        }
        let key = match derive_key(
            password.as_str().as_bytes(),
            slice_subrange(self.nonce.bytes.as_slice(), 0, 16),
            INTERACTIVE_OPSLIMIT,
            INTERACTIVE_MEMLIMIT,
        ) {
            Some(key) => key,
            None => {
                return Err(Error::AuthenticationFailure);
            },
        };
        Self::open_parts(&key, &self.nonce.bytes, &self.mac.bytes, &self.encrypted.bytes)
    }
}

impl EncryptionWaiterSymmetric for BurritoBoxSym {
    open spec fn sym_opened(&self, key: Seq<u8>) -> Result<Fields, Error> {
        box_contents(key, self.nonce.bytes@, self.mac.bytes@, self.encrypted.bytes@)
    }

    fn encrypt_sym(entry: Record, key: [u8; 32]) -> (r: Result<Self, Error>)
        ensures
            exists|nonce: Seq<u8>, now: i64| #[trigger] sym_sealed_with(entry@, key@, nonce, now, r),
    {
        let nonce = fresh_nonce();
        let now = now_millis();
        let ghost before = entry@;
        let r = Self::encrypt_sym_with(entry, key, nonce, now);
        assert(sym_sealed_with(before, key@, nonce@, now, r));
        r
    }

    fn decrypt_sym(self, key: [u8; 32]) -> (r: Result<Record, Error>)
        ensures
            r is Ok ==> tag_binds(key@, self.nonce.bytes@, self.mac.bytes@, self.encrypted.bytes@),
    {
        Self::open_parts(&key, &self.nonce.bytes, &self.mac.bytes, &self.encrypted.bytes)
    }
}

} // verus!
