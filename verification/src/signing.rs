//! Signing and security attestation of anything shaped like a record.
//!
//! Three protocols, independent of one another. All of them work on the
//! canonical bytes of the value: its fields sorted by name and encoded.
//!
//! * The symmetric signature is a keyed MAC, stored under `signature_sym`.
//! * The signature is a digital signature, stored under `signature`, with
//!   the signer's public key under `signing_public_key`.
//! * The security attestation is a digital signature over the canonical
//!   bytes followed by a fixed padding, stored under `assumed_secure`, with
//!   the signer's public key under `security_signing_public_key`. It covers
//!   every other field of the value, so any field written afterwards, a
//!   signature included, changes the bytes it is checked against.

use vstd::prelude::*;
use vstd::string::StringSliceAdditionalSpecFns;
use crate::clock::now_millis;
use crate::codec::{canonical_bytes, canonical_encoding};
use crate::crypto::{
    authenticate, authenticate_verify, sign_message, signing_pair, verify_message, to_array, to_vec,
    mac_tag, signature_of, signature_valid, signing_keypair,
};
use crate::error::Error;
use crate::metadata::Metadata;
use crate::names::{
    MODIFIED, SIGNATURE, SIGNATURE_SYM, SIGNING_PUBLIC_KEY, SECURITY_SIGNING_PUBLIC_KEY,
    ASSUMED_SECURE, lemma_reserved_distinct,
};
use crate::record::{Binary, Record, Value};
use crate::value::{ValueView, SENSITIVE, to_map, lemma_lookup_map, lemma_removed_map};

verus! {

/// The text whose bytes follow the canonical bytes in the message of a
/// security attestation. It keeps an attestation from being a valid
/// signature of the same value, and a signature from being an attestation.
pub const SECURITY_PADDING: &'static str =
    "This is some extra data to ensure that the signature is different, instead of being simply copy-pastable if the owner of the document did not also sign the document BEFORE adding a security attestation.";

/// The bytes of the padding.
pub open spec fn security_padding() -> Seq<u8> {
    SECURITY_PADDING.spec_bytes()
}

/// The mapping with its time of modification set to `now`.
pub open spec fn stamped(map: Map<Seq<char>, ValueView>, now: i64) -> Map<Seq<char>, ValueView> {
    map.insert(MODIFIED@, ValueView::Timestamp(now))
}

/// The bytes of the binary stored under `name`, if a binary is stored there.
pub open spec fn binary_at(map: Map<Seq<char>, ValueView>, name: Seq<char>) -> Option<Seq<u8>> {
    if map.dom().contains(name) && map[name] is Binary {
        Some(map[name]->Binary_1)
    } else {
        None
    }
}

/// Whether a binary of `length` bytes is stored under `name`.
pub open spec fn holds_bytes(map: Map<Seq<char>, ValueView>, name: Seq<char>, length: nat) -> bool {
    binary_at(map, name) is Some && binary_at(map, name)->0.len() == length
}

/// A sensitive binary.
pub open spec fn sensitive(bytes: Seq<u8>) -> ValueView {
    ValueView::Binary(SENSITIVE, bytes)
}

/// The mapping signed with a symmetric key at time `now`: the time is
/// written first, the MAC is computed over the canonical bytes of the
/// result and stored beside it. `None` where the codec refuses the value.
pub open spec fn sym_signed(map: Map<Seq<char>, ValueView>, key: Seq<u8>, now: i64) -> Option<
    Map<Seq<char>, ValueView>,
> {
    let message = stamped(map, now);
    match canonical_encoding(message) {
        Some(bytes) => Some(message.insert(SIGNATURE_SYM@, sensitive(mac_tag(key, bytes)))),
        None => None,
    }
}

/// Whether the symmetric signature of the mapping is the MAC, of 32 bytes,
/// of everything else in it.
pub open spec fn sym_check(map: Map<Seq<char>, ValueView>, key: Seq<u8>) -> Result<(), Error> {
    match binary_at(map, SIGNATURE_SYM@) {
        None => Err(Error::MissingSignature),
        Some(signature) => match canonical_encoding(map.remove(SIGNATURE_SYM@)) {
            None => Err(Error::MalformedRecord),
            Some(bytes) => if signature.len() == 32 && signature == mac_tag(key, bytes) {
                Ok(())
            } else {
                Err(Error::SignatureInvalid)
            },
        },
    }
}

/// The mapping signed with a secret key at time `now`: the time and the
/// signer's public key are written first, the signature is computed over
/// the canonical bytes of the result and stored beside it.
pub open spec fn signed(map: Map<Seq<char>, ValueView>, secret: Seq<u8>, now: i64) -> Option<
    Map<Seq<char>, ValueView>,
> {
    let pair = signing_keypair(secret);
    let message = stamped(map, now).insert(SIGNING_PUBLIC_KEY@, sensitive(pair.0));
    match canonical_encoding(message) {
        Some(bytes) => Some(message.insert(SIGNATURE@, sensitive(signature_of(pair.1, bytes)))),
        None => None,
    }
}

/// Whether the signature of the mapping is one of everything else in it,
/// under the given public key.
pub open spec fn check_with(map: Map<Seq<char>, ValueView>, public: Seq<u8>) -> Result<(), Error> {
    match binary_at(map, SIGNATURE@) {
        None => Err(Error::MissingSignature),
        Some(signature) => match canonical_encoding(map.remove(SIGNATURE@)) {
            None => Err(Error::MalformedRecord),
            Some(bytes) => if signature.len() == 64 && signature_valid(public, bytes, signature) {
                Ok(())
            } else {
                Err(Error::SignatureInvalid)
            },
        },
    }
}

/// Whether the signature of the mapping is valid under the public key that
/// the mapping itself names.
pub open spec fn check(map: Map<Seq<char>, ValueView>) -> Result<(), Error> {
    match binary_at(map, SIGNING_PUBLIC_KEY@) {
        None => Err(Error::MissingSignature),
        Some(public) => if public.len() == 32 {
            check_with(map, public)
        } else {
            Err(Error::SignatureInvalid)
        },
    }
}

/// The mapping attested with a secret key at time `now`: the time and the
/// attester's public key are written first, the attestation is computed
/// over the canonical bytes of the result followed by the padding, and
/// stored beside it.
pub open spec fn attested(map: Map<Seq<char>, ValueView>, secret: Seq<u8>, now: i64) -> Option<
    Map<Seq<char>, ValueView>,
> {
    let pair = signing_keypair(secret);
    let message = stamped(map, now).insert(SECURITY_SIGNING_PUBLIC_KEY@, sensitive(pair.0));
    match canonical_encoding(message) {
        Some(bytes) => Some(
            message.insert(
                ASSUMED_SECURE@,
                sensitive(signature_of(pair.1, bytes + security_padding())),
            ),
        ),
        None => None,
    }
}

/// Whether the attestation of the mapping is one of everything else in it,
/// under the given public key. An absent or malformed attestation is no
/// attestation.
pub open spec fn secure_with(map: Map<Seq<char>, ValueView>, public: Seq<u8>) -> bool {
    match binary_at(map, ASSUMED_SECURE@) {
        None => false,
        Some(signature) => match canonical_encoding(map.remove(ASSUMED_SECURE@)) {
            None => false,
            Some(bytes) => signature.len() == 64 && signature_valid(
                public,
                bytes + security_padding(),
                signature,
            ),
        },
    }
}

/// Whether the attestation of the mapping is valid under the public key
/// that the mapping itself names.
pub open spec fn secure(map: Map<Seq<char>, ValueView>) -> bool {
    match binary_at(map, SECURITY_SIGNING_PUBLIC_KEY@) {
        None => false,
        Some(public) => public.len() == 32 && secure_with(map, public),
    }
}

/// The bytes of the binary stored under `name` in `record`.
fn binary_of(record: &Record, name: &str) -> (r: Option<Vec<u8>>)
    ensures
        match r {
            Some(bytes) => binary_at(to_map(record@), name@) == Some(bytes@),
            None => binary_at(to_map(record@), name@) is None,
        },
{
    proof {
        lemma_lookup_map(record@, name@);
    }
    match record.get(name) {
        Some(Value::Binary(binary)) => Some(binary.bytes.clone()),
        _ => None,
    }
}

/// The canonical bytes of `record` without the field called `name`.
fn bytes_without(record: Record, name: &str) -> (r: Option<Vec<u8>>)
    ensures
        match r {
            Some(bytes) => canonical_encoding(to_map(record@).remove(name@)) == Some(bytes@),
            None => canonical_encoding(to_map(record@).remove(name@)) is None,
        },
{
    proof {
        use_type_invariant(&record);
        lemma_removed_map(record@, name@);
    }
    let mut rest = record;
    rest.remove(name);
    match canonical_bytes(&rest) {
        Ok(bytes) => Some(bytes),
        Err(_) => None,
    }
}

/// Appends `extra` to `buffer`.
fn append_bytes(buffer: &mut Vec<u8>, extra: &[u8])
    ensures
        final(buffer)@ == old(buffer)@ + extra@,
{
    let ghost before = buffer@;
    let mut i: usize = 0;
    while i < extra.len()
        invariant
            0 <= i <= extra@.len(),
            buffer@ == before + extra@.take(i as int),
        decreases extra@.len() - i,
    {
        buffer.push(extra[i]);
        assert(buffer@ =~= before + extra@.take(i + 1));
        i += 1;
    }
    assert(extra@.take(i as int) =~= extra@);
}

/// A sensitive binary value.
fn sensitive_value(bytes: Vec<u8>) -> (value: Value)
    ensures
        value@ == sensitive(bytes@),
{
    Value::Binary(Binary { subtype: SENSITIVE, bytes })
}

/// Signing, verification and attestation, for every value that has
/// metadata.
pub trait Signing: Metadata {
    /// Signs the value with a symmetric key at time `now`. Fails with
    /// `MalformedRecord` exactly where the codec refuses the value.
    fn sign_sym_at(self, secret_key: [u8; 32], now: i64) -> (r: Result<Self, Error>)
        ensures
            match r {
                Ok(out) => sym_signed(self.record_map(), secret_key@, now) == Some(
                    out.record_map(),
                ) && out.meta() == self.meta().insert(MODIFIED@, ValueView::Timestamp(now)).insert(
                    SIGNATURE_SYM@,
                    out.record_map()[SIGNATURE_SYM@],
                ) && holds_bytes(out.record_map(), SIGNATURE_SYM@, 32),
                Err(e) => e == Error::MalformedRecord && sym_signed(
                    self.record_map(),
                    secret_key@,
                    now,
                ) is None,
            },
    {
        proof {
            Self::lemma_reserved_not_payload(MODIFIED@);
            Self::lemma_reserved_not_payload(SIGNATURE_SYM@);
        }
        let out = self.with_meta(MODIFIED, Value::Timestamp(now));
        let record = out.to_record();
        match canonical_bytes(&record) {
            Err(e) => Err(e),
            Ok(bytes) => {
                let tag = authenticate(&secret_key, bytes.as_slice());
                Ok(out.with_meta(SIGNATURE_SYM, sensitive_value(to_vec(&tag))))
            },
        }
    }

    /// Signs the value with a symmetric key at the present time.
    fn sign_sym(self, secret_key: [u8; 32]) -> (r: Result<Self, Error>)
        ensures
            exists|now: i64|
                match r {
                    Ok(out) => #[trigger] sym_signed(self.record_map(), secret_key@, now) == Some(
                        out.record_map(),
                    ),
                    Err(e) => e == Error::MalformedRecord && sym_signed(
                        self.record_map(),
                        secret_key@,
                        now,
                    ) is None,
                },
            r is Ok ==> holds_bytes(r->Ok_0.record_map(), SIGNATURE_SYM@, 32),
    {
        let now = now_millis();
        self.sign_sym_at(secret_key, now)
    }

    /// Checks the symmetric signature and hands the value back unchanged.
    /// Fails with `MissingSignature` where no binary is stored under
    /// `signature_sym`, with `SignatureInvalid` where it is not the MAC,
    /// of 32 bytes, of the rest of the value under `secret_key`.
    fn verify_sym(self, secret_key: [u8; 32]) -> (r: Result<Self, Error>)
        ensures
            r == match sym_check(self.record_map(), secret_key@) {
                Ok(()) => Ok::<Self, Error>(self),
                Err(e) => Err::<Self, Error>(e),
            },
    {
        let record = self.to_record();
        let signature = match binary_of(&record, SIGNATURE_SYM) {
            Some(signature) => signature,
            None => {
                return Err(Error::MissingSignature);
            },
        };
        let bytes = match bytes_without(record, SIGNATURE_SYM) {
            Some(bytes) => bytes,
            None => {
                return Err(Error::MalformedRecord);
            },
        };
        match to_array::<32>(&signature) {
            Some(tag) => {
                if authenticate_verify(&tag, &secret_key, bytes.as_slice()) {
                    Ok(self)
                } else {
                    Err(Error::SignatureInvalid)
                }
            },
            None => Err(Error::SignatureInvalid),
        }
    }

    /// Signs the value with a secret key at time `now`, and records the
    /// public key that belongs to it. Fails with `MalformedRecord` exactly
    /// where the codec refuses the value.
    fn sign_at(self, key: [u8; 64], now: i64) -> (r: Result<Self, Error>)
        ensures
            match r {
                Ok(out) => signed(self.record_map(), key@, now) == Some(out.record_map())
                    && holds_bytes(out.record_map(), SIGNING_PUBLIC_KEY@, 32) && holds_bytes(
                    out.record_map(),
                    SIGNATURE@,
                    64,
                ),
                Err(e) => e == Error::MalformedRecord && signed(self.record_map(), key@, now) is None,
            },
    {
        proof {
            Self::lemma_reserved_not_payload(MODIFIED@);
            Self::lemma_reserved_not_payload(SIGNING_PUBLIC_KEY@);
            Self::lemma_reserved_not_payload(SIGNATURE@);
            lemma_reserved_distinct();
        }
        let pair = signing_pair(&key);
        let out = self.with_meta(MODIFIED, Value::Timestamp(now)).with_meta(
            SIGNING_PUBLIC_KEY,
            sensitive_value(to_vec(&pair.0)),
        );
        let record = out.to_record();
        match canonical_bytes(&record) {
            Err(e) => Err(e),
            Ok(bytes) => {
                let signature = sign_message(&pair.0, &pair.1, bytes.as_slice());
                Ok(out.with_meta(SIGNATURE, sensitive_value(to_vec(&signature))))
            },
        }
    }

    /// Signs the value with a secret key at the present time.
    fn sign(self, key: [u8; 64]) -> (r: Result<Self, Error>)
        ensures
            exists|now: i64|
                match r {
                    Ok(out) => #[trigger] signed(self.record_map(), key@, now) == Some(
                        out.record_map(),
                    ),
                    Err(e) => e == Error::MalformedRecord && signed(
                        self.record_map(),
                        key@,
                        now,
                    ) is None,
                },
            r is Ok ==> holds_bytes(r->Ok_0.record_map(), SIGNING_PUBLIC_KEY@, 32) && holds_bytes(
                r->Ok_0.record_map(),
                SIGNATURE@,
                64,
            ),
    {
        let now = now_millis();
        self.sign_at(key, now)
    }

    /// Checks the signature under the public key that the value itself
    /// names, and hands the value back unchanged. Fails with
    /// `MissingSignature` where the key or the signature is absent, with
    /// `SignatureInvalid` where the signature does not match.
    fn verify(self) -> (r: Result<Self, Error>)
        ensures
            r == match check(self.record_map()) {
                Ok(()) => Ok::<Self, Error>(self),
                Err(e) => Err::<Self, Error>(e),
            },
    {
        let record = self.to_record();
        let public = match binary_of(&record, SIGNING_PUBLIC_KEY) {
            Some(public) => public,
            None => {
                return Err(Error::MissingSignature);
            },
        };
        match to_array::<32>(&public) {
            Some(public_key) => self.verify_with(public_key),
            None => Err(Error::SignatureInvalid),
        }
    }

    /// Checks the signature under `public_key` and hands the value back
    /// unchanged.
    fn verify_with(self, public_key: [u8; 32]) -> (r: Result<Self, Error>)
        ensures
            r == match check_with(self.record_map(), public_key@) {
                Ok(()) => Ok::<Self, Error>(self),
                Err(e) => Err::<Self, Error>(e),
            },
    {
        let record = self.to_record();
        let signature = match binary_of(&record, SIGNATURE) {
            Some(signature) => signature,
            None => {
                return Err(Error::MissingSignature);
            },
        };
        let bytes = match bytes_without(record, SIGNATURE) {
            Some(bytes) => bytes,
            None => {
                return Err(Error::MalformedRecord);
            },
        };
        match to_array::<64>(&signature) {
            Some(signature) => {
                if verify_message(&public_key, bytes.as_slice(), &signature) {
                    Ok(self)
                } else {
                    Err(Error::SignatureInvalid)
                }
            },
            None => Err(Error::SignatureInvalid),
        }
    }

    /// Attests the value with a secret key at time `now`, and records the
    /// public key that belongs to it.
    fn with_security_at(self, key: [u8; 64], now: i64) -> (r: Result<Self, Error>)
        ensures
            match r {
                Ok(out) => attested(self.record_map(), key@, now) == Some(out.record_map())
                    && holds_bytes(out.record_map(), SECURITY_SIGNING_PUBLIC_KEY@, 32)
                    && holds_bytes(out.record_map(), ASSUMED_SECURE@, 64),
                Err(e) => e == Error::MalformedRecord && attested(
                    self.record_map(),
                    key@,
                    now,
                ) is None,
            },
    {
        proof {
            Self::lemma_reserved_not_payload(MODIFIED@);
            Self::lemma_reserved_not_payload(SECURITY_SIGNING_PUBLIC_KEY@);
            Self::lemma_reserved_not_payload(ASSUMED_SECURE@);
            lemma_reserved_distinct();
        }
        let pair = signing_pair(&key);
        let out = self.with_meta(MODIFIED, Value::Timestamp(now)).with_meta(
            SECURITY_SIGNING_PUBLIC_KEY,
            sensitive_value(to_vec(&pair.0)),
        );
        let record = out.to_record();
        match canonical_bytes(&record) {
            Err(e) => Err(e),
            Ok(bytes) => {
                let mut message = bytes;
                append_bytes(&mut message, SECURITY_PADDING.as_bytes());
                let signature = sign_message(&pair.0, &pair.1, message.as_slice());
                Ok(out.with_meta(ASSUMED_SECURE, sensitive_value(to_vec(&signature))))
            },
        }
    }

    /// Attests the value with a secret key at the present time.
    fn with_security(self, key: [u8; 64]) -> (r: Result<Self, Error>)
        ensures
            exists|now: i64|
                match r {
                    Ok(out) => #[trigger] attested(self.record_map(), key@, now) == Some(
                        out.record_map(),
                    ),
                    Err(e) => e == Error::MalformedRecord && attested(
                        self.record_map(),
                        key@,
                        now,
                    ) is None,
                },
            r is Ok ==> holds_bytes(r->Ok_0.record_map(), SECURITY_SIGNING_PUBLIC_KEY@, 32)
                && holds_bytes(r->Ok_0.record_map(), ASSUMED_SECURE@, 64),
    {
        let now = now_millis();
        self.with_security_at(key, now)
    }

    /// Whether the value carries a valid attestation under the public key
    /// that it names itself.
    fn is_secure(&self) -> (ok: bool)
        ensures
            ok == secure(self.record_map()),
    {
        let record = self.to_record();
        match binary_of(&record, SECURITY_SIGNING_PUBLIC_KEY) {
            Some(public) => match to_array::<32>(&public) {
                Some(public_key) => self.is_secure_with(public_key),
                None => false,
            },
            None => false,
        }
    }

    /// Whether the value carries a valid attestation under `public_key`.
    fn is_secure_with(&self, public_key: [u8; 32]) -> (ok: bool)
        ensures
            ok == secure_with(self.record_map(), public_key@),
    {
        let record = self.to_record();
        let signature = match binary_of(&record, ASSUMED_SECURE) {
            Some(signature) => signature,
            None => {
                return false;
            },
        };
        let mut message = match bytes_without(record, ASSUMED_SECURE) {
            Some(bytes) => bytes,
            None => {
                return false;
            },
        };
        append_bytes(&mut message, SECURITY_PADDING.as_bytes());
        match to_array::<64>(&signature) {
            Some(signature) => verify_message(&public_key, message.as_slice(), &signature),
            None => false,
        }
    }
}

impl<T: Metadata> Signing for T {
}

} // verus!
