//! What holds of the envelopes as a whole.
//!
//! Each statement here is proved from the contracts and definitions of the
//! other modules. The primitives stay uninterpreted: where a statement would
//! need more of a primitive than its source shows, it says what does hold
//! and names what is left to the primitive.

use vstd::prelude::*;
use vstd::utf8::{encode_utf8, decode_utf8, encode_utf8_decode_utf8};
use crate::canonical::{canonical_fields, sorted_by_name, lemma_canonical};
use crate::codec::canonical_encoding;
use crate::crypto::{mac_tag, opened, signature_of, signature_valid, signing_keypair};
use crate::envelope::{
    composed, merged, stripped, tagged, version_ok, with_defaults, holds_payload, names_of,
    lemma_merged, lemma_merged_disjoint, lemma_payload_dom, lemma_stripped,
    lemma_stripped_front, lemma_tagged, lemma_tagged_again,
};
use crate::error::Error;
use crate::names::{
    PROVIDER, VERSION, CREATED, MODIFIED, SIGNATURE, SIGNATURE_SYM, SIGNING_PUBLIC_KEY,
    SECURITY_SIGNING_PUBLIC_KEY, ASSUMED_SECURE, is_reserved, lemma_reserved_distinct,
};
use crate::providers::Provider;
use crate::metadata::Metadata;
use crate::providers::burrito_box_sym::{BurritoBoxSym, box_contents, sym_sealed_with};
use crate::signing::{
    attested, binary_at, check, holds_bytes, secure, security_padding, sensitive, signed,
    stamped, sym_check, sym_signed, SECURITY_PADDING,
};
use crate::value::{
    ValueView, Fields, distinct_names, has_name, inserted, lookup, position, removed, to_map,
    lemma_inserted_distinct, lemma_inserted_map, lemma_lookup_at, lemma_lookup_map,
    lemma_position, lemma_position_found, lemma_removed_distinct, lemma_removed_map,
};

verus! {

/// Round trip. The record that a provider makes of a value is accepted by
/// the same provider: its version matches and its payload is well typed.
/// It holds the payload of the value, and what is left beside the payload
/// is the value's metadata, tagged with the provider, under the names that
/// the payload leaves free.
pub proof fn lemma_round_trip_entry<P: Provider>(value: P, now: i64)
    requires
        distinct_names(value.extra()),
    ensures
        ({
            let entry = composed(
                value.payload(),
                value.extra(),
                P::name_spec(),
                P::version_spec(),
                now,
            );
            &&& distinct_names(entry)
            &&& version_ok(entry, P::version_spec())
            &&& P::well_typed(entry)
            &&& holds_payload(to_map(entry), value.payload())
            &&& to_map(stripped(entry, P::payload_names())) == with_defaults(
                to_map(value.extra()).remove_keys(P::payload_names().to_set()),
                P::name_spec(),
                P::version_spec(),
                now,
            )
        }),
{
    let payload = value.payload();
    let extra = value.extra();
    let names = P::payload_names();
    let body = merged(payload, extra);
    let entry = tagged(body, P::name_spec(), P::version_spec(), now);
    value.lemma_payload();
    lemma_reserved_distinct();
    lemma_merged(payload, extra);
    lemma_tagged(body, P::name_spec(), P::version_spec(), now);
    lemma_stripped(entry, names);
    lemma_lookup_map(entry, VERSION@);
    assert forall|k: Seq<char>| to_map(payload).dom().contains(k) implies !is_reserved(k) by {
        lemma_payload_dom(payload, k);
        let i = choose|i: int| 0 <= i < names_of(payload).len() && names_of(payload)[i] == k;
        assert(names[i] == k);
    }
    assert forall|k: Seq<char>| names.to_set().contains(k) <==> to_map(payload).dom().contains(
        k,
    ) by {
        lemma_payload_dom(payload, k);
    }
    assert forall|i: int| 0 <= i < payload.len() implies to_map(entry).dom().contains(
        (#[trigger] payload[i]).0,
    ) && to_map(entry)[payload[i].0] == payload[i].1 by {
        lemma_lookup_at(payload, i);
        assert(!is_reserved(payload[i].0));
    }
    value.lemma_well_typed(entry);
    assert(to_map(stripped(entry, names)) =~= with_defaults(
        to_map(extra).remove_keys(names.to_set()),
        P::name_spec(),
        P::version_spec(),
        now,
    )) by {
        assert(!names.to_set().contains(PROVIDER@));
        assert(!names.to_set().contains(VERSION@));
        assert(!names.to_set().contains(CREATED@));
    }
}

/// Round trip, continued. Whatever value the provider reads from the record
/// that it made of `value` has the payload of `value`; and where `value`
/// was tagged already and none of its metadata hides behind a payload
/// name, it has the metadata of `value` too, field for field: the value
/// comes back as it went in.
pub proof fn lemma_round_trip<P: Provider>(value: P, now: i64, back: P)
    requires
        distinct_names(value.extra()),
        ({
            let entry = composed(
                value.payload(),
                value.extra(),
                P::name_spec(),
                P::version_spec(),
                now,
            );
            holds_payload(to_map(entry), back.payload()) && back.extra() == stripped(
                entry,
                P::payload_names(),
            )
        }),
    ensures
        back.payload() == value.payload(),
        to_map(back.extra()) == with_defaults(
            to_map(value.extra()).remove_keys(P::payload_names().to_set()),
            P::name_spec(),
            P::version_spec(),
            now,
        ),
        ({
            let meta = to_map(value.extra());
            &&& meta.dom().contains(PROVIDER@) && meta[PROVIDER@] == ValueView::Text(P::name_spec())
            &&& meta.dom().contains(VERSION@) && meta[VERSION@] == ValueView::Text(
                P::version_spec(),
            )
            &&& meta.dom().contains(CREATED@)
            &&& forall|i: int|
                0 <= i < P::payload_names().len() ==> !meta.dom().contains(
                    #[trigger] P::payload_names()[i],
                )
        }) ==> back.extra() == value.extra(),
{
    let entry = composed(value.payload(), value.extra(), P::name_spec(), P::version_spec(), now);
    lemma_round_trip_entry(value, now);
    value.lemma_same_payload(&back, entry);
    let extra = value.extra();
    let meta = to_map(extra);
    let names = P::payload_names();
    let payload = value.payload();
    if meta.dom().contains(PROVIDER@) && meta[PROVIDER@] == ValueView::Text(P::name_spec())
        && meta.dom().contains(VERSION@) && meta[VERSION@] == ValueView::Text(P::version_spec())
        && meta.dom().contains(CREATED@) && (forall|i: int|
        0 <= i < names.len() ==> !meta.dom().contains(#[trigger] names[i])) {
        value.lemma_payload();
        assert forall|i: int| 0 <= i < extra.len() implies !has_name(
            payload,
            #[trigger] extra[i].0,
        ) by {
            if has_name(payload, extra[i].0) {
                lemma_payload_dom(payload, extra[i].0);
                let k = choose|k: int| 0 <= k < names.len() && names[k] == extra[i].0;
                lemma_lookup_at(extra, i);
                assert(meta.dom().contains(names[k]));
            }
        }
        lemma_merged_disjoint(payload, extra);
        let body = payload + extra;
        lemma_reserved_distinct();
        assert forall|name: Seq<char>| is_reserved(name) && has_name(extra, name) implies lookup(
            body,
            name,
        ) == lookup(extra, name) by {
            lemma_position_found(extra, name);
            let at = position(extra, name);
            assert forall|j: int| 0 <= j < payload.len() + at implies #[trigger] body[j].0
                != name by {
                if j < payload.len() {
                    assert(names_of(payload)[j] == payload[j].0);
                    assert(!is_reserved(names[j]));
                } else {
                    assert(body[j] == extra[j - payload.len()]);
                }
            }
            assert(body[payload.len() + at] == extra[at]);
            lemma_position(body, name, payload.len() + at);
        }
        lemma_lookup_map(extra, PROVIDER@);
        lemma_lookup_map(extra, VERSION@);
        assert(is_reserved(PROVIDER@) && has_name(extra, PROVIDER@));
        assert(lookup(body, PROVIDER@) == lookup(extra, PROVIDER@));
        assert(is_reserved(VERSION@) && has_name(extra, VERSION@));
        assert(lookup(body, VERSION@) == lookup(extra, VERSION@));
        assert(has_name(body, CREATED@)) by {
            lemma_position_found(extra, CREATED@);
            let at = position(extra, CREATED@);
            assert(body[payload.len() + at] == extra[at]);
        }
        lemma_tagged_again(body, P::name_spec(), P::version_spec(), now);
        lemma_stripped_front(payload, extra, payload.len() as int);
        assert(names_of(payload).take(payload.len() as int) =~= names);
        assert(payload.skip(payload.len() as int) + extra =~= extra);
    }
}

/// Writing two fields in either order gives the same mapping.
pub proof fn lemma_insertion_order(
    fields: Fields,
    a: Seq<char>,
    x: ValueView,
    b: Seq<char>,
    y: ValueView,
)
    requires
        distinct_names(fields),
        a != b,
    ensures
        to_map(inserted(inserted(fields, a, x), b, y)) == to_map(
            inserted(inserted(fields, b, y), a, x),
        ),
{
    lemma_inserted_distinct(fields, a, x);
    lemma_inserted_distinct(fields, b, y);
    lemma_inserted_map(fields, a, x);
    lemma_inserted_map(fields, b, y);
    lemma_inserted_map(inserted(fields, a, x), b, y);
    lemma_inserted_map(inserted(fields, b, y), a, x);
    assert(to_map(fields).insert(a, x).insert(b, y) =~= to_map(fields).insert(b, y).insert(a, x));
}

/// Canonical-order independence. Two field lists that hold the same fields,
/// in whatever order, have the same canonical form, which is sorted and
/// holds exactly those fields; so they have the same canonical bytes, and
/// under the same key and at the same time the same signatures and the
/// same attestation.
pub proof fn lemma_canonical_order_independent(
    a: Fields,
    b: Fields,
    key: Seq<u8>,
    secret: Seq<u8>,
    now: i64,
)
    requires
        distinct_names(a),
        distinct_names(b),
        to_map(a) == to_map(b),
    ensures
        canonical_fields(to_map(a)) == canonical_fields(to_map(b)),
        sorted_by_name(canonical_fields(to_map(a))),
        to_map(canonical_fields(to_map(a))) == to_map(a),
        canonical_encoding(to_map(a)) == canonical_encoding(to_map(b)),
        sym_signed(to_map(a), key, now) == sym_signed(to_map(b), key, now),
        signed(to_map(a), secret, now) == signed(to_map(b), secret, now),
        attested(to_map(a), secret, now) == attested(to_map(b), secret, now),
{
    lemma_canonical(a);
}

/// Verification of a symmetric signature checks the very bytes that
/// signing signed: a freshly signed value, which carried no symmetric
/// signature before, verifies under the key that signed it wherever the MAC
/// has its 32 bytes, as every MAC that `sign_sym_at` stores has.
pub proof fn lemma_sym_sign_then_verify(map: Map<Seq<char>, ValueView>, key: Seq<u8>, now: i64)
    requires
        !map.dom().contains(SIGNATURE_SYM@),
        sym_signed(map, key, now) is Some,
    ensures
        sym_check(sym_signed(map, key, now)->0, key) is Ok <==> holds_bytes(
            sym_signed(map, key, now)->0,
            SIGNATURE_SYM@,
            32,
        ),
{
    lemma_reserved_distinct();
    let message = stamped(map, now);
    let out = sym_signed(map, key, now)->0;
    assert(out.remove(SIGNATURE_SYM@) =~= message);
}

/// A box that carries nothing but its tags beside its payload carries no
/// signature and no attestation.
pub proof fn lemma_fresh_box_unsigned(sealed: BurritoBoxSym, now: i64)
    requires
        sealed.meta() == with_defaults(
            Map::empty(),
            BurritoBoxSym::name_spec(),
            BurritoBoxSym::version_spec(),
            now,
        ),
    ensures
        !sealed.record_map().dom().contains(SIGNATURE_SYM@),
        !sealed.record_map().dom().contains(SIGNATURE@),
        !sealed.record_map().dom().contains(ASSUMED_SECURE@),
{
    lemma_reserved_distinct();
    BurritoBoxSym::lemma_reserved_not_payload(SIGNATURE_SYM@);
    BurritoBoxSym::lemma_reserved_not_payload(SIGNATURE@);
    BurritoBoxSym::lemma_reserved_not_payload(ASSUMED_SECURE@);
    sealed.lemma_meta_in_record(SIGNATURE_SYM@);
    sealed.lemma_meta_in_record(SIGNATURE@);
    sealed.lemma_meta_in_record(ASSUMED_SECURE@);
}

/// A fresh symmetric box, signed with a second key, verifies under that
/// key: whatever nonce and time the box was made with, and whenever it was
/// signed, the outcome of `sign_sym_at` passes `verify_sym`.
pub proof fn lemma_fresh_box_signs_and_verifies(
    entry: Fields,
    key: Seq<u8>,
    nonce: Seq<u8>,
    made: i64,
    sealed: BurritoBoxSym,
    second: Seq<u8>,
    now: i64,
)
    requires
        sym_sealed_with(entry, key, nonce, made, Ok::<BurritoBoxSym, Error>(sealed)),
        sym_signed(sealed.record_map(), second, now) is Some,
        holds_bytes(sym_signed(sealed.record_map(), second, now)->0, SIGNATURE_SYM@, 32),
    ensures
        sym_check(sym_signed(sealed.record_map(), second, now)->0, second) == Ok::<(), Error>(()),
{
    lemma_fresh_box_unsigned(sealed, made);
    lemma_sym_sign_then_verify(sealed.record_map(), second, now);
}

/// Verification of a signature checks the very bytes that signing signed,
/// under the very key that signing recorded: a freshly signed value is
/// accepted exactly where the primitive accepts its own signature and key
/// and signature have their lengths.
pub proof fn lemma_sign_then_verify(map: Map<Seq<char>, ValueView>, secret: Seq<u8>, now: i64)
    requires
        !map.dom().contains(SIGNATURE@),
        signed(map, secret, now) is Some,
    ensures
        ({
            let pair = signing_keypair(secret);
            let message = stamped(map, now).insert(SIGNING_PUBLIC_KEY@, sensitive(pair.0));
            let bytes = canonical_encoding(message)->0;
            let signature = signature_of(pair.1, bytes);
            check(signed(map, secret, now)->0) is Ok <==> pair.0.len() == 32 && signature.len()
                == 64 && signature_valid(pair.0, bytes, signature)
        }),
{
    lemma_reserved_distinct();
    let pair = signing_keypair(secret);
    let message = stamped(map, now).insert(SIGNING_PUBLIC_KEY@, sensitive(pair.0));
    let out = signed(map, secret, now)->0;
    assert(out.remove(SIGNATURE@) =~= message);
}

/// Checking an attestation checks the very bytes that attesting signed,
/// padding included: a freshly attested value is secure exactly where the
/// primitive accepts its own signature and key and signature have their
/// lengths.
pub proof fn lemma_attest_then_check(map: Map<Seq<char>, ValueView>, secret: Seq<u8>, now: i64)
    requires
        !map.dom().contains(ASSUMED_SECURE@),
        attested(map, secret, now) is Some,
    ensures
        ({
            let pair = signing_keypair(secret);
            let message = stamped(map, now).insert(
                SECURITY_SIGNING_PUBLIC_KEY@,
                sensitive(pair.0),
            );
            let bytes = canonical_encoding(message)->0 + security_padding();
            let signature = signature_of(pair.1, bytes);
            secure(attested(map, secret, now)->0) <==> pair.0.len() == 32 && signature.len() == 64
                && signature_valid(pair.0, bytes, signature)
        }),
{
    lemma_reserved_distinct();
    let pair = signing_keypair(secret);
    let message = stamped(map, now).insert(SECURITY_SIGNING_PUBLIC_KEY@, sensitive(pair.0));
    let out = attested(map, secret, now)->0;
    assert(out.remove(ASSUMED_SECURE@) =~= message);
}

/// The message of an attestation is never the message of a signature over
/// the same bytes: the padding is not empty.
pub proof fn lemma_padding_separates(bytes: Seq<u8>)
    ensures
        security_padding().len() > 0,
        bytes + security_padding() != bytes,
{
    reveal_strlit(
        "This is some extra data to ensure that the signature is different, instead of being simply copy-pastable if the owner of the document did not also sign the document BEFORE adding a security attestation.",
    );
    let text = SECURITY_PADDING@;
    assert(text.len() > 0);
    encode_utf8_decode_utf8(text);
    if encode_utf8(text).len() == 0 {
        assert(encode_utf8(text) =~= Seq::<u8>::empty());
        assert(decode_utf8(Seq::<u8>::empty()).len() == 0);
    }
    assert((bytes + security_padding()).len() == bytes.len() + security_padding().len());
}

/// Tamper detection, for the symmetric signature. A value whose symmetric
/// signature verifies stops verifying as soon as the stored signature is
/// replaced by any other bytes.
pub proof fn lemma_tampered_sym_signature(
    map: Map<Seq<char>, ValueView>,
    key: Seq<u8>,
    subtype: u8,
    forged: Seq<u8>,
)
    requires
        sym_check(map, key) is Ok,
        binary_at(map, SIGNATURE_SYM@) != Some(forged),
    ensures
        sym_check(map.insert(SIGNATURE_SYM@, ValueView::Binary(subtype, forged)), key) == Err::<
            (),
            Error,
        >(Error::SignatureInvalid),
{
    let tampered = map.insert(SIGNATURE_SYM@, ValueView::Binary(subtype, forged));
    assert(tampered.remove(SIGNATURE_SYM@) =~= map.remove(SIGNATURE_SYM@));
}

/// Tamper detection, for signed content. Verification is always made
/// against the present content: a value verifies exactly where its stored
/// signature is the MAC of the canonical bytes of everything else that it
/// holds now. After a change of content it verifies only if the MAC of the
/// changed bytes is the stored one.
pub proof fn lemma_sym_check_binds_content(map: Map<Seq<char>, ValueView>, key: Seq<u8>)
    ensures
        sym_check(map, key) is Ok <==> canonical_encoding(map.remove(SIGNATURE_SYM@)) is Some
            && holds_bytes(map, SIGNATURE_SYM@, 32) && binary_at(map, SIGNATURE_SYM@) == Some(
            mac_tag(key, canonical_encoding(map.remove(SIGNATURE_SYM@))->0),
        ),
{
}

/// Tamper detection, for boxes. A symmetric box yields a record only where
/// the primitive authenticated tag and ciphertext under the key and the
/// nonce; whatever else happens, the outcome is an error and no plaintext.
pub proof fn lemma_box_fails_closed(
    key: Seq<u8>,
    nonce: Seq<u8>,
    mac: Seq<u8>,
    ciphertext: Seq<u8>,
)
    ensures
        box_contents(key, nonce, mac, ciphertext) is Ok ==> opened(key, nonce, mac, ciphertext) is Some
            && mac.len() == 16 && nonce.len() == 24,
        opened(key, nonce, mac, ciphertext) is None ==> box_contents(key, nonce, mac, ciphertext)
            == Err::<Fields, Error>(Error::AuthenticationFailure),
{
}

/// Attestation fragility, as far as it is a matter of records. An
/// attestation covers every field but itself. So after any write that
/// changes the record, under any name but that of the attestation, the
/// field list that the attestation is checked against is no longer the
/// field list that was attested. That the primitive then rejects the old
/// attestation for the new bytes is left to the primitive.
pub proof fn lemma_attested_fields_change(fields: Fields, name: Seq<char>, value: ValueView)
    requires
        distinct_names(fields),
        name != ASSUMED_SECURE@,
        lookup(fields, name) != Some(value),
    ensures
        canonical_fields(to_map(inserted(fields, name, value)).remove(ASSUMED_SECURE@))
            != canonical_fields(to_map(fields).remove(ASSUMED_SECURE@)),
{
    let before = removed(fields, ASSUMED_SECURE@);
    let written = inserted(fields, name, value);
    let after = removed(written, ASSUMED_SECURE@);
    lemma_inserted_distinct(fields, name, value);
    lemma_inserted_map(fields, name, value);
    lemma_removed_distinct(fields, ASSUMED_SECURE@);
    lemma_removed_distinct(written, ASSUMED_SECURE@);
    lemma_removed_map(fields, ASSUMED_SECURE@);
    lemma_removed_map(written, ASSUMED_SECURE@);
    lemma_canonical(before);
    lemma_canonical(after);
    lemma_lookup_map(fields, name);
    assert(to_map(after).dom().contains(name) && to_map(after)[name] == value);
    assert(!(to_map(before).dom().contains(name) && to_map(before)[name] == value));
}

/// Attestation fragility, for signing. Signing a value that carried no
/// signature writes one, so after it the field list that an attestation is
/// checked against is no longer the one that was attested, while the fresh
/// signature is checked against exactly what was signed.
pub proof fn lemma_signing_changes_attested_fields(fields: Fields, secret: Seq<u8>, now: i64)
    requires
        distinct_names(fields),
        !to_map(fields).dom().contains(SIGNATURE@),
        signed(to_map(fields), secret, now) is Some,
    ensures
        canonical_fields(signed(to_map(fields), secret, now)->0.remove(ASSUMED_SECURE@))
            != canonical_fields(to_map(fields).remove(ASSUMED_SECURE@)),
{
    lemma_reserved_distinct();
    let pair = signing_keypair(secret);
    let out = signed(to_map(fields), secret, now)->0;
    let a = inserted(fields, MODIFIED@, ValueView::Timestamp(now));
    let b = inserted(a, SIGNING_PUBLIC_KEY@, sensitive(pair.0));
    let c = inserted(b, SIGNATURE@, out[SIGNATURE@]);
    lemma_inserted_distinct(fields, MODIFIED@, ValueView::Timestamp(now));
    lemma_inserted_map(fields, MODIFIED@, ValueView::Timestamp(now));
    lemma_inserted_distinct(a, SIGNING_PUBLIC_KEY@, sensitive(pair.0));
    lemma_inserted_map(a, SIGNING_PUBLIC_KEY@, sensitive(pair.0));
    lemma_inserted_distinct(b, SIGNATURE@, out[SIGNATURE@]);
    lemma_inserted_map(b, SIGNATURE@, out[SIGNATURE@]);
    assert(to_map(c) =~= out);
    lemma_written_changes_attested_fields(fields, c, SIGNATURE@);
}

/// Attestation fragility, for symmetric signing: as for signing.
pub proof fn lemma_sym_signing_changes_attested_fields(fields: Fields, key: Seq<u8>, now: i64)
    requires
        distinct_names(fields),
        !to_map(fields).dom().contains(SIGNATURE_SYM@),
        sym_signed(to_map(fields), key, now) is Some,
    ensures
        canonical_fields(sym_signed(to_map(fields), key, now)->0.remove(ASSUMED_SECURE@))
            != canonical_fields(to_map(fields).remove(ASSUMED_SECURE@)),
{
    lemma_reserved_distinct();
    let out = sym_signed(to_map(fields), key, now)->0;
    let a = inserted(fields, MODIFIED@, ValueView::Timestamp(now));
    let b = inserted(a, SIGNATURE_SYM@, out[SIGNATURE_SYM@]);
    lemma_inserted_distinct(fields, MODIFIED@, ValueView::Timestamp(now));
    lemma_inserted_map(fields, MODIFIED@, ValueView::Timestamp(now));
    lemma_inserted_distinct(a, SIGNATURE_SYM@, out[SIGNATURE_SYM@]);
    lemma_inserted_map(a, SIGNATURE_SYM@, out[SIGNATURE_SYM@]);
    assert(to_map(b) =~= out);
    lemma_written_changes_attested_fields(fields, b, SIGNATURE_SYM@);
}

/// Two field lists of which one holds a name that the other lacks have
/// different canonical forms, with or without their attestations.
proof fn lemma_written_changes_attested_fields(before: Fields, after: Fields, name: Seq<char>)
    requires
        distinct_names(before),
        distinct_names(after),
        name != ASSUMED_SECURE@,
        !to_map(before).dom().contains(name),
        to_map(after).dom().contains(name),
    ensures
        canonical_fields(to_map(after).remove(ASSUMED_SECURE@)) != canonical_fields(
            to_map(before).remove(ASSUMED_SECURE@),
        ),
{
    let x = removed(before, ASSUMED_SECURE@);
    let y = removed(after, ASSUMED_SECURE@);
    lemma_removed_distinct(before, ASSUMED_SECURE@);
    lemma_removed_distinct(after, ASSUMED_SECURE@);
    lemma_removed_map(before, ASSUMED_SECURE@);
    lemma_removed_map(after, ASSUMED_SECURE@);
    lemma_canonical(x);
    lemma_canonical(y);
    assert(to_map(y).dom().contains(name));
    assert(!to_map(x).dom().contains(name));
}

} // verus!
