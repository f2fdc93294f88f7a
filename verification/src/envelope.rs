//! What every provider does alike: laying a payload and its metadata out as
//! one record, tagging the record, checking its version and taking the
//! payload out again.

use vstd::prelude::*;
use crate::error::Error;
use crate::names::{PROVIDER, VERSION, CREATED};
use crate::order::same_text;
use crate::record::{Binary, Record, Value, records_view};
use crate::value::{
    ValueView, Fields, has_name, lookup, distinct_names, inserted, added, removed, to_map,
    lemma_inserted_distinct, lemma_inserted_map, lemma_removed_distinct, lemma_removed_map,
};

verus! {

/// `base` followed by those fields of `extra` whose names `base` does not
/// hold: the fields of `base` win.
pub open spec fn merged(base: Fields, extra: Fields) -> Fields
    decreases extra.len(),
{
    if extra.len() == 0 {
        base
    } else {
        added(merged(base, extra.drop_last()), extra.last().0, extra.last().1)
    }
}

/// The mapping that holds `base` and, under the names `base` lacks, `extra`.
pub open spec fn overlay(
    base: Map<Seq<char>, ValueView>,
    extra: Map<Seq<char>, ValueView>,
) -> Map<Seq<char>, ValueView> {
    extra.union_prefer_right(base)
}

/// A mapping tagged with its provider: name and version are written
/// whatever was there, the time of creation only where none is recorded.
pub open spec fn with_defaults(
    map: Map<Seq<char>, ValueView>,
    provider: Seq<char>,
    version: Seq<char>,
    now: i64,
) -> Map<Seq<char>, ValueView> {
    let tagged = map.insert(PROVIDER@, ValueView::Text(provider)).insert(
        VERSION@,
        ValueView::Text(version),
    );
    if tagged.dom().contains(CREATED@) {
        tagged
    } else {
        tagged.insert(CREATED@, ValueView::Timestamp(now))
    }
}

/// A field list tagged with its provider, as `with_defaults` tags a mapping.
pub open spec fn tagged(fields: Fields, provider: Seq<char>, version: Seq<char>, now: i64) -> Fields {
    added(
        inserted(
            inserted(fields, PROVIDER@, ValueView::Text(provider)),
            VERSION@,
            ValueView::Text(version),
        ),
        CREATED@,
        ValueView::Timestamp(now),
    )
}

/// The record of a provider: its payload, then its metadata, then the tags.
pub open spec fn composed(
    payload: Fields,
    extra: Fields,
    provider: Seq<char>,
    version: Seq<char>,
    now: i64,
) -> Fields {
    tagged(merged(payload, extra), provider, version, now)
}

/// `entry` without the fields called by one of `names`.
pub open spec fn stripped(entry: Fields, names: Seq<Seq<char>>) -> Fields
    decreases names.len(),
{
    if names.len() == 0 {
        entry
    } else {
        removed(stripped(entry, names.drop_last()), names.last())
    }
}

/// Whether the record carries exactly this version.
pub open spec fn version_ok(entry: Fields, version: Seq<char>) -> bool {
    lookup(entry, VERSION@) == Some(ValueView::Text(version))
}

/// Whether each field of `payload` stands in `entry` with the same value.
pub open spec fn holds_payload(entry: Map<Seq<char>, ValueView>, payload: Fields) -> bool {
    forall|i: int|
        0 <= i < payload.len() ==> entry.dom().contains((#[trigger] payload[i]).0) && entry[payload[i].0]
            == payload[i].1
}

/// Whether a text stands under `name`.
pub open spec fn holds_text(entry: Fields, name: Seq<char>) -> bool {
    lookup(entry, name) is Some && lookup(entry, name)->0 is Text
}

/// Whether a binary stands under `name`.
pub open spec fn holds_binary(entry: Fields, name: Seq<char>) -> bool {
    lookup(entry, name) is Some && lookup(entry, name)->0 is Binary
}

/// Whether a list of records stands under `name`.
pub open spec fn holds_list(entry: Fields, name: Seq<char>) -> bool {
    lookup(entry, name) is Some && lookup(entry, name)->0 is List
}

/// The names of a field list, in order.
pub open spec fn names_of(fields: Fields) -> Seq<Seq<char>> {
    Seq::new(fields.len(), |i: int| fields[i].0)
}

/// Adding a field where its name is absent, in terms of the mapping.
pub proof fn lemma_added_map(fields: Fields, name: Seq<char>, value: ValueView)
    requires
        distinct_names(fields),
    ensures
        distinct_names(added(fields, name, value)),
        to_map(added(fields, name, value)) == if to_map(fields).dom().contains(name) {
            to_map(fields)
        } else {
            to_map(fields).insert(name, value)
        },
{
    lemma_inserted_distinct(fields, name, value);
    lemma_inserted_map(fields, name, value);
}

/// What a merged list maps, and that it repeats no name.
pub proof fn lemma_merged(base: Fields, extra: Fields)
    requires
        distinct_names(base),
        distinct_names(extra),
    ensures
        distinct_names(merged(base, extra)),
        to_map(merged(base, extra)) == overlay(to_map(base), to_map(extra)),
    decreases extra.len(),
{
    if extra.len() == 0 {
        assert(to_map(extra).dom() =~= Set::empty());
        assert(to_map(base) =~= overlay(to_map(base), to_map(extra)));
    } else {
        let front = extra.drop_last();
        let last = extra.last();
        assert forall|i: int, j: int| 0 <= i < j < front.len() implies (#[trigger] front[i]).0 != (
        #[trigger] front[j]).0 by {
            assert(front[i] == extra[i]);
            assert(front[j] == extra[j]);
        }
        lemma_merged(base, front);
        lemma_added_map(merged(base, front), last.0, last.1);
        assert(!has_name(front, last.0)) by {
            if has_name(front, last.0) {
                let k = choose|k: int| 0 <= k < front.len() && #[trigger] front[k].0 == last.0;
                assert(extra[k].0 == extra[extra.len() - 1].0);
            }
        }
        assert(extra =~= front.push(last));
        crate::value::lemma_push_map(front, last.0, last.1);
        assert(to_map(merged(base, extra)) =~= overlay(to_map(base), to_map(extra)));
    }
}

/// What a tagged list maps, and that it repeats no name.
pub proof fn lemma_tagged(fields: Fields, provider: Seq<char>, version: Seq<char>, now: i64)
    requires
        distinct_names(fields),
    ensures
        distinct_names(tagged(fields, provider, version, now)),
        to_map(tagged(fields, provider, version, now)) == with_defaults(
            to_map(fields),
            provider,
            version,
            now,
        ),
{
    let a = inserted(fields, PROVIDER@, ValueView::Text(provider));
    lemma_inserted_distinct(fields, PROVIDER@, ValueView::Text(provider));
    lemma_inserted_map(fields, PROVIDER@, ValueView::Text(provider));
    let b = inserted(a, VERSION@, ValueView::Text(version));
    lemma_inserted_distinct(a, VERSION@, ValueView::Text(version));
    lemma_inserted_map(a, VERSION@, ValueView::Text(version));
    lemma_added_map(b, CREATED@, ValueView::Timestamp(now));
}

/// What a stripped list maps, and that it repeats no name.
pub proof fn lemma_stripped(entry: Fields, names: Seq<Seq<char>>)
    requires
        distinct_names(entry),
    ensures
        distinct_names(stripped(entry, names)),
        to_map(stripped(entry, names)) == to_map(entry).remove_keys(names.to_set()),
    decreases names.len(),
{
    if names.len() == 0 {
        assert(names.to_set() =~= Set::empty());
        assert(to_map(entry) =~= to_map(entry).remove_keys(names.to_set()));
    } else {
        let front = names.drop_last();
        lemma_stripped(entry, front);
        let inner = stripped(entry, front);
        lemma_removed_distinct(inner, names.last());
        lemma_removed_map(inner, names.last());
        assert(names =~= front.push(names.last()));
        assert forall|k: Seq<char>| names.to_set().contains(k) <==> (front.to_set().contains(k) || k
            == names.last()) by {
            if names.to_set().contains(k) {
                let i = choose|i: int| 0 <= i < names.len() && names[i] == k;
                if i < front.len() {
                    assert(front[i] == k);
                }
            }
            if front.to_set().contains(k) {
                let i = choose|i: int| 0 <= i < front.len() && front[i] == k;
                assert(names[i] == k);
            }
            if k == names.last() {
                assert(names[names.len() - 1] == k);
            }
        }
        assert(to_map(stripped(entry, names)) =~= to_map(entry).remove_keys(names.to_set()));
    }
}

/// The names that a list maps are the names of its fields.
pub proof fn lemma_payload_dom(payload: Fields, name: Seq<char>)
    ensures
        to_map(payload).dom().contains(name) <==> names_of(payload).contains(name),
{
    if has_name(payload, name) {
        let i = choose|i: int| 0 <= i < payload.len() && #[trigger] payload[i].0 == name;
        assert(names_of(payload)[i] == name);
    }
    if names_of(payload).contains(name) {
        let i = choose|i: int| 0 <= i < names_of(payload).len() && names_of(payload)[i] == name;
        assert(payload[i].0 == name);
    }
}

/// Appends a field under a name that `record` does not hold.
pub fn push_field(record: &mut Record, name: &str, value: Value)
    requires
        !has_name(old(record)@, name@),
    ensures
        final(record)@ == old(record)@.push((name@, value@)),
{
    record.insert(name, value);
}

/// Where no name of `extra` is a name of `base`, merging appends.
pub proof fn lemma_merged_disjoint(base: Fields, extra: Fields)
    requires
        distinct_names(extra),
        forall|i: int| 0 <= i < extra.len() ==> !has_name(base, #[trigger] extra[i].0),
    ensures
        merged(base, extra) == base + extra,
    decreases extra.len(),
{
    if extra.len() == 0 {
        assert(base + extra =~= base);
    } else {
        let front = extra.drop_last();
        let last = extra.last();
        assert forall|i: int, j: int| 0 <= i < j < front.len() implies (#[trigger] front[i]).0 != (
        #[trigger] front[j]).0 by {
            assert(front[i] == extra[i]);
            assert(front[j] == extra[j]);
        }
        assert forall|i: int| 0 <= i < front.len() implies !has_name(base, #[trigger] front[i].0) by {
            assert(front[i] == extra[i]);
        }
        lemma_merged_disjoint(base, front);
        let body = base + front;
        assert(!has_name(body, last.0)) by {
            if has_name(body, last.0) {
                let k = choose|k: int| 0 <= k < body.len() && #[trigger] body[k].0 == last.0;
                if k < base.len() {
                    assert(base[k].0 == extra[extra.len() - 1].0);
                    assert(has_name(base, extra[extra.len() - 1].0));
                } else {
                    assert(extra[k - base.len()].0 == extra[extra.len() - 1].0);
                }
            }
        }
        assert(body.push(last) =~= base + extra);
    }
}

/// Tagging a list that already carries these tags, and a time of creation,
/// changes nothing.
pub proof fn lemma_tagged_again(fields: Fields, provider: Seq<char>, version: Seq<char>, now: i64)
    requires
        lookup(fields, PROVIDER@) == Some(ValueView::Text(provider)),
        lookup(fields, VERSION@) == Some(ValueView::Text(version)),
        has_name(fields, CREATED@),
    ensures
        tagged(fields, provider, version, now) == fields,
{
    crate::value::lemma_position_found(fields, PROVIDER@);
    crate::value::lemma_position_found(fields, VERSION@);
    let a = inserted(fields, PROVIDER@, ValueView::Text(provider));
    assert(a =~= fields);
    let b = inserted(a, VERSION@, ValueView::Text(version));
    assert(b =~= fields);
}

/// Stripping the names of `base` from `base` followed by `extra` leaves
/// `extra`, where `base` repeats no name.
pub proof fn lemma_stripped_front(base: Fields, extra: Fields, count: int)
    requires
        distinct_names(base),
        0 <= count <= base.len(),
    ensures
        stripped(base + extra, names_of(base).take(count)) == base.skip(count) + extra,
    decreases count,
{
    let names = names_of(base).take(count);
    if count == 0 {
        assert(base.skip(0) + extra =~= base + extra);
    } else {
        lemma_stripped_front(base, extra, count - 1);
        assert(names.drop_last() =~= names_of(base).take(count - 1));
        assert(names.last() == base[count - 1].0);
        let inner = base.skip(count - 1) + extra;
        assert(inner[0] == base[count - 1]);
        crate::value::lemma_position(inner, base[count - 1].0, 0);
        assert(inner.remove(0) =~= base.skip(count) + extra);
    }
}

/// Stripping one name removes it.
pub proof fn lemma_stripped_one(entry: Fields, a: Seq<char>)
    ensures
        stripped(entry, seq![a]) == removed(entry, a),
{
    let names = seq![a];
    assert(names.drop_last() =~= Seq::<Seq<char>>::empty());
    assert(names.last() == a);
    assert(stripped(entry, names.drop_last()) == entry);
}

/// Stripping two names removes one after the other.
pub proof fn lemma_stripped_two(entry: Fields, a: Seq<char>, b: Seq<char>)
    ensures
        stripped(entry, seq![a, b]) == removed(removed(entry, a), b),
{
    let names = seq![a, b];
    assert(names.drop_last() =~= seq![a]);
    assert(names.last() == b);
    lemma_stripped_one(entry, a);
}

/// Stripping three names removes one after the other.
pub proof fn lemma_stripped_three(entry: Fields, a: Seq<char>, b: Seq<char>, c: Seq<char>)
    ensures
        stripped(entry, seq![a, b, c]) == removed(removed(removed(entry, a), b), c),
{
    let names = seq![a, b, c];
    assert(names.drop_last() =~= seq![a, b]);
    assert(names.last() == c);
    lemma_stripped_two(entry, a, b);
}

/// A record that holds a value under a name holds it in its mapping.
pub proof fn lemma_held(entry: Fields, name: Seq<char>, value: ValueView)
    requires
        lookup(entry, name) == Some(value),
    ensures
        to_map(entry).dom().contains(name),
        to_map(entry)[name] == value,
{
}

/// Appends to `record` the fields of `extra` whose names it does not hold.
pub fn merge_into(record: &mut Record, extra: &Record)
    ensures
        final(record)@ == merged(old(record)@, extra@),
{
    let ghost base = record@;
    let mut i: usize = 0;
    assert(extra@.take(0) =~= Fields::empty());
    while i < extra.len()
        invariant
            0 <= i <= extra@.len(),
            record@ == merged(base, extra@.take(i as int)),
        decreases extra@.len() - i,
    {
        let name = extra.name_at(i);
        proof {
            let next = extra@.take(i + 1);
            assert(next.drop_last() =~= extra@.take(i as int));
            assert(next.last() == extra@[i as int]);
        }
        if !record.contains_key(name) {
            let value = extra.value_at(i).clone();
            record.insert(name, value);
        }
        i += 1;
    }
    assert(extra@.take(i as int) =~= extra@);
}

/// Tags `record` with its provider: name and version are written whatever
/// was there, the time of creation only where none is recorded.
pub fn apply_defaults(record: &mut Record, provider: &str, version: &str, now: i64)
    ensures
        final(record)@ == tagged(old(record)@, provider@, version@, now),
{
    record.insert(PROVIDER, Value::Text(provider.to_string()));
    record.insert(VERSION, Value::Text(version.to_string()));
    if !record.contains_key(CREATED) {
        record.insert(CREATED, Value::Timestamp(now));
    }
}

/// Accepts the record where its `version` field is a text equal to
/// `version`, and refuses it with `VersionMismatch` otherwise.
pub fn check_version(entry: &Record, version: &str) -> (r: Result<(), Error>)
    ensures
        r is Ok <==> version_ok(entry@, version@),
        r is Err ==> r == Err::<(), Error>(Error::VersionMismatch),
{
    match entry.get(VERSION) {
        Some(Value::Text(found)) => {
            if same_text(found.as_str(), version) {
                Ok(())
            } else {
                Err(Error::VersionMismatch)
            }
        },
        _ => Err(Error::VersionMismatch),
    }
}

/// Takes the field called `name` out of `entry` and hands back its text,
/// if it is a text.
pub fn take_text(entry: &mut Record, name: &str) -> (r: Option<String>)
    ensures
        final(entry)@ == removed(old(entry)@, name@),
        match r {
            Some(text) => lookup(old(entry)@, name@) == Some(ValueView::Text(text@)),
            None => !holds_text(old(entry)@, name@),
        },
{
    match entry.remove(name) {
        Some(Value::Text(text)) => Some(text),
        _ => None,
    }
}

/// Takes the field called `name` out of `entry` and hands back its records,
/// if it is a list.
pub fn take_list(entry: &mut Record, name: &str) -> (r: Option<Vec<Record>>)
    ensures
        final(entry)@ == removed(old(entry)@, name@),
        match r {
            Some(records) => lookup(old(entry)@, name@) == Some(
                ValueView::List(records_view(records@)),
            ),
            None => !holds_list(old(entry)@, name@),
        },
{
    match entry.remove(name) {
        Some(Value::List(records)) => Some(records),
        _ => None,
    }
}

/// The binary stored under `name`, if a binary is stored there.
pub fn get_binary(entry: &Record, name: &str) -> (r: Option<Binary>)
    ensures
        match r {
            Some(binary) => lookup(entry@, name@) == Some(binary.value()),
            None => !holds_binary(entry@, name@),
        },
{
    match entry.get(name) {
        Some(Value::Binary(binary)) => Some(binary.clone()),
        _ => None,
    }
}

/// The text stored under `name`, if a text is stored there.
pub fn get_text(entry: &Record, name: &str) -> (r: Option<String>)
    ensures
        match r {
            Some(text) => lookup(entry@, name@) == Some(ValueView::Text(text@)),
            None => !holds_text(entry@, name@),
        },
{
    match entry.get(name) {
        Some(Value::Text(text)) => Some(text.clone()),
        _ => None,
    }
}

/// `entry` without the fields called `a`, `b` and `c`.
pub fn strip_three(entry: Record, a: &str, b: &str, c: &str) -> (rest: Record)
    ensures
        rest@ == stripped(entry@, seq![a@, b@, c@]),
{
    proof {
        lemma_stripped_three(entry@, a@, b@, c@);
    }
    let mut rest = entry;
    rest.remove(a);
    rest.remove(b);
    rest.remove(c);
    rest
}

/// `entry` without the fields called `a` and `b`.
pub fn strip_two(entry: Record, a: &str, b: &str) -> (rest: Record)
    ensures
        rest@ == stripped(entry@, seq![a@, b@]),
{
    proof {
        lemma_stripped_two(entry@, a@, b@);
    }
    let mut rest = entry;
    rest.remove(a);
    rest.remove(b);
    rest
}

} // verus!
