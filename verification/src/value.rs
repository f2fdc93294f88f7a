//! The values a record can hold, and the mathematical model of a field list.

use vstd::prelude::*;

verus! {

/// Subtype of a binary value that carries no particular meaning.
pub const GENERIC: u8 = 0;

/// Subtype of a binary value that holds ciphertext.
pub const ENCRYPTED: u8 = 6;

/// Subtype of a binary value that holds keys, nonces, tags or signatures.
pub const SENSITIVE: u8 = 8;

/// What a value is, apart from how it is stored.
pub enum ValueView {
    Text(Seq<char>),
    Int32(i32),
    Int64(i64),
    Bool(bool),
    /// Milliseconds since the Unix epoch.
    Timestamp(i64),
    /// A subtype and the bytes it tags.
    Binary(u8, Seq<u8>),
    Nested(Seq<(Seq<char>, ValueView)>),
    List(Seq<Seq<(Seq<char>, ValueView)>>),
    /// A value of the document format that records do not hold, such as a
    /// floating-point number. No `Value` has this view.
    Foreign,
}

/// A list of named values, in order.
pub type Fields = Seq<(Seq<char>, ValueView)>;

/// Whether some field of `fields` is called `name`.
pub open spec fn has_name(fields: Fields, name: Seq<char>) -> bool {
    exists|i: int| 0 <= i < fields.len() && #[trigger] fields[i].0 == name
}

/// The place of the first field called `name`. Meaningful where `has_name` holds.
#[verifier::opaque]
pub open spec fn position(fields: Fields, name: Seq<char>) -> int {
    choose|i: int|
        0 <= i < fields.len() && #[trigger] fields[i].0 == name && forall|j: int|
            0 <= j < i ==> #[trigger] fields[j].0 != name
}

/// The value stored under `name`, if any.
pub open spec fn lookup(fields: Fields, name: Seq<char>) -> Option<ValueView> {
    if has_name(fields, name) {
        Some(fields[position(fields, name)].1)
    } else {
        None
    }
}

/// No two fields share a name.
pub open spec fn distinct_names(fields: Fields) -> bool {
    forall|i: int, j: int|
        0 <= i < j < fields.len() ==> (#[trigger] fields[i]).0 != (#[trigger] fields[j]).0
}

/// `fields` after writing `value` under `name`: an existing field keeps its
/// place and takes the new value, a new field goes to the end.
pub open spec fn inserted(fields: Fields, name: Seq<char>, value: ValueView) -> Fields {
    if has_name(fields, name) {
        fields.update(position(fields, name), (name, value))
    } else {
        fields.push((name, value))
    }
}

/// `fields` after writing `value` under `name` only where `name` is absent.
pub open spec fn added(fields: Fields, name: Seq<char>, value: ValueView) -> Fields {
    if has_name(fields, name) {
        fields
    } else {
        fields.push((name, value))
    }
}

/// `fields` without the field called `name`; the others keep their order.
pub open spec fn removed(fields: Fields, name: Seq<char>) -> Fields {
    if has_name(fields, name) {
        fields.remove(position(fields, name))
    } else {
        fields
    }
}

/// The fields as a mapping from name to value, forgetting their order.
pub open spec fn to_map(fields: Fields) -> Map<Seq<char>, ValueView> {
    Map::new(|name: Seq<char>| has_name(fields, name), |name: Seq<char>| lookup(fields, name)->0)
}

/// No value in `fields`, at any depth, is foreign.
pub open spec fn supported(fields: Fields) -> bool
    decreases fields,
{
    forall|i: int| 0 <= i < fields.len() ==> supported_value(#[trigger] fields[i].1)
}

/// Neither `value` nor anything inside it is foreign.
pub open spec fn supported_value(value: ValueView) -> bool
    decreases value,
{
    match value {
        ValueView::Foreign => false,
        ValueView::Nested(inner) => supported(inner),
        ValueView::List(items) => forall|i: int| 0 <= i < items.len() ==> supported(#[trigger] items[i]),
        _ => true,
    }
}

/// Where `name` stands in a list without repeated names.
pub proof fn lemma_position(fields: Fields, name: Seq<char>, i: int)
    requires
        0 <= i < fields.len(),
        fields[i].0 == name,
        forall|j: int| 0 <= j < i ==> #[trigger] fields[j].0 != name,
    ensures
        has_name(fields, name),
        position(fields, name) == i,
        lookup(fields, name) == Some(fields[i].1),
{
    reveal(position);
    let p = position(fields, name);
    assert(0 <= p < fields.len() && fields[p].0 == name && forall|j: int|
        0 <= j < p ==> #[trigger] fields[j].0 != name);
    if p < i {
        assert(fields[p].0 != name);
    }
    if i < p {
        assert(fields[i].0 != name);
    }
}

/// A name that no field carries is not found.
pub proof fn lemma_absent(fields: Fields, name: Seq<char>)
    requires
        forall|j: int| 0 <= j < fields.len() ==> #[trigger] fields[j].0 != name,
    ensures
        !has_name(fields, name),
        lookup(fields, name) is None,
{
}

/// What `position` promises where the name is present.
pub proof fn lemma_position_found(fields: Fields, name: Seq<char>)
    requires
        has_name(fields, name),
    ensures
        0 <= position(fields, name) < fields.len(),
        fields[position(fields, name)].0 == name,
        forall|j: int| 0 <= j < position(fields, name) ==> #[trigger] fields[j].0 != name,
    decreases fields.len(),
{
    reveal(position);
    let w = choose|i: int| 0 <= i < fields.len() && #[trigger] fields[i].0 == name;
    lemma_first_occurrence(fields, name, w);
}

proof fn lemma_first_occurrence(fields: Fields, name: Seq<char>, w: int)
    requires
        0 <= w < fields.len(),
        fields[w].0 == name,
    ensures
        exists|i: int|
            0 <= i < fields.len() && #[trigger] fields[i].0 == name && forall|j: int|
                0 <= j < i ==> #[trigger] fields[j].0 != name,
    decreases w,
{
    if exists|j: int| 0 <= j < w && #[trigger] fields[j].0 == name {
        let j = choose|j: int| 0 <= j < w && #[trigger] fields[j].0 == name;
        lemma_first_occurrence(fields, name, j);
    } else {
        assert(forall|j: int| 0 <= j < w ==> #[trigger] fields[j].0 != name);
    }
}

/// Writing a field keeps the names distinct.
pub proof fn lemma_inserted_distinct(fields: Fields, name: Seq<char>, value: ValueView)
    requires
        distinct_names(fields),
    ensures
        distinct_names(inserted(fields, name, value)),
        added(fields, name, value) == if has_name(fields, name) {
            fields
        } else {
            inserted(fields, name, value)
        },
{
    if has_name(fields, name) {
        lemma_position_found(fields, name);
    } else {
        let out = fields.push((name, value));
        assert forall|i: int, j: int| 0 <= i < j < out.len() implies (#[trigger] out[i]).0 != (
        #[trigger] out[j]).0 by {
            if j == fields.len() {
                assert(fields[i].0 != name);
            }
        }
    }
}

/// Taking a field out keeps the names distinct.
pub proof fn lemma_removed_distinct(fields: Fields, name: Seq<char>)
    requires
        distinct_names(fields),
    ensures
        distinct_names(removed(fields, name)),
{
    if has_name(fields, name) {
        lemma_position_found(fields, name);
        let p = position(fields, name);
        let out = fields.remove(p);
        assert forall|i: int, j: int| 0 <= i < j < out.len() implies (#[trigger] out[i]).0 != (
        #[trigger] out[j]).0 by {
            let a = if i < p { i } else { i + 1 };
            let b = if j < p { j } else { j + 1 };
            assert(out[i] == fields[a]);
            assert(out[j] == fields[b]);
        }
    }
}

/// In a list without repeated names each field is found under its name.
pub proof fn lemma_lookup_at(fields: Fields, i: int)
    requires
        distinct_names(fields),
        0 <= i < fields.len(),
    ensures
        has_name(fields, fields[i].0),
        lookup(fields, fields[i].0) == Some(fields[i].1),
        to_map(fields).dom().contains(fields[i].0),
        to_map(fields)[fields[i].0] == fields[i].1,
{
    assert forall|j: int| 0 <= j < i implies #[trigger] fields[j].0 != fields[i].0 by {
        assert(fields[j].0 != fields[i].0);
    }
    lemma_position(fields, fields[i].0, i);
}

/// A name in the mapping of a list stands somewhere in the list.
pub proof fn lemma_map_witness(fields: Fields, name: Seq<char>) -> (i: int)
    requires
        to_map(fields).dom().contains(name),
    ensures
        0 <= i < fields.len(),
        fields[i].0 == name,
        to_map(fields)[name] == fields[i].1,
{
    assert(has_name(fields, name));
    lemma_position_found(fields, name);
    position(fields, name)
}

/// Appending a new name to a list adds it to the mapping.
pub proof fn lemma_push_map(fields: Fields, name: Seq<char>, value: ValueView)
    requires
        distinct_names(fields),
        !has_name(fields, name),
    ensures
        distinct_names(fields.push((name, value))),
        to_map(fields.push((name, value))) == to_map(fields).insert(name, value),
{
    let out = fields.push((name, value));
    assert forall|i: int, j: int| 0 <= i < j < out.len() implies (#[trigger] out[i]).0 != (
    #[trigger] out[j]).0 by {
        if j == fields.len() {
            assert(fields[i].0 != name);
        }
    }
    let a = to_map(out);
    let b = to_map(fields).insert(name, value);
    assert forall|k: Seq<char>| a.dom().contains(k) <==> b.dom().contains(k) by {
        if a.dom().contains(k) {
            let i = lemma_map_witness(out, k);
            if i < fields.len() {
                assert(fields[i].0 == k);
            }
        }
        if b.dom().contains(k) {
            if k == name {
                assert(out[fields.len() as int].0 == k);
            } else {
                let i = lemma_map_witness(fields, k);
                assert(out[i].0 == k);
            }
        }
    }
    assert forall|k: Seq<char>| a.dom().contains(k) implies a[k] == b[k] by {
        let i = lemma_map_witness(out, k);
        if i < fields.len() {
            assert(out[i] == fields[i]);
            assert(fields[i].0 != name);
            lemma_lookup_at(fields, i);
        }
    }
    assert(a =~= b);
}

/// Writing a field writes it into the mapping.
pub proof fn lemma_inserted_map(fields: Fields, name: Seq<char>, value: ValueView)
    requires
        distinct_names(fields),
    ensures
        to_map(inserted(fields, name, value)) == to_map(fields).insert(name, value),
{
    if has_name(fields, name) {
        lemma_position_found(fields, name);
        lemma_inserted_distinct(fields, name, value);
        let p = position(fields, name);
        let out = fields.update(p, (name, value));
        let a = to_map(out);
        let b = to_map(fields).insert(name, value);
        assert forall|k: Seq<char>| a.dom().contains(k) <==> b.dom().contains(k) by {
            if a.dom().contains(k) {
                let i = lemma_map_witness(out, k);
                if i != p {
                    assert(fields[i].0 == k);
                }
            }
            if b.dom().contains(k) && k != name {
                let i = lemma_map_witness(fields, k);
                assert(out[i].0 == k);
            }
            if k == name {
                assert(out[p].0 == k);
            }
        }
        assert forall|k: Seq<char>| a.dom().contains(k) implies a[k] == b[k] by {
            let i = lemma_map_witness(out, k);
            lemma_lookup_at(out, i);
            if i != p {
                assert(out[i] == fields[i]);
                assert(fields[i].0 != fields[p].0);
                lemma_lookup_at(fields, i);
            }
        }
        assert(a =~= b);
    } else {
        lemma_push_map(fields, name, value);
    }
}

/// Taking a field out takes it out of the mapping.
pub proof fn lemma_removed_map(fields: Fields, name: Seq<char>)
    requires
        distinct_names(fields),
    ensures
        to_map(removed(fields, name)) == to_map(fields).remove(name),
{
    let a = to_map(removed(fields, name));
    let b = to_map(fields).remove(name);
    if has_name(fields, name) {
        lemma_position_found(fields, name);
        lemma_removed_distinct(fields, name);
        let p = position(fields, name);
        let out = fields.remove(p);
        assert forall|k: Seq<char>| a.dom().contains(k) <==> b.dom().contains(k) by {
            if a.dom().contains(k) {
                let i = lemma_map_witness(out, k);
                let j = if i < p { i } else { i + 1 };
                assert(out[i] == fields[j]);
                assert(fields[j].0 == k);
                assert(fields[j].0 != fields[p].0);
            }
            if b.dom().contains(k) {
                let i = lemma_map_witness(fields, k);
                let j = if i < p { i } else { i - 1 };
                assert(out[j].0 == k);
            }
        }
        assert forall|k: Seq<char>| a.dom().contains(k) implies a[k] == b[k] by {
            let i = lemma_map_witness(out, k);
            let j = if i < p { i } else { i + 1 };
            assert(out[i] == fields[j]);
            lemma_lookup_at(out, i);
            lemma_lookup_at(fields, j);
        }
        assert(a =~= b);
    } else {
        assert(a =~= b);
    }
}

/// The mapping answers as the list does.
pub proof fn lemma_lookup_map(fields: Fields, name: Seq<char>)
    ensures
        lookup(fields, name) == if to_map(fields).dom().contains(name) {
            Some(to_map(fields)[name])
        } else {
            None
        },
{
}

} // verus!
