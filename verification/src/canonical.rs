//! The canonical form of a field list: the same fields, sorted by name.
//!
//! Every message that is signed or checked is the encoding of a canonical
//! form, so two records that hold the same fields sign alike whatever the
//! order in which the fields were written.

use vstd::prelude::*;
use crate::order::{name_before, lemma_name_asymmetric, lemma_name_total, lemma_name_transitive};
use crate::value::{
    ValueView, Fields, has_name, distinct_names, to_map, lemma_lookup_at, lemma_map_witness,
    lemma_push_map,
};

verus! {

/// Each field's name comes strictly before the names of the fields after it.
pub open spec fn sorted_by_name(fields: Fields) -> bool {
    forall|i: int, j: int|
        0 <= i < j < fields.len() ==> name_before(
            (#[trigger] fields[i]).0,
            (#[trigger] fields[j]).0,
        )
}

/// The canonical form of a mapping: the one list, sorted by name, that holds
/// exactly its fields.
pub open spec fn canonical_fields(map: Map<Seq<char>, ValueView>) -> Fields {
    choose|fields: Fields| sorted_by_name(fields) && to_map(fields) == map
}

/// A sorted list repeats no name.
pub proof fn lemma_sorted_distinct(fields: Fields)
    requires
        sorted_by_name(fields),
    ensures
        distinct_names(fields),
{
    assert forall|i: int, j: int| 0 <= i < j < fields.len() implies (#[trigger] fields[i]).0 != (
    #[trigger] fields[j]).0 by {
        lemma_name_asymmetric(fields[i].0, fields[j].0);
    }
}

/// Putting a new field into a sorted list at its place keeps the list sorted
/// and adds the field to its mapping.
pub proof fn lemma_place(fields: Fields, p: int, name: Seq<char>, value: ValueView)
    requires
        sorted_by_name(fields),
        0 <= p <= fields.len(),
        forall|j: int| 0 <= j < p ==> name_before(#[trigger] fields[j].0, name),
        p < fields.len() ==> name_before(name, fields[p].0),
    ensures
        sorted_by_name(fields.insert(p, (name, value))),
        to_map(fields.insert(p, (name, value))) == to_map(fields).insert(name, value),
{
    let out = fields.insert(p, (name, value));
    assert forall|j: int| p <= j < fields.len() implies name_before(name, #[trigger] fields[j].0) by {
        if p < j {
            assert(name_before(fields[p].0, fields[j].0));
            lemma_name_transitive(name, fields[p].0, fields[j].0);
        }
    }
    assert forall|i: int, j: int| 0 <= i < j < out.len() implies name_before(
        (#[trigger] out[i]).0,
        (#[trigger] out[j]).0,
    ) by {
        if i < p && j > p {
            assert(out[i] == fields[i]);
            assert(out[j] == fields[j - 1]);
            if i < j - 1 {
                assert(name_before(fields[i].0, fields[j - 1].0));
            }
        } else if i < p && j < p {
            assert(name_before(fields[i].0, fields[j].0));
        } else if i < p && j == p {
        } else if i == p {
            assert(out[j] == fields[j - 1]);
        } else {
            assert(out[i] == fields[i - 1]);
            assert(out[j] == fields[j - 1]);
            assert(name_before(fields[i - 1].0, fields[j - 1].0));
        }
    }
    lemma_sorted_distinct(fields);
    lemma_sorted_distinct(out);
    let a = to_map(out);
    let b = to_map(fields).insert(name, value);
    assert forall|k: Seq<char>| a.dom().contains(k) <==> b.dom().contains(k) by {
        if a.dom().contains(k) {
            let i = lemma_map_witness(out, k);
            if i < p {
                assert(fields[i].0 == k);
            } else if i > p {
                assert(fields[i - 1].0 == k);
            }
        }
        if b.dom().contains(k) {
            if k == name {
                assert(out[p].0 == k);
            } else {
                let i = lemma_map_witness(fields, k);
                if i < p {
                    assert(out[i].0 == k);
                } else {
                    assert(out[i + 1].0 == k);
                }
            }
        }
    }
    assert forall|k: Seq<char>| a.dom().contains(k) implies a[k] == b[k] by {
        let i = lemma_map_witness(out, k);
        if i == p {
        } else {
            let j = if i < p { i } else { i - 1 };
            assert(out[i] == fields[j]);
            lemma_lookup_at(fields, j);
            lemma_name_asymmetric_either(fields, j, p, name);
        }
    }
    assert(a =~= b);
}

proof fn lemma_name_asymmetric_either(fields: Fields, j: int, p: int, name: Seq<char>)
    requires
        0 <= j < fields.len(),
        0 <= p <= fields.len(),
        forall|i: int| 0 <= i < p ==> name_before(#[trigger] fields[i].0, name),
        forall|i: int| p <= i < fields.len() ==> name_before(name, #[trigger] fields[i].0),
    ensures
        fields[j].0 != name,
{
    if j < p {
        lemma_name_asymmetric(fields[j].0, name);
    } else {
        lemma_name_asymmetric(name, fields[j].0);
    }
}

/// Two sorted lists with the same mapping are the same list.
pub proof fn lemma_sorted_unique(a: Fields, b: Fields)
    requires
        sorted_by_name(a),
        sorted_by_name(b),
        to_map(a) == to_map(b),
    ensures
        a == b,
    decreases a.len(),
{
    lemma_sorted_distinct(a);
    lemma_sorted_distinct(b);
    if a.len() == 0 {
        if b.len() > 0 {
            lemma_lookup_at(b, 0);
            let i = lemma_map_witness(a, b[0].0);
        }
        assert(a =~= b);
    } else if b.len() == 0 {
        lemma_lookup_at(a, 0);
        let i = lemma_map_witness(b, a[0].0);
    } else {
        lemma_lookup_at(a, 0);
        lemma_lookup_at(b, 0);
        let i = lemma_map_witness(b, a[0].0);
        let j = lemma_map_witness(a, b[0].0);
        if a[0].0 != b[0].0 {
            // a[0] stands later in b, and b[0] later in a: each name would
            // come before the other.
            assert(i > 0);
            assert(j > 0);
            assert(name_before(b[0].0, b[i].0));
            assert(name_before(a[0].0, a[j].0));
            lemma_name_asymmetric(a[0].0, b[0].0);
        }
        assert(a[0].0 == b[0].0);
        assert(a[0].1 == b[0].1);
        let ta = a.skip(1);
        let tb = b.skip(1);
        lemma_tail(a);
        lemma_tail(b);
        assert(to_map(ta) =~= to_map(tb));
        lemma_sorted_unique(ta, tb);
        assert(a =~= seq![a[0]] + ta);
        assert(b =~= seq![b[0]] + tb);
    }
}

/// The tail of a sorted list is sorted and maps what the list maps, less
/// its first name.
proof fn lemma_tail(a: Fields)
    requires
        sorted_by_name(a),
        a.len() > 0,
    ensures
        sorted_by_name(a.skip(1)),
        to_map(a.skip(1)) == to_map(a).remove(a[0].0),
{
    let t = a.skip(1);
    assert forall|i: int, j: int| 0 <= i < j < t.len() implies name_before(
        (#[trigger] t[i]).0,
        (#[trigger] t[j]).0,
    ) by {
        assert(t[i] == a[i + 1]);
        assert(t[j] == a[j + 1]);
        assert(name_before(a[i + 1].0, a[j + 1].0));
    }
    lemma_sorted_distinct(a);
    lemma_sorted_distinct(t);
    let x = to_map(t);
    let y = to_map(a).remove(a[0].0);
    assert forall|k: Seq<char>| x.dom().contains(k) <==> y.dom().contains(k) by {
        if x.dom().contains(k) {
            let i = lemma_map_witness(t, k);
            assert(a[i + 1].0 == k);
            assert(a[0].0 != a[i + 1].0);
        }
        if y.dom().contains(k) {
            let i = lemma_map_witness(a, k);
            assert(i > 0);
            assert(t[i - 1].0 == k);
        }
    }
    assert forall|k: Seq<char>| x.dom().contains(k) implies x[k] == y[k] by {
        let i = lemma_map_witness(t, k);
        assert(t[i] == a[i + 1]);
        lemma_lookup_at(a, i + 1);
    }
    assert(x =~= y);
}

/// A sorted list that holds exactly the fields of `fields`.
pub proof fn lemma_sorted_exists(fields: Fields) -> (sorted: Fields)
    requires
        distinct_names(fields),
    ensures
        sorted_by_name(sorted),
        to_map(sorted) == to_map(fields),
    decreases fields.len(),
{
    if fields.len() == 0 {
        assert(to_map(fields) =~= to_map(Fields::empty()));
        fields
    } else {
        let front = fields.drop_last();
        let last = fields.last();
        assert forall|i: int, j: int| 0 <= i < j < front.len() implies (#[trigger] front[i]).0 != (
        #[trigger] front[j]).0 by {
            assert(front[i] == fields[i]);
            assert(front[j] == fields[j]);
        }
        let inner = lemma_sorted_exists(front);
        assert(!has_name(front, last.0)) by {
            if has_name(front, last.0) {
                let i = choose|i: int| 0 <= i < front.len() && #[trigger] front[i].0 == last.0;
                assert(fields[i].0 == fields[fields.len() - 1].0);
            }
        }
        assert(fields =~= front.push(last));
        lemma_push_map(front, last.0, last.1);
        assert(!to_map(inner).dom().contains(last.0));
        let p = lemma_rank(inner, last.0, 0);
        lemma_place(inner, p, last.0, last.1);
        inner.insert(p, last)
    }
}

/// The place at which a new name belongs in a sorted list.
proof fn lemma_rank(fields: Fields, name: Seq<char>, from: int) -> (p: int)
    requires
        sorted_by_name(fields),
        !to_map(fields).dom().contains(name),
        0 <= from <= fields.len(),
        forall|j: int| 0 <= j < from ==> name_before(#[trigger] fields[j].0, name),
    ensures
        0 <= p <= fields.len(),
        forall|j: int| 0 <= j < p ==> name_before(#[trigger] fields[j].0, name),
        p < fields.len() ==> name_before(name, fields[p].0),
    decreases fields.len() - from,
{
    if from == fields.len() {
        from
    } else if name_before(fields[from].0, name) {
        lemma_rank(fields, name, from + 1)
    } else {
        lemma_sorted_distinct(fields);
        lemma_lookup_at(fields, from);
        lemma_name_total(fields[from].0, name);
        from
    }
}

/// The canonical form of a list's mapping is sorted and holds the list's
/// fields.
pub proof fn lemma_canonical(fields: Fields)
    requires
        distinct_names(fields),
    ensures
        sorted_by_name(canonical_fields(to_map(fields))),
        to_map(canonical_fields(to_map(fields))) == to_map(fields),
{
    let witness = lemma_sorted_exists(fields);
    assert(sorted_by_name(witness) && to_map(witness) == to_map(fields));
}

/// Any sorted list with the mapping of `fields` is its canonical form.
pub proof fn lemma_canonical_is(fields: Fields, sorted: Fields)
    requires
        sorted_by_name(sorted),
        to_map(sorted) == to_map(fields),
    ensures
        canonical_fields(to_map(fields)) == sorted,
{
    let c = canonical_fields(to_map(fields));
    assert(sorted_by_name(sorted) && to_map(sorted) == to_map(fields));
    lemma_sorted_unique(c, sorted);
}

} // verus!
