//! Records: ordered lists of named values in which no name occurs twice.

use vstd::prelude::*;
use crate::order::{same_text, text_before, name_before, lemma_name_total};
use crate::canonical::{
    canonical_fields, sorted_by_name, lemma_place, lemma_canonical_is, lemma_sorted_distinct,
};
use crate::value::{
    ValueView, Fields, has_name, position, lookup, distinct_names, inserted, removed,
    lemma_position, lemma_absent, lemma_inserted_distinct, lemma_removed_distinct, to_map,
    lemma_lookup_at, lemma_push_map,
};

verus! {

/// A byte string tagged with a subtype. The subtype tells a reader what the
/// bytes are for; it changes nothing in how they are processed.
#[derive(Debug, PartialEq, Eq)]
pub struct Binary {
    pub subtype: u8,
    pub bytes: Vec<u8>,
}

impl View for Binary {
    type V = (u8, Seq<u8>);

    open spec fn view(&self) -> (u8, Seq<u8>) {
        (self.subtype, self.bytes@)
    }
}

impl Binary {
    /// The binary as a value.
    pub open spec fn value(&self) -> ValueView {
        ValueView::Binary(self.subtype, self.bytes@)
    }
}

impl Clone for Binary {
    fn clone(&self) -> (out: Self)
        ensures
            out@ == self@,
    {
        Binary { subtype: self.subtype, bytes: self.bytes.clone() }
    }
}

/// A value stored under a field name.
#[derive(Debug, PartialEq)]
pub enum Value {
    Text(String),
    Int32(i32),
    Int64(i64),
    Bool(bool),
    /// Milliseconds since the Unix epoch.
    Timestamp(i64),
    Binary(Binary),
    Nested(Record),
    List(Vec<Record>),
}

/// An ordered document: named values, each name at most once. Fields keep
/// the order in which their names were first written.
#[derive(Debug, PartialEq)]
pub struct Record {
    fields: Vec<(String, Value)>,
}

impl View for Value {
    type V = ValueView;

    open spec fn view(&self) -> ValueView
        decreases self,
    {
        match self {
            Value::Text(s) => ValueView::Text(s@),
            Value::Int32(i) => ValueView::Int32(*i),
            Value::Int64(i) => ValueView::Int64(*i),
            Value::Bool(b) => ValueView::Bool(*b),
            Value::Timestamp(t) => ValueView::Timestamp(*t),
            Value::Binary(b) => ValueView::Binary(b.subtype, b.bytes@),
            Value::Nested(r) => ValueView::Nested(r.view()),
            Value::List(rs) => ValueView::List(records_view(rs@)),
        }
    }
}

impl View for Record {
    type V = Fields;

    closed spec fn view(&self) -> Fields
        decreases self,
    {
        Seq::new(
            self.fields@.len(),
            |i: int|
                if 0 <= i < self.fields@.len() {
                    (self.fields@[i].0@, self.fields@[i].1.view())
                } else {
                    (Seq::empty(), ValueView::Foreign)
                },
        )
    }
}

/// The view of a vector of fields.
spec fn view_of(fields: Vec<(String, Value)>) -> Fields {
    Seq::new(fields@.len(), |i: int| (fields@[i].0@, fields@[i].1@))
}

proof fn lemma_view_of(record: Record)
    ensures
        record@ == view_of(record.fields),
{
    assert(record@ =~= view_of(record.fields));
}

/// The views of a sequence of records, in order.
pub open spec fn records_view(records: Seq<Record>) -> Seq<Fields>
    decreases records,
{
    Seq::new(
        records.len(),
        |i: int|
            if 0 <= i < records.len() {
                records[i].view()
            } else {
                Seq::empty()
            },
    )
}

impl Value {
    /// A copy with the same view.
    fn duplicate(&self) -> (out: Value)
        ensures
            out@ == self@,
        decreases self,
    {
        match self {
            Value::Text(s) => Value::Text(s.clone()),
            Value::Int32(i) => Value::Int32(*i),
            Value::Int64(i) => Value::Int64(*i),
            Value::Bool(b) => Value::Bool(*b),
            Value::Timestamp(t) => Value::Timestamp(*t),
            Value::Binary(b) => Value::Binary(b.clone()),
            Value::Nested(r) => Value::Nested(r.duplicate()),
            Value::List(rs) => {
                let mut out: Vec<Record> = Vec::new();
                let mut i: usize = 0;
                while i < rs.len()
                    invariant
                        0 <= i <= rs.len(),
                        out.len() == i,
                        self is List,
                        self->List_0 == *rs,
                        forall|j: int| 0 <= j < i ==> out[j]@ == rs[j]@,
                    decreases rs.len() - i,
                {
                    proof {
                        assert(decreases_to!(*self => self->List_0));
                        assert(decreases_to!(*rs => rs[i as int]));
                    }
                    out.push(rs[i].duplicate());
                    i += 1;
                }
                let res = Value::List(out);
                proof {
                    assert(records_view(out@) =~= records_view(rs@));
                }
                res
            },
        }
    }
}

impl Clone for Value {
    fn clone(&self) -> (out: Self)
        ensures
            out@ == self@,
    {
        self.duplicate()
    }
}

impl Record {
    /// Every record has distinct field names.
    #[verifier::type_invariant]
    pub open spec fn wf(&self) -> bool {
        distinct_names(self@)
    }

    /// The record without fields.
    pub fn new() -> (out: Record)
        ensures
            out@ == Fields::empty(),
    {
        let out = Record { fields: Vec::new() };
        assert(out@ =~= Fields::empty());
        out
    }

    /// The number of fields.
    pub fn len(&self) -> (n: usize)
        ensures
            n == self@.len(),
    {
        self.fields.len()
    }

    /// Whether the record has no field.
    pub fn is_empty(&self) -> (b: bool)
        ensures
            b == (self@.len() == 0),
    {
        self.fields.len() == 0
    }

    /// The name of the field at place `i`.
    pub fn name_at(&self, i: usize) -> (name: &str)
        requires
            i < self@.len(),
        ensures
            name@ == self@[i as int].0,
    {
        self.fields[i].0.as_str()
    }

    /// The value of the field at place `i`.
    pub fn value_at(&self, i: usize) -> (value: &Value)
        requires
            i < self@.len(),
        ensures
            value@ == self@[i as int].1,
    {
        &self.fields[i].1
    }

    /// The place of the field called `name`, or the number of fields if
    /// there is none.
    fn find(&self, name: &str) -> (i: usize)
        ensures
            i <= self@.len(),
            i < self@.len() ==> self@[i as int].0 == name@ && position(self@, name@) == i
                && has_name(self@, name@),
            i == self@.len() ==> !has_name(self@, name@),
    {
        let mut i: usize = 0;
        while i < self.fields.len()
            invariant
                0 <= i <= self.fields.len(),
                self.fields.len() == self@.len(),
                forall|j: int| 0 <= j < i ==> #[trigger] self@[j].0 != name@,
            decreases self.fields.len() - i,
        {
            if same_text(self.fields[i].0.as_str(), name) {
                proof {
                    lemma_position(self@, name@, i as int);
                }
                return i;
            }
            i += 1;
        }
        proof {
            lemma_absent(self@, name@);
        }
        i
    }

    /// Whether a field is called `name`.
    pub fn contains_key(&self, name: &str) -> (b: bool)
        ensures
            b == has_name(self@, name@),
    {
        self.find(name) < self.fields.len()
    }

    /// The value stored under `name`, if any.
    pub fn get(&self, name: &str) -> (r: Option<&Value>)
        ensures
            match r {
                Some(value) => lookup(self@, name@) == Some(value@),
                None => lookup(self@, name@) is None,
            },
    {
        let i = self.find(name);
        if i < self.fields.len() {
            Some(&self.fields[i].1)
        } else {
            None
        }
    }

    /// Writes `value` under `name` and hands back the value it replaces.
    pub fn insert(&mut self, name: &str, value: Value) -> (r: Option<Value>)
        ensures
            final(self)@ == inserted(old(self)@, name@, value@),
            match r {
                Some(previous) => lookup(old(self)@, name@) == Some(previous@),
                None => lookup(old(self)@, name@) is None,
            },
    {
        proof {
            use_type_invariant(&*self);
        }
        let i = self.find(name);
        let ghost before = self@;
        proof {
            lemma_view_of(*self);
        }
        let mut fields: Vec<(String, Value)> = Vec::new();
        std::mem::swap(&mut self.fields, &mut fields);
        proof {
            lemma_inserted_distinct(before, name@, value@);
        }
        if i < fields.len() {
            let mut slot = value;
            std::mem::swap(&mut fields[i].1, &mut slot);
            assert(view_of(fields) =~= inserted(before, name@, value@));
            proof {
                lemma_view_of(Record { fields });
            }
            self.fields = fields;
            Some(slot)
        } else {
            fields.push((name.to_string(), value));
            assert(view_of(fields) =~= inserted(before, name@, value@));
            proof {
                lemma_view_of(Record { fields });
            }
            self.fields = fields;
            None
        }
    }

    /// Takes the field called `name` out of the record and hands back its
    /// value. The other fields keep their order.
    pub fn remove(&mut self, name: &str) -> (r: Option<Value>)
        ensures
            final(self)@ == removed(old(self)@, name@),
            match r {
                Some(previous) => lookup(old(self)@, name@) == Some(previous@),
                None => lookup(old(self)@, name@) is None,
            },
    {
        proof {
            use_type_invariant(&*self);
        }
        let i = self.find(name);
        let ghost before = self@;
        if i < self.fields.len() {
            proof {
                lemma_view_of(*self);
            }
            let mut fields: Vec<(String, Value)> = Vec::new();
            std::mem::swap(&mut self.fields, &mut fields);
            let field = fields.remove(i);
            proof {
                lemma_removed_distinct(before, name@);
            }
            assert(view_of(fields) =~= removed(before, name@));
            proof {
                lemma_view_of(Record { fields });
            }
            self.fields = fields;
            Some(field.1)
        } else {
            None
        }
    }

    /// The canonical form: the same fields, sorted by name.
    pub fn canonical(&self) -> (out: Record)
        ensures
            out@ == canonical_fields(to_map(self@)),
            sorted_by_name(out@),
            to_map(out@) == to_map(self@),
    {
        proof {
            use_type_invariant(self);
            lemma_view_of(*self);
        }
        let mut out: Vec<(String, Value)> = Vec::new();
        assert(to_map(self@.take(0)) =~= to_map(view_of(out)));
        let mut i: usize = 0;
        while i < self.fields.len()
            invariant
                0 <= i <= self.fields.len(),
                self@ == view_of(self.fields),
                distinct_names(self@),
                sorted_by_name(view_of(out)),
                to_map(view_of(out)) == to_map(self@.take(i as int)),
            decreases self.fields.len() - i,
        {
            let ghost before = view_of(out);
            let ghost name = self@[i as int].0;
            let ghost value = self@[i as int].1;
            let mut p: usize = 0;
            while p < out.len() && text_before(out[p].0.as_str(), self.fields[i].0.as_str())
                invariant
                    0 <= p <= out.len(),
                    i < self.fields.len(),
                    self@ == view_of(self.fields),
                    name == self@[i as int].0,
                    before == view_of(out),
                    forall|j: int| 0 <= j < p ==> name_before(#[trigger] before[j].0, name),
                decreases out.len() - p,
            {
                p += 1;
            }
            proof {
                let front = self@.take(i as int);
                assert forall|a: int, b: int| 0 <= a < b < front.len() implies (
                #[trigger] front[a]).0 != (#[trigger] front[b]).0 by {
                    assert(front[a] == self@[a]);
                    assert(front[b] == self@[b]);
                }
                assert(!has_name(front, name)) by {
                    if has_name(front, name) {
                        let k = choose|k: int| 0 <= k < front.len() && #[trigger] front[k].0 == name;
                        assert(self@[k].0 == self@[i as int].0);
                    }
                }
                assert(self@.take(i + 1) =~= front.push((name, value)));
                lemma_push_map(front, name, value);
                if p < out.len() {
                    lemma_sorted_distinct(before);
                    lemma_lookup_at(before, p as int);
                    lemma_name_total(before[p as int].0, name);
                }
                lemma_place(before, p as int, name, value);
            }
            out.insert(p, (self.fields[i].0.clone(), self.fields[i].1.duplicate()));
            assert(view_of(out) =~= before.insert(p as int, (name, value)));
            i += 1;
        }
        proof {
            assert(self@.take(i as int) =~= self@);
            lemma_canonical_is(self@, view_of(out));
            lemma_sorted_distinct(view_of(out));
            lemma_view_of(Record { fields: out });
        }
        Record { fields: out }
    }

    /// A copy with the same view.
    fn duplicate(&self) -> (out: Record)
        ensures
            out@ == self@,
        decreases self,
    {
        proof {
            use_type_invariant(self);
        }
        let mut fields: Vec<(String, Value)> = Vec::new();
        let mut i: usize = 0;
        while i < self.fields.len()
            invariant
                0 <= i <= self.fields.len(),
                fields.len() == i,
                forall|j: int|
                    0 <= j < i ==> fields[j].0@ == self.fields[j].0@ && fields[j].1@
                        == self.fields[j].1@,
            decreases self.fields.len() - i,
        {
            fields.push((self.fields[i].0.clone(), self.fields[i].1.duplicate()));
            i += 1;
        }
        proof {
            lemma_view_of(*self);
            assert(view_of(fields) =~= view_of(self.fields));
            lemma_view_of(Record { fields });
        }
        let out = Record { fields };
        out
    }
}

impl Clone for Record {
    fn clone(&self) -> (out: Self)
        ensures
            out@ == self@,
    {
        self.duplicate()
    }
}

} // verus!
