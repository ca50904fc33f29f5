//! Stored values: strings, lists and records, with their mathematical views.

use vstd::prelude::*;

verus! {

/// A value held by a variable.
#[derive(Debug, PartialEq, Eq)]
pub enum Value {
    /// A string.
    Immediate(String),
    /// An ordered list of values.
    List(Vec<Value>),
    /// A record: field names with their strings, in the order they were written.
    FieldVals(Vec<(String, String)>),
}

/// The mathematical content of a [`Value`].
pub enum ValueView {
    Immediate(Seq<char>),
    List(Seq<ValueView>),
    FieldVals(Seq<(Seq<char>, Seq<char>)>),
}

/// The view of a record's fields.
pub open spec fn fields_view(fields: Seq<(String, String)>) -> Seq<(Seq<char>, Seq<char>)> {
    Seq::new(fields.len(), |i: int| (fields[i].0@, fields[i].1@))
}

/// The names of a record's fields, in order.
pub open spec fn field_names(fields: Seq<(Seq<char>, Seq<char>)>) -> Seq<Seq<char>> {
    Seq::new(fields.len(), |i: int| fields[i].0)
}

/// The index of the first occurrence of `key` in `names`, or `names.len()`
/// when it does not occur.
pub open spec fn first_index(names: Seq<Seq<char>>, key: Seq<char>) -> int
    decreases names.len(),
{
    if names.len() == 0 {
        0
    } else if names[0] == key {
        0
    } else {
        1 + first_index(names.drop_first(), key)
    }
}

/// Whether `key` occurs in `names`.
pub open spec fn has_name(names: Seq<Seq<char>>, key: Seq<char>) -> bool {
    first_index(names, key) < names.len()
}

/// Whether no name occurs twice.
pub open spec fn distinct_names(names: Seq<Seq<char>>) -> bool {
    forall|i: int, j: int| 0 <= i < j < names.len() ==> names[i] != names[j]
}

/// `first_index` is the least index that holds `key`.
pub proof fn lemma_first_index(names: Seq<Seq<char>>, key: Seq<char>)
    ensures
        0 <= first_index(names, key) <= names.len(),
        forall|j: int| 0 <= j < first_index(names, key) ==> names[j] != key,
        first_index(names, key) < names.len() ==> names[first_index(names, key)] == key,
    decreases names.len(),
{
    if names.len() != 0 && names[0] != key {
        let rest = names.drop_first();
        lemma_first_index(rest, key);
        assert forall|j: int| 0 <= j < first_index(names, key) implies names[j] != key by {
            if j > 0 {
                assert(names[j] == rest[j - 1]);
            }
        }
    }
}

/// An index that holds `key` with none before it is `first_index`.
pub proof fn lemma_first_index_is(names: Seq<Seq<char>>, key: Seq<char>, p: int)
    requires
        0 <= p <= names.len(),
        forall|j: int| 0 <= j < p ==> names[j] != key,
        p < names.len() ==> names[p] == key,
    ensures
        first_index(names, key) == p,
{
    lemma_first_index(names, key);
    let q = first_index(names, key);
    if q < p {
        assert(names[q] == key);
    } else if p < q {
        assert(names[p] == key);
    }
}

/// Where a name is found after one more name was added at the end.
pub proof fn lemma_first_index_push(names: Seq<Seq<char>>, extra: Seq<char>, key: Seq<char>)
    ensures
        first_index(names.push(extra), key) == if has_name(names, key) {
            first_index(names, key)
        } else if key == extra {
            names.len() as int
        } else {
            names.len() as int + 1
        },
        has_name(names.push(extra), key) <==> has_name(names, key) || key == extra,
        distinct_names(names) && !has_name(names, extra) ==> distinct_names(names.push(extra)),
{
    lemma_first_index(names, key);
    lemma_first_index(names, extra);
    let longer = names.push(extra);
    let p = first_index(names, key);
    if p < names.len() {
        lemma_first_index_is(longer, key, p);
    } else if key == extra {
        lemma_first_index_is(longer, key, names.len() as int);
    } else {
        lemma_first_index_is(longer, key, names.len() as int + 1);
    }
}

impl View for Value {
    type V = ValueView;

    open spec fn view(&self) -> ValueView
        decreases self,
    {
        match self {
            Value::Immediate(s) => ValueView::Immediate(s@),
            Value::List(items) => ValueView::List(
                Seq::new(
                    items@.len(),
                    |i: int|
                        if 0 <= i < items@.len() {
                            items@[i]@
                        } else {
                            ValueView::Immediate(Seq::empty())
                        },
                ),
            ),
            Value::FieldVals(fields) => ValueView::FieldVals(fields_view(fields@)),
        }
    }
}

/// The view of a list of values.
pub open spec fn values_view(items: Seq<Value>) -> Seq<ValueView> {
    Seq::new(items.len(), |i: int| items[i]@)
}

/// The view of a list value is the list of its items' views.
pub proof fn lemma_list_view(items: Vec<Value>)
    ensures
        Value::List(items)@ == ValueView::List(values_view(items@)),
{
    assert(Value::List(items)@->List_0 =~= values_view(items@));
}

impl ValueView {
    /// Whether the value is a list.
    pub open spec fn is_list(self) -> bool {
        self is List
    }
}

/// Copies a record's fields.
pub fn clone_fields(fields: &Vec<(String, String)>) -> (res: Vec<(String, String)>)
    ensures
        fields_view(res@) == fields_view(fields@),
{
    let mut res: Vec<(String, String)> = Vec::new();
    let mut i: usize = 0;
    while i < fields.len()
        invariant
            i <= fields.len(),
            res.len() == i,
            forall|j: int| 0 <= j < i ==> res@[j].0@ == fields@[j].0@ && res@[j].1@ == fields@[j].1@,
        decreases fields.len() - i,
    {
        res.push((fields[i].0.clone(), fields[i].1.clone()));
        i += 1;
    }
    assert(fields_view(res@) =~= fields_view(fields@));
    res
}

/// Copies a value, lists and records included.
pub fn clone_value(value: &Value) -> (res: Value)
    ensures
        res@ == value@,
    decreases value,
{
    match value {
        Value::Immediate(s) => Value::Immediate(s.clone()),
        Value::List(items) => {
            let mut res: Vec<Value> = Vec::new();
            let mut i: usize = 0;
            while i < items.len()
                invariant
                    i <= items.len(),
                    res.len() == i,
                    forall|j: int| 0 <= j < i ==> res@[j]@ == items@[j]@,
                    *value == Value::List(*items),
                decreases items.len() - i,
            {
                assert(decreases_to!(*items => items[i as int]));
                assert(value->List_0 == *items);
                res.push(clone_value(&items[i]));
                i += 1;
            }
            proof {
                lemma_list_view(res);
                lemma_list_view(*items);
                assert(values_view(res@) =~= values_view(items@));
            }
            Value::List(res)
        },
        Value::FieldVals(fields) => Value::FieldVals(clone_fields(fields)),
    }
}

impl Clone for Value {
    fn clone(&self) -> (res: Value)
        ensures
            res@ == self@,
    {
        clone_value(self)
    }
}

} // verus!
