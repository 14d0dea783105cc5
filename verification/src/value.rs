//! The modelled value space over which generated conversion routines run.
//!
//! Generated code moves plain values, optionals, sequences and keyed
//! mappings between two similar types. This module gives those run-time
//! values a closed representation (`Value`), a mathematical abstraction
//! (`ValueModel`), and the verified deep operations (equality, duplication)
//! that the conversion interpreters need.

use vstd::prelude::*;

verus! {

broadcast use vstd::std_specs::vec::axiom_vec_index_decreases, vstd::std_specs::vec::axiom_vec_decreases_to_view, vstd::seq::axiom_seq_index_decreases, vstd::seq::axiom_seq_subrange_decreases;

/// A run-time value flowing through a conversion routine.
///
/// `Wrapped` stands for a value of a user-defined plain type that carries
/// another value inside (the usual newtype), named by the type it belongs
/// to. `Entries` is a keyed mapping laid out as its entry list; the mapping
/// discipline (unique keys, insertion order irrelevant) is stated by
/// [`wf_value`].
#[derive(Debug, PartialEq)]
pub enum Value {
    Int(u64),
    Text(String),
    Wrapped(String, Box<Value>),
    Opt(Option<Box<Value>>),
    List(Vec<Value>),
    Entries(Vec<(Value, Value)>),
}

/// The mathematical abstraction of a [`Value`].
pub enum ValueModel {
    Int(u64),
    Text(Seq<char>),
    Wrapped(Seq<char>, Box<ValueModel>),
    Opt(Option<Box<ValueModel>>),
    List(Seq<ValueModel>),
    Entries(Seq<(ValueModel, ValueModel)>),
}

/// The abstraction of a sequence of values, elementwise.
pub open spec fn abs_elems(items: Seq<Value>) -> Seq<ValueModel>
    decreases items,
{
    if items.len() == 0 {
        Seq::empty()
    } else {
        abs_elems(items.drop_last()).push(abs_value(items.last()))
    }
}

/// The abstraction of a mapping's entry list, elementwise.
pub open spec fn abs_entries(entries: Seq<(Value, Value)>) -> Seq<(ValueModel, ValueModel)>
    decreases entries,
{
    if entries.len() == 0 {
        Seq::empty()
    } else {
        abs_entries(entries.drop_last()).push(
            (abs_value(entries.last().0), abs_value(entries.last().1)),
        )
    }
}

/// `abs_elems` maps the abstraction over the sequence, index by index.
pub broadcast proof fn lemma_abs_elems(items: Seq<Value>)
    ensures
        (#[trigger] abs_elems(items)).len() == items.len(),
        forall|i: int| 0 <= i < items.len() ==> abs_elems(items)[i] == abs_value(#[trigger] items[i]),
    decreases items,
{
    if items.len() > 0 {
        lemma_abs_elems(items.drop_last());
        assert forall|i: int| 0 <= i < items.len() implies abs_elems(items)[i] == abs_value(
            #[trigger] items[i],
        ) by {
            if i < items.len() - 1 {
                assert(items.drop_last()[i] == items[i]);
                assert(abs_elems(items)[i] == abs_elems(items.drop_last())[i]);
            } else {
                assert(items.last() == items[i]);
            }
        }
    }
}

/// `abs_entries` maps the abstraction over both sides of every entry.
pub broadcast proof fn lemma_abs_entries(entries: Seq<(Value, Value)>)
    ensures
        (#[trigger] abs_entries(entries)).len() == entries.len(),
        forall|i: int|
            0 <= i < entries.len() ==> abs_entries(entries)[i] == (
                abs_value(#[trigger] entries[i].0),
                abs_value(entries[i].1),
            ),
    decreases entries,
{
    if entries.len() > 0 {
        lemma_abs_entries(entries.drop_last());
        assert forall|i: int| 0 <= i < entries.len() implies abs_entries(entries)[i] == (
            abs_value(#[trigger] entries[i].0),
            abs_value(entries[i].1),
        ) by {
            if i < entries.len() - 1 {
                assert(entries.drop_last()[i] == entries[i]);
                assert(abs_entries(entries)[i] == abs_entries(entries.drop_last())[i]);
            } else {
                assert(entries.last() == entries[i]);
            }
        }
    }
}

/// The abstraction function from run-time values to their models.
pub open spec fn abs_value(v: Value) -> ValueModel
    decreases v,
{
    match v {
        Value::Int(n) => ValueModel::Int(n),
        Value::Text(s) => ValueModel::Text(s@),
        Value::Wrapped(name, inner) => ValueModel::Wrapped(name@, Box::new(abs_value(*inner))),
        Value::Opt(o) => match o {
            Some(inner) => ValueModel::Opt(Some(Box::new(abs_value(*inner)))),
            None => ValueModel::Opt(None),
        },
        Value::List(items) => ValueModel::List(abs_elems(items@)),
        Value::Entries(entries) => ValueModel::Entries(abs_entries(entries@)),
    }
}

impl View for Value {
    type V = ValueModel;

    open spec fn view(&self) -> ValueModel {
        abs_value(*self)
    }
}

/// Each shape of value abstracts to the matching shape of model.
pub proof fn lemma_abs_shape(v: Value)
    ensures
        v is Int <==> abs_value(v) is Int,
        v is Text <==> abs_value(v) is Text,
        v is Wrapped <==> abs_value(v) is Wrapped,
        v is Opt <==> abs_value(v) is Opt,
        v is List <==> abs_value(v) is List,
        v is Entries <==> abs_value(v) is Entries,
{
    match v {
        Value::Int(_) => {},
        Value::Text(_) => {},
        Value::Wrapped(_, _) => {},
        Value::Opt(_) => {},
        Value::List(_) => {},
        Value::Entries(_) => {},
    }
}

/// Well-formedness of a value model: every mapping in it has pairwise
/// distinct keys, as the underlying keyed container guarantees.
pub open spec fn wf_model(m: ValueModel) -> bool
    decreases m,
{
    match m {
        ValueModel::Int(_) => true,
        ValueModel::Text(_) => true,
        ValueModel::Wrapped(_, inner) => wf_model(*inner),
        ValueModel::Opt(o) => match o {
            Some(inner) => wf_model(*inner),
            None => true,
        },
        ValueModel::List(items) => forall|i: int|
            0 <= i < items.len() ==> wf_model(#[trigger] items[i]),
        ValueModel::Entries(entries) => {
            &&& forall|i: int|
                0 <= i < entries.len() ==> wf_model(#[trigger] entries[i].0) && wf_model(
                    entries[i].1,
                )
            &&& forall|i: int, j: int|
                0 <= i < entries.len() && 0 <= j < entries.len() && i != j
                    ==> (#[trigger] entries[i]).0 != (#[trigger] entries[j]).0
        },
    }
}

/// Well-formedness of a run-time value: its model is well formed.
pub open spec fn wf_value(v: Value) -> bool {
    wf_model(v@)
}

/// Elementwise equality of two value lists, by their models.
fn list_eq(xs: &Vec<Value>, ys: &Vec<Value>) -> (r: bool)
    ensures
        r == (abs_elems(xs@) == abs_elems(ys@)),
    decreases *xs,
{
    if xs.len() != ys.len() {
        proof {
            lemma_abs_elems(xs@);
            lemma_abs_elems(ys@);
            assert(abs_elems(xs@).len() != abs_elems(ys@).len());
        }
        false
    } else {
        let n = xs.len();
        let mut i: usize = 0;
        let mut same = true;
        while i < n
            invariant
                n == xs@.len() == ys@.len(),
                i <= n,
                same == (forall|j: int| 0 <= j < i ==> abs_value(xs@[j]) == abs_value(ys@[j])),
            decreases n - i,
        {
            if !value_eq(&xs[i], &ys[i]) {
                same = false;
                assert(abs_value(xs@[i as int]) != abs_value(ys@[i as int]));
            }
            i += 1;
        }
        proof {
            lemma_abs_elems(xs@);
            lemma_abs_elems(ys@);
            if same {
                assert forall|k: int| 0 <= k < n implies abs_elems(xs@)[k] == abs_elems(ys@)[k] by {
                    assert(abs_value(xs@[k]) == abs_value(ys@[k]));
                }
                assert(abs_elems(xs@) =~= abs_elems(ys@));
            } else {
                let j = choose|j: int| 0 <= j < n && abs_value(xs@[j]) != abs_value(ys@[j]);
                assert(abs_elems(xs@)[j] != abs_elems(ys@)[j]);
            }
        }
        same
    }
}

/// Elementwise equality of two entry lists, by their models.
fn entries_eq(xs: &Vec<(Value, Value)>, ys: &Vec<(Value, Value)>) -> (r: bool)
    ensures
        r == (abs_entries(xs@) == abs_entries(ys@)),
    decreases *xs,
{
    if xs.len() != ys.len() {
        proof {
            lemma_abs_entries(xs@);
            lemma_abs_entries(ys@);
            assert(abs_entries(xs@).len() != abs_entries(ys@).len());
        }
        false
    } else {
        let n = xs.len();
        let mut i: usize = 0;
        let mut same = true;
        while i < n
            invariant
                n == xs@.len() == ys@.len(),
                i <= n,
                same == (forall|j: int|
                    0 <= j < i ==> abs_value(xs@[j].0) == abs_value(ys@[j].0) && abs_value(
                        xs@[j].1,
                    ) == abs_value(ys@[j].1)),
            decreases n - i,
        {
            let ka = value_eq(&xs[i].0, &ys[i].0);
            let va = value_eq(&xs[i].1, &ys[i].1);
            if !(ka && va) {
                same = false;
            }
            i += 1;
        }
        proof {
            lemma_abs_entries(xs@);
            lemma_abs_entries(ys@);
            if same {
                assert forall|k: int| 0 <= k < n implies abs_entries(xs@)[k] == abs_entries(ys@)[k] by {
                    assert(abs_value(xs@[k].0) == abs_value(ys@[k].0));
                    assert(abs_value(xs@[k].1) == abs_value(ys@[k].1));
                }
                assert(abs_entries(xs@) =~= abs_entries(ys@));
            } else {
                let j = choose|j: int|
                    0 <= j < n && !(abs_value(xs@[j].0) == abs_value(ys@[j].0) && abs_value(
                        xs@[j].1,
                    ) == abs_value(ys@[j].1));
                assert(abs_entries(xs@)[j] != abs_entries(ys@)[j]);
            }
        }
        same
    }
}

/// Deep structural equality of two values, decided at run time.
///
/// Two values are equal exactly when their models are; mappings are
/// compared entry for entry, in order, like the other shapes.
pub fn value_eq(a: &Value, b: &Value) -> (r: bool)
    ensures
        r == (a@ == b@),
    decreases *a,
{
    proof {
        lemma_abs_shape(*a);
        lemma_abs_shape(*b);
    }
    match a {
        Value::Int(x) => match b {
            Value::Int(y) => *x == *y,
            _ => false,
        },
        Value::Text(x) => match b {
            Value::Text(y) => x.eq(y),
            _ => false,
        },
        Value::Wrapped(nx, ix) => match b {
            Value::Wrapped(ny, iy) => nx.eq(ny) && value_eq(ix, iy),
            _ => false,
        },
        Value::Opt(x) => match b {
            Value::Opt(y) => match (x, y) {
                (Some(ix), Some(iy)) => value_eq(ix, iy),
                (None, None) => true,
                _ => false,
            },
            _ => false,
        },
        Value::List(xs) => match b {
            Value::List(ys) => list_eq(xs, ys),
            _ => false,
        },
        Value::Entries(xs) => match b {
            Value::Entries(ys) => entries_eq(xs, ys),
            _ => false,
        },
    }
}

/// A deep copy of a value list, elementwise.
fn list_duplicate(xs: &Vec<Value>) -> (r: Vec<Value>)
    ensures
        abs_elems(r@) == abs_elems(xs@),
    decreases *xs,
{
    let n = xs.len();
    let mut out: Vec<Value> = Vec::new();
    let mut i: usize = 0;
    while i < n
        invariant
            n == xs@.len(),
            i <= n,
            out@.len() == i,
            forall|j: int| 0 <= j < i ==> abs_value(out@[j]) == abs_value(xs@[j]),
        decreases n - i,
    {
        let d = duplicate(&xs[i]);
        out.push(d);
        i += 1;
    }
    proof {
        lemma_abs_elems(out@);
        lemma_abs_elems(xs@);
        assert forall|k: int| 0 <= k < n implies abs_elems(out@)[k] == abs_elems(xs@)[k] by {
            assert(abs_value(out@[k]) == abs_value(xs@[k]));
        }
        assert(abs_elems(out@) =~= abs_elems(xs@));
    }
    out
}

/// A deep copy of an entry list, elementwise.
fn entries_duplicate(xs: &Vec<(Value, Value)>) -> (r: Vec<(Value, Value)>)
    ensures
        abs_entries(r@) == abs_entries(xs@),
    decreases *xs,
{
    let n = xs.len();
    let mut out: Vec<(Value, Value)> = Vec::new();
    let mut i: usize = 0;
    while i < n
        invariant
            n == xs@.len(),
            i <= n,
            out@.len() == i,
            forall|j: int|
                0 <= j < i ==> abs_value(out@[j].0) == abs_value(xs@[j].0) && abs_value(out@[j].1)
                    == abs_value(xs@[j].1),
        decreases n - i,
    {
        let k = duplicate(&xs[i].0);
        let v = duplicate(&xs[i].1);
        out.push((k, v));
        i += 1;
    }
    proof {
        lemma_abs_entries(out@);
        lemma_abs_entries(xs@);
        assert forall|k: int| 0 <= k < n implies abs_entries(out@)[k] == abs_entries(xs@)[k] by {
            assert(abs_value(out@[k].0) == abs_value(xs@[k].0));
            assert(abs_value(out@[k].1) == abs_value(xs@[k].1));
        }
        assert(abs_entries(out@) =~= abs_entries(xs@));
    }
    out
}

/// A deep copy of a value: the copy has the same model.
pub fn duplicate(v: &Value) -> (r: Value)
    ensures
        r@ == v@,
    decreases *v,
{
    match v {
        Value::Int(n) => Value::Int(*n),
        Value::Text(s) => Value::Text(s.clone()),
        Value::Wrapped(name, inner) => Value::Wrapped(name.clone(), Box::new(duplicate(inner))),
        Value::Opt(o) => match o {
            Some(inner) => Value::Opt(Some(Box::new(duplicate(inner)))),
            None => Value::Opt(None),
        },
        Value::List(items) => Value::List(list_duplicate(items)),
        Value::Entries(entries) => Value::Entries(entries_duplicate(entries)),
    }
}

} // verus!
