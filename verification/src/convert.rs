//! The run-time meaning of a conversion strategy: verified interpreters
//! that carry a source value through a strategy tree, in the infallible
//! and the fallible form a generated routine uses.
//!
//! The conversions at the plain leaves belong to the converted types, not
//! to this crate; they enter as data: an [`ElemTree`] mirrors the strategy
//! tree and holds, at each leaf, the declared element conversion and the
//! zero value of the leaf's source type.

use vstd::prelude::*;
use crate::strategy::ConversionStrategy;
use crate::value::{Value, ValueModel, abs_value, abs_elems, abs_entries, lemma_abs_elems,
    lemma_abs_entries, duplicate, value_eq};

verus! {

broadcast use vstd::std_specs::vec::axiom_vec_index_decreases, vstd::std_specs::vec::axiom_vec_decreases_to_view, vstd::seq::axiom_seq_index_decreases, vstd::seq::axiom_seq_subrange_decreases;

/// The declared conversion of one plain element type, as data.
///
/// `Keep` stands for a conversion between identical types; `Wrap` for the
/// conversion into the named user type that carries the element; `Unwrap`
/// for the conversion out of it. In the fallible form, `Unwrap` of a value
/// not carried by the named type is the one element conversion that fails.
#[derive(Debug, PartialEq)]
pub enum ElemConv {
    Keep,
    Wrap(String),
    Unwrap(String),
}

/// The mathematical abstraction of an [`ElemConv`].
pub enum ElemConvModel {
    Keep,
    Wrap(Seq<char>),
    Unwrap(Seq<char>),
}

/// Element conversions for every plain leaf of a strategy tree, plus the
/// zero value of each leaf's source type (used by `unwrap_or_default`).
#[derive(Debug, PartialEq)]
pub enum ElemTree {
    Leaf(ElemConv, Value),
    Inner(Box<ElemTree>),
    Pair(Box<ElemTree>, Box<ElemTree>),
}

/// The mathematical abstraction of an [`ElemTree`].
pub enum ElemTreeModel {
    Leaf(ElemConvModel, ValueModel),
    Inner(Box<ElemTreeModel>),
    Pair(Box<ElemTreeModel>, Box<ElemTreeModel>),
}

/// The abstraction function for element conversions.
pub open spec fn abs_elem_conv(c: ElemConv) -> ElemConvModel {
    match c {
        ElemConv::Keep => ElemConvModel::Keep,
        ElemConv::Wrap(name) => ElemConvModel::Wrap(name@),
        ElemConv::Unwrap(name) => ElemConvModel::Unwrap(name@),
    }
}

impl View for ElemConv {
    type V = ElemConvModel;

    open spec fn view(&self) -> ElemConvModel {
        abs_elem_conv(*self)
    }
}

/// The abstraction function for element-conversion trees.
pub open spec fn abs_elem_tree(t: ElemTree) -> ElemTreeModel
    decreases t,
{
    match t {
        ElemTree::Leaf(conv, zero) => ElemTreeModel::Leaf(abs_elem_conv(conv), abs_value(zero)),
        ElemTree::Inner(inner) => ElemTreeModel::Inner(Box::new(abs_elem_tree(*inner))),
        ElemTree::Pair(key, value) => ElemTreeModel::Pair(
            Box::new(abs_elem_tree(*key)),
            Box::new(abs_elem_tree(*value)),
        ),
    }
}

impl View for ElemTree {
    type V = ElemTreeModel;

    open spec fn view(&self) -> ElemTreeModel {
        abs_elem_tree(*self)
    }
}

/// Structural alignment of an element-conversion tree with a strategy:
/// one leaf per plain leaf, one inner node per container or unwrap layer,
/// one pair per mapping.
pub open spec fn sem_fits(s: ConversionStrategy, em: ElemTreeModel) -> bool
    decreases s,
{
    match s {
        ConversionStrategy::Plain => em is Leaf,
        ConversionStrategy::Optional(inner) => em matches ElemTreeModel::Inner(t) && sem_fits(
            *inner,
            *t,
        ),
        ConversionStrategy::Sequence(inner) => em matches ElemTreeModel::Inner(t) && sem_fits(
            *inner,
            *t,
        ),
        ConversionStrategy::Mapping(key, value) => em matches ElemTreeModel::Pair(tk, tv)
            && sem_fits(*key, *tk) && sem_fits(*value, *tv),
        ConversionStrategy::UnwrapOptional(inner) => em matches ElemTreeModel::Inner(t)
            && sem_fits(*inner, *t),
        ConversionStrategy::UnwrapOrDefault(inner) => em matches ElemTreeModel::Inner(t)
            && sem_fits(*inner, *t),
        ConversionStrategy::WrapSome(inner) => em matches ElemTreeModel::Inner(t) && sem_fits(
            *inner,
            *t,
        ),
    }
}

/// What one element conversion does to one value, in the form that cannot
/// fail.
pub open spec fn spec_apply_elem(c: ElemConvModel, v: ValueModel) -> ValueModel {
    match c {
        ElemConvModel::Keep => v,
        ElemConvModel::Wrap(name) => ValueModel::Wrapped(name, Box::new(v)),
        ElemConvModel::Unwrap(name) => match v {
            ValueModel::Wrapped(_, inner) => *inner,
            _ => v,
        },
    }
}

/// Whether one value can go through one element conversion without a
/// failure: only unwrapping demands the value be carried by the named
/// type.
pub open spec fn elem_fits(c: ElemConvModel, v: ValueModel) -> bool {
    match c {
        ElemConvModel::Keep => true,
        ElemConvModel::Wrap(_) => true,
        ElemConvModel::Unwrap(name) => v matches ValueModel::Wrapped(n, _) && n == name,
    }
}

/// The zero value a strategy's source type starts from: empty containers
/// at container layers, the leaf's declared zero at a plain leaf.
pub open spec fn spec_zero(s: ConversionStrategy, em: ElemTreeModel) -> ValueModel
    decreases s,
{
    match s {
        ConversionStrategy::Plain => match em {
            ElemTreeModel::Leaf(_, zero) => zero,
            _ => ValueModel::Opt(None),
        },
        ConversionStrategy::Optional(_) => ValueModel::Opt(None),
        ConversionStrategy::Sequence(_) => ValueModel::List(Seq::empty()),
        ConversionStrategy::Mapping(_, _) => ValueModel::Entries(Seq::empty()),
        ConversionStrategy::UnwrapOptional(inner) => match em {
            ElemTreeModel::Inner(t) => spec_zero(*inner, *t),
            _ => ValueModel::Opt(None),
        },
        ConversionStrategy::UnwrapOrDefault(inner) => match em {
            ElemTreeModel::Inner(t) => spec_zero(*inner, *t),
            _ => ValueModel::Opt(None),
        },
        ConversionStrategy::WrapSome(inner) => match em {
            ElemTreeModel::Inner(t) => spec_zero(*inner, *t),
            _ => ValueModel::Opt(None),
        },
    }
}

/// Whether a value fits a strategy for the infallible form: the value's
/// container shape follows the strategy, every element fits its leaf
/// conversion, and every optional that an unwrap demands is present.
pub open spec fn fits_infallible(s: ConversionStrategy, em: ElemTreeModel, v: ValueModel) -> bool
    decreases s, v,
{
    match s {
        ConversionStrategy::Plain => em matches ElemTreeModel::Leaf(c, _) && elem_fits(c, v),
        ConversionStrategy::Optional(inner) => em matches ElemTreeModel::Inner(t) && match v {
            ValueModel::Opt(o) => match o {
                Some(x) => fits_infallible(*inner, *t, *x),
                None => true,
            },
            _ => false,
        },
        ConversionStrategy::Sequence(inner) => em matches ElemTreeModel::Inner(t) && match v {
            ValueModel::List(items) => forall|i: int|
                0 <= i < items.len() ==> fits_infallible(*inner, *t, #[trigger] items[i]),
            _ => false,
        },
        ConversionStrategy::Mapping(key, value) => em matches ElemTreeModel::Pair(tk, tv)
            && match v {
            ValueModel::Entries(entries) => forall|i: int|
                0 <= i < entries.len() ==> fits_infallible(*key, *tk, (#[trigger] entries[i]).0)
                    && fits_infallible(*value, *tv, entries[i].1),
            _ => false,
        },
        ConversionStrategy::UnwrapOptional(inner) => em matches ElemTreeModel::Inner(t) && match v {
            ValueModel::Opt(o) => match o {
                Some(x) => fits_infallible(*inner, *t, *x),
                None => false,
            },
            _ => false,
        },
        ConversionStrategy::UnwrapOrDefault(inner) => em matches ElemTreeModel::Inner(t) && match v {
            ValueModel::Opt(o) => match o {
                Some(x) => fits_infallible(*inner, *t, *x),
                None => fits_infallible(*inner, *t, spec_zero(*inner, *t)),
            },
            _ => false,
        },
        ConversionStrategy::WrapSome(inner) => em matches ElemTreeModel::Inner(t)
            && fits_infallible(*inner, *t, v),
    }
}

/// The infallible conversion of a value along a strategy. The function
/// is total; on a value outside [`fits_infallible`] it hands the value
/// through unchanged, and the interpreters only ever apply it inside the
/// fit.
pub open spec fn spec_convert(s: ConversionStrategy, em: ElemTreeModel, v: ValueModel) -> ValueModel
    decreases s, v,
{
    match s {
        ConversionStrategy::Plain => match em {
            ElemTreeModel::Leaf(c, _) => spec_apply_elem(c, v),
            _ => v,
        },
        ConversionStrategy::Optional(inner) => match em {
            ElemTreeModel::Inner(t) => match v {
                ValueModel::Opt(o) => match o {
                    Some(x) => ValueModel::Opt(Some(Box::new(spec_convert(*inner, *t, *x)))),
                    None => ValueModel::Opt(None),
                },
                _ => v,
            },
            _ => v,
        },
        ConversionStrategy::Sequence(inner) => match em {
            ElemTreeModel::Inner(t) => match v {
                ValueModel::List(items) => ValueModel::List(spec_convert_elems(s, *t, items)),
                _ => v,
            },
            _ => v,
        },
        ConversionStrategy::Mapping(key, value) => match em {
            ElemTreeModel::Pair(tk, tv) => match v {
                ValueModel::Entries(entries) => ValueModel::Entries(
                    entries_dedup(spec_convert_entries(s, *tk, *tv, entries)),
                ),
                _ => v,
            },
            _ => v,
        },
        ConversionStrategy::UnwrapOptional(inner) => match em {
            ElemTreeModel::Inner(t) => match v {
                ValueModel::Opt(o) => match o {
                    Some(x) => spec_convert(*inner, *t, *x),
                    None => v,
                },
                _ => v,
            },
            _ => v,
        },
        ConversionStrategy::UnwrapOrDefault(inner) => match em {
            ElemTreeModel::Inner(t) => match v {
                ValueModel::Opt(o) => match o {
                    Some(x) => spec_convert(*inner, *t, *x),
                    None => spec_convert(*inner, *t, spec_zero(*inner, *t)),
                },
                _ => v,
            },
            _ => v,
        },
        ConversionStrategy::WrapSome(inner) => match em {
            ElemTreeModel::Inner(t) => ValueModel::Opt(
                Some(Box::new(spec_convert(*inner, *t, v))),
            ),
            _ => v,
        },
    }
}

/// Elementwise infallible conversion of a sequence's items. The first
/// argument is the surrounding sequence strategy.
pub open spec fn spec_convert_elems(
    s: ConversionStrategy,
    t: ElemTreeModel,
    items: Seq<ValueModel>,
) -> Seq<ValueModel>
    decreases s, items,
{
    match s {
        ConversionStrategy::Sequence(inner) => if items.len() == 0 {
            Seq::empty()
        } else {
            spec_convert_elems(s, t, items.drop_last()).push(
                spec_convert(*inner, t, items.last()),
            )
        },
        _ => items,
    }
}

/// Pairwise infallible conversion of a mapping's entries. The first
/// argument is the surrounding mapping strategy.
pub open spec fn spec_convert_entries(
    s: ConversionStrategy,
    tk: ElemTreeModel,
    tv: ElemTreeModel,
    entries: Seq<(ValueModel, ValueModel)>,
) -> Seq<(ValueModel, ValueModel)>
    decreases s, entries,
{
    match s {
        ConversionStrategy::Mapping(key, value) => if entries.len() == 0 {
            Seq::empty()
        } else {
            spec_convert_entries(s, tk, tv, entries.drop_last()).push(
                (
                    spec_convert(*key, tk, entries.last().0),
                    spec_convert(*value, tv, entries.last().1),
                ),
            )
        },
        _ => entries,
    }
}

/// The index of the first entry carrying the given key, or `-1`.
pub open spec fn key_index(entries: Seq<(ValueModel, ValueModel)>, k: ValueModel) -> int
    decreases entries,
{
    if entries.len() == 0 {
        -1
    } else if entries.first().0 == k {
        0
    } else {
        let rest = key_index(entries.drop_first(), k);
        if rest < 0 {
            -1
        } else {
            rest + 1
        }
    }
}

/// Writes one entry into an entry list under the mapping discipline: the
/// first entry with the same key is overwritten, otherwise the entry is
/// appended.
pub open spec fn entries_put(
    entries: Seq<(ValueModel, ValueModel)>,
    k: ValueModel,
    v: ValueModel,
) -> Seq<(ValueModel, ValueModel)> {
    let i = key_index(entries, k);
    if i >= 0 {
        entries.update(i, (k, v))
    } else {
        entries.push((k, v))
    }
}

/// Replays an entry list through the mapping discipline, first to last:
/// on a key met twice, the later entry wins.
pub open spec fn entries_dedup(entries: Seq<(ValueModel, ValueModel)>) -> Seq<
    (ValueModel, ValueModel),
>
    decreases entries,
{
    if entries.len() == 0 {
        Seq::empty()
    } else {
        entries_put(entries_dedup(entries.drop_last()), entries.last().0, entries.last().1)
    }
}

/// `spec_convert_elems` converts the sequence index by index.
pub proof fn lemma_convert_elems(s: ConversionStrategy, t: ElemTreeModel, items: Seq<ValueModel>)
    requires
        s is Sequence,
    ensures
        spec_convert_elems(s, t, items).len() == items.len(),
        forall|i: int|
            0 <= i < items.len() ==> spec_convert_elems(s, t, items)[i] == spec_convert(
                *s->Sequence_0,
                t,
                #[trigger] items[i],
            ),
    decreases items,
{
    if items.len() > 0 {
        lemma_convert_elems(s, t, items.drop_last());
        assert forall|i: int| 0 <= i < items.len() implies spec_convert_elems(s, t, items)[i]
            == spec_convert(*s->Sequence_0, t, #[trigger] items[i]) by {
            if i < items.len() - 1 {
                assert(items.drop_last()[i] == items[i]);
                assert(spec_convert_elems(s, t, items)[i] == spec_convert_elems(
                    s,
                    t,
                    items.drop_last(),
                )[i]);
            } else {
                assert(items.last() == items[i]);
            }
        }
    }
}

/// `spec_convert_entries` converts the entry list entry by entry.
pub proof fn lemma_convert_entries(
    s: ConversionStrategy,
    tk: ElemTreeModel,
    tv: ElemTreeModel,
    entries: Seq<(ValueModel, ValueModel)>,
)
    requires
        s is Mapping,
    ensures
        spec_convert_entries(s, tk, tv, entries).len() == entries.len(),
        forall|i: int|
            0 <= i < entries.len() ==> spec_convert_entries(s, tk, tv, entries)[i] == (
                spec_convert(*s->Mapping_0, tk, (#[trigger] entries[i]).0),
                spec_convert(*s->Mapping_1, tv, entries[i].1),
            ),
    decreases entries,
{
    if entries.len() > 0 {
        lemma_convert_entries(s, tk, tv, entries.drop_last());
        assert forall|i: int| 0 <= i < entries.len() implies spec_convert_entries(
            s,
            tk,
            tv,
            entries,
        )[i] == (
            spec_convert(*s->Mapping_0, tk, (#[trigger] entries[i]).0),
            spec_convert(*s->Mapping_1, tv, entries[i].1),
        ) by {
            if i < entries.len() - 1 {
                assert(entries.drop_last()[i] == entries[i]);
                assert(spec_convert_entries(s, tk, tv, entries)[i] == spec_convert_entries(
                    s,
                    tk,
                    tv,
                    entries.drop_last(),
                )[i]);
            } else {
                assert(entries.last() == entries[i]);
            }
        }
    }
}

/// The index `key_index` finds is the first entry with the key, when
/// there is one.
pub proof fn lemma_key_index(entries: Seq<(ValueModel, ValueModel)>, k: ValueModel)
    ensures
        key_index(entries, k) >= 0 ==> {
            &&& key_index(entries, k) < entries.len()
            &&& entries[key_index(entries, k)].0 == k
            &&& forall|j: int| 0 <= j < key_index(entries, k) ==> (#[trigger] entries[j]).0 != k
        },
        key_index(entries, k) < 0 ==> forall|j: int|
            0 <= j < entries.len() ==> (#[trigger] entries[j]).0 != k,
    decreases entries,
{
    if entries.len() > 0 && entries.first().0 != k {
        lemma_key_index(entries.drop_first(), k);
        assert(forall|j: int|
            1 <= j < entries.len() ==> (#[trigger] entries[j]) == entries.drop_first()[j - 1]);
    }
}

/// Writes one entry into a mapping's entry list at run time: the first
/// entry carrying an equal key is overwritten, otherwise the entry goes
/// to the end.
pub fn entries_put_exec(out: &mut Vec<(Value, Value)>, k: Value, v: Value)
    ensures
        abs_entries(final(out)@) == entries_put(abs_entries(old(out)@), k@, v@),
{
    proof {
        lemma_abs_entries(out@);
        lemma_key_index(abs_entries(out@), k@);
    }
    let n = out.len();
    let mut i: usize = 0;
    while i < n
        invariant
            out@ == old(out)@,
            n == out@.len(),
            i <= n,
            forall|j: int| 0 <= j < i ==> abs_value(out@[j].0) != k@,
            abs_entries(out@).len() == n,
            forall|j: int|
                0 <= j < n ==> abs_entries(out@)[j] == (
                    abs_value(#[trigger] out@[j].0),
                    abs_value(out@[j].1),
                ),
            key_index(abs_entries(out@), k@) >= 0 ==> {
                &&& key_index(abs_entries(out@), k@) < n
                &&& abs_value(out@[key_index(abs_entries(out@), k@)].0) == k@
                &&& forall|j: int|
                    0 <= j < key_index(abs_entries(out@), k@) ==> abs_value(
                        (#[trigger] out@[j]).0,
                    ) != k@
            },
            key_index(abs_entries(out@), k@) < 0 ==> forall|j: int|
                0 <= j < n ==> abs_value((#[trigger] out@[j]).0) != k@,
        decreases n - i,
    {
        if value_eq(&out[i].0, &k) {
            proof {
                let ki = key_index(abs_entries(out@), k@);
                assert(ki >= 0 && ki == i) by {
                    if ki < 0 {
                        assert(abs_value(out@[i as int].0) != k@);
                    } else {
                        if ki < i {
                            assert(abs_value(out@[ki].0) != k@);
                        }
                        if ki > i {
                            assert(abs_value(out@[i as int].0) != k@);
                        }
                    }
                };
            }
            let ghost before = abs_entries(out@);
            let ghost oldvec = out@;
            out[i] = (k, v);
            proof {
                lemma_abs_entries(oldvec);
                lemma_abs_entries(out@);
                assert(out@ == oldvec.update(i as int, (k, v)));
                assert(out@.len() == n);
                assert(key_index(before, k@) == i);
                assert(entries_put(before, k@, v@) == before.update(i as int, (k@, v@)));
                assert(out@[i as int] == (k, v));
                assert(abs_entries(out@)[i as int] == (
                    abs_value(out@[i as int].0),
                    abs_value(out@[i as int].1),
                ));
                assert(abs_entries(out@)[i as int] == (k@, v@));
                assert forall|j: int| 0 <= j < n implies abs_entries(out@)[j] == entries_put(
                    before,
                    k@,
                    v@,
                )[j] by {
                    if j != i {
                        assert(out@[j] == oldvec[j]);
                        assert(abs_entries(out@)[j] == (abs_value(oldvec[j].0), abs_value(oldvec[j].1)));
                        assert(before[j] == (abs_value(oldvec[j].0), abs_value(oldvec[j].1)));
                    }
                }
                assert(abs_entries(out@) =~= entries_put(before, k@, v@));
            }
            return;
        }
        i += 1;
    }
    proof {
        assert(key_index(abs_entries(out@), k@) < 0);
    }
    let ghost before = abs_entries(out@);
    let ghost oldvec = out@;
    out.push((k, v));
    proof {
        lemma_abs_entries(oldvec);
        lemma_abs_entries(out@);
        assert forall|j: int| 0 <= j <= n implies abs_entries(out@)[j] == before.push(
            (k@, v@),
        )[j] by {
            if j < n {
                assert(out@[j] == oldvec[j]);
            } else {
                assert(out@[j] == (k, v));
            }
        }
        assert(abs_entries(out@) =~= before.push((k@, v@)));
    }
}

/// Builds the zero value a strategy's source type starts from.
pub fn zero_value(s: &ConversionStrategy, em: &ElemTree) -> (r: Value)
    requires
        sem_fits(*s, em@),
    ensures
        r@ == spec_zero(*s, em@),
    decreases *s,
{
    match s {
        ConversionStrategy::Plain => match em {
            ElemTree::Leaf(_, zero) => duplicate(zero),
            _ => {
                proof {
                    assert(false);
                }
                Value::Opt(None)
            },
        },
        ConversionStrategy::Optional(_) => Value::Opt(None),
        ConversionStrategy::Sequence(_) => {
            let items: Vec<Value> = Vec::new();
            proof {
                assert(abs_elems(items@) =~= Seq::<ValueModel>::empty());
            }
            Value::List(items)
        },
        ConversionStrategy::Mapping(_, _) => {
            let entries: Vec<(Value, Value)> = Vec::new();
            proof {
                assert(abs_entries(entries@) =~= Seq::<(ValueModel, ValueModel)>::empty());
            }
            Value::Entries(entries)
        },
        ConversionStrategy::UnwrapOptional(inner) => match em {
            ElemTree::Inner(t) => zero_value(inner, t),
            _ => {
                proof {
                    assert(false);
                }
                Value::Opt(None)
            },
        },
        ConversionStrategy::UnwrapOrDefault(inner) => match em {
            ElemTree::Inner(t) => zero_value(inner, t),
            _ => {
                proof {
                    assert(false);
                }
                Value::Opt(None)
            },
        },
        ConversionStrategy::WrapSome(inner) => match em {
            ElemTree::Inner(t) => zero_value(inner, t),
            _ => {
                proof {
                    assert(false);
                }
                Value::Opt(None)
            },
        },
    }
}

/// Applies one element conversion in the form that cannot fail.
fn apply_elem(c: &ElemConv, v: &Value) -> (r: Value)
    requires
        elem_fits(c@, v@),
    ensures
        r@ == spec_apply_elem(c@, v@),
{
    match c {
        ElemConv::Keep => duplicate(v),
        ElemConv::Wrap(name) => Value::Wrapped(name.clone(), Box::new(duplicate(v))),
        ElemConv::Unwrap(_) => match v {
            Value::Wrapped(_, inner) => duplicate(inner),
            _ => {
                proof {
                    crate::value::lemma_abs_shape(*v);
                    assert(false);
                }
                Value::Opt(None)
            },
        },
    }
}

/// Converts one element of a sequence; the first argument is the
/// surrounding sequence strategy.
fn convert_list_item(s: &ConversionStrategy, t: &ElemTree, x: &Value) -> (r: Value)
    requires
        s is Sequence,
        sem_fits(*s->Sequence_0, t@),
        fits_infallible(*s->Sequence_0, t@, x@),
    ensures
        r@ == spec_convert(*s->Sequence_0, t@, x@),
    decreases *s, *x,
{
    match s {
        ConversionStrategy::Sequence(inner) => convert_value(inner, t, x),
        _ => {
            proof {
                assert(false);
            }
            Value::Opt(None)
        },
    }
}

/// Converts every element of a sequence, in order.
fn convert_list(s: &ConversionStrategy, t: &ElemTree, items: &Vec<Value>) -> (r: Vec<Value>)
    requires
        s is Sequence,
        sem_fits(*s->Sequence_0, t@),
        forall|j: int|
            0 <= j < items@.len() ==> fits_infallible(
                *s->Sequence_0,
                t@,
                abs_value(#[trigger] items@[j]),
            ),
    ensures
        r@.len() == items@.len(),
        forall|j: int|
            0 <= j < items@.len() ==> abs_value(#[trigger] r@[j]) == spec_convert(
                *s->Sequence_0,
                t@,
                abs_value(items@[j]),
            ),
    decreases *s, *items,
{
    let n = items.len();
    let mut out: Vec<Value> = Vec::new();
    let mut i: usize = 0;
    while i < n
        invariant
            n == items@.len(),
            i <= n,
            out@.len() == i,
            s is Sequence,
            sem_fits(*s->Sequence_0, t@),
            forall|j: int|
                0 <= j < n ==> fits_infallible(
                    *s->Sequence_0,
                    t@,
                    abs_value(#[trigger] items@[j]),
                ),
            forall|j: int|
                0 <= j < i ==> abs_value(#[trigger] out@[j]) == spec_convert(
                    *s->Sequence_0,
                    t@,
                    abs_value(items@[j]),
                ),
        decreases n - i,
    {
        let c = convert_list_item(s, t, &items[i]);
        out.push(c);
        i += 1;
    }
    out
}

/// Converts one entry of a mapping; the first argument is the surrounding
/// mapping strategy.
fn convert_entry(s: &ConversionStrategy, tk: &ElemTree, tv: &ElemTree, e: &(Value, Value)) -> (r: (
    Value,
    Value,
))
    requires
        s is Mapping,
        sem_fits(*s->Mapping_0, tk@),
        sem_fits(*s->Mapping_1, tv@),
        fits_infallible(*s->Mapping_0, tk@, e.0@),
        fits_infallible(*s->Mapping_1, tv@, e.1@),
    ensures
        r.0@ == spec_convert(*s->Mapping_0, tk@, e.0@),
        r.1@ == spec_convert(*s->Mapping_1, tv@, e.1@),
    decreases *s, *e,
{
    match s {
        ConversionStrategy::Mapping(key, value) => {
            let ck = convert_value(key, tk, &e.0);
            let cv = convert_value(value, tv, &e.1);
            (ck, cv)
        },
        _ => {
            proof {
                assert(false);
            }
            (Value::Opt(None), Value::Opt(None))
        },
    }
}

/// Converts every entry of a mapping and writes the results back in under
/// the mapping discipline: on keys that collide after conversion, the
/// later entry wins.
fn convert_entry_list(
    s: &ConversionStrategy,
    tk: &ElemTree,
    tv: &ElemTree,
    entries: &Vec<(Value, Value)>,
) -> (r: Vec<(Value, Value)>)
    requires
        s is Mapping,
        sem_fits(*s->Mapping_0, tk@),
        sem_fits(*s->Mapping_1, tv@),
        forall|j: int|
            0 <= j < entries@.len() ==> fits_infallible(
                *s->Mapping_0,
                tk@,
                abs_value((#[trigger] entries@[j]).0),
            ) && fits_infallible(*s->Mapping_1, tv@, abs_value(entries@[j].1)),
    ensures
        abs_entries(r@) == entries_dedup(spec_convert_entries(*s, tk@, tv@, abs_entries(entries@))),
    decreases *s, *entries,
{
    let n = entries.len();
    let ghost ms = abs_entries(entries@);
    let ghost cs = spec_convert_entries(*s, tk@, tv@, ms);
    proof {
        lemma_abs_entries(entries@);
        lemma_convert_entries(*s, tk@, tv@, ms);
    }
    let mut out: Vec<(Value, Value)> = Vec::new();
    let mut i: usize = 0;
    proof {
        assert(cs.take(0) =~= Seq::<(ValueModel, ValueModel)>::empty());
    }
    while i < n
        invariant
            n == entries@.len(),
            i <= n,
            s is Mapping,
            sem_fits(*s->Mapping_0, tk@),
            sem_fits(*s->Mapping_1, tv@),
            ms == abs_entries(entries@),
            cs == spec_convert_entries(*s, tk@, tv@, ms),
            cs.len() == n,
            forall|j: int|
                0 <= j < n ==> fits_infallible(
                    *s->Mapping_0,
                    tk@,
                    abs_value((#[trigger] entries@[j]).0),
                ) && fits_infallible(*s->Mapping_1, tv@, abs_value(entries@[j].1)),
            forall|j: int|
                0 <= j < n ==> #[trigger] cs[j] == (
                    spec_convert(*s->Mapping_0, tk@, abs_value(entries@[j].0)),
                    spec_convert(*s->Mapping_1, tv@, abs_value(entries@[j].1)),
                ),
            abs_entries(out@) == entries_dedup(cs.take(i as int)),
        decreases n - i,
    {
        let (ck, cv) = convert_entry(s, tk, tv, &entries[i]);
        proof {
            assert(cs[i as int] == (ck@, cv@));
            assert(cs.take(i + 1).drop_last() =~= cs.take(i as int));
            assert(cs.take(i + 1).last() == cs[i as int]);
        }
        entries_put_exec(&mut out, ck, cv);
        i += 1;
    }
    proof {
        assert(cs.take(n as int) =~= cs);
    }
    out
}

/// Carries one value through a strategy in the infallible form the
/// `into`/`from` routines use. The value must fit the strategy: its
/// container shape follows the strategy and every optional an unwrap
/// demands is present — on other values the generated code would not
/// exist or would abort, so they are excluded here.
pub fn convert_value(s: &ConversionStrategy, em: &ElemTree, v: &Value) -> (r: Value)
    requires
        sem_fits(*s, em@),
        fits_infallible(*s, em@, v@),
    ensures
        r@ == spec_convert(*s, em@, v@),
    decreases *s, *v,
{
    proof {
        crate::value::lemma_abs_shape(*v);
    }
    match s {
        ConversionStrategy::Plain => match em {
            ElemTree::Leaf(conv, _) => apply_elem(conv, v),
            _ => {
                proof {
                    assert(false);
                }
                Value::Opt(None)
            },
        },
        ConversionStrategy::Optional(inner) => match (em, v) {
            (ElemTree::Inner(t), Value::Opt(o)) => match o {
                Some(x) => Value::Opt(Some(Box::new(convert_value(inner, t, x)))),
                None => Value::Opt(None),
            },
            _ => {
                proof {
                    assert(false);
                }
                Value::Opt(None)
            },
        },
        ConversionStrategy::Sequence(_) => match (em, v) {
            (ElemTree::Inner(t), Value::List(items)) => {
                proof {
                    lemma_abs_elems(items@);
                }
                let out = convert_list(s, t, items);
                proof {
                    lemma_abs_elems(items@);
                    lemma_abs_elems(out@);
                    lemma_convert_elems(*s, t@, abs_elems(items@));
                    assert forall|j: int| 0 <= j < items@.len() implies abs_elems(out@)[j]
                        == spec_convert_elems(*s, t@, abs_elems(items@))[j] by {
                        assert(abs_elems(out@)[j] == abs_value(out@[j]));
                        assert(abs_elems(items@)[j] == abs_value(items@[j]));
                        assert(abs_value(out@[j]) == spec_convert(
                            *s->Sequence_0,
                            t@,
                            abs_value(items@[j]),
                        ));
                    }
                    assert(abs_elems(out@) =~= spec_convert_elems(*s, t@, abs_elems(items@)));
                }
                Value::List(out)
            },
            _ => {
                proof {
                    assert(false);
                }
                Value::Opt(None)
            },
        },
        ConversionStrategy::Mapping(_, _) => match (em, v) {
            (ElemTree::Pair(tk, tv), Value::Entries(entries)) => {
                proof {
                    lemma_abs_entries(entries@);
                }
                let out = convert_entry_list(s, tk, tv, entries);
                Value::Entries(out)
            },
            _ => {
                proof {
                    assert(false);
                }
                Value::Opt(None)
            },
        },
        ConversionStrategy::UnwrapOptional(inner) => match (em, v) {
            (ElemTree::Inner(t), Value::Opt(o)) => match o {
                Some(x) => convert_value(inner, t, x),
                None => {
                    proof {
                        assert(false);
                    }
                    Value::Opt(None)
                },
            },
            _ => {
                proof {
                    assert(false);
                }
                Value::Opt(None)
            },
        },
        ConversionStrategy::UnwrapOrDefault(inner) => match (em, v) {
            (ElemTree::Inner(t), Value::Opt(o)) => match o {
                Some(x) => convert_value(inner, t, x),
                None => {
                    let z = zero_value(inner, t);
                    convert_value(inner, t, &z)
                },
            },
            _ => {
                proof {
                    assert(false);
                }
                Value::Opt(None)
            },
        },
        ConversionStrategy::WrapSome(inner) => match em {
            ElemTree::Inner(t) => Value::Opt(Some(Box::new(convert_value(inner, t, v)))),
            _ => {
                proof {
                    assert(false);
                }
                Value::Opt(None)
            },
        },
    }
}

} // verus!
