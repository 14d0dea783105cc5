//! The fallible form of a conversion: the interpreter behind the
//! `try_into`/`try_from` routines.
//!
//! Where the infallible form excludes inputs the generated code would
//! abort on, this form turns each run-time failure into the routine's
//! failure text: an element conversion that fails, and an empty optional
//! under `unwrap`, are the only failure points. Errors short-circuit:
//! the first failing element, in order, decides the reported text.

use vstd::prelude::*;
use crate::strategy::ConversionStrategy;
use crate::value::{Value, ValueModel, abs_value, abs_elems, abs_entries, lemma_abs_elems,
    lemma_abs_entries, duplicate};
use crate::convert::{ElemConv, ElemConvModel, ElemTree, ElemTreeModel, sem_fits, elem_fits,
    spec_apply_elem, spec_zero, zero_value, entries_dedup, entries_put, entries_put_exec};
use crate::message::{failed_msg, key_fail_msg, value_fail_msg, failed_message, key_fail_message,
    value_fail_message};

verus! {

broadcast use vstd::std_specs::vec::axiom_vec_index_decreases, vstd::std_specs::vec::axiom_vec_decreases_to_view, vstd::seq::axiom_seq_index_decreases, vstd::seq::axiom_seq_subrange_decreases;

/// Whether a value's container shape fits a strategy for the fallible
/// form. Plain leaves always fit: an element that cannot convert is a
/// run-time failure, not a shape mismatch.
pub open spec fn fits_fallible(s: ConversionStrategy, em: ElemTreeModel, v: ValueModel) -> bool
    decreases s, v,
{
    match s {
        ConversionStrategy::Plain => em is Leaf,
        ConversionStrategy::Optional(inner) => em matches ElemTreeModel::Inner(t) && match v {
            ValueModel::Opt(o) => match o {
                Some(x) => fits_fallible(*inner, *t, *x),
                None => true,
            },
            _ => false,
        },
        ConversionStrategy::Sequence(inner) => em matches ElemTreeModel::Inner(t) && match v {
            ValueModel::List(items) => forall|i: int|
                0 <= i < items.len() ==> fits_fallible(*inner, *t, #[trigger] items[i]),
            _ => false,
        },
        ConversionStrategy::Mapping(key, value) => em matches ElemTreeModel::Pair(tk, tv)
            && match v {
            ValueModel::Entries(entries) => forall|i: int|
                0 <= i < entries.len() ==> fits_fallible(*key, *tk, (#[trigger] entries[i]).0)
                    && fits_fallible(*value, *tv, entries[i].1),
            _ => false,
        },
        ConversionStrategy::UnwrapOptional(inner) => em matches ElemTreeModel::Inner(t) && match v {
            ValueModel::Opt(o) => match o {
                Some(x) => fits_fallible(*inner, *t, *x),
                None => true,
            },
            _ => false,
        },
        ConversionStrategy::UnwrapOrDefault(inner) => em matches ElemTreeModel::Inner(t) && match v {
            ValueModel::Opt(o) => match o {
                Some(x) => fits_fallible(*inner, *t, *x),
                None => fits_fallible(*inner, *t, spec_zero(*inner, *t)),
            },
            _ => false,
        },
        ConversionStrategy::WrapSome(inner) => em matches ElemTreeModel::Inner(t) && fits_fallible(
            *inner,
            *t,
            v,
        ),
    }
}

/// What one element conversion does in the fallible form: `None` stands
/// for the element conversion reporting a failure.
pub open spec fn spec_try_elem(c: ElemConvModel, v: ValueModel) -> Option<ValueModel> {
    if elem_fits(c, v) {
        Some(spec_apply_elem(c, v))
    } else {
        None
    }
}

/// The fallible conversion of a value along a strategy: the converted
/// value, or the failure text of the first failure met. The function is
/// total; on a value outside [`fits_fallible`] it hands the value
/// through unchanged, and the interpreters only ever apply it inside the
/// fit.
pub open spec fn spec_try_convert(
    s: ConversionStrategy,
    em: ElemTreeModel,
    fld: Seq<char>,
    tgt: Seq<char>,
    v: ValueModel,
) -> Result<ValueModel, Seq<char>>
    decreases s, v,
{
    match s {
        ConversionStrategy::Plain => match em {
            ElemTreeModel::Leaf(c, _) => match spec_try_elem(c, v) {
                Some(c2) => Ok(c2),
                None => Err(failed_msg(fld, tgt, "invalid value"@)),
            },
            _ => Ok(v),
        },
        ConversionStrategy::Optional(inner) => match em {
            ElemTreeModel::Inner(t) => match v {
                ValueModel::Opt(o) => match o {
                    Some(x) => match spec_try_convert(*inner, *t, fld, tgt, *x) {
                        Ok(c) => Ok(ValueModel::Opt(Some(Box::new(c)))),
                        Err(e) => Err(e),
                    },
                    None => Ok(ValueModel::Opt(None)),
                },
                _ => Ok(v),
            },
            _ => Ok(v),
        },
        ConversionStrategy::Sequence(inner) => match em {
            ElemTreeModel::Inner(t) => match v {
                ValueModel::List(items) => match spec_try_elems(s, *t, fld, tgt, items) {
                    Ok(cs) => Ok(ValueModel::List(cs)),
                    Err(e) => Err(e),
                },
                _ => Ok(v),
            },
            _ => Ok(v),
        },
        ConversionStrategy::Mapping(key, value) => match em {
            ElemTreeModel::Pair(tk, tv) => match v {
                ValueModel::Entries(entries) => match spec_try_entries(s, *tk, *tv, fld, tgt, entries) {
                    Ok(cs) => Ok(ValueModel::Entries(entries_dedup(cs))),
                    Err(e) => Err(e),
                },
                _ => Ok(v),
            },
            _ => Ok(v),
        },
        ConversionStrategy::UnwrapOptional(inner) => match em {
            ElemTreeModel::Inner(t) => match v {
                ValueModel::Opt(o) => match o {
                    Some(x) => spec_try_convert(*inner, *t, fld, tgt, *x),
                    None => Err(failed_msg(fld, tgt, "None value"@)),
                },
                _ => Ok(v),
            },
            _ => Ok(v),
        },
        ConversionStrategy::UnwrapOrDefault(inner) => match em {
            ElemTreeModel::Inner(t) => match v {
                ValueModel::Opt(o) => match o {
                    Some(x) => spec_try_convert(*inner, *t, fld, tgt, *x),
                    None => spec_try_convert(*inner, *t, fld, tgt, spec_zero(*inner, *t)),
                },
                _ => Ok(v),
            },
            _ => Ok(v),
        },
        ConversionStrategy::WrapSome(inner) => match em {
            ElemTreeModel::Inner(t) => match spec_try_convert(*inner, *t, fld, tgt, v) {
                Ok(c) => Ok(ValueModel::Opt(Some(Box::new(c)))),
                Err(e) => Err(e),
            },
            _ => Ok(v),
        },
    }
}

/// Elementwise fallible conversion of a sequence's items: the converted
/// items, or the failure of the first item that fails. The first argument
/// is the surrounding sequence strategy.
pub open spec fn spec_try_elems(
    s: ConversionStrategy,
    t: ElemTreeModel,
    fld: Seq<char>,
    tgt: Seq<char>,
    items: Seq<ValueModel>,
) -> Result<Seq<ValueModel>, Seq<char>>
    decreases s, items,
{
    match s {
        ConversionStrategy::Sequence(inner) => if items.len() == 0 {
            Ok(Seq::empty())
        } else {
            match spec_try_elems(s, t, fld, tgt, items.drop_last()) {
                Ok(pre) => match spec_try_convert(*inner, t, fld, tgt, items.last()) {
                    Ok(c) => Ok(pre.push(c)),
                    Err(e) => Err(e),
                },
                Err(e) => Err(e),
            }
        },
        _ => Ok(items),
    }
}

/// Pairwise fallible conversion of a mapping's entries: the converted
/// entries, or the first key or value failure, each labelled with its
/// side. The first argument is the surrounding mapping strategy.
pub open spec fn spec_try_entries(
    s: ConversionStrategy,
    tk: ElemTreeModel,
    tv: ElemTreeModel,
    fld: Seq<char>,
    tgt: Seq<char>,
    entries: Seq<(ValueModel, ValueModel)>,
) -> Result<Seq<(ValueModel, ValueModel)>, Seq<char>>
    decreases s, entries,
{
    match s {
        ConversionStrategy::Mapping(key, value) => if entries.len() == 0 {
            Ok(Seq::empty())
        } else {
            match spec_try_entries(s, tk, tv, fld, tgt, entries.drop_last()) {
                Ok(pre) => match spec_try_convert(*key, tk, fld, tgt, entries.last().0) {
                    Ok(ck) => match spec_try_convert(*value, tv, fld, tgt, entries.last().1) {
                        Ok(cv) => Ok(pre.push((ck, cv))),
                        Err(e) => Err(value_fail_msg(fld, e)),
                    },
                    Err(e) => Err(key_fail_msg(fld, e)),
                },
                Err(e) => Err(e),
            }
        },
        _ => Ok(entries),
    }
}

/// A failed prefix decides the whole sequence's failure.
proof fn lemma_try_elems_err_extend(
    s: ConversionStrategy,
    t: ElemTreeModel,
    fld: Seq<char>,
    tgt: Seq<char>,
    items: Seq<ValueModel>,
    k: int,
)
    requires
        s is Sequence,
        0 <= k <= items.len(),
        spec_try_elems(s, t, fld, tgt, items.take(k)) is Err,
    ensures
        spec_try_elems(s, t, fld, tgt, items) == spec_try_elems(s, t, fld, tgt, items.take(k)),
    decreases items.len(),
{
    if k < items.len() {
        assert(items.drop_last().take(k) =~= items.take(k));
        lemma_try_elems_err_extend(s, t, fld, tgt, items.drop_last(), k);
    } else {
        assert(items.take(k) =~= items);
    }
}

/// A failed prefix decides the whole entry list's failure.
proof fn lemma_try_entries_err_extend(
    s: ConversionStrategy,
    tk: ElemTreeModel,
    tv: ElemTreeModel,
    fld: Seq<char>,
    tgt: Seq<char>,
    entries: Seq<(ValueModel, ValueModel)>,
    k: int,
)
    requires
        s is Mapping,
        0 <= k <= entries.len(),
        spec_try_entries(s, tk, tv, fld, tgt, entries.take(k)) is Err,
    ensures
        spec_try_entries(s, tk, tv, fld, tgt, entries) == spec_try_entries(
            s,
            tk,
            tv,
            fld,
            tgt,
            entries.take(k),
        ),
    decreases entries.len(),
{
    if k < entries.len() {
        assert(entries.drop_last().take(k) =~= entries.take(k));
        lemma_try_entries_err_extend(s, tk, tv, fld, tgt, entries.drop_last(), k);
    } else {
        assert(entries.take(k) =~= entries);
    }
}

/// The model of a fallible conversion's outcome.
pub open spec fn res_view(r: Result<Value, String>) -> Result<ValueModel, Seq<char>> {
    match r {
        Ok(v) => Ok(abs_value(v)),
        Err(e) => Err(e@),
    }
}

/// Applies one element conversion in the fallible form; `None` is the
/// element conversion reporting a failure.
fn try_apply_elem(c: &ElemConv, v: &Value) -> (r: Option<Value>)
    ensures
        match r {
            Some(c2) => spec_try_elem(c@, v@) == Some(c2@),
            None => spec_try_elem(c@, v@) is None,
        },
{
    match c {
        ElemConv::Keep => Some(duplicate(v)),
        ElemConv::Wrap(name) => Some(Value::Wrapped(name.clone(), Box::new(duplicate(v)))),
        ElemConv::Unwrap(name) => match v {
            Value::Wrapped(n, inner) => {
                if n.eq(name) {
                    Some(duplicate(inner))
                } else {
                    None
                }
            },
            _ => {
                proof {
                    crate::value::lemma_abs_shape(*v);
                }
                None
            },
        },
    }
}

/// Converts one element of a sequence in the fallible form; the first
/// argument is the surrounding sequence strategy.
fn try_convert_list_item(
    s: &ConversionStrategy,
    t: &ElemTree,
    fld: &str,
    tgt: &str,
    x: &Value,
) -> (r: Result<Value, String>)
    requires
        s is Sequence,
        sem_fits(*s->Sequence_0, t@),
        fits_fallible(*s->Sequence_0, t@, x@),
    ensures
        res_view(r) == spec_try_convert(*s->Sequence_0, t@, fld@, tgt@, x@),
    decreases *s, *x,
{
    match s {
        ConversionStrategy::Sequence(inner) => try_convert_value(inner, t, fld, tgt, x),
        _ => {
            proof {
                assert(false);
            }
            Ok(Value::Opt(None))
        },
    }
}

/// Converts every element of a sequence in order, stopping at the first
/// failure.
fn try_convert_list(
    s: &ConversionStrategy,
    t: &ElemTree,
    fld: &str,
    tgt: &str,
    items: &Vec<Value>,
) -> (r: Result<Vec<Value>, String>)
    requires
        s is Sequence,
        sem_fits(*s->Sequence_0, t@),
        forall|j: int|
            0 <= j < items@.len() ==> fits_fallible(
                *s->Sequence_0,
                t@,
                abs_value(#[trigger] items@[j]),
            ),
    ensures
        match r {
            Ok(out) => spec_try_elems(*s, t@, fld@, tgt@, abs_elems(items@)) == Ok::<
                Seq<ValueModel>,
                Seq<char>,
            >(abs_elems(out@)),
            Err(e) => spec_try_elems(*s, t@, fld@, tgt@, abs_elems(items@)) == Err::<
                Seq<ValueModel>,
                Seq<char>,
            >(e@),
        },
    decreases *s, *items,
{
    let n = items.len();
    let ghost ms = abs_elems(items@);
    proof {
        lemma_abs_elems(items@);
        assert(ms.take(0) =~= Seq::<ValueModel>::empty());
    }
    let mut out: Vec<Value> = Vec::new();
    let mut i: usize = 0;
    while i < n
        invariant
            n == items@.len(),
            i <= n,
            s is Sequence,
            sem_fits(*s->Sequence_0, t@),
            ms == abs_elems(items@),
            ms.len() == n,
            forall|j: int| 0 <= j < n ==> #[trigger] ms[j] == abs_value(items@[j]),
            forall|j: int|
                0 <= j < n ==> fits_fallible(*s->Sequence_0, t@, abs_value(#[trigger] items@[j])),
            spec_try_elems(*s, t@, fld@, tgt@, ms.take(i as int)) == Ok::<
                Seq<ValueModel>,
                Seq<char>,
            >(abs_elems(out@)),
        decreases n - i,
    {
        proof {
            assert(ms.take(i + 1).drop_last() =~= ms.take(i as int));
            assert(ms.take(i + 1).last() == ms[i as int]);
        }
        match try_convert_list_item(s, t, fld, tgt, &items[i]) {
            Ok(c) => {
                let ghost outpre = abs_elems(out@);
                let ghost oldvec = out@;
                let ghost cm = c@;
                out.push(c);
                proof {
                    lemma_abs_elems(oldvec);
                    lemma_abs_elems(out@);
                    assert forall|j: int| 0 <= j <= oldvec.len() implies abs_elems(out@)[j]
                        == outpre.push(cm)[j] by {
                        if j < oldvec.len() {
                            assert(out@[j] == oldvec[j]);
                        } else {
                            assert(out@[j] == c);
                        }
                    }
                    assert(abs_elems(out@) =~= outpre.push(cm));
                }
            },
            Err(e) => {
                proof {
                    assert(spec_try_elems(*s, t@, fld@, tgt@, ms.take(i + 1)) == Err::<
                        Seq<ValueModel>,
                        Seq<char>,
                    >(e@));
                    lemma_try_elems_err_extend(*s, t@, fld@, tgt@, ms, i + 1);
                }
                return Err(e);
            },
        }
        i += 1;
    }
    proof {
        assert(ms.take(n as int) =~= ms);
    }
    Ok(out)
}

/// Converts one entry of a mapping in the fallible form; the first
/// argument is the surrounding mapping strategy. A key failure and a
/// value failure are labelled apart.
fn try_convert_entry(
    s: &ConversionStrategy,
    tk: &ElemTree,
    tv: &ElemTree,
    fld: &str,
    tgt: &str,
    e: &(Value, Value),
) -> (r: Result<(Value, Value), String>)
    requires
        s is Mapping,
        sem_fits(*s->Mapping_0, tk@),
        sem_fits(*s->Mapping_1, tv@),
        fits_fallible(*s->Mapping_0, tk@, e.0@),
        fits_fallible(*s->Mapping_1, tv@, e.1@),
    ensures
        match r {
            Ok(c) => spec_try_convert(*s->Mapping_0, tk@, fld@, tgt@, e.0@) == Ok::<
                ValueModel,
                Seq<char>,
            >(c.0@) && spec_try_convert(*s->Mapping_1, tv@, fld@, tgt@, e.1@) == Ok::<
                ValueModel,
                Seq<char>,
            >(c.1@),
            Err(err) => {
                ||| {
                    &&& spec_try_convert(*s->Mapping_0, tk@, fld@, tgt@, e.0@) matches Err(ke)
                    &&& err@ == key_fail_msg(fld@, ke)
                }
                ||| {
                    &&& spec_try_convert(*s->Mapping_0, tk@, fld@, tgt@, e.0@) is Ok
                    &&& spec_try_convert(*s->Mapping_1, tv@, fld@, tgt@, e.1@) matches Err(ve)
                    &&& err@ == value_fail_msg(fld@, ve)
                }
            },
        },
    decreases *s, *e,
{
    match s {
        ConversionStrategy::Mapping(key, value) => {
            match try_convert_value(key, tk, fld, tgt, &e.0) {
                Ok(ck) => match try_convert_value(value, tv, fld, tgt, &e.1) {
                    Ok(cv) => Ok((ck, cv)),
                    Err(err) => Err(value_fail_message(fld, err.as_str())),
                },
                Err(err) => Err(key_fail_message(fld, err.as_str())),
            }
        },
        _ => {
            proof {
                assert(false);
            }
            Ok((Value::Opt(None), Value::Opt(None)))
        },
    }
}

/// Converts every entry of a mapping, stopping at the first key or value
/// failure; converted entries are written back in under the mapping
/// discipline.
fn try_convert_entry_list(
    s: &ConversionStrategy,
    tk: &ElemTree,
    tv: &ElemTree,
    fld: &str,
    tgt: &str,
    entries: &Vec<(Value, Value)>,
) -> (r: Result<Vec<(Value, Value)>, String>)
    requires
        s is Mapping,
        sem_fits(*s->Mapping_0, tk@),
        sem_fits(*s->Mapping_1, tv@),
        forall|j: int|
            0 <= j < entries@.len() ==> fits_fallible(
                *s->Mapping_0,
                tk@,
                abs_value((#[trigger] entries@[j]).0),
            ) && fits_fallible(*s->Mapping_1, tv@, abs_value(entries@[j].1)),
    ensures
        match r {
            Ok(out) => spec_try_entries(*s, tk@, tv@, fld@, tgt@, abs_entries(entries@)) matches Ok(
                cs,
            ) && abs_entries(out@) == entries_dedup(cs),
            Err(e) => spec_try_entries(*s, tk@, tv@, fld@, tgt@, abs_entries(entries@)) == Err::<
                Seq<(ValueModel, ValueModel)>,
                Seq<char>,
            >(e@),
        },
    decreases *s, *entries,
{
    let n = entries.len();
    let ghost ms = abs_entries(entries@);
    proof {
        lemma_abs_entries(entries@);
        assert(ms.take(0) =~= Seq::<(ValueModel, ValueModel)>::empty());
    }
    let mut out: Vec<(Value, Value)> = Vec::new();
    let ghost mut converted: Seq<(ValueModel, ValueModel)> = Seq::empty();
    let mut i: usize = 0;
    proof {
        assert(entries_dedup(converted) =~= abs_entries(out@));
    }
    while i < n
        invariant
            n == entries@.len(),
            i <= n,
            s is Mapping,
            sem_fits(*s->Mapping_0, tk@),
            sem_fits(*s->Mapping_1, tv@),
            ms == abs_entries(entries@),
            ms.len() == n,
            forall|j: int|
                0 <= j < n ==> #[trigger] ms[j] == (
                    abs_value(entries@[j].0),
                    abs_value(entries@[j].1),
                ),
            forall|j: int|
                0 <= j < n ==> fits_fallible(
                    *s->Mapping_0,
                    tk@,
                    abs_value((#[trigger] entries@[j]).0),
                ) && fits_fallible(*s->Mapping_1, tv@, abs_value(entries@[j].1)),
            spec_try_entries(*s, tk@, tv@, fld@, tgt@, ms.take(i as int)) == Ok::<
                Seq<(ValueModel, ValueModel)>,
                Seq<char>,
            >(converted),
            abs_entries(out@) == entries_dedup(converted),
        decreases n - i,
    {
        proof {
            assert(ms.take(i + 1).drop_last() =~= ms.take(i as int));
            assert(ms.take(i + 1).last() == ms[i as int]);
        }
        match try_convert_entry(s, tk, tv, fld, tgt, &entries[i]) {
            Ok(c) => {
                let (ck, cv) = c;
                let ghost ckm = ck@;
                let ghost cvm = cv@;
                proof {
                    assert(spec_try_entries(*s, tk@, tv@, fld@, tgt@, ms.take(i + 1)) == Ok::<
                        Seq<(ValueModel, ValueModel)>,
                        Seq<char>,
                    >(converted.push((ckm, cvm))));
                }
                entries_put_exec(&mut out, ck, cv);
                proof {
                    let stepped = converted.push((ckm, cvm));
                    assert(stepped.drop_last() =~= converted);
                    assert(stepped.last() == (ckm, cvm));
                    assert(entries_dedup(stepped) == entries_put(entries_dedup(converted), ckm, cvm));
                    converted = stepped;
                }
                i += 1;
            },
            Err(e) => {
                proof {
                    assert(spec_try_entries(*s, tk@, tv@, fld@, tgt@, ms.take(i + 1)) is Err);
                    lemma_try_entries_err_extend(*s, tk@, tv@, fld@, tgt@, ms, i + 1);
                }
                return Err(e);
            },
        }
    }
    proof {
        assert(ms.take(n as int) =~= ms);
    }
    Ok(out)
}

/// Carries one value through a strategy in the fallible form the
/// `try_into`/`try_from` routines use. `fld` names the field converted,
/// `tgt` the type converted into; both go into any failure text.
pub fn try_convert_value(
    s: &ConversionStrategy,
    em: &ElemTree,
    fld: &str,
    tgt: &str,
    v: &Value,
) -> (r: Result<Value, String>)
    requires
        sem_fits(*s, em@),
        fits_fallible(*s, em@, v@),
    ensures
        res_view(r) == spec_try_convert(*s, em@, fld@, tgt@, v@),
    decreases *s, *v,
{
    proof {
        crate::value::lemma_abs_shape(*v);
    }
    match s {
        ConversionStrategy::Plain => match em {
            ElemTree::Leaf(conv, _) => match try_apply_elem(conv, v) {
                Some(c) => Ok(c),
                None => Err(failed_message(fld, tgt, "invalid value")),
            },
            _ => {
                proof {
                    assert(false);
                }
                Ok(Value::Opt(None))
            },
        },
        ConversionStrategy::Optional(inner) => match (em, v) {
            (ElemTree::Inner(t), Value::Opt(o)) => match o {
                Some(x) => match try_convert_value(inner, t, fld, tgt, x) {
                    Ok(c) => Ok(Value::Opt(Some(Box::new(c)))),
                    Err(e) => Err(e),
                },
                None => Ok(Value::Opt(None)),
            },
            _ => {
                proof {
                    assert(false);
                }
                Ok(Value::Opt(None))
            },
        },
        ConversionStrategy::Sequence(_) => match (em, v) {
            (ElemTree::Inner(t), Value::List(items)) => {
                proof {
                    lemma_abs_elems(items@);
                }
                match try_convert_list(s, t, fld, tgt, items) {
                    Ok(out) => Ok(Value::List(out)),
                    Err(e) => Err(e),
                }
            },
            _ => {
                proof {
                    assert(false);
                }
                Ok(Value::Opt(None))
            },
        },
        ConversionStrategy::Mapping(_, _) => match (em, v) {
            (ElemTree::Pair(tk, tv), Value::Entries(entries)) => {
                proof {
                    lemma_abs_entries(entries@);
                }
                match try_convert_entry_list(s, tk, tv, fld, tgt, entries) {
                    Ok(out) => Ok(Value::Entries(out)),
                    Err(e) => Err(e),
                }
            },
            _ => {
                proof {
                    assert(false);
                }
                Ok(Value::Opt(None))
            },
        },
        ConversionStrategy::UnwrapOptional(inner) => match (em, v) {
            (ElemTree::Inner(t), Value::Opt(o)) => match o {
                Some(x) => try_convert_value(inner, t, fld, tgt, x),
                None => Err(failed_message(fld, tgt, "None value")),
            },
            _ => {
                proof {
                    assert(false);
                }
                Ok(Value::Opt(None))
            },
        },
        ConversionStrategy::UnwrapOrDefault(inner) => match (em, v) {
            (ElemTree::Inner(t), Value::Opt(o)) => match o {
                Some(x) => try_convert_value(inner, t, fld, tgt, x),
                None => {
                    let z = zero_value(inner, t);
                    try_convert_value(inner, t, fld, tgt, &z)
                },
            },
            _ => {
                proof {
                    assert(false);
                }
                Ok(Value::Opt(None))
            },
        },
        ConversionStrategy::WrapSome(inner) => match em {
            ElemTree::Inner(t) => match try_convert_value(inner, t, fld, tgt, v) {
                Ok(c) => Ok(Value::Opt(Some(Box::new(c)))),
                Err(e) => Err(e),
            },
            _ => {
                proof {
                    assert(false);
                }
                Ok(Value::Opt(None))
            },
        },
    }
}

} // verus!
