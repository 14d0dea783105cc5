//! The laws the conversion engine obeys, stated once and proved against
//! the same spec functions the interpreters are verified against.

use vstd::prelude::*;
use crate::convert::{ElemConvModel, ElemTreeModel, elem_fits, sem_fits, spec_apply_elem,
    spec_convert, spec_convert_elems, spec_convert_entries, entries_dedup, key_index,
    lemma_convert_elems, lemma_convert_entries, lemma_key_index, fits_infallible, spec_zero};
use crate::fallible::{spec_try_convert, spec_try_elem, spec_try_elems, spec_try_entries};
use crate::message::failed_msg;
use crate::runner::{spec_run_struct_try, spec_run_enum_try, spec_run_struct, spec_run_fields,
    spec_run_fields_try, spec_run_field, spec_run_field_try, record_lookup, FieldEnvModel};
use crate::strategy::{ConversionStrategy, container_only};
use crate::value::{ValueModel, wf_model};

verus! {

broadcast use vstd::seq::axiom_seq_index_decreases, vstd::seq::axiom_seq_subrange_decreases;

/// Shape fidelity, empty case: an optional sequence that is absent stays
/// absent.
pub proof fn lemma_optional_sequence_none(inner: ConversionStrategy, t: ElemTreeModel)
    ensures
        spec_convert(
            ConversionStrategy::Optional(
                Box::new(ConversionStrategy::Sequence(Box::new(inner))),
            ),
            ElemTreeModel::Inner(Box::new(ElemTreeModel::Inner(Box::new(t)))),
            ValueModel::Opt(None),
        ) == ValueModel::Opt(None),
{
}

/// Shape fidelity, present case: an optional sequence that is present
/// stays present, keeps its length, and converts its elements in order.
pub proof fn lemma_optional_sequence_some(
    inner: ConversionStrategy,
    t: ElemTreeModel,
    items: Seq<ValueModel>,
)
    ensures
        spec_convert(
            ConversionStrategy::Optional(
                Box::new(ConversionStrategy::Sequence(Box::new(inner))),
            ),
            ElemTreeModel::Inner(Box::new(ElemTreeModel::Inner(Box::new(t)))),
            ValueModel::Opt(Some(Box::new(ValueModel::List(items)))),
        ) == ValueModel::Opt(
            Some(
                Box::new(
                    ValueModel::List(
                        Seq::new(items.len(), |i: int| spec_convert(inner, t, items[i])),
                    ),
                ),
            ),
        ),
{
    let seq_strategy = ConversionStrategy::Sequence(Box::new(inner));
    lemma_convert_elems(seq_strategy, t, items);
    assert(spec_convert_elems(seq_strategy, t, items) =~= Seq::new(
        items.len(),
        |i: int| spec_convert(inner, t, items[i]),
    ));
    let em_inner = ElemTreeModel::Inner(Box::new(t));
    assert(spec_convert(seq_strategy, em_inner, ValueModel::List(items)) == ValueModel::List(
        spec_convert_elems(seq_strategy, t, items),
    ));
}

/// Replaying an entry list whose keys are pairwise distinct changes
/// nothing.
pub proof fn lemma_dedup_distinct(entries: Seq<(ValueModel, ValueModel)>)
    requires
        forall|i: int, j: int|
            0 <= i < entries.len() && 0 <= j < entries.len() && i != j ==> (
            #[trigger] entries[i]).0 != (#[trigger] entries[j]).0,
    ensures
        entries_dedup(entries) == entries,
    decreases entries,
{
    if entries.len() > 0 {
        let pre = entries.drop_last();
        assert(forall|i: int, j: int|
            0 <= i < pre.len() && 0 <= j < pre.len() && i != j ==> (#[trigger] pre[i]).0 != (
            #[trigger] pre[j]).0) by {
            assert(forall|i: int| 0 <= i < pre.len() ==> #[trigger] pre[i] == entries[i]);
        }
        lemma_dedup_distinct(pre);
        lemma_key_index(pre, entries.last().0);
        if key_index(pre, entries.last().0) >= 0 {
            let ki = key_index(pre, entries.last().0);
            assert(pre[ki] == entries[ki]);
            assert(entries[ki].0 == entries.last().0);
            assert(entries.last() == entries[entries.len() - 1]);
        }
        assert(entries_dedup(entries) == pre.push(entries.last()));
        assert(pre.push(entries.last()) =~= entries);
    }
}

/// Mapping conversion: when the converted keys do not collide, every
/// entry of the source appears, under converted key and value, at its
/// own position in the target, and the number of entries is kept.
pub proof fn lemma_mapping_conversion(
    key: ConversionStrategy,
    value: ConversionStrategy,
    tk: ElemTreeModel,
    tv: ElemTreeModel,
    entries: Seq<(ValueModel, ValueModel)>,
)
    requires
        forall|i: int, j: int|
            0 <= i < entries.len() && 0 <= j < entries.len() && i != j ==> spec_convert(
                key,
                tk,
                (#[trigger] entries[i]).0,
            ) != spec_convert(key, tk, (#[trigger] entries[j]).0),
    ensures
        spec_convert(
            ConversionStrategy::Mapping(Box::new(key), Box::new(value)),
            ElemTreeModel::Pair(Box::new(tk), Box::new(tv)),
            ValueModel::Entries(entries),
        ) == ValueModel::Entries(
            Seq::new(
                entries.len(),
                |i: int| (spec_convert(key, tk, entries[i].0), spec_convert(value, tv, entries[i].1)),
            ),
        ),
{
    let s = ConversionStrategy::Mapping(Box::new(key), Box::new(value));
    lemma_convert_entries(s, tk, tv, entries);
    let cs = spec_convert_entries(s, tk, tv, entries);
    assert(cs =~= Seq::new(
        entries.len(),
        |i: int| (spec_convert(key, tk, entries[i].0), spec_convert(value, tv, entries[i].1)),
    ));
    assert(forall|i: int, j: int|
        0 <= i < cs.len() && 0 <= j < cs.len() && i != j ==> (#[trigger] cs[i]).0 != (
        #[trigger] cs[j]).0);
    lemma_dedup_distinct(cs);
}

/// Unwrap failure: an absent optional under `unwrap`, in the fallible
/// form, fails with the text naming the field and the target type.
pub proof fn lemma_unwrap_missing(
    inner: ConversionStrategy,
    t: ElemTreeModel,
    fld: Seq<char>,
    tgt: Seq<char>,
)
    ensures
        spec_try_convert(
            ConversionStrategy::UnwrapOptional(Box::new(inner)),
            ElemTreeModel::Inner(Box::new(t)),
            fld,
            tgt,
            ValueModel::Opt(None),
        ) == Err::<ValueModel, Seq<char>>(failed_msg(fld, tgt, "None value"@)),
{
}

/// Unwrap-or-default: an absent optional under `unwrap_or_default`
/// succeeds exactly as the contained type's zero value does, in both
/// forms.
pub proof fn lemma_unwrap_or_default_empty(
    inner: ConversionStrategy,
    t: ElemTreeModel,
    fld: Seq<char>,
    tgt: Seq<char>,
)
    ensures
        spec_try_convert(
            ConversionStrategy::UnwrapOrDefault(Box::new(inner)),
            ElemTreeModel::Inner(Box::new(t)),
            fld,
            tgt,
            ValueModel::Opt(None),
        ) == spec_try_convert(inner, t, fld, tgt, spec_zero(inner, t)),
        spec_convert(
            ConversionStrategy::UnwrapOrDefault(Box::new(inner)),
            ElemTreeModel::Inner(Box::new(t)),
            ValueModel::Opt(None),
        ) == spec_convert(inner, t, spec_zero(inner, t)),
{
}

/// Validation gating: a hook that reports failure prevents the target
/// from being built at all; the routine fails with exactly the uniform
/// text over the source type, the target type and the hook's error.
pub proof fn lemma_validation_gates_struct(
    rm: crate::routine::RoutineModel,
    rec: Seq<(crate::field::FieldIdModel, ValueModel)>,
    envs: Seq<FieldEnvModel>,
    e: Seq<char>,
)
    requires
        rm.meta.validate is Some,
    ensures
        spec_run_struct_try(rm, rec, envs, Some(Err(e))) == Err::<
            Seq<(crate::field::FieldIdModel, ValueModel)>,
            Seq<char>,
        >(failed_msg(rm.meta.source_name, rm.meta.target_name, e)),
{
}

/// Validation gating for enums: the hook runs once, against the whole
/// source value, before any arm is entered.
pub proof fn lemma_validation_gates_enum(
    rm: crate::routine::RoutineModel,
    value: crate::runner::EnumValueModel,
    envs: Seq<FieldEnvModel>,
    e: Seq<char>,
)
    requires
        rm.meta.validate is Some,
    ensures
        spec_run_enum_try(rm, value, envs, Some(Err(e))) == Err::<
            crate::runner::EnumValueModel,
            Seq<char>,
        >(failed_msg(rm.meta.source_name, rm.meta.target_name, e)),
{
}

/// Two element conversions that undo one another.
pub open spec fn inverse_conv(c1: ElemConvModel, c2: ElemConvModel) -> bool {
    match (c1, c2) {
        (ElemConvModel::Keep, ElemConvModel::Keep) => true,
        (ElemConvModel::Wrap(n), ElemConvModel::Unwrap(m)) => n == m,
        (ElemConvModel::Unwrap(n), ElemConvModel::Wrap(m)) => n == m,
        _ => false,
    }
}

/// Two element-conversion trees whose leaves undo one another.
pub open spec fn inverse_trees(t1: ElemTreeModel, t2: ElemTreeModel) -> bool
    decreases t1,
{
    match (t1, t2) {
        (ElemTreeModel::Leaf(c1, _), ElemTreeModel::Leaf(c2, _)) => inverse_conv(c1, c2),
        (ElemTreeModel::Inner(a), ElemTreeModel::Inner(b)) => inverse_trees(*a, *b),
        (ElemTreeModel::Pair(a, b), ElemTreeModel::Pair(c, d)) => inverse_trees(*a, *c)
            && inverse_trees(*b, *d),
        _ => false,
    }
}

/// An element conversion undone by its inverse gives the element back.
proof fn lemma_elem_round_trip(c1: ElemConvModel, c2: ElemConvModel, v: ValueModel)
    requires
        inverse_conv(c1, c2),
        elem_fits(c1, v),
    ensures
        spec_try_elem(c2, spec_apply_elem(c1, v)) == Some(v),
{
    match (c1, c2) {
        (ElemConvModel::Wrap(n), ElemConvModel::Unwrap(_)) => {},
        (ElemConvModel::Unwrap(_), ElemConvModel::Wrap(n)) => {
            assert(v matches ValueModel::Wrapped(nv, inner) && spec_apply_elem(c1, v) == *inner);
        },
        _ => {},
    }
}

/// Round-trip: a value carried through a container-only strategy by one
/// set of element conversions, then back through the same strategy by the
/// inverse set in the fallible form, comes back unchanged.
pub proof fn lemma_round_trip(
    s: ConversionStrategy,
    em1: ElemTreeModel,
    em2: ElemTreeModel,
    fld: Seq<char>,
    tgt: Seq<char>,
    v: ValueModel,
)
    requires
        container_only(s),
        inverse_trees(em1, em2),
        fits_infallible(s, em1, v),
        wf_model(v),
    ensures
        spec_try_convert(s, em2, fld, tgt, spec_convert(s, em1, v)) == Ok::<ValueModel, Seq<char>>(
            v,
        ),
    decreases s, v,
{
    match s {
        ConversionStrategy::Plain => {
            match (em1, em2) {
                (ElemTreeModel::Leaf(c1, _), ElemTreeModel::Leaf(c2, _)) => {
                    lemma_elem_round_trip(c1, c2, v);
                },
                _ => {},
            }
        },
        ConversionStrategy::Optional(inner) => {
            match (em1, em2) {
                (ElemTreeModel::Inner(a), ElemTreeModel::Inner(b)) => {
                    match v {
                        ValueModel::Opt(o) => match o {
                            Some(x) => {
                                lemma_round_trip(*inner, *a, *b, fld, tgt, *x);
                            },
                            None => {},
                        },
                        _ => {},
                    }
                },
                _ => {},
            }
        },
        ConversionStrategy::Sequence(_) => {
            match (em1, em2) {
                (ElemTreeModel::Inner(a), ElemTreeModel::Inner(b)) => {
                    match v {
                        ValueModel::List(items) => {
                            lemma_round_trip_elems(s, *a, *b, fld, tgt, items);
                        },
                        _ => {},
                    }
                },
                _ => {},
            }
        },
        ConversionStrategy::Mapping(key, _) => {
            match (em1, em2) {
                (ElemTreeModel::Pair(a1, b1), ElemTreeModel::Pair(a2, b2)) => {
                    match v {
                        ValueModel::Entries(entries) => {
                            let cs = spec_convert_entries(s, *a1, *b1, entries);
                            lemma_convert_entries(s, *a1, *b1, entries);
                            assert forall|i: int, j: int|
                                0 <= i < cs.len() && 0 <= j < cs.len() && i != j implies (
                            #[trigger] cs[i]).0 != (#[trigger] cs[j]).0 by {
                                lemma_round_trip(*key, *a1, *a2, fld, tgt, entries[i].0);
                                lemma_round_trip(*key, *a1, *a2, fld, tgt, entries[j].0);
                                assert(cs[i].0 == spec_convert(*key, *a1, entries[i].0));
                                assert(cs[j].0 == spec_convert(*key, *a1, entries[j].0));
                                if cs[i].0 == cs[j].0 {
                                    assert(entries[i].0 == entries[j].0);
                                }
                            }
                            lemma_dedup_distinct(cs);
                            lemma_round_trip_entries(s, *a1, *b1, *a2, *b2, fld, tgt, entries);
                            assert forall|i: int, j: int|
                                0 <= i < entries.len() && 0 <= j < entries.len() && i != j implies (
                            #[trigger] entries[i]).0 != (#[trigger] entries[j]).0 by {}
                            lemma_dedup_distinct(entries);
                        },
                        _ => {},
                    }
                },
                _ => {},
            }
        },
        _ => {},
    }
}

/// Round-trip over a sequence's elements, elementwise.
proof fn lemma_round_trip_elems(
    s: ConversionStrategy,
    t1: ElemTreeModel,
    t2: ElemTreeModel,
    fld: Seq<char>,
    tgt: Seq<char>,
    items: Seq<ValueModel>,
)
    requires
        s is Sequence,
        container_only(s),
        inverse_trees(t1, t2),
        forall|i: int|
            0 <= i < items.len() ==> fits_infallible(
                *s->Sequence_0,
                t1,
                #[trigger] items[i],
            ),
        forall|i: int| 0 <= i < items.len() ==> wf_model(#[trigger] items[i]),
    ensures
        spec_try_elems(s, t2, fld, tgt, spec_convert_elems(s, t1, items)) == Ok::<
            Seq<ValueModel>,
            Seq<char>,
        >(items),
    decreases s, items,
{
    if items.len() > 0 {
        let pre = items.drop_last();
        assert(forall|i: int| 0 <= i < pre.len() ==> #[trigger] pre[i] == items[i]);
        lemma_round_trip_elems(s, t1, t2, fld, tgt, pre);
        lemma_round_trip(*s->Sequence_0, t1, t2, fld, tgt, items.last());
        let cs = spec_convert_elems(s, t1, items);
        assert(cs == spec_convert_elems(s, t1, pre).push(
            spec_convert(*s->Sequence_0, t1, items.last()),
        ));
        assert(cs.drop_last() =~= spec_convert_elems(s, t1, pre));
        assert(cs.last() == spec_convert(*s->Sequence_0, t1, items.last()));
        assert(items.last() == items[items.len() - 1]);
        assert(pre.push(items.last()) =~= items);
        assert(spec_try_elems(s, t2, fld, tgt, cs) == Ok::<Seq<ValueModel>, Seq<char>>(
            pre.push(items.last()),
        ));
    } else {
        assert(spec_convert_elems(s, t1, items) =~= Seq::<ValueModel>::empty());
        assert(items =~= Seq::<ValueModel>::empty());
    }
}

/// Round-trip over a mapping's entries, entry by entry.
proof fn lemma_round_trip_entries(
    s: ConversionStrategy,
    tk1: ElemTreeModel,
    tv1: ElemTreeModel,
    tk2: ElemTreeModel,
    tv2: ElemTreeModel,
    fld: Seq<char>,
    tgt: Seq<char>,
    entries: Seq<(ValueModel, ValueModel)>,
)
    requires
        s is Mapping,
        container_only(s),
        inverse_trees(tk1, tk2),
        inverse_trees(tv1, tv2),
        forall|i: int|
            0 <= i < entries.len() ==> fits_infallible(
                *s->Mapping_0,
                tk1,
                (#[trigger] entries[i]).0,
            ) && fits_infallible(*s->Mapping_1, tv1, entries[i].1),
        forall|i: int|
            0 <= i < entries.len() ==> wf_model((#[trigger] entries[i]).0) && wf_model(
                entries[i].1,
            ),
    ensures
        spec_try_entries(s, tk2, tv2, fld, tgt, spec_convert_entries(s, tk1, tv1, entries)) == Ok::<
            Seq<(ValueModel, ValueModel)>,
            Seq<char>,
        >(entries),
    decreases s, entries,
{
    if entries.len() > 0 {
        let pre = entries.drop_last();
        assert(forall|i: int| 0 <= i < pre.len() ==> #[trigger] pre[i] == entries[i]);
        lemma_round_trip_entries(s, tk1, tv1, tk2, tv2, fld, tgt, pre);
        lemma_round_trip(*s->Mapping_0, tk1, tk2, fld, tgt, entries.last().0);
        lemma_round_trip(*s->Mapping_1, tv1, tv2, fld, tgt, entries.last().1);
        let cs = spec_convert_entries(s, tk1, tv1, entries);
        assert(cs == spec_convert_entries(s, tk1, tv1, pre).push(
            (
                spec_convert(*s->Mapping_0, tk1, entries.last().0),
                spec_convert(*s->Mapping_1, tv1, entries.last().1),
            ),
        ));
        assert(cs.drop_last() =~= spec_convert_entries(s, tk1, tv1, pre));
        assert(entries.last() == entries[entries.len() - 1]);
        assert(pre.push(entries.last()) =~= entries);
        assert(cs.last() == (
            spec_convert(*s->Mapping_0, tk1, entries.last().0),
            spec_convert(*s->Mapping_1, tv1, entries.last().1),
        ));
        assert(spec_try_entries(s, tk2, tv2, fld, tgt, cs) == Ok::<
            Seq<(ValueModel, ValueModel)>,
            Seq<char>,
        >(pre.push(entries.last())));
    } else {
        assert(spec_convert_entries(s, tk1, tv1, entries) =~= Seq::<
            (ValueModel, ValueModel),
        >::empty());
        assert(entries =~= Seq::<(ValueModel, ValueModel)>::empty());
    }
}

/// Looking a field up in a record finds its own position, when no
/// earlier field carries the same identifier.
proof fn lemma_lookup_positional(rec: Seq<(crate::field::FieldIdModel, ValueModel)>, i: int)
    requires
        0 <= i < rec.len(),
        forall|j: int| 0 <= j < i ==> (#[trigger] rec[j]).0 != rec[i].0,
    ensures
        record_lookup(rec, rec[i].0) == Some(rec[i].1),
    decreases rec,
{
    if i > 0 {
        assert(rec[0].0 != rec[i].0);
        assert(rec.first() == rec[0]);
        lemma_lookup_positional(rec.drop_first(), i - 1);
        assert(forall|j: int| 1 <= j < rec.len() ==> #[trigger] rec[j] == rec.drop_first()[j - 1]);
    }
}

/// `spec_run_fields` builds the target record field by field.
proof fn lemma_run_fields_index(
    fields: Seq<crate::field::ConvertibleFieldModel>,
    envs: Seq<FieldEnvModel>,
    rec: Seq<(crate::field::FieldIdModel, ValueModel)>,
)
    requires
        fields.len() == envs.len(),
    ensures
        spec_run_fields(fields, envs, rec).len() == fields.len(),
        forall|i: int|
            0 <= i < fields.len() ==> spec_run_fields(fields, envs, rec)[i] == spec_run_field(
                #[trigger] fields[i],
                envs[i],
                rec,
            ),
    decreases fields,
{
    if fields.len() > 0 {
        lemma_run_fields_index(fields.drop_last(), envs.drop_last(), rec);
        assert forall|i: int| 0 <= i < fields.len() implies spec_run_fields(fields, envs, rec)[i]
            == spec_run_field(#[trigger] fields[i], envs[i], rec) by {
            if i < fields.len() - 1 {
                assert(fields.drop_last()[i] == fields[i]);
                assert(envs.drop_last()[i] == envs[i]);
                assert(spec_run_fields(fields, envs, rec)[i] == spec_run_fields(
                    fields.drop_last(),
                    envs.drop_last(),
                    rec,
                )[i]);
            } else {
                assert(fields.last() == fields[i]);
                assert(envs.last() == envs[i]);
            }
        }
    }
}

/// Round-trip for a whole struct conversion: a record carried through an
/// infallible routine and then through its converse fallible routine —
/// the same fields under swapped names, the same container-only
/// strategies, inverse element conversions — comes back exactly as it
/// was. Zero-filled fields, custom functions and validation hooks are
/// outside the premise: the first two disconnect a field from the source,
/// and a hook belongs to one direction alone.
pub proof fn lemma_struct_round_trip(
    there: crate::routine::RoutineModel,
    back: crate::routine::RoutineModel,
    envs1: Seq<FieldEnvModel>,
    envs2: Seq<FieldEnvModel>,
    x: Seq<(crate::field::FieldIdModel, ValueModel)>,
)
    requires
        there.body is Struct,
        back.body is Struct,
        back.meta.validate is None,
        there.body->Struct_fields.len() == x.len(),
        back.body->Struct_fields.len() == x.len(),
        envs1.len() == x.len(),
        envs2.len() == x.len(),
        forall|i: int|
            0 <= i < x.len() ==> {
                let f1 = there.body->Struct_fields[i];
                let f2 = #[trigger] back.body->Struct_fields[i];
                &&& f2.source_name == f1.target_name
                &&& f2.target_name == f1.source_name
                &&& f2.strategy == f1.strategy
                &&& !f1.default
                &&& f1.conversion_func is None
                &&& !f2.default
                &&& f2.conversion_func is None
            },
        forall|i: int|
            0 <= i < x.len() ==> container_only(
                (#[trigger] there.body->Struct_fields[i]).strategy,
            ),
        forall|i: int|
            0 <= i < x.len() ==> inverse_trees(
                (#[trigger] envs1[i]).elems,
                envs2[i].elems,
            ),
        forall|i: int| 0 <= i < x.len() ==> (#[trigger] x[i]).0 == there.body->Struct_fields[i].source_name,
        forall|i: int, j: int|
            0 <= i < x.len() && 0 <= j < x.len() && i != j ==> (
            #[trigger] there.body->Struct_fields[i]).source_name != (
            #[trigger] there.body->Struct_fields[j]).source_name,
        forall|i: int, j: int|
            0 <= i < x.len() && 0 <= j < x.len() && i != j ==> (
            #[trigger] there.body->Struct_fields[i]).target_name != (
            #[trigger] there.body->Struct_fields[j]).target_name,
        forall|i: int|
            0 <= i < x.len() ==> fits_infallible(
                (#[trigger] there.body->Struct_fields[i]).strategy,
                envs1[i].elems,
                x[i].1,
            ) && wf_model(x[i].1),
    ensures
        spec_run_struct_try(back, spec_run_struct(there, x, envs1), envs2, None) == Ok::<
            Seq<(crate::field::FieldIdModel, ValueModel)>,
            Seq<char>,
        >(x),
{
    let f1s = there.body->Struct_fields;
    let f2s = back.body->Struct_fields;
    let n = x.len() as int;
    let y = spec_run_fields(f1s, envs1, x);
    lemma_run_fields_index(f1s, envs1, x);
    assert forall|i: int| 0 <= i < n implies #[trigger] y[i] == (
        f1s[i].target_name,
        spec_convert(f1s[i].strategy, envs1[i].elems, x[i].1),
    ) by {
        assert(!(back.body->Struct_fields[i]).default);
        lemma_lookup_positional(x, i);
        assert(record_lookup(x, f1s[i].source_name) == Some(x[i].1));
        assert(spec_run_fields(f1s, envs1, x)[i] == spec_run_field(f1s[i], envs1[i], x));
    }
    assert forall|k: int| 0 <= k <= n implies spec_run_fields_try(
        f2s.take(k),
        envs2.take(k),
        y,
        back.meta.target_name,
    ) == Ok::<Seq<(crate::field::FieldIdModel, ValueModel)>, Seq<char>>(x.take(k)) by {
        lemma_struct_round_trip_prefix(there, back, envs1, envs2, x, k);
    }
    assert(f2s.take(n) =~= f2s);
    assert(envs2.take(n) =~= envs2);
    assert(x.take(n) =~= x);
}

/// The inductive step of the struct round-trip, over a prefix of the
/// routine's fields.
proof fn lemma_struct_round_trip_prefix(
    there: crate::routine::RoutineModel,
    back: crate::routine::RoutineModel,
    envs1: Seq<FieldEnvModel>,
    envs2: Seq<FieldEnvModel>,
    x: Seq<(crate::field::FieldIdModel, ValueModel)>,
    k: int,
)
    requires
        0 <= k <= x.len(),
        there.body is Struct,
        back.body is Struct,
        there.body->Struct_fields.len() == x.len(),
        back.body->Struct_fields.len() == x.len(),
        envs1.len() == x.len(),
        envs2.len() == x.len(),
        forall|i: int|
            0 <= i < x.len() ==> {
                let f1 = there.body->Struct_fields[i];
                let f2 = #[trigger] back.body->Struct_fields[i];
                &&& f2.source_name == f1.target_name
                &&& f2.target_name == f1.source_name
                &&& f2.strategy == f1.strategy
                &&& !f1.default
                &&& f1.conversion_func is None
                &&& !f2.default
                &&& f2.conversion_func is None
            },
        forall|i: int|
            0 <= i < x.len() ==> container_only(
                (#[trigger] there.body->Struct_fields[i]).strategy,
            ),
        forall|i: int|
            0 <= i < x.len() ==> inverse_trees(
                (#[trigger] envs1[i]).elems,
                envs2[i].elems,
            ),
        forall|i: int| 0 <= i < x.len() ==> (#[trigger] x[i]).0 == there.body->Struct_fields[i].source_name,
        forall|i: int, j: int|
            0 <= i < x.len() && 0 <= j < x.len() && i != j ==> (
            #[trigger] there.body->Struct_fields[i]).source_name != (
            #[trigger] there.body->Struct_fields[j]).source_name,
        forall|i: int, j: int|
            0 <= i < x.len() && 0 <= j < x.len() && i != j ==> (
            #[trigger] there.body->Struct_fields[i]).target_name != (
            #[trigger] there.body->Struct_fields[j]).target_name,
        forall|i: int|
            0 <= i < x.len() ==> fits_infallible(
                (#[trigger] there.body->Struct_fields[i]).strategy,
                envs1[i].elems,
                x[i].1,
            ) && wf_model(x[i].1),
    ensures
        spec_run_fields_try(
            back.body->Struct_fields.take(k),
            envs2.take(k),
            spec_run_fields(there.body->Struct_fields, envs1, x),
            back.meta.target_name,
        ) == Ok::<Seq<(crate::field::FieldIdModel, ValueModel)>, Seq<char>>(x.take(k)),
    decreases k,
{
    let f1s = there.body->Struct_fields;
    let f2s = back.body->Struct_fields;
    let y = spec_run_fields(f1s, envs1, x);
    lemma_run_fields_index(f1s, envs1, x);
    if k == 0 {
        assert(x.take(0) =~= Seq::<(crate::field::FieldIdModel, ValueModel)>::empty());
        assert(f2s.take(0) =~= Seq::<crate::field::ConvertibleFieldModel>::empty());
    } else {
        let i = k - 1;
        lemma_struct_round_trip_prefix(there, back, envs1, envs2, x, i);
        assert(f2s.take(k).drop_last() =~= f2s.take(i));
        assert(envs2.take(k).drop_last() =~= envs2.take(i));
        assert(f2s.take(k).last() == f2s[i]);
        assert(envs2.take(k).last() == envs2[i]);
        lemma_lookup_positional(x, i);
        assert(record_lookup(x, f1s[i].source_name) == Some(x[i].1));
        assert forall|j: int| 0 <= j < i implies (#[trigger] y[j]).0 != y[i].0 by {
            lemma_lookup_positional(x, j);
        }
        lemma_lookup_positional(y, i);
        assert(y[i] == (f1s[i].target_name, spec_convert(f1s[i].strategy, envs1[i].elems, x[i].1)));
        assert(record_lookup(y, f2s[i].source_name) == Some(y[i].1));
        lemma_round_trip(
            f1s[i].strategy,
            envs1[i].elems,
            envs2[i].elems,
            crate::field::id_text(f2s[i].source_name),
            back.meta.target_name,
            x[i].1,
        );
        assert(spec_run_field_try(f2s[i], envs2[i], y, back.meta.target_name) == Ok::<
            (crate::field::FieldIdModel, ValueModel),
            Seq<char>,
        >((f2s[i].target_name, x[i].1)));
        assert((f2s[i].target_name, x[i].1) == x[i]);
        assert(x.take(i).push(x[i]) =~= x.take(k));
    }
}

/// The two forms agree: wherever a value fits the infallible form, the
/// fallible form succeeds and returns the same converted value.
pub proof fn lemma_forms_agree(
    s: ConversionStrategy,
    em: ElemTreeModel,
    fld: Seq<char>,
    tgt: Seq<char>,
    v: ValueModel,
)
    requires
        sem_fits(s, em),
        fits_infallible(s, em, v),
    ensures
        spec_try_convert(s, em, fld, tgt, v) == Ok::<ValueModel, Seq<char>>(spec_convert(s, em, v)),
    decreases s, v,
{
    match s {
        ConversionStrategy::Plain => {},
        ConversionStrategy::Optional(inner) => {
            match (em, v) {
                (ElemTreeModel::Inner(t), ValueModel::Opt(o)) => match o {
                    Some(x) => {
                        lemma_forms_agree(*inner, *t, fld, tgt, *x);
                    },
                    None => {},
                },
                _ => {},
            }
        },
        ConversionStrategy::Sequence(_) => {
            match (em, v) {
                (ElemTreeModel::Inner(t), ValueModel::List(items)) => {
                    lemma_forms_agree_elems(s, *t, fld, tgt, items);
                },
                _ => {},
            }
        },
        ConversionStrategy::Mapping(_, _) => {
            match (em, v) {
                (ElemTreeModel::Pair(tk, tv), ValueModel::Entries(entries)) => {
                    lemma_forms_agree_entries(s, *tk, *tv, fld, tgt, entries);
                },
                _ => {},
            }
        },
        ConversionStrategy::UnwrapOptional(inner) => {
            match (em, v) {
                (ElemTreeModel::Inner(t), ValueModel::Opt(o)) => match o {
                    Some(x) => {
                        lemma_forms_agree(*inner, *t, fld, tgt, *x);
                    },
                    None => {},
                },
                _ => {},
            }
        },
        ConversionStrategy::UnwrapOrDefault(inner) => {
            match (em, v) {
                (ElemTreeModel::Inner(t), ValueModel::Opt(o)) => match o {
                    Some(x) => {
                        lemma_forms_agree(*inner, *t, fld, tgt, *x);
                    },
                    None => {
                        lemma_forms_agree(*inner, *t, fld, tgt, spec_zero(*inner, *t));
                    },
                },
                _ => {},
            }
        },
        ConversionStrategy::WrapSome(inner) => {
            match em {
                ElemTreeModel::Inner(t) => {
                    lemma_forms_agree(*inner, *t, fld, tgt, v);
                },
                _ => {},
            }
        },
    }
}

/// The two forms agree over a sequence's elements.
proof fn lemma_forms_agree_elems(
    s: ConversionStrategy,
    t: ElemTreeModel,
    fld: Seq<char>,
    tgt: Seq<char>,
    items: Seq<ValueModel>,
)
    requires
        s is Sequence,
        sem_fits(*s->Sequence_0, t),
        forall|i: int|
            0 <= i < items.len() ==> fits_infallible(*s->Sequence_0, t, #[trigger] items[i]),
    ensures
        spec_try_elems(s, t, fld, tgt, items) == Ok::<Seq<ValueModel>, Seq<char>>(
            spec_convert_elems(s, t, items),
        ),
    decreases s, items,
{
    if items.len() > 0 {
        let pre = items.drop_last();
        assert(forall|i: int| 0 <= i < pre.len() ==> #[trigger] pre[i] == items[i]);
        lemma_forms_agree_elems(s, t, fld, tgt, pre);
        assert(items.last() == items[items.len() - 1]);
        lemma_forms_agree(*s->Sequence_0, t, fld, tgt, items.last());
    }
}

/// The two forms agree over a mapping's entries.
proof fn lemma_forms_agree_entries(
    s: ConversionStrategy,
    tk: ElemTreeModel,
    tv: ElemTreeModel,
    fld: Seq<char>,
    tgt: Seq<char>,
    entries: Seq<(ValueModel, ValueModel)>,
)
    requires
        s is Mapping,
        sem_fits(*s->Mapping_0, tk),
        sem_fits(*s->Mapping_1, tv),
        forall|i: int|
            0 <= i < entries.len() ==> fits_infallible(
                *s->Mapping_0,
                tk,
                (#[trigger] entries[i]).0,
            ) && fits_infallible(*s->Mapping_1, tv, entries[i].1),
    ensures
        spec_try_entries(s, tk, tv, fld, tgt, entries) == Ok::<
            Seq<(ValueModel, ValueModel)>,
            Seq<char>,
        >(spec_convert_entries(s, tk, tv, entries)),
    decreases s, entries,
{
    if entries.len() > 0 {
        let pre = entries.drop_last();
        assert(forall|i: int| 0 <= i < pre.len() ==> #[trigger] pre[i] == entries[i]);
        lemma_forms_agree_entries(s, tk, tv, fld, tgt, pre);
        assert(entries.last() == entries[entries.len() - 1]);
        lemma_forms_agree(*s->Mapping_0, tk, fld, tgt, entries.last().0);
        lemma_forms_agree(*s->Mapping_1, tv, fld, tgt, entries.last().1);
    }
}

/// The mapping discipline holds of every replayed entry list: its keys
/// are pairwise distinct.
pub proof fn lemma_dedup_keys_distinct(entries: Seq<(ValueModel, ValueModel)>)
    ensures
        forall|i: int, j: int|
            0 <= i < entries_dedup(entries).len() && 0 <= j < entries_dedup(entries).len() && i != j
                ==> (#[trigger] entries_dedup(entries)[i]).0 != (
            #[trigger] entries_dedup(entries)[j]).0,
    decreases entries,
{
    if entries.len() > 0 {
        lemma_dedup_keys_distinct(entries.drop_last());
        let acc = entries_dedup(entries.drop_last());
        let k = entries.last().0;
        let v = entries.last().1;
        lemma_key_index(acc, k);
        let out = entries_dedup(entries);
        let ki = key_index(acc, k);
        if ki >= 0 {
            assert(out == acc.update(ki, (k, v)));
            assert forall|i: int, j: int|
                0 <= i < out.len() && 0 <= j < out.len() && i != j implies (
            #[trigger] out[i]).0 != (#[trigger] out[j]).0 by {
                assert(acc[ki].0 == k);
                if i != ki {
                    assert(out[i] == acc[i]);
                }
                if j != ki {
                    assert(out[j] == acc[j]);
                }
            }
        } else {
            assert(out == acc.push((k, v)));
            assert forall|i: int, j: int|
                0 <= i < out.len() && 0 <= j < out.len() && i != j implies (
            #[trigger] out[i]).0 != (#[trigger] out[j]).0 by {
                if i < acc.len() && j < acc.len() {
                    assert(out[i] == acc[i]);
                    assert(out[j] == acc[j]);
                } else if i < acc.len() {
                    assert(out[i] == acc[i]);
                    assert(out[j] == (k, v));
                    assert(acc[i].0 != k);
                } else if j < acc.len() {
                    assert(out[i] == (k, v));
                    assert(out[j] == acc[j]);
                    assert(acc[j].0 != k);
                }
            }
        }
    }
}

/// Every entry of a replayed entry list is one of the entries replayed.
pub proof fn lemma_dedup_elements(entries: Seq<(ValueModel, ValueModel)>)
    ensures
        forall|i: int|
            0 <= i < entries_dedup(entries).len() ==> exists|j: int|
                0 <= j < entries.len() && #[trigger] entries_dedup(entries)[i] == entries[j],
    decreases entries,
{
    if entries.len() > 0 {
        lemma_dedup_elements(entries.drop_last());
        let acc = entries_dedup(entries.drop_last());
        let k = entries.last().0;
        let v = entries.last().1;
        lemma_key_index(acc, k);
        let out = entries_dedup(entries);
        let ki = key_index(acc, k);
        assert(entries.last() == entries[entries.len() - 1]);
        assert forall|i: int| 0 <= i < out.len() implies exists|j: int|
            0 <= j < entries.len() && #[trigger] out[i] == entries[j] by {
            if ki >= 0 && i == ki {
                assert(out[i] == (k, v));
                assert(out[i] == entries[entries.len() - 1]);
            } else if ki < 0 && i == acc.len() {
                assert(out[i] == (k, v));
                assert(out[i] == entries[entries.len() - 1]);
            } else {
                assert(out[i] == acc[i]);
                let j = choose|j: int|
                    0 <= j < entries.drop_last().len() && acc[i] == entries.drop_last()[j];
                assert(entries.drop_last()[j] == entries[j]);
            }
        }
    }
}

/// Whether every zero value an element-conversion tree carries is itself
/// well formed.
pub open spec fn wf_elem_tree(em: ElemTreeModel) -> bool
    decreases em,
{
    match em {
        ElemTreeModel::Leaf(_, zero) => wf_model(zero),
        ElemTreeModel::Inner(t) => wf_elem_tree(*t),
        ElemTreeModel::Pair(tk, tv) => wf_elem_tree(*tk) && wf_elem_tree(*tv),
    }
}

/// Zero values follow the discipline: the zero of any strategy is well
/// formed when the tree's declared zeros are.
proof fn lemma_zero_wf(s: ConversionStrategy, em: ElemTreeModel)
    requires
        sem_fits(s, em),
        wf_elem_tree(em),
    ensures
        wf_model(spec_zero(s, em)),
    decreases s,
{
    match s {
        ConversionStrategy::UnwrapOptional(inner) => match em {
            ElemTreeModel::Inner(t) => lemma_zero_wf(*inner, *t),
            _ => {},
        },
        ConversionStrategy::UnwrapOrDefault(inner) => match em {
            ElemTreeModel::Inner(t) => lemma_zero_wf(*inner, *t),
            _ => {},
        },
        ConversionStrategy::WrapSome(inner) => match em {
            ElemTreeModel::Inner(t) => lemma_zero_wf(*inner, *t),
            _ => {},
        },
        _ => {},
    }
}

/// Conversion preserves the mapping discipline: a well-formed value
/// converts to a well-formed value, whatever the strategy.
pub proof fn lemma_convert_wf(s: ConversionStrategy, em: ElemTreeModel, v: ValueModel)
    requires
        sem_fits(s, em),
        fits_infallible(s, em, v),
        wf_elem_tree(em),
        wf_model(v),
    ensures
        wf_model(spec_convert(s, em, v)),
    decreases s, v,
{
    match s {
        ConversionStrategy::Plain => {
            match em {
                ElemTreeModel::Leaf(c, _) => match c {
                    ElemConvModel::Unwrap(_) => {},
                    _ => {},
                },
                _ => {},
            }
        },
        ConversionStrategy::Optional(inner) => {
            match (em, v) {
                (ElemTreeModel::Inner(t), ValueModel::Opt(o)) => match o {
                    Some(x) => {
                        lemma_convert_wf(*inner, *t, *x);
                    },
                    None => {},
                },
                _ => {},
            }
        },
        ConversionStrategy::Sequence(_) => {
            match (em, v) {
                (ElemTreeModel::Inner(t), ValueModel::List(items)) => {
                    lemma_convert_elems(s, *t, items);
                    let cs = spec_convert_elems(s, *t, items);
                    assert forall|i: int| 0 <= i < cs.len() implies wf_model(
                        #[trigger] cs[i],
                    ) by {
                        lemma_convert_wf(*s->Sequence_0, *t, items[i]);
                    }
                },
                _ => {},
            }
        },
        ConversionStrategy::Mapping(_, _) => {
            match (em, v) {
                (ElemTreeModel::Pair(tk, tv), ValueModel::Entries(entries)) => {
                    lemma_convert_entries(s, *tk, *tv, entries);
                    let cs = spec_convert_entries(s, *tk, *tv, entries);
                    assert forall|i: int| 0 <= i < cs.len() implies wf_model(
                        (#[trigger] cs[i]).0,
                    ) && wf_model(cs[i].1) by {
                        lemma_convert_wf(*s->Mapping_0, *tk, entries[i].0);
                        lemma_convert_wf(*s->Mapping_1, *tv, entries[i].1);
                    }
                    lemma_dedup_keys_distinct(cs);
                    lemma_dedup_elements(cs);
                    let out = entries_dedup(cs);
                    assert forall|i: int| 0 <= i < out.len() implies wf_model(
                        (#[trigger] out[i]).0,
                    ) && wf_model(out[i].1) by {
                        let j = choose|j: int| 0 <= j < cs.len() && out[i] == cs[j];
                        assert(wf_model(cs[j].0) && wf_model(cs[j].1));
                    }
                },
                _ => {},
            }
        },
        ConversionStrategy::UnwrapOptional(inner) => {
            match (em, v) {
                (ElemTreeModel::Inner(t), ValueModel::Opt(o)) => match o {
                    Some(x) => {
                        lemma_convert_wf(*inner, *t, *x);
                    },
                    None => {},
                },
                _ => {},
            }
        },
        ConversionStrategy::UnwrapOrDefault(inner) => {
            match (em, v) {
                (ElemTreeModel::Inner(t), ValueModel::Opt(o)) => match o {
                    Some(x) => {
                        lemma_convert_wf(*inner, *t, *x);
                    },
                    None => {
                        lemma_zero_wf(*inner, *t);
                        lemma_convert_wf(*inner, *t, spec_zero(*inner, *t));
                    },
                },
                _ => {},
            }
        },
        ConversionStrategy::WrapSome(inner) => {
            match em {
                ElemTreeModel::Inner(t) => {
                    lemma_convert_wf(*inner, *t, v);
                },
                _ => {},
            }
        },
    }
}

} // verus!
