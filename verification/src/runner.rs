//! Running a generated routine: the verified meaning of one conversion
//! applied to one source value.
//!
//! The conversions, defaults, custom functions and validation hooks that
//! generated code calls belong to the converted types, not to this crate;
//! they enter as data in a [`FieldEnv`] per field and a hook outcome per
//! routine. Given those, a runner behaves exactly as the routine's
//! emitted code does: validation first, then one converted value per
//! field, in routine order.

use vstd::prelude::*;
use crate::convert::{ElemTree, ElemTreeModel, sem_fits, convert_value, spec_convert};
use crate::fallible::{fits_fallible, spec_try_convert, try_convert_value};
use crate::field::{FieldIdentifier, FieldIdModel, ConvertibleFieldModel, id_text, abs_cfields,
    lemma_abs_cfields};
use crate::message::{failed_msg, failed_message};
use crate::routine::{GeneratedRoutine, RoutineBody, RoutineModel};
use crate::value::{Value, ValueModel, abs_value, duplicate};
use crate::variant::{ConversionVariant, ConversionVariantModel, abs_cvariants, lemma_abs_cvariants};

verus! {

broadcast use vstd::std_specs::vec::axiom_vec_index_decreases, vstd::std_specs::vec::axiom_vec_decreases_to_view, vstd::seq::axiom_seq_index_decreases, vstd::seq::axiom_seq_subrange_decreases;

/// What the converted types supply for one field: the element conversions
/// of its strategy's leaves, the outcome of its custom function when one
/// is declared, and the target type's zero value when the field is
/// zero-filled.
#[derive(Debug, PartialEq)]
pub struct FieldEnv {
    pub elems: ElemTree,
    pub custom_result: Option<Result<Value, String>>,
    pub default_value: Option<Value>,
}

/// The mathematical abstraction of a [`FieldEnv`].
pub struct FieldEnvModel {
    pub elems: ElemTreeModel,
    pub custom_result: Option<Result<ValueModel, Seq<char>>>,
    pub default_value: Option<ValueModel>,
}

/// The abstraction function for field environments.
pub open spec fn abs_field_env(e: FieldEnv) -> FieldEnvModel {
    FieldEnvModel {
        elems: e.elems@,
        custom_result: match e.custom_result {
            Some(Ok(v)) => Some(Ok(abs_value(v))),
            Some(Err(msg)) => Some(Err(msg@)),
            None => None,
        },
        default_value: match e.default_value {
            Some(v) => Some(abs_value(v)),
            None => None,
        },
    }
}

impl View for FieldEnv {
    type V = FieldEnvModel;

    open spec fn view(&self) -> FieldEnvModel {
        abs_field_env(*self)
    }
}

/// The abstraction of a list of field environments, elementwise.
pub open spec fn abs_field_envs(es: Seq<FieldEnv>) -> Seq<FieldEnvModel>
    decreases es,
{
    if es.len() == 0 {
        Seq::empty()
    } else {
        abs_field_envs(es.drop_last()).push(abs_field_env(es.last()))
    }
}

/// `abs_field_envs` maps the abstraction over the list, index by index.
pub proof fn lemma_abs_field_envs(es: Seq<FieldEnv>)
    ensures
        abs_field_envs(es).len() == es.len(),
        forall|i: int|
            0 <= i < es.len() ==> abs_field_envs(es)[i] == abs_field_env(#[trigger] es[i]),
    decreases es,
{
    if es.len() > 0 {
        lemma_abs_field_envs(es.drop_last());
        assert forall|i: int| 0 <= i < es.len() implies abs_field_envs(es)[i] == abs_field_env(
            #[trigger] es[i],
        ) by {
            if i < es.len() - 1 {
                assert(es.drop_last()[i] == es[i]);
                assert(abs_field_envs(es)[i] == abs_field_envs(es.drop_last())[i]);
            } else {
                assert(es.last() == es[i]);
            }
        }
    }
}

/// The abstraction of a record: its fields, identifier and value.
pub open spec fn abs_record(rec: Seq<(FieldIdentifier, Value)>) -> Seq<(FieldIdModel, ValueModel)>
    decreases rec,
{
    if rec.len() == 0 {
        Seq::empty()
    } else {
        abs_record(rec.drop_last()).push(
            (rec.last().0@, abs_value(rec.last().1)),
        )
    }
}

/// `abs_record` maps the abstraction over the record, index by index.
pub proof fn lemma_abs_record(rec: Seq<(FieldIdentifier, Value)>)
    ensures
        abs_record(rec).len() == rec.len(),
        forall|i: int|
            0 <= i < rec.len() ==> abs_record(rec)[i] == (
                (#[trigger] rec[i]).0@,
                abs_value(rec[i].1),
            ),
    decreases rec,
{
    if rec.len() > 0 {
        lemma_abs_record(rec.drop_last());
        assert forall|i: int| 0 <= i < rec.len() implies abs_record(rec)[i] == (
            (#[trigger] rec[i]).0@,
            abs_value(rec[i].1),
        ) by {
            if i < rec.len() - 1 {
                assert(rec.drop_last()[i] == rec[i]);
                assert(abs_record(rec)[i] == abs_record(rec.drop_last())[i]);
            } else {
                assert(rec.last() == rec[i]);
            }
        }
    }
}

/// The value of the first field of the record carrying the identifier.
pub open spec fn record_lookup(rec: Seq<(FieldIdModel, ValueModel)>, id: FieldIdModel) -> Option<
    ValueModel,
>
    decreases rec,
{
    if rec.len() == 0 {
        None
    } else if rec.first().0 == id {
        Some(rec.first().1)
    } else {
        record_lookup(rec.drop_first(), id)
    }
}

/// Whether two field identifiers are the same, at run time.
pub fn id_eq(a: &FieldIdentifier, b: &FieldIdentifier) -> (r: bool)
    ensures
        r == (a@ == b@),
{
    match (a, b) {
        (FieldIdentifier::Named(x), FieldIdentifier::Named(y)) => x.eq(y),
        (FieldIdentifier::Unnamed(x), FieldIdentifier::Unnamed(y)) => *x == *y,
        _ => false,
    }
}

/// Finds the first field of the record carrying the identifier.
pub fn record_get<'a>(rec: &'a Vec<(FieldIdentifier, Value)>, id: &FieldIdentifier) -> (r: Option<
    &'a Value,
>)
    ensures
        match r {
            Some(v) => record_lookup(abs_record(rec@), id@) == Some(abs_value(*v)),
            None => record_lookup(abs_record(rec@), id@) is None,
        },
{
    proof {
        lemma_abs_record(rec@);
        lemma_record_lookup(abs_record(rec@), id@);
    }
    let n = rec.len();
    let mut i: usize = 0;
    while i < n
        invariant
            n == rec@.len(),
            i <= n,
            abs_record(rec@).len() == n,
            forall|j: int|
                0 <= j < n ==> #[trigger] abs_record(rec@)[j] == (rec@[j].0@, abs_value(rec@[j].1)),
            forall|j: int| 0 <= j < i ==> (#[trigger] abs_record(rec@)[j]).0 != id@,
        decreases n - i,
    {
        if id_eq(&rec[i].0, id) {
            proof {
                lemma_record_lookup(abs_record(rec@), id@);
                match record_lookup(abs_record(rec@), id@) {
                    None => {
                        assert((abs_record(rec@)[i as int]).0 != id@);
                    },
                    Some(v) => {
                        let w = choose|w: int|
                            {
                                &&& 0 <= w < abs_record(rec@).len()
                                &&& (#[trigger] abs_record(rec@)[w]).0 == id@
                                &&& abs_record(rec@)[w].1 == v
                                &&& forall|j: int|
                                    0 <= j < w ==> (#[trigger] abs_record(rec@)[j]).0 != id@
                            };
                        if w < i {
                            assert((abs_record(rec@)[w]).0 != id@);
                        }
                        if w > i {
                            assert((abs_record(rec@)[i as int]).0 != id@);
                        }
                        assert(w == i);
                    },
                }
            }
            return Some(&rec[i].1);
        }
        i += 1;
    }
    proof {
        lemma_record_lookup(abs_record(rec@), id@);
    }
    None
}

/// `record_lookup` finds the first field with the identifier, if any.
proof fn lemma_record_lookup(rec: Seq<(FieldIdModel, ValueModel)>, id: FieldIdModel)
    ensures
        match record_lookup(rec, id) {
            Some(v) => exists|i: int|
                {
                    &&& 0 <= i < rec.len()
                    &&& (#[trigger] rec[i]).0 == id
                    &&& rec[i].1 == v
                    &&& forall|j: int| 0 <= j < i ==> (#[trigger] rec[j]).0 != id
                },
            None => forall|j: int| 0 <= j < rec.len() ==> (#[trigger] rec[j]).0 != id,
        },
    decreases rec,
{
    if rec.len() > 0 && rec.first().0 != id {
        lemma_record_lookup(rec.drop_first(), id);
        assert(forall|j: int|
            1 <= j < rec.len() ==> #[trigger] rec[j] == rec.drop_first()[j - 1]);
        match record_lookup(rec.drop_first(), id) {
            Some(v) => {
                let i = choose|i: int|
                    {
                        &&& 0 <= i < rec.drop_first().len()
                        &&& (#[trigger] rec.drop_first()[i]).0 == id
                        &&& rec.drop_first()[i].1 == v
                        &&& forall|j: int|
                            0 <= j < i ==> (#[trigger] rec.drop_first()[j]).0 != id
                    };
                assert((rec[i + 1]).0 == id && rec[i + 1].1 == v);
                assert(forall|j: int| 0 <= j < i + 1 ==> (#[trigger] rec[j]).0 != id);
            },
            None => {},
        }
    }
}

/// What the environment of one field must supply, in the fallible form:
/// a zero value for a zero-filled field, a custom outcome for a field
/// with a custom function, and otherwise a source value of fitting shape
/// under the field's identifier.
pub open spec fn field_env_ok_try(
    f: ConvertibleFieldModel,
    env: FieldEnvModel,
    rec: Seq<(FieldIdModel, ValueModel)>,
) -> bool {
    if f.default {
        env.default_value is Some
    } else if f.conversion_func is Some {
        env.custom_result is Some
    } else {
        match record_lookup(rec, f.source_name) {
            Some(v) => sem_fits(f.strategy, env.elems) && fits_fallible(f.strategy, env.elems, v),
            None => false,
        }
    }
}

/// What the environment of one field must supply in the infallible form:
/// as in the fallible form, with the custom outcome a success and the
/// source value fitting without failure points.
pub open spec fn field_env_ok(
    f: ConvertibleFieldModel,
    env: FieldEnvModel,
    rec: Seq<(FieldIdModel, ValueModel)>,
) -> bool {
    if f.default {
        env.default_value is Some
    } else if f.conversion_func is Some {
        env.custom_result matches Some(r) && r is Ok
    } else {
        match record_lookup(rec, f.source_name) {
            Some(v) => sem_fits(f.strategy, env.elems) && crate::convert::fits_infallible(
                f.strategy,
                env.elems,
                v,
            ),
            None => false,
        }
    }
}

/// What one field contributes to the fallible routine: its target
/// identifier and converted value, or the failure that stops the routine.
pub open spec fn spec_run_field_try(
    f: ConvertibleFieldModel,
    env: FieldEnvModel,
    rec: Seq<(FieldIdModel, ValueModel)>,
    tgt: Seq<char>,
) -> Result<(FieldIdModel, ValueModel), Seq<char>> {
    if f.default {
        Ok((f.target_name, env.default_value->0))
    } else if f.conversion_func is Some {
        match env.custom_result->0 {
            Ok(v) => Ok((f.target_name, v)),
            Err(e) => Err(failed_msg(id_text(f.source_name), tgt, e)),
        }
    } else {
        match spec_try_convert(
            f.strategy,
            env.elems,
            id_text(f.source_name),
            tgt,
            record_lookup(rec, f.source_name)->0,
        ) {
            Ok(c) => Ok((f.target_name, c)),
            Err(e) => Err(e),
        }
    }
}

/// What one field contributes to the infallible routine.
pub open spec fn spec_run_field(
    f: ConvertibleFieldModel,
    env: FieldEnvModel,
    rec: Seq<(FieldIdModel, ValueModel)>,
) -> (FieldIdModel, ValueModel) {
    if f.default {
        (f.target_name, env.default_value->0)
    } else if f.conversion_func is Some {
        (f.target_name, env.custom_result->0->Ok_0)
    } else {
        (
            f.target_name,
            spec_convert(f.strategy, env.elems, record_lookup(rec, f.source_name)->0),
        )
    }
}

/// The target fields a fallible routine builds, field by field in routine
/// order; the first failure, in that order, decides.
pub open spec fn spec_run_fields_try(
    fields: Seq<ConvertibleFieldModel>,
    envs: Seq<FieldEnvModel>,
    rec: Seq<(FieldIdModel, ValueModel)>,
    tgt: Seq<char>,
) -> Result<Seq<(FieldIdModel, ValueModel)>, Seq<char>>
    decreases fields,
{
    if fields.len() == 0 {
        Ok(Seq::empty())
    } else {
        match spec_run_fields_try(fields.drop_last(), envs.drop_last(), rec, tgt) {
            Err(e) => Err(e),
            Ok(pre) => match spec_run_field_try(fields.last(), envs.last(), rec, tgt) {
                Err(e) => Err(e),
                Ok(fv) => Ok(pre.push(fv)),
            },
        }
    }
}

/// The target fields an infallible routine builds, in routine order.
pub open spec fn spec_run_fields(
    fields: Seq<ConvertibleFieldModel>,
    envs: Seq<FieldEnvModel>,
    rec: Seq<(FieldIdModel, ValueModel)>,
) -> Seq<(FieldIdModel, ValueModel)>
    decreases fields,
{
    if fields.len() == 0 {
        Seq::empty()
    } else {
        spec_run_fields(fields.drop_last(), envs.drop_last(), rec).push(
            spec_run_field(fields.last(), envs.last(), rec),
        )
    }
}

/// A failed prefix decides the whole field run's failure.
proof fn lemma_run_fields_try_err_extend(
    fields: Seq<ConvertibleFieldModel>,
    envs: Seq<FieldEnvModel>,
    rec: Seq<(FieldIdModel, ValueModel)>,
    tgt: Seq<char>,
    k: int,
)
    requires
        0 <= k <= fields.len(),
        fields.len() == envs.len(),
        spec_run_fields_try(fields.take(k), envs.take(k), rec, tgt) is Err,
    ensures
        spec_run_fields_try(fields, envs, rec, tgt) == spec_run_fields_try(
            fields.take(k),
            envs.take(k),
            rec,
            tgt,
        ),
    decreases fields.len(),
{
    if k < fields.len() {
        assert(fields.drop_last().take(k) =~= fields.take(k));
        assert(envs.drop_last().take(k) =~= envs.take(k));
        lemma_run_fields_try_err_extend(fields.drop_last(), envs.drop_last(), rec, tgt, k);
    } else {
        assert(fields.take(k) =~= fields);
        assert(envs.take(k) =~= envs);
    }
}

/// The view of a hook outcome.
pub open spec fn abs_hook(h: Option<Result<(), String>>) -> Option<Result<(), Seq<char>>> {
    match h {
        Some(Ok(())) => Some(Ok(())),
        Some(Err(e)) => Some(Err(e@)),
        None => None,
    }
}

/// The view of a fallible run's outcome.
pub open spec fn run_view(r: Result<Vec<(FieldIdentifier, Value)>, String>) -> Result<
    Seq<(FieldIdModel, ValueModel)>,
    Seq<char>,
> {
    match r {
        Ok(rec) => Ok(abs_record(rec@)),
        Err(e) => Err(e@),
    }
}

/// What a fallible struct routine returns: the validation hook gates the
/// whole conversion, then the fields convert in routine order.
pub open spec fn spec_run_struct_try(
    rm: RoutineModel,
    rec: Seq<(FieldIdModel, ValueModel)>,
    envs: Seq<FieldEnvModel>,
    hook: Option<Result<(), Seq<char>>>,
) -> Result<Seq<(FieldIdModel, ValueModel)>, Seq<char>> {
    match rm.meta.validate {
        Some(_) => match hook->0 {
            Err(e) => Err(failed_msg(rm.meta.source_name, rm.meta.target_name, e)),
            Ok(()) => spec_run_fields_try(
                rm.body->Struct_fields,
                envs,
                rec,
                rm.meta.target_name,
            ),
        },
        None => spec_run_fields_try(rm.body->Struct_fields, envs, rec, rm.meta.target_name),
    }
}

/// Runs the fields of a routine in the fallible form.
fn run_fields_try(
    fields: &Vec<crate::field::ConvertibleField>,
    envs: &Vec<FieldEnv>,
    source: &Vec<(FieldIdentifier, Value)>,
    tgt: &str,
) -> (r: Result<Vec<(FieldIdentifier, Value)>, String>)
    requires
        envs@.len() == fields@.len(),
        forall|i: int|
            0 <= i < fields@.len() ==> field_env_ok_try(
                abs_cfields(fields@)[i],
                abs_field_envs(envs@)[i],
                abs_record(source@),
            ),
    ensures
        run_view(r) == spec_run_fields_try(
            abs_cfields(fields@),
            abs_field_envs(envs@),
            abs_record(source@),
            tgt@,
        ),
{
    let ghost fm = abs_cfields(fields@);
    let ghost em = abs_field_envs(envs@);
    let ghost rm = abs_record(source@);
    proof {
        lemma_abs_cfields(fields@);
        lemma_abs_field_envs(envs@);
        lemma_abs_record(source@);
        assert(fm.take(0) =~= Seq::<ConvertibleFieldModel>::empty());
        assert(em.take(0) =~= Seq::<FieldEnvModel>::empty());
    }
    let n = fields.len();
    let mut out: Vec<(FieldIdentifier, Value)> = Vec::new();
    let ghost mut made: Seq<(FieldIdModel, ValueModel)> = Seq::empty();
    let mut i: usize = 0;
    while i < n
        invariant
            n == fields@.len(),
            i <= n,
            envs@.len() == n,
            fm == abs_cfields(fields@),
            em == abs_field_envs(envs@),
            rm == abs_record(source@),
            fm.len() == n,
            em.len() == n,
            forall|j: int| 0 <= j < n ==> #[trigger] fm[j] == crate::field::abs_cfield(fields@[j]),
            forall|j: int| 0 <= j < n ==> #[trigger] em[j] == abs_field_env(envs@[j]),
            forall|j: int| 0 <= j < n ==> field_env_ok_try(fm[j], em[j], rm),
            spec_run_fields_try(fm.take(i as int), em.take(i as int), rm, tgt@) == Ok::<
                Seq<(FieldIdModel, ValueModel)>,
                Seq<char>,
            >(made),
            abs_record(out@) == made,
        decreases n - i,
    {
        proof {
            assert(fm.take(i + 1).drop_last() =~= fm.take(i as int));
            assert(em.take(i + 1).drop_last() =~= em.take(i as int));
            assert(fm.take(i + 1).last() == fm[i as int]);
            assert(em.take(i + 1).last() == em[i as int]);
        }
        let f = &fields[i];
        let env = &envs[i];
        let target = f.target_name.duplicate();
        let converted: Value;
        if f.default {
            match &env.default_value {
                Some(v) => {
                    converted = duplicate(v);
                },
                None => {
                    proof {
                        assert(false);
                    }
                    converted = Value::Opt(None);
                },
            }
        } else if f.conversion_func.is_some() {
            match &env.custom_result {
                Some(Ok(v)) => {
                    converted = duplicate(v);
                },
                Some(Err(e)) => {
                    let subject = f.source_name.as_named();
                    let msg = failed_message(subject.as_str(), tgt, e.as_str());
                    proof {
                        assert(spec_run_field_try(fm[i as int], em[i as int], rm, tgt@) == Err::<
                            (FieldIdModel, ValueModel),
                            Seq<char>,
                        >(msg@));
                        lemma_run_fields_try_err_extend(fm, em, rm, tgt@, i + 1);
                    }
                    return Err(msg);
                },
                None => {
                    proof {
                        assert(false);
                    }
                    converted = Value::Opt(None);
                },
            }
        } else {
            let v = match record_get(source, &f.source_name) {
                Some(v) => v,
                None => {
                    proof {
                        assert(false);
                    }
                    return Err(String::new());
                },
            };
            let subject = f.source_name.as_named();
            match try_convert_value(&f.strategy, &env.elems, subject.as_str(), tgt, v) {
                Ok(c) => {
                    converted = c;
                },
                Err(e) => {
                    proof {
                        assert(spec_run_field_try(fm[i as int], em[i as int], rm, tgt@) == Err::<
                            (FieldIdModel, ValueModel),
                            Seq<char>,
                        >(e@));
                        lemma_run_fields_try_err_extend(fm, em, rm, tgt@, i + 1);
                    }
                    return Err(e);
                },
            }
        }
        let ghost tm = target@;
        let ghost cm = abs_value(converted);
        proof {
            assert(spec_run_field_try(fm[i as int], em[i as int], rm, tgt@) == Ok::<
                (FieldIdModel, ValueModel),
                Seq<char>,
            >((tm, cm)));
        }
        let ghost oldout = out@;
        out.push((target, converted));
        proof {
            lemma_abs_record(oldout);
            lemma_abs_record(out@);
            assert forall|j: int| 0 <= j < out@.len() implies abs_record(out@)[j] == made.push(
                (tm, cm),
            )[j] by {
                if j < oldout.len() {
                    assert(out@[j] == oldout[j]);
                }
            }
            assert(abs_record(out@) =~= made.push((tm, cm)));
            made = made.push((tm, cm));
        }
        i += 1;
    }
    proof {
        assert(fm.take(n as int) =~= fm);
        assert(em.take(n as int) =~= em);
    }
    Ok(out)
}

/// Runs the fields of a routine in the infallible form.
fn run_fields_infallible(
    fields: &Vec<crate::field::ConvertibleField>,
    envs: &Vec<FieldEnv>,
    source: &Vec<(FieldIdentifier, Value)>,
) -> (r: Vec<(FieldIdentifier, Value)>)
    requires
        envs@.len() == fields@.len(),
        forall|i: int|
            0 <= i < fields@.len() ==> field_env_ok(
                abs_cfields(fields@)[i],
                abs_field_envs(envs@)[i],
                abs_record(source@),
            ),
    ensures
        abs_record(r@) == spec_run_fields(
            abs_cfields(fields@),
            abs_field_envs(envs@),
            abs_record(source@),
        ),
{
    let ghost fm = abs_cfields(fields@);
    let ghost em = abs_field_envs(envs@);
    let ghost rm = abs_record(source@);
    proof {
        lemma_abs_cfields(fields@);
        lemma_abs_field_envs(envs@);
        lemma_abs_record(source@);
        assert(fm.take(0) =~= Seq::<ConvertibleFieldModel>::empty());
        assert(em.take(0) =~= Seq::<FieldEnvModel>::empty());
        assert(spec_run_fields(fm.take(0), em.take(0), rm) =~= Seq::<
            (FieldIdModel, ValueModel),
        >::empty());
    }
    let n = fields.len();
    let mut out: Vec<(FieldIdentifier, Value)> = Vec::new();
    let mut i: usize = 0;
    while i < n
        invariant
            n == fields@.len(),
            i <= n,
            envs@.len() == n,
            fm == abs_cfields(fields@),
            em == abs_field_envs(envs@),
            rm == abs_record(source@),
            fm.len() == n,
            em.len() == n,
            forall|j: int| 0 <= j < n ==> #[trigger] fm[j] == crate::field::abs_cfield(fields@[j]),
            forall|j: int| 0 <= j < n ==> #[trigger] em[j] == abs_field_env(envs@[j]),
            forall|j: int| 0 <= j < n ==> field_env_ok(fm[j], em[j], rm),
            abs_record(out@) == spec_run_fields(fm.take(i as int), em.take(i as int), rm),
        decreases n - i,
    {
        proof {
            assert(fm.take(i + 1).drop_last() =~= fm.take(i as int));
            assert(em.take(i + 1).drop_last() =~= em.take(i as int));
            assert(fm.take(i + 1).last() == fm[i as int]);
            assert(em.take(i + 1).last() == em[i as int]);
        }
        let f = &fields[i];
        let env = &envs[i];
        let target = f.target_name.duplicate();
        let converted: Value;
        if f.default {
            match &env.default_value {
                Some(v) => {
                    converted = duplicate(v);
                },
                None => {
                    proof {
                        assert(false);
                    }
                    converted = Value::Opt(None);
                },
            }
        } else if f.conversion_func.is_some() {
            match &env.custom_result {
                Some(Ok(v)) => {
                    converted = duplicate(v);
                },
                _ => {
                    proof {
                        assert(false);
                    }
                    converted = Value::Opt(None);
                },
            }
        } else {
            let v = match record_get(source, &f.source_name) {
                Some(v) => v,
                None => {
                    proof {
                        assert(false);
                    }
                    &source[0].1
                },
            };
            converted = convert_value(&f.strategy, &env.elems, v);
        }
        let ghost tm = target@;
        let ghost cm = abs_value(converted);
        proof {
            assert(spec_run_field(fm[i as int], em[i as int], rm) == (tm, cm));
        }
        let ghost oldout = out@;
        out.push((target, converted));
        proof {
            lemma_abs_record(oldout);
            lemma_abs_record(out@);
            assert forall|j: int| 0 <= j < out@.len() implies abs_record(out@)[j]
                == spec_run_fields(fm.take(i + 1), em.take(i + 1), rm)[j] by {
                if j < oldout.len() {
                    assert(out@[j] == oldout[j]);
                }
            }
            assert(abs_record(out@) =~= spec_run_fields(fm.take(i + 1), em.take(i + 1), rm));
        }
        i += 1;
    }
    proof {
        assert(fm.take(n as int) =~= fm);
        assert(em.take(n as int) =~= em);
    }
    out
}

/// Runs a fallible struct routine on one source record: the validation
/// hook's outcome gates everything, then each field converts in routine
/// order, and the first failure decides the routine's failure text.
pub fn run_struct_routine_fallible(
    routine: &GeneratedRoutine,
    source: &Vec<(FieldIdentifier, Value)>,
    envs: &Vec<FieldEnv>,
    hook: &Option<Result<(), String>>,
) -> (r: Result<Vec<(FieldIdentifier, Value)>, String>)
    requires
        routine@.body is Struct,
        routine@.meta.method.spec_is_falliable(),
        envs@.len() == routine@.body->Struct_fields.len(),
        forall|i: int|
            0 <= i < envs@.len() ==> field_env_ok_try(
                routine@.body->Struct_fields[i],
                abs_field_envs(envs@)[i],
                abs_record(source@),
            ),
        routine@.meta.validate is Some <==> abs_hook(*hook) is Some,
    ensures
        run_view(r) == spec_run_struct_try(routine@, abs_record(source@), abs_field_envs(envs@), abs_hook(*hook)),
{
    if routine.meta.validate.is_some() {
        match hook {
            Some(Err(e)) => {
                let msg = failed_message(
                    routine.meta.source_name.as_str(),
                    routine.meta.target_name.as_str(),
                    e.as_str(),
                );
                return Err(msg);
            },
            Some(Ok(())) => {},
            None => {
                proof {
                    assert(false);
                }
                return Err(String::new());
            },
        }
    }
    match &routine.body {
        RoutineBody::Struct { named: _, fields } => {
            proof {
                lemma_abs_cfields(fields@);
            }
            run_fields_try(fields, envs, source, routine.meta.target_name.as_str())
        },
        _ => {
            proof {
                assert(false);
            }
            Err(String::new())
        },
    }
}

/// What an infallible struct routine returns.
pub open spec fn spec_run_struct(
    rm: RoutineModel,
    rec: Seq<(FieldIdModel, ValueModel)>,
    envs: Seq<FieldEnvModel>,
) -> Seq<(FieldIdModel, ValueModel)> {
    spec_run_fields(rm.body->Struct_fields, envs, rec)
}

/// Runs an infallible struct routine on one source record. Inputs with a
/// failure point — an absent optional under `unwrap`, an element that
/// cannot convert — are excluded: on them the emitted code would abort.
pub fn run_struct_routine_infallible(
    routine: &GeneratedRoutine,
    source: &Vec<(FieldIdentifier, Value)>,
    envs: &Vec<FieldEnv>,
) -> (r: Vec<(FieldIdentifier, Value)>)
    requires
        routine@.body is Struct,
        !routine@.meta.method.spec_is_falliable(),
        routine@.meta.validate is None,
        envs@.len() == routine@.body->Struct_fields.len(),
        forall|i: int|
            0 <= i < envs@.len() ==> field_env_ok(
                routine@.body->Struct_fields[i],
                abs_field_envs(envs@)[i],
                abs_record(source@),
            ),
    ensures
        abs_record(r@) == spec_run_struct(routine@, abs_record(source@), abs_field_envs(envs@)),
{
    match &routine.body {
        RoutineBody::Struct { named: _, fields } => {
            proof {
                lemma_abs_cfields(fields@);
            }
            run_fields_infallible(fields, envs, source)
        },
        _ => {
            proof {
                assert(false);
            }
            Vec::new()
        },
    }
}

/// A run-time enum value: the variant it holds and that variant's fields.
#[derive(Debug, PartialEq)]
pub struct EnumValue {
    pub variant: String,
    pub fields: Vec<(FieldIdentifier, Value)>,
}

/// The mathematical abstraction of an [`EnumValue`].
pub struct EnumValueModel {
    pub variant: Seq<char>,
    pub fields: Seq<(FieldIdModel, ValueModel)>,
}

/// The abstraction function for enum values.
pub open spec fn abs_enum_value(v: EnumValue) -> EnumValueModel {
    EnumValueModel { variant: v.variant@, fields: abs_record(v.fields@) }
}

impl View for EnumValue {
    type V = EnumValueModel;

    open spec fn view(&self) -> EnumValueModel {
        abs_enum_value(*self)
    }
}

/// The first arm of the routine whose source variant carries the name.
pub open spec fn spec_find_arm(
    variants: Seq<ConversionVariantModel>,
    name: Seq<char>,
) -> Option<ConversionVariantModel>
    decreases variants,
{
    if variants.len() == 0 {
        None
    } else if variants.first().source_name == name {
        Some(variants.first())
    } else {
        spec_find_arm(variants.drop_first(), name)
    }
}

/// `spec_find_arm` finds the first arm with the name, if any.
proof fn lemma_find_arm(variants: Seq<ConversionVariantModel>, name: Seq<char>)
    ensures
        match spec_find_arm(variants, name) {
            Some(arm) => exists|i: int|
                {
                    &&& 0 <= i < variants.len()
                    &&& (#[trigger] variants[i]).source_name == name
                    &&& variants[i] == arm
                    &&& forall|j: int| 0 <= j < i ==> (#[trigger] variants[j]).source_name != name
                },
            None => forall|j: int|
                0 <= j < variants.len() ==> (#[trigger] variants[j]).source_name != name,
        },
    decreases variants,
{
    if variants.len() > 0 && variants.first().source_name != name {
        lemma_find_arm(variants.drop_first(), name);
        assert(forall|j: int|
            1 <= j < variants.len() ==> #[trigger] variants[j] == variants.drop_first()[j - 1]);
        match spec_find_arm(variants.drop_first(), name) {
            Some(arm) => {
                let i = choose|i: int|
                    {
                        &&& 0 <= i < variants.drop_first().len()
                        &&& (#[trigger] variants.drop_first()[i]).source_name == name
                        &&& variants.drop_first()[i] == arm
                        &&& forall|j: int|
                            0 <= j < i ==> (#[trigger] variants.drop_first()[j]).source_name
                                != name
                    };
                assert((variants[i + 1]).source_name == name && variants[i + 1] == arm);
                assert(forall|j: int|
                    0 <= j < i + 1 ==> (#[trigger] variants[j]).source_name != name);
            },
            None => {},
        }
    }
}

/// The view of a fallible enum run's outcome.
pub open spec fn enum_run_view(r: Result<EnumValue, String>) -> Result<EnumValueModel, Seq<char>> {
    match r {
        Ok(v) => Ok(abs_enum_value(v)),
        Err(e) => Err(e@),
    }
}

/// What a fallible enum routine returns: the validation hook gates the
/// whole conversion, then the arm matching the source variant converts
/// its fields, in routine order; a unit variant maps directly.
pub open spec fn spec_run_enum_try(
    rm: RoutineModel,
    value: EnumValueModel,
    envs: Seq<FieldEnvModel>,
    hook: Option<Result<(), Seq<char>>>,
) -> Result<EnumValueModel, Seq<char>> {
    let arm = spec_find_arm(rm.body->Enum_variants, value.variant)->0;
    match rm.meta.validate {
        Some(_) => match hook->0 {
            Err(e) => Err(failed_msg(rm.meta.source_name, rm.meta.target_name, e)),
            Ok(()) => match spec_run_fields_try(arm.fields, envs, value.fields, rm.meta.target_name) {
                Ok(fs) => Ok(EnumValueModel { variant: arm.target_name, fields: fs }),
                Err(e) => Err(e),
            },
        },
        None => match spec_run_fields_try(arm.fields, envs, value.fields, rm.meta.target_name) {
            Ok(fs) => Ok(EnumValueModel { variant: arm.target_name, fields: fs }),
            Err(e) => Err(e),
        },
    }
}

/// What an infallible enum routine returns.
pub open spec fn spec_run_enum(
    rm: RoutineModel,
    value: EnumValueModel,
    envs: Seq<FieldEnvModel>,
) -> EnumValueModel {
    let arm = spec_find_arm(rm.body->Enum_variants, value.variant)->0;
    EnumValueModel {
        variant: arm.target_name,
        fields: spec_run_fields(arm.fields, envs, value.fields),
    }
}

/// Finds the arm of the routine whose source variant carries the name.
fn find_arm<'a>(variants: &'a Vec<ConversionVariant>, name: &str) -> (r: Option<
    &'a ConversionVariant,
>)
    ensures
        match r {
            Some(arm) => spec_find_arm(abs_cvariants(variants@), name@) == Some(arm@),
            None => spec_find_arm(abs_cvariants(variants@), name@) is None,
        },
{
    let ghost vs = abs_cvariants(variants@);
    proof {
        lemma_abs_cvariants(variants@);
    }
    let n = variants.len();
    let mut i: usize = 0;
    while i < n
        invariant
            n == variants@.len(),
            i <= n,
            vs == abs_cvariants(variants@),
            vs.len() == n,
            forall|j: int|
                0 <= j < n ==> #[trigger] vs[j] == crate::variant::abs_cvariant(variants@[j]),
            forall|j: int| 0 <= j < i ==> (#[trigger] vs[j]).source_name != name@,
        decreases n - i,
    {
        if variants[i].source_name.eq(&name.to_owned()) {
            proof {
                lemma_find_arm(vs, name@);
                match spec_find_arm(vs, name@) {
                    None => {
                        assert((vs[i as int]).source_name != name@);
                    },
                    Some(arm) => {
                        let w = choose|w: int|
                            {
                                &&& 0 <= w < vs.len()
                                &&& (#[trigger] vs[w]).source_name == name@
                                &&& vs[w] == arm
                                &&& forall|j: int|
                                    0 <= j < w ==> (#[trigger] vs[j]).source_name != name@
                            };
                        if w < i {
                            assert((vs[w]).source_name != name@);
                        }
                        if w > i {
                            assert((vs[i as int]).source_name != name@);
                        }
                        assert(w == i);
                    },
                }
            }
            return Some(&variants[i]);
        }
        i += 1;
    }
    proof {
        lemma_find_arm(vs, name@);
    }
    None
}

/// Runs a fallible enum routine on one source value. The source variant
/// must be one of the routine's arms; `envs` supplies what that arm's
/// fields need.
pub fn run_enum_routine_fallible(
    routine: &GeneratedRoutine,
    value: &EnumValue,
    envs: &Vec<FieldEnv>,
    hook: &Option<Result<(), String>>,
) -> (r: Result<EnumValue, String>)
    requires
        routine@.body is Enum,
        routine@.meta.method.spec_is_falliable(),
        spec_find_arm(routine@.body->Enum_variants, value@.variant) is Some,
        envs@.len() == spec_find_arm(routine@.body->Enum_variants, value@.variant)->0.fields.len(),
        forall|i: int|
            0 <= i < envs@.len() ==> field_env_ok_try(
                spec_find_arm(routine@.body->Enum_variants, value@.variant)->0.fields[i],
                abs_field_envs(envs@)[i],
                abs_record(value.fields@),
            ),
        routine@.meta.validate is Some <==> abs_hook(*hook) is Some,
    ensures
        enum_run_view(r) == spec_run_enum_try(
            routine@,
            value@,
            abs_field_envs(envs@),
            abs_hook(*hook),
        ),
{
    if routine.meta.validate.is_some() {
        match hook {
            Some(Err(e)) => {
                let msg = failed_message(
                    routine.meta.source_name.as_str(),
                    routine.meta.target_name.as_str(),
                    e.as_str(),
                );
                return Err(msg);
            },
            Some(Ok(())) => {},
            None => {
                proof {
                    assert(false);
                }
                return Err(String::new());
            },
        }
    }
    match &routine.body {
        RoutineBody::Enum { variants } => {
            let arm = match find_arm(variants, value.variant.as_str()) {
                Some(arm) => arm,
                None => {
                    proof {
                        assert(false);
                    }
                    return Err(String::new());
                },
            };
            proof {
                lemma_abs_cfields(arm.fields@);
            }
            match run_fields_try(
                &arm.fields,
                envs,
                &value.fields,
                routine.meta.target_name.as_str(),
            ) {
                Ok(fs) => Ok(EnumValue { variant: arm.target_name.clone(), fields: fs }),
                Err(e) => Err(e),
            }
        },
        _ => {
            proof {
                assert(false);
            }
            Err(String::new())
        },
    }
}

/// Runs an infallible enum routine on one source value.
pub fn run_enum_routine_infallible(
    routine: &GeneratedRoutine,
    value: &EnumValue,
    envs: &Vec<FieldEnv>,
) -> (r: EnumValue)
    requires
        routine@.body is Enum,
        !routine@.meta.method.spec_is_falliable(),
        routine@.meta.validate is None,
        spec_find_arm(routine@.body->Enum_variants, value@.variant) is Some,
        envs@.len() == spec_find_arm(routine@.body->Enum_variants, value@.variant)->0.fields.len(),
        forall|i: int|
            0 <= i < envs@.len() ==> field_env_ok(
                spec_find_arm(routine@.body->Enum_variants, value@.variant)->0.fields[i],
                abs_field_envs(envs@)[i],
                abs_record(value.fields@),
            ),
    ensures
        r@ == spec_run_enum(routine@, value@, abs_field_envs(envs@)),
{
    match &routine.body {
        RoutineBody::Enum { variants } => {
            let arm = match find_arm(variants, value.variant.as_str()) {
                Some(arm) => arm,
                None => {
                    proof {
                        assert(false);
                    }
                    return EnumValue { variant: String::new(), fields: Vec::new() };
                },
            };
            proof {
                lemma_abs_cfields(arm.fields@);
            }
            let fs = run_fields_infallible(&arm.fields, envs, &value.fields);
            EnumValue { variant: arm.target_name.clone(), fields: fs }
        },
        _ => {
            proof {
                assert(false);
            }
            EnumValue { variant: String::new(), fields: Vec::new() }
        },
    }
}

} // verus!
