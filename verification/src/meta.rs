//! Type-level conversion directives: the four conversion directions and the
//! per-conversion metadata extracted from a type's directive bag.

use vstd::prelude::*;
use crate::errors::ConvError;

verus! {

broadcast use vstd::std_specs::vec::axiom_vec_index_decreases, vstd::std_specs::vec::axiom_vec_decreases_to_view, vstd::seq::axiom_seq_index_decreases, vstd::seq::axiom_seq_subrange_decreases;

/// One of the four conversion directions a type may declare.
///
/// `From` and `TryFrom` read the *other* type as the source of the
/// conversion; `TryInto` and `TryFrom` produce fallible routines.
#[derive(Clone, Copy, Debug, PartialEq, Eq, Structural)]
pub enum ConversionMethod {
    Into,
    TryInto,
    From,
    TryFrom,
}

impl ConversionMethod {
    /// Holds when the other type is the source of the conversion.
    pub open spec fn spec_is_from(&self) -> bool {
        self is From || self is TryFrom
    }

    /// Holds when the generated routine returns a `Result`.
    pub open spec fn spec_is_falliable(&self) -> bool {
        self is TryInto || self is TryFrom
    }

    #[verifier::when_used_as_spec(spec_is_from)]
    pub fn is_from(&self) -> (r: bool)
        ensures
            r == self.spec_is_from(),
    {
        match self {
            ConversionMethod::From | ConversionMethod::TryFrom => true,
            _ => false,
        }
    }

    #[verifier::when_used_as_spec(spec_is_falliable)]
    pub fn is_falliable(&self) -> (r: bool)
        ensures
            r == self.spec_is_falliable(),
    {
        match self {
            ConversionMethod::TryInto | ConversionMethod::TryFrom => true,
            _ => false,
        }
    }
}

/// The view of an optional owned string.
pub open spec fn opt_name(o: Option<String>) -> Option<Seq<char>> {
    match o {
        Some(s) => Some(s@),
        None => None,
    }
}

/// One declared conversion of a type: the other type's path, whether
/// unmapped target fields are filled with defaults, and the validation
/// hook, if one is declared.
#[derive(Debug, PartialEq)]
pub struct TypeDirective {
    pub path: String,
    pub default: bool,
    pub validate: Option<String>,
}

/// The mathematical abstraction of a [`TypeDirective`].
pub struct TypeDirectiveModel {
    pub path: Seq<char>,
    pub default: bool,
    pub validate: Option<Seq<char>>,
}

/// The abstraction function for type directives.
pub open spec fn abs_directive(d: TypeDirective) -> TypeDirectiveModel {
    TypeDirectiveModel { path: d.path@, default: d.default, validate: opt_name(d.validate) }
}

impl View for TypeDirective {
    type V = TypeDirectiveModel;

    open spec fn view(&self) -> TypeDirectiveModel {
        abs_directive(*self)
    }
}

/// The abstraction of a list of type directives, elementwise.
pub open spec fn abs_directives(ds: Seq<TypeDirective>) -> Seq<TypeDirectiveModel>
    decreases ds,
{
    if ds.len() == 0 {
        Seq::empty()
    } else {
        abs_directives(ds.drop_last()).push(abs_directive(ds.last()))
    }
}

/// `abs_directives` maps the abstraction over the list, index by index.
pub proof fn lemma_abs_directives(ds: Seq<TypeDirective>)
    ensures
        abs_directives(ds).len() == ds.len(),
        forall|i: int|
            0 <= i < ds.len() ==> abs_directives(ds)[i] == abs_directive(#[trigger] ds[i]),
    decreases ds,
{
    if ds.len() > 0 {
        lemma_abs_directives(ds.drop_last());
        assert forall|i: int| 0 <= i < ds.len() implies abs_directives(ds)[i] == abs_directive(
            #[trigger] ds[i],
        ) by {
            if i < ds.len() - 1 {
                assert(ds.drop_last()[i] == ds[i]);
                assert(abs_directives(ds)[i] == abs_directives(ds.drop_last())[i]);
            } else {
                assert(ds.last() == ds[i]);
            }
        }
    }
}

/// A type's whole directive bag: its own name and its declared
/// conversions, one list per direction.
#[derive(Debug, PartialEq)]
pub struct TypeDirectives {
    pub ident: String,
    pub into: Vec<TypeDirective>,
    pub try_into: Vec<TypeDirective>,
    pub from: Vec<TypeDirective>,
    pub try_from: Vec<TypeDirective>,
}

/// The mathematical abstraction of a [`TypeDirectives`].
pub struct TypeDirectivesModel {
    pub ident: Seq<char>,
    pub into: Seq<TypeDirectiveModel>,
    pub try_into: Seq<TypeDirectiveModel>,
    pub from: Seq<TypeDirectiveModel>,
    pub try_from: Seq<TypeDirectiveModel>,
}

/// The abstraction function for directive bags.
pub open spec fn abs_type_directives(d: TypeDirectives) -> TypeDirectivesModel {
    TypeDirectivesModel {
        ident: d.ident@,
        into: abs_directives(d.into@),
        try_into: abs_directives(d.try_into@),
        from: abs_directives(d.from@),
        try_from: abs_directives(d.try_from@),
    }
}

impl View for TypeDirectives {
    type V = TypeDirectivesModel;

    open spec fn view(&self) -> TypeDirectivesModel {
        abs_type_directives(*self)
    }
}

/// One conversion to generate: source and target type, direction, whether
/// remaining target fields are filled with defaults, and the validation
/// hook, if any.
#[derive(Debug, PartialEq)]
pub struct ConversionMeta {
    pub source_name: String,
    pub target_name: String,
    pub method: ConversionMethod,
    pub default_allowed: bool,
    pub validate: Option<String>,
}

/// The mathematical abstraction of a [`ConversionMeta`].
pub struct MetaModel {
    pub source_name: Seq<char>,
    pub target_name: Seq<char>,
    pub method: ConversionMethod,
    pub default_allowed: bool,
    pub validate: Option<Seq<char>>,
}

/// The abstraction function for conversion metadata.
pub open spec fn abs_meta(m: ConversionMeta) -> MetaModel {
    MetaModel {
        source_name: m.source_name@,
        target_name: m.target_name@,
        method: m.method,
        default_allowed: m.default_allowed,
        validate: opt_name(m.validate),
    }
}

impl View for ConversionMeta {
    type V = MetaModel;

    open spec fn view(&self) -> MetaModel {
        abs_meta(*self)
    }
}

/// The abstraction of a list of conversion metadata, elementwise.
pub open spec fn abs_metas(ms: Seq<ConversionMeta>) -> Seq<MetaModel>
    decreases ms,
{
    if ms.len() == 0 {
        Seq::empty()
    } else {
        abs_metas(ms.drop_last()).push(abs_meta(ms.last()))
    }
}

/// `abs_metas` maps the abstraction over the list, index by index.
pub proof fn lemma_abs_metas(ms: Seq<ConversionMeta>)
    ensures
        abs_metas(ms).len() == ms.len(),
        forall|i: int| 0 <= i < ms.len() ==> abs_metas(ms)[i] == abs_meta(#[trigger] ms[i]),
    decreases ms,
{
    if ms.len() > 0 {
        lemma_abs_metas(ms.drop_last());
        assert forall|i: int| 0 <= i < ms.len() implies abs_metas(ms)[i] == abs_meta(
            #[trigger] ms[i],
        ) by {
            if i < ms.len() - 1 {
                assert(ms.drop_last()[i] == ms[i]);
                assert(abs_metas(ms)[i] == abs_metas(ms.drop_last())[i]);
            } else {
                assert(ms.last() == ms[i]);
            }
        }
    }
}

impl ConversionMeta {
    /// The type on the other side of the conversion: the source in the
    /// `from` directions, otherwise the target.
    pub open spec fn spec_other_type(&self) -> Seq<char> {
        if self.method.spec_is_from() {
            self.source_name@
        } else {
            self.target_name@
        }
    }

    /// The type on the other side of the conversion.
    pub fn other_type(&self) -> (r: String)
        ensures
            r@ == self.spec_other_type(),
    {
        if self.method.is_from() {
            self.source_name.clone()
        } else {
            self.target_name.clone()
        }
    }
}

/// The conversion one directive entry declares. `i` is the entry's
/// position among all entries of the bag, in processing order.
pub open spec fn spec_meta_for(
    e: TypeDirectiveModel,
    ident: Seq<char>,
    method: ConversionMethod,
    i: usize,
) -> Result<MetaModel, ConvError> {
    if !method.spec_is_falliable() && e.validate is Some {
        Err(ConvError::ValidateOnInfallible { conversion: i })
    } else {
        Ok(
            MetaModel {
                source_name: if method.spec_is_from() {
                    e.path
                } else {
                    ident
                },
                target_name: if method.spec_is_from() {
                    ident
                } else {
                    e.path
                },
                method,
                default_allowed: e.default,
                validate: if method.spec_is_falliable() {
                    e.validate
                } else {
                    None
                },
            },
        )
    }
}

/// The conversions one direction's entry list declares, in order, starting
/// at position `base`; the first fault stops the whole extraction.
pub open spec fn spec_metas_for_list(
    entries: Seq<TypeDirectiveModel>,
    ident: Seq<char>,
    method: ConversionMethod,
    base: usize,
) -> Result<Seq<MetaModel>, ConvError>
    decreases entries,
{
    if entries.len() == 0 {
        Ok(Seq::empty())
    } else {
        match spec_metas_for_list(entries.drop_last(), ident, method, base) {
            Err(e) => Err(e),
            Ok(pre) => match spec_meta_for(
                entries.last(),
                ident,
                method,
                (base + entries.len() - 1) as usize,
            ) {
                Err(e) => Err(e),
                Ok(m) => Ok(pre.push(m)),
            },
        }
    }
}

/// The conversions a directive bag declares: the `into` entries, then
/// `try_into`, then `from`, then `try_from`. A validation hook on an
/// infallible direction is a fault; the first fault, in that order, stops
/// the extraction.
pub open spec fn spec_extract_conversions(d: TypeDirectivesModel) -> Result<
    Seq<MetaModel>,
    ConvError,
> {
    match spec_metas_for_list(d.into, d.ident, ConversionMethod::Into, 0) {
        Err(e) => Err(e),
        Ok(a) => match spec_metas_for_list(
            d.try_into,
            d.ident,
            ConversionMethod::TryInto,
            d.into.len() as usize,
        ) {
            Err(e) => Err(e),
            Ok(b) => match spec_metas_for_list(
                d.from,
                d.ident,
                ConversionMethod::From,
                (d.into.len() + d.try_into.len()) as usize,
            ) {
                Err(e) => Err(e),
                Ok(c) => match spec_metas_for_list(
                    d.try_from,
                    d.ident,
                    ConversionMethod::TryFrom,
                    (d.into.len() + d.try_into.len() + d.from.len()) as usize,
                ) {
                    Err(e) => Err(e),
                    Ok(dd) => Ok(a + b + c + dd),
                },
            },
        },
    }
}

/// A failed prefix decides a directive list's fault.
proof fn lemma_metas_err_extend(
    entries: Seq<TypeDirectiveModel>,
    ident: Seq<char>,
    method: ConversionMethod,
    base: usize,
    k: int,
)
    requires
        0 <= k <= entries.len(),
        spec_metas_for_list(entries.take(k), ident, method, base) is Err,
    ensures
        spec_metas_for_list(entries, ident, method, base) == spec_metas_for_list(
            entries.take(k),
            ident,
            method,
            base,
        ),
    decreases entries.len(),
{
    if k < entries.len() {
        assert(entries.drop_last().take(k) =~= entries.take(k));
        lemma_metas_err_extend(entries.drop_last(), ident, method, base, k);
    } else {
        assert(entries.take(k) =~= entries);
    }
}

/// Appends the conversions one direction's entry list declares.
fn append_metas(
    out: &mut Vec<ConversionMeta>,
    entries: &Vec<TypeDirective>,
    ident: &str,
    method: ConversionMethod,
    base: usize,
) -> (r: Result<(), ConvError>)
    requires
        base + entries@.len() <= usize::MAX,
    ensures
        match r {
            Ok(()) => spec_metas_for_list(abs_directives(entries@), ident@, method, base) matches Ok(
                ms,
            ) && abs_metas(final(out)@) == abs_metas(old(out)@) + ms,
            Err(e) => spec_metas_for_list(abs_directives(entries@), ident@, method, base) == Err::<
                Seq<MetaModel>,
                ConvError,
            >(e),
        },
{
    let ghost ms = abs_directives(entries@);
    let ghost startm = abs_metas(out@);
    let ghost start = out@;
    proof {
        lemma_abs_directives(entries@);
        assert(ms.take(0) =~= Seq::<TypeDirectiveModel>::empty());
        assert(startm + Seq::<MetaModel>::empty() =~= startm);
    }
    let n = entries.len();
    let mut i: usize = 0;
    let ghost mut made: Seq<MetaModel> = Seq::empty();
    proof {
        assert(startm + made =~= startm);
    }
    while i < n
        invariant
            n == entries@.len(),
            i <= n,
            base + n <= usize::MAX,
            ms == abs_directives(entries@),
            ms.len() == n,
            forall|j: int| 0 <= j < n ==> #[trigger] ms[j] == abs_directive(entries@[j]),
            spec_metas_for_list(ms.take(i as int), ident@, method, base) == Ok::<
                Seq<MetaModel>,
                ConvError,
            >(made),
            out@.len() == start.len() + i,
            made.len() == i,
            abs_metas(out@) == startm + made,
            forall|j: int| 0 <= j < start.len() ==> #[trigger] out@[j] == start[j],
        decreases n - i,
    {
        proof {
            assert(ms.take(i + 1).drop_last() =~= ms.take(i as int));
            assert(ms.take(i + 1).last() == ms[i as int]);
        }
        let e = &entries[i];
        if !method.is_falliable() && e.validate.is_some() {
            proof {
                lemma_metas_err_extend(ms, ident@, method, base, i + 1);
            }
            return Err(ConvError::ValidateOnInfallible { conversion: base + i });
        }
        let validate = if method.is_falliable() {
            match &e.validate {
                Some(v) => Some(v.clone()),
                None => None,
            }
        } else {
            None
        };
        let m = ConversionMeta {
            source_name: if method.is_from() {
                e.path.clone()
            } else {
                ident.to_owned()
            },
            target_name: if method.is_from() {
                ident.to_owned()
            } else {
                e.path.clone()
            },
            method,
            default_allowed: e.default,
            validate,
        };
        let ghost mm = abs_meta(m);
        proof {
            assert(spec_meta_for(ms[i as int], ident@, method, (base + i) as usize) == Ok::<
                MetaModel,
                ConvError,
            >(mm));
        }
        let ghost oldout = out@;
        out.push(m);
        proof {
            lemma_abs_metas(oldout);
            lemma_abs_metas(out@);
            assert forall|j: int| 0 <= j < out@.len() implies abs_metas(out@)[j] == (startm
                + made.push(mm))[j] by {
                if j < oldout.len() {
                    assert(out@[j] == oldout[j]);
                }
            }
            assert(abs_metas(out@) =~= startm + made.push(mm));
            made = made.push(mm);
        }
        i += 1;
    }
    proof {
        assert(ms.take(n as int) =~= ms);
    }
    Ok(())
}

/// Extracts every conversion a directive bag declares, in directive
/// order: `into`, `try_into`, `from`, `try_from`. In the `from`
/// directions the bag's own type is the target of the conversion.
pub fn extract_conversions(d: &TypeDirectives) -> (r: Result<Vec<ConversionMeta>, ConvError>)
    requires
        d.into@.len() + d.try_into@.len() + d.from@.len() + d.try_from@.len() <= usize::MAX,
    ensures
        match r {
            Ok(metas) => spec_extract_conversions(d@) == Ok::<Seq<MetaModel>, ConvError>(
                abs_metas(metas@),
            ),
            Err(e) => spec_extract_conversions(d@) == Err::<Seq<MetaModel>, ConvError>(e),
        },
{
    let mut out: Vec<ConversionMeta> = Vec::new();
    proof {
        lemma_abs_directives(d.into@);
        lemma_abs_directives(d.try_into@);
        lemma_abs_directives(d.from@);
        lemma_abs_directives(d.try_from@);
        assert(abs_metas(out@) =~= Seq::<MetaModel>::empty());
    }
    let base0: usize = 0;
    let r1 = append_metas(&mut out, &d.into, d.ident.as_str(), ConversionMethod::Into, base0);
    if let Err(e) = r1 {
        return Err(e);
    }
    let base1: usize = d.into.len();
    let r2 = append_metas(
        &mut out,
        &d.try_into,
        d.ident.as_str(),
        ConversionMethod::TryInto,
        base1,
    );
    if let Err(e) = r2 {
        return Err(e);
    }
    let base2: usize = base1 + d.try_into.len();
    let r3 = append_metas(&mut out, &d.from, d.ident.as_str(), ConversionMethod::From, base2);
    if let Err(e) = r3 {
        return Err(e);
    }
    let base3: usize = base2 + d.from.len();
    let r4 = append_metas(
        &mut out,
        &d.try_from,
        d.ident.as_str(),
        ConversionMethod::TryFrom,
        base3,
    );
    if let Err(e) = r4 {
        return Err(e);
    }
    proof {
        assert(abs_metas(out@) =~= spec_extract_conversions(d@)->Ok_0);
    }
    Ok(out)
}

} // verus!
