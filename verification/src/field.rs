//! Per-field directives: the scoped directive entries a field carries,
//! their normalization into one effective plan per field and conversion,
//! and the convertible fields a declaration yields.

use vstd::prelude::*;
use crate::errors::ConvError;
use crate::meta::ConversionMethod;
use crate::shape::DeclaredType;
use crate::strategy::{ConversionStrategy, UnwrapFault, spec_resolve_with_unwrap,
    resolve_with_unwrap};

verus! {

broadcast use vstd::std_specs::vec::axiom_vec_index_decreases, vstd::std_specs::vec::axiom_vec_decreases_to_view, vstd::seq::axiom_seq_index_decreases, vstd::seq::axiom_seq_subrange_decreases;

/// How a field is addressed: by name, or by its position.
#[derive(Debug, PartialEq, Eq)]
pub enum FieldIdentifier {
    Named(String),
    Unnamed(usize),
}

/// The mathematical abstraction of a [`FieldIdentifier`].
pub enum FieldIdModel {
    Named(Seq<char>),
    Unnamed(int),
}

/// The abstraction function for field identifiers.
pub open spec fn abs_id(id: FieldIdentifier) -> FieldIdModel {
    match id {
        FieldIdentifier::Named(name) => FieldIdModel::Named(name@),
        FieldIdentifier::Unnamed(i) => FieldIdModel::Unnamed(i as int),
    }
}

impl View for FieldIdentifier {
    type V = FieldIdModel;

    open spec fn view(&self) -> FieldIdModel {
        abs_id(*self)
    }
}

/// The decimal digit characters of a non-negative number.
pub open spec fn spec_decimal(n: int) -> Seq<char>
    decreases n,
{
    if n < 0 {
        Seq::empty()
    } else if n < 10 {
        seq![digit_char(n)]
    } else {
        spec_decimal(n / 10).push(digit_char(n % 10))
    }
}

/// One decimal digit as a character.
pub open spec fn digit_char(d: int) -> char {
    if d == 0 {
        '0'
    } else if d == 1 {
        '1'
    } else if d == 2 {
        '2'
    } else if d == 3 {
        '3'
    } else if d == 4 {
        '4'
    } else if d == 5 {
        '5'
    } else if d == 6 {
        '6'
    } else if d == 7 {
        '7'
    } else if d == 8 {
        '8'
    } else {
        '9'
    }
}

/// One decimal digit, written out.
fn digit_str(d: usize) -> (r: &'static str)
    requires
        d < 10,
    ensures
        r@ == seq![digit_char(d as int)],
{
    let r: &'static str = if d == 0 {
        "0"
    } else if d == 1 {
        "1"
    } else if d == 2 {
        "2"
    } else if d == 3 {
        "3"
    } else if d == 4 {
        "4"
    } else if d == 5 {
        "5"
    } else if d == 6 {
        "6"
    } else if d == 7 {
        "7"
    } else if d == 8 {
        "8"
    } else {
        "9"
    };
    proof {
        reveal_strlit("0");
        reveal_strlit("1");
        reveal_strlit("2");
        reveal_strlit("3");
        reveal_strlit("4");
        reveal_strlit("5");
        reveal_strlit("6");
        reveal_strlit("7");
        reveal_strlit("8");
        reveal_strlit("9");
        assert(r@ =~= seq![digit_char(d as int)]);
    }
    r
}

/// A non-negative number, written out in decimal.
pub fn decimal_string(n: usize) -> (r: String)
    ensures
        r@ == spec_decimal(n as int),
    decreases n,
{
    if n < 10 {
        digit_str(n).to_owned()
    } else {
        let head = decimal_string(n / 10);
        let r = head.concat(digit_str(n % 10));
        proof {
            assert(r@ =~= spec_decimal(n as int));
        }
        r
    }
}

/// The text a field identifier shows in failure messages and emitted
/// bindings: the name itself, or `field` followed by the position.
pub open spec fn id_text(id: FieldIdModel) -> Seq<char> {
    match id {
        FieldIdModel::Named(name) => name,
        FieldIdModel::Unnamed(i) => "field"@ + spec_decimal(i),
    }
}

impl FieldIdentifier {
    /// Renders the identifier as a plain name.
    pub fn as_named(&self) -> (r: String)
        ensures
            r@ == id_text(self@),
    {
        match self {
            FieldIdentifier::Named(name) => name.clone(),
            FieldIdentifier::Unnamed(i) => {
                let r = "field".to_owned().concat(decimal_string(*i).as_str());
                proof {
                    assert(r@ =~= id_text(self@));
                }
                r
            },
        }
    }

    /// A deep copy with the same model.
    pub fn duplicate(&self) -> (r: FieldIdentifier)
        ensures
            r@ == self@,
    {
        match self {
            FieldIdentifier::Named(name) => FieldIdentifier::Named(name.clone()),
            FieldIdentifier::Unnamed(i) => FieldIdentifier::Unnamed(*i),
        }
    }
}

/// One scoped directive entry on a field: the directives it sets, and the
/// conversion path it is restricted to, if any.
#[derive(Debug, PartialEq)]
pub struct FieldAttr {
    pub path: Option<String>,
    pub skip: bool,
    pub unwrap: bool,
    pub unwrap_or_default: bool,
    pub default: bool,
    pub rename: Option<String>,
    pub with_func: Option<String>,
}

/// The mathematical abstraction of a [`FieldAttr`].
pub struct FieldAttrModel {
    pub path: Option<Seq<char>>,
    pub skip: bool,
    pub unwrap: bool,
    pub unwrap_or_default: bool,
    pub default: bool,
    pub rename: Option<Seq<char>>,
    pub with_func: Option<Seq<char>>,
}

/// The view of an optional owned string.
pub open spec fn opt_text(o: Option<String>) -> Option<Seq<char>> {
    match o {
        Some(s) => Some(s@),
        None => None,
    }
}

/// The abstraction function for scoped directive entries.
pub open spec fn abs_attr(a: FieldAttr) -> FieldAttrModel {
    FieldAttrModel {
        path: opt_text(a.path),
        skip: a.skip,
        unwrap: a.unwrap,
        unwrap_or_default: a.unwrap_or_default,
        default: a.default,
        rename: opt_text(a.rename),
        with_func: opt_text(a.with_func),
    }
}

impl View for FieldAttr {
    type V = FieldAttrModel;

    open spec fn view(&self) -> FieldAttrModel {
        abs_attr(*self)
    }
}

/// The abstraction of a list of scoped directive entries, elementwise.
pub open spec fn abs_attrs(attrs: Seq<FieldAttr>) -> Seq<FieldAttrModel>
    decreases attrs,
{
    if attrs.len() == 0 {
        Seq::empty()
    } else {
        abs_attrs(attrs.drop_last()).push(abs_attr(attrs.last()))
    }
}

/// `abs_attrs` maps the abstraction over the list, index by index.
pub proof fn lemma_abs_attrs(attrs: Seq<FieldAttr>)
    ensures
        abs_attrs(attrs).len() == attrs.len(),
        forall|i: int| 0 <= i < attrs.len() ==> abs_attrs(attrs)[i] == abs_attr(#[trigger] attrs[i]),
    decreases attrs,
{
    if attrs.len() > 0 {
        lemma_abs_attrs(attrs.drop_last());
        assert forall|i: int| 0 <= i < attrs.len() implies abs_attrs(attrs)[i] == abs_attr(
            #[trigger] attrs[i],
        ) by {
            if i < attrs.len() - 1 {
                assert(attrs.drop_last()[i] == attrs[i]);
                assert(abs_attrs(attrs)[i] == abs_attrs(attrs.drop_last())[i]);
            } else {
                assert(attrs.last() == attrs[i]);
            }
        }
    }
}

/// One field of the declaration under conversion: its identifier, its
/// declared type, its unscoped directives, and its scoped directive
/// entries, one list per conversion direction.
#[derive(Debug, PartialEq)]
pub struct FieldDecl {
    pub ident: Option<String>,
    pub ty: DeclaredType,
    pub skip: bool,
    pub rename: Option<String>,
    pub default: bool,
    pub unwrap: bool,
    pub unwrap_or_default: bool,
    pub with_func: Option<String>,
    pub from: Vec<FieldAttr>,
    pub try_from: Vec<FieldAttr>,
    pub into: Vec<FieldAttr>,
    pub try_into: Vec<FieldAttr>,
}

/// The mathematical abstraction of a [`FieldDecl`]. The declared type is
/// carried as it stands: strategies read its structure, never its names.
pub struct FieldDeclModel {
    pub ident: Option<Seq<char>>,
    pub ty: DeclaredType,
    pub skip: bool,
    pub rename: Option<Seq<char>>,
    pub default: bool,
    pub unwrap: bool,
    pub unwrap_or_default: bool,
    pub with_func: Option<Seq<char>>,
    pub from: Seq<FieldAttrModel>,
    pub try_from: Seq<FieldAttrModel>,
    pub into: Seq<FieldAttrModel>,
    pub try_into: Seq<FieldAttrModel>,
}

/// The abstraction function for declared fields.
pub open spec fn abs_field_decl(f: FieldDecl) -> FieldDeclModel {
    FieldDeclModel {
        ident: opt_text(f.ident),
        ty: f.ty,
        skip: f.skip,
        rename: opt_text(f.rename),
        default: f.default,
        unwrap: f.unwrap,
        unwrap_or_default: f.unwrap_or_default,
        with_func: opt_text(f.with_func),
        from: abs_attrs(f.from@),
        try_from: abs_attrs(f.try_from@),
        into: abs_attrs(f.into@),
        try_into: abs_attrs(f.try_into@),
    }
}

impl View for FieldDecl {
    type V = FieldDeclModel;

    open spec fn view(&self) -> FieldDeclModel {
        abs_field_decl(*self)
    }
}

/// The effective directives of one field under one conversion, after the
/// three scopes are merged.
#[derive(Debug, PartialEq)]
pub struct FieldDirectiveScope {
    pub skip: bool,
    pub rename: Option<String>,
    pub default: bool,
    pub unwrap: bool,
    pub unwrap_or_default: bool,
    pub custom_function: Option<String>,
}

/// The mathematical abstraction of a [`FieldDirectiveScope`].
pub struct ScopeModel {
    pub skip: bool,
    pub rename: Option<Seq<char>>,
    pub default: bool,
    pub unwrap: bool,
    pub unwrap_or_default: bool,
    pub custom_function: Option<Seq<char>>,
}

/// The abstraction function for effective directive scopes.
pub open spec fn abs_scope(s: FieldDirectiveScope) -> ScopeModel {
    ScopeModel {
        skip: s.skip,
        rename: opt_text(s.rename),
        default: s.default,
        unwrap: s.unwrap,
        unwrap_or_default: s.unwrap_or_default,
        custom_function: opt_text(s.custom_function),
    }
}

impl View for FieldDirectiveScope {
    type V = ScopeModel;

    open spec fn view(&self) -> ScopeModel {
        abs_scope(*self)
    }
}

/// The scoped entries a field carries for one conversion direction.
pub open spec fn spec_attrs_for(f: FieldDeclModel, method: ConversionMethod) -> Seq<
    FieldAttrModel,
> {
    match method {
        ConversionMethod::From => f.from,
        ConversionMethod::TryFrom => f.try_from,
        ConversionMethod::Into => f.into,
        ConversionMethod::TryInto => f.try_into,
    }
}

/// The entries among `attrs` scoped to exactly the other type's path.
pub open spec fn spec_path_entries(attrs: Seq<FieldAttrModel>, other: Seq<char>) -> Seq<
    FieldAttrModel,
> {
    attrs.filter(|a: FieldAttrModel| a.path == Some(other))
}

/// The entries among `attrs` scoped to the direction alone, with no path.
pub open spec fn spec_direction_entries(attrs: Seq<FieldAttrModel>) -> Seq<FieldAttrModel> {
    attrs.filter(|a: FieldAttrModel| a.path is None)
}

/// A fault found while normalizing one field's directives.
#[derive(Debug, PartialEq, Eq, Structural, Clone, Copy)]
pub enum ScopeFault {
    /// More than one path-scoped entry matches the other type.
    DuplicatePath,
    /// More than one entry is scoped to the direction without a path.
    DuplicateDirection,
}

/// The effective directives of a field: the most specific scope that sets
/// a directive wins; a directive no scope sets falls through, so each
/// boolean holds when any scope requests it, and each name comes from the
/// most specific scope naming one.
pub open spec fn spec_normalize(
    f: FieldDeclModel,
    method: ConversionMethod,
    other: Seq<char>,
) -> Result<ScopeModel, ScopeFault> {
    let attrs = spec_attrs_for(f, method);
    let path_entries = spec_path_entries(attrs, other);
    let direction_entries = spec_direction_entries(attrs);
    if path_entries.len() > 1 {
        Err(ScopeFault::DuplicatePath)
    } else if direction_entries.len() > 1 {
        Err(ScopeFault::DuplicateDirection)
    } else {
        let p_skip = path_entries.len() == 1 && path_entries[0].skip;
        let d_skip = direction_entries.len() == 1 && direction_entries[0].skip;
        let p_unwrap = path_entries.len() == 1 && path_entries[0].unwrap;
        let d_unwrap = direction_entries.len() == 1 && direction_entries[0].unwrap;
        let p_uod = path_entries.len() == 1 && path_entries[0].unwrap_or_default;
        let d_uod = direction_entries.len() == 1 && direction_entries[0].unwrap_or_default;
        let p_default = path_entries.len() == 1 && path_entries[0].default;
        let d_default = direction_entries.len() == 1 && direction_entries[0].default;
        let p_rename: Option<Seq<char>> = if path_entries.len() == 1 {
            path_entries[0].rename
        } else {
            None
        };
        let d_rename: Option<Seq<char>> = if direction_entries.len() == 1 {
            direction_entries[0].rename
        } else {
            None
        };
        let p_func: Option<Seq<char>> = if path_entries.len() == 1 {
            path_entries[0].with_func
        } else {
            None
        };
        let d_func: Option<Seq<char>> = if direction_entries.len() == 1 {
            direction_entries[0].with_func
        } else {
            None
        };
        Ok(
            ScopeModel {
                skip: p_skip || d_skip || f.skip,
                rename: if p_rename is Some {
                    p_rename
                } else if d_rename is Some {
                    d_rename
                } else {
                    f.rename
                },
                default: p_default || d_default || f.default,
                unwrap: p_unwrap || d_unwrap || f.unwrap,
                unwrap_or_default: p_uod || d_uod || f.unwrap_or_default,
                custom_function: if p_func is Some {
                    p_func
                } else if d_func is Some {
                    d_func
                } else {
                    f.with_func
                },
            },
        )
    }
}

/// Copies an optional name.
fn opt_clone(o: &Option<String>) -> (r: Option<String>)
    ensures
        opt_text(r) == opt_text(*o),
{
    match o {
        Some(s) => Some(s.clone()),
        None => None,
    }
}

/// Picks the first set name along the three scopes.
fn first_set(p: &Option<String>, d: &Option<String>, g: &Option<String>) -> (r: Option<String>)
    ensures
        opt_text(r) == (if opt_text(*p) is Some {
            opt_text(*p)
        } else if opt_text(*d) is Some {
            opt_text(*d)
        } else {
            opt_text(*g)
        }),
{
    if let Some(s) = p {
        Some(s.clone())
    } else if let Some(s) = d {
        Some(s.clone())
    } else {
        opt_clone(g)
    }
}

/// Selects the entries among `attrs` scoped to exactly the other type.
fn path_entries<'a>(attrs: &'a Vec<FieldAttr>, other: &str) -> (r: Vec<&'a FieldAttr>)
    ensures
        r@.len() == spec_path_entries(abs_attrs(attrs@), other@).len(),
        abs_ref_attrs(r@) == spec_path_entries(abs_attrs(attrs@), other@),
{
    let ghost ms = abs_attrs(attrs@);
    proof {
        lemma_abs_attrs(attrs@);
        reveal(Seq::filter);
        assert(ms.take(0) =~= Seq::<FieldAttrModel>::empty());
        assert(spec_path_entries(ms.take(0), other@) =~= Seq::<FieldAttrModel>::empty());
    }
    let n = attrs.len();
    let mut out: Vec<&'a FieldAttr> = Vec::new();
    let mut i: usize = 0;
    while i < n
        invariant
            n == attrs@.len(),
            i <= n,
            ms == abs_attrs(attrs@),
            ms.len() == n,
            forall|j: int| 0 <= j < n ==> #[trigger] ms[j] == abs_attr(attrs@[j]),
            abs_ref_attrs(out@) == spec_path_entries(ms.take(i as int), other@),
        decreases n - i,
    {
        proof {
            assert(ms.take(i + 1).drop_last() =~= ms.take(i as int));
            assert(ms.take(i + 1).last() == ms[i as int]);
            reveal(Seq::filter);
        }
        let matches_path = match &attrs[i].path {
            Some(p) => p.eq(&other.to_owned()),
            None => false,
        };
        proof {
            assert(matches_path == (ms[i as int].path == Some(other@)));
        }
        if matches_path {
            let ghost outpre = abs_ref_attrs(out@);
            let ghost oldout = out@;
            let a = &attrs[i];
            out.push(a);
            proof {
                lemma_abs_ref_attrs(oldout);
                lemma_abs_ref_attrs(out@);
                assert forall|j: int| 0 <= j < out@.len() implies abs_ref_attrs(out@)[j]
                    == outpre.push(ms[i as int])[j] by {
                    if j < oldout.len() {
                        assert(out@[j] == oldout[j]);
                    } else {
                        assert(out@[j] == a);
                    }
                }
                assert(abs_ref_attrs(out@) =~= outpre.push(ms[i as int]));
            }
        }
        i += 1;
    }
    proof {
        assert(ms.take(n as int) =~= ms);
        lemma_abs_ref_attrs(out@);
        ms.lemma_filter_len(|a: FieldAttrModel| a.path == Some(other@));
    }
    out
}

/// The abstraction of a list of borrowed directive entries.
pub open spec fn abs_ref_attrs(attrs: Seq<&FieldAttr>) -> Seq<FieldAttrModel>
    decreases attrs,
{
    if attrs.len() == 0 {
        Seq::empty()
    } else {
        abs_ref_attrs(attrs.drop_last()).push(abs_attr(*attrs.last()))
    }
}

/// `abs_ref_attrs` maps the abstraction over the list, index by index.
pub proof fn lemma_abs_ref_attrs(attrs: Seq<&FieldAttr>)
    ensures
        abs_ref_attrs(attrs).len() == attrs.len(),
        forall|i: int|
            0 <= i < attrs.len() ==> abs_ref_attrs(attrs)[i] == abs_attr(*#[trigger] attrs[i]),
    decreases attrs,
{
    if attrs.len() > 0 {
        lemma_abs_ref_attrs(attrs.drop_last());
        assert forall|i: int| 0 <= i < attrs.len() implies abs_ref_attrs(attrs)[i] == abs_attr(
            *#[trigger] attrs[i],
        ) by {
            if i < attrs.len() - 1 {
                assert(attrs.drop_last()[i] == attrs[i]);
                assert(abs_ref_attrs(attrs)[i] == abs_ref_attrs(attrs.drop_last())[i]);
            } else {
                assert(attrs.last() == attrs[i]);
            }
        }
    }
}

/// Selects the entries among `attrs` scoped to the direction without a
/// path.
fn direction_entries<'a>(attrs: &'a Vec<FieldAttr>) -> (r: Vec<&'a FieldAttr>)
    ensures
        r@.len() == spec_direction_entries(abs_attrs(attrs@)).len(),
        abs_ref_attrs(r@) == spec_direction_entries(abs_attrs(attrs@)),
{
    let ghost ms = abs_attrs(attrs@);
    proof {
        lemma_abs_attrs(attrs@);
        reveal(Seq::filter);
        assert(ms.take(0) =~= Seq::<FieldAttrModel>::empty());
        assert(spec_direction_entries(ms.take(0)) =~= Seq::<FieldAttrModel>::empty());
    }
    let n = attrs.len();
    let mut out: Vec<&'a FieldAttr> = Vec::new();
    let mut i: usize = 0;
    while i < n
        invariant
            n == attrs@.len(),
            i <= n,
            ms == abs_attrs(attrs@),
            ms.len() == n,
            forall|j: int| 0 <= j < n ==> #[trigger] ms[j] == abs_attr(attrs@[j]),
            abs_ref_attrs(out@) == spec_direction_entries(ms.take(i as int)),
        decreases n - i,
    {
        proof {
            assert(ms.take(i + 1).drop_last() =~= ms.take(i as int));
            assert(ms.take(i + 1).last() == ms[i as int]);
            reveal(Seq::filter);
        }
        if attrs[i].path.is_none() {
            let ghost outpre = abs_ref_attrs(out@);
            let ghost oldout = out@;
            let a = &attrs[i];
            out.push(a);
            proof {
                lemma_abs_ref_attrs(oldout);
                lemma_abs_ref_attrs(out@);
                assert forall|j: int| 0 <= j < out@.len() implies abs_ref_attrs(out@)[j]
                    == outpre.push(ms[i as int])[j] by {
                    if j < oldout.len() {
                        assert(out@[j] == oldout[j]);
                    } else {
                        assert(out@[j] == a);
                    }
                }
                assert(abs_ref_attrs(out@) =~= outpre.push(ms[i as int]));
            }
        }
        i += 1;
    }
    proof {
        assert(ms.take(n as int) =~= ms);
        lemma_abs_ref_attrs(out@);
    }
    out
}

/// Merges a field's directives for one conversion into one effective
/// plan: the path scope, then the direction scope, then the field's
/// unscoped directives, most specific first. At most one path-scoped
/// entry may match the other type, and at most one entry may be scoped
/// to the direction alone.
pub fn normalize(f: &FieldDecl, method: ConversionMethod, other: &str) -> (r: Result<
    FieldDirectiveScope,
    ScopeFault,
>)
    ensures
        match r {
            Ok(scope) => spec_normalize(f@, method, other@) == Ok::<ScopeModel, ScopeFault>(
                scope@,
            ),
            Err(fault) => spec_normalize(f@, method, other@) == Err::<ScopeModel, ScopeFault>(
                fault,
            ),
        },
{
    let attrs = match method {
        ConversionMethod::From => &f.from,
        ConversionMethod::TryFrom => &f.try_from,
        ConversionMethod::Into => &f.into,
        ConversionMethod::TryInto => &f.try_into,
    };
    let p = path_entries(attrs, other);
    let d = direction_entries(attrs);
    if p.len() > 1 {
        return Err(ScopeFault::DuplicatePath);
    }
    if d.len() > 1 {
        return Err(ScopeFault::DuplicateDirection);
    }
    let p0 = if p.len() == 1 {
        Some(&p[0])
    } else {
        None
    };
    let d0 = if d.len() == 1 {
        Some(&d[0])
    } else {
        None
    };
    let none_name: Option<String> = None;
    let p_rename = match p0 {
        Some(a) => &a.rename,
        None => &none_name,
    };
    let d_rename = match d0 {
        Some(a) => &a.rename,
        None => &none_name,
    };
    let p_func = match p0 {
        Some(a) => &a.with_func,
        None => &none_name,
    };
    let d_func = match d0 {
        Some(a) => &a.with_func,
        None => &none_name,
    };
    let scope = FieldDirectiveScope {
        skip: (match p0 {
            Some(a) => a.skip,
            None => false,
        }) || (match d0 {
            Some(a) => a.skip,
            None => false,
        }) || f.skip,
        rename: first_set(p_rename, d_rename, &f.rename),
        default: (match p0 {
            Some(a) => a.default,
            None => false,
        }) || (match d0 {
            Some(a) => a.default,
            None => false,
        }) || f.default,
        unwrap: (match p0 {
            Some(a) => a.unwrap,
            None => false,
        }) || (match d0 {
            Some(a) => a.unwrap,
            None => false,
        }) || f.unwrap,
        unwrap_or_default: (match p0 {
            Some(a) => a.unwrap_or_default,
            None => false,
        }) || (match d0 {
            Some(a) => a.unwrap_or_default,
            None => false,
        }) || f.unwrap_or_default,
        custom_function: first_set(p_func, d_func, &f.with_func),
    };
    Ok(scope)
}

/// One field as the synthesizer consumes it: where it comes from, where
/// it goes, and how it converts. Skipped fields are filtered out before
/// this is built, so `skip` is always false here.
#[derive(Debug, PartialEq)]
pub struct ConvertibleField {
    pub source_name: FieldIdentifier,
    pub target_name: FieldIdentifier,
    pub skip: bool,
    pub default: bool,
    pub strategy: ConversionStrategy,
    pub conversion_func: Option<String>,
}

/// The mathematical abstraction of a [`ConvertibleField`].
pub struct ConvertibleFieldModel {
    pub source_name: FieldIdModel,
    pub target_name: FieldIdModel,
    pub skip: bool,
    pub default: bool,
    pub strategy: ConversionStrategy,
    pub conversion_func: Option<Seq<char>>,
}

/// The abstraction function for convertible fields.
pub open spec fn abs_cfield(f: ConvertibleField) -> ConvertibleFieldModel {
    ConvertibleFieldModel {
        source_name: abs_id(f.source_name),
        target_name: abs_id(f.target_name),
        skip: f.skip,
        default: f.default,
        strategy: f.strategy,
        conversion_func: opt_text(f.conversion_func),
    }
}

impl View for ConvertibleField {
    type V = ConvertibleFieldModel;

    open spec fn view(&self) -> ConvertibleFieldModel {
        abs_cfield(*self)
    }
}

/// The abstraction of a list of convertible fields, elementwise.
pub open spec fn abs_cfields(fs: Seq<ConvertibleField>) -> Seq<ConvertibleFieldModel>
    decreases fs,
{
    if fs.len() == 0 {
        Seq::empty()
    } else {
        abs_cfields(fs.drop_last()).push(abs_cfield(fs.last()))
    }
}

/// `abs_cfields` maps the abstraction over the list, index by index.
pub proof fn lemma_abs_cfields(fs: Seq<ConvertibleField>)
    ensures
        abs_cfields(fs).len() == fs.len(),
        forall|i: int| 0 <= i < fs.len() ==> abs_cfields(fs)[i] == abs_cfield(#[trigger] fs[i]),
    decreases fs,
{
    if fs.len() > 0 {
        lemma_abs_cfields(fs.drop_last());
        assert forall|i: int| 0 <= i < fs.len() implies abs_cfields(fs)[i] == abs_cfield(
            #[trigger] fs[i],
        ) by {
            if i < fs.len() - 1 {
                assert(fs.drop_last()[i] == fs[i]);
                assert(abs_cfields(fs)[i] == abs_cfields(fs.drop_last())[i]);
            } else {
                assert(fs.last() == fs[i]);
            }
        }
    }
}

/// The abstraction of a list of field declarations, elementwise.
pub open spec fn abs_field_decls(fs: Seq<FieldDecl>) -> Seq<FieldDeclModel>
    decreases fs,
{
    if fs.len() == 0 {
        Seq::empty()
    } else {
        abs_field_decls(fs.drop_last()).push(abs_field_decl(fs.last()))
    }
}

/// `abs_field_decls` maps the abstraction over the list, index by index.
pub proof fn lemma_abs_field_decls(fs: Seq<FieldDecl>)
    ensures
        abs_field_decls(fs).len() == fs.len(),
        forall|i: int|
            0 <= i < fs.len() ==> abs_field_decls(fs)[i] == abs_field_decl(#[trigger] fs[i]),
    decreases fs,
{
    if fs.len() > 0 {
        lemma_abs_field_decls(fs.drop_last());
        assert forall|i: int| 0 <= i < fs.len() implies abs_field_decls(fs)[i] == abs_field_decl(
            #[trigger] fs[i],
        ) by {
            if i < fs.len() - 1 {
                assert(fs.drop_last()[i] == fs[i]);
                assert(abs_field_decls(fs)[i] == abs_field_decls(fs.drop_last())[i]);
            } else {
                assert(fs.last() == fs[i]);
            }
        }
    }
}

/// What one declared field contributes to one conversion: nothing when it
/// is skipped, a convertible field otherwise, or the fault that stops the
/// whole conversion. `i` is the field's position in the declaration.
pub open spec fn spec_field_plan(
    f: FieldDeclModel,
    i: usize,
    method: ConversionMethod,
    other: Seq<char>,
) -> Result<Option<ConvertibleFieldModel>, ConvError> {
    match spec_normalize(f, method, other) {
        Err(ScopeFault::DuplicatePath) => Err(ConvError::DuplicatePathDirective { field: i }),
        Err(ScopeFault::DuplicateDirection) => Err(
            ConvError::DuplicateDirectionDirective { field: i },
        ),
        Ok(scope) => if scope.skip {
            Ok(None)
        } else {
            match spec_resolve_with_unwrap(
                f.ty,
                method.spec_is_from(),
                scope.unwrap,
                scope.unwrap_or_default,
            ) {
                Err(UnwrapFault::Conflict) => Err(ConvError::UnwrapConflict { field: i }),
                Err(UnwrapFault::NotOptional) => Err(ConvError::UnwrapNonOptional { field: i }),
                Ok(strategy) => {
                    let own_name = match f.ident {
                        Some(name) => FieldIdModel::Named(name),
                        None => FieldIdModel::Unnamed(i as int),
                    };
                    let other_name = match scope.rename {
                        Some(name) => FieldIdModel::Named(name),
                        None => own_name,
                    };
                    let source_name = if method.spec_is_from() {
                        other_name
                    } else {
                        own_name
                    };
                    let target_name = if method.spec_is_from() {
                        own_name
                    } else {
                        other_name
                    };
                    Ok(
                        Some(
                            ConvertibleFieldModel {
                                source_name,
                                target_name,
                                skip: false,
                                default: scope.default,
                                strategy,
                                conversion_func: scope.custom_function,
                            },
                        ),
                    )
                },
            }
        },
    }
}

/// The convertible fields a declaration's field list yields for one
/// conversion, in declaration order, before the custom-function ordering
/// is applied: skipped fields contribute nothing; the first fault, in
/// declaration order, stops the conversion.
pub open spec fn spec_collect_fields(
    fields: Seq<FieldDeclModel>,
    method: ConversionMethod,
    other: Seq<char>,
) -> Result<Seq<ConvertibleFieldModel>, ConvError>
    decreases fields,
{
    if fields.len() == 0 {
        Ok(Seq::empty())
    } else {
        match spec_collect_fields(fields.drop_last(), method, other) {
            Err(e) => Err(e),
            Ok(pre) => match spec_field_plan(
                fields.last(),
                (fields.len() - 1) as usize,
                method,
                other,
            ) {
                Err(e) => Err(e),
                Ok(None) => Ok(pre),
                Ok(Some(cf)) => Ok(pre.push(cf)),
            },
        }
    }
}

/// Holds when the field carries a custom conversion function.
pub open spec fn has_custom(f: ConvertibleFieldModel) -> bool {
    f.conversion_func is Some
}

/// The convertible fields a declaration's field list yields for one
/// conversion: collected in declaration order, then fields carrying a
/// custom function are placed first, each group keeping its order. The
/// ordering only makes emitted code deterministic; it carries no meaning.
pub open spec fn spec_extract_fields(
    fields: Seq<FieldDeclModel>,
    method: ConversionMethod,
    other: Seq<char>,
) -> Result<Seq<ConvertibleFieldModel>, ConvError> {
    match spec_collect_fields(fields, method, other) {
        Err(e) => Err(e),
        Ok(cfs) => Ok(
            cfs.filter(|f: ConvertibleFieldModel| has_custom(f)) + cfs.filter(
                |f: ConvertibleFieldModel| !has_custom(f),
            ),
        ),
    }
}

/// A failed prefix decides the whole field list's fault.
proof fn lemma_collect_fields_err_extend(
    fields: Seq<FieldDeclModel>,
    method: ConversionMethod,
    other: Seq<char>,
    k: int,
)
    requires
        0 <= k <= fields.len(),
        spec_collect_fields(fields.take(k), method, other) is Err,
    ensures
        spec_collect_fields(fields, method, other) == spec_collect_fields(
            fields.take(k),
            method,
            other,
        ),
    decreases fields.len(),
{
    if k < fields.len() {
        assert(fields.drop_last().take(k) =~= fields.take(k));
        lemma_collect_fields_err_extend(fields.drop_last(), method, other, k);
    } else {
        assert(fields.take(k) =~= fields);
    }
}

/// Extracts the convertible fields of a declaration for one conversion:
/// each field's directives are normalized, skipped fields are left out,
/// each remaining field's declared type is resolved under its unwrap
/// directives, and fields carrying a custom function are ordered first.
/// In the `from`/`try_from` directions the other type is the source, so
/// each field's two names change places.
pub fn extract_convertible_fields(
    fields: &Vec<FieldDecl>,
    conversion_type: ConversionMethod,
    other_type: &str,
) -> (r: Result<Vec<ConvertibleField>, ConvError>)
    ensures
        match r {
            Ok(cfs) => spec_extract_fields(abs_field_decls(fields@), conversion_type, other_type@)
                == Ok::<Seq<ConvertibleFieldModel>, ConvError>(abs_cfields(cfs@)),
            Err(e) => spec_extract_fields(abs_field_decls(fields@), conversion_type, other_type@)
                == Err::<Seq<ConvertibleFieldModel>, ConvError>(e),
        },
{
    let ghost ms = abs_field_decls(fields@);
    proof {
        lemma_abs_field_decls(fields@);
        reveal(Seq::filter);
        assert(ms.take(0) =~= Seq::<FieldDeclModel>::empty());
    }
    let n = fields.len();
    let mut withs: Vec<ConvertibleField> = Vec::new();
    let mut withouts: Vec<ConvertibleField> = Vec::new();
    let ghost mut collected: Seq<ConvertibleFieldModel> = Seq::empty();
    let mut i: usize = 0;
    proof {
        assert(collected.filter(|f: ConvertibleFieldModel| has_custom(f)) =~= Seq::<
            ConvertibleFieldModel,
        >::empty());
        assert(collected.filter(|f: ConvertibleFieldModel| !has_custom(f)) =~= Seq::<
            ConvertibleFieldModel,
        >::empty());
    }
    while i < n
        invariant
            n == fields@.len(),
            i <= n,
            ms == abs_field_decls(fields@),
            ms.len() == n,
            forall|j: int| 0 <= j < n ==> #[trigger] ms[j] == abs_field_decl(fields@[j]),
            spec_collect_fields(ms.take(i as int), conversion_type, other_type@) == Ok::<
                Seq<ConvertibleFieldModel>,
                ConvError,
            >(collected),
            abs_cfields(withs@) == collected.filter(|f: ConvertibleFieldModel| has_custom(f)),
            abs_cfields(withouts@) == collected.filter(|f: ConvertibleFieldModel| !has_custom(f)),
        decreases n - i,
    {
        proof {
            assert(ms.take(i + 1).drop_last() =~= ms.take(i as int));
            assert(ms.take(i + 1).last() == ms[i as int]);
        }
        let f = &fields[i];
        let scope = match normalize(f, conversion_type, other_type) {
            Ok(scope) => scope,
            Err(ScopeFault::DuplicatePath) => {
                proof {
                    lemma_collect_fields_err_extend(ms, conversion_type, other_type@, i + 1);
                }
                return Err(ConvError::DuplicatePathDirective { field: i });
            },
            Err(ScopeFault::DuplicateDirection) => {
                proof {
                    lemma_collect_fields_err_extend(ms, conversion_type, other_type@, i + 1);
                }
                return Err(ConvError::DuplicateDirectionDirective { field: i });
            },
        };
        if scope.skip {
            i += 1;
            continue;
        }
        let strategy = match resolve_with_unwrap(
            &f.ty,
            conversion_type.is_from(),
            scope.unwrap,
            scope.unwrap_or_default,
        ) {
            Ok(strategy) => strategy,
            Err(UnwrapFault::Conflict) => {
                proof {
                    lemma_collect_fields_err_extend(ms, conversion_type, other_type@, i + 1);
                }
                return Err(ConvError::UnwrapConflict { field: i });
            },
            Err(UnwrapFault::NotOptional) => {
                proof {
                    lemma_collect_fields_err_extend(ms, conversion_type, other_type@, i + 1);
                }
                return Err(ConvError::UnwrapNonOptional { field: i });
            },
        };
        let own_name = match &f.ident {
            Some(name) => FieldIdentifier::Named(name.clone()),
            None => FieldIdentifier::Unnamed(i),
        };
        let other_name = match scope.rename {
            Some(name) => FieldIdentifier::Named(name),
            None => own_name.duplicate(),
        };
        let (source_name, target_name) = if conversion_type.is_from() {
            (other_name, own_name)
        } else {
            (own_name, other_name)
        };
        let cf = ConvertibleField {
            source_name,
            target_name,
            skip: false,
            default: scope.default,
            strategy,
            conversion_func: scope.custom_function,
        };
        let ghost cfm = abs_cfield(cf);
        proof {
            assert(spec_field_plan(ms[i as int], i, conversion_type, other_type@) == Ok::<
                Option<ConvertibleFieldModel>,
                ConvError,
            >(Some(cfm)));
            assert(spec_collect_fields(ms.take(i + 1), conversion_type, other_type@) == Ok::<
                Seq<ConvertibleFieldModel>,
                ConvError,
            >(collected.push(cfm)));
            reveal(Seq::filter);
            assert(collected.push(cfm).drop_last() =~= collected);
        }
        if cf.conversion_func.is_some() {
            let ghost outpre = abs_cfields(withs@);
            let ghost oldout = withs@;
            withs.push(cf);
            proof {
                lemma_abs_cfields(oldout);
                lemma_abs_cfields(withs@);
                assert forall|j: int| 0 <= j < withs@.len() implies abs_cfields(withs@)[j]
                    == outpre.push(cfm)[j] by {
                    if j < oldout.len() {
                        assert(withs@[j] == oldout[j]);
                    }
                }
                assert(abs_cfields(withs@) =~= outpre.push(cfm));
                collected = collected.push(cfm);
            }
        } else {
            let ghost outpre = abs_cfields(withouts@);
            let ghost oldout = withouts@;
            withouts.push(cf);
            proof {
                lemma_abs_cfields(oldout);
                lemma_abs_cfields(withouts@);
                assert forall|j: int| 0 <= j < withouts@.len() implies abs_cfields(withouts@)[j]
                    == outpre.push(cfm)[j] by {
                    if j < oldout.len() {
                        assert(withouts@[j] == oldout[j]);
                    }
                }
                assert(abs_cfields(withouts@) =~= outpre.push(cfm));
                collected = collected.push(cfm);
            }
        }
        i += 1;
    }
    proof {
        assert(ms.take(n as int) =~= ms);
    }
    let mut result = withs;
    let ghost withsm = abs_cfields(result@);
    let ghost withoutsm = abs_cfields(withouts@);
    let ghost before_append = result@;
    let ghost other_vec = withouts@;
    result.append(&mut withouts);
    proof {
        lemma_abs_cfields(before_append);
        lemma_abs_cfields(other_vec);
        lemma_abs_cfields(result@);
        assert forall|j: int| 0 <= j < result@.len() implies abs_cfields(result@)[j] == (withsm
            + withoutsm)[j] by {
            if j < before_append.len() {
                assert(result@[j] == before_append[j]);
            } else {
                assert(result@[j] == other_vec[j - before_append.len()]);
            }
        }
        assert(abs_cfields(result@) =~= withsm + withoutsm);
    }
    Ok(result)
}

} // verus!
