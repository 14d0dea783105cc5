//! Enum variants under conversion: how a declaration's variants pair with
//! the other side's variants, and the convertible fields each carries.

use vstd::prelude::*;
use crate::errors::ConvError;
use crate::field::{FieldDecl, FieldDeclModel, ConvertibleField, ConvertibleFieldModel,
    abs_field_decls, abs_cfields, spec_extract_fields, extract_convertible_fields};
use crate::meta::ConversionMethod;

verus! {

broadcast use vstd::std_specs::vec::axiom_vec_index_decreases, vstd::std_specs::vec::axiom_vec_decreases_to_view, vstd::seq::axiom_seq_index_decreases, vstd::seq::axiom_seq_subrange_decreases;

/// One declared variant of the enum under conversion.
#[derive(Debug, PartialEq)]
pub struct VariantDecl {
    pub ident: String,
    /// Whether the variant's fields are named; a fieldless variant is a
    /// unit variant whatever this says.
    pub named: bool,
    pub rename: Option<String>,
    pub fields: Vec<FieldDecl>,
}

/// The mathematical abstraction of a [`VariantDecl`].
pub struct VariantDeclModel {
    pub ident: Seq<char>,
    pub named: bool,
    pub rename: Option<Seq<char>>,
    pub fields: Seq<FieldDeclModel>,
}

/// The abstraction function for variant declarations.
pub open spec fn abs_variant_decl(v: VariantDecl) -> VariantDeclModel {
    VariantDeclModel {
        ident: v.ident@,
        named: v.named,
        rename: crate::field::opt_text(v.rename),
        fields: abs_field_decls(v.fields@),
    }
}

impl View for VariantDecl {
    type V = VariantDeclModel;

    open spec fn view(&self) -> VariantDeclModel {
        abs_variant_decl(*self)
    }
}

/// The abstraction of a list of variant declarations, elementwise.
pub open spec fn abs_variant_decls(vs: Seq<VariantDecl>) -> Seq<VariantDeclModel>
    decreases vs,
{
    if vs.len() == 0 {
        Seq::empty()
    } else {
        abs_variant_decls(vs.drop_last()).push(abs_variant_decl(vs.last()))
    }
}

/// `abs_variant_decls` maps the abstraction over the list, index by index.
pub proof fn lemma_abs_variant_decls(vs: Seq<VariantDecl>)
    ensures
        abs_variant_decls(vs).len() == vs.len(),
        forall|i: int|
            0 <= i < vs.len() ==> abs_variant_decls(vs)[i] == abs_variant_decl(#[trigger] vs[i]),
    decreases vs,
{
    if vs.len() > 0 {
        lemma_abs_variant_decls(vs.drop_last());
        assert forall|i: int| 0 <= i < vs.len() implies abs_variant_decls(vs)[i]
            == abs_variant_decl(#[trigger] vs[i]) by {
            if i < vs.len() - 1 {
                assert(vs.drop_last()[i] == vs[i]);
                assert(abs_variant_decls(vs)[i] == abs_variant_decls(vs.drop_last())[i]);
            } else {
                assert(vs.last() == vs[i]);
            }
        }
    }
}

/// The abstraction of a list of names, elementwise.
pub open spec fn abs_names(ns: Seq<String>) -> Seq<Seq<char>>
    decreases ns,
{
    if ns.len() == 0 {
        Seq::empty()
    } else {
        abs_names(ns.drop_last()).push(ns.last()@)
    }
}

/// `abs_names` maps the view over the list, index by index.
pub proof fn lemma_abs_names(ns: Seq<String>)
    ensures
        abs_names(ns).len() == ns.len(),
        forall|i: int| 0 <= i < ns.len() ==> abs_names(ns)[i] == (#[trigger] ns[i])@,
    decreases ns,
{
    if ns.len() > 0 {
        lemma_abs_names(ns.drop_last());
        assert forall|i: int| 0 <= i < ns.len() implies abs_names(ns)[i] == (#[trigger] ns[i])@ by {
            if i < ns.len() - 1 {
                assert(ns.drop_last()[i] == ns[i]);
                assert(abs_names(ns)[i] == abs_names(ns.drop_last())[i]);
            } else {
                assert(ns.last() == ns[i]);
            }
        }
    }
}

/// One pairing of a source variant with a target variant, with the fields
/// it converts. Unit variants carry no fields and map directly.
#[derive(Debug, PartialEq)]
pub struct ConversionVariant {
    pub source_name: String,
    pub target_name: String,
    pub named_variant: bool,
    pub fields: Vec<ConvertibleField>,
}

/// The mathematical abstraction of a [`ConversionVariant`].
pub struct ConversionVariantModel {
    pub source_name: Seq<char>,
    pub target_name: Seq<char>,
    pub named_variant: bool,
    pub fields: Seq<ConvertibleFieldModel>,
}

/// The abstraction function for conversion variants.
pub open spec fn abs_cvariant(v: ConversionVariant) -> ConversionVariantModel {
    ConversionVariantModel {
        source_name: v.source_name@,
        target_name: v.target_name@,
        named_variant: v.named_variant,
        fields: abs_cfields(v.fields@),
    }
}

impl View for ConversionVariant {
    type V = ConversionVariantModel;

    open spec fn view(&self) -> ConversionVariantModel {
        abs_cvariant(*self)
    }
}

/// The abstraction of a list of conversion variants, elementwise.
pub open spec fn abs_cvariants(vs: Seq<ConversionVariant>) -> Seq<ConversionVariantModel>
    decreases vs,
{
    if vs.len() == 0 {
        Seq::empty()
    } else {
        abs_cvariants(vs.drop_last()).push(abs_cvariant(vs.last()))
    }
}

/// `abs_cvariants` maps the abstraction over the list, index by index.
pub proof fn lemma_abs_cvariants(vs: Seq<ConversionVariant>)
    ensures
        abs_cvariants(vs).len() == vs.len(),
        forall|i: int|
            0 <= i < vs.len() ==> abs_cvariants(vs)[i] == abs_cvariant(#[trigger] vs[i]),
    decreases vs,
{
    if vs.len() > 0 {
        lemma_abs_cvariants(vs.drop_last());
        assert forall|i: int| 0 <= i < vs.len() implies abs_cvariants(vs)[i] == abs_cvariant(
            #[trigger] vs[i],
        ) by {
            if i < vs.len() - 1 {
                assert(vs.drop_last()[i] == vs[i]);
                assert(abs_cvariants(vs)[i] == abs_cvariants(vs.drop_last())[i]);
            } else {
                assert(vs.last() == vs[i]);
            }
        }
    }
}

/// The name a variant maps to on the other side: its rename when one is
/// declared, else its own name.
pub open spec fn spec_mapped_name(v: VariantDeclModel) -> Seq<char> {
    match v.rename {
        Some(name) => name,
        None => v.ident,
    }
}

/// The first variant, in order, whose mapped name is not among the other
/// side's variant names.
pub open spec fn spec_missing_counterpart(
    variants: Seq<VariantDeclModel>,
    names: Seq<Seq<char>>,
) -> Option<int>
    decreases variants,
{
    if variants.len() == 0 {
        None
    } else {
        match spec_missing_counterpart(variants.drop_last(), names) {
            Some(i) => Some(i),
            None => if names.contains(spec_mapped_name(variants.last())) {
                None
            } else {
                Some(variants.len() - 1)
            },
        }
    }
}

/// Whether some variant maps to the given name.
pub open spec fn spec_covers(variants: Seq<VariantDeclModel>, name: Seq<char>) -> bool {
    exists|i: int| 0 <= i < variants.len() && spec_mapped_name(#[trigger] variants[i]) == name
}

/// The first of the other side's variant names, in order, that no variant
/// here maps to.
pub open spec fn spec_unmatched(variants: Seq<VariantDeclModel>, names: Seq<Seq<char>>) -> Option<
    int,
>
    decreases names,
{
    if names.len() == 0 {
        None
    } else {
        match spec_unmatched(variants, names.drop_last()) {
            Some(i) => Some(i),
            None => if spec_covers(variants, names.last()) {
                None
            } else {
                Some(names.len() - 1)
            },
        }
    }
}

/// The pairing check between the declared variants and the other side's
/// variant names: every variant's mapped name must exist over there, and
/// every name over there must be mapped to.
pub open spec fn spec_check_pairing(
    variants: Seq<VariantDeclModel>,
    names: Seq<Seq<char>>,
) -> Result<(), ConvError> {
    match spec_missing_counterpart(variants, names) {
        Some(i) => Err(ConvError::MissingCounterpart { variant: i as usize }),
        None => match spec_unmatched(variants, names) {
            Some(j) => Err(ConvError::UnmatchedVariant { other: j as usize }),
            None => Ok(()),
        },
    }
}

/// The conversion variant one declared variant yields: names paired by
/// the mapped name (the other side is the source in the `from`
/// directions), fields extracted like a struct's.
pub open spec fn spec_variant_plan(
    v: VariantDeclModel,
    method: ConversionMethod,
    other: Seq<char>,
) -> Result<ConversionVariantModel, ConvError> {
    match spec_extract_fields(v.fields, method, other) {
        Err(e) => Err(e),
        Ok(fields) => {
            let own = v.ident;
            let mapped = spec_mapped_name(v);
            Ok(
                ConversionVariantModel {
                    source_name: if method.spec_is_from() {
                        mapped
                    } else {
                        own
                    },
                    target_name: if method.spec_is_from() {
                        own
                    } else {
                        mapped
                    },
                    named_variant: v.named,
                    fields,
                },
            )
        },
    }
}

/// The conversion variants a declaration yields, in declaration order;
/// the first fault stops the conversion.
pub open spec fn spec_collect_variants(
    variants: Seq<VariantDeclModel>,
    method: ConversionMethod,
    other: Seq<char>,
) -> Result<Seq<ConversionVariantModel>, ConvError>
    decreases variants,
{
    if variants.len() == 0 {
        Ok(Seq::empty())
    } else {
        match spec_collect_variants(variants.drop_last(), method, other) {
            Err(e) => Err(e),
            Ok(pre) => match spec_variant_plan(variants.last(), method, other) {
                Err(e) => Err(e),
                Ok(cv) => Ok(pre.push(cv)),
            },
        }
    }
}

/// The conversion variants of one enum conversion: when the other side's
/// variant names are known, the pairing is checked first; then each
/// variant's fields are extracted.
pub open spec fn spec_extract_variants(
    variants: Seq<VariantDeclModel>,
    method: ConversionMethod,
    other: Seq<char>,
    names: Option<Seq<Seq<char>>>,
) -> Result<Seq<ConversionVariantModel>, ConvError> {
    match names {
        Some(ns) => match spec_check_pairing(variants, ns) {
            Err(e) => Err(e),
            Ok(()) => spec_collect_variants(variants, method, other),
        },
        None => spec_collect_variants(variants, method, other),
    }
}

/// A failed prefix decides the whole variant list's fault.
proof fn lemma_collect_variants_err_extend(
    variants: Seq<VariantDeclModel>,
    method: ConversionMethod,
    other: Seq<char>,
    k: int,
)
    requires
        0 <= k <= variants.len(),
        spec_collect_variants(variants.take(k), method, other) is Err,
    ensures
        spec_collect_variants(variants, method, other) == spec_collect_variants(
            variants.take(k),
            method,
            other,
        ),
    decreases variants.len(),
{
    if k < variants.len() {
        assert(variants.drop_last().take(k) =~= variants.take(k));
        lemma_collect_variants_err_extend(variants.drop_last(), method, other, k);
    } else {
        assert(variants.take(k) =~= variants);
    }
}

/// `spec_missing_counterpart` finds the first uncovered variant, if any.
proof fn lemma_missing_counterpart(variants: Seq<VariantDeclModel>, names: Seq<Seq<char>>)
    ensures
        match spec_missing_counterpart(variants, names) {
            Some(i) => {
                &&& 0 <= i < variants.len()
                &&& !names.contains(spec_mapped_name(variants[i]))
                &&& forall|j: int|
                    0 <= j < i ==> names.contains(spec_mapped_name(#[trigger] variants[j]))
            },
            None => forall|j: int|
                0 <= j < variants.len() ==> names.contains(
                    spec_mapped_name(#[trigger] variants[j]),
                ),
        },
    decreases variants,
{
    if variants.len() > 0 {
        lemma_missing_counterpart(variants.drop_last(), names);
        assert(forall|j: int|
            0 <= j < variants.len() - 1 ==> #[trigger] variants[j] == variants.drop_last()[j]);
    }
}

/// `spec_unmatched` finds the first unmapped name, if any.
proof fn lemma_unmatched(variants: Seq<VariantDeclModel>, names: Seq<Seq<char>>)
    ensures
        match spec_unmatched(variants, names) {
            Some(i) => {
                &&& 0 <= i < names.len()
                &&& !spec_covers(variants, names[i])
                &&& forall|j: int| 0 <= j < i ==> spec_covers(variants, #[trigger] names[j])
            },
            None => forall|j: int| 0 <= j < names.len() ==> spec_covers(variants, #[trigger] names[j]),
        },
    decreases names,
{
    if names.len() > 0 {
        lemma_unmatched(variants, names.drop_last());
        assert(forall|j: int|
            0 <= j < names.len() - 1 ==> #[trigger] names[j] == names.drop_last()[j]);
    }
}

/// The variant's mapped name, at run time.
fn mapped_name<'a>(v: &'a VariantDecl) -> (r: &'a String)
    ensures
        r@ == spec_mapped_name(v@),
{
    match &v.rename {
        Some(name) => name,
        None => &v.ident,
    }
}

/// Whether some variant maps to the given name, at run time.
fn covers(variants: &Vec<VariantDecl>, name: &String) -> (r: bool)
    ensures
        r == spec_covers(abs_variant_decls(variants@), name@),
{
    proof {
        lemma_abs_variant_decls(variants@);
    }
    let n = variants.len();
    let mut i: usize = 0;
    while i < n
        invariant
            n == variants@.len(),
            i <= n,
            abs_variant_decls(variants@).len() == n,
            forall|j: int|
                0 <= j < n ==> #[trigger] abs_variant_decls(variants@)[j] == abs_variant_decl(
                    variants@[j],
                ),
            forall|j: int|
                0 <= j < i ==> spec_mapped_name(
                    #[trigger] abs_variant_decls(variants@)[j],
                ) != name@,
        decreases n - i,
    {
        if mapped_name(&variants[i]).eq(name) {
            proof {
                assert(spec_mapped_name(abs_variant_decls(variants@)[i as int]) == name@);
            }
            return true;
        }
        i += 1;
    }
    proof {
        assert forall|j: int| 0 <= j < n implies spec_mapped_name(
            #[trigger] abs_variant_decls(variants@)[j],
        ) != name@ by {}
    }
    false
}

/// Checks the pairing between the declared variants and the other side's
/// variant names.
fn check_pairing(variants: &Vec<VariantDecl>, names: &Vec<String>) -> (r: Result<(), ConvError>)
    ensures
        r == spec_check_pairing(abs_variant_decls(variants@), abs_names(names@)),
{
    let ghost vs = abs_variant_decls(variants@);
    let ghost ns = abs_names(names@);
    proof {
        lemma_abs_variant_decls(variants@);
        lemma_abs_names(names@);
        lemma_missing_counterpart(vs, ns);
        lemma_unmatched(vs, ns);
    }
    let n = variants.len();
    let mut i: usize = 0;
    while i < n
        invariant
            n == variants@.len(),
            i <= n,
            vs == abs_variant_decls(variants@),
            ns == abs_names(names@),
            vs.len() == n,
            ns.len() == names@.len(),
            forall|j: int| 0 <= j < n ==> #[trigger] vs[j] == abs_variant_decl(variants@[j]),
            forall|j: int| 0 <= j < ns.len() ==> #[trigger] ns[j] == names@[j]@,
            forall|j: int| 0 <= j < i ==> ns.contains(spec_mapped_name(#[trigger] vs[j])),
        decreases n - i,
    {
        let name = mapped_name(&variants[i]);
        let mut found = false;
        let m = names.len();
        let mut k: usize = 0;
        while k < m
            invariant
                m == names@.len(),
                k <= m,
                ns == abs_names(names@),
                ns.len() == m,
                forall|j: int| 0 <= j < m ==> #[trigger] ns[j] == names@[j]@,
                name@ == spec_mapped_name(vs[i as int]),
                found == (exists|j: int| 0 <= j < k && #[trigger] ns[j] == name@),
            decreases m - k,
        {
            if names[k].eq(name) {
                found = true;
                proof {
                    assert(ns[k as int] == name@);
                }
            }
            k += 1;
        }
        if !found {
            proof {
                assert(!ns.contains(spec_mapped_name(vs[i as int]))) by {
                    if ns.contains(spec_mapped_name(vs[i as int])) {
                        let j = choose|j: int|
                            0 <= j < ns.len() && ns[j] == spec_mapped_name(vs[i as int]);
                        assert(exists|jj: int| 0 <= jj < m && #[trigger] ns[jj] == name@);
                    }
                }
                lemma_missing_counterpart(vs, ns);
                assert(spec_missing_counterpart(vs, ns) matches Some(x) && x == i) by {
                    match spec_missing_counterpart(vs, ns) {
                        Some(x) => {
                            if x < i {
                                assert(ns.contains(spec_mapped_name(vs[x])));
                            }
                            if x > i {
                                assert(ns.contains(spec_mapped_name(vs[i as int])));
                            }
                        },
                        None => {
                            assert(ns.contains(spec_mapped_name(vs[i as int])));
                        },
                    }
                }
            }
            return Err(ConvError::MissingCounterpart { variant: i });
        }
        proof {
            let j = choose|j: int| 0 <= j < m && #[trigger] ns[j] == name@;
            assert(ns.contains(spec_mapped_name(vs[i as int])));
        }
        i += 1;
    }
    proof {
        lemma_missing_counterpart(vs, ns);
        assert(spec_missing_counterpart(vs, ns) is None) by {
            match spec_missing_counterpart(vs, ns) {
                Some(x) => {
                    assert(ns.contains(spec_mapped_name(vs[x])));
                },
                None => {},
            }
        }
    }
    let m = names.len();
    let mut k: usize = 0;
    while k < m
        invariant
            m == names@.len(),
            k <= m,
            vs == abs_variant_decls(variants@),
            ns == abs_names(names@),
            ns.len() == m,
            spec_missing_counterpart(vs, ns) is None,
            forall|j: int| 0 <= j < m ==> #[trigger] ns[j] == names@[j]@,
            forall|j: int| 0 <= j < k ==> spec_covers(vs, #[trigger] ns[j]),
        decreases m - k,
    {
        if !covers(variants, &names[k]) {
            proof {
                lemma_unmatched(vs, ns);
                assert(spec_unmatched(vs, ns) matches Some(x) && x == k) by {
                    match spec_unmatched(vs, ns) {
                        Some(x) => {
                            if x < k {
                                assert(spec_covers(vs, ns[x]));
                            }
                            if x > k {
                                assert(spec_covers(vs, ns[k as int]));
                            }
                        },
                        None => {
                            assert(spec_covers(vs, ns[k as int]));
                        },
                    }
                }
            }
            return Err(ConvError::UnmatchedVariant { other: k });
        }
        k += 1;
    }
    proof {
        lemma_unmatched(vs, ns);
        assert(spec_unmatched(vs, ns) is None) by {
            match spec_unmatched(vs, ns) {
                Some(x) => {
                    assert(spec_covers(vs, ns[x]));
                },
                None => {},
            }
        }
    }
    Ok(())
}

/// Extracts the conversion variants of one enum conversion. When the
/// other side's variant names are known, variants are paired by mapped
/// name first: a variant with no counterpart there, or a name there that
/// no variant maps to, stops the conversion. Each variant's fields are
/// then extracted exactly like a struct's.
pub fn extract_enum_variants(
    variants: &Vec<VariantDecl>,
    conversion_type: ConversionMethod,
    other_type: &str,
    other_variants: Option<&Vec<String>>,
) -> (r: Result<Vec<ConversionVariant>, ConvError>)
    ensures
        match r {
            Ok(cvs) => spec_extract_variants(
                abs_variant_decls(variants@),
                conversion_type,
                other_type@,
                match other_variants {
                    Some(ns) => Some(abs_names(ns@)),
                    None => None,
                },
            ) == Ok::<Seq<ConversionVariantModel>, ConvError>(abs_cvariants(cvs@)),
            Err(e) => spec_extract_variants(
                abs_variant_decls(variants@),
                conversion_type,
                other_type@,
                match other_variants {
                    Some(ns) => Some(abs_names(ns@)),
                    None => None,
                },
            ) == Err::<Seq<ConversionVariantModel>, ConvError>(e),
        },
{
    let ghost vs = abs_variant_decls(variants@);
    proof {
        lemma_abs_variant_decls(variants@);
        assert(vs.take(0) =~= Seq::<VariantDeclModel>::empty());
    }
    if let Some(ns) = other_variants {
        match check_pairing(variants, ns) {
            Err(e) => {
                return Err(e);
            },
            Ok(_) => {
                proof {
                    assert(spec_check_pairing(vs, abs_names(ns@)) == Ok::<(), ConvError>(()));
                }
            },
        }
    }
    let ghost pairing_ok: bool = match other_variants {
        Some(ns) => spec_check_pairing(vs, abs_names(ns@)) == Ok::<(), ConvError>(()),
        None => true,
    };
    proof {
        assert(pairing_ok);
    }
    let n = variants.len();
    let mut out: Vec<ConversionVariant> = Vec::new();
    let ghost mut made: Seq<ConversionVariantModel> = Seq::empty();
    let mut i: usize = 0;
    while i < n
        invariant
            n == variants@.len(),
            i <= n,
            vs == abs_variant_decls(variants@),
            vs.len() == n,
            forall|j: int| 0 <= j < n ==> #[trigger] vs[j] == abs_variant_decl(variants@[j]),
            spec_collect_variants(vs.take(i as int), conversion_type, other_type@) == Ok::<
                Seq<ConversionVariantModel>,
                ConvError,
            >(made),
            abs_cvariants(out@) == made,
            pairing_ok,
            pairing_ok == (match other_variants {
                Some(ns) => spec_check_pairing(vs, abs_names(ns@)) == Ok::<(), ConvError>(()),
                None => true,
            }),
        decreases n - i,
    {
        proof {
            assert(vs.take(i + 1).drop_last() =~= vs.take(i as int));
            assert(vs.take(i + 1).last() == vs[i as int]);
        }
        let v = &variants[i];
        let fields = match extract_convertible_fields(&v.fields, conversion_type, other_type) {
            Ok(fields) => fields,
            Err(e) => {
                proof {
                    assert(vs[i as int].fields == abs_field_decls(v.fields@));
                    assert(spec_variant_plan(vs[i as int], conversion_type, other_type@) == Err::<
                        ConversionVariantModel,
                        ConvError,
                    >(e));
                    assert(spec_collect_variants(vs.take(i + 1), conversion_type, other_type@)
                        == Err::<Seq<ConversionVariantModel>, ConvError>(e));
                    lemma_collect_variants_err_extend(vs, conversion_type, other_type@, i + 1);
                }
                return Err(e);
            },
        };
        let own = v.ident.clone();
        let mapped = mapped_name(v).clone();
        let (source_name, target_name) = if conversion_type.is_from() {
            (mapped, own)
        } else {
            (own, mapped)
        };
        let cv = ConversionVariant { source_name, target_name, named_variant: v.named, fields };
        let ghost cvm = abs_cvariant(cv);
        proof {
            assert(spec_variant_plan(vs[i as int], conversion_type, other_type@) == Ok::<
                ConversionVariantModel,
                ConvError,
            >(cvm));
        }
        let ghost oldout = out@;
        out.push(cv);
        proof {
            lemma_abs_cvariants(oldout);
            lemma_abs_cvariants(out@);
            assert forall|j: int| 0 <= j < out@.len() implies abs_cvariants(out@)[j] == made.push(
                cvm,
            )[j] by {
                if j < oldout.len() {
                    assert(out@[j] == oldout[j]);
                }
            }
            assert(abs_cvariants(out@) =~= made.push(cvm));
            made = made.push(cvm);
        }
        i += 1;
    }
    proof {
        assert(vs.take(n as int) =~= vs);
    }
    Ok(out)
}

} // verus!
