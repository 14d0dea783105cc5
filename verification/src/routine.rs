//! Assembling conversions: from one annotated type declaration to one
//! generated routine per declared conversion.

use vstd::prelude::*;
use crate::errors::ConvError;
use crate::field::{FieldDecl, FieldDeclModel, ConvertibleField, ConvertibleFieldModel,
    abs_field_decls, abs_cfields, spec_extract_fields, extract_convertible_fields};
use crate::meta::{ConversionMeta, MetaModel, TypeDirectives, TypeDirectivesModel, abs_meta,
    abs_metas, lemma_abs_metas, spec_extract_conversions, extract_conversions};
use crate::variant::{VariantDecl, VariantDeclModel, ConversionVariant, ConversionVariantModel,
    abs_variant_decls, abs_cvariants, abs_names, spec_extract_variants, extract_enum_variants};

verus! {

broadcast use vstd::std_specs::vec::axiom_vec_index_decreases, vstd::std_specs::vec::axiom_vec_decreases_to_view, vstd::seq::axiom_seq_index_decreases, vstd::seq::axiom_seq_subrange_decreases;

/// The shape of an aggregate's field list.
#[derive(Debug, PartialEq, Eq, Structural, Clone, Copy)]
pub enum FieldsShape {
    /// Curly-brace fields, addressed by name.
    Named,
    /// Parenthesized fields, addressed by position.
    Positional,
    /// No field list at all.
    Unit,
}

/// The body of the declaration under conversion.
#[derive(Debug, PartialEq)]
pub enum TypeBody {
    Struct { shape: FieldsShape, fields: Vec<FieldDecl> },
    Enum { variants: Vec<VariantDecl> },
}

/// The mathematical abstraction of a [`TypeBody`].
pub enum TypeBodyModel {
    Struct { shape: FieldsShape, fields: Seq<FieldDeclModel> },
    Enum { variants: Seq<VariantDeclModel> },
}

/// The abstraction function for type bodies.
pub open spec fn abs_type_body(b: TypeBody) -> TypeBodyModel {
    match b {
        TypeBody::Struct { shape, fields } => TypeBodyModel::Struct {
            shape,
            fields: abs_field_decls(fields@),
        },
        TypeBody::Enum { variants } => TypeBodyModel::Enum {
            variants: abs_variant_decls(variants@),
        },
    }
}

impl View for TypeBody {
    type V = TypeBodyModel;

    open spec fn view(&self) -> TypeBodyModel {
        abs_type_body(*self)
    }
}

/// One annotated declaration: its directive bag and its body.
#[derive(Debug, PartialEq)]
pub struct TypeDecl {
    pub directives: TypeDirectives,
    pub body: TypeBody,
}

/// The mathematical abstraction of a [`TypeDecl`].
pub struct TypeDeclModel {
    pub directives: TypeDirectivesModel,
    pub body: TypeBodyModel,
}

/// The abstraction function for declarations.
pub open spec fn abs_type_decl(d: TypeDecl) -> TypeDeclModel {
    TypeDeclModel {
        directives: crate::meta::abs_type_directives(d.directives),
        body: abs_type_body(d.body),
    }
}

impl View for TypeDecl {
    type V = TypeDeclModel;

    open spec fn view(&self) -> TypeDeclModel {
        abs_type_decl(*self)
    }
}

/// The other side of an enum conversion, as the type-description facility
/// knows it: the type's name and its variant names.
#[derive(Debug, PartialEq)]
pub struct EnumShape {
    pub name: String,
    pub variants: Vec<String>,
}

/// The mathematical abstraction of an [`EnumShape`].
pub struct EnumShapeModel {
    pub name: Seq<char>,
    pub variants: Seq<Seq<char>>,
}

/// The abstraction function for enum shapes.
pub open spec fn abs_enum_shape(s: EnumShape) -> EnumShapeModel {
    EnumShapeModel { name: s.name@, variants: abs_names(s.variants@) }
}

impl View for EnumShape {
    type V = EnumShapeModel;

    open spec fn view(&self) -> EnumShapeModel {
        abs_enum_shape(*self)
    }
}

/// The abstraction of a list of enum shapes, elementwise.
pub open spec fn abs_enum_shapes(ss: Seq<EnumShape>) -> Seq<EnumShapeModel>
    decreases ss,
{
    if ss.len() == 0 {
        Seq::empty()
    } else {
        abs_enum_shapes(ss.drop_last()).push(abs_enum_shape(ss.last()))
    }
}

/// `abs_enum_shapes` maps the abstraction over the list, index by index.
pub proof fn lemma_abs_enum_shapes(ss: Seq<EnumShape>)
    ensures
        abs_enum_shapes(ss).len() == ss.len(),
        forall|i: int|
            0 <= i < ss.len() ==> abs_enum_shapes(ss)[i] == abs_enum_shape(#[trigger] ss[i]),
    decreases ss,
{
    if ss.len() > 0 {
        lemma_abs_enum_shapes(ss.drop_last());
        assert forall|i: int| 0 <= i < ss.len() implies abs_enum_shapes(ss)[i] == abs_enum_shape(
            #[trigger] ss[i],
        ) by {
            if i < ss.len() - 1 {
                assert(ss.drop_last()[i] == ss[i]);
                assert(abs_enum_shapes(ss)[i] == abs_enum_shapes(ss.drop_last())[i]);
            } else {
                assert(ss.last() == ss[i]);
            }
        }
    }
}

/// The variant names of the first enum shape carrying the given name.
pub open spec fn spec_lookup_shape(shapes: Seq<EnumShapeModel>, name: Seq<char>) -> Option<
    Seq<Seq<char>>,
>
    decreases shapes,
{
    if shapes.len() == 0 {
        None
    } else {
        match spec_lookup_shape(shapes.drop_last(), name) {
            Some(vs) => Some(vs),
            None => if shapes.last().name == name {
                Some(shapes.last().variants)
            } else {
                None
            },
        }
    }
}

/// One generated conversion routine's body: the per-field expressions of
/// a struct conversion, or the per-variant arms of an enum conversion.
#[derive(Debug, PartialEq)]
pub enum RoutineBody {
    Struct { named: bool, fields: Vec<ConvertibleField> },
    Enum { variants: Vec<ConversionVariant> },
}

/// The mathematical abstraction of a [`RoutineBody`].
pub enum RoutineBodyModel {
    Struct { named: bool, fields: Seq<ConvertibleFieldModel> },
    Enum { variants: Seq<ConversionVariantModel> },
}

/// The abstraction function for routine bodies.
pub open spec fn abs_routine_body(b: RoutineBody) -> RoutineBodyModel {
    match b {
        RoutineBody::Struct { named, fields } => RoutineBodyModel::Struct {
            named,
            fields: abs_cfields(fields@),
        },
        RoutineBody::Enum { variants } => RoutineBodyModel::Enum {
            variants: abs_cvariants(variants@),
        },
    }
}

impl View for RoutineBody {
    type V = RoutineBodyModel;

    open spec fn view(&self) -> RoutineBodyModel {
        abs_routine_body(*self)
    }
}

/// One generated conversion routine: its metadata and its body. This is
/// the emittable form of the conversion; its run-time meaning is given by
/// the routine runners.
#[derive(Debug, PartialEq)]
pub struct GeneratedRoutine {
    pub meta: ConversionMeta,
    pub body: RoutineBody,
}

/// The mathematical abstraction of a [`GeneratedRoutine`].
pub struct RoutineModel {
    pub meta: MetaModel,
    pub body: RoutineBodyModel,
}

/// The abstraction function for generated routines.
pub open spec fn abs_routine(r: GeneratedRoutine) -> RoutineModel {
    RoutineModel { meta: abs_meta(r.meta), body: abs_routine_body(r.body) }
}

impl View for GeneratedRoutine {
    type V = RoutineModel;

    open spec fn view(&self) -> RoutineModel {
        abs_routine(*self)
    }
}

/// The routine one struct conversion assembles to, or its fault: a unit
/// shape cannot convert, the fields are extracted, and a plan that fills
/// remaining fields with defaults demands a named target shape.
pub open spec fn spec_struct_conversion(
    meta: MetaModel,
    shape: FieldsShape,
    fields: Seq<FieldDeclModel>,
) -> Result<RoutineModel, ConvError> {
    if shape is Unit {
        Err(ConvError::UnitShape)
    } else {
        match spec_extract_fields(fields, meta.method, spec_other_of(meta)) {
            Err(e) => Err(e),
            Ok(cfs) => if meta.default_allowed && !(shape is Named) {
                Err(ConvError::DefaultOnPositional)
            } else {
                Ok(
                    RoutineModel {
                        meta,
                        body: RoutineBodyModel::Struct { named: shape is Named, fields: cfs },
                    },
                )
            },
        }
    }
}

/// The type on the other side of a conversion, by its metadata.
pub open spec fn spec_other_of(meta: MetaModel) -> Seq<char> {
    if meta.method.spec_is_from() {
        meta.source_name
    } else {
        meta.target_name
    }
}

/// The routine one enum conversion assembles to, or its fault. The other
/// side's variant names take part when its shape is known.
pub open spec fn spec_enum_conversion(
    meta: MetaModel,
    variants: Seq<VariantDeclModel>,
    shapes: Seq<EnumShapeModel>,
) -> Result<RoutineModel, ConvError> {
    match spec_extract_variants(
        variants,
        meta.method,
        spec_other_of(meta),
        spec_lookup_shape(shapes, spec_other_of(meta)),
    ) {
        Err(e) => Err(e),
        Ok(cvs) => Ok(RoutineModel { meta, body: RoutineBodyModel::Enum { variants: cvs } }),
    }
}

/// What one declared conversion of a declaration assembles to.
pub open spec fn spec_conversion_of(
    meta: MetaModel,
    body: TypeBodyModel,
    shapes: Seq<EnumShapeModel>,
) -> Result<RoutineModel, ConvError> {
    match body {
        TypeBodyModel::Struct { shape, fields } => spec_struct_conversion(meta, shape, fields),
        TypeBodyModel::Enum { variants } => spec_enum_conversion(meta, variants, shapes),
    }
}

/// What a whole declaration generates: one outcome per declared
/// conversion, in directive order; a fault in one conversion leaves its
/// siblings untouched. A fault in the directive bag itself stops
/// everything.
pub open spec fn spec_derive(d: TypeDeclModel, shapes: Seq<EnumShapeModel>) -> Result<
    Seq<Result<RoutineModel, ConvError>>,
    ConvError,
> {
    match spec_extract_conversions(d.directives) {
        Err(e) => Err(e),
        Ok(metas) => Ok(
            Seq::new(metas.len(), |i: int| spec_conversion_of(metas[i], d.body, shapes)),
        ),
    }
}

/// The abstraction of one per-conversion outcome.
pub open spec fn abs_outcome(r: Result<GeneratedRoutine, ConvError>) -> Result<
    RoutineModel,
    ConvError,
> {
    match r {
        Ok(routine) => Ok(abs_routine(routine)),
        Err(e) => Err(e),
    }
}

/// The abstraction of a list of per-conversion outcomes, elementwise.
pub open spec fn abs_outcomes(rs: Seq<Result<GeneratedRoutine, ConvError>>) -> Seq<
    Result<RoutineModel, ConvError>,
>
    decreases rs,
{
    if rs.len() == 0 {
        Seq::empty()
    } else {
        abs_outcomes(rs.drop_last()).push(
            match rs.last() {
                Ok(r) => Ok(abs_routine(r)),
                Err(e) => Err(e),
            },
        )
    }
}

/// `abs_outcomes` maps the abstraction over the list, index by index.
pub proof fn lemma_abs_outcomes(rs: Seq<Result<GeneratedRoutine, ConvError>>)
    ensures
        abs_outcomes(rs).len() == rs.len(),
        forall|i: int|
            0 <= i < rs.len() ==> abs_outcomes(rs)[i] == (match #[trigger] rs[i] {
                Ok(r) => Ok::<RoutineModel, ConvError>(abs_routine(r)),
                Err(e) => Err(e),
            }),
    decreases rs,
{
    if rs.len() > 0 {
        lemma_abs_outcomes(rs.drop_last());
        assert forall|i: int| 0 <= i < rs.len() implies abs_outcomes(rs)[i] == (
        match #[trigger] rs[i] {
            Ok(r) => Ok::<RoutineModel, ConvError>(abs_routine(r)),
            Err(e) => Err(e),
        }) by {
            if i < rs.len() - 1 {
                assert(rs.drop_last()[i] == rs[i]);
                assert(abs_outcomes(rs)[i] == abs_outcomes(rs.drop_last())[i]);
            } else {
                assert(rs.last() == rs[i]);
            }
        }
    }
}

/// Looks up the other side's variant names among the known enum shapes.
fn lookup_shape<'a>(shapes: &'a Vec<EnumShape>, name: &str) -> (r: Option<&'a Vec<String>>)
    ensures
        match r {
            Some(vs) => spec_lookup_shape(abs_enum_shapes(shapes@), name@) == Some(abs_names(vs@)),
            None => spec_lookup_shape(abs_enum_shapes(shapes@), name@) is None,
        },
{
    let ghost ss = abs_enum_shapes(shapes@);
    proof {
        lemma_abs_enum_shapes(shapes@);
    }
    let n = shapes.len();
    let mut i: usize = 0;
    while i < n
        invariant
            n == shapes@.len(),
            i <= n,
            ss == abs_enum_shapes(shapes@),
            ss.len() == n,
            forall|j: int| 0 <= j < n ==> #[trigger] ss[j] == abs_enum_shape(shapes@[j]),
            spec_lookup_shape(ss.take(i as int), name@) is None,
        decreases n - i,
    {
        proof {
            assert(ss.take(i + 1).drop_last() =~= ss.take(i as int));
            assert(ss.take(i + 1).last() == ss[i as int]);
        }
        if shapes[i].name.eq(&name.to_owned()) {
            proof {
                assert(spec_lookup_shape(ss.take(i + 1), name@) == Some(ss[i as int].variants));
                lemma_lookup_extend(ss, name@, i + 1);
            }
            return Some(&shapes[i].variants);
        }
        i += 1;
    }
    proof {
        assert(ss.take(n as int) =~= ss);
    }
    None
}

/// A found prefix decides the whole shape list's lookup.
proof fn lemma_lookup_extend(shapes: Seq<EnumShapeModel>, name: Seq<char>, k: int)
    requires
        0 <= k <= shapes.len(),
        spec_lookup_shape(shapes.take(k), name) is Some,
    ensures
        spec_lookup_shape(shapes, name) == spec_lookup_shape(shapes.take(k), name),
    decreases shapes.len(),
{
    if k < shapes.len() {
        assert(shapes.drop_last().take(k) =~= shapes.take(k));
        lemma_lookup_extend(shapes.drop_last(), name, k);
    } else {
        assert(shapes.take(k) =~= shapes);
    }
}

/// Assembles one struct conversion into a generated routine.
pub fn implement_struct_conversion(
    meta: ConversionMeta,
    shape: FieldsShape,
    fields: &Vec<FieldDecl>,
) -> (r: Result<GeneratedRoutine, ConvError>)
    ensures
        match r {
            Ok(routine) => spec_struct_conversion(meta@, shape, abs_field_decls(fields@)) == Ok::<
                RoutineModel,
                ConvError,
            >(routine@),
            Err(e) => spec_struct_conversion(meta@, shape, abs_field_decls(fields@)) == Err::<
                RoutineModel,
                ConvError,
            >(e),
        },
{
    if let FieldsShape::Unit = shape {
        return Err(ConvError::UnitShape);
    }
    let other = meta.other_type();
    let cfs = match extract_convertible_fields(fields, meta.method, other.as_str()) {
        Ok(cfs) => cfs,
        Err(e) => {
            return Err(e);
        },
    };
    let named = match shape {
        FieldsShape::Named => true,
        _ => false,
    };
    if meta.default_allowed && !named {
        return Err(ConvError::DefaultOnPositional);
    }
    Ok(GeneratedRoutine { meta, body: RoutineBody::Struct { named, fields: cfs } })
}

/// Assembles one enum conversion into a generated routine.
pub fn implement_enum_conversion(
    meta: ConversionMeta,
    variants: &Vec<VariantDecl>,
    shapes: &Vec<EnumShape>,
) -> (r: Result<GeneratedRoutine, ConvError>)
    ensures
        match r {
            Ok(routine) => spec_enum_conversion(
                meta@,
                abs_variant_decls(variants@),
                abs_enum_shapes(shapes@),
            ) == Ok::<RoutineModel, ConvError>(routine@),
            Err(e) => spec_enum_conversion(
                meta@,
                abs_variant_decls(variants@),
                abs_enum_shapes(shapes@),
            ) == Err::<RoutineModel, ConvError>(e),
        },
{
    let other = meta.other_type();
    let other_variants = lookup_shape(shapes, other.as_str());
    let cvs = match extract_enum_variants(variants, meta.method, other.as_str(), other_variants) {
        Ok(cvs) => cvs,
        Err(e) => {
            return Err(e);
        },
    };
    Ok(GeneratedRoutine { meta, body: RoutineBody::Enum { variants: cvs } })
}

/// Derives every conversion a declaration asks for: one outcome per
/// declared conversion, in directive order. A fault in one conversion
/// aborts only that conversion; a fault in the directive bag itself aborts
/// them all. `shapes` carries the variant names of the enums the
/// type-description facility knows, for variant pairing.
pub fn try_convert_derive(decl: &TypeDecl, shapes: &Vec<EnumShape>) -> (r: Result<
    Vec<Result<GeneratedRoutine, ConvError>>,
    ConvError,
>)
    requires
        decl.directives.into@.len() + decl.directives.try_into@.len()
            + decl.directives.from@.len() + decl.directives.try_from@.len() <= usize::MAX,
    ensures
        match r {
            Ok(outcomes) => spec_derive(decl@, abs_enum_shapes(shapes@)) == Ok::<
                Seq<Result<RoutineModel, ConvError>>,
                ConvError,
            >(abs_outcomes(outcomes@)),
            Err(e) => spec_derive(decl@, abs_enum_shapes(shapes@)) == Err::<
                Seq<Result<RoutineModel, ConvError>>,
                ConvError,
            >(e),
        },
{
    let metas = match extract_conversions(&decl.directives) {
        Ok(metas) => metas,
        Err(e) => {
            return Err(e);
        },
    };
    let ghost mm = abs_metas(metas@);
    proof {
        lemma_abs_metas(metas@);
    }
    let n = metas.len();
    let mut out: Vec<Result<GeneratedRoutine, ConvError>> = Vec::new();
    let mut i: usize = 0;
    while i < n
        invariant
            n == metas@.len(),
            i <= n,
            mm == abs_metas(metas@),
            mm.len() == n,
            forall|j: int| 0 <= j < n ==> #[trigger] mm[j] == abs_meta(metas@[j]),
            out@.len() == i,
            forall|j: int|
                0 <= j < i ==> abs_outcomes(out@)[j] == spec_conversion_of(
                    mm[j],
                    decl.body@,
                    abs_enum_shapes(shapes@),
                ),
            abs_outcomes(out@).len() == i,
        decreases n - i,
    {
        let meta = duplicate_meta(&metas[i]);
        let outcome = match &decl.body {
            TypeBody::Struct { shape, fields } => implement_struct_conversion(
                meta,
                *shape,
                fields,
            ),
            TypeBody::Enum { variants } => implement_enum_conversion(meta, variants, shapes),
        };
        let ghost om = abs_outcome(outcome);
        proof {
            assert(om == spec_conversion_of(mm[i as int], decl.body@, abs_enum_shapes(shapes@)));
        }
        let ghost oldout = out@;
        out.push(outcome);
        proof {
            lemma_abs_outcomes(oldout);
            lemma_abs_outcomes(out@);
            assert forall|j: int| 0 <= j <= i implies abs_outcomes(out@)[j]
                == spec_conversion_of(mm[j], decl.body@, abs_enum_shapes(shapes@)) by {
                if j < i {
                    assert(out@[j] == oldout[j]);
                    assert(abs_outcomes(out@)[j] == abs_outcomes(oldout)[j]);
                }
            }
        }
        i += 1;
    }
    proof {
        lemma_abs_outcomes(out@);
        assert(abs_outcomes(out@) =~= Seq::new(
            mm.len(),
            |j: int| spec_conversion_of(mm[j], decl.body@, abs_enum_shapes(shapes@)),
        ));
    }
    Ok(out)
}

/// A copy of one conversion's metadata with the same model.
fn duplicate_meta(m: &ConversionMeta) -> (r: ConversionMeta)
    ensures
        r@ == m@,
{
    ConversionMeta {
        source_name: m.source_name.clone(),
        target_name: m.target_name.clone(),
        method: m.method,
        default_allowed: m.default_allowed,
        validate: match &m.validate {
            Some(v) => Some(v.clone()),
            None => None,
        },
    }
}

} // verus!
