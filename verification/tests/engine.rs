use derive_into::convert::{entries_put_exec, ElemConv, ElemTree};
use derive_into::errors::ConvError;
use derive_into::field::{
    decimal_string, extract_convertible_fields, normalize, FieldAttr, FieldDecl, FieldIdentifier,
};
use derive_into::meta::{ConversionMethod, TypeDirective, TypeDirectives};
use derive_into::message::{failed_message, key_fail_message, value_fail_message};
use derive_into::routine::{FieldsShape, GeneratedRoutine, TypeBody, TypeDecl};
use derive_into::routine::EnumShape;
use derive_into::runner::{
    run_enum_routine_infallible, run_struct_routine_fallible, run_struct_routine_infallible,
    EnumValue, FieldEnv,
};
use derive_into::shape::DeclaredType;
use derive_into::strategy::{resolve_strategy, resolve_with_unwrap, ConversionStrategy, UnwrapFault};
use derive_into::value::{duplicate, value_eq, Value};
use derive_into::variant::VariantDecl;

fn named_ty(name: &str) -> DeclaredType {
    DeclaredType::Named(name.to_string())
}

fn opt_ty(inner: DeclaredType) -> DeclaredType {
    DeclaredType::Optional(Box::new(inner))
}

fn seq_ty(inner: DeclaredType) -> DeclaredType {
    DeclaredType::Sequence(Box::new(inner))
}

fn field(name: &str, ty: DeclaredType) -> FieldDecl {
    FieldDecl {
        ident: Some(name.to_string()),
        ty,
        skip: false,
        rename: None,
        default: false,
        unwrap: false,
        unwrap_or_default: false,
        with_func: None,
        from: vec![],
        try_from: vec![],
        into: vec![],
        try_into: vec![],
    }
}

fn attr(path: Option<&str>) -> FieldAttr {
    FieldAttr {
        path: path.map(|s| s.to_string()),
        skip: false,
        unwrap: false,
        unwrap_or_default: false,
        default: false,
        rename: None,
        with_func: None,
    }
}

fn conv(path: &str) -> TypeDirective {
    TypeDirective { path: path.to_string(), default: false, validate: None }
}

fn directives(name: &str) -> TypeDirectives {
    TypeDirectives {
        ident: name.to_string(),
        into: vec![],
        try_into: vec![],
        from: vec![],
        try_from: vec![],
    }
}

fn keep_env() -> FieldEnv {
    FieldEnv {
        elems: ElemTree::Leaf(ElemConv::Keep, Value::Text(String::new())),
        custom_result: None,
        default_value: None,
    }
}

fn text(s: &str) -> Value {
    Value::Text(s.to_string())
}

fn wrapped(name: &str, v: Value) -> Value {
    Value::Wrapped(name.to_string(), Box::new(v))
}

fn named(name: &str) -> FieldIdentifier {
    FieldIdentifier::Named(name.to_string())
}

// --- Scenario: rename on a struct field ---

#[test]
fn rename_scenario() {
    let mut name_field = field("name", named_ty("String"));
    name_field.rename = Some("full_name".to_string());
    let decl = TypeDecl {
        directives: TypeDirectives { into: vec![conv("Target")], ..directives("Source") },
        body: TypeBody::Struct {
            shape: FieldsShape::Named,
            fields: vec![field("id", named_ty("u32")), name_field],
        },
    };
    let routines: Vec<GeneratedRoutine> = derive_into::routine::try_convert_derive(&decl, &vec![])
        .unwrap()
        .into_iter()
        .map(|r| r.unwrap())
        .collect();
    let source = vec![(named("id"), Value::Int(1)), (named("name"), text("a"))];
    let target = run_struct_routine_infallible(
        &routines[0],
        &source,
        &vec![keep_env(), keep_env()],
    );
    assert_eq!(target, vec![(named("id"), Value::Int(1)), (named("full_name"), text("a"))]);
}

// --- Scenario: enum variant rename, and a missing variant ---

fn renamed_enum_decl() -> TypeDecl {
    TypeDecl {
        directives: TypeDirectives { into: vec![conv("TargetEnum")], ..directives("SourceEnum") },
        body: TypeBody::Enum {
            variants: vec![
                VariantDecl { ident: "A".to_string(), named: false, rename: None, fields: vec![] },
                VariantDecl {
                    ident: "B".to_string(),
                    named: false,
                    rename: Some("Renamed".to_string()),
                    fields: vec![field_unnamed("u32")],
                },
            ],
        },
    }
}

fn field_unnamed(ty_name: &str) -> FieldDecl {
    FieldDecl { ident: None, ..field("unused", named_ty(ty_name)) }
}

#[test]
fn enum_rename_scenario() {
    let shapes = vec![EnumShape {
        name: "TargetEnum".to_string(),
        variants: vec!["A".to_string(), "Renamed".to_string()],
    }];
    let routines: Vec<GeneratedRoutine> =
        derive_into::routine::try_convert_derive(&renamed_enum_decl(), &shapes)
            .unwrap()
            .into_iter()
            .map(|r| r.unwrap())
            .collect();
    let source = EnumValue {
        variant: "B".to_string(),
        fields: vec![(FieldIdentifier::Unnamed(0), Value::Int(7))],
    };
    let target = run_enum_routine_infallible(&routines[0], &source, &vec![keep_env()]);
    assert_eq!(target.variant, "Renamed".to_string());
    assert_eq!(target.fields, vec![(FieldIdentifier::Unnamed(0), Value::Int(7))]);
}

#[test]
fn enum_missing_variant_is_a_generation_error() {
    let shapes = vec![EnumShape {
        name: "TargetEnum".to_string(),
        variants: vec!["Renamed".to_string()],
    }];
    let outcomes =
        derive_into::routine::try_convert_derive(&renamed_enum_decl(), &shapes).unwrap();
    assert_eq!(outcomes[0], Err(ConvError::MissingCounterpart { variant: 0 }));
}

#[test]
fn enum_unmatched_variant_is_a_generation_error() {
    let shapes = vec![EnumShape {
        name: "TargetEnum".to_string(),
        variants: vec!["A".to_string(), "Renamed".to_string(), "Extra".to_string()],
    }];
    let outcomes =
        derive_into::routine::try_convert_derive(&renamed_enum_decl(), &shapes).unwrap();
    assert_eq!(outcomes[0], Err(ConvError::UnmatchedVariant { other: 2 }));
}

// --- Round-trip on concrete values ---

#[test]
fn round_trip_scenario() {
    let decl = TypeDecl {
        directives: TypeDirectives {
            into: vec![conv("Other")],
            try_from: vec![conv("Other")],
            ..directives("Model")
        },
        body: TypeBody::Struct {
            shape: FieldsShape::Named,
            fields: vec![field("tags", seq_ty(named_ty("String")))],
        },
    };
    let routines: Vec<GeneratedRoutine> = derive_into::routine::try_convert_derive(&decl, &vec![])
        .unwrap()
        .into_iter()
        .map(|r| r.unwrap())
        .collect();
    let forward = FieldEnv {
        elems: ElemTree::Inner(Box::new(ElemTree::Leaf(
            ElemConv::Wrap("Tag".to_string()),
            text(""),
        ))),
        custom_result: None,
        default_value: None,
    };
    let back = FieldEnv {
        elems: ElemTree::Inner(Box::new(ElemTree::Leaf(
            ElemConv::Unwrap("Tag".to_string()),
            wrapped("Tag", text("")),
        ))),
        custom_result: None,
        default_value: None,
    };
    let original = vec![(named("tags"), Value::List(vec![text("x"), text("y")]))];
    let there = run_struct_routine_infallible(&routines[0], &original, &vec![forward]);
    let back_again =
        run_struct_routine_fallible(&routines[1], &there, &vec![back], &None).unwrap();
    assert_eq!(back_again, original);
}

// --- Unwrap failure and unwrap-or-default at run time ---

#[test]
fn unwrap_missing_fails_with_field_and_target() {
    let mut items = field("items", opt_ty(named_ty("String")));
    items.unwrap = true;
    let decl = TypeDecl {
        directives: TypeDirectives { try_into: vec![conv("TargetG")], ..directives("SourceG") },
        body: TypeBody::Struct { shape: FieldsShape::Named, fields: vec![items] },
    };
    let routines: Vec<GeneratedRoutine> = derive_into::routine::try_convert_derive(&decl, &vec![])
        .unwrap()
        .into_iter()
        .map(|r| r.unwrap())
        .collect();
    let env = FieldEnv {
        elems: ElemTree::Inner(Box::new(ElemTree::Leaf(ElemConv::Keep, text("")))),
        custom_result: None,
        default_value: None,
    };
    let source = vec![(named("items"), Value::Opt(None))];
    let result = run_struct_routine_fallible(&routines[0], &source, &vec![env], &None);
    assert_eq!(
        result.unwrap_err(),
        "Failed trying to convert items to TargetG: None value"
    );
}

#[test]
fn unwrap_or_default_uses_the_zero_value() {
    let mut label = field("label", opt_ty(named_ty("String")));
    label.unwrap_or_default = true;
    let decl = TypeDecl {
        directives: TypeDirectives { into: vec![conv("TargetH")], ..directives("SourceH") },
        body: TypeBody::Struct { shape: FieldsShape::Named, fields: vec![label] },
    };
    let routines: Vec<GeneratedRoutine> = derive_into::routine::try_convert_derive(&decl, &vec![])
        .unwrap()
        .into_iter()
        .map(|r| r.unwrap())
        .collect();
    let env = FieldEnv {
        elems: ElemTree::Inner(Box::new(ElemTree::Leaf(
            ElemConv::Wrap("Tag".to_string()),
            text(""),
        ))),
        custom_result: None,
        default_value: None,
    };
    let source = vec![(named("label"), Value::Opt(None))];
    let target = run_struct_routine_infallible(&routines[0], &source, &vec![env]);
    assert_eq!(target, vec![(named("label"), wrapped("Tag", text("")))]);
}

// --- Configuration faults ---

#[test]
fn validate_on_infallible_direction_is_refused() {
    let decl = TypeDecl {
        directives: TypeDirectives {
            into: vec![TypeDirective {
                path: "Target".to_string(),
                default: false,
                validate: Some("check".to_string()),
            }],
            ..directives("Source")
        },
        body: TypeBody::Struct {
            shape: FieldsShape::Named,
            fields: vec![field("id", named_ty("u32"))],
        },
    };
    let result = derive_into::routine::try_convert_derive(&decl, &vec![]);
    assert_eq!(result.unwrap_err(), ConvError::ValidateOnInfallible { conversion: 0 });
}

#[test]
fn unit_shape_is_refused() {
    let decl = TypeDecl {
        directives: TypeDirectives { into: vec![conv("Target")], ..directives("Source") },
        body: TypeBody::Struct { shape: FieldsShape::Unit, fields: vec![] },
    };
    let outcomes = derive_into::routine::try_convert_derive(&decl, &vec![]).unwrap();
    assert_eq!(outcomes[0], Err(ConvError::UnitShape));
}

#[test]
fn default_fill_on_positional_target_is_refused() {
    let decl = TypeDecl {
        directives: TypeDirectives {
            into: vec![TypeDirective { path: "Target".to_string(), default: true, validate: None }],
            ..directives("Source")
        },
        body: TypeBody::Struct {
            shape: FieldsShape::Positional,
            fields: vec![field_unnamed("u32")],
        },
    };
    let outcomes = derive_into::routine::try_convert_derive(&decl, &vec![]).unwrap();
    assert_eq!(outcomes[0], Err(ConvError::DefaultOnPositional));
}

#[test]
fn duplicate_path_scoped_directive_is_refused() {
    let mut f = field("id", named_ty("u32"));
    f.try_from = vec![attr(Some("Other")), attr(Some("Other"))];
    let result = extract_convertible_fields(&vec![f], ConversionMethod::TryFrom, "Other");
    assert_eq!(result.unwrap_err(), ConvError::DuplicatePathDirective { field: 0 });
}

#[test]
fn duplicate_direction_scoped_directive_is_refused() {
    let mut f = field("id", named_ty("u32"));
    f.try_from = vec![attr(None), attr(None)];
    let result = extract_convertible_fields(&vec![f], ConversionMethod::TryFrom, "Other");
    assert_eq!(result.unwrap_err(), ConvError::DuplicateDirectionDirective { field: 0 });
}

#[test]
fn unwrap_conflict_is_refused() {
    let mut f = field("x", opt_ty(named_ty("u32")));
    f.unwrap = true;
    f.unwrap_or_default = true;
    let result = extract_convertible_fields(&vec![f], ConversionMethod::Into, "Other");
    assert_eq!(result.unwrap_err(), ConvError::UnwrapConflict { field: 0 });
}

#[test]
fn unwrap_of_non_optional_is_refused() {
    let mut f = field("x", named_ty("u32"));
    f.unwrap = true;
    let result = extract_convertible_fields(&vec![f], ConversionMethod::Into, "Other");
    assert_eq!(result.unwrap_err(), ConvError::UnwrapNonOptional { field: 0 });
}

#[test]
fn unwrap_of_non_optional_stands_for_the_other_side_in_from_direction() {
    let mut f = field("x", named_ty("u32"));
    f.unwrap = true;
    let cfs = extract_convertible_fields(&vec![f], ConversionMethod::From, "Other").unwrap();
    assert_eq!(
        cfs[0].strategy,
        ConversionStrategy::UnwrapOptional(Box::new(ConversionStrategy::Plain))
    );
}

// --- Directive precedence ---

#[test]
fn path_scope_wins_over_direction_and_global() {
    let mut f = field("x", named_ty("u32"));
    f.rename = Some("global_name".to_string());
    let mut direction = attr(None);
    direction.rename = Some("direction_name".to_string());
    let mut pathed = attr(Some("Other"));
    pathed.rename = Some("path_name".to_string());
    f.try_into = vec![direction, pathed];
    let cfs = extract_convertible_fields(&vec![f], ConversionMethod::TryInto, "Other").unwrap();
    assert_eq!(cfs[0].target_name, named("path_name"));
}

#[test]
fn direction_scope_wins_over_global() {
    let mut f = field("x", named_ty("u32"));
    f.rename = Some("global_name".to_string());
    let mut direction = attr(None);
    direction.rename = Some("direction_name".to_string());
    f.try_into = vec![direction];
    let cfs = extract_convertible_fields(&vec![f], ConversionMethod::TryInto, "Other").unwrap();
    assert_eq!(cfs[0].target_name, named("direction_name"));
}

#[test]
fn skip_holds_from_any_scope() {
    let mut f = field("x", named_ty("u32"));
    let mut direction = attr(None);
    direction.skip = true;
    f.try_into = vec![direction];
    let cfs = extract_convertible_fields(&vec![f], ConversionMethod::TryInto, "Other").unwrap();
    assert_eq!(cfs.len(), 0);
}

#[test]
fn path_scoped_directive_for_another_target_is_ignored() {
    let mut f = field("x", named_ty("u32"));
    let mut pathed = attr(Some("SomebodyElse"));
    pathed.skip = true;
    f.try_into = vec![pathed];
    let cfs = extract_convertible_fields(&vec![f], ConversionMethod::TryInto, "Other").unwrap();
    assert_eq!(cfs.len(), 1);
}

#[test]
fn custom_function_fields_come_first() {
    let mut custom = field("b", named_ty("u32"));
    custom.with_func = Some("make_b".to_string());
    let fields = vec![field("a", named_ty("u32")), custom];
    let cfs = extract_convertible_fields(&fields, ConversionMethod::Into, "Other").unwrap();
    assert_eq!(cfs[0].source_name, named("b"));
    assert_eq!(cfs[1].source_name, named("a"));
}

// --- Strategy resolution ---

#[test]
fn shape_helpers_read_the_outermost_layer() {
    let ty = opt_ty(named_ty("u32"));
    assert!(ty.is_optional());
    assert_eq!(ty.optional_inner(), Some(&named_ty("u32")));
    assert!(!named_ty("u32").is_optional());
    assert_eq!(named_ty("u32").optional_inner(), None);
}

#[test]
fn empty_containers_convert_to_empty_containers() {
    let decl = TypeDecl {
        directives: TypeDirectives { into: vec![conv("Target")], ..directives("Source") },
        body: TypeBody::Struct {
            shape: FieldsShape::Named,
            fields: vec![
                field("items", seq_ty(named_ty("u32"))),
                field(
                    "lookup",
                    DeclaredType::Mapping(
                        Box::new(named_ty("String")),
                        Box::new(named_ty("u32")),
                    ),
                ),
            ],
        },
    };
    let routines: Vec<GeneratedRoutine> = derive_into::routine::try_convert_derive(&decl, &vec![])
        .unwrap()
        .into_iter()
        .map(|r| r.unwrap())
        .collect();
    let items_env = FieldEnv {
        elems: ElemTree::Inner(Box::new(ElemTree::Leaf(
            ElemConv::Wrap("Score".to_string()),
            Value::Int(0),
        ))),
        custom_result: None,
        default_value: None,
    };
    let lookup_env = FieldEnv {
        elems: ElemTree::Pair(
            Box::new(ElemTree::Leaf(ElemConv::Keep, text(""))),
            Box::new(ElemTree::Leaf(ElemConv::Wrap("Score".to_string()), Value::Int(0))),
        ),
        custom_result: None,
        default_value: None,
    };
    let source = vec![
        (named("items"), Value::List(vec![])),
        (named("lookup"), Value::Entries(vec![])),
    ];
    let target =
        run_struct_routine_infallible(&routines[0], &source, &vec![items_env, lookup_env]);
    assert_eq!(target, source);
}

#[test]
fn resolver_peels_container_layers() {
    let ty = opt_ty(seq_ty(named_ty("String")));
    assert_eq!(
        resolve_strategy(&ty),
        ConversionStrategy::Optional(Box::new(ConversionStrategy::Sequence(Box::new(
            ConversionStrategy::Plain
        ))))
    );
}

#[test]
fn resolver_wraps_some_in_from_direction() {
    let ty = opt_ty(named_ty("u32"));
    assert_eq!(
        resolve_with_unwrap(&ty, true, true, false),
        Ok(ConversionStrategy::WrapSome(Box::new(ConversionStrategy::Plain)))
    );
}

#[test]
fn resolver_refuses_conflicting_unwraps() {
    let ty = opt_ty(named_ty("u32"));
    assert_eq!(resolve_with_unwrap(&ty, false, true, true), Err(UnwrapFault::Conflict));
}

// --- Defaults and custom functions at run time ---

#[test]
fn default_field_reads_nothing_from_the_source() {
    let mut stamp = field("stamp", named_ty("u32"));
    stamp.default = true;
    let decl = TypeDecl {
        directives: TypeDirectives { into: vec![conv("Target")], ..directives("Source") },
        body: TypeBody::Struct { shape: FieldsShape::Named, fields: vec![stamp] },
    };
    let routines: Vec<GeneratedRoutine> = derive_into::routine::try_convert_derive(&decl, &vec![])
        .unwrap()
        .into_iter()
        .map(|r| r.unwrap())
        .collect();
    let env = FieldEnv {
        elems: ElemTree::Leaf(ElemConv::Keep, Value::Int(0)),
        custom_result: None,
        default_value: Some(Value::Int(0)),
    };
    let source = vec![];
    let target = run_struct_routine_infallible(&routines[0], &source, &vec![env]);
    assert_eq!(target, vec![(named("stamp"), Value::Int(0))]);
}

#[test]
fn custom_function_failure_gets_the_uniform_text() {
    let mut checked = field("checked", named_ty("String"));
    checked.with_func = Some("check_it".to_string());
    let decl = TypeDecl {
        directives: TypeDirectives { try_into: vec![conv("Target")], ..directives("Source") },
        body: TypeBody::Struct { shape: FieldsShape::Named, fields: vec![checked] },
    };
    let routines: Vec<GeneratedRoutine> = derive_into::routine::try_convert_derive(&decl, &vec![])
        .unwrap()
        .into_iter()
        .map(|r| r.unwrap())
        .collect();
    let env = FieldEnv {
        elems: ElemTree::Leaf(ElemConv::Keep, text("")),
        custom_result: Some(Err("bad input".to_string())),
        default_value: None,
    };
    let source = vec![(named("checked"), text("whatever"))];
    let result = run_struct_routine_fallible(&routines[0], &source, &vec![env], &None);
    assert_eq!(
        result.unwrap_err(),
        "Failed trying to convert checked to Target: bad input"
    );
}

// --- The mapping discipline and deep value operations ---

#[test]
fn entries_put_overwrites_the_first_equal_key() {
    let mut entries = vec![(text("a"), Value::Int(1)), (text("b"), Value::Int(2))];
    entries_put_exec(&mut entries, text("a"), Value::Int(9));
    assert_eq!(entries, vec![(text("a"), Value::Int(9)), (text("b"), Value::Int(2))]);
    entries_put_exec(&mut entries, text("c"), Value::Int(3));
    assert_eq!(entries.len(), 3);
}

#[test]
fn value_eq_is_deep() {
    let a = Value::List(vec![wrapped("Tag", text("x")), Value::Opt(None)]);
    let b = Value::List(vec![wrapped("Tag", text("x")), Value::Opt(None)]);
    let c = Value::List(vec![wrapped("Tag", text("y")), Value::Opt(None)]);
    assert!(value_eq(&a, &b));
    assert!(!value_eq(&a, &c));
}

#[test]
fn duplicate_is_deep() {
    let a = Value::Entries(vec![(text("k"), Value::List(vec![Value::Int(1)]))]);
    let b = duplicate(&a);
    assert_eq!(a, b);
}

// --- Failure texts and identifier rendering ---

#[test]
fn failure_texts_are_exact() {
    assert_eq!(
        failed_message("name", "Target", "oops"),
        "Failed trying to convert name to Target: oops".to_string()
    );
    assert_eq!(
        key_fail_message("map", "oops"),
        "Failed to convert key in HashMap map: oops".to_string()
    );
    assert_eq!(
        value_fail_message("map", "oops"),
        "Failed to convert value in HashMap map: oops".to_string()
    );
}

#[test]
fn positional_fields_render_with_their_index() {
    assert_eq!(decimal_string(0), "0".to_string());
    assert_eq!(decimal_string(7), "7".to_string());
    assert_eq!(decimal_string(1234), "1234".to_string());
    assert_eq!(FieldIdentifier::Unnamed(10).as_named(), "field10".to_string());
    assert_eq!(named("tags").as_named(), "tags".to_string());
}

#[test]
fn element_conversion_failure_is_reported() {
    let decl = TypeDecl {
        directives: TypeDirectives { try_into: vec![conv("Target")], ..directives("Source") },
        body: TypeBody::Struct {
            shape: FieldsShape::Named,
            fields: vec![field("score", named_ty("Score"))],
        },
    };
    let routines: Vec<GeneratedRoutine> = derive_into::routine::try_convert_derive(&decl, &vec![])
        .unwrap()
        .into_iter()
        .map(|r| r.unwrap())
        .collect();
    let env = FieldEnv {
        elems: ElemTree::Leaf(
            ElemConv::Unwrap("Score".to_string()),
            wrapped("Score", Value::Int(0)),
        ),
        custom_result: None,
        default_value: None,
    };
    let source = vec![(named("score"), Value::Int(3))];
    let result = run_struct_routine_fallible(&routines[0], &source, &vec![env], &None);
    assert_eq!(
        result.unwrap_err(),
        "Failed trying to convert score to Target: invalid value"
    );
}

#[test]
fn wrap_some_builds_the_optional_in_from_direction() {
    let mut code = field("code", opt_ty(named_ty("u32")));
    code.unwrap = true;
    let decl = TypeDecl {
        directives: TypeDirectives { from: vec![conv("Raw")], ..directives("Model") },
        body: TypeBody::Struct { shape: FieldsShape::Named, fields: vec![code] },
    };
    let routines: Vec<GeneratedRoutine> = derive_into::routine::try_convert_derive(&decl, &vec![])
        .unwrap()
        .into_iter()
        .map(|r| r.unwrap())
        .collect();
    let env = FieldEnv {
        elems: ElemTree::Inner(Box::new(ElemTree::Leaf(
            ElemConv::Wrap("Score".to_string()),
            Value::Int(0),
        ))),
        custom_result: None,
        default_value: None,
    };
    let source = vec![(named("code"), Value::Int(4))];
    let target = run_struct_routine_infallible(&routines[0], &source, &vec![env]);
    assert_eq!(
        target,
        vec![(
            named("code"),
            Value::Opt(Some(Box::new(wrapped("Score", Value::Int(4))))),
        )],
    );
}

#[test]
fn unwrap_or_default_succeeds_in_the_fallible_form() {
    let mut label = field("label", opt_ty(named_ty("String")));
    label.unwrap_or_default = true;
    let decl = TypeDecl {
        directives: TypeDirectives { try_into: vec![conv("TargetH")], ..directives("SourceH") },
        body: TypeBody::Struct { shape: FieldsShape::Named, fields: vec![label] },
    };
    let routines: Vec<GeneratedRoutine> = derive_into::routine::try_convert_derive(&decl, &vec![])
        .unwrap()
        .into_iter()
        .map(|r| r.unwrap())
        .collect();
    let env = FieldEnv {
        elems: ElemTree::Inner(Box::new(ElemTree::Leaf(
            ElemConv::Wrap("Tag".to_string()),
            text(""),
        ))),
        custom_result: None,
        default_value: None,
    };
    let source = vec![(named("label"), Value::Opt(None))];
    let target = run_struct_routine_fallible(&routines[0], &source, &vec![env], &None).unwrap();
    assert_eq!(target, vec![(named("label"), wrapped("Tag", text("")))]);
}

#[test]
fn normalize_merges_the_three_scopes() {
    let mut f = field("x", named_ty("u32"));
    f.unwrap = true;
    f.rename = Some("global_name".to_string());
    let mut pathed = attr(Some("Other"));
    pathed.rename = Some("path_name".to_string());
    f.try_into = vec![pathed];
    let scope = normalize(&f, ConversionMethod::TryInto, "Other").unwrap();
    assert_eq!(scope.rename, Some("path_name".to_string()));
    assert!(scope.unwrap);
    assert!(!scope.skip);
    assert_eq!(scope.custom_function, None);
}

#[test]
fn default_fill_on_named_target_is_accepted() {
    let decl = TypeDecl {
        directives: TypeDirectives {
            into: vec![TypeDirective { path: "Target".to_string(), default: true, validate: None }],
            ..directives("Source")
        },
        body: TypeBody::Struct {
            shape: FieldsShape::Named,
            fields: vec![field("id", named_ty("u32"))],
        },
    };
    let outcomes = derive_into::routine::try_convert_derive(&decl, &vec![]).unwrap();
    let routine = outcomes[0].as_ref().unwrap();
    assert!(routine.meta.default_allowed);
}

