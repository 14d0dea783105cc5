use derive_into::convert::{ElemConv, ElemTree};
use derive_into::field::{FieldDecl, FieldIdentifier};
use derive_into::meta::{TypeDirective, TypeDirectives};
use derive_into::routine::{FieldsShape, GeneratedRoutine, TypeBody, TypeDecl};
use derive_into::runner::{
    run_enum_routine_fallible, run_struct_routine_fallible, EnumValue, FieldEnv,
};
use derive_into::shape::DeclaredType;
use derive_into::value::Value;
use derive_into::variant::VariantDecl;

fn plain_field(name: Option<&str>, ty_name: &str) -> FieldDecl {
    FieldDecl {
        ident: name.map(|s| s.to_string()),
        ty: DeclaredType::Named(ty_name.to_string()),
        skip: false,
        rename: None,
        default: false,
        unwrap: false,
        unwrap_or_default: false,
        with_func: None,
        from: vec![],
        try_from: vec![],
        into: vec![],
        try_into: vec![],
    }
}

fn keep_env() -> FieldEnv {
    FieldEnv {
        elems: ElemTree::Leaf(ElemConv::Keep, Value::Text(String::new())),
        custom_result: None,
        default_value: None,
    }
}

fn text(s: &str) -> Value {
    Value::Text(s.to_string())
}

/// The validation hook of the struct case: the name must not be empty.
fn validate_source(source: &Vec<(FieldIdentifier, Value)>) -> Result<(), String> {
    for (id, v) in source {
        if *id == FieldIdentifier::Named("name".to_string()) {
            if let Value::Text(s) = v {
                if s.is_empty() {
                    return Err("name must not be empty".to_string());
                }
            }
        }
    }
    Ok(())
}

/// `Target` declares `try_from(path = "Source", validate = "validate_source")`.
fn target_decl() -> TypeDecl {
    TypeDecl {
        directives: TypeDirectives {
            ident: "Target".to_string(),
            into: vec![],
            try_into: vec![],
            from: vec![],
            try_from: vec![TypeDirective {
                path: "Source".to_string(),
                default: false,
                validate: Some("validate_source".to_string()),
            }],
        },
        body: TypeBody::Struct {
            shape: FieldsShape::Named,
            fields: vec![plain_field(Some("name"), "String")],
        },
    }
}

fn only_routine(decl: &TypeDecl) -> GeneratedRoutine {
    let mut routines: Vec<GeneratedRoutine> = derive_into::routine::try_convert_derive(decl, &vec![])
        .unwrap()
        .into_iter()
        .map(|r| r.unwrap())
        .collect();
    routines.remove(0)
}

#[test]
fn validate_passes() {
    let routine = only_routine(&target_decl());
    let source = vec![(FieldIdentifier::Named("name".to_string()), text("hello"))];
    let hook = Some(validate_source(&source));
    let target = run_struct_routine_fallible(&routine, &source, &vec![keep_env()], &hook).unwrap();
    assert_eq!(target, vec![(FieldIdentifier::Named("name".to_string()), text("hello"))]);
}

#[test]
fn validate_fails() {
    let routine = only_routine(&target_decl());
    let source = vec![(FieldIdentifier::Named("name".to_string()), text(""))];
    let hook = Some(validate_source(&source));
    let result = run_struct_routine_fallible(&routine, &source, &vec![keep_env()], &hook);
    assert_eq!(
        result.unwrap_err(),
        "Failed trying to convert Source to Target: name must not be empty"
    );
}

/// The validation hook of the enum case: a `B` value must not be empty.
fn validate_enum(source: &EnumValue) -> Result<(), String> {
    if source.variant == "B" {
        for (_, v) in &source.fields {
            if let Value::Text(s) = v {
                if s.is_empty() {
                    return Err("B value must not be empty".to_string());
                }
            }
        }
    }
    Ok(())
}

/// `TargetEnum` declares `try_from(path = "SourceEnum", validate = "validate_enum")`.
fn target_enum_decl() -> TypeDecl {
    TypeDecl {
        directives: TypeDirectives {
            ident: "TargetEnum".to_string(),
            into: vec![],
            try_into: vec![],
            from: vec![],
            try_from: vec![TypeDirective {
                path: "SourceEnum".to_string(),
                default: false,
                validate: Some("validate_enum".to_string()),
            }],
        },
        body: TypeBody::Enum {
            variants: vec![
                VariantDecl {
                    ident: "A".to_string(),
                    named: false,
                    rename: None,
                    fields: vec![],
                },
                VariantDecl {
                    ident: "B".to_string(),
                    named: false,
                    rename: None,
                    fields: vec![plain_field(None, "String")],
                },
            ],
        },
    }
}

#[test]
fn enum_validate_passes() {
    let routine = only_routine(&target_enum_decl());
    let source = EnumValue {
        variant: "B".to_string(),
        fields: vec![(FieldIdentifier::Unnamed(0), text("hello"))],
    };
    let hook = Some(validate_enum(&source));
    let target = run_enum_routine_fallible(&routine, &source, &vec![keep_env()], &hook).unwrap();
    assert_eq!(target.variant, "B".to_string());
    assert_eq!(target.fields, vec![(FieldIdentifier::Unnamed(0), text("hello"))]);
}

#[test]
fn enum_validate_fails() {
    let routine = only_routine(&target_enum_decl());
    let source = EnumValue {
        variant: "B".to_string(),
        fields: vec![(FieldIdentifier::Unnamed(0), text(""))],
    };
    let hook = Some(validate_enum(&source));
    let result = run_enum_routine_fallible(&routine, &source, &vec![keep_env()], &hook);
    assert_eq!(
        result.unwrap_err(),
        "Failed trying to convert SourceEnum to TargetEnum: B value must not be empty"
    );
}
