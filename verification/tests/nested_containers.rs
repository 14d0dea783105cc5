use derive_into::convert::{ElemConv, ElemTree};
use derive_into::field::{FieldDecl, FieldIdentifier};
use derive_into::meta::{TypeDirective, TypeDirectives};
use derive_into::routine::{FieldsShape, GeneratedRoutine, TypeBody, TypeDecl};
use derive_into::runner::{
    run_struct_routine_fallible, run_struct_routine_infallible, FieldEnv,
};
use derive_into::shape::DeclaredType;
use derive_into::value::Value;

fn named_ty(name: &str) -> DeclaredType {
    DeclaredType::Named(name.to_string())
}

fn opt_ty(inner: DeclaredType) -> DeclaredType {
    DeclaredType::Optional(Box::new(inner))
}

fn seq_ty(inner: DeclaredType) -> DeclaredType {
    DeclaredType::Sequence(Box::new(inner))
}

fn map_ty(key: DeclaredType, value: DeclaredType) -> DeclaredType {
    DeclaredType::Mapping(Box::new(key), Box::new(value))
}

fn field(name: &str, ty: DeclaredType) -> FieldDecl {
    FieldDecl {
        ident: Some(name.to_string()),
        ty,
        skip: false,
        rename: None,
        default: false,
        unwrap: false,
        unwrap_or_default: false,
        with_func: None,
        from: vec![],
        try_from: vec![],
        into: vec![],
        try_into: vec![],
    }
}

fn conv(path: &str) -> TypeDirective {
    TypeDirective { path: path.to_string(), default: false, validate: None }
}

/// A struct declaration with one `into` and one `try_from` conversion to
/// the same target, as the nested-container sources declare.
fn two_way_decl(name: &str, target: &str, fields: Vec<FieldDecl>) -> TypeDecl {
    TypeDecl {
        directives: TypeDirectives {
            ident: name.to_string(),
            into: vec![conv(target)],
            try_into: vec![],
            from: vec![],
            try_from: vec![conv(target)],
        },
        body: TypeBody::Struct { shape: FieldsShape::Named, fields },
    }
}

fn derive_routines(decl: &TypeDecl) -> Vec<GeneratedRoutine> {
    derive_into::routine::try_convert_derive(decl, &vec![])
        .unwrap()
        .into_iter()
        .map(|r| r.unwrap())
        .collect()
}

fn env(elems: ElemTree) -> FieldEnv {
    FieldEnv { elems, custom_result: None, default_value: None }
}

fn leaf(conv: ElemConv, zero: Value) -> ElemTree {
    ElemTree::Leaf(conv, zero)
}

fn inner(t: ElemTree) -> ElemTree {
    ElemTree::Inner(Box::new(t))
}

fn pair(k: ElemTree, v: ElemTree) -> ElemTree {
    ElemTree::Pair(Box::new(k), Box::new(v))
}

fn text(s: &str) -> Value {
    Value::Text(s.to_string())
}

fn wrapped(name: &str, v: Value) -> Value {
    Value::Wrapped(name.to_string(), Box::new(v))
}

fn some_v(v: Value) -> Value {
    Value::Opt(Some(Box::new(v)))
}

fn none_v() -> Value {
    Value::Opt(None)
}

fn record(name: &str, v: Value) -> Vec<(FieldIdentifier, Value)> {
    vec![(FieldIdentifier::Named(name.to_string()), v)]
}

// --- Option<Vec<T>> ---

fn source_a() -> TypeDecl {
    two_way_decl("SourceA", "TargetA", vec![field("tags", opt_ty(seq_ty(named_ty("String"))))])
}

/// String elements wrap into `Tag` on the way in, and unwrap on the way
/// back.
fn tag_elems_into() -> ElemTree {
    inner(inner(leaf(ElemConv::Wrap("Tag".to_string()), text(""))))
}

fn tag_elems_back() -> ElemTree {
    inner(inner(leaf(ElemConv::Unwrap("Tag".to_string()), wrapped("Tag", text("")))))
}

#[test]
fn test_option_vec_into_some() {
    let routines = derive_routines(&source_a());
    let source = record("tags", some_v(Value::List(vec![text("rust"), text("macro")])));
    let target = run_struct_routine_infallible(&routines[0], &source, &vec![env(tag_elems_into())]);
    assert_eq!(
        target,
        record(
            "tags",
            some_v(Value::List(vec![wrapped("Tag", text("rust")), wrapped("Tag", text("macro"))])),
        )
    );
}

#[test]
fn test_option_vec_into_none() {
    let routines = derive_routines(&source_a());
    let source = record("tags", none_v());
    let target = run_struct_routine_infallible(&routines[0], &source, &vec![env(tag_elems_into())]);
    assert_eq!(target, record("tags", none_v()));
}

#[test]
fn test_option_vec_try_from() {
    let routines = derive_routines(&source_a());
    let target = record("tags", some_v(Value::List(vec![wrapped("Tag", text("hello"))])));
    let source =
        run_struct_routine_fallible(&routines[1], &target, &vec![env(tag_elems_back())], &None)
            .unwrap();
    assert_eq!(source, record("tags", some_v(Value::List(vec![text("hello")]))));
}

// --- Vec<Option<T>> ---

fn source_b() -> TypeDecl {
    two_way_decl("SourceB", "TargetB", vec![field("scores", seq_ty(opt_ty(named_ty("u32"))))])
}

fn score_opt_elems_into() -> ElemTree {
    inner(inner(leaf(ElemConv::Wrap("Score".to_string()), Value::Int(0))))
}

fn score_opt_elems_back() -> ElemTree {
    inner(inner(leaf(ElemConv::Unwrap("Score".to_string()), wrapped("Score", Value::Int(0)))))
}

#[test]
fn test_vec_option_into() {
    let routines = derive_routines(&source_b());
    let source = record(
        "scores",
        Value::List(vec![some_v(Value::Int(10)), none_v(), some_v(Value::Int(20))]),
    );
    let target =
        run_struct_routine_infallible(&routines[0], &source, &vec![env(score_opt_elems_into())]);
    assert_eq!(
        target,
        record(
            "scores",
            Value::List(vec![
                some_v(wrapped("Score", Value::Int(10))),
                none_v(),
                some_v(wrapped("Score", Value::Int(20))),
            ]),
        )
    );
}

#[test]
fn test_vec_option_try_from() {
    let routines = derive_routines(&source_b());
    let target = record(
        "scores",
        Value::List(vec![some_v(wrapped("Score", Value::Int(5))), none_v()]),
    );
    let source =
        run_struct_routine_fallible(&routines[1], &target, &vec![env(score_opt_elems_back())], &None)
            .unwrap();
    assert_eq!(source, record("scores", Value::List(vec![some_v(Value::Int(5)), none_v()])));
}

// --- Vec<Vec<T>> ---

fn source_c() -> TypeDecl {
    two_way_decl("SourceC", "TargetC", vec![field("matrix", seq_ty(seq_ty(named_ty("u32"))))])
}

#[test]
fn test_vec_vec_into() {
    let routines = derive_routines(&source_c());
    let source = record(
        "matrix",
        Value::List(vec![
            Value::List(vec![Value::Int(1), Value::Int(2)]),
            Value::List(vec![Value::Int(3), Value::Int(4), Value::Int(5)]),
        ]),
    );
    let elems = inner(inner(leaf(ElemConv::Wrap("Score".to_string()), Value::Int(0))));
    let target = run_struct_routine_infallible(&routines[0], &source, &vec![env(elems)]);
    assert_eq!(
        target,
        record(
            "matrix",
            Value::List(vec![
                Value::List(vec![
                    wrapped("Score", Value::Int(1)),
                    wrapped("Score", Value::Int(2)),
                ]),
                Value::List(vec![
                    wrapped("Score", Value::Int(3)),
                    wrapped("Score", Value::Int(4)),
                    wrapped("Score", Value::Int(5)),
                ]),
            ]),
        )
    );
}

#[test]
fn test_vec_vec_try_from() {
    let routines = derive_routines(&source_c());
    let target = record(
        "matrix",
        Value::List(vec![Value::List(vec![wrapped("Score", Value::Int(10))])]),
    );
    let elems = inner(inner(leaf(
        ElemConv::Unwrap("Score".to_string()),
        wrapped("Score", Value::Int(0)),
    )));
    let source = run_struct_routine_fallible(&routines[1], &target, &vec![env(elems)], &None)
        .unwrap();
    assert_eq!(
        source,
        record("matrix", Value::List(vec![Value::List(vec![Value::Int(10)])]))
    );
}

// --- Option<HashMap<K, V>> ---

fn source_d() -> TypeDecl {
    two_way_decl(
        "SourceD",
        "TargetD",
        vec![field("metadata", opt_ty(map_ty(named_ty("String"), named_ty("u32"))))],
    )
}

fn metadata_elems_into() -> ElemTree {
    inner(pair(
        leaf(ElemConv::Keep, text("")),
        leaf(ElemConv::Wrap("Score".to_string()), Value::Int(0)),
    ))
}

fn metadata_elems_back() -> ElemTree {
    inner(pair(
        leaf(ElemConv::Keep, text("")),
        leaf(ElemConv::Unwrap("Score".to_string()), wrapped("Score", Value::Int(0))),
    ))
}

#[test]
fn test_option_hashmap_into_some() {
    let routines = derive_routines(&source_d());
    let source = record(
        "metadata",
        some_v(Value::Entries(vec![(text("score"), Value::Int(42))])),
    );
    let target =
        run_struct_routine_infallible(&routines[0], &source, &vec![env(metadata_elems_into())]);
    assert_eq!(
        target,
        record(
            "metadata",
            some_v(Value::Entries(vec![(text("score"), wrapped("Score", Value::Int(42)))])),
        )
    );
}

#[test]
fn test_option_hashmap_into_none() {
    let routines = derive_routines(&source_d());
    let source = record("metadata", none_v());
    let target =
        run_struct_routine_infallible(&routines[0], &source, &vec![env(metadata_elems_into())]);
    assert_eq!(target, record("metadata", none_v()));
}

#[test]
fn test_option_hashmap_try_from() {
    let routines = derive_routines(&source_d());
    let target = record(
        "metadata",
        some_v(Value::Entries(vec![(text("level"), wrapped("Score", Value::Int(99)))])),
    );
    let source =
        run_struct_routine_fallible(&routines[1], &target, &vec![env(metadata_elems_back())], &None)
            .unwrap();
    assert_eq!(
        source,
        record("metadata", some_v(Value::Entries(vec![(text("level"), Value::Int(99))]))),
    );
}

// --- Option<Option<T>> ---

fn source_e() -> TypeDecl {
    two_way_decl("SourceE", "TargetE", vec![field("nested_opt", opt_ty(opt_ty(named_ty("u32"))))])
}

#[test]
fn test_option_option_into() {
    let routines = derive_routines(&source_e());
    let elems = || inner(inner(leaf(ElemConv::Wrap("Score".to_string()), Value::Int(0))));

    let source = record("nested_opt", some_v(some_v(Value::Int(7))));
    let target = run_struct_routine_infallible(&routines[0], &source, &vec![env(elems())]);
    assert_eq!(target, record("nested_opt", some_v(some_v(wrapped("Score", Value::Int(7))))));

    let source = record("nested_opt", some_v(none_v()));
    let target = run_struct_routine_infallible(&routines[0], &source, &vec![env(elems())]);
    assert_eq!(target, record("nested_opt", some_v(none_v())));

    let source = record("nested_opt", none_v());
    let target = run_struct_routine_infallible(&routines[0], &source, &vec![env(elems())]);
    assert_eq!(target, record("nested_opt", none_v()));
}

#[test]
fn test_option_option_try_from() {
    let routines = derive_routines(&source_e());
    let elems = inner(inner(leaf(
        ElemConv::Unwrap("Score".to_string()),
        wrapped("Score", Value::Int(0)),
    )));
    let target = record("nested_opt", some_v(some_v(wrapped("Score", Value::Int(3)))));
    let source = run_struct_routine_fallible(&routines[1], &target, &vec![env(elems)], &None)
        .unwrap();
    assert_eq!(source, record("nested_opt", some_v(some_v(Value::Int(3)))));
}

// --- HashMap<K, Vec<V>> ---

fn source_f() -> TypeDecl {
    two_way_decl(
        "SourceF",
        "TargetF",
        vec![field("grouped", map_ty(named_ty("String"), seq_ty(named_ty("u32"))))],
    )
}

#[test]
fn test_hashmap_vec_into() {
    let routines = derive_routines(&source_f());
    let source = record(
        "grouped",
        Value::Entries(vec![(
            text("a"),
            Value::List(vec![Value::Int(1), Value::Int(2), Value::Int(3)]),
        )]),
    );
    let elems = pair(
        leaf(ElemConv::Keep, text("")),
        inner(leaf(ElemConv::Wrap("Score".to_string()), Value::Int(0))),
    );
    let target = run_struct_routine_infallible(&routines[0], &source, &vec![env(elems)]);
    assert_eq!(
        target,
        record(
            "grouped",
            Value::Entries(vec![(
                text("a"),
                Value::List(vec![
                    wrapped("Score", Value::Int(1)),
                    wrapped("Score", Value::Int(2)),
                    wrapped("Score", Value::Int(3)),
                ]),
            )]),
        )
    );
}

#[test]
fn test_hashmap_vec_try_from() {
    let routines = derive_routines(&source_f());
    let target = record(
        "grouped",
        Value::Entries(vec![(text("x"), Value::List(vec![wrapped("Score", Value::Int(10))]))]),
    );
    let elems = pair(
        leaf(ElemConv::Keep, text("")),
        inner(leaf(ElemConv::Unwrap("Score".to_string()), wrapped("Score", Value::Int(0)))),
    );
    let source = run_struct_routine_fallible(&routines[1], &target, &vec![env(elems)], &None)
        .unwrap();
    assert_eq!(
        source,
        record("grouped", Value::Entries(vec![(text("x"), Value::List(vec![Value::Int(10)]))])),
    );
}

// --- Unwrap on Option<Vec<T>> ---

#[test]
fn test_unwrap_option_vec_into() {
    let mut items = field("items", opt_ty(seq_ty(named_ty("String"))));
    items.unwrap = true;
    let decl = TypeDecl {
        directives: TypeDirectives {
            ident: "SourceG".to_string(),
            into: vec![conv("TargetG")],
            try_into: vec![],
            from: vec![],
            try_from: vec![],
        },
        body: TypeBody::Struct { shape: FieldsShape::Named, fields: vec![items] },
    };
    let routines = derive_routines(&decl);
    let source = record("items", some_v(Value::List(vec![text("a"), text("b")])));
    let elems = inner(inner(leaf(ElemConv::Wrap("Tag".to_string()), text(""))));
    let target = run_struct_routine_infallible(&routines[0], &source, &vec![env(elems)]);
    assert_eq!(
        target,
        record(
            "items",
            Value::List(vec![wrapped("Tag", text("a")), wrapped("Tag", text("b"))]),
        )
    );
}
