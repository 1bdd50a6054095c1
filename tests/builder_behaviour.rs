use builder::classify::{classify, FieldKind, GenError};
use builder::runtime::{BuildError, Builder, Output, SetError, Value};
use builder::schema::{expand, BuilderDecl, Effect, Init};
use builder::syntax::{Attr, AttrBody, FieldDef, Lit, MetaItem, PathHead, Shape, TypeArg, TypeDef, TypeExpr};

fn s(x: &str) -> String {
    x.to_string()
}

fn plain(name: &str) -> TypeExpr {
    TypeExpr { text: s(name), head: Some(PathHead { last: s(name), args: vec![] }) }
}

fn wrapped(text: &str, last: &str, inner: &str) -> TypeExpr {
    TypeExpr {
        text: s(text),
        head: Some(PathHead { last: s(last), args: vec![TypeArg::Type(s(inner))] }),
    }
}

fn each(name: &str) -> Attr {
    Attr {
        namespace: s("builder"),
        body: AttrBody::List(vec![MetaItem::NameValue { key: s("each"), value: Lit::Str(s(name)) }]),
    }
}

fn field(name: &str, ty: TypeExpr, attrs: Vec<Attr>) -> FieldDef {
    FieldDef { name: s(name), ty, attrs }
}

fn record(name: &str, fields: Vec<FieldDef>) -> TypeDef {
    TypeDef { name: s(name), shape: Shape::Named(fields) }
}

fn command() -> TypeDef {
    record(
        "Command",
        vec![
            field("executable", plain("String"), vec![]),
            field("args", wrapped("Vec<String>", "Vec", "String"), vec![each("arg")]),
            field("env", wrapped("Vec<String>", "Vec", "String"), vec![each("env")]),
            field("current_dir", wrapped("Option<String>", "Option", "String"), vec![]),
        ],
    )
}

fn decl_of(def: TypeDef) -> BuilderDecl {
    match expand(&def) {
        Ok(d) => d,
        Err(e) => panic!("expansion failed: {:?}", e),
    }
}

fn text(x: &str) -> Value {
    Value::Text(s(x))
}

#[test]
fn command_scenario_missing_executable() {
    let b = Builder::new(decl_of(command()));
    assert_eq!(b.build(), Err(BuildError::MissingField(s("executable"))));
}

#[test]
fn command_scenario_builds() {
    let mut b = Builder::new(decl_of(command()));
    assert_eq!(b.set(&s("executable"), text("cargo")), Ok(()));
    assert_eq!(b.set(&s("arg"), text("build")), Ok(()));
    assert_eq!(b.set(&s("arg"), text("--release")), Ok(()));
    let r = b.build().unwrap();
    assert_eq!(
        r,
        vec![
            Output::Plain(text("cargo")),
            Output::List(vec![text("build"), text("--release")]),
            Output::List(vec![]),
            Output::Maybe(None),
        ]
    );
}

#[test]
fn command_declarations() {
    let d = decl_of(command());
    assert_eq!(d.record, "Command");
    assert_eq!(d.builder, "CommandBuilder");
    assert_eq!(d.fields[0].kind, FieldKind::Required);
    assert_eq!(
        d.fields[1].kind,
        FieldKind::Repeated { element: s("String"), each: s("arg"), collides: false }
    );
    assert_eq!(
        d.fields[2].kind,
        FieldKind::Repeated { element: s("String"), each: s("env"), collides: true }
    );
    assert_eq!(d.fields[3].kind, FieldKind::Optional { inner: s("String") });
    let names: Vec<(String, String, usize, Effect)> =
        d.setters().into_iter().map(|x| (x.name, x.param, x.field, x.effect)).collect();
    assert_eq!(
        names,
        vec![
            (s("executable"), s("String"), 0, Effect::Store),
            (s("arg"), s("String"), 1, Effect::Append),
            (s("args"), s("Vec<String>"), 1, Effect::Replace),
            (s("env"), s("String"), 2, Effect::Append),
            (s("current_dir"), s("String"), 3, Effect::Store),
        ]
    );
}

#[test]
fn storage_shapes_and_initial_values() {
    let d = decl_of(command());
    let shapes: Vec<(bool, Init)> = d.fields.iter().map(|f| (f.stored_wrapped(), f.init())).collect();
    assert_eq!(
        shapes,
        vec![
            (true, Init::EmptyOptional),
            (false, Init::EmptySequence),
            (false, Init::EmptySequence),
            (false, Init::EmptyOptional),
        ]
    );
}

#[test]
fn zero_fields_build_empty_record() {
    let b = Builder::new(decl_of(record("Empty", vec![])));
    assert_eq!(b.build(), Ok(vec![]));
}

#[test]
fn fresh_builder_names_first_required_field() {
    let def = record(
        "Pair",
        vec![
            field("note", wrapped("Option<u8>", "Option", "u8"), vec![]),
            field("left", plain("u32"), vec![]),
            field("right", plain("u32"), vec![]),
        ],
    );
    let mut b = Builder::new(decl_of(def));
    assert_eq!(b.build(), Err(BuildError::MissingField(s("left"))));
    b.set(&s("left"), Value::Int(1)).unwrap();
    assert_eq!(b.build(), Err(BuildError::MissingField(s("right"))));
}

#[test]
fn required_value_is_kept_unmodified() {
    let def = record("Flag", vec![field("on", plain("bool"), vec![]), field("n", plain("i64"), vec![])]);
    let mut b = Builder::new(decl_of(def));
    b.set(&s("on"), Value::Bool(false)).unwrap();
    b.set(&s("n"), Value::Int(-7)).unwrap();
    assert_eq!(b.build(), Ok(vec![Output::Plain(Value::Bool(false)), Output::Plain(Value::Int(-7))]));
    b.set(&s("n"), Value::Int(3)).unwrap();
    assert_eq!(b.build(), Ok(vec![Output::Plain(Value::Bool(false)), Output::Plain(Value::Int(3))]));
}

#[test]
fn optional_field_unset_and_set() {
    let def = record("Opt", vec![field("dir", wrapped("Option<String>", "Option", "String"), vec![])]);
    let mut b = Builder::new(decl_of(def));
    assert_eq!(b.build(), Ok(vec![Output::Maybe(None)]));
    b.set(&s("dir"), text("/tmp")).unwrap();
    assert_eq!(b.build(), Ok(vec![Output::Maybe(Some(text("/tmp")))]));
}

fn list_record() -> TypeDef {
    record("L", vec![field("items", wrapped("Vec<String>", "Vec", "String"), vec![each("item")])])
}

#[test]
fn repeated_bulk_setter_gives_sequence() {
    let mut b = Builder::new(decl_of(list_record()));
    b.set_all(&s("items"), vec![text("a"), text("b"), text("c")]).unwrap();
    assert_eq!(b.build(), Ok(vec![Output::List(vec![text("a"), text("b"), text("c")])]));
}

#[test]
fn repeated_element_setter_appends_in_order() {
    let mut b = Builder::new(decl_of(list_record()));
    for x in ["a", "b", "c"] {
        b.set(&s("item"), text(x)).unwrap();
    }
    assert_eq!(b.build(), Ok(vec![Output::List(vec![text("a"), text("b"), text("c")])]));
}

#[test]
fn repeated_bulk_then_element_concatenates() {
    let mut b = Builder::new(decl_of(list_record()));
    b.set(&s("item"), text("z")).unwrap();
    b.set_all(&s("items"), vec![text("a"), text("b")]).unwrap();
    b.set(&s("item"), text("c")).unwrap();
    assert_eq!(b.build(), Ok(vec![Output::List(vec![text("a"), text("b"), text("c")])]));
}

#[test]
fn colliding_name_has_only_the_appending_setter() {
    let def = record("E", vec![field("env", wrapped("Vec<String>", "Vec", "String"), vec![each("env")])]);
    let d = decl_of(def);
    assert_eq!(d.setters().len(), 1);
    let mut b = Builder::new(d);
    assert_eq!(b.set_all(&s("env"), vec![text("x")]), Err(SetError::NoSuchSetter));
    b.set(&s("env"), text("A=1")).unwrap();
    b.set(&s("env"), text("B=2")).unwrap();
    assert_eq!(b.build(), Ok(vec![Output::List(vec![text("A=1"), text("B=2")])]));
}

#[test]
fn unknown_setter_is_refused() {
    let mut b = Builder::new(decl_of(command()));
    assert_eq!(b.set(&s("args"), text("x")), Err(SetError::NoSuchSetter));
    assert_eq!(b.set_all(&s("arg"), vec![]), Err(SetError::NoSuchSetter));
    assert_eq!(b.set(&s("nothing"), text("x")), Err(SetError::NoSuchSetter));
}

#[test]
fn build_twice_gives_equal_records() {
    let mut b = Builder::new(decl_of(command()));
    b.set(&s("executable"), text("ls")).unwrap();
    b.set(&s("env"), text("K=V")).unwrap();
    let first = b.build();
    let second = b.build();
    assert!(first.is_ok());
    assert_eq!(first, second);
}

#[test]
fn non_records_are_refused() {
    for shape in [Shape::Tuple, Shape::Unit, Shape::NotAStruct] {
        let def = TypeDef { name: s("T"), shape };
        assert!(matches!(expand(&def), Err(GenError::NotARecord)));
    }
}

#[test]
fn each_on_non_sequence_is_refused() {
    let def = record(
        "Bad",
        vec![field("ok", plain("u8"), vec![]), field("names", plain("String"), vec![each("name")])],
    );
    assert!(matches!(expand(&def), Err(GenError::InvalidEachTarget(n)) if n == "names"));
}

#[test]
fn first_invalid_field_is_reported() {
    let def = record(
        "Bad",
        vec![
            field("a", plain("String"), vec![each("x")]),
            field("b", plain("String"), vec![each("y")]),
        ],
    );
    assert!(matches!(expand(&def), Err(GenError::InvalidEachTarget(n)) if n == "a"));
}

fn vec_field_with(attr: Attr) -> FieldDef {
    field("v", wrapped("Vec<u8>", "Vec", "u8"), vec![attr])
}

#[test]
fn malformed_attributes_are_refused() {
    let wrong_key = Attr {
        namespace: s("builder"),
        body: AttrBody::List(vec![MetaItem::NameValue { key: s("eac"), value: Lit::Str(s("x")) }]),
    };
    let not_string = Attr {
        namespace: s("builder"),
        body: AttrBody::List(vec![MetaItem::NameValue { key: s("each"), value: Lit::Other }]),
    };
    let two_items = Attr {
        namespace: s("builder"),
        body: AttrBody::List(vec![
            MetaItem::NameValue { key: s("each"), value: Lit::Str(s("x")) },
            MetaItem::Other,
        ]),
    };
    let bare = Attr { namespace: s("builder"), body: AttrBody::Other };
    let empty = Attr { namespace: s("builder"), body: AttrBody::List(vec![]) };
    for a in [wrong_key, not_string, two_items, bare, empty] {
        assert_eq!(classify(&vec_field_with(a)), Err(GenError::InvalidEachTarget(s("v"))));
    }
}

#[test]
fn later_malformed_builder_attribute_is_refused() {
    let f = field(
        "v",
        wrapped("Vec<u8>", "Vec", "u8"),
        vec![each("x"), Attr { namespace: s("builder"), body: AttrBody::Other }],
    );
    assert_eq!(classify(&f), Err(GenError::InvalidEachTarget(s("v"))));
}

#[test]
fn other_namespaces_are_ignored() {
    let doc = Attr { namespace: s("doc"), body: AttrBody::Other };
    let f = field("v", wrapped("Vec<u8>", "Vec", "u8"), vec![doc]);
    assert_eq!(classify(&f), Ok(FieldKind::Required));
    let doc = Attr { namespace: s("doc"), body: AttrBody::Other };
    let g = field("v", wrapped("Vec<u8>", "Vec", "u8"), vec![doc, each("one")]);
    assert_eq!(
        classify(&g),
        Ok(FieldKind::Repeated { element: s("u8"), each: s("one"), collides: false })
    );
}

#[test]
fn first_builder_attribute_names_the_setter() {
    let f = field("v", wrapped("Vec<u8>", "Vec", "u8"), vec![each("one"), each("two")]);
    assert_eq!(
        classify(&f),
        Ok(FieldKind::Repeated { element: s("u8"), each: s("one"), collides: false })
    );
}

#[test]
fn optional_wins_over_each() {
    let f = field("o", wrapped("Option<u8>", "Option", "u8"), vec![each("x")]);
    assert_eq!(classify(&f), Ok(FieldKind::Optional { inner: s("u8") }));
}

#[test]
fn qualified_optional_path_is_detected() {
    let f = field("o", wrapped("::std::option::Option<u8>", "Option", "u8"), vec![]);
    assert_eq!(classify(&f), Ok(FieldKind::Optional { inner: s("u8") }));
}

#[test]
fn near_misses_are_required() {
    let two_args = TypeExpr {
        text: s("Option<u8, u8>"),
        head: Some(PathHead {
            last: s("Option"),
            args: vec![TypeArg::Type(s("u8")), TypeArg::Type(s("u8"))],
        }),
    };
    let lifetime = TypeExpr {
        text: s("Option<'a>"),
        head: Some(PathHead { last: s("Option"), args: vec![TypeArg::NotAType] }),
    };
    let qualified_self = TypeExpr { text: s("<T as Tr>::Option"), head: None };
    let alias = wrapped("Maybe<u8>", "Maybe", "u8");
    let bare = plain("Option");
    for ty in [two_args, lifetime, qualified_self, alias, bare] {
        assert_eq!(classify(&field("f", ty, vec![])), Ok(FieldKind::Required));
    }
}

#[test]
fn value_copies_are_equal() {
    let v = text("abc");
    assert_eq!(v.duplicate(), v);
    let items = vec![Value::Int(1), Value::Bool(true), text("x")];
    assert_eq!(builder::runtime::copy_values(&items), items);
}

#[test]
fn each_name_must_be_an_identifier() {
    for bad in ["", "not an ident", "fn", "_", "1x"] {
        let f = field("v", wrapped("Vec<u8>", "Vec", "u8"), vec![each(bad)]);
        assert_eq!(classify(&f), Err(GenError::InvalidEachTarget(s("v"))));
    }
    let f = field("v", wrapped("Vec<u8>", "Vec", "u8"), vec![each("r#x_1")]);
    assert!(classify(&f).is_ok());
}

#[test]
fn clashing_setter_names_are_refused() {
    let def = record(
        "Clash",
        vec![
            field("arg", plain("String"), vec![]),
            field("args", wrapped("Vec<String>", "Vec", "String"), vec![each("arg")]),
        ],
    );
    assert!(matches!(expand(&def), Err(GenError::InvalidEachTarget(n)) if n == "args"));
}

#[test]
fn setter_named_build_is_refused() {
    let def = record("B", vec![field("ok", plain("u8"), vec![]), field("build", plain("u8"), vec![])]);
    assert!(matches!(expand(&def), Err(GenError::InvalidEachTarget(n)) if n == "build"));
    let def = record(
        "C",
        vec![field("steps", wrapped("Vec<u8>", "Vec", "u8"), vec![each("build")])],
    );
    assert!(matches!(expand(&def), Err(GenError::InvalidEachTarget(n)) if n == "steps"));
}

#[test]
fn falsy_required_values_are_kept() {
    let def = record(
        "F",
        vec![field("n", plain("i64"), vec![]), field("t", plain("String"), vec![])],
    );
    let mut b = Builder::new(decl_of(def));
    b.set(&s("n"), Value::Int(0)).unwrap();
    b.set(&s("t"), text("")).unwrap();
    assert_eq!(b.build(), Ok(vec![Output::Plain(Value::Int(0)), Output::Plain(text(""))]));
}

#[test]
fn appends_before_bulk_are_discarded() {
    let mut b = Builder::new(decl_of(list_record()));
    b.set(&s("item"), text("x")).unwrap();
    b.set(&s("item"), text("y")).unwrap();
    b.set_all(&s("items"), vec![text("s")]).unwrap();
    assert_eq!(b.build(), Ok(vec![Output::List(vec![text("s")])]));
}
