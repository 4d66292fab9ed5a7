use schema_check::{
    validate_schema, validate_schema_object, ArrayValidation, Entry, Error, InstanceType, Member,
    Number, ObjectValidation, Schema, SchemaFault, SchemaObject, SingleOrVec, StringValidation,
    SubschemaValidation, Value, ValueFault,
};

fn text(s: &str) -> Value {
    Value::String(s.to_string())
}

fn uint(n: u64) -> Value {
    Value::Number(Number::PosInt(n))
}

fn typed(kind: InstanceType) -> Schema {
    let mut node = SchemaObject::new();
    node.instance_type = Some(SingleOrVec::Single(Box::new(kind)));
    Schema::Object(node)
}

fn with_subschemas(group: SubschemaValidation) -> SchemaObject {
    let mut node = SchemaObject::new();
    node.subschemas = Some(Box::new(group));
    node
}

fn with_array(group: ArrayValidation) -> SchemaObject {
    let mut node = SchemaObject::new();
    node.array = Some(Box::new(group));
    node
}

fn with_object(group: ObjectValidation) -> SchemaObject {
    let mut node = SchemaObject::new();
    node.object = Some(Box::new(group));
    node
}

fn with_pattern(pattern: &str) -> SchemaObject {
    let mut group = StringValidation::new();
    group.pattern = Some(pattern.to_string());
    let mut node = SchemaObject::new();
    node.string = Some(Box::new(group));
    node
}

fn member(key: &str, value: Value) -> Member {
    Member { key: key.to_string(), value }
}

fn entry(key: &str, schema: Schema) -> Entry {
    Entry { key: key.to_string(), schema }
}

fn value_fault(result: Result<(), Error>) -> (String, ValueFault) {
    match result {
        Err(Error::InvalidValue { path, details, .. }) => (path, details),
        other => panic!("expected a value error, got {:?}", other),
    }
}

fn schema_fault(result: Result<(), Error>) -> (String, SchemaFault) {
    match result {
        Err(Error::InvalidSchema { path, details }) => (path, details),
        other => panic!("expected a schema error, got {:?}", other),
    }
}

#[test]
fn test_matched_enum() {
    let mut node = SchemaObject::new();
    node.instance_type = Some(SingleOrVec::Single(Box::new(InstanceType::String)));
    node.enum_values = Some(vec![text("Value")]);
    validate_schema_object("$", &node, &Vec::new(), &text("Value")).unwrap();
}

#[test]
fn test_unmatched_enum() {
    let mut tag = SchemaObject::new();
    tag.instance_type = Some(SingleOrVec::Single(Box::new(InstanceType::String)));
    tag.enum_values = Some(vec![text("Value")]);
    let mut group = ObjectValidation::new();
    group.required = vec!["broken".to_string()];
    group.properties = vec![entry("broken", Schema::Object(tag))];
    let mut variant = with_object(group);
    variant.instance_type = Some(SingleOrVec::Single(Box::new(InstanceType::Object)));
    let mut choice = SubschemaValidation::new();
    choice.one_of = Some(vec![Schema::Object(variant)]);
    let node = with_subschemas(choice);
    match validate_schema_object("$", &node, &Vec::new(), &text("Value")) {
        Ok(()) => panic!("expected failure"),
        Err(Error::InvalidValue { path, value, details }) => {
            assert_eq!(path, "$.oneOf");
            assert!(value.equals(&text("Value")));
            assert!(matches!(details, ValueFault::OneOf { passed: 0, total: 1 }));
        }
        Err(other) => panic!("expected a value error, got {:?}", other),
    }
}

#[test]
fn test_slashes() {
    let node = with_pattern(r#"^[0-9]{1,2}\/[0-9]{1,2}\/[0-9]{4}$"#);
    let item = text(&format!("{}/{}/{}", 9, 8, 2017));
    validate_schema_object("$", &node, &Vec::new(), &item).unwrap()
}

#[test]
fn pattern_rejects_other_date_format() {
    let node = with_pattern(r#"^[0-9]{1,2}\/[0-9]{1,2}\/[0-9]{4}$"#);
    let (path, fault) = value_fault(validate_schema_object("$", &node, &Vec::new(), &text("2017-08-09")));
    assert_eq!(path, "$");
    match fault {
        ValueFault::PatternMismatch { pattern } => {
            assert_eq!(pattern, "^[0-9]{1,2}/[0-9]{1,2}/[0-9]{4}$")
        }
        other => panic!("unexpected fault {:?}", other),
    }
}

#[test]
fn pattern_that_does_not_compile_is_a_schema_error() {
    let node = with_pattern("foo(bar");
    let (path, fault) = schema_fault(validate_schema_object("$", &node, &Vec::new(), &text("foo")));
    assert_eq!(path, "$");
    assert!(matches!(fault, SchemaFault::InvalidPattern { pattern } if pattern == "foo(bar"));
}

#[test]
fn escaped_backslash_before_slash_is_kept() {
    // Two backslashes and a slash: the slash is not escaped, nothing changes.
    let node = with_pattern(r#"^a\\/b$"#);
    validate_schema_object("$", &node, &Vec::new(), &text(r#"a\/b"#)).unwrap();
}

#[test]
fn accept_all_accepts_and_reject_all_rejects() {
    let values = vec![
        Value::Null,
        Value::Bool(true),
        uint(3),
        text("x"),
        Value::Array(vec![uint(1)]),
        Value::Object(vec![member("a", Value::Null)]),
    ];
    for value in &values {
        assert!(validate_schema("$", &Schema::Bool(true), &Vec::new(), value).is_ok());
        let (path, fault) = value_fault(validate_schema("$", &Schema::Bool(false), &Vec::new(), value));
        assert_eq!(path, "$");
        assert!(matches!(fault, ValueFault::EmptySchema));
    }
}

#[test]
fn const_and_enum_together_are_a_schema_error() {
    let mut node = SchemaObject::new();
    node.const_value = Some(uint(1));
    node.enum_values = Some(vec![uint(1)]);
    for value in [uint(1), text("x"), Value::Null] {
        let (path, fault) = schema_fault(validate_schema_object("$", &node, &Vec::new(), &value));
        assert_eq!(path, "$");
        assert!(matches!(fault, SchemaFault::ConstAndEnum));
    }
}

#[test]
fn const_and_enum_mismatch_paths() {
    let mut node = SchemaObject::new();
    node.const_value = Some(uint(1));
    assert!(validate_schema_object("$", &node, &Vec::new(), &uint(1)).is_ok());
    let (path, fault) = value_fault(validate_schema_object("$", &node, &Vec::new(), &uint(2)));
    assert_eq!(path, "$.const");
    assert!(matches!(fault, ValueFault::ConstMismatch));

    let mut node = SchemaObject::new();
    node.enum_values = Some(vec![text("a"), text("b")]);
    assert!(validate_schema_object("$", &node, &Vec::new(), &text("b")).is_ok());
    let (path, fault) = value_fault(validate_schema_object("$", &node, &Vec::new(), &text("c")));
    assert_eq!(path, "$.enum");
    assert!(matches!(fault, ValueFault::NotEnumerated));
}

#[test]
fn one_of_counts_the_schemas_that_accept() {
    let lists: Vec<(Vec<Schema>, usize)> = vec![
        (vec![typed(InstanceType::Number), typed(InstanceType::Null)], 0),
        (vec![typed(InstanceType::Number), typed(InstanceType::String)], 1),
        (vec![typed(InstanceType::String), Schema::Bool(true), typed(InstanceType::Null)], 2),
        (vec![Schema::Bool(true), Schema::Bool(true), typed(InstanceType::String)], 3),
    ];
    for (list, k) in lists {
        let total = list.len();
        let mut group = SubschemaValidation::new();
        group.one_of = Some(list);
        let result = validate_schema_object("$", &with_subschemas(group), &Vec::new(), &text("x"));
        if k == 1 {
            assert!(result.is_ok());
        } else {
            let (path, fault) = value_fault(result);
            assert_eq!(path, "$.oneOf");
            match fault {
                ValueFault::OneOf { passed, total: n } => {
                    assert_eq!(passed, k);
                    assert_eq!(n, total);
                }
                other => panic!("unexpected fault {:?}", other),
            }
        }
    }
}

#[test]
fn all_of_counts_the_schemas_that_reject() {
    let mut group = SubschemaValidation::new();
    group.all_of = Some(vec![Schema::Bool(true), typed(InstanceType::String)]);
    assert!(validate_schema_object("$", &with_subschemas(group), &Vec::new(), &text("x")).is_ok());

    let mut group = SubschemaValidation::new();
    group.all_of = Some(vec![
        typed(InstanceType::Number),
        typed(InstanceType::String),
        Schema::Bool(false),
    ]);
    let (path, fault) =
        value_fault(validate_schema_object("$", &with_subschemas(group), &Vec::new(), &text("x")));
    assert_eq!(path, "$.allOf");
    assert!(matches!(fault, ValueFault::AllOf { failed: 2, total: 3 }));
}

#[test]
fn any_of_and_not() {
    let mut group = SubschemaValidation::new();
    group.any_of = Some(vec![typed(InstanceType::Number), typed(InstanceType::String)]);
    let node = with_subschemas(group);
    assert!(validate_schema_object("$", &node, &Vec::new(), &text("x")).is_ok());
    let (path, fault) = value_fault(validate_schema_object("$", &node, &Vec::new(), &Value::Null));
    assert_eq!(path, "$.anyOf");
    assert!(matches!(fault, ValueFault::AnyOf));

    let mut group = SubschemaValidation::new();
    group.not = Some(Box::new(typed(InstanceType::String)));
    let node = with_subschemas(group);
    assert!(validate_schema_object("$", &node, &Vec::new(), &Value::Null).is_ok());
    let (path, fault) = value_fault(validate_schema_object("$", &node, &Vec::new(), &text("x")));
    assert_eq!(path, "$.not");
    assert!(matches!(fault, ValueFault::Not));
}

#[test]
fn if_then_else() {
    let build = |cond: bool, then: bool, otherwise: bool| {
        let mut group = SubschemaValidation::new();
        if cond {
            group.if_schema = Some(Box::new(typed(InstanceType::String)));
        }
        if then {
            group.then_schema = Some(Box::new(Schema::Bool(false)));
        }
        if otherwise {
            group.else_schema = Some(Box::new(Schema::Bool(false)));
        }
        with_subschemas(group)
    };
    let none = Vec::new();
    let (_, fault) = schema_fault(validate_schema_object("$", &build(true, false, false), &none, &text("x")));
    assert!(matches!(fault, SchemaFault::IfWithoutBranch));
    let (_, fault) = schema_fault(validate_schema_object("$", &build(false, true, false), &none, &text("x")));
    assert!(matches!(fault, SchemaFault::ThenWithoutIf));
    let (_, fault) = schema_fault(validate_schema_object("$", &build(false, false, true), &none, &text("x")));
    assert!(matches!(fault, SchemaFault::ElseWithoutIf));
    let (_, fault) = schema_fault(validate_schema_object("$", &build(false, true, true), &none, &text("x")));
    assert!(matches!(fault, SchemaFault::ThenAndElseWithoutIf));

    let (path, _) = value_fault(validate_schema_object("$", &build(true, true, false), &none, &text("x")));
    assert_eq!(path, "$.then");
    assert!(validate_schema_object("$", &build(true, true, false), &none, &Value::Null).is_ok());
    let (path, _) = value_fault(validate_schema_object("$", &build(true, false, true), &none, &Value::Null));
    assert_eq!(path, "$.else");
    assert!(validate_schema_object("$", &build(true, false, true), &none, &text("x")).is_ok());
    assert!(validate_schema_object("$", &build(false, false, false), &none, &text("x")).is_ok());
}

#[test]
fn type_check_names_the_accepted_types() {
    let (path, fault) = value_fault(validate_schema("$", &typed(InstanceType::String), &Vec::new(), &uint(5)));
    assert_eq!(path, "$");
    assert!(matches!(fault, ValueFault::WrongType { expected: InstanceType::String }));

    let mut node = SchemaObject::new();
    node.instance_type = Some(SingleOrVec::Vec(vec![InstanceType::String, InstanceType::Null]));
    assert!(validate_schema_object("$", &node, &Vec::new(), &Value::Null).is_ok());
    let (_, fault) = value_fault(validate_schema_object("$", &node, &Vec::new(), &uint(5)));
    match fault {
        ValueFault::WrongTypes { allowed } => {
            assert_eq!(allowed, vec![InstanceType::String, InstanceType::Null])
        }
        other => panic!("unexpected fault {:?}", other),
    }
}

#[test]
fn integer_type_accepts_both_integer_encodings() {
    let schema = typed(InstanceType::Integer);
    assert!(validate_schema("$", &schema, &Vec::new(), &uint(7)).is_ok());
    assert!(validate_schema("$", &schema, &Vec::new(), &Value::Number(Number::NegInt(-7))).is_ok());
    assert!(validate_schema("$", &schema, &Vec::new(), &text("7")).is_err());
}

#[test]
fn unique_items_names_the_first_equal_pair() {
    let mut group = ArrayValidation::new();
    group.unique_items = Some(true);
    let node = with_array(group);
    let dup = Value::Array(vec![uint(1), uint(2), uint(2)]);
    let (path, fault) = value_fault(validate_schema_object("$", &node, &Vec::new(), &dup));
    assert_eq!(path, "$");
    assert!(matches!(fault, ValueFault::DuplicateItems { first: 1, second: 2 }));
    let distinct = Value::Array(vec![uint(1), uint(2), uint(3)]);
    assert!(validate_schema_object("$", &node, &Vec::new(), &distinct).is_ok());
}

#[test]
fn array_bounds_and_item_schemas() {
    let mut group = ArrayValidation::new();
    group.max_items = Some(2);
    let (_, fault) = value_fault(validate_schema_object(
        "$",
        &with_array(group),
        &Vec::new(),
        &Value::Array(vec![uint(1), uint(2), uint(3)]),
    ));
    assert!(matches!(fault, ValueFault::TooManyItems { count: 3, limit: 2 }));

    let mut group = ArrayValidation::new();
    group.min_items = Some(2);
    let (_, fault) = value_fault(validate_schema_object(
        "$",
        &with_array(group),
        &Vec::new(),
        &Value::Array(vec![uint(1)]),
    ));
    assert!(matches!(fault, ValueFault::TooFewItems { count: 1, limit: 2 }));

    let mut group = ArrayValidation::new();
    group.items = Some(SingleOrVec::Single(Box::new(typed(InstanceType::Integer))));
    let items: Vec<Value> = (0..12).map(uint).chain(std::iter::once(text("x"))).collect();
    let (path, fault) =
        value_fault(validate_schema_object("$", &with_array(group), &Vec::new(), &Value::Array(items)));
    assert_eq!(path, "$[12]");
    assert!(matches!(fault, ValueFault::WrongType { expected: InstanceType::Integer }));

    let mut group = ArrayValidation::new();
    group.items = Some(SingleOrVec::Vec(vec![
        typed(InstanceType::Integer),
        typed(InstanceType::String),
        typed(InstanceType::Null),
    ]));
    let node = with_array(group);
    // Schemas beyond the array's end are ignored.
    assert!(validate_schema_object("$", &node, &Vec::new(), &Value::Array(vec![uint(1), text("a")])).is_ok());
    // Without `additionalItems`, items beyond the list are unconstrained.
    let long = Value::Array(vec![uint(1), text("a"), Value::Null, uint(4)]);
    assert!(validate_schema_object("$", &node, &Vec::new(), &long).is_ok());
    let (path, _) = value_fault(validate_schema_object(
        "$",
        &node,
        &Vec::new(),
        &Value::Array(vec![uint(1), uint(2)]),
    ));
    assert_eq!(path, "$[1]");

    let mut group = ArrayValidation::new();
    group.items = Some(SingleOrVec::Vec(vec![typed(InstanceType::Integer)]));
    group.additional_items = Some(Box::new(typed(InstanceType::String)));
    let node = with_array(group);
    assert!(validate_schema_object("$", &node, &Vec::new(), &Value::Array(vec![uint(1), text("a"), text("b")])).is_ok());
    let (path, _) = value_fault(validate_schema_object(
        "$",
        &node,
        &Vec::new(),
        &Value::Array(vec![uint(1), text("a"), uint(3)]),
    ));
    assert_eq!(path, "$[2]");
}

#[test]
fn contains_names_the_array() {
    let mut group = ArrayValidation::new();
    group.contains = Some(Box::new(typed(InstanceType::String)));
    let node = with_array(group);
    assert!(validate_schema_object("$", &node, &Vec::new(), &Value::Array(vec![uint(1), text("a")])).is_ok());
    let (path, fault) =
        value_fault(validate_schema_object("$", &node, &Vec::new(), &Value::Array(vec![uint(1)])));
    assert_eq!(path, "$.contains");
    assert!(matches!(fault, ValueFault::NothingContained));
    let (_, fault) = value_fault(validate_schema_object("$", &node, &Vec::new(), &uint(1)));
    assert!(matches!(fault, ValueFault::NotAnArray));
}

#[test]
fn closed_object_accepts_only_the_empty_object() {
    let mut group = ObjectValidation::new();
    group.additional_properties = Some(Box::new(Schema::Bool(false)));
    let node = with_object(group);
    assert!(validate_schema_object("$", &node, &Vec::new(), &Value::Object(Vec::new())).is_ok());
    let one = Value::Object(vec![member("a", uint(1))]);
    let (path, fault) = value_fault(validate_schema_object("$", &node, &Vec::new(), &one));
    assert_eq!(path, "$.a");
    assert!(matches!(fault, ValueFault::EmptySchema));
}

#[test]
fn object_keywords() {
    let mut group = ObjectValidation::new();
    group.required = vec!["a".to_string(), "b".to_string(), "c".to_string()];
    let node = with_object(group);
    let value = Value::Object(vec![member("a", uint(1)), member("c", uint(3))]);
    let (path, fault) = value_fault(validate_schema_object("$", &node, &Vec::new(), &value));
    assert_eq!(path, "$");
    assert!(matches!(fault, ValueFault::MissingProperty { name } if name == "b"));

    let mut group = ObjectValidation::new();
    group.max_properties = Some(1);
    let (_, fault) = value_fault(validate_schema_object("$", &with_object(group), &Vec::new(), &value));
    assert!(matches!(fault, ValueFault::TooManyProperties { count: 2, limit: 1 }));

    let mut group = ObjectValidation::new();
    group.min_properties = Some(3);
    let (_, fault) = value_fault(validate_schema_object("$", &with_object(group), &Vec::new(), &value));
    assert!(matches!(fault, ValueFault::TooFewProperties { count: 2, limit: 3 }));

    let (_, fault) = value_fault(validate_schema_object(
        "$",
        &with_object(ObjectValidation::new()),
        &Vec::new(),
        &uint(1),
    ));
    assert!(matches!(fault, ValueFault::NotAnObject));
}

#[test]
fn named_and_pattern_properties_apply_independently() {
    let mut group = ObjectValidation::new();
    group.properties = vec![entry("age", typed(InstanceType::Integer))];
    group.pattern_properties = vec![entry("^a", typed(InstanceType::Number)), entry("e$", Schema::Bool(false))];
    group.additional_properties = Some(Box::new(typed(InstanceType::String)));
    let node = with_object(group);
    // "age" passes its named schema and the first pattern, and fails the second.
    let value = Value::Object(vec![member("age", uint(3))]);
    let (path, fault) = value_fault(validate_schema_object("$", &node, &Vec::new(), &value));
    assert_eq!(path, "$.age");
    assert!(matches!(fault, ValueFault::EmptySchema));
    // "apple" is seen by a pattern, so `additionalProperties` does not apply.
    let value = Value::Object(vec![member("ab", uint(3))]);
    assert!(validate_schema_object("$", &node, &Vec::new(), &value).is_ok());
    // "zz" is unseen and goes to `additionalProperties`.
    let value = Value::Object(vec![member("zz", uint(3))]);
    let (path, fault) = value_fault(validate_schema_object("$", &node, &Vec::new(), &value));
    assert_eq!(path, "$.zz");
    assert!(matches!(fault, ValueFault::WrongType { expected: InstanceType::String }));
    let value = Value::Object(vec![member("zz", text("s"))]);
    assert!(validate_schema_object("$", &node, &Vec::new(), &value).is_ok());
}

#[test]
fn property_names_judges_the_key_itself() {
    let mut group = ObjectValidation::new();
    group.properties = vec![entry("ok", Schema::Bool(true))];
    group.property_names = Some(Box::new(Schema::Object(with_pattern("^[a-z]+$"))));
    let node = with_object(group);
    let value = Value::Object(vec![member("ok", uint(1))]);
    assert!(validate_schema_object("$", &node, &Vec::new(), &value).is_ok());
    let value = Value::Object(vec![member("ok", uint(1)), member("Bad1", uint(1))]);
    match validate_schema_object("$", &node, &Vec::new(), &value) {
        Err(Error::InvalidValue { path, value, details }) => {
            assert_eq!(path, "$.Bad1");
            assert!(value.equals(&text("Bad1")));
            assert!(matches!(details, ValueFault::PatternMismatch { .. }));
        }
        other => panic!("unexpected result {:?}", other),
    }
}

#[test]
fn invalid_property_pattern_is_a_schema_error() {
    let mut group = ObjectValidation::new();
    group.pattern_properties = vec![entry("(", Schema::Bool(true))];
    let node = with_object(group);
    let value = Value::Object(vec![member("a", uint(1))]);
    let (path, fault) = schema_fault(validate_schema_object("$", &node, &Vec::new(), &value));
    assert_eq!(path, "$");
    assert!(matches!(fault, SchemaFault::InvalidPattern { pattern } if pattern == "("));
}

#[test]
fn reference_resolves_by_its_last_segment() {
    let mut node = SchemaObject::new();
    node.reference = Some("#/definitions/Foo".to_string());
    let definitions = vec![entry("Foo", typed(InstanceType::String))];
    assert!(validate_schema_object("$", &node, &definitions, &text("x")).is_ok());
    let (path, fault) = value_fault(validate_schema_object("$", &node, &definitions, &uint(5)));
    assert_eq!(path, "#/definitions/Foo");
    assert!(matches!(fault, ValueFault::WrongType { expected: InstanceType::String }));
}

#[test]
fn dangling_reference_is_a_schema_error() {
    let definitions = vec![entry("Foo", typed(InstanceType::String))];
    for reference in ["#/definitions/Bar", "Foo", "#/definitions/"] {
        let mut node = SchemaObject::new();
        node.reference = Some(reference.to_string());
        let (path, fault) = schema_fault(validate_schema_object("$", &node, &definitions, &text("x")));
        assert_eq!(path, "$");
        assert!(matches!(fault, SchemaFault::InvalidReference { reference: r } if r == reference));
    }
}

fn reference_to(name: &str) -> Schema {
    let mut node = SchemaObject::new();
    node.reference = Some(format!("#/definitions/{}", name));
    Schema::Object(node)
}

#[test]
fn reference_cycle_on_one_value_is_a_schema_error() {
    let definitions = vec![entry("A", reference_to("B")), entry("B", reference_to("A"))];
    let (path, fault) = schema_fault(validate_schema("$", &reference_to("A"), &definitions, &text("x")));
    assert_eq!(path, "#/definitions/B");
    assert!(matches!(fault, SchemaFault::CyclicReference { reference } if reference == "#/definitions/A"));
}

#[test]
fn chain_of_references_as_long_as_the_table_is_followed() {
    let definitions = vec![
        entry("A", reference_to("B")),
        entry("B", reference_to("C")),
        entry("C", typed(InstanceType::String)),
    ];
    assert!(validate_schema("$", &reference_to("A"), &definitions, &text("x")).is_ok());
    let (path, _) = value_fault(validate_schema("$", &reference_to("A"), &definitions, &uint(1)));
    assert_eq!(path, "#/definitions/C");
}

#[test]
fn recursive_definition_follows_the_value_down() {
    // Tree = { "children": [Tree, ...] }
    let mut items = ArrayValidation::new();
    items.items = Some(SingleOrVec::Single(Box::new(reference_to("Tree"))));
    let mut tree = ObjectValidation::new();
    tree.required = vec!["children".to_string()];
    tree.properties = vec![entry("children", Schema::Object(with_array(items)))];
    let definitions = vec![entry("Tree", Schema::Object(with_object(tree)))];
    let leaf = || Value::Object(vec![member("children", Value::Array(Vec::new()))]);
    let mut value = leaf();
    for _ in 0..20 {
        value = Value::Object(vec![member("children", Value::Array(vec![value, leaf()]))]);
    }
    assert!(validate_schema("$", &reference_to("Tree"), &definitions, &value).is_ok());
    let bad = Value::Object(vec![member(
        "children",
        Value::Array(vec![leaf(), Value::Object(Vec::new())]),
    )]);
    let (path, fault) = value_fault(validate_schema("$", &reference_to("Tree"), &definitions, &bad));
    assert_eq!(path, "#/definitions/Tree");
    assert!(matches!(fault, ValueFault::MissingProperty { name } if name == "children"));
}

#[test]
fn first_violated_group_wins() {
    let mut node = with_pattern("^z");
    node.instance_type = Some(SingleOrVec::Single(Box::new(InstanceType::Number)));
    node.const_value = Some(text("y"));
    let (path, fault) = value_fault(validate_schema_object("$", &node, &Vec::new(), &text("x")));
    assert_eq!(path, "$");
    assert!(matches!(fault, ValueFault::WrongType { .. }));
    node.instance_type = None;
    let (path, _) = value_fault(validate_schema_object("$", &node, &Vec::new(), &text("x")));
    assert_eq!(path, "$.const");
    node.const_value = None;
    let (_, fault) = value_fault(validate_schema_object("$", &node, &Vec::new(), &text("x")));
    assert!(matches!(fault, ValueFault::PatternMismatch { .. }));
}

#[test]
fn string_length_counts_bytes() {
    let mut group = StringValidation::new();
    group.max_length = Some(3);
    let mut node = SchemaObject::new();
    node.string = Some(Box::new(group));
    assert!(validate_schema_object("$", &node, &Vec::new(), &text("abc")).is_ok());
    // Two characters, four bytes.
    let (_, fault) = value_fault(validate_schema_object("$", &node, &Vec::new(), &text("éé")));
    assert!(matches!(fault, ValueFault::TooLong { limit: 3 }));

    let mut group = StringValidation::new();
    group.min_length = Some(2);
    let mut node = SchemaObject::new();
    node.string = Some(Box::new(group));
    assert!(validate_schema_object("$", &node, &Vec::new(), &text("é")).is_ok());
    let (_, fault) = value_fault(validate_schema_object("$", &node, &Vec::new(), &text("a")));
    assert!(matches!(fault, ValueFault::TooShort { limit: 2 }));
    let (_, fault) = value_fault(validate_schema_object("$", &node, &Vec::new(), &uint(1)));
    assert!(matches!(fault, ValueFault::NotAString));
}

#[test]
fn equality_ignores_member_order() {
    let a = Value::Object(vec![member("x", uint(1)), member("y", Value::Array(vec![text("s")]))]);
    let b = Value::Object(vec![member("y", Value::Array(vec![text("s")])), member("x", uint(1))]);
    let c = Value::Object(vec![member("x", uint(1)), member("y", Value::Array(vec![text("t")]))]);
    assert!(a.equals(&b));
    assert!(!a.equals(&c));
    assert!(!uint(1).equals(&Value::Number(Number::NegInt(1))));
    assert!(a.clone().equals(&a));
}

fn malformed() -> Schema {
    let mut node = SchemaObject::new();
    node.const_value = Some(uint(1));
    node.enum_values = Some(vec![uint(1)]);
    Schema::Object(node)
}

#[test]
fn schema_error_under_not_is_surfaced() {
    let mut group = SubschemaValidation::new();
    group.not = Some(Box::new(malformed()));
    let node = with_subschemas(group);
    for value in [uint(1), text("x"), Value::Null] {
        let (path, fault) = schema_fault(validate_schema_object("$", &node, &Vec::new(), &value));
        assert_eq!(path, "$.not");
        assert!(matches!(fault, SchemaFault::ConstAndEnum));
        let (path, _) = schema_fault(validate_schema("$", &Schema::Object(with_not(malformed())), &Vec::new(), &value));
        assert_eq!(path, "$.not");
    }
}

fn with_not(schema: Schema) -> SchemaObject {
    let mut group = SubschemaValidation::new();
    group.not = Some(Box::new(schema));
    with_subschemas(group)
}

#[test]
fn schema_error_under_all_of_and_one_of_comes_before_the_count() {
    let mut group = SubschemaValidation::new();
    group.all_of = Some(vec![malformed()]);
    let (path, fault) =
        schema_fault(validate_schema_object("$", &with_subschemas(group), &Vec::new(), &text("x")));
    assert_eq!(path, "$.allOf");
    assert!(matches!(fault, SchemaFault::ConstAndEnum));

    // The value error of the first schema does not hide the schema error of the third.
    let mut group = SubschemaValidation::new();
    group.all_of = Some(vec![typed(InstanceType::Number), Schema::Bool(true), malformed()]);
    let (path, fault) =
        schema_fault(validate_schema_object("$", &with_subschemas(group), &Vec::new(), &text("x")));
    assert_eq!(path, "$.allOf");
    assert!(matches!(fault, SchemaFault::ConstAndEnum));

    let mut group = SubschemaValidation::new();
    group.one_of = Some(vec![typed(InstanceType::String), malformed()]);
    let (path, fault) =
        schema_fault(validate_schema_object("$", &with_subschemas(group), &Vec::new(), &text("x")));
    assert_eq!(path, "$.oneOf");
    assert!(matches!(fault, SchemaFault::ConstAndEnum));
}

#[test]
fn any_of_stops_at_the_first_schema_that_accepts() {
    // A malformed schema before the first acceptance is a schema error.
    let mut group = SubschemaValidation::new();
    group.any_of = Some(vec![typed(InstanceType::Number), malformed(), typed(InstanceType::String)]);
    let (path, fault) =
        schema_fault(validate_schema_object("$", &with_subschemas(group), &Vec::new(), &text("x")));
    assert_eq!(path, "$.anyOf");
    assert!(matches!(fault, SchemaFault::ConstAndEnum));

    // One after it is not judged.
    let mut group = SubschemaValidation::new();
    group.any_of = Some(vec![typed(InstanceType::Number), typed(InstanceType::String), malformed()]);
    assert!(validate_schema_object("$", &with_subschemas(group), &Vec::new(), &text("x")).is_ok());
}

#[test]
fn schema_error_of_a_condition_is_surfaced() {
    let mut group = SubschemaValidation::new();
    group.if_schema = Some(Box::new(malformed()));
    group.else_schema = Some(Box::new(Schema::Bool(true)));
    let (path, fault) =
        schema_fault(validate_schema_object("$", &with_subschemas(group), &Vec::new(), &text("x")));
    assert_eq!(path, "$.if");
    assert!(matches!(fault, SchemaFault::ConstAndEnum));

    let mut group = SubschemaValidation::new();
    group.if_schema = Some(Box::new(malformed()));
    let (path, _) =
        schema_fault(validate_schema_object("$", &with_subschemas(group), &Vec::new(), &text("x")));
    assert_eq!(path, "$.if");
}

#[test]
fn contains_surfaces_a_schema_error_and_stops_at_the_first_item_accepted() {
    let mut group = ArrayValidation::new();
    group.contains = Some(Box::new(malformed()));
    let node = with_array(group);
    let (path, fault) = schema_fault(validate_schema_object(
        "$",
        &node,
        &Vec::new(),
        &Value::Array(vec![uint(1)]),
    ));
    assert_eq!(path, "$[0]");
    assert!(matches!(fault, SchemaFault::ConstAndEnum));
    // Without an item there is nothing to judge the schema on.
    let (path, fault) =
        value_fault(validate_schema_object("$", &node, &Vec::new(), &Value::Array(Vec::new())));
    assert_eq!(path, "$.contains");
    assert!(matches!(fault, ValueFault::NothingContained));

    // The schema is malformed for strings only: a reference that does not resolve
    // is met on the second item, after the first was rejected.
    let mut dangling = SchemaObject::new();
    dangling.instance_type = Some(SingleOrVec::Single(Box::new(InstanceType::String)));
    dangling.reference = Some("#/definitions/Nowhere".to_string());
    let mut group = ArrayValidation::new();
    group.contains = Some(Box::new(Schema::Object(dangling)));
    let node = with_array(group);
    let (path, fault) = schema_fault(validate_schema_object(
        "$",
        &node,
        &Vec::new(),
        &Value::Array(vec![uint(1), text("x")]),
    ));
    assert_eq!(path, "$[1]");
    assert!(matches!(fault, SchemaFault::InvalidReference { .. }));
}

#[test]
fn reference_cycle_under_a_combinator_is_surfaced() {
    let definitions = vec![entry("A", reference_to("B")), entry("B", reference_to("A"))];
    let node = with_not(reference_to("A"));
    let (_, fault) = schema_fault(validate_schema_object("$", &node, &definitions, &text("x")));
    assert!(matches!(fault, SchemaFault::CyclicReference { .. }));
}
