use schema_check::text::{
    decimal_string, item_path_string, join, member_path_string, reference_name_string,
};
use schema_check::model::{lookup, same_text};
use schema_check::value::find_key;
use schema_check::{
    validate_schema_object, Entry, InstanceType, Member, Number, ObjectValidation, Schema,
    SchemaObject, SingleOrVec, Value,
};

#[test]
fn decimal_numerals() {
    assert_eq!(decimal_string(0), "0");
    assert_eq!(decimal_string(7), "7");
    assert_eq!(decimal_string(10), "10");
    assert_eq!(decimal_string(1234567890), "1234567890");
    assert_eq!(decimal_string(usize::MAX), usize::MAX.to_string());
}

#[test]
fn paths() {
    assert_eq!(join("$", ".allOf"), "$.allOf");
    assert_eq!(item_path_string("$", 0), "$[0]");
    assert_eq!(item_path_string("$.a", 105), "$.a[105]");
    assert_eq!(member_path_string("$", "name"), "$.name");
    assert_eq!(member_path_string("$[3]", ""), "$[3].");
}

#[test]
fn reference_names() {
    assert_eq!(reference_name_string("#/definitions/Foo"), Some("Foo".to_string()));
    assert_eq!(reference_name_string("/Foo"), Some("Foo".to_string()));
    assert_eq!(reference_name_string("#/definitions/"), Some(String::new()));
    assert_eq!(reference_name_string("a/b/c/d"), Some("d".to_string()));
    assert_eq!(reference_name_string("#/définitions/Été"), Some("Été".to_string()));
    assert_eq!(reference_name_string("Foo"), None);
    assert_eq!(reference_name_string(""), None);
}

#[test]
fn lookups_find_the_first_entry() {
    let entries = vec![
        Entry { key: "a".to_string(), schema: Schema::Bool(true) },
        Entry { key: "b".to_string(), schema: Schema::Bool(true) },
        Entry { key: "a".to_string(), schema: Schema::Bool(false) },
    ];
    assert_eq!(lookup(&entries, "a"), Some(0));
    assert_eq!(lookup(&entries, "b"), Some(1));
    assert_eq!(lookup(&entries, "c"), None);
    assert!(same_text("x", "x"));
    assert!(!same_text("x", "y"));
    let members = vec![
        Member { key: "k".to_string(), value: Value::Null },
        Member { key: "l".to_string(), value: Value::Null },
    ];
    assert_eq!(find_key(&members, &"l".to_string()), Some(1));
    assert_eq!(find_key(&members, &"m".to_string()), None);
}

fn kind(kind: InstanceType) -> Schema {
    let mut node = SchemaObject::new();
    node.instance_type = Some(SingleOrVec::Single(Box::new(kind)));
    Schema::Object(node)
}

#[test]
fn a_record_that_matches_its_schema_validates() {
    // A record of a name, an optional age and a list of tags, with the
    // schema that describes exactly that.
    let mut group = ObjectValidation::new();
    group.required = vec!["name".to_string(), "tags".to_string()];
    let mut tags = SchemaObject::new();
    tags.instance_type = Some(SingleOrVec::Single(Box::new(InstanceType::Array)));
    let mut items = schema_check::ArrayValidation::new();
    items.items = Some(SingleOrVec::Single(Box::new(kind(InstanceType::String))));
    tags.array = Some(Box::new(items));
    let mut age = SchemaObject::new();
    age.instance_type = Some(SingleOrVec::Vec(vec![InstanceType::Integer, InstanceType::Null]));
    group.properties = vec![
        Entry { key: "age".to_string(), schema: Schema::Object(age) },
        Entry { key: "name".to_string(), schema: kind(InstanceType::String) },
        Entry { key: "tags".to_string(), schema: Schema::Object(tags) },
    ];
    let mut node = SchemaObject::new();
    node.instance_type = Some(SingleOrVec::Single(Box::new(InstanceType::Object)));
    node.object = Some(Box::new(group));

    let default_instance = Value::Object(vec![
        Member { key: "age".to_string(), value: Value::Null },
        Member { key: "name".to_string(), value: Value::String(String::new()) },
        Member { key: "tags".to_string(), value: Value::Array(Vec::new()) },
    ]);
    assert!(validate_schema_object("$", &node, &Vec::new(), &default_instance).is_ok());
    let filled = Value::Object(vec![
        Member { key: "age".to_string(), value: Value::Number(Number::PosInt(41)) },
        Member { key: "name".to_string(), value: Value::String("n".to_string()) },
        Member {
            key: "tags".to_string(),
            value: Value::Array(vec![Value::String("t".to_string())]),
        },
    ]);
    assert!(validate_schema_object("$", &node, &Vec::new(), &filled).is_ok());
}
