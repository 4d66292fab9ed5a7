//! The schema model: a boolean literal or a node of optional keyword groups.

use vstd::prelude::*;
use crate::binary64::Double;
use crate::value::Value;

verus! {

/// The kinds of value that a schema can ask for.
#[derive(Clone, Copy, Debug, PartialEq, Eq, Structural)]
pub enum InstanceType {
    Null,
    Boolean,
    Object,
    Array,
    Number,
    String,
    Integer,
}

/// One thing or a list of things.
#[derive(Debug)]
pub enum SingleOrVec<T> {
    Single(Box<T>),
    Vec(Vec<T>),
}

/// A schema stored under a key: a named definition, a named property, or a
/// property pattern. The entries of a table stand in the order in which the
/// table is walked; a key is looked up by its first entry. A table that was
/// made from a map has no key twice, which [`has_distinct_entry_keys`] says.
#[derive(Debug)]
pub struct Entry {
    pub key: String,
    pub schema: Schema,
}

/// A schema: `Bool(true)` accepts every value, `Bool(false)` none, and a node
/// accepts the values that pass each of its keyword groups.
#[derive(Debug)]
pub enum Schema {
    Bool(bool),
    Object(SchemaObject),
}

/// A schema node with its optional keyword groups.
#[derive(Debug)]
pub struct SchemaObject {
    pub instance_type: Option<SingleOrVec<InstanceType>>,
    pub enum_values: Option<Vec<Value>>,
    pub const_value: Option<Value>,
    pub subschemas: Option<Box<SubschemaValidation>>,
    pub number: Option<Box<NumberValidation>>,
    pub string: Option<Box<StringValidation>>,
    pub array: Option<Box<ArrayValidation>>,
    pub object: Option<Box<ObjectValidation>>,
    pub reference: Option<String>,
}

/// The combinators.
#[derive(Debug)]
pub struct SubschemaValidation {
    pub all_of: Option<Vec<Schema>>,
    pub any_of: Option<Vec<Schema>>,
    pub one_of: Option<Vec<Schema>>,
    pub not: Option<Box<Schema>>,
    pub if_schema: Option<Box<Schema>>,
    pub then_schema: Option<Box<Schema>>,
    pub else_schema: Option<Box<Schema>>,
}

/// The numeric constraints.
#[derive(Clone, Copy, Debug)]
pub struct NumberValidation {
    pub multiple_of: Option<Double>,
    pub maximum: Option<Double>,
    pub exclusive_maximum: Option<Double>,
    pub minimum: Option<Double>,
    pub exclusive_minimum: Option<Double>,
}

/// The string constraints.
#[derive(Debug)]
pub struct StringValidation {
    pub max_length: Option<u32>,
    pub min_length: Option<u32>,
    pub pattern: Option<String>,
}

/// The array constraints.
#[derive(Debug)]
pub struct ArrayValidation {
    pub items: Option<SingleOrVec<Schema>>,
    pub additional_items: Option<Box<Schema>>,
    pub max_items: Option<u32>,
    pub min_items: Option<u32>,
    pub unique_items: Option<bool>,
    pub contains: Option<Box<Schema>>,
}

/// The object constraints.
#[derive(Debug)]
pub struct ObjectValidation {
    pub max_properties: Option<u32>,
    pub min_properties: Option<u32>,
    pub required: Vec<String>,
    pub properties: Vec<Entry>,
    pub pattern_properties: Vec<Entry>,
    pub additional_properties: Option<Box<Schema>>,
    pub property_names: Option<Box<Schema>>,
}

/// Whether no two of `entries` share a key, as in a map.
pub open spec fn has_distinct_entry_keys(entries: Seq<Entry>) -> bool {
    forall|i: int, j: int|
        0 <= i < entries.len() && 0 <= j < entries.len() && i != j ==> entries[i].key@
            != entries[j].key@
}

/// Whether no two of `names` are the same, as in a set.
pub open spec fn has_distinct_names(names: Seq<String>) -> bool {
    forall|i: int, j: int|
        0 <= i < names.len() && 0 <= j < names.len() && i != j ==> names[i]@ != names[j]@
}

impl ObjectValidation {
    /// Whether the group's tables are as maps and sets hold them: no
    /// required name, no property and no property pattern stands twice.
    pub open spec fn has_distinct_keys(self) -> bool {
        &&& has_distinct_names(self.required@)
        &&& has_distinct_entry_keys(self.properties@)
        &&& has_distinct_entry_keys(self.pattern_properties@)
    }
}

/// The first entry of `entries` at or after index `from` whose key is `key`.
pub open spec fn find_entry_from(entries: Seq<Entry>, key: Seq<char>, from: int) -> Option<int>
    decreases entries.len() - from,
{
    if from < 0 || from >= entries.len() {
        None
    } else if entries[from].key@ == key {
        Some(from)
    } else {
        find_entry_from(entries, key, from + 1)
    }
}

/// The first entry of `entries` whose key is `key`.
pub open spec fn find_entry(entries: Seq<Entry>, key: Seq<char>) -> Option<int> {
    find_entry_from(entries, key, 0)
}

/// The index of the first entry of `entries` whose key is `key`.
pub fn lookup(entries: &Vec<Entry>, key: &str) -> (r: Option<usize>)
    ensures
        match r {
            Some(k) => find_entry(entries@, key@) == Some(k as int) && k < entries.len(),
            None => find_entry(entries@, key@) is None,
        },
{
    let mut i: usize = 0;
    while i < entries.len()
        invariant
            i <= entries.len(),
            find_entry(entries@, key@) == find_entry_from(entries@, key@, i as int),
        decreases entries.len() - i,
    {
        if same_text(entries[i].key.as_str(), key) {
            return Some(i);
        }
        i += 1;
    }
    None
}

/// Whether two strings hold the same text.
pub fn same_text(a: &str, b: &str) -> (r: bool)
    ensures
        r == (a@ == b@),
{
    let x = a.to_owned();
    let y = b.to_owned();
    x == y
}

impl SchemaObject {
    /// A node without any keyword group: it accepts every value.
    pub fn new() -> (r: SchemaObject)
        ensures
            r.instance_type is None,
            r.enum_values is None,
            r.const_value is None,
            r.subschemas is None,
            r.number is None,
            r.string is None,
            r.array is None,
            r.object is None,
            r.reference is None,
    {
        SchemaObject {
            instance_type: None,
            enum_values: None,
            const_value: None,
            subschemas: None,
            number: None,
            string: None,
            array: None,
            object: None,
            reference: None,
        }
    }
}

impl SubschemaValidation {
    /// A group without any combinator.
    pub fn new() -> (r: SubschemaValidation)
        ensures
            r.all_of is None,
            r.any_of is None,
            r.one_of is None,
            r.not is None,
            r.if_schema is None,
            r.then_schema is None,
            r.else_schema is None,
    {
        SubschemaValidation {
            all_of: None,
            any_of: None,
            one_of: None,
            not: None,
            if_schema: None,
            then_schema: None,
            else_schema: None,
        }
    }
}

impl NumberValidation {
    /// A group without any numeric constraint.
    pub fn new() -> (r: NumberValidation)
        ensures
            r.multiple_of is None,
            r.maximum is None,
            r.exclusive_maximum is None,
            r.minimum is None,
            r.exclusive_minimum is None,
    {
        NumberValidation {
            multiple_of: None,
            maximum: None,
            exclusive_maximum: None,
            minimum: None,
            exclusive_minimum: None,
        }
    }
}

impl StringValidation {
    /// A group without any string constraint.
    pub fn new() -> (r: StringValidation)
        ensures
            r.max_length is None,
            r.min_length is None,
            r.pattern is None,
    {
        StringValidation { max_length: None, min_length: None, pattern: None }
    }
}

impl ArrayValidation {
    /// A group without any array constraint.
    pub fn new() -> (r: ArrayValidation)
        ensures
            r.items is None,
            r.additional_items is None,
            r.max_items is None,
            r.min_items is None,
            r.unique_items is None,
            r.contains is None,
    {
        ArrayValidation {
            items: None,
            additional_items: None,
            max_items: None,
            min_items: None,
            unique_items: None,
            contains: None,
        }
    }
}

impl ObjectValidation {
    /// A group without any object constraint.
    pub fn new() -> (r: ObjectValidation)
        ensures
            r.has_distinct_keys(),
            r.max_properties is None,
            r.min_properties is None,
            r.required@.len() == 0,
            r.properties@.len() == 0,
            r.pattern_properties@.len() == 0,
            r.additional_properties is None,
            r.property_names is None,
    {
        ObjectValidation {
            max_properties: None,
            min_properties: None,
            required: Vec::new(),
            properties: Vec::new(),
            pattern_properties: Vec::new(),
            additional_properties: None,
            property_names: None,
        }
    }
}

} // verus!
