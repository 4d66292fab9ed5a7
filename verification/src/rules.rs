//! What a validation yields, as a function of schema, definitions and value.
//!
//! A node's keyword groups are judged in a fixed order and the first group
//! that is violated gives the node's verdict. Where a schema is applied to
//! the items of an array or the members of an object, the first item or
//! member that fails gives the verdict. The combinators judge their schemas
//! independently of each other: a schema error of one of them is the
//! verdict at once, and value errors are counted.

use vstd::prelude::*;
use crate::error::{
    and_then, is_schema_error, schema_error, value_error, SchemaFaultModel, ValueFaultModel, Verdict,
};
use crate::model::{
    find_entry, ArrayValidation, Entry, InstanceType, NumberValidation, ObjectValidation, Schema,
    SchemaObject, SingleOrVec, StringValidation, SubschemaValidation,
};
use crate::pattern::{pattern_verdict, regex_match};
use crate::text::{item_path, member_path, reference_name};
use crate::value::{find_member, items_model, json_equal, members_model, weight, JsonValue, Value};

verus! {

/// How many references may be followed on one and the same value. A chain of
/// more references than the table has entries, on one value, has met some
/// entry twice and would never end.
pub open spec fn hop_limit(definitions: Seq<Entry>) -> nat {
    definitions.len()
}

/// Whether `value` is of kind `kind`. A number is an integer when it is
/// encoded as one, signed or unsigned.
pub open spec fn is_of_type(kind: InstanceType, value: Value) -> bool {
    match kind {
        InstanceType::Null => value is Null,
        InstanceType::Boolean => value is Bool,
        InstanceType::Object => value is Object,
        InstanceType::Array => value is Array,
        InstanceType::Number => value is Number,
        InstanceType::String => value is String,
        InstanceType::Integer => match value {
            Value::Number(n) => n.is_integer(),
            _ => false,
        },
    }
}

/// Whether `value` is of one of `kinds`.
pub open spec fn is_of_any_type(kinds: Seq<InstanceType>, value: Value) -> bool {
    exists|i: int| 0 <= i < kinds.len() && is_of_type(#[trigger] kinds[i], value)
}

/// The verdict of the `type` keyword.
pub open spec fn type_verdict(path: Seq<char>, instance_type: Option<SingleOrVec<InstanceType>>, value: Value) -> Verdict {
    match instance_type {
        None => Ok(()),
        Some(SingleOrVec::Single(kind)) => if is_of_type(*kind, value) {
            Ok(())
        } else {
            value_error(path, value@, ValueFaultModel::WrongType { expected: *kind })
        },
        Some(SingleOrVec::Vec(kinds)) => if is_of_any_type(kinds@, value) {
            Ok(())
        } else {
            value_error(path, value@, ValueFaultModel::WrongTypes { allowed: kinds@ })
        },
    }
}

/// Whether `value` equals one of `candidates`.
pub open spec fn is_enumerated(candidates: Seq<Value>, value: Value) -> bool {
    exists|i: int| 0 <= i < candidates.len() && json_equal((#[trigger] candidates[i])@, value@)
}

/// The verdict of the `const` and `enum` keywords.
pub open spec fn constant_verdict(path: Seq<char>, const_value: Option<Value>, enum_values: Option<Vec<Value>>, value: Value) -> Verdict {
    match (const_value, enum_values) {
        (Some(_), Some(_)) => schema_error(path, SchemaFaultModel::ConstAndEnum),
        (Some(constant), None) => if json_equal(constant@, value@) {
            Ok(())
        } else {
            value_error(path + ".const"@, value@, ValueFaultModel::ConstMismatch)
        },
        (None, Some(candidates)) => if is_enumerated(candidates@, value) {
            Ok(())
        } else {
            value_error(path + ".enum"@, value@, ValueFaultModel::NotEnumerated)
        },
        (None, None) => Ok(()),
    }
}

/// The verdict of the numeric keywords, in the order `multipleOf`,
/// `maximum`, `exclusiveMaximum`, `minimum`, `exclusiveMinimum`. The number
/// is compared as a binary64 number. It is a multiple of the divisor unless
/// their quotient exceeds the nearest whole number by more than 2^-52.
/// `maximum` and `minimum` are exclusive bounds: a number equal to one of
/// them is rejected. `exclusiveMaximum` and `exclusiveMinimum` reject only
/// what lies beyond them.
pub open spec fn number_verdict(path: Seq<char>, group: NumberValidation, value: Value) -> Verdict {
    match value {
        Value::Number(number) => {
            let x = number.to_double();
            and_then(
                match group.multiple_of {
                    Some(divisor) if x.quotient(divisor).exceeds_integer() => value_error(
                        path,
                        value@,
                        ValueFaultModel::NotMultipleOf { value: x, divisor },
                    ),
                    _ => Ok(()),
                },
                and_then(
                    match group.maximum {
                        Some(bound) if bound.at_most(x) => value_error(
                            path,
                            value@,
                            ValueFaultModel::Maximum { value: x, bound },
                        ),
                        _ => Ok(()),
                    },
                    and_then(
                        match group.exclusive_maximum {
                            Some(bound) if bound.less_than(x) => value_error(
                                path,
                                value@,
                                ValueFaultModel::ExclusiveMaximum { value: x, bound },
                            ),
                            _ => Ok(()),
                        },
                        and_then(
                            match group.minimum {
                                Some(bound) if x.at_most(bound) => value_error(
                                    path,
                                    value@,
                                    ValueFaultModel::Minimum { value: x, bound },
                                ),
                                _ => Ok(()),
                            },
                            match group.exclusive_minimum {
                                Some(bound) if x.less_than(bound) => value_error(
                                    path,
                                    value@,
                                    ValueFaultModel::ExclusiveMinimum { value: x, bound },
                                ),
                                _ => Ok(()),
                            },
                        ),
                    ),
                ),
            )
        },
        _ => value_error(path, value@, ValueFaultModel::NotANumber),
    }
}

/// The number of bytes that `text` takes in UTF-8.
pub open spec fn byte_length(text: Seq<char>) -> nat {
    vstd::utf8::encode_utf8(text).len()
}

/// The verdict of the string keywords.
pub open spec fn string_verdict(path: Seq<char>, group: StringValidation, value: Value) -> Verdict {
    match value {
        Value::String(text) => and_then(
            match group.max_length {
                Some(limit) if byte_length(text@) > limit => value_error(
                    path,
                    value@,
                    ValueFaultModel::TooLong { limit: limit as nat },
                ),
                _ => Ok(()),
            },
            and_then(
                match group.min_length {
                    Some(limit) if byte_length(text@) < limit => value_error(
                        path,
                        value@,
                        ValueFaultModel::TooShort { limit: limit as nat },
                    ),
                    _ => Ok(()),
                },
                match group.pattern {
                    Some(pattern) => pattern_verdict(path, value@, pattern@, text@),
                    None => Ok(()),
                },
            ),
        ),
        _ => value_error(path, value@, ValueFaultModel::NotAString),
    }
}

/// The first pair of distinct positions that hold equal items, where the
/// pairs from `(i, j)` on are tried row by row.
pub open spec fn duplicate_from(items: Seq<JsonValue>, i: int, j: int) -> Option<(int, int)>
    decreases items.len() - i, items.len() - j,
{
    if i < 0 || j < 0 || i >= items.len() {
        None
    } else if j >= items.len() {
        duplicate_from(items, i + 1, 0)
    } else if i != j && json_equal(items[i], items[j]) {
        Some((i, j))
    } else {
        duplicate_from(items, i, j + 1)
    }
}

/// The first pair of distinct positions that hold equal items.
pub open spec fn first_duplicate(items: Seq<JsonValue>) -> Option<(int, int)> {
    duplicate_from(items, 0, 0)
}

/// The first of `required`, from index `from` on, that `members` lacks.
pub open spec fn first_missing_from(required: Seq<String>, members: Seq<(Seq<char>, JsonValue)>, from: int) -> Option<int>
    decreases required.len() - from,
{
    if from < 0 || from >= required.len() {
        None
    } else if find_member(members, required[from]@) is None {
        Some(from)
    } else {
        first_missing_from(required, members, from + 1)
    }
}

/// Whether one of `patterns` matches `key`.
pub open spec fn pattern_hit(patterns: Seq<Entry>, key: Seq<char>) -> bool {
    exists|k: int| 0 <= k < patterns.len() && regex_match((#[trigger] patterns[k]).key@, key) == Some(true)
}

/// The entry of `definitions` that `reference` names: the one whose key is
/// what follows the last `/` of `reference`. `None` where `reference` has no
/// `/` or the table has no such entry.
pub open spec fn resolve(definitions: Seq<Entry>, reference: Seq<char>) -> Option<int> {
    match reference_name(reference) {
        Some(name) => find_entry(definitions, name),
        None => None,
    }
}

/// The verdict of `schema` on `value`, with `hops` references left to
/// follow on this value.
pub open spec fn schema_verdict(path: Seq<char>, schema: Schema, definitions: Seq<Entry>, value: Value, hops: nat) -> Verdict
    decreases weight(value), value, hops, schema, 0nat,
{
    match schema {
        Schema::Bool(accept) => if accept {
            Ok(())
        } else {
            value_error(path, value@, ValueFaultModel::EmptySchema)
        },
        Schema::Object(node) => node_verdict(path, node, definitions, value, hops),
    }
}

/// The verdict of a schema node: that of its first keyword group that is
/// violated, in the order type, const and enum, combinators, number, string,
/// array, object, reference.
pub open spec fn node_verdict(path: Seq<char>, node: SchemaObject, definitions: Seq<Entry>, value: Value, hops: nat) -> Verdict
    decreases weight(value), value, hops, node, 0nat,
{
    let kind = type_verdict(path, node.instance_type, value);
    let constant = constant_verdict(path, node.const_value, node.enum_values, value);
    let combinators = match node.subschemas {
        Some(group) => combinators_verdict(path, *group, definitions, value, hops),
        None => Ok(()),
    };
    let number = match node.number {
        Some(group) => number_verdict(path, *group, value),
        None => Ok(()),
    };
    let string = match node.string {
        Some(group) => string_verdict(path, *group, value),
        None => Ok(()),
    };
    let array = match node.array {
        Some(group) => array_verdict(path, *group, definitions, value),
        None => Ok(()),
    };
    let object = match node.object {
        Some(group) => object_verdict(path, *group, definitions, value),
        None => Ok(()),
    };
    let reference = match node.reference {
        Some(reference) => match resolve(definitions, reference@) {
            Some(k) => if hops == 0 {
                schema_error(path, SchemaFaultModel::CyclicReference { reference: reference@ })
            } else {
                schema_verdict(
                    reference@,
                    definitions[k].schema,
                    definitions,
                    value,
                    (hops - 1) as nat,
                )
            },
            None => schema_error(path, SchemaFaultModel::InvalidReference { reference: reference@ }),
        },
        None => Ok(()),
    };
    if kind is Err {
        kind
    } else if constant is Err {
        constant
    } else if combinators is Err {
        combinators
    } else if number is Err {
        number
    } else if string is Err {
        string
    } else if array is Err {
        array
    } else if object is Err {
        object
    } else {
        reference
    }
}

/// Whether judging `schema` on `value` with `hops` references left comes,
/// in any of its combinators, upon a reference that it has no hop left for.
pub open spec fn reaches_limit(schema: Schema, definitions: Seq<Entry>, value: Value, hops: nat) -> bool
    decreases weight(value), value, hops, schema, 0nat,
{
    match schema {
        Schema::Bool(_) => false,
        Schema::Object(node) => {
            ||| match node.subschemas {
                Some(group) => {
                    ||| any_reaches_limit(group.all_of, definitions, value, hops)
                    ||| any_reaches_limit(group.any_of, definitions, value, hops)
                    ||| any_reaches_limit(group.one_of, definitions, value, hops)
                    ||| one_reaches_limit(group.not, definitions, value, hops)
                    ||| one_reaches_limit(group.if_schema, definitions, value, hops)
                    ||| one_reaches_limit(group.then_schema, definitions, value, hops)
                    ||| one_reaches_limit(group.else_schema, definitions, value, hops)
                },
                None => false,
            }
            ||| match node.reference {
                Some(reference) => match resolve(definitions, reference@) {
                    Some(k) => hops == 0 || reaches_limit(
                        definitions[k].schema,
                        definitions,
                        value,
                        (hops - 1) as nat,
                    ),
                    None => false,
                },
                None => false,
            }
        },
    }
}

/// Whether one of the schemas of a list reaches the limit.
pub open spec fn any_reaches_limit(list: Option<Vec<Schema>>, definitions: Seq<Entry>, value: Value, hops: nat) -> bool
    decreases weight(value), value, hops, list, 0nat,
{
    match list {
        Some(list) => exists|i: int|
            0 <= i < list.len() && reaches_limit(#[trigger] list[i], definitions, value, hops),
        None => false,
    }
}

/// Whether a schema, where there is one, reaches the limit.
pub open spec fn one_reaches_limit(schema: Option<Box<Schema>>, definitions: Seq<Entry>, value: Value, hops: nat) -> bool
    decreases weight(value), value, hops, schema, 0nat,
{
    match schema {
        Some(schema) => reaches_limit(*schema, definitions, value, hops),
        None => false,
    }
}

/// The first schema error among the verdicts of `list` on `value`, from
/// index `from` on; success where none of them is a schema error.
pub open spec fn first_defect_from(path: Seq<char>, list: Vec<Schema>, definitions: Seq<Entry>, value: Value, hops: nat, from: int) -> Verdict
    decreases weight(value), value, hops, list, list.len() - from,
{
    if from < 0 || from >= list.len() {
        Ok(())
    } else {
        let verdict = schema_verdict(path, list[from], definitions, value, hops);
        if is_schema_error(verdict) {
            verdict
        } else {
            first_defect_from(path, list, definitions, value, hops, from + 1)
        }
    }
}

/// How many of `list`, from index `from` on, reject `value`.
pub open spec fn failures_from(path: Seq<char>, list: Vec<Schema>, definitions: Seq<Entry>, value: Value, hops: nat, from: int) -> nat
    decreases weight(value), value, hops, list, list.len() - from,
{
    if from < 0 || from >= list.len() {
        0
    } else {
        (if schema_verdict(path, list[from], definitions, value, hops) is Err {
            1nat
        } else {
            0nat
        }) + failures_from(path, list, definitions, value, hops, from + 1)
    }
}

/// How many of `list`, from index `from` on, accept `value`.
pub open spec fn passes_from(path: Seq<char>, list: Vec<Schema>, definitions: Seq<Entry>, value: Value, hops: nat, from: int) -> nat
    decreases weight(value), value, hops, list, list.len() - from,
{
    if from < 0 || from >= list.len() {
        0
    } else {
        (if schema_verdict(path, list[from], definitions, value, hops) is Ok {
            1nat
        } else {
            0nat
        }) + passes_from(path, list, definitions, value, hops, from + 1)
    }
}

/// The verdict of `anyOf` over `list` from index `from` on, where `path` is
/// that of the `anyOf`. The schemas are judged in turn up to the first that
/// accepts the value, and those after it are not judged; a schema error met
/// on the way is the verdict; where every schema rejects the value, that is
/// a value error.
pub open spec fn any_of_from(path: Seq<char>, list: Vec<Schema>, definitions: Seq<Entry>, value: Value, hops: nat, from: int) -> Verdict
    decreases weight(value), value, hops, list, list.len() - from,
{
    if from < 0 || from >= list.len() {
        value_error(path, value@, ValueFaultModel::AnyOf)
    } else {
        let verdict = schema_verdict(path, list[from], definitions, value, hops);
        if verdict is Ok || is_schema_error(verdict) {
            verdict
        } else {
            any_of_from(path, list, definitions, value, hops, from + 1)
        }
    }
}

/// The verdict of the combinators, in the order `allOf`, `anyOf`, `oneOf`,
/// `not`, `if` with `then` and `else`.
///
/// A schema error of a schema that a combinator judges is the verdict of
/// the combinator: `allOf` and `oneOf` judge all their schemas and give the
/// first schema error among them before they count; `anyOf` gives the one
/// that it meets before a schema accepts the value; `not` and `if` give that
/// of their schema. Only value errors count as rejections.
pub open spec fn combinators_verdict(path: Seq<char>, group: SubschemaValidation, definitions: Seq<Entry>, value: Value, hops: nat) -> Verdict
    decreases weight(value), value, hops, group, 0nat,
{
    let all_of = match group.all_of {
        Some(list) => {
            let here = path + ".allOf"@;
            let defect = first_defect_from(here, list, definitions, value, hops, 0);
            let failed = failures_from(here, list, definitions, value, hops, 0);
            if defect is Err {
                defect
            } else if failed != 0 {
                value_error(here, value@, ValueFaultModel::AllOf { failed, total: list.len() as nat })
            } else {
                Ok(())
            }
        },
        None => Ok(()),
    };
    let any_of = match group.any_of {
        Some(list) => any_of_from(path + ".anyOf"@, list, definitions, value, hops, 0),
        None => Ok(()),
    };
    let one_of = match group.one_of {
        Some(list) => {
            let here = path + ".oneOf"@;
            let defect = first_defect_from(here, list, definitions, value, hops, 0);
            let passed = passes_from(here, list, definitions, value, hops, 0);
            if defect is Err {
                defect
            } else if passed != 1 {
                value_error(here, value@, ValueFaultModel::OneOf { passed, total: list.len() as nat })
            } else {
                Ok(())
            }
        },
        None => Ok(()),
    };
    let not = match group.not {
        Some(schema) => {
            let here = path + ".not"@;
            let verdict = schema_verdict(here, *schema, definitions, value, hops);
            if verdict is Ok {
                value_error(here, value@, ValueFaultModel::Not)
            } else if is_schema_error(verdict) {
                verdict
            } else {
                Ok(())
            }
        },
        None => Ok(()),
    };
    let conditional = match group.if_schema {
        Some(condition) => {
            let held = schema_verdict(path + ".if"@, *condition, definitions, value, hops);
            if is_schema_error(held) {
                held
            } else if group.then_schema is None && group.else_schema is None {
                schema_error(path, SchemaFaultModel::IfWithoutBranch)
            } else if held is Ok {
                match group.then_schema {
                    Some(consequence) => schema_verdict(
                        path + ".then"@,
                        *consequence,
                        definitions,
                        value,
                        hops,
                    ),
                    None => Ok(()),
                }
            } else {
                match group.else_schema {
                    Some(alternative) => schema_verdict(
                        path + ".else"@,
                        *alternative,
                        definitions,
                        value,
                        hops,
                    ),
                    None => Ok(()),
                }
            }
        },
        None => match (group.then_schema, group.else_schema) {
            (Some(_), None) => schema_error(path, SchemaFaultModel::ThenWithoutIf),
            (None, Some(_)) => schema_error(path, SchemaFaultModel::ElseWithoutIf),
            (Some(_), Some(_)) => schema_error(path, SchemaFaultModel::ThenAndElseWithoutIf),
            (None, None) => Ok(()),
        },
    };
    if all_of is Err {
        all_of
    } else if any_of is Err {
        any_of
    } else if one_of is Err {
        one_of
    } else if not is Err {
        not
    } else {
        conditional
    }
}

/// The verdict of `schema` on each item of the array `value` from index
/// `from` on: that of the first item that fails.
pub open spec fn each_item_from(path: Seq<char>, schema: Schema, definitions: Seq<Entry>, value: Value, from: int) -> Verdict
    decreases weight(value), value, 0nat, schema, value_len(value) - from,
{
    match value {
        Value::Array(items) => if from < 0 || from >= items.len() {
            Ok(())
        } else {
            and_then(
                schema_verdict(
                    item_path(path, from as nat),
                    schema,
                    definitions,
                    items[from],
                    hop_limit(definitions),
                ),
                each_item_from(path, schema, definitions, value, from + 1),
            )
        },
        _ => Ok(()),
    }
}

/// The verdict of the schemas of `list` on the items of the array `value` at
/// the same positions, from index `from` on, as far as both reach.
pub open spec fn paired_items_from(path: Seq<char>, list: Vec<Schema>, definitions: Seq<Entry>, value: Value, from: int) -> Verdict
    decreases weight(value), value, 0nat, list, value_len(value) - from,
{
    match value {
        Value::Array(items) => if from < 0 || from >= items.len() || from >= list.len() {
            Ok(())
        } else {
            and_then(
                schema_verdict(
                    item_path(path, from as nat),
                    list[from],
                    definitions,
                    items[from],
                    hop_limit(definitions),
                ),
                paired_items_from(path, list, definitions, value, from + 1),
            )
        },
        _ => Ok(()),
    }
}

/// The verdict of `contains` with `schema` on the array `value` from index
/// `from` on. The items are judged in turn up to the first that `schema`
/// accepts, and those after it are not judged; a schema error met on the way
/// is the verdict; where `schema` rejects every item, that is a value error
/// that names the array.
pub open spec fn contains_from(path: Seq<char>, schema: Schema, definitions: Seq<Entry>, value: Value, from: int) -> Verdict
    decreases weight(value), value, 0nat, schema, value_len(value) - from,
{
    match value {
        Value::Array(items) => if from < 0 || from >= items.len() {
            value_error(path + ".contains"@, value@, ValueFaultModel::NothingContained)
        } else {
            let verdict = schema_verdict(
                item_path(path, from as nat),
                schema,
                definitions,
                items[from],
                hop_limit(definitions),
            );
            if verdict is Ok || is_schema_error(verdict) {
                verdict
            } else {
                contains_from(path, schema, definitions, value, from + 1)
            }
        },
        _ => Ok(()),
    }
}

/// The number of items of an array or of members of an object; 0 for any
/// other value.
pub open spec fn value_len(value: Value) -> nat {
    match value {
        Value::Array(items) => items.len() as nat,
        Value::Object(members) => members.len() as nat,
        _ => 0,
    }
}

/// The verdict of the array keywords, in the order `maxItems`, `minItems`,
/// `uniqueItems`, `items` with `additionalItems`, `contains`.
pub open spec fn array_verdict(path: Seq<char>, group: ArrayValidation, definitions: Seq<Entry>, value: Value) -> Verdict
    decreases weight(value), value, 0nat, group, 0nat,
{
    match value {
        Value::Array(items) => and_then(
            match group.max_items {
                Some(limit) if items.len() > limit => value_error(
                    path,
                    value@,
                    ValueFaultModel::TooManyItems { count: items.len() as nat, limit: limit as nat },
                ),
                _ => Ok(()),
            },
            and_then(
                match group.min_items {
                    Some(limit) if items.len() < limit => value_error(
                        path,
                        value@,
                        ValueFaultModel::TooFewItems {
                            count: items.len() as nat,
                            limit: limit as nat,
                        },
                    ),
                    _ => Ok(()),
                },
                and_then(
                    if group.unique_items == Some(true) {
                        match first_duplicate(items_model(items@)) {
                            Some((i, j)) => value_error(
                                path,
                                value@,
                                ValueFaultModel::DuplicateItems { first: i as nat, second: j as nat },
                            ),
                            None => Ok(()),
                        }
                    } else {
                        Ok(())
                    },
                    and_then(
                        match group.items {
                            Some(SingleOrVec::Single(schema)) => each_item_from(
                                path,
                                *schema,
                                definitions,
                                value,
                                0,
                            ),
                            Some(SingleOrVec::Vec(list)) => and_then(
                                paired_items_from(path, list, definitions, value, 0),
                                match group.additional_items {
                                    Some(schema) => each_item_from(
                                        path,
                                        *schema,
                                        definitions,
                                        value,
                                        list.len() as int,
                                    ),
                                    None => Ok(()),
                                },
                            ),
                            None => Ok(()),
                        },
                        match group.contains {
                            Some(schema) => contains_from(path, *schema, definitions, value, 0),
                            None => Ok(()),
                        },
                    ),
                ),
            ),
        ),
        _ => value_error(path, value@, ValueFaultModel::NotAnArray),
    }
}

/// The verdict of the property patterns `patterns`, from index `from` on, on
/// member `index` of the object `value`: each pattern that matches the key
/// applies its schema to the member's value, and the first failure counts. A
/// pattern that the engine refuses is a schema error.
pub open spec fn patterns_from(path: Seq<char>, patterns: Vec<Entry>, definitions: Seq<Entry>, value: Value, index: int, from: int) -> Verdict
    decreases weight(value), value, 0nat, patterns, patterns.len() - from,
{
    match value {
        Value::Object(members) => if 0 <= index < members.len() && 0 <= from < patterns.len() {
            match regex_match(patterns[from].key@, members[index].key@) {
                None => schema_error(
                    path,
                    SchemaFaultModel::InvalidPattern { pattern: patterns[from].key@ },
                ),
                Some(hit) => and_then(
                    if hit {
                        schema_verdict(
                            member_path(path, members[index].key@),
                            patterns[from].schema,
                            definitions,
                            members[index].value,
                            hop_limit(definitions),
                        )
                    } else {
                        Ok(())
                    },
                    patterns_from(path, patterns, definitions, value, index, from + 1),
                ),
            }
        } else {
            Ok(())
        },
        _ => Ok(()),
    }
}

/// The verdict on member `index` of the object `value`: the schema of the
/// property named like its key, then the property patterns that match its
/// key, then `additionalProperties` where neither applied, then
/// `propertyNames` on the key itself.
pub open spec fn member_verdict(path: Seq<char>, group: ObjectValidation, definitions: Seq<Entry>, value: Value, index: int) -> Verdict
    decreases weight(value), value, 0nat, group, 0nat,
{
    match value {
        Value::Object(members) => if 0 <= index < members.len() {
            let key = members[index].key;
            let here = member_path(path, key@);
            let named = find_entry(group.properties@, key@);
            and_then(
                match named {
                    Some(k) => schema_verdict(
                        here,
                        group.properties[k].schema,
                        definitions,
                        members[index].value,
                        hop_limit(definitions),
                    ),
                    None => Ok(()),
                },
                and_then(
                    patterns_from(path, group.pattern_properties, definitions, value, index, 0),
                    and_then(
                        match group.additional_properties {
                            Some(schema) if named is None && !pattern_hit(
                                group.pattern_properties@,
                                key@,
                            ) => schema_verdict(
                                here,
                                *schema,
                                definitions,
                                members[index].value,
                                hop_limit(definitions),
                            ),
                            _ => Ok(()),
                        },
                        match group.property_names {
                            Some(schema) => schema_verdict(
                                here,
                                *schema,
                                definitions,
                                Value::String(key),
                                hop_limit(definitions),
                            ),
                            None => Ok(()),
                        },
                    ),
                ),
            )
        } else {
            Ok(())
        },
        _ => Ok(()),
    }
}

/// The verdict on the members of the object `value` from index `from` on:
/// that of the first member that fails.
pub open spec fn members_from(path: Seq<char>, group: ObjectValidation, definitions: Seq<Entry>, value: Value, from: int) -> Verdict
    decreases weight(value), value, 0nat, group, value_len(value) - from + 1,
{
    match value {
        Value::Object(members) => if from < 0 || from >= members.len() {
            Ok(())
        } else {
            and_then(
                member_verdict(path, group, definitions, value, from),
                members_from(path, group, definitions, value, from + 1),
            )
        },
        _ => Ok(()),
    }
}

/// The verdict of the object keywords, in the order `maxProperties`,
/// `minProperties`, `required`, then the members one by one.
pub open spec fn object_verdict(path: Seq<char>, group: ObjectValidation, definitions: Seq<Entry>, value: Value) -> Verdict
    decreases weight(value), value, 0nat, group, value_len(value) + 2,
{
    match value {
        Value::Object(members) => and_then(
            match group.max_properties {
                Some(limit) if members.len() > limit => value_error(
                    path,
                    value@,
                    ValueFaultModel::TooManyProperties {
                        count: members.len() as nat,
                        limit: limit as nat,
                    },
                ),
                _ => Ok(()),
            },
            and_then(
                match group.min_properties {
                    Some(limit) if members.len() < limit => value_error(
                        path,
                        value@,
                        ValueFaultModel::TooFewProperties {
                            count: members.len() as nat,
                            limit: limit as nat,
                        },
                    ),
                    _ => Ok(()),
                },
                and_then(
                    match first_missing_from(group.required@, members_model(members@), 0) {
                        Some(k) => value_error(
                            path,
                            value@,
                            ValueFaultModel::MissingProperty { name: group.required[k]@ },
                        ),
                        None => Ok(()),
                    },
                    members_from(path, group, definitions, value, 0),
                ),
            ),
        ),
        _ => value_error(path, value@, ValueFaultModel::NotAnObject),
    }
}

} // verus!
