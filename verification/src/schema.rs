//! The validation engine.

use vstd::prelude::*;
use vstd::string::*;
use crate::error::{
    invalid_schema, invalid_value, is_defect, verdict_of, Error, SchemaFault, ValueFault,
};
use crate::model::{
    lookup, ArrayValidation, Entry, InstanceType, NumberValidation, ObjectValidation, Schema,
    SchemaObject, SingleOrVec, StringValidation, SubschemaValidation,
};
use crate::pattern::{applies_to, check_pattern, regex_match};
use crate::rules::{
    any_of_from, array_verdict, combinators_verdict, constant_verdict, contains_from,
    duplicate_from, each_item_from, failures_from, first_defect_from, first_duplicate,
    first_missing_from, hop_limit,
    is_of_type, member_verdict, members_from, node_verdict, number_verdict,
    object_verdict,
    paired_items_from, passes_from, pattern_hit, patterns_from, schema_verdict, string_verdict,
    type_verdict,
};
use crate::text::{item_path_string, join, member_path_string, reference_name_string};
use crate::value::{find_key, items_model, members_model, weight, Value};

verus! {

/// Validates `value` against `schema`. References are resolved in
/// `definitions`; `path` says where the check takes place and is carried
/// into the error.
pub fn validate_schema(path: &str, schema: &Schema, definitions: &Vec<Entry>, value: &Value) -> (r: Result<(), Error>)
    ensures
        verdict_of(r) == schema_verdict(path@, *schema, definitions@, *value, hop_limit(definitions@)),
{
    check_schema(path, schema, definitions, value, definitions.len())
}

/// Validates `value` against the schema node `schema`.
pub fn validate_schema_object(path: &str, schema: &SchemaObject, definitions: &Vec<Entry>, value: &Value) -> (r: Result<(), Error>)
    ensures
        verdict_of(r) == node_verdict(path@, *schema, definitions@, *value, hop_limit(definitions@)),
{
    check_node(path, schema, definitions, value, definitions.len())
}

/// Whether `value` is of kind `instance_type`.
pub fn is_valid_instance_type(instance_type: &InstanceType, value: &Value) -> (r: bool)
    ensures
        r == is_of_type(*instance_type, *value),
{
    match instance_type {
        InstanceType::Null => matches!(value, Value::Null),
        InstanceType::Boolean => matches!(value, Value::Bool(_)),
        InstanceType::Object => matches!(value, Value::Object(_)),
        InstanceType::Array => matches!(value, Value::Array(_)),
        InstanceType::Number => matches!(value, Value::Number(_)),
        InstanceType::String => matches!(value, Value::String(_)),
        InstanceType::Integer => match value {
            Value::Number(n) => n.integer(),
            _ => false,
        },
    }
}

/// Checks the `type` keyword.
#[verifier::loop_isolation(false)]
pub fn check_type(path: &str, instance_type: &Option<SingleOrVec<InstanceType>>, value: &Value) -> (r: Result<(), Error>)
    ensures
        verdict_of(r) == type_verdict(path@, *instance_type, *value),
{
    match instance_type {
        None => Ok(()),
        Some(SingleOrVec::Single(kind)) => {
            if is_valid_instance_type(kind, value) {
                Ok(())
            } else {
                invalid_value(path, value, ValueFault::WrongType { expected: **kind })
            }
        },
        Some(SingleOrVec::Vec(kinds)) => {
            let mut allowed: Vec<InstanceType> = Vec::new();
            let mut i: usize = 0;
            while i < kinds.len()
                invariant
                    i <= kinds.len(),
                    allowed@ == kinds@.subrange(0, i as int),
                    forall|k: int| 0 <= k < i ==> !is_of_type(#[trigger] kinds@[k], *value),
                decreases kinds.len() - i,
            {
                if is_valid_instance_type(&kinds[i], value) {
                    return Ok(());
                }
                allowed.push(kinds[i]);
                assert(allowed@ =~= kinds@.subrange(0, i + 1));
                i += 1;
            }
            assert(allowed@ =~= kinds@);
            invalid_value(path, value, ValueFault::WrongTypes { allowed })
        },
    }
}

/// Checks the `const` and `enum` keywords.
#[verifier::loop_isolation(false)]
pub fn check_constant(path: &str, const_value: &Option<Value>, enum_values: &Option<Vec<Value>>, value: &Value) -> (r: Result<(), Error>)
    ensures
        verdict_of(r) == constant_verdict(path@, *const_value, *enum_values, *value),
{
    match (const_value, enum_values) {
        (Some(_), Some(_)) => invalid_schema(path, SchemaFault::ConstAndEnum),
        (Some(constant), None) => {
            if constant.equals(value) {
                Ok(())
            } else {
                let here = join(path, ".const");
                invalid_value(here.as_str(), value, ValueFault::ConstMismatch)
            }
        },
        (None, Some(candidates)) => {
            let mut i: usize = 0;
            while i < candidates.len()
                invariant
                    i <= candidates.len(),
                    forall|k: int| 0 <= k < i ==> !crate::value::json_equal((#[trigger] candidates@[k])@, value@),
                decreases candidates.len() - i,
            {
                if candidates[i].equals(value) {
                    return Ok(());
                }
                i += 1;
            }
            let here = join(path, ".enum");
            invalid_value(here.as_str(), value, ValueFault::NotEnumerated)
        },
        (None, None) => Ok(()),
    }
}

/// Checks the numeric keywords.
pub fn check_number(path: &str, group: &NumberValidation, value: &Value) -> (r: Result<(), Error>)
    ensures
        verdict_of(r) == number_verdict(path@, *group, *value),
{
    let x = match value {
        Value::Number(number) => number.as_double(),
        _ => {
            return invalid_value(path, value, ValueFault::NotANumber);
        },
    };
    if let Some(divisor) = group.multiple_of {
        if x.div(&divisor).exceeds() {
            return invalid_value(path, value, ValueFault::NotMultipleOf { value: x, divisor });
        }
    }
    if let Some(bound) = group.maximum {
        if x.ge(&bound) {
            return invalid_value(path, value, ValueFault::Maximum { value: x, bound });
        }
    }
    if let Some(bound) = group.exclusive_maximum {
        if x.gt(&bound) {
            return invalid_value(path, value, ValueFault::ExclusiveMaximum { value: x, bound });
        }
    }
    if let Some(bound) = group.minimum {
        if x.le(&bound) {
            return invalid_value(path, value, ValueFault::Minimum { value: x, bound });
        }
    }
    if let Some(bound) = group.exclusive_minimum {
        if x.lt(&bound) {
            return invalid_value(path, value, ValueFault::ExclusiveMinimum { value: x, bound });
        }
    }
    Ok(())
}

/// Checks the string keywords.
pub fn check_string(path: &str, group: &StringValidation, value: &Value) -> (r: Result<(), Error>)
    ensures
        verdict_of(r) == string_verdict(path@, *group, *value),
{
    let text = match value {
        Value::String(text) => text,
        _ => {
            return invalid_value(path, value, ValueFault::NotAString);
        },
    };
    let length = text.as_str().as_bytes().len();
    if let Some(limit) = group.max_length {
        if length > limit as usize {
            return invalid_value(path, value, ValueFault::TooLong { limit });
        }
    }
    if let Some(limit) = group.min_length {
        if length < limit as usize {
            return invalid_value(path, value, ValueFault::TooShort { limit });
        }
    }
    match &group.pattern {
        Some(pattern) => check_pattern(path, value, pattern.as_str(), text.as_str()),
        None => Ok(()),
    }
}

fn check_schema(path: &str, schema: &Schema, definitions: &Vec<Entry>, value: &Value, hops: usize) -> (r: Result<(), Error>)
    ensures
        verdict_of(r) == schema_verdict(path@, *schema, definitions@, *value, hops as nat),
    decreases weight(*value), *value, hops, *schema, 0nat,
{
    match schema {
        Schema::Bool(accept) => {
            if *accept {
                Ok(())
            } else {
                invalid_value(path, value, ValueFault::EmptySchema)
            }
        },
        Schema::Object(node) => check_node(path, node, definitions, value, hops),
    }
}

fn check_node(path: &str, node: &SchemaObject, definitions: &Vec<Entry>, value: &Value, hops: usize) -> (r: Result<(), Error>)
    ensures
        verdict_of(r) == node_verdict(path@, *node, definitions@, *value, hops as nat),
    decreases weight(*value), *value, hops, *node, 0nat,
{
    let r = check_type(path, &node.instance_type, value);
    if r.is_err() {
        return r;
    }
    let r = check_constant(path, &node.const_value, &node.enum_values, value);
    if r.is_err() {
        return r;
    }
    if let Some(group) = &node.subschemas {
        let r = check_combinators(path, group, definitions, value, hops);
        if r.is_err() {
            return r;
        }
    }
    if let Some(group) = &node.number {
        let r = check_number(path, group, value);
        if r.is_err() {
            return r;
        }
    }
    if let Some(group) = &node.string {
        let r = check_string(path, group, value);
        if r.is_err() {
            return r;
        }
    }
    if let Some(group) = &node.array {
        let r = check_array(path, group, definitions, value);
        if r.is_err() {
            return r;
        }
    }
    if let Some(group) = &node.object {
        let r = check_object(path, group, definitions, value);
        if r.is_err() {
            return r;
        }
    }
    match &node.reference {
        Some(reference) => match reference_name_string(reference.as_str()) {
            Some(name) => match lookup(definitions, name.as_str()) {
                Some(k) => {
                    if hops == 0 {
                        invalid_schema(
                            path,
                            SchemaFault::CyclicReference { reference: reference.clone() },
                        )
                    } else {
                        check_schema(
                            reference.as_str(),
                            &definitions[k].schema,
                            definitions,
                            value,
                            hops - 1,
                        )
                    }
                },
                None => invalid_schema(
                    path,
                    SchemaFault::InvalidReference { reference: reference.clone() },
                ),
            },
            None => invalid_schema(
                path,
                SchemaFault::InvalidReference { reference: reference.clone() },
            ),
        },
        None => Ok(()),
    }
}

#[verifier::loop_isolation(false)]
fn check_combinators(path: &str, group: &SubschemaValidation, definitions: &Vec<Entry>, value: &Value, hops: usize) -> (r: Result<(), Error>)
    ensures
        verdict_of(r) == combinators_verdict(path@, *group, definitions@, *value, hops as nat),
    decreases weight(*value), *value, hops, *group, 0nat,
{
    if let Some(list) = &group.all_of {
        let here = join(path, ".allOf");
        let mut failed: usize = 0;
        let mut i: usize = 0;
        while i < list.len()
            invariant
                i <= list.len(),
                failed <= i,
                here@ == path@ + ".allOf"@,
                group.all_of == Some(*list),
                first_defect_from(here@, *list, definitions@, *value, hops as nat, i as int)
                    == first_defect_from(here@, *list, definitions@, *value, hops as nat, 0),
                failed + failures_from(here@, *list, definitions@, *value, hops as nat, i as int)
                    == failures_from(here@, *list, definitions@, *value, hops as nat, 0),
            decreases list.len() - i,
        {
            assert(group.all_of->Some_0 == *list);
            let r = check_schema(here.as_str(), &list[i], definitions, value, hops);
            if is_defect(&r) {
                return r;
            }
            if r.is_err() {
                failed += 1;
            }
            i += 1;
        }
        if failed != 0 {
            return invalid_value(
                here.as_str(),
                value,
                ValueFault::AllOf { failed, total: list.len() },
            );
        }
    }
    if let Some(list) = &group.any_of {
        let here = join(path, ".anyOf");
        let mut accepted = false;
        let mut i: usize = 0;
        while i < list.len() && !accepted
            invariant
                i <= list.len(),
                here@ == path@ + ".anyOf"@,
                group.any_of == Some(*list),
                accepted ==> any_of_from(here@, *list, definitions@, *value, hops as nat, 0) is Ok,
                !accepted ==> any_of_from(here@, *list, definitions@, *value, hops as nat, i as int)
                    == any_of_from(here@, *list, definitions@, *value, hops as nat, 0),
            decreases list.len() - i,
        {
            assert(group.any_of->Some_0 == *list);
            let r = check_schema(here.as_str(), &list[i], definitions, value, hops);
            if is_defect(&r) {
                return r;
            }
            if r.is_ok() {
                accepted = true;
            }
            i += 1;
        }
        if !accepted {
            return invalid_value(here.as_str(), value, ValueFault::AnyOf);
        }
    }
    if let Some(list) = &group.one_of {
        let here = join(path, ".oneOf");
        let mut passed: usize = 0;
        let mut i: usize = 0;
        while i < list.len()
            invariant
                i <= list.len(),
                passed <= i,
                here@ == path@ + ".oneOf"@,
                group.one_of == Some(*list),
                first_defect_from(here@, *list, definitions@, *value, hops as nat, i as int)
                    == first_defect_from(here@, *list, definitions@, *value, hops as nat, 0),
                passed + passes_from(here@, *list, definitions@, *value, hops as nat, i as int)
                    == passes_from(here@, *list, definitions@, *value, hops as nat, 0),
            decreases list.len() - i,
        {
            assert(group.one_of->Some_0 == *list);
            let r = check_schema(here.as_str(), &list[i], definitions, value, hops);
            if is_defect(&r) {
                return r;
            }
            if r.is_ok() {
                passed += 1;
            }
            i += 1;
        }
        if passed != 1 {
            return invalid_value(
                here.as_str(),
                value,
                ValueFault::OneOf { passed, total: list.len() },
            );
        }
    }
    if let Some(schema) = &group.not {
        let here = join(path, ".not");
        let r = check_schema(here.as_str(), schema, definitions, value, hops);
        if r.is_ok() {
            return invalid_value(here.as_str(), value, ValueFault::Not);
        }
        if is_defect(&r) {
            return r;
        }
    }
    match &group.if_schema {
        Some(condition) => {
            let here = join(path, ".if");
            let held = check_schema(here.as_str(), condition, definitions, value, hops);
            if is_defect(&held) {
                held
            } else if group.then_schema.is_none() && group.else_schema.is_none() {
                invalid_schema(path, SchemaFault::IfWithoutBranch)
            } else if held.is_ok() {
                match &group.then_schema {
                    Some(schema) => {
                        let here = join(path, ".then");
                        check_schema(here.as_str(), schema, definitions, value, hops)
                    },
                    None => Ok(()),
                }
            } else {
                match &group.else_schema {
                    Some(schema) => {
                        let here = join(path, ".else");
                        check_schema(here.as_str(), schema, definitions, value, hops)
                    },
                    None => Ok(()),
                }
            }
        },
        None => {
            if group.then_schema.is_some() {
                if group.else_schema.is_some() {
                    invalid_schema(path, SchemaFault::ThenAndElseWithoutIf)
                } else {
                    invalid_schema(path, SchemaFault::ThenWithoutIf)
                }
            } else if group.else_schema.is_some() {
                invalid_schema(path, SchemaFault::ElseWithoutIf)
            } else {
                Ok(())
            }
        },
    }
}

#[verifier::loop_isolation(false)]
fn check_array(path: &str, group: &ArrayValidation, definitions: &Vec<Entry>, value: &Value) -> (r: Result<(), Error>)
    ensures
        verdict_of(r) == array_verdict(path@, *group, definitions@, *value),
    decreases weight(*value), *value, 0nat, *group, 0nat,
{
    let items = match value {
        Value::Array(items) => items,
        _ => {
            return invalid_value(path, value, ValueFault::NotAnArray);
        },
    };
    let count = items.len();
    if let Some(limit) = group.max_items {
        if count > limit as usize {
            return invalid_value(path, value, ValueFault::TooManyItems { count, limit });
        }
    }
    if let Some(limit) = group.min_items {
        if count < limit as usize {
            return invalid_value(path, value, ValueFault::TooFewItems { count, limit });
        }
    }
    if let Some(true) = group.unique_items {
        let ghost model = items_model(items@);
        let mut i: usize = 0;
        while i < count
            invariant
                i <= count,
                count == items.len(),
                model == items_model(items@),
                first_duplicate(model) == duplicate_from(model, i as int, 0),
            decreases count - i,
        {
            let mut j: usize = 0;
            while j < count
                invariant
                    i < count,
                    j <= count,
                    count == items.len(),
                    model == items_model(items@),
                    first_duplicate(model) == duplicate_from(model, i as int, j as int),
                decreases count - j,
            {
                if i != j && items[i].equals(&items[j]) {
                    return invalid_value(
                        path,
                        value,
                        ValueFault::DuplicateItems { first: i, second: j },
                    );
                }
                j += 1;
            }
            i += 1;
        }
    }
    match &group.items {
        Some(SingleOrVec::Single(schema)) => {
            let mut i: usize = 0;
            while i < count
                invariant
                    i <= count,
                    count == items.len(),
                    *value == Value::Array(*items),
                    group.items == Some(SingleOrVec::Single(*schema)),
                    each_item_from(path@, **schema, definitions@, *value, 0) == each_item_from(
                        path@,
                        **schema,
                        definitions@,
                        *value,
                        i as int,
                    ),
                decreases count - i,
            {
                assert(value->Array_0 == *items);
                let here = item_path_string(path, i);
                let r = check_schema(here.as_str(), schema, definitions, &items[i], definitions.len());
                if r.is_err() {
                    return r;
                }
                i += 1;
            }
        },
        Some(SingleOrVec::Vec(list)) => {
            let mut i: usize = 0;
            while i < count && i < list.len()
                invariant
                    i <= count,
                    count == items.len(),
                    *value == Value::Array(*items),
                    group.items == Some(SingleOrVec::Vec(*list)),
                    paired_items_from(path@, *list, definitions@, *value, 0) == paired_items_from(
                        path@,
                        *list,
                        definitions@,
                        *value,
                        i as int,
                    ),
                decreases count - i,
            {
                assert(value->Array_0 == *items);
                let here = item_path_string(path, i);
                let r = check_schema(here.as_str(), &list[i], definitions, &items[i], definitions.len());
                if r.is_err() {
                    return r;
                }
                i += 1;
            }
            if let Some(schema) = &group.additional_items {
                let mut i: usize = list.len();
                while i < count
                    invariant
                        count == items.len(),
                        *value == Value::Array(*items),
                        group.additional_items == Some(*schema),
                        each_item_from(path@, **schema, definitions@, *value, list.len() as int)
                            == each_item_from(path@, **schema, definitions@, *value, i as int),
                    decreases count - i,
                {
                    assert(value->Array_0 == *items);
                    let here = item_path_string(path, i);
                    let r = check_schema(
                        here.as_str(),
                        schema,
                        definitions,
                        &items[i],
                        definitions.len(),
                    );
                    if r.is_err() {
                        return r;
                    }
                    i += 1;
                }
            }
        },
        None => {},
    }
    if let Some(schema) = &group.contains {
        let mut i: usize = 0;
        while i < count
            invariant
                i <= count,
                count == items.len(),
                *value == Value::Array(*items),
                group.contains == Some(*schema),
                contains_from(path@, **schema, definitions@, *value, i as int) == contains_from(
                    path@,
                    **schema,
                    definitions@,
                    *value,
                    0,
                ),
            decreases count - i,
        {
            assert(value->Array_0 == *items);
            let here = item_path_string(path, i);
            let r = check_schema(here.as_str(), schema, definitions, &items[i], definitions.len());
            if r.is_ok() || is_defect(&r) {
                return r;
            }
            i += 1;
        }
        let here = join(path, ".contains");
        invalid_value(here.as_str(), value, ValueFault::NothingContained)
    } else {
        Ok(())
    }
}

#[verifier::loop_isolation(false)]
fn check_member(path: &str, group: &ObjectValidation, definitions: &Vec<Entry>, value: &Value, index: usize) -> (r: Result<(), Error>)
    ensures
        verdict_of(r) == member_verdict(path@, *group, definitions@, *value, index as int),
    decreases weight(*value), *value, 0nat, *group, 0nat,
{
    let members = match value {
        Value::Object(members) => members,
        _ => {
            return Ok(());
        },
    };
    if index >= members.len() {
        return Ok(());
    }
    assert(value->Object_0 == *members);
    let member = &members[index];
    let here = member_path_string(path, member.key.as_str());
    let named = lookup(&group.properties, member.key.as_str());
    let mut seen = false;
    if let Some(k) = named {
        let r = check_schema(
            here.as_str(),
            &group.properties[k].schema,
            definitions,
            &member.value,
            definitions.len(),
        );
        if r.is_err() {
            return r;
        }
        seen = true;
    }
    let patterns = &group.pattern_properties;
    let mut j: usize = 0;
    while j < patterns.len()
        invariant
            j <= patterns.len(),
            index < members.len(),
            *value == Value::Object(*members),
            *member == members[index as int],
            *patterns == group.pattern_properties,
            here@ == crate::text::member_path(path@, member.key@),
            seen == (named is Some || exists|k: int|
                0 <= k < j && regex_match((#[trigger] patterns@[k]).key@, member.key@) == Some(true)),
            patterns_from(path@, *patterns, definitions@, *value, index as int, 0) == patterns_from(
                path@,
                *patterns,
                definitions@,
                *value,
                index as int,
                j as int,
            ),
        decreases patterns.len() - j,
    {
        assert(value->Object_0 == *members);
        let entry = &patterns[j];
        match applies_to(path, entry.key.as_str(), member.key.as_str()) {
            Err(e) => {
                return Err(e);
            },
            Ok(hit) => {
                if hit {
                    let r = check_schema(
                        here.as_str(),
                        &entry.schema,
                        definitions,
                        &member.value,
                        definitions.len(),
                    );
                    if r.is_err() {
                        return r;
                    }
                    seen = true;
                }
            },
        }
        j += 1;
    }
    assert(seen == (named is Some || pattern_hit(patterns@, member.key@)));
    if !seen {
        if let Some(schema) = &group.additional_properties {
            let r = check_schema(
                here.as_str(),
                schema,
                definitions,
                &member.value,
                definitions.len(),
            );
            if r.is_err() {
                return r;
            }
        }
    }
    match &group.property_names {
        Some(schema) => {
            let name = Value::String(member.key.clone());
            check_schema(here.as_str(), schema, definitions, &name, definitions.len())
        },
        None => Ok(()),
    }
}

#[verifier::loop_isolation(false)]
fn check_object(path: &str, group: &ObjectValidation, definitions: &Vec<Entry>, value: &Value) -> (r: Result<(), Error>)
    ensures
        verdict_of(r) == object_verdict(path@, *group, definitions@, *value),
    decreases weight(*value), *value, 0nat, *group, crate::rules::value_len(*value) + 2,
{
    let members = match value {
        Value::Object(members) => members,
        _ => {
            return invalid_value(path, value, ValueFault::NotAnObject);
        },
    };
    let count = members.len();
    if let Some(limit) = group.max_properties {
        if count > limit as usize {
            return invalid_value(path, value, ValueFault::TooManyProperties { count, limit });
        }
    }
    if let Some(limit) = group.min_properties {
        if count < limit as usize {
            return invalid_value(path, value, ValueFault::TooFewProperties { count, limit });
        }
    }
    let ghost model = members_model(members@);
    let mut k: usize = 0;
    while k < group.required.len()
        invariant
            k <= group.required.len(),
            model == members_model(members@),
            first_missing_from(group.required@, model, 0) == first_missing_from(
                group.required@,
                model,
                k as int,
            ),
        decreases group.required.len() - k,
    {
        if find_key(members, &group.required[k]).is_none() {
            return invalid_value(
                path,
                value,
                ValueFault::MissingProperty { name: group.required[k].clone() },
            );
        }
        k += 1;
    }
    let mut i: usize = 0;
    while i < count
        invariant
            i <= count,
            count == members.len(),
            *value == Value::Object(*members),
            members_from(path@, *group, definitions@, *value, 0) == members_from(
                path@,
                *group,
                definitions@,
                *value,
                i as int,
            ),
        decreases count - i,
    {
        let r = check_member(path, group, definitions, value, i);
        if r.is_err() {
            return r;
        }
        i += 1;
    }
    Ok(())
}

} // verus!
