//! Laws of validation, proved from the definitions in [`crate::rules`].

use vstd::prelude::*;
use vstd::seq_lib::seq_to_set_is_finite;
use vstd::set_lib::lemma_subset_equality;
use crate::binary64::Double;
use crate::error::{
    is_schema_error, is_value_error, schema_error, value_error, SchemaFaultModel, ValueFaultModel,
    Verdict,
};
use crate::model::{
    find_entry, find_entry_from, has_distinct_entry_keys, Entry, NumberValidation,
    ObjectValidation, Schema, SchemaObject, SubschemaValidation,
};
use crate::nearest::lemma_quantity_increases;
use crate::rules::{
    any_of_from, any_reaches_limit, combinators_verdict, contains_from, duplicate_from,
    each_item_from, failures_from, first_defect_from, first_duplicate, first_missing_from,
    hop_limit, member_verdict, members_from, node_verdict, number_verdict, object_verdict,
    one_reaches_limit, passes_from, pattern_hit, patterns_from, reaches_limit, schema_verdict,
    type_verdict,
};
use crate::text::item_path;
use crate::value::{
    find_member, find_member_from, has_distinct_keys, is_regular, json_equal, member_matches,
    members_model, JsonValue, Member, Number, Value,
};

verus! {

/// In a table without a key twice, every entry is the one that its key is
/// looked up to: the order of the entries plays no part in a lookup.
pub proof fn law_entry_found_under_its_key(entries: Seq<Entry>, index: int)
    requires
        has_distinct_entry_keys(entries),
        0 <= index < entries.len(),
    ensures
        find_entry(entries, entries[index].key@) == Some(index),
{
    lemma_entry_found_at(entries, index, 0);
}

proof fn lemma_entry_found_at(entries: Seq<Entry>, index: int, from: int)
    requires
        has_distinct_entry_keys(entries),
        0 <= from <= index < entries.len(),
    ensures
        find_entry_from(entries, entries[index].key@, from) == Some(index),
    decreases index - from,
{
    if from < index {
        lemma_entry_found_at(entries, index, from + 1);
    }
}

/// The schema `true` accepts every value.
pub proof fn law_accept_all(path: Seq<char>, definitions: Seq<Entry>, value: Value, hops: nat)
    ensures
        schema_verdict(path, Schema::Bool(true), definitions, value, hops) is Ok,
{
}

/// The schema `false` rejects every value, with a value error at the path
/// at which it was applied.
pub proof fn law_reject_all(path: Seq<char>, definitions: Seq<Entry>, value: Value, hops: nat)
    ensures
        schema_verdict(path, Schema::Bool(false), definitions, value, hops) == value_error(
            path,
            value@,
            ValueFaultModel::EmptySchema,
        ),
{
}

/// The limit on references plays no part where it is not reached: a
/// validation that never comes upon a reference without a hop left for it
/// yields the same with any larger number of hops.
pub proof fn law_limit_not_reached(path: Seq<char>, schema: Schema, definitions: Seq<Entry>, value: Value, hops: nat, more: nat)
    requires
        hops <= more,
        !reaches_limit(schema, definitions, value, hops),
    ensures
        schema_verdict(path, schema, definitions, value, more) == schema_verdict(
            path,
            schema,
            definitions,
            value,
            hops,
        ),
    decreases hops, schema, 0nat,
{
    match schema {
        Schema::Bool(_) => {},
        Schema::Object(node) => {
            match node.subschemas {
                Some(group) => {
                    lemma_limit_combinators(path, *group, definitions, value, hops, more);
                },
                None => {},
            }
            match node.reference {
                Some(reference) => match crate::rules::resolve(definitions, reference@) {
                    Some(k) => {
                        law_limit_not_reached(
                            reference@,
                            definitions[k].schema,
                            definitions,
                            value,
                            (hops - 1) as nat,
                            (more - 1) as nat,
                        );
                    },
                    None => {},
                },
                None => {},
            }
        },
    }
}

proof fn lemma_limit_combinators(path: Seq<char>, group: SubschemaValidation, definitions: Seq<Entry>, value: Value, hops: nat, more: nat)
    requires
        hops <= more,
        !any_reaches_limit(group.all_of, definitions, value, hops),
        !any_reaches_limit(group.any_of, definitions, value, hops),
        !any_reaches_limit(group.one_of, definitions, value, hops),
        !one_reaches_limit(group.not, definitions, value, hops),
        !one_reaches_limit(group.if_schema, definitions, value, hops),
        !one_reaches_limit(group.then_schema, definitions, value, hops),
        !one_reaches_limit(group.else_schema, definitions, value, hops),
    ensures
        combinators_verdict(path, group, definitions, value, more) == combinators_verdict(
            path,
            group,
            definitions,
            value,
            hops,
        ),
    decreases hops, group, 0nat,
{
    match group.all_of {
        Some(list) => lemma_limit_counts(path + ".allOf"@, list, definitions, value, hops, more, 0),
        None => {},
    }
    match group.any_of {
        Some(list) => lemma_limit_counts(path + ".anyOf"@, list, definitions, value, hops, more, 0),
        None => {},
    }
    match group.one_of {
        Some(list) => lemma_limit_counts(path + ".oneOf"@, list, definitions, value, hops, more, 0),
        None => {},
    }
    match group.not {
        Some(schema) => law_limit_not_reached(path + ".not"@, *schema, definitions, value, hops, more),
        None => {},
    }
    match group.if_schema {
        Some(schema) => law_limit_not_reached(path + ".if"@, *schema, definitions, value, hops, more),
        None => {},
    }
    match group.then_schema {
        Some(schema) => law_limit_not_reached(path + ".then"@, *schema, definitions, value, hops, more),
        None => {},
    }
    match group.else_schema {
        Some(schema) => law_limit_not_reached(path + ".else"@, *schema, definitions, value, hops, more),
        None => {},
    }
}

proof fn lemma_limit_counts(path: Seq<char>, list: Vec<Schema>, definitions: Seq<Entry>, value: Value, hops: nat, more: nat, from: int)
    requires
        hops <= more,
        0 <= from <= list.len(),
        forall|i: int| 0 <= i < list.len() ==> !reaches_limit(#[trigger] list[i], definitions, value, hops),
    ensures
        failures_from(path, list, definitions, value, more, from) == failures_from(
            path,
            list,
            definitions,
            value,
            hops,
            from,
        ),
        passes_from(path, list, definitions, value, more, from) == passes_from(
            path,
            list,
            definitions,
            value,
            hops,
            from,
        ),
        first_defect_from(path, list, definitions, value, more, from) == first_defect_from(
            path,
            list,
            definitions,
            value,
            hops,
            from,
        ),
        any_of_from(path, list, definitions, value, more, from) == any_of_from(
            path,
            list,
            definitions,
            value,
            hops,
            from,
        ),
    decreases hops, list, list.len() - from,
{
    if from < list.len() {
        law_limit_not_reached(path, list[from], definitions, value, hops, more);
        lemma_limit_counts(path, list, definitions, value, hops, more, from + 1);
    }
}

/// A node that holds both `const` and `enum` is a schema error for every
/// value that passes the node's `type` keyword, which is judged before them.
pub proof fn law_const_and_enum(path: Seq<char>, node: SchemaObject, definitions: Seq<Entry>, value: Value, hops: nat)
    requires
        node.const_value is Some,
        node.enum_values is Some,
        type_verdict(path, node.instance_type, value) is Ok,
    ensures
        node_verdict(path, node, definitions, value, hops) == schema_error(
            path,
            SchemaFaultModel::ConstAndEnum,
        ),
{
}

/// The verdict of schema `index` of a list that a combinator judges.
pub open spec fn listed_verdict(path: Seq<char>, list: Vec<Schema>, definitions: Seq<Entry>, value: Value, hops: nat, index: int) -> Verdict {
    schema_verdict(path, list[index], definitions, value, hops)
}

/// What `allOf` and `oneOf` give before they count: success exactly when no
/// schema of the list is malformed, and otherwise the schema error of the
/// first that is.
pub proof fn law_first_defect(path: Seq<char>, list: Vec<Schema>, definitions: Seq<Entry>, value: Value, hops: nat)
    ensures
        ({
            let defect = first_defect_from(path, list, definitions, value, hops, 0);
            &&& defect is Ok <==> forall|i: int|
                0 <= i < list.len() ==> !is_schema_error(
                    #[trigger] listed_verdict(path, list, definitions, value, hops, i),
                )
            &&& defect is Err ==> exists|i: int|
                {
                    &&& 0 <= i < list.len()
                    &&& defect == #[trigger] listed_verdict(path, list, definitions, value, hops, i)
                    &&& is_schema_error(defect)
                    &&& forall|k: int|
                        0 <= k < i ==> !is_schema_error(
                            #[trigger] listed_verdict(path, list, definitions, value, hops, k),
                        )
                }
        }),
{
    lemma_first_defect(path, list, definitions, value, hops, 0);
}

proof fn lemma_first_defect(path: Seq<char>, list: Vec<Schema>, definitions: Seq<Entry>, value: Value, hops: nat, from: int)
    requires
        0 <= from <= list.len(),
    ensures
        ({
            let defect = first_defect_from(path, list, definitions, value, hops, from);
            &&& defect is Ok <==> forall|i: int|
                from <= i < list.len() ==> !is_schema_error(
                    #[trigger] listed_verdict(path, list, definitions, value, hops, i),
                )
            &&& defect is Err ==> exists|i: int|
                {
                    &&& from <= i < list.len()
                    &&& defect == #[trigger] listed_verdict(path, list, definitions, value, hops, i)
                    &&& is_schema_error(defect)
                    &&& forall|k: int|
                        from <= k < i ==> !is_schema_error(
                            #[trigger] listed_verdict(path, list, definitions, value, hops, k),
                        )
                }
        }),
    decreases list.len() - from,
{
    if from < list.len() {
        lemma_first_defect(path, list, definitions, value, hops, from + 1);
        let defect = first_defect_from(path, list, definitions, value, hops, from);
        let here = listed_verdict(path, list, definitions, value, hops, from);
        if is_schema_error(here) {
            assert(defect == here);
        } else if defect is Err {
            let next = first_defect_from(path, list, definitions, value, hops, from + 1);
            assert(defect == next);
            let i = choose|i: int|
                {
                    &&& from + 1 <= i < list.len()
                    &&& next == #[trigger] listed_verdict(path, list, definitions, value, hops, i)
                    &&& is_schema_error(next)
                    &&& forall|k: int|
                        from + 1 <= k < i ==> !is_schema_error(
                            #[trigger] listed_verdict(path, list, definitions, value, hops, k),
                        )
                };
            assert(defect == listed_verdict(path, list, definitions, value, hops, i));
        }
    }
}

/// Where `oneOf` is the only combinator: a schema error among its schemas
/// is the verdict; where there is none and exactly `k` of its schemas accept
/// the value, it succeeds if and only if `k` is 1, and otherwise reports `k`
/// and the number of schemas.
pub proof fn law_one_of(path: Seq<char>, group: SubschemaValidation, definitions: Seq<Entry>, value: Value, hops: nat)
    requires
        group.one_of is Some,
        group.all_of is None,
        group.any_of is None,
        group.not is None,
        group.if_schema is None,
        group.then_schema is None,
        group.else_schema is None,
    ensures
        ({
            let list = group.one_of->Some_0;
            let here = path + ".oneOf"@;
            let whole = combinators_verdict(path, group, definitions, value, hops);
            let defect = first_defect_from(here, list, definitions, value, hops, 0);
            let k = passes_from(here, list, definitions, value, hops, 0);
            &&& k <= list.len()
            &&& defect is Err ==> whole == defect
            &&& defect is Ok ==> (whole is Ok <==> k == 1)
            &&& defect is Ok && k != 1 ==> whole == value_error(
                here,
                value@,
                ValueFaultModel::OneOf { passed: k, total: list.len() as nat },
            )
        }),
{
    lemma_passes_bound(path + ".oneOf"@, group.one_of->Some_0, definitions, value, hops, 0);
}

/// Where `allOf` is the only combinator: a schema error among its schemas
/// is the verdict; where there is none and `m` of its `n` schemas reject the
/// value, it succeeds if and only if `m` is 0, and otherwise reports `m` and
/// `n`.
pub proof fn law_all_of(path: Seq<char>, group: SubschemaValidation, definitions: Seq<Entry>, value: Value, hops: nat)
    requires
        group.all_of is Some,
        group.any_of is None,
        group.one_of is None,
        group.not is None,
        group.if_schema is None,
        group.then_schema is None,
        group.else_schema is None,
    ensures
        ({
            let list = group.all_of->Some_0;
            let here = path + ".allOf"@;
            let whole = combinators_verdict(path, group, definitions, value, hops);
            let defect = first_defect_from(here, list, definitions, value, hops, 0);
            let m = failures_from(here, list, definitions, value, hops, 0);
            &&& m + passes_from(here, list, definitions, value, hops, 0) == list.len()
            &&& defect is Err ==> whole == defect
            &&& defect is Ok ==> (whole is Ok <==> m == 0)
            &&& defect is Ok && m != 0 ==> whole == value_error(
                here,
                value@,
                ValueFaultModel::AllOf { failed: m, total: list.len() as nat },
            )
        }),
{
    lemma_counts_add_up(path + ".allOf"@, group.all_of->Some_0, definitions, value, hops, 0);
}

/// Where `not` is the only combinator: a value that its schema accepts is
/// rejected, a schema error of its schema is the verdict, and only a value
/// that its schema rejects passes.
pub proof fn law_not(path: Seq<char>, group: SubschemaValidation, definitions: Seq<Entry>, value: Value, hops: nat)
    requires
        group.not is Some,
        group.all_of is None,
        group.any_of is None,
        group.one_of is None,
        group.if_schema is None,
        group.then_schema is None,
        group.else_schema is None,
    ensures
        ({
            let here = path + ".not"@;
            let inner = schema_verdict(here, *group.not->Some_0, definitions, value, hops);
            let whole = combinators_verdict(path, group, definitions, value, hops);
            &&& inner is Ok ==> whole == value_error(here, value@, ValueFaultModel::Not)
            &&& is_schema_error(inner) ==> whole == inner
            &&& is_value_error(inner) ==> whole is Ok
        }),
{
}

/// A node whose only keyword is `not` over a node that holds both `const`
/// and `enum` is a schema error for every value: the malformed schema is
/// not taken for one that rejects the value.
pub proof fn law_malformed_under_not(path: Seq<char>, node: SchemaObject, definitions: Seq<Entry>, value: Value, hops: nat)
    requires
        node.instance_type is None,
        node.const_value is None,
        node.enum_values is None,
        node.subschemas is Some,
        node.subschemas->Some_0.all_of is None,
        node.subschemas->Some_0.any_of is None,
        node.subschemas->Some_0.one_of is None,
        node.subschemas->Some_0.not is Some,
        *node.subschemas->Some_0.not->Some_0 is Object,
        (*node.subschemas->Some_0.not->Some_0)->Object_0.instance_type is None,
        (*node.subschemas->Some_0.not->Some_0)->Object_0.const_value is Some,
        (*node.subschemas->Some_0.not->Some_0)->Object_0.enum_values is Some,
    ensures
        node_verdict(path, node, definitions, value, hops) == schema_error(
            path + ".not"@,
            SchemaFaultModel::ConstAndEnum,
        ),
{
    let group = *node.subschemas->Some_0;
    let under = *group.not->Some_0;
    let inner = under->Object_0;
    let here = path + ".not"@;
    law_const_and_enum(here, inner, definitions, value, hops);
    assert(under == Schema::Object(inner));
    assert(schema_verdict(here, under, definitions, value, hops) == schema_error(
        here,
        SchemaFaultModel::ConstAndEnum,
    ));
    assert(combinators_verdict(path, group, definitions, value, hops) == schema_error(
        here,
        SchemaFaultModel::ConstAndEnum,
    ));
}

/// A schema error of the schema of an `if` is the verdict of the
/// combinators that have passed the keywords before it: the condition is
/// not taken for one that does not hold.
pub proof fn law_malformed_condition(path: Seq<char>, group: SubschemaValidation, definitions: Seq<Entry>, value: Value, hops: nat)
    requires
        group.if_schema is Some,
        group.all_of is None,
        group.any_of is None,
        group.one_of is None,
        group.not is None,
        is_schema_error(schema_verdict(path + ".if"@, *group.if_schema->Some_0, definitions, value, hops)),
    ensures
        combinators_verdict(path, group, definitions, value, hops) == schema_verdict(
            path + ".if"@,
            *group.if_schema->Some_0,
            definitions,
            value,
            hops,
        ),
{
}

/// `allOf` counts no failure exactly when every schema of the list accepts
/// the value.
pub proof fn law_all_of_every(path: Seq<char>, list: Vec<Schema>, definitions: Seq<Entry>, value: Value, hops: nat)
    ensures
        failures_from(path, list, definitions, value, hops, 0) == 0 <==> forall|i: int|
            0 <= i < list.len() ==> schema_verdict(path, #[trigger] list[i], definitions, value, hops) is Ok,
{
    lemma_no_failures(path, list, definitions, value, hops, 0);
}

proof fn lemma_no_failures(path: Seq<char>, list: Vec<Schema>, definitions: Seq<Entry>, value: Value, hops: nat, from: int)
    requires
        0 <= from <= list.len(),
    ensures
        failures_from(path, list, definitions, value, hops, from) == 0 <==> forall|i: int|
            from <= i < list.len() ==> schema_verdict(path, #[trigger] list[i], definitions, value, hops) is Ok,
    decreases list.len() - from,
{
    if from < list.len() {
        lemma_no_failures(path, list, definitions, value, hops, from + 1);
        if failures_from(path, list, definitions, value, hops, from) != 0 {
            if schema_verdict(path, list[from], definitions, value, hops) is Ok {
                assert(failures_from(path, list, definitions, value, hops, from + 1) != 0);
            }
        }
    }
}

proof fn lemma_passes_bound(path: Seq<char>, list: Vec<Schema>, definitions: Seq<Entry>, value: Value, hops: nat, from: int)
    requires
        0 <= from <= list.len(),
    ensures
        passes_from(path, list, definitions, value, hops, from) <= list.len() - from,
    decreases list.len() - from,
{
    if from < list.len() {
        lemma_passes_bound(path, list, definitions, value, hops, from + 1);
    }
}

proof fn lemma_counts_add_up(path: Seq<char>, list: Vec<Schema>, definitions: Seq<Entry>, value: Value, hops: nat, from: int)
    requires
        0 <= from <= list.len(),
    ensures
        failures_from(path, list, definitions, value, hops, from) + passes_from(
            path,
            list,
            definitions,
            value,
            hops,
            from,
        ) == list.len() - from,
    decreases list.len() - from,
{
    if from < list.len() {
        lemma_counts_add_up(path, list, definitions, value, hops, from + 1);
    }
}

/// `maximum` is an exclusive bound: a number that equals the bound or lies
/// above it is rejected, and where no `multipleOf` stands before it, the
/// error names the number and the bound.
pub proof fn law_maximum(path: Seq<char>, group: NumberValidation, number: Number)
    requires
        group.maximum is Some,
        group.maximum->Some_0.at_most(number.to_double()),
    ensures
        number_verdict(path, group, Value::Number(number)) is Err,
        group.multiple_of is None ==> number_verdict(path, group, Value::Number(number))
            == value_error(
            path,
            Value::Number(number)@,
            ValueFaultModel::Maximum { value: number.to_double(), bound: group.maximum->Some_0 },
        ),
{
}

/// The order of finite numbers is the order of the quantities that they
/// stand for, taken with their signs.
pub proof fn law_order_by_quantity(a: Double, b: Double)
    requires
        a.is_finite(),
        b.is_finite(),
    ensures
        a.less_than(b) <==> signed_units(a) < signed_units(b),
        a.at_most(b) <==> signed_units(a) <= signed_units(b),
        a.same_number(b) <==> signed_units(a) == signed_units(b),
{
    let x = a.magnitude();
    let y = b.magnitude();
    if x <= y {
        lemma_quantity_increases(x, y);
    } else {
        lemma_quantity_increases(y, x);
    }
    lemma_quantity_increases(0, x);
    lemma_quantity_increases(0, y);
    crate::nearest::lemma_quantity_of(0, 0);
}

/// What a finite number stands for, in units of 2^-1074 and with its sign.
pub open spec fn signed_units(x: Double) -> int {
    if x.is_negative() {
        -(x.units() as int)
    } else {
        x.units() as int
    }
}

/// `anyOf` succeeds exactly when some schema of the list accepts the value
/// and every schema before it rejects the value; a schema error is its
/// verdict where it is met before any schema accepts; and where every schema
/// rejects the value, the verdict is the value error of `anyOf`.
pub proof fn law_any_of(path: Seq<char>, list: Vec<Schema>, definitions: Seq<Entry>, value: Value, hops: nat)
    ensures
        ({
            let whole = any_of_from(path, list, definitions, value, hops, 0);
            &&& !(whole is Err) || is_schema_error(whole) ==> exists|i: int|
                {
                    &&& 0 <= i < list.len()
                    &&& whole == #[trigger] listed_verdict(path, list, definitions, value, hops, i)
                    &&& forall|k: int|
                        0 <= k < i ==> is_value_error(
                            #[trigger] listed_verdict(path, list, definitions, value, hops, k),
                        )
                }
            &&& is_value_error(whole) <==> forall|i: int|
                0 <= i < list.len() ==> is_value_error(
                    #[trigger] listed_verdict(path, list, definitions, value, hops, i),
                )
            &&& is_value_error(whole) ==> whole == value_error(path, value@, ValueFaultModel::AnyOf)
        }),
{
    lemma_any_of(path, list, definitions, value, hops, 0);
}

proof fn lemma_any_of(path: Seq<char>, list: Vec<Schema>, definitions: Seq<Entry>, value: Value, hops: nat, from: int)
    requires
        0 <= from <= list.len(),
    ensures
        ({
            let rest = any_of_from(path, list, definitions, value, hops, from);
            &&& !(rest is Err) || is_schema_error(rest) ==> exists|i: int|
                {
                    &&& from <= i < list.len()
                    &&& rest == #[trigger] listed_verdict(path, list, definitions, value, hops, i)
                    &&& forall|k: int|
                        from <= k < i ==> is_value_error(
                            #[trigger] listed_verdict(path, list, definitions, value, hops, k),
                        )
                }
            &&& is_value_error(rest) <==> forall|i: int|
                from <= i < list.len() ==> is_value_error(
                    #[trigger] listed_verdict(path, list, definitions, value, hops, i),
                )
            &&& is_value_error(rest) ==> rest == value_error(path, value@, ValueFaultModel::AnyOf)
        }),
    decreases list.len() - from,
{
    if from < list.len() {
        lemma_any_of(path, list, definitions, value, hops, from + 1);
        let rest = any_of_from(path, list, definitions, value, hops, from);
        let here = listed_verdict(path, list, definitions, value, hops, from);
        if here is Ok || is_schema_error(here) {
            assert(rest == here);
        } else {
            let next = any_of_from(path, list, definitions, value, hops, from + 1);
            assert(rest == next);
            assert(is_value_error(here));
            if !(rest is Err) || is_schema_error(rest) {
                let i = choose|i: int|
                    {
                        &&& from + 1 <= i < list.len()
                        &&& next == #[trigger] listed_verdict(path, list, definitions, value, hops, i)
                        &&& forall|k: int|
                            from + 1 <= k < i ==> is_value_error(
                                #[trigger] listed_verdict(path, list, definitions, value, hops, k),
                            )
                    };
                assert(rest == listed_verdict(path, list, definitions, value, hops, i));
            }
        }
    }
}

/// `contains` succeeds exactly when the schema accepts some item and
/// rejects every item before it; a schema error is its verdict where it is
/// met before any item is accepted; and where the schema rejects every item,
/// the verdict is the value error of `contains`, which names the array.
pub proof fn law_contains(path: Seq<char>, schema: Schema, definitions: Seq<Entry>, items: Vec<Value>)
    ensures
        ({
            let whole = contains_from(path, schema, definitions, Value::Array(items), 0);
            &&& !(whole is Err) || is_schema_error(whole) ==> exists|i: int|
                {
                    &&& 0 <= i < items.len()
                    &&& whole == #[trigger] item_verdict(path, schema, definitions, items, i)
                    &&& forall|k: int|
                        0 <= k < i ==> is_value_error(
                            #[trigger] item_verdict(path, schema, definitions, items, k),
                        )
                }
            &&& !(whole is Err) ==> items.len() > 0
            &&& (forall|i: int|
                0 <= i < items.len() ==> is_value_error(
                    #[trigger] item_verdict(path, schema, definitions, items, i),
                )) ==> whole == value_error(
                path + ".contains"@,
                Value::Array(items)@,
                ValueFaultModel::NothingContained,
            )
        }),
{
    lemma_contains(path, schema, definitions, items, 0);
}

proof fn lemma_contains(path: Seq<char>, schema: Schema, definitions: Seq<Entry>, items: Vec<Value>, from: int)
    requires
        0 <= from <= items.len(),
    ensures
        ({
            let rest = contains_from(path, schema, definitions, Value::Array(items), from);
            &&& !(rest is Err) || is_schema_error(rest) ==> exists|i: int|
                {
                    &&& from <= i < items.len()
                    &&& rest == #[trigger] item_verdict(path, schema, definitions, items, i)
                    &&& forall|k: int|
                        from <= k < i ==> is_value_error(
                            #[trigger] item_verdict(path, schema, definitions, items, k),
                        )
                }
            &&& (forall|i: int|
                from <= i < items.len() ==> is_value_error(
                    #[trigger] item_verdict(path, schema, definitions, items, i),
                )) ==> rest == value_error(
                path + ".contains"@,
                Value::Array(items)@,
                ValueFaultModel::NothingContained,
            )
        }),
    decreases items.len() - from,
{
    if from < items.len() {
        lemma_contains(path, schema, definitions, items, from + 1);
        let rest = contains_from(path, schema, definitions, Value::Array(items), from);
        let here = item_verdict(path, schema, definitions, items, from);
        if here is Ok || is_schema_error(here) {
            assert(rest == here);
        } else {
            let next = contains_from(path, schema, definitions, Value::Array(items), from + 1);
            assert(rest == next);
            assert(is_value_error(here));
            if !(rest is Err) || is_schema_error(rest) {
                let i = choose|i: int|
                    {
                        &&& from + 1 <= i < items.len()
                        &&& next == #[trigger] item_verdict(path, schema, definitions, items, i)
                        &&& forall|k: int|
                            from + 1 <= k < i ==> is_value_error(
                                #[trigger] item_verdict(path, schema, definitions, items, k),
                            )
                    };
                assert(rest == item_verdict(path, schema, definitions, items, i));
            }
        }
    }
}

/// The verdict of one item of an array under a schema for all items.
pub open spec fn item_verdict(path: Seq<char>, schema: Schema, definitions: Seq<Entry>, items: Vec<Value>, index: int) -> Verdict {
    schema_verdict(
        item_path(path, index as nat),
        schema,
        definitions,
        items[index],
        hop_limit(definitions),
    )
}

/// A schema for all items accepts an array exactly when it accepts every
/// item; otherwise the verdict is that of the first item that it rejects.
pub proof fn law_each_item(path: Seq<char>, schema: Schema, definitions: Seq<Entry>, items: Vec<Value>)
    ensures
        ({
            let whole = each_item_from(path, schema, definitions, Value::Array(items), 0);
            &&& whole is Ok <==> forall|i: int|
                0 <= i < items.len() ==> item_verdict(path, schema, definitions, items, i) is Ok
            &&& whole is Err ==> exists|i: int|
                {
                    &&& 0 <= i < items.len()
                    &&& whole == #[trigger] item_verdict(path, schema, definitions, items, i)
                    &&& forall|k: int|
                        0 <= k < i ==> item_verdict(path, schema, definitions, items, k) is Ok
                }
        }),
{
    lemma_each_item(path, schema, definitions, items, 0);
}

proof fn lemma_each_item(path: Seq<char>, schema: Schema, definitions: Seq<Entry>, items: Vec<Value>, from: int)
    requires
        0 <= from <= items.len(),
    ensures
        ({
            let rest = each_item_from(path, schema, definitions, Value::Array(items), from);
            &&& rest is Ok <==> forall|i: int|
                from <= i < items.len() ==> item_verdict(path, schema, definitions, items, i) is Ok
            &&& rest is Err ==> exists|i: int|
                {
                    &&& from <= i < items.len()
                    &&& rest == #[trigger] item_verdict(path, schema, definitions, items, i)
                    &&& forall|k: int|
                        from <= k < i ==> item_verdict(path, schema, definitions, items, k) is Ok
                }
        }),
    decreases items.len() - from,
{
    if from < items.len() {
        lemma_each_item(path, schema, definitions, items, from + 1);
        let rest = each_item_from(path, schema, definitions, Value::Array(items), from);
        let here = item_verdict(path, schema, definitions, items, from);
        if here is Err {
            assert(rest == here);
        } else if rest is Err {
            let next = each_item_from(path, schema, definitions, Value::Array(items), from + 1);
            assert(rest == next);
            let i = choose|i: int|
                {
                    &&& from + 1 <= i < items.len()
                    &&& next == #[trigger] item_verdict(path, schema, definitions, items, i)
                    &&& forall|k: int|
                        from + 1 <= k < i ==> item_verdict(path, schema, definitions, items, k) is Ok
                };
            assert(rest == item_verdict(path, schema, definitions, items, i));
        }
    }
}

/// The required name that is reported missing is absent from the object,
/// and every required name before it is present. Where none is reported,
/// every required name is present.
pub proof fn law_first_missing(required: Seq<String>, members: Seq<(Seq<char>, JsonValue)>)
    ensures
        match first_missing_from(required, members, 0) {
            Some(k) => {
                &&& 0 <= k < required.len()
                &&& find_member(members, required[k]@) is None
                &&& forall|i: int| 0 <= i < k ==> find_member(members, (#[trigger] required[i])@) is Some
            },
            None => forall|i: int|
                0 <= i < required.len() ==> find_member(members, (#[trigger] required[i])@) is Some,
        },
{
    lemma_first_missing(required, members, 0);
}

proof fn lemma_first_missing(required: Seq<String>, members: Seq<(Seq<char>, JsonValue)>, from: int)
    requires
        0 <= from <= required.len(),
    ensures
        match first_missing_from(required, members, from) {
            Some(k) => {
                &&& from <= k < required.len()
                &&& find_member(members, required[k]@) is None
                &&& forall|i: int|
                    from <= i < k ==> find_member(members, (#[trigger] required[i])@) is Some
            },
            None => forall|i: int|
                from <= i < required.len() ==> find_member(members, (#[trigger] required[i])@) is Some,
        },
    decreases required.len() - from,
{
    if from < required.len() {
        lemma_first_missing(required, members, from + 1);
    }
}

/// `exclusiveMaximum`, alone in its group, rejects exactly the numbers above
/// the bound: a number that equals the bound is accepted.
pub proof fn law_exclusive_maximum(path: Seq<char>, group: NumberValidation, number: Number)
    requires
        group.multiple_of is None,
        group.maximum is None,
        group.minimum is None,
        group.exclusive_minimum is None,
        group.exclusive_maximum is Some,
    ensures
        number_verdict(path, group, Value::Number(number)) is Err
            <==> group.exclusive_maximum->Some_0.less_than(number.to_double()),
        group.exclusive_maximum->Some_0.same_number(number.to_double()) ==> number_verdict(
            path,
            group,
            Value::Number(number),
        ) is Ok,
{
}

/// No number is both at most and above another, and a number that is not a
/// NaN is at most itself: the two bounds differ on the bound alone.
pub proof fn law_bounds_differ_on_the_bound(bound: Double, x: Double)
    ensures
        bound.less_than(x) ==> bound.at_most(x),
        bound.at_most(x) && !bound.less_than(x) <==> bound.same_number(x),
{
}

/// An object schema without `properties` and `patternProperties` whose
/// `additionalProperties` is `false` rejects every object that has a member.
/// It accepts the object without members, unless `required` or
/// `minProperties` ask for some.
pub proof fn law_closed_object(path: Seq<char>, group: ObjectValidation, definitions: Seq<Entry>, members: Vec<Member>)
    requires
        group.properties@.len() == 0,
        group.pattern_properties@.len() == 0,
        group.additional_properties == Some(Box::new(Schema::Bool(false))),
    ensures
        members.len() > 0 ==> object_verdict(path, group, definitions, Value::Object(members)) is Err,
        members.len() == 0 && group.required@.len() == 0 && group.min_properties is None
            ==> object_verdict(path, group, definitions, Value::Object(members)) is Ok,
{
    let value = Value::Object(members);
    if members.len() > 0 {
        let key = members[0].key@;
        assert(!pattern_hit(group.pattern_properties@, key));
        assert(find_entry(group.properties@, key) is None);
        assert(patterns_from(path, group.pattern_properties, definitions, value, 0, 0) is Ok);
        assert(member_verdict(path, group, definitions, value, 0) is Err);
        assert(members_from(path, group, definitions, value, 0) is Err);
    } else {
        assert(members_from(path, group, definitions, value, 0) is Ok);
        if group.required@.len() == 0 {
            assert(first_missing_from(group.required@, members_model(members@), 0) is None);
        }
    }
}

/// A value that a JSON document can hold equals itself.
pub proof fn law_equal_to_itself(value: JsonValue)
    requires
        is_regular(value),
    ensures
        json_equal(value, value),
    decreases value,
{
    match value {
        JsonValue::Array(items) => {
            assert forall|i: int| 0 <= i < items.len() implies json_equal(
                #[trigger] items[i],
                items[i],
            ) by {
                law_equal_to_itself(items[i]);
            }
        },
        JsonValue::Object(members) => {
            assert forall|i: int| 0 <= i < members.len() implies member_matches(
                #[trigger] members[i],
                members,
            ) by {
                lemma_found_at(members, i, 0);
                law_equal_to_itself(members[i].1);
            }
        },
        _ => {},
    }
}

/// Equality of values that a JSON document can hold does not depend on the
/// side on which each of the two stands.
pub proof fn law_equality_symmetric(a: JsonValue, b: JsonValue)
    requires
        is_regular(a),
        is_regular(b),
        json_equal(a, b),
    ensures
        json_equal(b, a),
    decreases a,
{
    match (a, b) {
        (JsonValue::Array(x), JsonValue::Array(y)) => {
            assert forall|i: int| 0 <= i < y.len() implies json_equal(#[trigger] y[i], x[i]) by {
                law_equality_symmetric(x[i], y[i]);
            }
        },
        (JsonValue::Object(x), JsonValue::Object(y)) => {
            let kx = keys_of(x);
            let ky = keys_of(y);
            kx.unique_seq_to_set();
            ky.unique_seq_to_set();
            seq_to_set_is_finite(kx);
            seq_to_set_is_finite(ky);
            assert forall|k: Seq<char>| kx.to_set().contains(k) implies ky.to_set().contains(k) by {
                let i = choose|i: int| 0 <= i < kx.len() && kx[i] == k;
                assert(member_matches(x[i], y));
                lemma_found_is_member(y, k, 0);
                let j = find_member(y, k)->Some_0;
                assert(ky[j] == k);
            }
            lemma_subset_equality(kx.to_set(), ky.to_set());
            assert forall|j: int| 0 <= j < y.len() implies member_matches(#[trigger] y[j], x) by {
                assert(ky[j] == y[j].0);
                assert(ky.to_set().contains(y[j].0));
                assert(kx.to_set().contains(y[j].0));
                let i = choose|i: int| 0 <= i < kx.len() && kx[i] == y[j].0;
                assert(x[i].0 == y[j].0);
                lemma_found_at(x, i, 0);
                lemma_found_at(y, j, 0);
                assert(member_matches(x[i], y));
                law_equality_symmetric(x[i].1, y[j].1);
            }
        },
        _ => {},
    }
}

/// The keys of a run of members.
pub open spec fn keys_of(members: Seq<(Seq<char>, JsonValue)>) -> Seq<Seq<char>> {
    Seq::new(members.len(), |i: int| members[i].0)
}

proof fn lemma_found_is_member(members: Seq<(Seq<char>, JsonValue)>, key: Seq<char>, from: int)
    requires
        0 <= from,
    ensures
        match find_member_from(members, key, from) {
            Some(j) => from <= j < members.len() && members[j].0 == key,
            None => true,
        },
    decreases members.len() - from,
{
    if from < members.len() && members[from].0 != key {
        lemma_found_is_member(members, key, from + 1);
    }
}

proof fn lemma_found_at(members: Seq<(Seq<char>, JsonValue)>, index: int, from: int)
    requires
        has_distinct_keys(members),
        0 <= from <= index < members.len(),
    ensures
        find_member_from(members, members[index].0, from) == Some(index),
    decreases index - from,
{
    if from < index {
        lemma_found_at(members, index, from + 1);
    }
}

/// The pair that `uniqueItems` reports holds equal items at distinct
/// positions, and no pair before it, row by row, does. Where it reports
/// none, no two items at distinct positions are equal.
pub proof fn law_first_duplicate(items: Seq<JsonValue>)
    ensures
        match first_duplicate(items) {
            Some((i, j)) => {
                &&& 0 <= i < items.len()
                &&& 0 <= j < items.len()
                &&& i != j
                &&& json_equal(items[i], items[j])
                &&& forall|a: int, b: int|
                    0 <= a < items.len() && 0 <= b < items.len() && a != b && (a < i || (a == i && b
                        < j)) ==> !json_equal(items[a], items[b])
            },
            None => forall|a: int, b: int|
                0 <= a < items.len() && 0 <= b < items.len() && a != b ==> !json_equal(
                    items[a],
                    items[b],
                ),
        },
{
    lemma_duplicate_from(items, 0, 0);
}

/// Of items that a JSON document can hold, the pair that `uniqueItems`
/// reports names the earlier position first.
pub proof fn law_duplicate_ascending(items: Seq<JsonValue>)
    requires
        forall|i: int| 0 <= i < items.len() ==> is_regular(#[trigger] items[i]),
    ensures
        match first_duplicate(items) {
            Some((i, j)) => i < j,
            None => true,
        },
{
    law_first_duplicate(items);
    if let Some((i, j)) = first_duplicate(items) {
        if j < i {
            law_equality_symmetric(items[i], items[j]);
        }
    }
}

proof fn lemma_duplicate_from(items: Seq<JsonValue>, i: int, j: int)
    requires
        0 <= i,
        0 <= j <= items.len(),
    ensures
        match duplicate_from(items, i, j) {
            Some((x, y)) => {
                &&& i <= x < items.len()
                &&& 0 <= y < items.len()
                &&& x != y
                &&& json_equal(items[x], items[y])
                &&& forall|a: int, b: int|
                    0 <= a < items.len() && 0 <= b < items.len() && a != b && (i < a || (a == i && j
                        <= b)) && (a < x || (a == x && b < y)) ==> !json_equal(items[a], items[b])
            },
            None => forall|a: int, b: int|
                0 <= a < items.len() && 0 <= b < items.len() && a != b && (i < a || (a == i && j
                    <= b)) ==> !json_equal(items[a], items[b]),
        },
    decreases items.len() - i, items.len() - j,
{
    if i >= items.len() {
    } else if j >= items.len() {
        lemma_duplicate_from(items, i + 1, 0);
    } else if i != j && json_equal(items[i], items[j]) {
    } else {
        lemma_duplicate_from(items, i, j + 1);
    }
}

} // verus!
