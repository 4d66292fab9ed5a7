//! References among the definitions, and why the limit on them is sound:
//! it is reached only where the definitions refer to each other in a circle.

use vstd::prelude::*;
use vstd::set_lib::{lemma_int_range, lemma_len_subset, set_int_range};
use crate::laws::law_limit_not_reached;
use crate::model::{find_entry_from, Entry, Schema};
use crate::rules::{
    any_reaches_limit, hop_limit, one_reaches_limit, reaches_limit, resolve, schema_verdict,
};
use crate::value::Value;

verus! {

/// Whether `schema` holds, in itself or in its combinators, a reference to
/// entry `k` of the definitions: one that is followed on the very value that
/// `schema` is applied to.
pub open spec fn refers_to(schema: Schema, definitions: Seq<Entry>, k: int) -> bool
    decreases schema, 0nat,
{
    match schema {
        Schema::Bool(_) => false,
        Schema::Object(node) => {
            ||| match node.subschemas {
                Some(group) => {
                    ||| any_refers_to(group.all_of, definitions, k)
                    ||| any_refers_to(group.any_of, definitions, k)
                    ||| any_refers_to(group.one_of, definitions, k)
                    ||| one_refers_to(group.not, definitions, k)
                    ||| one_refers_to(group.if_schema, definitions, k)
                    ||| one_refers_to(group.then_schema, definitions, k)
                    ||| one_refers_to(group.else_schema, definitions, k)
                },
                None => false,
            }
            ||| match node.reference {
                Some(reference) => resolve(definitions, reference@) == Some(k),
                None => false,
            }
        },
    }
}

/// Whether one of the schemas of a list refers to entry `k`.
pub open spec fn any_refers_to(list: Option<Vec<Schema>>, definitions: Seq<Entry>, k: int) -> bool
    decreases list, 0nat,
{
    match list {
        Some(list) => exists|i: int|
            0 <= i < list.len() && refers_to(#[trigger] list[i], definitions, k),
        None => false,
    }
}

/// Whether a schema, where there is one, refers to entry `k`.
pub open spec fn one_refers_to(schema: Option<Box<Schema>>, definitions: Seq<Entry>, k: int) -> bool
    decreases schema, 0nat,
{
    match schema {
        Some(schema) => refers_to(*schema, definitions, k),
        None => false,
    }
}

/// Whether `chain` lists entries of the definitions of which each refers to
/// the next.
pub open spec fn is_chain(definitions: Seq<Entry>, chain: Seq<int>) -> bool {
    &&& forall|i: int| 0 <= i < chain.len() ==> 0 <= #[trigger] chain[i] < definitions.len()
    &&& forall|i: int|
        #![trigger chain[i]]
        0 <= i < chain.len() - 1 ==> refers_to(definitions[chain[i]].schema, definitions, chain[i + 1])
}

/// Whether some entry of the definitions refers, directly or through
/// others, to itself.
pub open spec fn has_cycle(definitions: Seq<Entry>) -> bool {
    exists|chain: Seq<int>|
        #![trigger is_chain(definitions, chain)]
        is_chain(definitions, chain) && chain.len() >= 2 && chain.first() == chain.last()
}

proof fn lemma_found_in_range(entries: Seq<Entry>, key: Seq<char>, from: int)
    requires
        0 <= from,
    ensures
        match find_entry_from(entries, key, from) {
            Some(k) => from <= k < entries.len(),
            None => true,
        },
    decreases entries.len() - from,
{
    if from < entries.len() && entries[from].key@ != key {
        lemma_found_in_range(entries, key, from + 1);
    }
}

proof fn lemma_resolved_in_range(definitions: Seq<Entry>, reference: Seq<char>)
    ensures
        match resolve(definitions, reference) {
            Some(k) => 0 <= k < definitions.len(),
            None => true,
        },
{
    match crate::text::reference_name(reference) {
        Some(name) => lemma_found_in_range(definitions, name, 0),
        None => {},
    }
}

proof fn lemma_chain_through_list(list: Option<Vec<Schema>>, definitions: Seq<Entry>, value: Value, hops: nat) -> (chain: Seq<int>)
    requires
        any_reaches_limit(list, definitions, value, hops),
    ensures
        is_chain(definitions, chain),
        chain.len() == hops + 1,
        any_refers_to(list, definitions, chain[0]),
    decreases hops, list, 0nat,
{
    let items = list->Some_0;
    let i = choose|i: int|
        0 <= i < items.len() && reaches_limit(#[trigger] items[i], definitions, value, hops);
    lemma_chain(items[i], definitions, value, hops)
}

proof fn lemma_chain_through_one(schema: Option<Box<Schema>>, definitions: Seq<Entry>, value: Value, hops: nat) -> (chain: Seq<int>)
    requires
        one_reaches_limit(schema, definitions, value, hops),
    ensures
        is_chain(definitions, chain),
        chain.len() == hops + 1,
        one_refers_to(schema, definitions, chain[0]),
    decreases hops, schema, 0nat,
{
    lemma_chain(*schema->Some_0, definitions, value, hops)
}

/// Where the limit is reached with `hops` references left, a chain of
/// `hops + 1` entries leads there.
proof fn lemma_chain(schema: Schema, definitions: Seq<Entry>, value: Value, hops: nat) -> (chain: Seq<int>)
    requires
        reaches_limit(schema, definitions, value, hops),
    ensures
        is_chain(definitions, chain),
        chain.len() == hops + 1,
        refers_to(schema, definitions, chain[0]),
    decreases hops, schema, 1nat,
{
    let node = schema->Object_0;
    if node.subschemas is Some && any_reaches_limit(
        node.subschemas->Some_0.all_of,
        definitions,
        value,
        hops,
    ) {
        lemma_chain_through_list(node.subschemas->Some_0.all_of, definitions, value, hops)
    } else if node.subschemas is Some && any_reaches_limit(
        node.subschemas->Some_0.any_of,
        definitions,
        value,
        hops,
    ) {
        lemma_chain_through_list(node.subschemas->Some_0.any_of, definitions, value, hops)
    } else if node.subschemas is Some && any_reaches_limit(
        node.subschemas->Some_0.one_of,
        definitions,
        value,
        hops,
    ) {
        lemma_chain_through_list(node.subschemas->Some_0.one_of, definitions, value, hops)
    } else if node.subschemas is Some && one_reaches_limit(
        node.subschemas->Some_0.not,
        definitions,
        value,
        hops,
    ) {
        lemma_chain_through_one(node.subschemas->Some_0.not, definitions, value, hops)
    } else if node.subschemas is Some && one_reaches_limit(
        node.subschemas->Some_0.if_schema,
        definitions,
        value,
        hops,
    ) {
        lemma_chain_through_one(node.subschemas->Some_0.if_schema, definitions, value, hops)
    } else if node.subschemas is Some && one_reaches_limit(
        node.subschemas->Some_0.then_schema,
        definitions,
        value,
        hops,
    ) {
        lemma_chain_through_one(node.subschemas->Some_0.then_schema, definitions, value, hops)
    } else if node.subschemas is Some && one_reaches_limit(
        node.subschemas->Some_0.else_schema,
        definitions,
        value,
        hops,
    ) {
        lemma_chain_through_one(node.subschemas->Some_0.else_schema, definitions, value, hops)
    } else {
        let reference = node.reference->Some_0;
        lemma_resolved_in_range(definitions, reference@);
        let k = resolve(definitions, reference@)->Some_0;
        if hops == 0 {
            seq![k]
        } else {
            let rest = lemma_chain(definitions[k].schema, definitions, value, (hops - 1) as nat);
            let chain = seq![k] + rest;
            assert forall|i: int| #![trigger chain[i]] 0 <= i < chain.len() - 1 implies refers_to(
                definitions[chain[i]].schema,
                definitions,
                chain[i + 1],
            ) by {
                if i > 0 {
                    assert(chain[i] == rest[i - 1]);
                    assert(chain[i + 1] == rest[i]);
                }
            }
            chain
        }
    }
}

/// More entries than there are numbers to name them name one twice.
proof fn lemma_repeats(chain: Seq<int>, n: int) -> (pair: (int, int))
    requires
        0 <= n < chain.len(),
        forall|i: int| 0 <= i < chain.len() ==> 0 <= #[trigger] chain[i] < n,
    ensures
        0 <= pair.0 < pair.1 < chain.len(),
        chain[pair.0] == chain[pair.1],
{
    if chain.no_duplicates() {
        chain.unique_seq_to_set();
        lemma_int_range(0, n);
        assert(chain.to_set().subset_of(set_int_range(0, n)));
        lemma_len_subset(chain.to_set(), set_int_range(0, n));
        (0, 0)
    } else {
        let (i, j) = choose|i: int, j: int|
            0 <= i < chain.len() && 0 <= j < chain.len() && i != j && chain[i] == chain[j];
        if i < j {
            (i, j)
        } else {
            (j, i)
        }
    }
}

/// The limit on references is reached only where the definitions refer to
/// each other in a circle.
pub proof fn law_limit_means_cycle(schema: Schema, definitions: Seq<Entry>, value: Value)
    requires
        reaches_limit(schema, definitions, value, hop_limit(definitions)),
    ensures
        has_cycle(definitions),
{
    let chain = lemma_chain(schema, definitions, value, hop_limit(definitions));
    let (i, j) = lemma_repeats(chain, definitions.len() as int);
    let circle = chain.subrange(i, j + 1);
    assert forall|m: int| #![trigger circle[m]] 0 <= m < circle.len() - 1 implies refers_to(
        definitions[circle[m]].schema,
        definitions,
        circle[m + 1],
    ) by {
        assert(circle[m] == chain[i + m]);
        assert(circle[m + 1] == chain[i + m + 1]);
    }
    assert(is_chain(definitions, circle));
}

/// With definitions that do not refer to each other in a circle, the limit
/// on references plays no part: any larger limit yields the same.
pub proof fn law_acyclic_definitions(path: Seq<char>, schema: Schema, definitions: Seq<Entry>, value: Value, more: nat)
    requires
        !has_cycle(definitions),
        hop_limit(definitions) <= more,
    ensures
        schema_verdict(path, schema, definitions, value, more) == schema_verdict(
            path,
            schema,
            definitions,
            value,
            hop_limit(definitions),
        ),
{
    if reaches_limit(schema, definitions, value, hop_limit(definitions)) {
        law_limit_means_cycle(schema, definitions, value);
    }
    law_limit_not_reached(path, schema, definitions, value, hop_limit(definitions), more);
}

} // verus!
