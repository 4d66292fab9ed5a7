//! The value model: a tagged union over null, booleans, numbers, strings,
//! arrays and string-keyed objects.

use vstd::prelude::*;
use crate::binary64::Double;

verus! {

/// A number as a JSON document holds it: a non-negative integer, a negative
/// integer, or a binary64 number.
#[derive(Clone, Copy, Debug, PartialEq, Eq, Structural)]
pub enum Number {
    PosInt(u64),
    NegInt(i64),
    Float(Double),
}

impl Number {
    /// Equality of numbers: two numbers of one encoding that hold the same
    /// quantity. Numbers of different encodings are never equal.
    pub open spec fn same_number(self, other: Number) -> bool {
        match (self, other) {
            (Number::PosInt(a), Number::PosInt(b)) => a == b,
            (Number::NegInt(a), Number::NegInt(b)) => a == b,
            (Number::Float(a), Number::Float(b)) => a.same_number(b),
            _ => false,
        }
    }

    /// Whether the number is encoded as an integer, signed or unsigned.
    pub open spec fn is_integer(self) -> bool {
        !(self is Float)
    }

    /// The binary64 number that the number is compared as: the one nearest
    /// to an integer, and a binary64 number itself.
    pub open spec fn to_double(self) -> Double {
        match self {
            Number::PosInt(n) => Double::of_u64(n),
            Number::NegInt(n) => Double::of_i64(n),
            Number::Float(d) => d,
        }
    }

    pub fn as_double(&self) -> (r: Double)
        ensures
            r == self.to_double(),
    {
        match self {
            Number::PosInt(n) => Double::from_u64(*n),
            Number::NegInt(n) => Double::from_i64(*n),
            Number::Float(d) => *d,
        }
    }

    pub fn same(&self, other: &Number) -> (r: bool)
        ensures
            r == self.same_number(*other),
    {
        match (self, other) {
            (Number::PosInt(a), Number::PosInt(b)) => *a == *b,
            (Number::NegInt(a), Number::NegInt(b)) => *a == *b,
            (Number::Float(a), Number::Float(b)) => a.same(b),
            _ => false,
        }
    }

    pub fn integer(&self) -> (r: bool)
        ensures
            r == self.is_integer(),
    {
        match self {
            Number::Float(_) => false,
            _ => true,
        }
    }
}

/// One entry of an object: a key and the value stored under it.
#[derive(Debug)]
pub struct Member {
    pub key: String,
    pub value: Value,
}

/// A JSON-like value. The members of an object stand in the order in which
/// the mapping is walked. Where a key stands twice, it is looked up by its
/// first member.
#[derive(Debug)]
pub enum Value {
    Null,
    Bool(bool),
    Number(Number),
    String(String),
    Array(Vec<Value>),
    Object(Vec<Member>),
}

/// The mathematical content of a [`Value`].
pub enum JsonValue {
    Null,
    Bool(bool),
    Number(Number),
    String(Seq<char>),
    Array(Seq<JsonValue>),
    Object(Seq<(Seq<char>, JsonValue)>),
}

/// The first member of `members` at or after index `from` that is stored
/// under `key`, if there is one.
pub open spec fn find_member_from(members: Seq<(Seq<char>, JsonValue)>, key: Seq<char>, from: int) -> Option<int>
    decreases members.len() - from,
{
    if from < 0 || from >= members.len() {
        None
    } else if members[from].0 == key {
        Some(from)
    } else {
        find_member_from(members, key, from + 1)
    }
}

/// The first member of `members` stored under `key`, if there is one.
pub open spec fn find_member(members: Seq<(Seq<char>, JsonValue)>, key: Seq<char>) -> Option<int> {
    find_member_from(members, key, 0)
}

/// Structural equality of values: equal scalars, arrays that are equal item
/// by item, and objects with as many members of which each member of the
/// first is found under its key in the second with an equal value. The order
/// of an object's members does not count.
pub open spec fn json_equal(a: JsonValue, b: JsonValue) -> bool
    decreases a,
{
    match (a, b) {
        (JsonValue::Null, JsonValue::Null) => true,
        (JsonValue::Bool(x), JsonValue::Bool(y)) => x == y,
        (JsonValue::Number(x), JsonValue::Number(y)) => x.same_number(y),
        (JsonValue::String(x), JsonValue::String(y)) => x == y,
        (JsonValue::Array(x), JsonValue::Array(y)) => {
            &&& x.len() == y.len()
            &&& forall|i: int| 0 <= i < x.len() ==> json_equal(#[trigger] x[i], y[i])
        },
        (JsonValue::Object(x), JsonValue::Object(y)) => {
            &&& x.len() == y.len()
            &&& forall|i: int| 0 <= i < x.len() ==> member_matches(#[trigger] x[i], y)
        },
        _ => false,
    }
}

/// Whether no two of `members` share a key.
pub open spec fn has_distinct_keys(members: Seq<(Seq<char>, JsonValue)>) -> bool {
    forall|i: int, j: int|
        0 <= i < members.len() && 0 <= j < members.len() && i != j ==> members[i].0 != members[j].0
}

/// Whether a value is one that a JSON document can hold: no number is a
/// NaN, and no object has two members under one key.
pub open spec fn is_regular(value: JsonValue) -> bool
    decreases value,
{
    match value {
        JsonValue::Number(Number::Float(d)) => !d.is_nan(),
        JsonValue::Array(items) => forall|i: int|
            0 <= i < items.len() ==> is_regular(#[trigger] items[i]),
        JsonValue::Object(members) => {
            &&& has_distinct_keys(members)
            &&& forall|i: int| 0 <= i < members.len() ==> is_regular((#[trigger] members[i]).1)
        },
        _ => true,
    }
}

/// Whether `member` is found under its key in `others` with an equal value.
pub open spec fn member_matches(member: (Seq<char>, JsonValue), others: Seq<(Seq<char>, JsonValue)>) -> bool
    decreases member,
{
    match find_member(others, member.0) {
        Some(j) => json_equal(member.1, others[j].1),
        None => false,
    }
}

impl View for Member {
    type V = (Seq<char>, JsonValue);

    open spec fn view(&self) -> (Seq<char>, JsonValue) {
        (self.key@, self.value@)
    }
}

/// The mathematical content of `value`.
pub open spec fn model_of(value: Value) -> JsonValue
    decreases value,
{
    match value {
        Value::Null => JsonValue::Null,
        Value::Bool(b) => JsonValue::Bool(b),
        Value::Number(n) => JsonValue::Number(n),
        Value::String(s) => JsonValue::String(s@),
        Value::Array(items) => JsonValue::Array(
            Seq::new(
                items.len() as nat,
                |i: int|
                    if 0 <= i < items.len() {
                        model_of(items[i])
                    } else {
                        JsonValue::Null
                    },
            ),
        ),
        Value::Object(members) => JsonValue::Object(
            Seq::new(
                members.len() as nat,
                |i: int|
                    if 0 <= i < members.len() {
                        (members[i].key@, model_of(members[i].value))
                    } else {
                        (Seq::empty(), JsonValue::Null)
                    },
            ),
        ),
    }
}

impl View for Value {
    type V = JsonValue;

    open spec fn view(&self) -> JsonValue {
        model_of(*self)
    }
}

/// The contents of a run of values.
pub open spec fn items_model(items: Seq<Value>) -> Seq<JsonValue> {
    Seq::new(items.len(), |i: int| items[i]@)
}

/// The contents of a run of members.
pub open spec fn members_model(members: Seq<Member>) -> Seq<(Seq<char>, JsonValue)> {
    Seq::new(members.len(), |i: int| members[i]@)
}

/// 1 for a value that holds other values, 0 for a scalar.
pub open spec fn weight(value: Value) -> nat {
    match value {
        Value::Array(_) => 1,
        Value::Object(_) => 1,
        _ => 0,
    }
}

pub proof fn lemma_array_model(items: Vec<Value>)
    ensures
        Value::Array(items)@ == JsonValue::Array(items_model(items@)),
{
    assert(Value::Array(items)@->Array_0 =~= items_model(items@));
}

pub proof fn lemma_object_model(members: Vec<Member>)
    ensures
        Value::Object(members)@ == JsonValue::Object(members_model(members@)),
{
    assert(Value::Object(members)@->Object_0 =~= members_model(members@));
}

/// The index of the first member stored under `key`.
pub fn find_key(members: &Vec<Member>, key: &String) -> (r: Option<usize>)
    ensures
        match r {
            Some(j) => find_member(members_model(members@), key@) == Some(j as int) && j < members.len(),
            None => find_member(members_model(members@), key@) is None,
        },
{
    let ghost model = members_model(members@);
    let mut i: usize = 0;
    while i < members.len()
        invariant
            i <= members.len(),
            model == members_model(members@),
            find_member(model, key@) == find_member_from(model, key@, i as int),
        decreases members.len() - i,
    {
        if members[i].key == *key {
            return Some(i);
        }
        i += 1;
    }
    None
}

impl Clone for Member {
    fn clone(&self) -> (r: Member)
        ensures
            r@ == self@,
            r.key == self.key,
        decreases self,
    {
        Member { key: self.key.clone(), value: self.value.clone() }
    }
}

impl Clone for Value {
    fn clone(&self) -> (r: Value)
        ensures
            r@ == self@,
        decreases self,
    {
        match self {
            Value::Null => Value::Null,
            Value::Bool(b) => Value::Bool(*b),
            Value::Number(n) => Value::Number(*n),
            Value::String(s) => Value::String(s.clone()),
            Value::Array(items) => {
                let mut copy: Vec<Value> = Vec::new();
                let mut i: usize = 0;
                while i < items.len()
                    invariant
                        i <= items.len(),
                        *self == Value::Array(*items),
                        copy.len() == i,
                        forall|k: int| 0 <= k < i ==> copy[k]@ == items[k]@,
                    decreases items.len() - i,
                {
                    assert(decreases_to!(items => items[i as int]));
                    assert(self->Array_0 == *items);
                    copy.push(items[i].clone());
                    i += 1;
                }
                proof {
                    lemma_array_model(copy);
                    lemma_array_model(*items);
                    assert(items_model(copy@) =~= items_model(items@));
                }
                Value::Array(copy)
            },
            Value::Object(members) => {
                let mut copy: Vec<Member> = Vec::new();
                let mut i: usize = 0;
                while i < members.len()
                    invariant
                        i <= members.len(),
                        *self == Value::Object(*members),
                        copy.len() == i,
                        forall|k: int| 0 <= k < i ==> copy[k]@ == members[k]@,
                    decreases members.len() - i,
                {
                    assert(self->Object_0 == *members);
                    copy.push(members[i].clone());
                    i += 1;
                }
                proof {
                    lemma_object_model(copy);
                    lemma_object_model(*members);
                    assert(members_model(copy@) =~= members_model(members@));
                }
                Value::Object(copy)
            },
        }
    }
}

impl Value {
    /// Whether two values are structurally equal.
    pub fn equals(&self, other: &Value) -> (r: bool)
        ensures
            r == json_equal(self@, other@),
        decreases self,
    {
        match (self, other) {
            (Value::Null, Value::Null) => true,
            (Value::Bool(a), Value::Bool(b)) => *a == *b,
            (Value::Number(a), Value::Number(b)) => a.same(b),
            (Value::String(a), Value::String(b)) => *a == *b,
            (Value::Array(a), Value::Array(b)) => {
                proof {
                    lemma_array_model(*a);
                    lemma_array_model(*b);
                }
                if a.len() != b.len() {
                    return false;
                }
                let mut i: usize = 0;
                while i < a.len()
                    invariant
                        i <= a.len(),
                        a.len() == b.len(),
                        *self == Value::Array(*a),
                        self@ == JsonValue::Array(items_model(a@)),
                        other@ == JsonValue::Array(items_model(b@)),
                        forall|k: int| 0 <= k < i ==> json_equal(#[trigger] items_model(a@)[k], items_model(b@)[k]),
                    decreases a.len() - i,
                {
                    assert(self->Array_0 == *a);
                    if !a[i].equals(&b[i]) {
                        assert(!json_equal(items_model(a@)[i as int], items_model(b@)[i as int]));
                        return false;
                    }
                    i += 1;
                }
                true
            },
            (Value::Object(a), Value::Object(b)) => {
                proof {
                    lemma_object_model(*a);
                    lemma_object_model(*b);
                }
                if a.len() != b.len() {
                    return false;
                }
                let mut i: usize = 0;
                while i < a.len()
                    invariant
                        i <= a.len(),
                        a.len() == b.len(),
                        *self == Value::Object(*a),
                        self@ == JsonValue::Object(members_model(a@)),
                        other@ == JsonValue::Object(members_model(b@)),
                        forall|k: int| 0 <= k < i ==> member_matches(#[trigger] members_model(a@)[k], members_model(b@)),
                    decreases a.len() - i,
                {
                    assert(self->Object_0 == *a);
                    let found = find_key(b, &a[i].key);
                    let matched = match found {
                        Some(j) => a[i].value.equals(&b[j].value),
                        None => false,
                    };
                    if !matched {
                        assert(!member_matches(members_model(a@)[i as int], members_model(b@)));
                        return false;
                    }
                    i += 1;
                }
                true
            },
            _ => false,
        }
    }
}

} // verus!
