//! What a validation reports when it does not succeed.

use vstd::prelude::*;
use crate::binary64::Double;
use crate::model::InstanceType;
use crate::value::{JsonValue, Value};

verus! {

/// Why a schema is malformed.
#[derive(Debug)]
pub enum SchemaFault {
    /// Both `const` and `enum` are present.
    ConstAndEnum,
    /// An `if` without `then` and without `else`.
    IfWithoutBranch,
    /// A `then` without an `if`.
    ThenWithoutIf,
    /// An `else` without an `if`.
    ElseWithoutIf,
    /// A `then` and an `else` without an `if`.
    ThenAndElseWithoutIf,
    /// The regular expression engine refuses `pattern`.
    InvalidPattern { pattern: String },
    /// `reference` has no `/`, or names no entry of the definitions table.
    InvalidReference { reference: String },
    /// `reference` was met after as many references as the definitions table
    /// has entries were followed on one and the same value.
    CyclicReference { reference: String },
}

/// Why a value does not conform.
#[derive(Debug)]
pub enum ValueFault {
    /// The schema is the one that accepts nothing.
    EmptySchema,
    /// The value is not of the type asked for.
    WrongType { expected: InstanceType },
    /// The value is of none of the types asked for.
    WrongTypes { allowed: Vec<InstanceType> },
    /// The value differs from the `const` value.
    ConstMismatch,
    /// The value equals none of the `enum` values.
    NotEnumerated,
    /// `failed` of the `total` schemas of an `allOf` reject the value.
    AllOf { failed: usize, total: usize },
    /// No schema of an `anyOf` accepts the value.
    AnyOf,
    /// `passed` of the `total` schemas of a `oneOf` accept the value, not 1.
    OneOf { passed: usize, total: usize },
    /// The schema of a `not` accepts the value.
    Not,
    /// A number was expected.
    NotANumber,
    /// `value` is not a multiple of `divisor`.
    NotMultipleOf { value: Double, divisor: Double },
    /// `value >= bound`, the `maximum`.
    Maximum { value: Double, bound: Double },
    /// `value > bound`, the `exclusiveMaximum`.
    ExclusiveMaximum { value: Double, bound: Double },
    /// `value <= bound`, the `minimum`.
    Minimum { value: Double, bound: Double },
    /// `value < bound`, the `exclusiveMinimum`.
    ExclusiveMinimum { value: Double, bound: Double },
    /// A string was expected.
    NotAString,
    /// The string is longer than `limit` bytes.
    TooLong { limit: u32 },
    /// The string is shorter than `limit` bytes.
    TooShort { limit: u32 },
    /// The string does not match `pattern`.
    PatternMismatch { pattern: String },
    /// An array was expected.
    NotAnArray,
    /// The array has `count` items, more than `limit`.
    TooManyItems { count: usize, limit: u32 },
    /// The array has `count` items, fewer than `limit`.
    TooFewItems { count: usize, limit: u32 },
    /// The items at `first` and `second` are equal.
    DuplicateItems { first: usize, second: usize },
    /// No item passes the `contains` schema.
    NothingContained,
    /// An object was expected.
    NotAnObject,
    /// The object has `count` members, more than `limit`.
    TooManyProperties { count: usize, limit: u32 },
    /// The object has `count` members, fewer than `limit`.
    TooFewProperties { count: usize, limit: u32 },
    /// The required property `name` is absent.
    MissingProperty { name: String },
}

/// The outcome of a validation that does not succeed.
#[derive(Debug)]
#[allow(inconsistent_fields)]
pub enum Error {
    /// The schema itself is malformed at `path`.
    InvalidSchema { path: String, details: SchemaFault },
    /// `value` does not conform to the schema at `path`.
    InvalidValue { path: String, value: Value, details: ValueFault },
}

/// The content of a [`SchemaFault`].
pub enum SchemaFaultModel {
    ConstAndEnum,
    IfWithoutBranch,
    ThenWithoutIf,
    ElseWithoutIf,
    ThenAndElseWithoutIf,
    InvalidPattern { pattern: Seq<char> },
    InvalidReference { reference: Seq<char> },
    CyclicReference { reference: Seq<char> },
}

/// The content of a [`ValueFault`].
pub enum ValueFaultModel {
    EmptySchema,
    WrongType { expected: InstanceType },
    WrongTypes { allowed: Seq<InstanceType> },
    ConstMismatch,
    NotEnumerated,
    AllOf { failed: nat, total: nat },
    AnyOf,
    OneOf { passed: nat, total: nat },
    Not,
    NotANumber,
    NotMultipleOf { value: Double, divisor: Double },
    Maximum { value: Double, bound: Double },
    ExclusiveMaximum { value: Double, bound: Double },
    Minimum { value: Double, bound: Double },
    ExclusiveMinimum { value: Double, bound: Double },
    NotAString,
    TooLong { limit: nat },
    TooShort { limit: nat },
    PatternMismatch { pattern: Seq<char> },
    NotAnArray,
    TooManyItems { count: nat, limit: nat },
    TooFewItems { count: nat, limit: nat },
    DuplicateItems { first: nat, second: nat },
    NothingContained,
    NotAnObject,
    TooManyProperties { count: nat, limit: nat },
    TooFewProperties { count: nat, limit: nat },
    MissingProperty { name: Seq<char> },
}

/// The content of an [`Error`].
#[allow(inconsistent_fields)]
pub enum ErrorModel {
    InvalidSchema { path: Seq<char>, details: SchemaFaultModel },
    InvalidValue { path: Seq<char>, value: JsonValue, details: ValueFaultModel },
}

/// What a validation yields: success, or the error that ended it.
pub type Verdict = Result<(), ErrorModel>;

impl View for SchemaFault {
    type V = SchemaFaultModel;

    open spec fn view(&self) -> SchemaFaultModel {
        match self {
            SchemaFault::ConstAndEnum => SchemaFaultModel::ConstAndEnum,
            SchemaFault::IfWithoutBranch => SchemaFaultModel::IfWithoutBranch,
            SchemaFault::ThenWithoutIf => SchemaFaultModel::ThenWithoutIf,
            SchemaFault::ElseWithoutIf => SchemaFaultModel::ElseWithoutIf,
            SchemaFault::ThenAndElseWithoutIf => SchemaFaultModel::ThenAndElseWithoutIf,
            SchemaFault::InvalidPattern { pattern } => SchemaFaultModel::InvalidPattern {
                pattern: pattern@,
            },
            SchemaFault::InvalidReference { reference } => SchemaFaultModel::InvalidReference {
                reference: reference@,
            },
            SchemaFault::CyclicReference { reference } => SchemaFaultModel::CyclicReference {
                reference: reference@,
            },
        }
    }
}

impl View for ValueFault {
    type V = ValueFaultModel;

    open spec fn view(&self) -> ValueFaultModel {
        match self {
            ValueFault::EmptySchema => ValueFaultModel::EmptySchema,
            ValueFault::WrongType { expected } => ValueFaultModel::WrongType { expected: *expected },
            ValueFault::WrongTypes { allowed } => ValueFaultModel::WrongTypes { allowed: allowed@ },
            ValueFault::ConstMismatch => ValueFaultModel::ConstMismatch,
            ValueFault::NotEnumerated => ValueFaultModel::NotEnumerated,
            ValueFault::AllOf { failed, total } => ValueFaultModel::AllOf {
                failed: *failed as nat,
                total: *total as nat,
            },
            ValueFault::AnyOf => ValueFaultModel::AnyOf,
            ValueFault::OneOf { passed, total } => ValueFaultModel::OneOf {
                passed: *passed as nat,
                total: *total as nat,
            },
            ValueFault::Not => ValueFaultModel::Not,
            ValueFault::NotANumber => ValueFaultModel::NotANumber,
            ValueFault::NotMultipleOf { value, divisor } => ValueFaultModel::NotMultipleOf {
                value: *value,
                divisor: *divisor,
            },
            ValueFault::Maximum { value, bound } => ValueFaultModel::Maximum {
                value: *value,
                bound: *bound,
            },
            ValueFault::ExclusiveMaximum { value, bound } => ValueFaultModel::ExclusiveMaximum {
                value: *value,
                bound: *bound,
            },
            ValueFault::Minimum { value, bound } => ValueFaultModel::Minimum {
                value: *value,
                bound: *bound,
            },
            ValueFault::ExclusiveMinimum { value, bound } => ValueFaultModel::ExclusiveMinimum {
                value: *value,
                bound: *bound,
            },
            ValueFault::NotAString => ValueFaultModel::NotAString,
            ValueFault::TooLong { limit } => ValueFaultModel::TooLong { limit: *limit as nat },
            ValueFault::TooShort { limit } => ValueFaultModel::TooShort { limit: *limit as nat },
            ValueFault::PatternMismatch { pattern } => ValueFaultModel::PatternMismatch {
                pattern: pattern@,
            },
            ValueFault::NotAnArray => ValueFaultModel::NotAnArray,
            ValueFault::TooManyItems { count, limit } => ValueFaultModel::TooManyItems {
                count: *count as nat,
                limit: *limit as nat,
            },
            ValueFault::TooFewItems { count, limit } => ValueFaultModel::TooFewItems {
                count: *count as nat,
                limit: *limit as nat,
            },
            ValueFault::DuplicateItems { first, second } => ValueFaultModel::DuplicateItems {
                first: *first as nat,
                second: *second as nat,
            },
            ValueFault::NothingContained => ValueFaultModel::NothingContained,
            ValueFault::NotAnObject => ValueFaultModel::NotAnObject,
            ValueFault::TooManyProperties { count, limit } => ValueFaultModel::TooManyProperties {
                count: *count as nat,
                limit: *limit as nat,
            },
            ValueFault::TooFewProperties { count, limit } => ValueFaultModel::TooFewProperties {
                count: *count as nat,
                limit: *limit as nat,
            },
            ValueFault::MissingProperty { name } => ValueFaultModel::MissingProperty { name: name@ },
        }
    }
}

impl View for Error {
    type V = ErrorModel;

    open spec fn view(&self) -> ErrorModel {
        match self {
            Error::InvalidSchema { path, details } => ErrorModel::InvalidSchema {
                path: path@,
                details: details@,
            },
            Error::InvalidValue { path, value, details } => ErrorModel::InvalidValue {
                path: path@,
                value: value@,
                details: details@,
            },
        }
    }
}

/// The content of a validation's result.
pub open spec fn verdict_of(result: Result<(), Error>) -> Verdict {
    match result {
        Ok(_) => Ok(()),
        Err(e) => Err(e@),
    }
}

/// The schema error at `path`.
pub open spec fn schema_error(path: Seq<char>, details: SchemaFaultModel) -> Verdict {
    Err(ErrorModel::InvalidSchema { path, details })
}

/// The value error at `path` on `value`.
pub open spec fn value_error(path: Seq<char>, value: JsonValue, details: ValueFaultModel) -> Verdict {
    Err(ErrorModel::InvalidValue { path, value, details })
}

/// Whether a verdict is a schema error: the schema that was judged is
/// malformed, whatever the value.
pub open spec fn is_schema_error(verdict: Verdict) -> bool {
    verdict matches Err(ErrorModel::InvalidSchema { .. })
}

/// Whether a verdict is a value error: the value does not conform.
pub open spec fn is_value_error(verdict: Verdict) -> bool {
    verdict matches Err(ErrorModel::InvalidValue { .. })
}

/// The first of two verdicts that is an error, or success.
pub open spec fn and_then(first: Verdict, second: Verdict) -> Verdict {
    if first is Err {
        first
    } else {
        second
    }
}

/// Whether a result is a schema error.
pub fn is_defect(result: &Result<(), Error>) -> (r: bool)
    ensures
        r == is_schema_error(verdict_of(*result)),
{
    match result {
        Err(Error::InvalidSchema { .. }) => true,
        _ => false,
    }
}

/// Builds the schema error at `path`.
pub fn invalid_schema(path: &str, details: SchemaFault) -> (r: Result<(), Error>)
    ensures
        verdict_of(r) == schema_error(path@, details@),
{
    Err(Error::InvalidSchema { path: path.to_owned(), details })
}

/// Builds the value error at `path` on `value`.
pub fn invalid_value(path: &str, value: &Value, details: ValueFault) -> (r: Result<(), Error>)
    ensures
        verdict_of(r) == value_error(path@, value@, details@),
{
    Err(Error::InvalidValue { path: path.to_owned(), value: value.clone(), details })
}

} // verus!
