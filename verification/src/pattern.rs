//! Regular expressions. The engine is the `regex` crate; what it answers is
//! named here, and the decisions taken on its answers are verified.

use vstd::prelude::*;
use crate::error::{
    invalid_schema, invalid_value, schema_error, value_error, verdict_of, Error, ErrorModel,
    SchemaFault, SchemaFaultModel, ValueFault, ValueFaultModel, Verdict,
};
use crate::value::{JsonValue, Value};

verus! {

/// Whether the engine finds a match of `pattern` anywhere in `text`; `None`
/// where it refuses to compile `pattern`.
pub uninterp spec fn regex_match(pattern: Seq<char>, text: Seq<char>) -> Option<bool>;

/// `text` with every non-overlapping match of `pattern` replaced by
/// `replacement`, whose references to groups the engine expands: `$1` is
/// what the first group matched. `None` where the engine refuses to compile
/// `pattern`.
pub uninterp spec fn regex_rewrite(pattern: Seq<char>, text: Seq<char>, replacement: Seq<char>) -> Option<Seq<char>>;

/// An escaped `/` together with what stands before it: the start of the text
/// or a character that is no backslash, then any number of escaped
/// backslashes.
pub const ESCAPED_SLASH: &'static str = "((^|[^\\\\])(\\\\\\\\)*)\\\\/";

/// What an escaped `/` is replaced by: what stood before it and a bare `/`.
pub const BARE_SLASH: &'static str = "$1/";

/// Calls `regex::Regex::new` on `pattern` and, where that succeeds,
/// `Regex::is_match` on `text`. The result is the engine's answer, which
/// depends on the two strings alone; nothing is claimed of what it is.
#[verifier::external_body]
fn match_pattern(pattern: &str, text: &str) -> (r: Option<bool>)
    ensures
        r == regex_match(pattern@, text@),
{
    match regex::Regex::new(pattern) {
        Ok(re) => Some(re.is_match(text)),
        Err(_) => None,
    }
}

/// Calls `regex::Regex::new` on `pattern` and, where that succeeds,
/// `Regex::replace_all` on `text` with `replacement`. The result is the
/// engine's answer, which depends on the three strings alone; nothing is
/// claimed of what it is.
#[verifier::external_body]
fn rewrite(pattern: &str, text: &str, replacement: &str) -> (r: Option<String>)
    ensures
        match r {
            Some(s) => regex_rewrite(pattern@, text@, replacement@) == Some(s@),
            None => regex_rewrite(pattern@, text@, replacement@) is None,
        },
{
    match regex::Regex::new(pattern) {
        Ok(re) => Some(re.replace_all(text, replacement).into_owned()),
        Err(_) => None,
    }
}

/// The expression that the engine is given for a schema's `pattern`: the
/// pattern with its escaped slashes made bare.
pub open spec fn engine_pattern(pattern: Seq<char>) -> Option<Seq<char>> {
    regex_rewrite(ESCAPED_SLASH@, pattern, BARE_SLASH@)
}

/// What follows from the engine's answer on a string: a refused pattern is a
/// schema error, no match a value error.
pub open spec fn match_verdict(path: Seq<char>, value: JsonValue, pattern: Seq<char>, answer: Option<bool>) -> Verdict {
    match answer {
        None => schema_error(path, SchemaFaultModel::InvalidPattern { pattern }),
        Some(false) => value_error(path, value, ValueFaultModel::PatternMismatch { pattern }),
        Some(true) => Ok(()),
    }
}

/// The verdict of a schema's `pattern` on the string `text`, which is what
/// `value` holds.
pub open spec fn pattern_verdict(path: Seq<char>, value: JsonValue, pattern: Seq<char>, text: Seq<char>) -> Verdict {
    match engine_pattern(pattern) {
        None => schema_error(path, SchemaFaultModel::InvalidPattern { pattern }),
        Some(bare) => match_verdict(path, value, bare, regex_match(bare, text)),
    }
}

/// Whether a property pattern applies to `key`; a refused pattern is a schema
/// error.
pub open spec fn property_pattern_verdict(path: Seq<char>, pattern: Seq<char>, answer: Option<bool>) -> Result<bool, ErrorModel> {
    match answer {
        None => Err(ErrorModel::InvalidSchema { path, details: SchemaFaultModel::InvalidPattern { pattern } }),
        Some(hit) => Ok(hit),
    }
}

/// Decides on the engine's answer for a string.
pub fn judge_match(path: &str, value: &Value, pattern: &str, answer: Option<bool>) -> (r: Result<(), Error>)
    ensures
        verdict_of(r) == match_verdict(path@, value@, pattern@, answer),
{
    match answer {
        None => invalid_schema(path, SchemaFault::InvalidPattern { pattern: pattern.to_owned() }),
        Some(false) => invalid_value(
            path,
            value,
            ValueFault::PatternMismatch { pattern: pattern.to_owned() },
        ),
        Some(true) => Ok(()),
    }
}

/// Checks the string `text`, which is what `value` holds, against a schema's
/// `pattern`.
pub fn check_pattern(path: &str, value: &Value, pattern: &str, text: &str) -> (r: Result<(), Error>)
    ensures
        verdict_of(r) == pattern_verdict(path@, value@, pattern@, text@),
{
    match rewrite(ESCAPED_SLASH, pattern, BARE_SLASH) {
        None => invalid_schema(path, SchemaFault::InvalidPattern { pattern: pattern.to_owned() }),
        Some(bare) => {
            let answer = match_pattern(bare.as_str(), text);
            judge_match(path, value, bare.as_str(), answer)
        },
    }
}

/// Decides on the engine's answer for a property pattern.
pub fn judge_property_pattern(path: &str, pattern: &str, answer: Option<bool>) -> (r: Result<bool, Error>)
    ensures
        match r {
            Ok(hit) => property_pattern_verdict(path@, pattern@, answer) == Ok::<bool, ErrorModel>(hit),
            Err(e) => property_pattern_verdict(path@, pattern@, answer) == Err::<bool, ErrorModel>(e@),
        },
{
    match answer {
        None => Err(
            Error::InvalidSchema {
                path: path.to_owned(),
                details: SchemaFault::InvalidPattern { pattern: pattern.to_owned() },
            },
        ),
        Some(hit) => Ok(hit),
    }
}

/// Whether the property pattern `pattern` applies to `key`.
pub fn applies_to(path: &str, pattern: &str, key: &str) -> (r: Result<bool, Error>)
    ensures
        match r {
            Ok(hit) => property_pattern_verdict(path@, pattern@, regex_match(pattern@, key@)) == Ok::<bool, ErrorModel>(hit),
            Err(e) => property_pattern_verdict(path@, pattern@, regex_match(pattern@, key@)) == Err::<bool, ErrorModel>(e@),
        },
{
    judge_property_pattern(path, pattern, match_pattern(pattern, key))
}

} // verus!
