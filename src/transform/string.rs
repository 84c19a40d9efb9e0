use vstd::prelude::*;
use crate::error::{EnrichmentError, ErrorKind};
use crate::json::{JsonValue, JsonView};
use crate::jsonpath::value_outcome;
use crate::transform::Transformer;

verus! {

/// The upper-case form of a string, as `str::to_uppercase` gives it.
pub uninterp spec fn upper_of(s: Seq<char>) -> Seq<char>;

/// The lower-case form of a string, as `str::to_lowercase` gives it.
pub uninterp spec fn lower_of(s: Seq<char>) -> Seq<char>;

/// Relies on `str::to_uppercase`: the result depends on the characters alone.
#[verifier::external_body]
pub(crate) fn uppercase(s: &str) -> (r: String)
    ensures
        r@ == upper_of(s@),
{
    s.to_uppercase()
}

/// Relies on `str::to_lowercase`: the result depends on the characters alone.
#[verifier::external_body]
pub(crate) fn lowercase(s: &str) -> (r: String)
    ensures
        r@ == lower_of(s@),
{
    s.to_lowercase()
}

/// Upper-casing a string value; any other value is refused.
pub open spec fn upper_spec(v: JsonView) -> Result<JsonView, ErrorKind> {
    match v {
        JsonView::Str(s) => Ok(JsonView::Str(upper_of(s))),
        _ => Err(ErrorKind::Transform),
    }
}

/// Lower-casing a string value; any other value is refused.
pub open spec fn lower_spec(v: JsonView) -> Result<JsonView, ErrorKind> {
    match v {
        JsonView::Str(s) => Ok(JsonView::Str(lower_of(s))),
        _ => Err(ErrorKind::Transform),
    }
}

/// Upper-cases string values.
pub struct StringTransformer;

impl StringTransformer {
    pub fn new() -> (r: Self) {
        StringTransformer
    }
}

impl Transformer for StringTransformer {
    open spec fn transform_spec(&self, v: JsonView) -> Result<JsonView, ErrorKind> {
        upper_spec(v)
    }

    fn transform(&self, value: &JsonValue) -> (r: Result<JsonValue, EnrichmentError>) {
        match value {
            JsonValue::String(s) => Ok(JsonValue::String(uppercase(s.as_str()))),
            _ => Err(EnrichmentError::TransformError(String::from_str("Value is not a string"))),
        }
    }
}

/// Lower-cases a string value.
pub fn to_lower_case(value: &JsonValue) -> (r: Result<JsonValue, EnrichmentError>)
    ensures
        value_outcome(r) == lower_spec(value@),
{
    match value {
        JsonValue::String(s) => Ok(JsonValue::String(lowercase(s.as_str()))),
        _ => Err(EnrichmentError::TransformError(String::from_str("Value is not a string"))),
    }
}

} // verus!
