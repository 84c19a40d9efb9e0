use vstd::prelude::*;
use crate::error::{EnrichmentError, ErrorKind};
use crate::json::{JsonValue, JsonView};
use crate::jsonpath::value_outcome;

pub mod array;
pub mod string;
pub mod template;

verus! {

/// A function from one JSON value to another.
pub trait Transformer {
    /// What `transform` gives on a value with model `v`.
    spec fn transform_spec(&self, v: JsonView) -> Result<JsonView, ErrorKind>;

    fn transform(&self, value: &JsonValue) -> (r: Result<JsonValue, EnrichmentError>)
        ensures
            value_outcome(r) == self.transform_spec(value@),
    ;
}

} // verus!
