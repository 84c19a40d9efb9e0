use vstd::prelude::*;
use crate::error::{EnrichmentError, mentions};
use crate::json::JsonValue;
use crate::jsonpath::{extract_all, extract_spec, failing_path, value_outcome, values_outcome};
use crate::types::paths_view;

verus! {

/// A check that a type runs on its own state before it is enriched.
pub trait Validatable {
    fn validate(&self) -> Result<(), EnrichmentError>;
}

/// Reads values out of a JSON document by path.
pub trait PathExtractor {
    /// The node that `path` names in `data`.
    fn extract_value(&self, data: &JsonValue, path: &str) -> (r: Result<
        JsonValue,
        EnrichmentError,
    >)
        ensures
            value_outcome(r) == extract_spec(data@, path@),
            r is Err ==> mentions(r->Err_0.message_of(), path@),
    ;

    /// The nodes that `paths` name in `data`, in order.  The first path that
    /// fails decides the error, and no partial result is returned.
    fn extract_values(&self, data: &JsonValue, paths: &Vec<String>) -> (r: Result<
        Vec<JsonValue>,
        EnrichmentError,
    >)
        ensures
            values_outcome(r) == extract_all(data@, paths_view(paths@)),
            r is Err ==> mentions(r->Err_0.message_of(), failing_path(data@, paths_view(paths@))),
    ;
}

} // verus!
