//! A declarative data-enrichment engine.
//!
//! A rule set maps paths of a JSON source document onto the fields of a
//! destination.  Each rule reads one or several paths, may transform what it
//! read (split, template, case folding), and hands the result to the fields
//! that its target names.  Rules run in order, the first failure ends a run,
//! and what earlier rules wrote stays written.
//!
//! The behaviour of each step is stated as a contract over a model of JSON
//! values and proved; `laws` collects the properties that relate the steps.

pub mod enrichable;
pub mod error;
pub mod json;
pub mod jsonpath;
pub mod laws;
pub mod path;
pub mod record;
pub mod rules;
pub mod traits;
pub mod transform;
pub mod types;

pub use enrichable::{Enrichable, dispatch_target, enrich, evaluate_rule};
pub use error::{EnrichmentError, ErrorKind};
pub use json::JsonValue;
pub use jsonpath::JsonPathExtractor;
pub use record::{Field, FieldKind, FieldTable};
pub use rules::{parse_rule, parse_rules};
pub use traits::{PathExtractor, Validatable};
pub use transform::Transformer;
pub use transform::array::ArrayTransformer;
pub use transform::string::{StringTransformer, to_lower_case};
pub use transform::template::TemplateTransformer;
pub use types::{JsonPath, MappingRule, Target, Transform, TransformType, leaf_of};
