use vstd::prelude::*;
use crate::transform::template::{decimal_string, decimal_text};

verus! {

/// What went wrong while rules were read or applied.  Each variant carries a
/// message naming the offending path, field or transform.
#[derive(Debug)]
pub enum EnrichmentError {
    /// A source path matched no node of the document.
    JsonPathError(String),
    /// A destination field could not take the value handed to it.
    DataTypeError(String),
    /// A malformed rule, a malformed path, or an unknown destination field.
    SpecError(String),
    /// A transform lacked a parameter, got a value of the wrong shape, or is
    /// not implemented.
    TransformError(String),
    /// A destination refused its own state.
    ValidationError(String),
    /// A rule document or a source document was not valid JSON.
    SerializationError(String),
}

/// The variant of an [`EnrichmentError`], without its message.
#[derive(Debug, Clone, Copy, PartialEq, Eq, Structural)]
pub enum ErrorKind {
    JsonPath,
    DataType,
    Spec,
    Transform,
    Validation,
    Serialization,
}

impl EnrichmentError {
    pub open spec fn kind_of(&self) -> ErrorKind {
        match self {
            EnrichmentError::JsonPathError(_) => ErrorKind::JsonPath,
            EnrichmentError::DataTypeError(_) => ErrorKind::DataType,
            EnrichmentError::SpecError(_) => ErrorKind::Spec,
            EnrichmentError::TransformError(_) => ErrorKind::Transform,
            EnrichmentError::ValidationError(_) => ErrorKind::Validation,
            EnrichmentError::SerializationError(_) => ErrorKind::Serialization,
        }
    }

    /// The variant of this error.
    pub fn kind(&self) -> (k: ErrorKind)
        ensures
            k == self.kind_of(),
    {
        match self {
            EnrichmentError::JsonPathError(_) => ErrorKind::JsonPath,
            EnrichmentError::DataTypeError(_) => ErrorKind::DataType,
            EnrichmentError::SpecError(_) => ErrorKind::Spec,
            EnrichmentError::TransformError(_) => ErrorKind::Transform,
            EnrichmentError::ValidationError(_) => ErrorKind::Validation,
            EnrichmentError::SerializationError(_) => ErrorKind::Serialization,
        }
    }

    /// The message that this error carries.
    pub open spec fn message_of(&self) -> Seq<char> {
        match self {
            EnrichmentError::JsonPathError(m) => m@,
            EnrichmentError::DataTypeError(m) => m@,
            EnrichmentError::SpecError(m) => m@,
            EnrichmentError::TransformError(m) => m@,
            EnrichmentError::ValidationError(m) => m@,
            EnrichmentError::SerializationError(m) => m@,
        }
    }

    /// The message that this error carries.
    pub fn message(&self) -> (m: &String)
        ensures
            m@ == self.message_of(),
    {
        match self {
            EnrichmentError::JsonPathError(m) => m,
            EnrichmentError::DataTypeError(m) => m,
            EnrichmentError::SpecError(m) => m,
            EnrichmentError::TransformError(m) => m,
            EnrichmentError::ValidationError(m) => m,
            EnrichmentError::SerializationError(m) => m,
        }
    }
}

/// Whether `msg` holds `t` somewhere, as a run of consecutive characters.
pub open spec fn mentions(msg: Seq<char>, t: Seq<char>) -> bool {
    exists|i: int| 0 <= i && i + t.len() <= msg.len() && #[trigger] msg.subrange(i, i + t.len()) == t
}

/// A message built as `pre`, then `t`, then `post` mentions `t`.
pub proof fn lemma_mentions(pre: Seq<char>, t: Seq<char>, post: Seq<char>)
    ensures
        mentions(pre + t + post, t),
{
    let m = pre + t + post;
    assert(m.subrange(pre.len() as int, (pre.len() + t.len()) as int) =~= t);
}

/// What `t` mentions, a message built as `pre + t` mentions as well.
pub proof fn lemma_mentions_after(pre: Seq<char>, m: Seq<char>, t: Seq<char>)
    requires
        mentions(m, t),
    ensures
        mentions(pre + m, t),
{
    let i = choose|i: int| 0 <= i && i + t.len() <= m.len() && #[trigger] m.subrange(i, i + t.len()) == t;
    assert((pre + m).subrange(pre.len() + i, pre.len() + i + t.len()) =~= m.subrange(i, i + t.len()));
}

impl EnrichmentError {
    /// This error, of the same kind, with its message prefixed by the
    /// position of the rule that it is about: `rule <position>: <message>`.
    pub fn at_rule(self, position: usize) -> (r: EnrichmentError)
        ensures
            r.kind_of() == self.kind_of(),
            mentions(r.message_of(), decimal_text(position as nat)),
            forall|t: Seq<char>| mentions(self.message_of(), t) ==> #[trigger] mentions(r.message_of(), t),
    {
        let ghost old_msg = self.message_of();
        let mut m = String::from_str("rule ");
        let ghost start = m@;
        let digits = decimal_string(position);
        m.append(digits.as_str());
        let ghost mid = m@;
        m.append(": ");
        let ghost pre = m@;
        m.append(self.message().as_str());
        proof {
            lemma_mentions(start, digits@, m@.subrange(mid.len() as int, m@.len() as int));
            assert(start + digits@ + m@.subrange(mid.len() as int, m@.len() as int) =~= m@);
            assert(m@ =~= pre + old_msg);
            assert forall|t: Seq<char>| mentions(old_msg, t) implies #[trigger] mentions(m@, t) by {
                lemma_mentions_after(pre, old_msg, t);
            }
        }
        match self {
            EnrichmentError::JsonPathError(_) => EnrichmentError::JsonPathError(m),
            EnrichmentError::DataTypeError(_) => EnrichmentError::DataTypeError(m),
            EnrichmentError::SpecError(_) => EnrichmentError::SpecError(m),
            EnrichmentError::TransformError(_) => EnrichmentError::TransformError(m),
            EnrichmentError::ValidationError(_) => EnrichmentError::ValidationError(m),
            EnrichmentError::SerializationError(_) => EnrichmentError::SerializationError(m),
        }
    }
}

/// The kind of error in an outcome, with any success left as it is.
pub open spec fn kinds<T>(r: Result<T, EnrichmentError>) -> Result<T, ErrorKind> {
    match r {
        Ok(v) => Ok(v),
        Err(e) => Err(e.kind_of()),
    }
}

} // verus!
