use vstd::prelude::*;
use crate::error::{EnrichmentError, ErrorKind};
use crate::json::{JsonValue, JsonView};
use crate::jsonpath::value_outcome;
use crate::transform::Transformer;

verus! {

/// The pieces of `s` for a non-empty delimiter `d`, scanning from position
/// `i` with the current piece begun at `start`: each occurrence of `d`, the
/// leftmost first and none overlapping, ends a piece; the rest is the last.
pub open spec fn pieces_from(s: Seq<char>, d: Seq<char>, i: int, start: int) -> Seq<Seq<char>>
    decreases s.len() - i,
{
    if d.len() == 0 || i < 0 || i + d.len() > s.len() {
        seq![s.subrange(start, s.len() as int)]
    } else if s.subrange(i, i + d.len()) == d {
        seq![s.subrange(start, i)] + pieces_from(s, d, i + d.len(), i + d.len())
    } else {
        pieces_from(s, d, i + 1, start)
    }
}

/// The pieces that splitting `s` on `d` gives: for a non-empty `d`, the text
/// between its leftmost non-overlapping occurrences (empty pieces kept); for
/// an empty `d`, an empty piece, each character alone, and an empty piece.
pub open spec fn split_pieces(s: Seq<char>, d: Seq<char>) -> Seq<Seq<char>> {
    if d.len() > 0 {
        pieces_from(s, d, 0, 0)
    } else {
        seq![Seq::empty()] + s.map_values(|c: char| seq![c]) + seq![Seq::empty()]
    }
}

/// Relies on `str::split` with a string pattern: the pieces lie between the
/// leftmost non-overlapping occurrences of the delimiter; an empty delimiter
/// matches at each character boundary, the start and the end included.
#[verifier::external_body]
pub(crate) fn split_on(s: &str, d: &str) -> (r: Vec<String>)
    ensures
        r@.map_values(|p: String| p@) == split_pieces(s@, d@),
{
    s.split(d).map(|p| p.to_string()).collect()
}

/// Splitting a string value on `d` into an array of strings; any other value
/// is refused.
pub open spec fn split_spec(d: Seq<char>, v: JsonView) -> Result<JsonView, ErrorKind> {
    match v {
        JsonView::Str(s) => Ok(
            JsonView::Array(split_pieces(s, d).map_values(|p: Seq<char>| JsonView::Str(p))),
        ),
        _ => Err(ErrorKind::Transform),
    }
}

/// Splits string values on a delimiter.
pub struct ArrayTransformer {
    delimiter: String,
}

impl ArrayTransformer {
    pub fn new(delimiter: String) -> (r: Self)
        ensures
            r.delimiter_spec() == delimiter@,
    {
        Self { delimiter }
    }

    pub closed spec fn delimiter_spec(&self) -> Seq<char> {
        self.delimiter@
    }
}

impl Transformer for ArrayTransformer {
    open spec fn transform_spec(&self, v: JsonView) -> Result<JsonView, ErrorKind> {
        split_spec(self.delimiter_spec(), v)
    }

    fn transform(&self, value: &JsonValue) -> (r: Result<JsonValue, EnrichmentError>) {
        match value {
            JsonValue::String(s) => {
                let pieces = split_on(s.as_str(), self.delimiter.as_str());
                let ghost want = split_pieces(s@, self.delimiter@);
                let mut parts: Vec<JsonValue> = Vec::new();
                let mut i: usize = 0;
                while i < pieces.len()
                    invariant
                        pieces@.map_values(|p: String| p@) == want,
                        i <= pieces@.len(),
                        parts@.len() == i,
                        forall|j: int|
                            0 <= j < i ==> (#[trigger] parts@[j])@ == JsonView::Str(want[j]),
                    decreases pieces@.len() - i,
                {
                    assert(want[i as int] == pieces@[i as int]@);
                    parts.push(JsonValue::String(pieces[i].clone()));
                    i = i + 1;
                }
                let r = JsonValue::Array(parts);
                proof {
                    assert(r@->Array_0 =~= want.map_values(|p: Seq<char>| JsonView::Str(p)));
                }
                Ok(r)
            },
            _ => Err(EnrichmentError::TransformError(String::from_str("Value is not a string"))),
        }
    }
}

} // verus!
