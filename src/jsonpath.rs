use vstd::prelude::*;
use crate::error::{EnrichmentError, ErrorKind, lemma_mentions, mentions};
use crate::json::{JsonValue, JsonView, object_member};
use crate::path::{Segment, SegmentView, parse_path, parse_segments, segments_view};
use crate::traits::PathExtractor;
use crate::types::paths_view;

verus! {

/// The node that one segment leads to from `v`, if any.
pub open spec fn step(v: JsonView, seg: SegmentView) -> Option<JsonView> {
    match seg {
        SegmentView::Key(k) => object_member(v, k),
        SegmentView::Index(n) => match v {
            JsonView::Array(items) => if n < items.len() {
                Some(items[n as int])
            } else {
                None
            },
            _ => None,
        },
    }
}

/// The node that a sequence of segments leads to from `v`, if any.
pub open spec fn navigate(v: JsonView, segs: Seq<SegmentView>) -> Option<JsonView>
    decreases segs.len(),
{
    if segs.len() == 0 {
        Some(v)
    } else {
        match step(v, segs[0]) {
            Some(c) => navigate(c, segs.drop_first()),
            None => None,
        }
    }
}

/// What extracting `path` from `doc` gives: the node that the path names, a
/// `Spec` error where the path is malformed, a `JsonPath` error where it names
/// no node.
pub open spec fn extract_spec(doc: JsonView, path: Seq<char>) -> Result<JsonView, ErrorKind> {
    match parse_path(path) {
        None => Err(ErrorKind::Spec),
        Some(segs) => match navigate(doc, segs) {
            Some(v) => Ok(v),
            None => Err(ErrorKind::JsonPath),
        },
    }
}

/// Extracting each path in turn; the first failure is the outcome.
pub open spec fn extract_all(doc: JsonView, paths: Seq<Seq<char>>) -> Result<
    Seq<JsonView>,
    ErrorKind,
>
    decreases paths.len(),
{
    if paths.len() == 0 {
        Ok(Seq::empty())
    } else {
        match extract_spec(doc, paths[0]) {
            Err(k) => Err(k),
            Ok(v) => match extract_all(doc, paths.drop_first()) {
                Ok(rest) => Ok(seq![v] + rest),
                Err(k) => Err(k),
            },
        }
    }
}

/// The first of `paths` that cannot be extracted from `doc`.
pub open spec fn failing_path(doc: JsonView, paths: Seq<Seq<char>>) -> Seq<char>
    decreases paths.len(),
{
    if paths.len() == 0 {
        Seq::empty()
    } else if extract_spec(doc, paths[0]) is Err {
        paths[0]
    } else {
        failing_path(doc, paths.drop_first())
    }
}

/// The model of an outcome that carries a JSON value.
pub open spec fn value_outcome(r: Result<JsonValue, EnrichmentError>) -> Result<JsonView, ErrorKind> {
    match r {
        Ok(v) => Ok(v@),
        Err(e) => Err(e.kind_of()),
    }
}

/// The model of an outcome that carries a sequence of JSON values.
pub open spec fn values_outcome(r: Result<Vec<JsonValue>, EnrichmentError>) -> Result<
    Seq<JsonView>,
    ErrorKind,
> {
    match r {
        Ok(vs) => Ok(vs@.map_values(|v: JsonValue| v@)),
        Err(e) => Err(e.kind_of()),
    }
}

/// The node that one segment leads to from `v`.
fn step_into<'a>(v: &'a JsonValue, seg: &Segment) -> (r: Option<&'a JsonValue>)
    ensures
        match r {
            Some(c) => step(v@, seg@) == Some(c@),
            None => step(v@, seg@) is None,
        },
{
    match seg {
        Segment::Key(k) => v.get(k.as_str()),
        Segment::Index(n) => match v {
            JsonValue::Array(items) => {
                if *n < items.len() {
                    Some(&items[*n])
                } else {
                    None
                }
            },
            _ => None,
        },
    }
}

/// The node that `segs` lead to from `root`.
fn find<'a>(root: &'a JsonValue, segs: &Vec<Segment>) -> (r: Option<&'a JsonValue>)
    ensures
        match r {
            Some(v) => navigate(root@, segments_view(segs@)) == Some(v@),
            None => navigate(root@, segments_view(segs@)) is None,
        },
{
    let ghost sv = segments_view(segs@);
    let mut cur: &JsonValue = root;
    let mut i: usize = 0;
    proof {
        assert(sv.skip(0) =~= sv);
    }
    while i < segs.len()
        invariant
            sv == segments_view(segs@),
            i <= segs@.len(),
            navigate(root@, sv) == navigate(cur@, sv.skip(i as int)),
        decreases segs@.len() - i,
    {
        assert(sv.skip(i as int)[0] == segs@[i as int]@);
        assert(sv.skip(i as int).drop_first() =~= sv.skip(i + 1));
        match step_into(cur, &segs[i]) {
            Some(c) => {
                cur = c;
            },
            None => {
                return None;
            },
        }
        i = i + 1;
    }
    Some(cur)
}

/// Reads values out of a JSON document by path.
///
/// A path is `$` followed by `.name` and `[index]` steps; only the first node
/// that a path names is used.
pub struct JsonPathExtractor;

impl JsonPathExtractor {
    pub fn new() -> (r: Self) {
        JsonPathExtractor
    }

    /// A copy of the node that `path` names in `data`.
    pub fn extract(data: &JsonValue, path: &str) -> (r: Result<JsonValue, EnrichmentError>)
        ensures
            value_outcome(r) == extract_spec(data@, path@),
            r is Err ==> mentions(r->Err_0.message_of(), path@),
    {
        match parse_segments(path) {
            None => {
                let mut m = String::from_str("Invalid path: ");
                let ghost pre = m@;
                m.append(path);
                proof {
                    lemma_mentions(pre, path@, Seq::empty());
                    assert(pre + path@ + Seq::<char>::empty() =~= m@);
                }
                Err(EnrichmentError::SpecError(m))
            },
            Some(segs) => match find(data, &segs) {
                Some(v) => Ok(v.copy_value()),
                None => {
                    let mut m = String::from_str("Path not found: ");
                    let ghost pre = m@;
                    m.append(path);
                    proof {
                        lemma_mentions(pre, path@, Seq::empty());
                        assert(pre + path@ + Seq::<char>::empty() =~= m@);
                    }
                    Err(EnrichmentError::JsonPathError(m))
                },
            },
        }
    }

}

impl PathExtractor for JsonPathExtractor {
    /// The node that `path` names in `data`.
    fn extract_value(&self, data: &JsonValue, path: &str) -> (r: Result<
        JsonValue,
        EnrichmentError,
    >) {
        Self::extract(data, path)
    }

    /// The nodes that `paths` name in `data`, in order; the first path that
    /// fails decides the error, and no partial result is returned.
    fn extract_values(&self, data: &JsonValue, paths: &Vec<String>) -> (r: Result<
        Vec<JsonValue>,
        EnrichmentError,
    >) {
        let ghost ps = paths_view(paths@);
        let mut out: Vec<JsonValue> = Vec::new();
        let mut i: usize = 0;
        proof {
            assert(ps.skip(0) =~= ps);
        }
        while i < paths.len()
            invariant
                ps == paths_view(paths@),
                i <= paths@.len(),
                out@.len() == i,
                failing_path(data@, ps) == failing_path(data@, ps.skip(i as int)),
                extract_all(data@, ps) == match extract_all(data@, ps.skip(i as int)) {
                    Ok(rest) => Ok(out@.map_values(|v: JsonValue| v@) + rest),
                    Err(k) => Err(k),
                },
            decreases paths@.len() - i,
        {
            assert(ps.skip(i as int)[0] == paths@[i as int]@);
            assert(ps.skip(i as int).drop_first() =~= ps.skip(i + 1));
            match self.extract_value(data, paths[i].as_str()) {
                Ok(v) => {
                    let ghost before = out@.map_values(|v: JsonValue| v@);
                    let ghost vv = v@;
                    out.push(v);
                    proof {
                        assert(out@.map_values(|v: JsonValue| v@) =~= before + seq![vv]);
                        match extract_all(data@, ps.skip(i + 1)) {
                            Ok(rest) => {
                                assert(before + seq![vv] + rest =~= before + (seq![vv] + rest));
                            },
                            Err(_) => {},
                        }
                    }
                },
                Err(e) => {
                    return Err(e);
                },
            }
            i = i + 1;
        }
        proof {
            assert(out@.map_values(|v: JsonValue| v@) + Seq::<JsonView>::empty()
                =~= out@.map_values(|v: JsonValue| v@));
        }
        Ok(out)
    }
}

} // verus!
