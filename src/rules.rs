use vstd::prelude::*;
use crate::error::{EnrichmentError, mentions};
use crate::transform::template::decimal_text;
use crate::json::{JsonValue, JsonView, object_member};
use crate::types::{
    JsonPath,
    MappingRule,
    Target,
    Transform,
    TransformType,
    distinct_keys,
    params_view,
    paths_view,
};

verus! {

/// The model of a source or a target: one path, or several.
pub enum PathsView {
    One(Seq<char>),
    Many(Seq<Seq<char>>),
}

/// The model of a transform: its kind, and its parameters if it has any.
pub type TransformModel = (TransformType, Option<Seq<(Seq<char>, Seq<char>)>>);

/// The model of a rule: source, target, transform, condition.
pub type RuleModel = (PathsView, PathsView, Option<TransformModel>, Option<JsonView>);

pub open spec fn source_model(p: JsonPath) -> PathsView {
    match p {
        JsonPath::Single(s) => PathsView::One(s@),
        JsonPath::Multiple(ps) => PathsView::Many(paths_view(ps@)),
    }
}

pub open spec fn target_model(t: Target) -> PathsView {
    match t {
        Target::Single(s) => PathsView::One(s@),
        Target::Multiple(ps) => PathsView::Many(paths_view(ps@)),
    }
}

pub open spec fn transform_model(t: Option<Transform>) -> Option<TransformModel> {
    match t {
        Some(t) => Some(
            (
                t.transform_type,
                match t.params {
                    Some(ps) => Some(params_view(ps@)),
                    None => None,
                },
            ),
        ),
        None => None,
    }
}

pub open spec fn rule_model(r: MappingRule) -> RuleModel {
    (
        source_model(r.source),
        target_model(r.target),
        transform_model(r.transform),
        match r.condition {
            Some(c) => Some(c@),
            None => None,
        },
    )
}

/// Whether every element of `items` is a string.
pub open spec fn all_strings(items: Seq<JsonView>) -> bool {
    forall|i: int| 0 <= i < items.len() ==> #[trigger] items[i] is Str
}

pub open spec fn strings(items: Seq<JsonView>) -> Seq<Seq<char>> {
    items.map_values(|x: JsonView| x->Str_0)
}

/// A path field as written: a string is one path, an array of strings several.
pub open spec fn paths_of(v: JsonView) -> Option<PathsView> {
    match v {
        JsonView::Str(s) => Some(PathsView::One(s)),
        JsonView::Array(items) => if all_strings(items) {
            Some(PathsView::Many(strings(items)))
        } else {
            None
        },
        _ => None,
    }
}

/// The transform kind that a name on the wire stands for.
pub open spec fn kind_named(name: Seq<char>) -> Option<TransformType> {
    if name == "toString"@ {
        Some(TransformType::ToString)
    } else if name == "toUpperCase"@ {
        Some(TransformType::ToUpperCase)
    } else if name == "toLowerCase"@ {
        Some(TransformType::ToLowerCase)
    } else if name == "split"@ {
        Some(TransformType::Split)
    } else if name == "concat"@ {
        Some(TransformType::Concat)
    } else if name == "replace"@ {
        Some(TransformType::Replace)
    } else if name == "substring"@ {
        Some(TransformType::Substring)
    } else if name == "template"@ {
        Some(TransformType::Template)
    } else {
        None
    }
}

/// Whether a member is absent or `null`: an optional field left out.
pub open spec fn left_out(v: Option<JsonView>) -> bool {
    v is None || v == Some(JsonView::Null)
}

/// The parameters as written: left out, or an object of strings with distinct
/// keys.  `None` where they are malformed.
pub open spec fn params_of(v: Option<JsonView>) -> Option<Option<Seq<(Seq<char>, Seq<char>)>>> {
    if left_out(v) {
        Some(None)
    } else {
        match v->0 {
            JsonView::Object(m) => if (forall|i: int| 0 <= i < m.len() ==> #[trigger] m[i].1 is Str)
                && distinct_keys(m) {
                Some(Some(m.map_values(|p: (Seq<char>, JsonView)| (p.0, p.1->Str_0))))
            } else {
                None
            },
            _ => None,
        }
    }
}

/// The transform as written: left out, or an object with a known `type` and
/// well-formed `params`.  `None` where it is malformed.
pub open spec fn transform_of(v: Option<JsonView>) -> Option<Option<TransformModel>> {
    if left_out(v) {
        Some(None)
    } else {
        match object_member(v->0, "type"@) {
            Some(JsonView::Str(name)) => match kind_named(name) {
                Some(k) => match params_of(object_member(v->0, "params"@)) {
                    Some(ps) => Some(Some((k, ps))),
                    None => None,
                },
                None => None,
            },
            _ => None,
        }
    }
}

/// The rule that an object of a rule document describes, or `None` where it
/// is malformed.  Members other than these four are ignored.
pub open spec fn rule_of(v: JsonView) -> Option<RuleModel> {
    match (
        object_member(v, "source"@),
        object_member(v, "target"@),
        transform_of(object_member(v, "transform"@)),
    ) {
        (Some(s), Some(t), Some(tr)) => match (paths_of(s), paths_of(t)) {
            (Some(sp), Some(tp)) => Some(
                (
                    sp,
                    tp,
                    tr,
                    if left_out(object_member(v, "condition"@)) {
                        None
                    } else {
                        object_member(v, "condition"@)
                    },
                ),
            ),
            _ => None,
        },
        _ => None,
    }
}

/// The strings of an array of strings, in order; `None` where an element is
/// not a string.
fn string_list(items: &Vec<JsonValue>) -> (r: Option<Vec<String>>)
    ensures
        match r {
            Some(ps) => all_strings(items@.map_values(|x: JsonValue| x@)) && paths_view(ps@)
                == strings(items@.map_values(|x: JsonValue| x@)),
            None => !all_strings(items@.map_values(|x: JsonValue| x@)),
        },
{
    let ghost iv = items@.map_values(|x: JsonValue| x@);
    let mut out: Vec<String> = Vec::new();
    let mut i: usize = 0;
    while i < items.len()
        invariant
            iv == items@.map_values(|x: JsonValue| x@),
            i <= items@.len(),
            out@.len() == i,
            forall|j: int| 0 <= j < i ==> #[trigger] iv[j] is Str,
            forall|j: int| 0 <= j < i ==> (#[trigger] out@[j])@ == iv[j]->Str_0,
        decreases items@.len() - i,
    {
        match &items[i] {
            JsonValue::String(s) => {
                out.push(s.clone());
            },
            _ => {
                assert(!(iv[i as int] is Str));
                return None;
            },
        }
        i = i + 1;
    }
    proof {
        assert(paths_view(out@) =~= strings(iv));
    }
    Some(out)
}

/// A path field read as one path or several.
fn read_paths(v: &JsonValue) -> (r: Option<(Option<String>, Vec<String>)>)
    ensures
        match r {
            Some((Some(s), _)) => paths_of(v@) == Some(PathsView::One(s@)),
            Some((None, ps)) => paths_of(v@) == Some(PathsView::Many(paths_view(ps@))),
            None => paths_of(v@) is None,
        },
{
    match v {
        JsonValue::String(s) => Some((Some(s.clone()), Vec::new())),
        JsonValue::Array(items) => {
            proof {
                assert(v@->Array_0 =~= items@.map_values(|x: JsonValue| x@));
            }
            match string_list(items) {
                Some(ps) => Some((None, ps)),
                None => None,
            }
        },
        _ => None,
    }
}

fn spec_error(what: &str) -> (r: EnrichmentError)
    ensures
        r is SpecError,
{
    let mut m = String::from_str("Invalid rule: ");
    m.append(what);
    EnrichmentError::SpecError(m)
}

/// The transform kind that a name on the wire stands for.
pub fn kind_from_name(name: &String) -> (r: Option<TransformType>)
    ensures
        r == kind_named(name@),
{
    proof {
        reveal_strlit("toString");
        reveal_strlit("toUpperCase");
        reveal_strlit("toLowerCase");
        reveal_strlit("split");
        reveal_strlit("concat");
        reveal_strlit("replace");
        reveal_strlit("substring");
        reveal_strlit("template");
    }
    if *name == String::from_str("toString") {
        Some(TransformType::ToString)
    } else if *name == String::from_str("toUpperCase") {
        Some(TransformType::ToUpperCase)
    } else if *name == String::from_str("toLowerCase") {
        Some(TransformType::ToLowerCase)
    } else if *name == String::from_str("split") {
        Some(TransformType::Split)
    } else if *name == String::from_str("concat") {
        Some(TransformType::Concat)
    } else if *name == String::from_str("replace") {
        Some(TransformType::Replace)
    } else if *name == String::from_str("substring") {
        Some(TransformType::Substring)
    } else if *name == String::from_str("template") {
        Some(TransformType::Template)
    } else {
        None
    }
}

fn is_left_out(v: Option<&JsonValue>) -> (r: bool)
    ensures
        r == left_out(
            match v {
                Some(x) => Some(x@),
                None => None,
            },
        ),
{
    match v {
        None => true,
        Some(JsonValue::Null) => true,
        Some(_) => false,
    }
}

/// The parameters of a transform object.
fn read_params(v: Option<&JsonValue>) -> (r: Result<Option<Vec<(String, String)>>, EnrichmentError>)
    ensures
        match r {
            Ok(Some(ps)) => params_of(
                match v {
                    Some(x) => Some(x@),
                    None => None,
                },
            ) == Some(Some(params_view(ps@))) && distinct_keys(params_view(ps@)),
            Ok(None) => params_of(
                match v {
                    Some(x) => Some(x@),
                    None => None,
                },
            ) == Some(None::<Seq<(Seq<char>, Seq<char>)>>),
            Err(e) => params_of(
                match v {
                    Some(x) => Some(x@),
                    None => None,
                },
            ) is None && e is SpecError,
        },
{
    if is_left_out(v) {
        return Ok(None);
    }
    match v {
        Some(JsonValue::Object(members)) => {
            let ghost m = v->0@->Object_0;
            let mut out: Vec<(String, String)> = Vec::new();
            let mut i: usize = 0;
            while i < members.len()
                invariant
                    v == Some(&JsonValue::Object(*members)),
                    m == v->0@->Object_0,
                    m.len() == members@.len(),
                    i <= members@.len(),
                    out@.len() == i,
                    forall|j: int| 0 <= j < i ==> #[trigger] m[j].1 is Str,
                    forall|j: int|
                        0 <= j < i ==> (#[trigger] out@[j]).0@ == m[j].0 && out@[j].1@
                            == m[j].1->Str_0,
                    distinct_keys(m.subrange(0, i as int)),
                decreases members@.len() - i,
            {
                assert(m[i as int] == (members@[i as int].0@, members@[i as int].1@));
                let mut k: usize = 0;
                while k < i
                    invariant
                        v == Some(&JsonValue::Object(*members)),
                        m == v->0@->Object_0,
                        m.len() == members@.len(),
                        i < members@.len(),
                        out@.len() == i,
                        k <= i,
                        forall|j: int|
                            0 <= j < i ==> (#[trigger] out@[j]).0@ == m[j].0,
                        forall|j: int| 0 <= j < k ==> #[trigger] m[j].0 != m[i as int].0,
                        m[i as int] == (members@[i as int].0@, members@[i as int].1@),
                    decreases i - k,
                {
                    if out[k].0 == members[i].0 {
                        assert(m[k as int].0 == m[i as int].0);
                        assert(!distinct_keys(m));
                        return Err(spec_error("parameter keys must be distinct"));
                    }
                    k = k + 1;
                }
                proof {
                    assert forall|a: int, b: int| 0 <= a < b < i + 1 implies #[trigger] m.subrange(
                        0,
                        i + 1,
                    )[a].0 != #[trigger] m.subrange(0, i + 1)[b].0 by {
                        if b < i {
                            assert(m.subrange(0, i as int)[a] == m[a]);
                            assert(m.subrange(0, i as int)[b] == m[b]);
                        }
                    }
                }
                match &members[i].1 {
                    JsonValue::String(s) => {
                        out.push((members[i].0.clone(), s.clone()));
                    },
                    _ => {
                        assert(!(m[i as int].1 is Str));
                        return Err(spec_error("parameters must be strings"));
                    },
                }
                i = i + 1;
            }
            proof {
                assert(m.subrange(0, i as int) =~= m);
                assert(params_view(out@) =~= m.map_values(
                    |p: (Seq<char>, JsonView)| (p.0, p.1->Str_0),
                ));
                assert forall|a: int, b: int| 0 <= a < b < out@.len() implies #[trigger] params_view(
                    out@,
                )[a].0 != #[trigger] params_view(out@)[b].0 by {
                    assert(params_view(out@)[a].0 == m[a].0);
                    assert(params_view(out@)[b].0 == m[b].0);
                }
            }
            Ok(Some(out))
        },
        _ => Err(spec_error("parameters must be an object")),
    }
}

/// The transform of a rule object.
fn read_transform(v: Option<&JsonValue>) -> (r: Result<Option<Transform>, EnrichmentError>)
    ensures
        match r {
            Ok(t) => transform_of(
                match v {
                    Some(x) => Some(x@),
                    None => None,
                },
            ) == Some(transform_model(t)) && (t matches Some(t) ==> t.wf()),
            Err(e) => transform_of(
                match v {
                    Some(x) => Some(x@),
                    None => None,
                },
            ) is None && e is SpecError,
        },
{
    if is_left_out(v) {
        return Ok(None);
    }
    let t = match v {
        Some(t) => t,
        None => {
            return Ok(None);
        },
    };
    let kind = match t.get("type") {
        Some(JsonValue::String(name)) => match kind_from_name(name) {
            Some(k) => k,
            None => {
                return Err(spec_error("unknown transform type"));
            },
        },
        _ => {
            return Err(spec_error("transform needs a type"));
        },
    };
    let params = read_params(t.get("params"))?;
    Ok(Some(Transform { transform_type: kind, params }))
}

/// Reads one rule from an object of a rule document.
pub fn parse_rule(v: &JsonValue) -> (r: Result<MappingRule, EnrichmentError>)
    ensures
        match r {
            Ok(rule) => rule_of(v@) == Some(rule_model(rule)) && rule.wf(),
            Err(e) => rule_of(v@) is None && e is SpecError,
        },
{
    let s = match v.get("source") {
        Some(s) => s,
        None => {
            return Err(spec_error("missing source"));
        },
    };
    let t = match v.get("target") {
        Some(t) => t,
        None => {
            return Err(spec_error("missing target"));
        },
    };
    let transform = read_transform(v.get("transform"))?;
    let source = match read_paths(s) {
        Some((Some(p), _)) => JsonPath::Single(p),
        Some((None, ps)) => JsonPath::Multiple(ps),
        None => {
            return Err(spec_error("source must be a path or a list of paths"));
        },
    };
    let target = match read_paths(t) {
        Some((Some(p), _)) => Target::Single(p),
        Some((None, ps)) => Target::Multiple(ps),
        None => {
            return Err(spec_error("target must be a path or a list of paths"));
        },
    };
    let c = v.get("condition");
    let condition = if is_left_out(c) {
        None
    } else {
        match c {
            Some(c) => Some(c.copy_value()),
            None => None,
        }
    };
    Ok(MappingRule { source, target, transform, condition })
}

/// The position of the first malformed rule object among `items` (their
/// number where none is).
pub open spec fn first_malformed(items: Seq<JsonView>) -> nat
    decreases items.len(),
{
    if items.len() == 0 || rule_of(items[0]) is None {
        0
    } else {
        1 + first_malformed(items.drop_first())
    }
}

/// Reads a rule document: an array of rule objects, in order.  An error
/// about a rule object names its position.
pub fn parse_rules(doc: &JsonValue) -> (r: Result<Vec<MappingRule>, EnrichmentError>)
    ensures
        match r {
            Ok(rules) => doc@ is Array && rules@.len() == doc@->Array_0.len() && forall|i: int|
                0 <= i < rules@.len() ==> rule_of(doc@->Array_0[i]) == Some(
                    rule_model(#[trigger] rules@[i]),
                ) && rules@[i].wf(),
            Err(e) => e is SpecError && !(doc@ is Array && forall|i: int|
                0 <= i < doc@->Array_0.len() ==> #[trigger] rule_of(doc@->Array_0[i]) is Some)
                && (doc@ is Array ==> mentions(
                e.message_of(),
                decimal_text(first_malformed(doc@->Array_0)),
            )),
        },
{
    match doc {
        JsonValue::Array(items) => {
            let ghost iv = doc@->Array_0;
            let mut out: Vec<MappingRule> = Vec::new();
            let mut i: usize = 0;
            proof {
                assert(iv.skip(0) =~= iv);
            }
            while i < items.len()
                invariant
                    *doc == JsonValue::Array(*items),
                    iv == doc@->Array_0,
                    iv.len() == items@.len(),
                    i <= items@.len(),
                    out@.len() == i,
                    forall|j: int|
                        0 <= j < i ==> rule_of(iv[j]) == Some(rule_model(#[trigger] out@[j]))
                            && out@[j].wf(),
                    first_malformed(iv) == i + first_malformed(iv.skip(i as int)),
                decreases items@.len() - i,
            {
                assert(iv[i as int] == items@[i as int]@);
                assert(iv.skip(i as int)[0] == iv[i as int]);
                assert(iv.skip(i as int).drop_first() =~= iv.skip(i + 1));
                match parse_rule(&items[i]) {
                    Ok(rule) => {
                        out.push(rule);
                    },
                    Err(e) => {
                        return Err(e.at_rule(i));
                    },
                }
                i = i + 1;
            }
            Ok(out)
        },
        _ => Err(spec_error("a rule document is an array")),
    }
}

} // verus!
