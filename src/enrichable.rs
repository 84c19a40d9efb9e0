use vstd::prelude::*;
use crate::error::{EnrichmentError, ErrorKind, lemma_mentions, mentions};
use crate::json::{JsonValue, JsonView};
use crate::jsonpath::{JsonPathExtractor, extract_all, extract_spec, failing_path, value_outcome};
use crate::traits::PathExtractor;
use crate::transform::Transformer;
use crate::transform::template::decimal_text;
use crate::transform::array::{ArrayTransformer, split_spec};
use crate::transform::string::{StringTransformer, lower_spec, to_lower_case, upper_spec};
use crate::transform::template::{TemplateTransformer, template_spec};
use crate::types::{
    JsonPath,
    MappingRule,
    Target,
    Transform,
    TransformType,
    leaf_name,
    leaf_of,
    paths_view,
};

verus! {

/// A destination that the engine fills field by field.
///
/// A type declares a fixed set of field names.  `set_field` converts a JSON
/// value into the named field's type and stores it; it refuses an undeclared
/// name with a `Spec` error and a value that the field cannot take with a
/// `DataType` error, each with a message that names the field, and then
/// changes nothing.  Nested structures expose the names of their leaves
/// directly, since the engine dispatches on the last segment of a target path
/// only.  [`FieldTable`](crate::record::FieldTable) is a destination whose
/// fields are registered at run time.
pub trait Enrichable {
    /// Whether the type declares a field named `name`.
    spec fn declares(&self, name: Seq<char>) -> bool;

    /// Whether the field `name` can take `value`.
    spec fn accepts(&self, name: Seq<char>, value: JsonView) -> bool;

    /// The JSON value last stored in field `name`, if any is known.
    spec fn field(&self, name: Seq<char>) -> Option<JsonView>;

    fn set_field(&mut self, name: &str, value: &JsonValue) -> (r: Result<(), EnrichmentError>)
        ensures
            r is Ok <==> old(self).declares(name@) && old(self).accepts(name@, value@),
            r is Err ==> r->Err_0.kind_of() == (if old(self).declares(name@) {
                ErrorKind::DataType
            } else {
                ErrorKind::Spec
            }),
            r is Err ==> mentions(r->Err_0.message_of(), name@),
            forall|n: Seq<char>| #[trigger] final(self).declares(n) == old(self).declares(n),
            forall|n: Seq<char>, v: JsonView| #[trigger]
                final(self).accepts(n, v) == old(self).accepts(n, v),
            forall|n: Seq<char>| n != name@ ==> #[trigger] final(self).field(n) == old(self).field(n),
            final(self).field(name@) == (if r is Ok {
                Some(value@)
            } else {
                old(self).field(name@)
            }),
    ;
}

/// What a rule reads from `doc`: one node, or an array of the nodes that its
/// paths name.
pub open spec fn source_spec(doc: JsonView, source: JsonPath) -> Result<JsonView, ErrorKind> {
    match source {
        JsonPath::Single(p) => extract_spec(doc, p@),
        JsonPath::Multiple(ps) => match extract_all(doc, paths_view(ps@)) {
            Ok(vs) => Ok(JsonView::Array(vs)),
            Err(k) => Err(k),
        },
    }
}

/// What a rule's transform makes of `v`; no transform leaves it as it is.
pub open spec fn transform_spec(t: Option<Transform>, v: JsonView) -> Result<JsonView, ErrorKind> {
    match t {
        None => Ok(v),
        Some(t) => match t.transform_type {
            TransformType::Split => match t.param_spec("delimiter"@) {
                Some(d) => split_spec(d, v),
                None => Err(ErrorKind::Transform),
            },
            TransformType::Template => match t.param_spec("template"@) {
                Some(tpl) => template_spec(tpl, v),
                None => Err(ErrorKind::Transform),
            },
            TransformType::ToUpperCase => upper_spec(v),
            TransformType::ToLowerCase => lower_spec(v),
            _ => Err(ErrorKind::Transform),
        },
    }
}

/// The (field name, value) pairs that a target receives from `v`, in order.
/// Several target paths take the elements of an array in turn, as far as both
/// reach (a value that is not an array is refused before, by [`deliver`]).
pub open spec fn assignments(target: Target, v: JsonView) -> Seq<(Seq<char>, JsonView)> {
    match target {
        Target::Single(p) => seq![(leaf_name(p@), v)],
        Target::Multiple(ps) => match v {
            JsonView::Array(items) => Seq::new(
                if ps@.len() < items.len() {
                    ps@.len()
                } else {
                    items.len()
                },
                |i: int| (leaf_name(ps@[i]@), items[i]),
            ),
            _ => Seq::empty(),
        },
    }
}

/// The value that a rule computes before it writes: read, then transform.
pub open spec fn rule_value(doc: JsonView, rule: MappingRule) -> Result<JsonView, ErrorKind> {
    match source_spec(doc, rule.source) {
        Ok(v) => transform_spec(rule.transform, v),
        Err(k) => Err(k),
    }
}

/// Handing `asg` to `d` in order: the fields written, and the first refusal.
pub open spec fn dispatch<T: Enrichable>(d: T, asg: Seq<(Seq<char>, JsonView)>) -> (
    Map<Seq<char>, JsonView>,
    Result<(), ErrorKind>,
)
    decreases asg.len(),
{
    if asg.len() == 0 {
        (Map::empty(), Ok(()))
    } else if !d.declares(asg[0].0) {
        (Map::empty(), Err(ErrorKind::Spec))
    } else if !d.accepts(asg[0].0, asg[0].1) {
        (Map::empty(), Err(ErrorKind::DataType))
    } else {
        let rest = dispatch(d, asg.drop_first());
        (map![asg[0].0 => asg[0].1].union_prefer_right(rest.0), rest.1)
    }
}

/// Whether `v` has the shape that `target` needs: several target paths need
/// an array.
pub open spec fn shape_fits(target: Target, v: JsonView) -> bool {
    target is Multiple ==> v is Array
}

/// Handing a rule's value `v` to the fields that `target` names: a `Transform`
/// error, writing nothing, where the value does not have the shape that the
/// target needs; else the assignments in order.
pub open spec fn deliver<T: Enrichable>(d: T, target: Target, v: JsonView) -> (
    Map<Seq<char>, JsonView>,
    Result<(), ErrorKind>,
) {
    if !shape_fits(target, v) {
        (Map::empty(), Err(ErrorKind::Transform))
    } else {
        dispatch(d, assignments(target, v))
    }
}

/// The field name that the first refusal in `asg` is about.
pub open spec fn dispatch_subject<T: Enrichable>(d: T, asg: Seq<(Seq<char>, JsonView)>) -> Seq<
    char,
>
    decreases asg.len(),
{
    if asg.len() == 0 {
        Seq::empty()
    } else if !d.declares(asg[0].0) || !d.accepts(asg[0].0, asg[0].1) {
        asg[0].0
    } else {
        dispatch_subject(d, asg.drop_first())
    }
}

/// What an error in reading a rule's source names: the path that failed.
pub open spec fn source_subject(doc: JsonView, source: JsonPath) -> Seq<char> {
    match source {
        JsonPath::Single(p) => p@,
        JsonPath::Multiple(ps) => failing_path(doc, paths_view(ps@)),
    }
}

/// What a failure of `rules` on `d` names, where it names something: the path
/// that could not be read, or the field that refused its value.
pub open spec fn run_subject<T: Enrichable>(d: T, doc: JsonView, rules: Seq<MappingRule>) -> Option<
    Seq<char>,
>
    decreases rules.len(),
{
    if rules.len() == 0 {
        None
    } else if source_spec(doc, rules[0].source) is Err {
        Some(source_subject(doc, rules[0].source))
    } else {
        match rule_value(doc, rules[0]) {
            Err(_) => None,
            Ok(v) => if !shape_fits(rules[0].target, v) {
                None
            } else if dispatch(d, assignments(rules[0].target, v)).1 is Err {
                Some(dispatch_subject(d, assignments(rules[0].target, v)))
            } else {
                run_subject(d, doc, rules.drop_first())
            },
        }
    }
}

/// The position, among `rules`, of the rule at which a run on `d` fails (the
/// number of rules where none fails).
pub open spec fn failing_rule<T: Enrichable>(d: T, doc: JsonView, rules: Seq<MappingRule>) -> nat
    decreases rules.len(),
{
    if rules.len() == 0 {
        0
    } else {
        match rule_value(doc, rules[0]) {
            Err(_) => 0,
            Ok(v) => if deliver(d, rules[0].target, v).1 is Err {
                0
            } else {
                1 + failing_rule(d, doc, rules.drop_first())
            },
        }
    }
}

/// Applying `rules` in order to `d` from `doc`: the fields written (the last
/// write to a name wins), and the first failure.  Nothing after a failure is
/// applied.
pub open spec fn run<T: Enrichable>(d: T, doc: JsonView, rules: Seq<MappingRule>) -> (
    Map<Seq<char>, JsonView>,
    Result<(), ErrorKind>,
)
    decreases rules.len(),
{
    if rules.len() == 0 {
        (Map::empty(), Ok(()))
    } else {
        match rule_value(doc, rules[0]) {
            Err(k) => (Map::empty(), Err(k)),
            Ok(v) => {
                let first = deliver(d, rules[0].target, v);
                if first.1 is Err {
                    first
                } else {
                    let rest = run(d, doc, rules.drop_first());
                    (first.0.union_prefer_right(rest.0), rest.1)
                }
            },
        }
    }
}

/// `after` is `before` with the fields in `w` written, declaring and
/// accepting the same.
pub open spec fn written<T: Enrichable>(before: T, after: T, w: Map<Seq<char>, JsonView>) -> bool {
    &&& forall|n: Seq<char>| #[trigger] after.declares(n) == before.declares(n)
    &&& forall|n: Seq<char>, v: JsonView| #[trigger] after.accepts(n, v) == before.accepts(n, v)
    &&& forall|n: Seq<char>| #[trigger]
        after.field(n) == if w.contains_key(n) {
            Some(w[n])
        } else {
            before.field(n)
        }
}

pub open spec fn unit_outcome(r: Result<(), EnrichmentError>) -> Result<(), ErrorKind> {
    match r {
        Ok(_) => Ok(()),
        Err(e) => Err(e.kind_of()),
    }
}

} // verus!

verus! {

/// Two destinations that declare and accept the same refuse and write alike.
pub proof fn lemma_dispatch_same<T: Enrichable>(a: T, b: T, asg: Seq<(Seq<char>, JsonView)>)
    requires
        forall|n: Seq<char>| #[trigger] a.declares(n) == b.declares(n),
        forall|n: Seq<char>, v: JsonView| #[trigger] a.accepts(n, v) == b.accepts(n, v),
    ensures
        dispatch(a, asg) == dispatch(b, asg),
        dispatch_subject(a, asg) == dispatch_subject(b, asg),
    decreases asg.len(),
{
    if asg.len() > 0 {
        lemma_dispatch_same(a, b, asg.drop_first());
    }
}

/// Writing `w1` and then `w2` is writing their union, the later winning.
pub proof fn lemma_written_compose<T: Enrichable>(
    a: T,
    b: T,
    c: T,
    w1: Map<Seq<char>, JsonView>,
    w2: Map<Seq<char>, JsonView>,
)
    requires
        written(a, b, w1),
        written(b, c, w2),
    ensures
        written(a, c, w1.union_prefer_right(w2)),
{
    assert forall|n: Seq<char>| #[trigger] c.field(n) == if w1.union_prefer_right(w2).contains_key(n) {
        Some(w1.union_prefer_right(w2)[n])
    } else {
        a.field(n)
    } by {
        assert(c.field(n) == if w2.contains_key(n) {
            Some(w2[n])
        } else {
            b.field(n)
        });
        assert(b.field(n) == if w1.contains_key(n) {
            Some(w1[n])
        } else {
            a.field(n)
        });
    }
    assert forall|n: Seq<char>| #[trigger] c.declares(n) == a.declares(n) by {
        assert(c.declares(n) == b.declares(n));
        assert(b.declares(n) == a.declares(n));
    }
    assert forall|n: Seq<char>, v: JsonView| #[trigger] c.accepts(n, v) == a.accepts(n, v) by {
        assert(c.accepts(n, v) == b.accepts(n, v));
        assert(b.accepts(n, v) == a.accepts(n, v));
    }
}

/// The value read by a rule's source paths.
fn read_source(data: &JsonValue, source: &JsonPath) -> (r: Result<JsonValue, EnrichmentError>)
    ensures
        value_outcome(r) == source_spec(data@, *source),
        r is Err ==> mentions(r->Err_0.message_of(), source_subject(data@, *source)),
{
    let ex = JsonPathExtractor::new();
    match source {
        JsonPath::Single(p) => ex.extract_value(data, p.as_str()),
        JsonPath::Multiple(ps) => match ex.extract_values(data, ps) {
            Ok(vs) => {
                let r = JsonValue::Array(vs);
                proof {
                    assert(r@->Array_0 =~= vs@.map_values(|v: JsonValue| v@));
                }
                Ok(r)
            },
            Err(e) => Err(e),
        },
    }
}

/// A rule's transform applied to `v`.
fn apply_transform(t: &Option<Transform>, v: JsonValue) -> (r: Result<JsonValue, EnrichmentError>)
    ensures
        value_outcome(r) == transform_spec(*t, v@),
{
    match t {
        None => Ok(v),
        Some(t) => match t.transform_type {
            TransformType::Split => match t.param("delimiter") {
                Some(d) => ArrayTransformer::new(d.clone()).transform(&v),
                None => Err(
                    EnrichmentError::TransformError(String::from_str("Missing delimiter parameter")),
                ),
            },
            TransformType::Template => match t.param("template") {
                Some(tpl) => TemplateTransformer::new(tpl.clone()).transform(&v),
                None => Err(
                    EnrichmentError::TransformError(String::from_str("Missing template parameter")),
                ),
            },
            TransformType::ToUpperCase => StringTransformer::new().transform(&v),
            TransformType::ToLowerCase => to_lower_case(&v),
            _ => Err(EnrichmentError::TransformError(String::from_str("Transformation not implemented"))),
        },
    }
}

/// The value that a rule writes: its source read, then transformed.
pub fn evaluate_rule(data: &JsonValue, rule: &MappingRule) -> (r: Result<JsonValue, EnrichmentError>)
    ensures
        value_outcome(r) == rule_value(data@, *rule),
        r is Err && source_spec(data@, rule.source) is Err ==> mentions(
            r->Err_0.message_of(),
            source_subject(data@, rule.source),
        ),
{
    match read_source(data, &rule.source) {
        Ok(v) => apply_transform(&rule.transform, v),
        Err(e) => Err(e),
    }
}

/// Hands `value` to the fields that `target` names.
pub fn dispatch_target<T: Enrichable>(dest: &mut T, target: &Target, value: &JsonValue) -> (r:
    Result<(), EnrichmentError>)
    ensures
        unit_outcome(r) == deliver(*old(dest), *target, value@).1,
        written(*old(dest), *final(dest), deliver(*old(dest), *target, value@).0),
        r is Err && shape_fits(*target, value@) ==> mentions(
            r->Err_0.message_of(),
            dispatch_subject(*old(dest), assignments(*target, value@)),
        ),
{
    let ghost d0 = *dest;
    let ghost asg = assignments(*target, value@);
    match target {
        Target::Single(p) => {
            let name = leaf_of(p.as_str());
            let r = dest.set_field(name.as_str(), value);
            proof {
                reveal_with_fuel(dispatch, 2);
                assert(asg == seq![(name@, value@)]);
                assert(asg.drop_first() =~= Seq::<(Seq<char>, JsonView)>::empty());
                assert(map![name@ => value@].union_prefer_right(Map::empty()) =~= map![
                    name@ => value@
                ]);
            }
            r
        },
        Target::Multiple(paths) => match value {
            JsonValue::Array(items) => {
                let m = if paths.len() < items.len() {
                    paths.len()
                } else {
                    items.len()
                };
                let ghost mut w: Map<Seq<char>, JsonView> = Map::empty();
                let mut i: usize = 0;
                proof {
                    assert(asg.skip(0) =~= asg);
                    assert(w.union_prefer_right(dispatch(d0, asg).0) =~= dispatch(d0, asg).0);
                }
                while i < m
                    invariant
                        d0 == *old(dest),
                        *value == JsonValue::Array(*items),
                        *target == Target::Multiple(*paths),
                        asg == assignments(*target, value@),
                        m == asg.len(),
                        m <= paths@.len(),
                        m <= items@.len(),
                        i <= m,
                        dispatch(d0, asg).1 == dispatch(d0, asg.skip(i as int)).1,
                        dispatch_subject(d0, asg) == dispatch_subject(d0, asg.skip(i as int)),
                        dispatch(d0, asg).0 == w.union_prefer_right(
                            dispatch(d0, asg.skip(i as int)).0,
                        ),
                        written(d0, *dest, w),
                    decreases m - i,
                {
                    let name = leaf_of(paths[i].as_str());
                    let ghost before = *dest;
                    assert(asg.skip(i as int)[0] == (name@, items@[i as int]@));
                    let r = dest.set_field(name.as_str(), &items[i]);
                    proof {
                        let rest = asg.skip(i as int);
                        assert(rest.drop_first() =~= asg.skip(i + 1));
                        if r is Ok {
                            let one = map![name@ => items@[i as int]@];
                            lemma_written_compose(d0, before, *dest, w, one);
                            let tail = dispatch(d0, asg.skip(i + 1)).0;
                            assert(w.union_prefer_right(one.union_prefer_right(tail))
                                =~= w.union_prefer_right(one).union_prefer_right(tail));
                            w = w.union_prefer_right(one);
                        } else {
                            lemma_written_compose(d0, before, *dest, w, Map::empty());
                            assert(w.union_prefer_right(Map::empty()) =~= w);
                        }
                    }
                    if r.is_err() {
                        return r;
                    }
                    i = i + 1;
                }
                proof {
                    assert(asg.skip(i as int).len() == 0);
                    assert(w.union_prefer_right(Map::empty()) =~= w);
                }
                Ok(())
            },
            _ => Err(
                EnrichmentError::TransformError(
                    String::from_str("Several target paths need an array value"),
                ),
            ),
        },
    }
}

/// Applies `rules` in order to `dest`, reading from `data`.
///
/// Each rule reads its source, applies its transform, and writes the fields
/// that its target names.  The first failure ends the call: the rules before
/// it have written what they wrote, and no rule after it runs.
pub fn enrich<T: Enrichable>(dest: &mut T, data: &JsonValue, rules: &Vec<MappingRule>) -> (r:
    Result<(), EnrichmentError>)
    ensures
        unit_outcome(r) == run(*old(dest), data@, rules@).1,
        written(*old(dest), *final(dest), run(*old(dest), data@, rules@).0),
        r is Err && run_subject(*old(dest), data@, rules@) is Some ==> mentions(
            r->Err_0.message_of(),
            run_subject(*old(dest), data@, rules@)->0,
        ),
        r is Err ==> mentions(
            r->Err_0.message_of(),
            decimal_text(failing_rule(*old(dest), data@, rules@)),
        ),
{
    let ghost d0 = *dest;
    let ghost all = run(d0, data@, rules@);
    let ghost mut w: Map<Seq<char>, JsonView> = Map::empty();
    let mut i: usize = 0;
    proof {
        assert(rules@.skip(0) =~= rules@);
        assert(w.union_prefer_right(all.0) =~= all.0);
    }
    while i < rules.len()
        invariant
            d0 == *old(dest),
            all == run(d0, data@, rules@),
            i <= rules@.len(),
            all.1 == run(d0, data@, rules@.skip(i as int)).1,
            run_subject(d0, data@, rules@) == run_subject(d0, data@, rules@.skip(i as int)),
            failing_rule(d0, data@, rules@) == i + failing_rule(d0, data@, rules@.skip(i as int)),
            all.0 == w.union_prefer_right(run(d0, data@, rules@.skip(i as int)).0),
            written(d0, *dest, w),
        decreases rules@.len() - i,
    {
        let ghost rest = rules@.skip(i as int);
        assert(rest[0] == rules@[i as int]);
        assert(rest.drop_first() =~= rules@.skip(i + 1));
        let rule = &rules[i];
        match evaluate_rule(data, rule) {
            Err(e) => {
                proof {
                    assert(w.union_prefer_right(Map::empty()) =~= w);
                }
                return Err(e.at_rule(i));
            },
            Ok(v) => {
                let ghost before = *dest;
                let r = dispatch_target(dest, &rule.target, &v);
                proof {
                    let asg = assignments(rule.target, v@);
                    lemma_dispatch_same(before, d0, asg);
                    let first = deliver(d0, rule.target, v@);
                    lemma_written_compose(d0, before, *dest, w, first.0);
                    if r is Ok {
                        let tail = run(d0, data@, rules@.skip(i + 1)).0;
                        assert(w.union_prefer_right(first.0.union_prefer_right(tail))
                            =~= w.union_prefer_right(first.0).union_prefer_right(tail));
                    }
                    w = w.union_prefer_right(first.0);
                }
                match r {
                    Err(e) => {
                        return Err(e.at_rule(i));
                    },
                    Ok(()) => {},
                }
            },
        }
        i = i + 1;
    }
    proof {
        assert(w.union_prefer_right(Map::empty()) =~= w);
    }
    Ok(())
}

} // verus!
