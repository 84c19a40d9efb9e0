use vstd::prelude::*;
use crate::enrichable::{
    Enrichable,
    deliver,
    dispatch,
    lemma_dispatch_same,
    rule_value,
    run,
    run_subject,
    shape_fits,
    written,
};
use crate::error::ErrorKind;
use crate::json::JsonView;
use crate::jsonpath::{extract_spec, navigate};
use crate::path::parse_path;
use crate::types::{MappingRule, leaf_name};

verus! {

/// Running `pre` and then `post` is running `pre + post`: the writes add up,
/// and a failure in `pre` ends the run there.
pub proof fn lemma_run_concat<T: Enrichable>(
    d: T,
    doc: JsonView,
    pre: Seq<MappingRule>,
    post: Seq<MappingRule>,
)
    ensures
        run(d, doc, pre + post) == (if run(d, doc, pre).1 is Ok {
            (run(d, doc, pre).0.union_prefer_right(run(d, doc, post).0), run(d, doc, post).1)
        } else {
            run(d, doc, pre)
        }),
        run(d, doc, pre).1 is Ok ==> run_subject(d, doc, pre + post) == run_subject(d, doc, post),
    decreases pre.len(),
{
    if pre.len() == 0 {
        assert(pre + post =~= post);
        assert(Map::<Seq<char>, JsonView>::empty().union_prefer_right(run(d, doc, post).0)
            =~= run(d, doc, post).0);
    } else {
        assert((pre + post)[0] == pre[0]);
        assert((pre + post).drop_first() =~= pre.drop_first() + post);
        lemma_run_concat(d, doc, pre.drop_first(), post);
        match rule_value(doc, pre[0]) {
            Err(_) => {},
            Ok(v) => {
                let first = deliver(d, pre[0].target, v);
                if first.1 is Ok {
                    let a = run(d, doc, pre.drop_first());
                    if a.1 is Ok {
                        let b = run(d, doc, post);
                        assert(first.0.union_prefer_right(a.0.union_prefer_right(b.0))
                            =~= first.0.union_prefer_right(a.0).union_prefer_right(b.0));
                    }
                }
            },
        }
    }
}

/// Two destinations that declare and accept the same meet the same outcome
/// and the same writes under any rules.
pub proof fn lemma_run_same<T: Enrichable>(a: T, b: T, doc: JsonView, rules: Seq<MappingRule>)
    requires
        forall|n: Seq<char>| #[trigger] a.declares(n) == b.declares(n),
        forall|n: Seq<char>, v: JsonView| #[trigger] a.accepts(n, v) == b.accepts(n, v),
    ensures
        run(a, doc, rules) == run(b, doc, rules),
    decreases rules.len(),
{
    if rules.len() > 0 {
        lemma_run_same(a, b, doc, rules.drop_first());
        match rule_value(doc, rules[0]) {
            Err(_) => {},
            Ok(v) => {
                lemma_dispatch_same(a, b, crate::enrichable::assignments(rules[0].target, v));
            },
        }
    }
}

/// A rule that copies the node at one path into one field, with no
/// transform, leaves in the field named by the last segment of the target
/// path exactly the node at the source path, once `enrich` has succeeded.
pub proof fn law_copy_rule<T: Enrichable>(before: T, after: T, doc: JsonView, rule: MappingRule)
    requires
        rule.source is Single,
        rule.target is Single,
        rule.transform is None,
        run(before, doc, seq![rule]).1 is Ok,
        written(before, after, run(before, doc, seq![rule]).0),
    ensures
        extract_spec(doc, rule.source->Single_0@) is Ok,
        after.field(leaf_name(rule.target->Single_0@)) == Some(
            extract_spec(doc, rule.source->Single_0@)->Ok_0,
        ),
{
    reveal_with_fuel(dispatch, 2);
    let rules = seq![rule];
    assert(rules.drop_first() =~= Seq::<MappingRule>::empty());
    let name = leaf_name(rule.target->Single_0@);
    let v = extract_spec(doc, rule.source->Single_0@)->Ok_0;
    assert(crate::enrichable::assignments(rule.target, v).drop_first() =~= Seq::<
        (Seq<char>, JsonView),
    >::empty());
    assert(rule_value(doc, rule) == Ok::<JsonView, ErrorKind>(v));
    assert(rules[0] == rule);
    let first = dispatch(before, crate::enrichable::assignments(rule.target, v));
    assert(first.0 =~= map![name => v]);
    assert(run(before, doc, rules.drop_first()) == (
        Map::<Seq<char>, JsonView>::empty(),
        Ok::<(), ErrorKind>(()),
    ));
    assert(first.0.union_prefer_right(Map::empty()) =~= first.0);
    let w = run(before, doc, rules).0;
    assert(w =~= map![name => v]);
    assert(after.field(name) == if w.contains_key(name) {
        Some(w[name])
    } else {
        before.field(name)
    });
}

/// A rule whose single source path is well formed but names no node fails
/// with a `JsonPath` error: the rules before it keep their writes, and no
/// rule after it runs.
pub proof fn law_missing_path_stops<T: Enrichable>(
    d: T,
    doc: JsonView,
    pre: Seq<MappingRule>,
    rule: MappingRule,
    post: Seq<MappingRule>,
)
    requires
        run(d, doc, pre).1 is Ok,
        rule.source is Single,
        parse_path(rule.source->Single_0@) is Some,
        navigate(doc, parse_path(rule.source->Single_0@)->0) is None,
    ensures
        run(d, doc, pre + (seq![rule] + post)) == (run(d, doc, pre).0, Err::<(), ErrorKind>(
            ErrorKind::JsonPath,
        )),
        run_subject(d, doc, pre + (seq![rule] + post)) == Some(rule.source->Single_0@),
{
    lemma_run_concat(d, doc, pre, seq![rule] + post);
    let rest = seq![rule] + post;
    assert(rest[0] == rule);
    assert(run(d, doc, rest).0 =~= Map::empty());
    assert(run(d, doc, pre).0.union_prefer_right(Map::empty()) =~= run(d, doc, pre).0);
}

/// A rule whose value reaches a single target that names an undeclared field
/// fails with a `Spec` error: the rules before it keep their writes, and no
/// rule after it runs.
pub proof fn law_unknown_field_stops<T: Enrichable>(
    d: T,
    doc: JsonView,
    pre: Seq<MappingRule>,
    rule: MappingRule,
    post: Seq<MappingRule>,
)
    requires
        run(d, doc, pre).1 is Ok,
        rule_value(doc, rule) is Ok,
        rule.target is Single,
        !d.declares(leaf_name(rule.target->Single_0@)),
    ensures
        run(d, doc, pre + (seq![rule] + post)) == (run(d, doc, pre).0, Err::<(), ErrorKind>(
            ErrorKind::Spec,
        )),
        run_subject(d, doc, pre + (seq![rule] + post)) == Some(leaf_name(rule.target->Single_0@)),
{
    lemma_run_concat(d, doc, pre, seq![rule] + post);
    let rest = seq![rule] + post;
    assert(rest[0] == rule);
    assert(run(d, doc, rest).0 =~= Map::empty());
    assert(run(d, doc, pre).0.union_prefer_right(Map::empty()) =~= run(d, doc, pre).0);
}

/// A rule with several target paths whose value is not an array fails with a
/// `Transform` error: the rules before it keep their writes, it writes
/// nothing, and no rule after it runs.
pub proof fn law_several_targets_need_an_array<T: Enrichable>(
    d: T,
    doc: JsonView,
    pre: Seq<MappingRule>,
    rule: MappingRule,
    post: Seq<MappingRule>,
)
    requires
        run(d, doc, pre).1 is Ok,
        rule_value(doc, rule) is Ok,
        rule.target is Multiple,
        !(rule_value(doc, rule)->Ok_0 is Array),
    ensures
        run(d, doc, pre + (seq![rule] + post)) == (run(d, doc, pre).0, Err::<(), ErrorKind>(
            ErrorKind::Transform,
        )),
{
    lemma_run_concat(d, doc, pre, seq![rule] + post);
    let rest = seq![rule] + post;
    assert(rest[0] == rule);
    assert(!shape_fits(rule.target, rule_value(doc, rule)->Ok_0));
    assert(run(d, doc, rest).0 =~= Map::empty());
    assert(run(d, doc, pre).0.union_prefer_right(Map::empty()) =~= run(d, doc, pre).0);
}

/// Enriching two equal fresh destinations with the same rules from the same
/// document gives the same outcome and leaves the same fields.
pub proof fn law_idempotent<T: Enrichable>(
    a0: T,
    a1: T,
    b0: T,
    b1: T,
    doc: JsonView,
    rules: Seq<MappingRule>,
)
    requires
        forall|n: Seq<char>| #[trigger] a0.declares(n) == b0.declares(n),
        forall|n: Seq<char>, v: JsonView| #[trigger] a0.accepts(n, v) == b0.accepts(n, v),
        forall|n: Seq<char>| #[trigger] a0.field(n) == b0.field(n),
        written(a0, a1, run(a0, doc, rules).0),
        written(b0, b1, run(b0, doc, rules).0),
    ensures
        run(a0, doc, rules).1 == run(b0, doc, rules).1,
        forall|n: Seq<char>| #[trigger] a1.field(n) == b1.field(n),
{
    lemma_run_same(a0, b0, doc, rules);
    let w = run(a0, doc, rules).0;
    assert forall|n: Seq<char>| #[trigger] a1.field(n) == b1.field(n) by {
        assert(a1.field(n) == if w.contains_key(n) {
            Some(w[n])
        } else {
            a0.field(n)
        });
        assert(b1.field(n) == if w.contains_key(n) {
            Some(w[n])
        } else {
            b0.field(n)
        });
    }
}

} // verus!
