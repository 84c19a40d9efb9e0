use vstd::prelude::*;
use crate::json::JsonValue;

verus! {

/// Where a rule reads: one path, or several whose values form an array.
#[derive(Debug)]
pub enum JsonPath {
    Single(String),
    Multiple(Vec<String>),
}

/// Where a rule writes: one field, or several that take the elements of an
/// array in order.
#[derive(Debug)]
pub enum Target {
    Single(String),
    Multiple(Vec<String>),
}

/// The transforms that a rule can name.  Only `Split`, `Template`,
/// `ToUpperCase` and `ToLowerCase` are implemented; the others fail.
#[derive(Debug, Clone, Copy, PartialEq, Eq, Structural)]
pub enum TransformType {
    ToString,
    ToUpperCase,
    ToLowerCase,
    Split,
    Concat,
    Replace,
    Substring,
    Template,
}

/// A transform and its string parameters.  In a well-formed transform (see
/// `wf`) no two parameters share a key; a lookup finds the first pair with a
/// key.
#[derive(Debug)]
pub struct Transform {
    pub transform_type: TransformType,
    pub params: Option<Vec<(String, String)>>,
}

/// One mapping rule.  `condition` is kept for documents that carry one, and
/// is never evaluated.
#[derive(Debug)]
pub struct MappingRule {
    pub source: JsonPath,
    pub target: Target,
    pub transform: Option<Transform>,
    pub condition: Option<JsonValue>,
}

impl MappingRule {
    /// The rule's transform, if any, has distinct parameter keys.
    pub open spec fn wf(&self) -> bool {
        match self.transform {
            Some(t) => t.wf(),
            None => true,
        }
    }
}

/// The model of a list of path strings.
pub open spec fn paths_view(ps: Seq<String>) -> Seq<Seq<char>> {
    ps.map_values(|p: String| p@)
}

/// The model of a parameter list.
pub open spec fn params_view(ps: Seq<(String, String)>) -> Seq<(Seq<char>, Seq<char>)> {
    ps.map_values(|p: (String, String)| (p.0@, p.1@))
}

/// Whether no two pairs of `m` have the same key.
pub open spec fn distinct_keys<V>(m: Seq<(Seq<char>, V)>) -> bool {
    forall|a: int, b: int| 0 <= a < b < m.len() ==> #[trigger] m[a].0 != #[trigger] m[b].0
}

/// The value of the first pair in `ps` whose key is `key`.
pub open spec fn lookup(ps: Seq<(Seq<char>, Seq<char>)>, key: Seq<char>) -> Option<Seq<char>>
    decreases ps.len(),
{
    if ps.len() == 0 {
        None
    } else if ps[0].0 == key {
        Some(ps[0].1)
    } else {
        lookup(ps.drop_first(), key)
    }
}

impl Transform {
    /// Parameter keys are distinct.
    pub open spec fn wf(&self) -> bool {
        match self.params {
            Some(ps) => distinct_keys(params_view(ps@)),
            None => true,
        }
    }

    /// The parameter named `key`, if the transform has parameters and one of
    /// them has that key.
    pub open spec fn param_spec(&self, key: Seq<char>) -> Option<Seq<char>> {
        match self.params {
            Some(ps) => lookup(params_view(ps@), key),
            None => None,
        }
    }

    /// The parameter named `key`.
    pub fn param(&self, key: &str) -> (r: Option<&String>)
        ensures
            match r {
                Some(v) => self.param_spec(key@) == Some(v@),
                None => self.param_spec(key@) is None,
            },
    {
        match &self.params {
            None => None,
            Some(ps) => {
                let ghost pv = params_view(ps@);
                let k = key.to_owned();
                let mut i: usize = 0;
                proof {
                    assert(pv.skip(0) =~= pv);
                }
                while i < ps.len()
                    invariant
                        self.params == Some(*ps),
                        pv == params_view(ps@),
                        k@ == key@,
                        i <= ps@.len(),
                        lookup(pv, key@) == lookup(pv.skip(i as int), key@),
                    decreases ps@.len() - i,
                {
                    assert(pv.skip(i as int)[0] == pv[i as int]);
                    if ps[i].0 == k {
                        return Some(&ps[i].1);
                    }
                    assert(pv.skip(i as int).drop_first() =~= pv.skip(i + 1));
                    i = i + 1;
                }
                None
            },
        }
    }
}

/// Where the last dot-separated segment of `p` starts, looking back from `j`.
pub open spec fn segment_start(p: Seq<char>, j: int) -> int
    decreases j,
{
    if j <= 0 {
        0
    } else if p[j - 1] == '.' {
        j
    } else {
        segment_start(p, j - 1)
    }
}

/// The first position from `k` on that is not a `$`.
pub open spec fn skip_dollars(p: Seq<char>, k: int) -> int
    decreases p.len() - k,
{
    if 0 <= k < p.len() && p[k] == '$' {
        skip_dollars(p, k + 1)
    } else {
        k
    }
}

/// The field name that a target path resolves to: its last dot-separated
/// segment, without leading `$` signs.
pub open spec fn leaf_name(p: Seq<char>) -> Seq<char> {
    p.subrange(skip_dollars(p, segment_start(p, p.len() as int)), p.len() as int)
}

/// The field name that a target path resolves to.
pub fn leaf_of(path: &str) -> (r: String)
    ensures
        r@ == leaf_name(path@),
{
    let ghost s = path@;
    let n = path.unicode_len();
    let mut j: usize = n;
    while j > 0 && path.get_char(j - 1) != '.'
        invariant
            s == path@,
            n == s.len(),
            j <= n,
            segment_start(s, n as int) == segment_start(s, j as int),
        decreases j,
    {
        j = j - 1;
    }
    let mut k: usize = j;
    while k < n && path.get_char(k) == '$'
        invariant
            s == path@,
            n == s.len(),
            j <= k <= n,
            segment_start(s, n as int) == j,
            skip_dollars(s, j as int) == skip_dollars(s, k as int),
        decreases n - k,
    {
        k = k + 1;
    }
    path.substring_char(k, n).to_owned()
}

} // verus!
