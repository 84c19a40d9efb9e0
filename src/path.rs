use vstd::prelude::*;

verus! {

/// One step of a path: a member name, or an array position.
#[derive(Debug)]
pub enum Segment {
    Key(String),
    Index(usize),
}

/// The mathematical model of a [`Segment`].
pub enum SegmentView {
    Key(Seq<char>),
    Index(nat),
}

impl View for Segment {
    type V = SegmentView;

    open spec fn view(&self) -> SegmentView {
        match self {
            Segment::Key(k) => SegmentView::Key(k@),
            Segment::Index(n) => SegmentView::Index(*n as nat),
        }
    }
}

pub open spec fn segments_view(segs: Seq<Segment>) -> Seq<SegmentView> {
    segs.map_values(|s: Segment| s@)
}

pub open spec fn is_digit(c: char) -> bool {
    '0' <= c && c <= '9'
}

/// A character that ends a member name.
pub open spec fn ends_name(c: char) -> bool {
    c == '.' || c == '['
}

/// How many characters of a member name start at `i`.
pub open spec fn name_len(s: Seq<char>, i: int) -> nat
    decreases s.len() - i,
{
    if i < 0 || i >= s.len() || ends_name(s[i]) {
        0
    } else {
        1 + name_len(s, i + 1)
    }
}

/// How many decimal digits start at `i`.
pub open spec fn digits_len(s: Seq<char>, i: int) -> nat
    decreases s.len() - i,
{
    if i < 0 || i >= s.len() || !is_digit(s[i]) {
        0
    } else {
        1 + digits_len(s, i + 1)
    }
}

pub open spec fn digit_value(c: char) -> nat {
    (c as int - '0' as int) as nat
}

/// The number that a run of decimal digits writes.
pub open spec fn decimal(d: Seq<char>) -> nat
    decreases d.len(),
{
    if d.len() == 0 {
        0
    } else {
        decimal(d.drop_last()) * 10 + digit_value(d.last())
    }
}

/// `Some(pre + rest)` where `rest` was parsed, `None` where parsing failed.
pub open spec fn prefixed<A>(pre: Seq<A>, rest: Option<Seq<A>>) -> Option<Seq<A>> {
    match rest {
        Some(r) => Some(pre + r),
        None => None,
    }
}

/// The segments written from position `i` of `s` to its end: each is `.name`
/// (a name runs up to the next `.` or `[`, and is not empty) or `[digits]`
/// (a number that fits a `usize`).  `None` where `s` breaks that grammar.
pub open spec fn parse_from(s: Seq<char>, i: int) -> Option<Seq<SegmentView>>
    decreases s.len() - i,
{
    if i < 0 || i >= s.len() {
        Some(Seq::empty())
    } else if s[i] == '.' {
        let e = i + 1 + name_len(s, i + 1);
        if e == i + 1 {
            None
        } else {
            proof {
                lemma_name_len_bound(s, i + 1);
            }
            prefixed(seq![SegmentView::Key(s.subrange(i + 1, e))], parse_from(s, e))
        }
    } else if s[i] == '[' {
        let e = i + 1 + digits_len(s, i + 1);
        if e == i + 1 || e >= s.len() || s[e] != ']' || decimal(s.subrange(i + 1, e))
            > usize::MAX {
            None
        } else {
            prefixed(
                seq![SegmentView::Index(decimal(s.subrange(i + 1, e)))],
                parse_from(s, e + 1),
            )
        }
    } else {
        None
    }
}

/// The segments of a path: `$` followed by what [`parse_from`] accepts.
pub open spec fn parse_path(s: Seq<char>) -> Option<Seq<SegmentView>> {
    if s.len() > 0 && s[0] == '$' {
        parse_from(s, 1)
    } else {
        None
    }
}

pub proof fn lemma_name_len_bound(s: Seq<char>, i: int)
    requires
        0 <= i <= s.len(),
    ensures
        i + name_len(s, i) <= s.len(),
    decreases s.len() - i,
{
    if i < s.len() && !ends_name(s[i]) {
        lemma_name_len_bound(s, i + 1);
    }
}

pub proof fn lemma_digits_len_bound(s: Seq<char>, i: int)
    requires
        0 <= i <= s.len(),
    ensures
        i + digits_len(s, i) <= s.len(),
        forall|k: int| i <= k < i + digits_len(s, i) ==> is_digit(#[trigger] s[k]),
    decreases s.len() - i,
{
    if i < s.len() && is_digit(s[i]) {
        lemma_digits_len_bound(s, i + 1);
    }
}

/// A longer run of digits writes a number at least as large.
pub proof fn lemma_decimal_grows(s: Seq<char>, a: int, j: int, e: int)
    requires
        0 <= a <= j <= e <= s.len(),
    ensures
        decimal(s.subrange(a, j)) <= decimal(s.subrange(a, e)),
    decreases e - j,
{
    if j < e {
        lemma_decimal_grows(s, a, j, e - 1);
        assert(s.subrange(a, e).drop_last() =~= s.subrange(a, e - 1));
    }
}

/// Splits a path into its segments, or `None` where it is malformed.
pub fn parse_segments(path: &str) -> (r: Option<Vec<Segment>>)
    ensures
        match r {
            Some(segs) => parse_path(path@) == Some(segments_view(segs@)),
            None => parse_path(path@) is None,
        },
{
    let ghost s = path@;
    let n = path.unicode_len();
    if n == 0 || path.get_char(0) != '$' {
        return None;
    }
    let mut segs: Vec<Segment> = Vec::new();
    let mut i: usize = 1;
    while i < n
        invariant
            n == s.len(),
            s == path@,
            1 <= i <= n,
            s[0] == '$',
            parse_path(s) == prefixed(segments_view(segs@), parse_from(s, i as int)),
        decreases n - i,
    {
        let c = path.get_char(i);
        if c == '.' {
            let mut e: usize = i + 1;
            while e < n && !(path.get_char(e) == '.' || path.get_char(e) == '[')
                invariant
                    n == s.len(),
                    s == path@,
                    i + 1 <= e <= n,
                    (e - (i + 1)) + name_len(s, e as int) == name_len(s, i + 1),
                decreases n - e,
            {
                e = e + 1;
            }
            if e == i + 1 {
                return None;
            }
            let key = path.substring_char(i + 1, e).to_owned();
            let ghost old_segs = segs@;
            segs.push(Segment::Key(key));
            proof {
                let k = seq![SegmentView::Key(s.subrange(i + 1, e as int))];
                assert(segments_view(segs@) =~= segments_view(old_segs) + k);
                match parse_from(s, e as int) {
                    Some(r) => {
                        assert(segments_view(segs@) + r =~= segments_view(old_segs) + (k + r));
                    },
                    None => {},
                }
            }
            i = e;
        } else if c == '[' {
            let mut e: usize = i + 1;
            let mut val: usize = 0;
            proof {
                lemma_digits_len_bound(s, i + 1);
                assert(s.subrange(i + 1, i + 1) =~= Seq::<char>::empty());
            }
            while e < n && '0' <= path.get_char(e) && path.get_char(e) <= '9'
                invariant
                    n == s.len(),
                    s == path@,
                    i + 1 <= e <= n,
                    s[i as int] == '[',
                    parse_path(s) == prefixed(segments_view(segs@), parse_from(s, i as int)),
                    (e - (i + 1)) + digits_len(s, e as int) == digits_len(s, i + 1),
                    val == decimal(s.subrange(i + 1, e as int)),
                decreases n - e,
            {
                let d = (path.get_char(e) as u32 - '0' as u32) as usize;
                proof {
                    assert(s.subrange(i + 1, e + 1).drop_last() =~= s.subrange(i + 1, e as int));
                    lemma_digits_len_bound(s, i + 1);
                    lemma_digits_len_bound(s, e + 1);
                    lemma_decimal_grows(s, i + 1, e + 1, i + 1 + digits_len(s, i + 1));
                    assert(digit_value(s[e as int]) == d);
                    assert(decimal(s.subrange(i + 1, e + 1)) == val * 10 + d);
                    assert(s[i as int] == '[');
                }
                match val.checked_mul(10) {
                    Some(m) => match m.checked_add(d) {
                        Some(v) => {
                            val = v;
                        },
                        None => {
                            proof {
                                assert(decimal(s.subrange(i + 1, i + 1 + digits_len(s, i + 1)))
                                    > usize::MAX);
                            }
                            return None;
                        },
                    },
                    None => {
                        proof {
                            assert(decimal(s.subrange(i + 1, i + 1 + digits_len(s, i + 1)))
                                > usize::MAX);
                        }
                        return None;
                    },
                }
                e = e + 1;
            }
            if e == i + 1 || e >= n || path.get_char(e) != ']' {
                return None;
            }
            let ghost old_segs = segs@;
            segs.push(Segment::Index(val));
            proof {
                let k = seq![SegmentView::Index(decimal(s.subrange(i + 1, e as int)))];
                assert(segments_view(segs@) =~= segments_view(old_segs) + k);
                match parse_from(s, e + 1) {
                    Some(r) => {
                        assert(segments_view(segs@) + r =~= segments_view(old_segs) + (k + r));
                    },
                    None => {},
                }
            }
            i = e + 1;
        } else {
            return None;
        }
    }
    proof {
        assert(segments_view(segs@) + Seq::<SegmentView>::empty() =~= segments_view(segs@));
    }
    Some(segs)
}

} // verus!
