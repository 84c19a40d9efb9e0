use vstd::prelude::*;
use crate::error::{EnrichmentError, ErrorKind};
use crate::json::{JsonValue, JsonView};
use crate::jsonpath::value_outcome;
use crate::transform::Transformer;

verus! {

pub open spec fn digit_char(d: nat) -> char {
    seq!['0', '1', '2', '3', '4', '5', '6', '7', '8', '9'][d as int]
}

/// The decimal digits of `n`, without sign or padding.
pub open spec fn decimal_text(n: nat) -> Seq<char>
    decreases n,
{
    if n < 10 {
        seq![digit_char(n)]
    } else {
        decimal_text(n / 10).push(digit_char(n % 10))
    }
}

/// The placeholder for position `i`: `{i}`.
pub open spec fn placeholder_text(i: nat) -> Seq<char> {
    seq!['{'] + decimal_text(i) + seq!['}']
}

/// The digit `d` as a one-character string.
fn digit_str(d: usize) -> (r: &'static str)
    requires
        d < 10,
    ensures
        r@ == seq![digit_char(d as nat)],
{
    proof {
        reveal_strlit("0");
        reveal_strlit("1");
        reveal_strlit("2");
        reveal_strlit("3");
        reveal_strlit("4");
        reveal_strlit("5");
        reveal_strlit("6");
        reveal_strlit("7");
        reveal_strlit("8");
        reveal_strlit("9");
    }
    match d {
        0 => "0",
        1 => "1",
        2 => "2",
        3 => "3",
        4 => "4",
        5 => "5",
        6 => "6",
        7 => "7",
        8 => "8",
        _ => "9",
    }
}

/// Appends the decimal digits of `n` to `out`.
fn write_decimal(n: usize, out: &mut String)
    ensures
        final(out)@ == old(out)@ + decimal_text(n as nat),
    decreases n,
{
    if n >= 10 {
        write_decimal(n / 10, out);
    }
    out.append(digit_str(n % 10));
    proof {
        if n >= 10 {
            assert(old(out)@ + decimal_text((n / 10) as nat) + seq![digit_char((n % 10) as nat)]
                =~= old(out)@ + decimal_text(n as nat));
        } else {
            assert(old(out)@ + seq![digit_char((n % 10) as nat)] =~= old(out)@ + decimal_text(
                n as nat,
            ));
        }
    }
}

/// The decimal digits of `i`, without sign or padding.
pub(crate) fn decimal_string(i: usize) -> (r: String)
    ensures
        r@ == decimal_text(i as nat),
{
    let mut r = String::new();
    write_decimal(i, &mut r);
    proof {
        assert(Seq::<char>::empty() + decimal_text(i as nat) =~= decimal_text(i as nat));
    }
    r
}

/// The placeholder for position `i` in a template: `{i}`.
pub fn placeholder(i: usize) -> (r: String)
    ensures
        r@ == placeholder_text(i as nat),
{
    let mut r = String::from_str("{");
    let digits = decimal_string(i);
    r.append(digits.as_str());
    r.append("}");
    proof {
        reveal_strlit("{");
        reveal_strlit("}");
        assert(r@ =~= placeholder_text(i as nat));
    }
    r
}

/// `s` with each occurrence of a non-empty `from`, the leftmost first and
/// none overlapping, replaced by `to`.
pub open spec fn replace_each(s: Seq<char>, from: Seq<char>, to: Seq<char>) -> Seq<char>
    decreases s.len(),
{
    if from.len() == 0 || s.len() == 0 {
        s
    } else if from.len() <= s.len() && s.subrange(0, from.len() as int) == from {
        to + replace_each(s.subrange(from.len() as int, s.len() as int), from, to)
    } else {
        seq![s[0]] + replace_each(s.drop_first(), from, to)
    }
}

/// Relies on `str::replace`: for a non-empty pattern it replaces the leftmost
/// non-overlapping occurrences.
#[verifier::external_body]
pub(crate) fn replace_all(s: &str, from: &str, to: &str) -> (r: String)
    requires
        from@.len() > 0,
    ensures
        r@ == replace_each(s@, from@, to@),
{
    s.replace(from, to)
}

/// `t` with `{0}`, `{1}`, ... replaced in turn by the strings of `vals`.
pub open spec fn fill(t: Seq<char>, vals: Seq<Seq<char>>) -> Seq<char>
    decreases vals.len(),
{
    if vals.len() == 0 {
        t
    } else {
        replace_each(
            fill(t, vals.drop_last()),
            placeholder_text((vals.len() - 1) as nat),
            vals.last(),
        )
    }
}

/// Filling template `t` from an array of strings; any other value, or an
/// array that holds something else than a string, is refused.
pub open spec fn template_spec(t: Seq<char>, v: JsonView) -> Result<JsonView, ErrorKind> {
    match v {
        JsonView::Array(items) => if forall|i: int| 0 <= i < items.len() ==> items[i] is Str {
            Ok(JsonView::Str(fill(t, items.map_values(|x: JsonView| x->Str_0))))
        } else {
            Err(ErrorKind::Transform)
        },
        _ => Err(ErrorKind::Transform),
    }
}

/// Fills a template from an array of strings.
pub struct TemplateTransformer {
    template: String,
}

impl TemplateTransformer {
    pub fn new(template: String) -> (r: Self)
        ensures
            r.template_spec() == template@,
    {
        Self { template }
    }

    pub closed spec fn template_spec(&self) -> Seq<char> {
        self.template@
    }
}

impl Transformer for TemplateTransformer {
    open spec fn transform_spec(&self, v: JsonView) -> Result<JsonView, ErrorKind> {
        template_spec(self.template_spec(), v)
    }

    fn transform(&self, value: &JsonValue) -> (r: Result<JsonValue, EnrichmentError>) {
        match value {
            JsonValue::Array(values) => {
                let ghost items = value@->Array_0;
                let mut result = self.template.clone();
                let mut i: usize = 0;
                proof {
                    assert(items.map_values(|x: JsonView| x->Str_0).subrange(0, 0) =~= Seq::<
                        Seq<char>,
                    >::empty());
                }
                while i < values.len()
                    invariant
                        *value == JsonValue::Array(*values),
                        items == value@->Array_0,
                        items.len() == values@.len(),
                        i <= values@.len(),
                        forall|j: int| 0 <= j < i ==> items[j] is Str,
                        result@ == fill(
                            self.template@,
                            items.map_values(|x: JsonView| x->Str_0).subrange(0, i as int),
                        ),
                    decreases values@.len() - i,
                {
                    assert(items[i as int] == values@[i as int]@);
                    match &values[i] {
                        JsonValue::String(s) => {
                            let ph = placeholder(i);
                            assert(ph@.len() > 0);
                            result = replace_all(result.as_str(), ph.as_str(), s.as_str());
                            proof {
                                let strs = items.map_values(|x: JsonView| x->Str_0);
                                assert(strs.subrange(0, i + 1).drop_last() =~= strs.subrange(
                                    0,
                                    i as int,
                                ));
                            }
                        },
                        _ => {
                            return Err(
                                EnrichmentError::TransformError(
                                    String::from_str("Array value is not a string"),
                                ),
                            );
                        },
                    }
                    i = i + 1;
                }
                proof {
                    let strs = items.map_values(|x: JsonView| x->Str_0);
                    assert(strs.subrange(0, i as int) =~= strs);
                }
                Ok(JsonValue::String(result))
            },
            _ => Err(EnrichmentError::TransformError(String::from_str("Value is not an array"))),
        }
    }
}

} // verus!
