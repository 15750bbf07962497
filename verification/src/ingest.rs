//! Reading the analyser's output, one line at a time.
//!
//! A line is a sentinel that ends the record of a class, a list of types of
//! a class, or the metrics of a class. The two words that tag a line are
//! skipped. In a metrics line every token that is a decimal numeral is the
//! value of the next metric of the record; any other token names the class.

use crate::fixed::Fixed;
use crate::numeral::{
    chars_of, decimal_value, is_decimal, is_non_finite, non_finite_chars,
};
use vstd::prelude::*;

verus! {

/// Whether `c` is white space.
pub open spec fn is_space(c: char) -> bool {
    let n = c as u32;
    (0x09 <= n <= 0x0d) || n == 0x20 || n == 0x85 || n == 0xa0 || n == 0x1680 || (0x2000 <= n
        <= 0x200a) || n == 0x2028 || n == 0x2029 || n == 0x202f || n == 0x205f || n == 0x3000
}

/// Whether `c` parts two tokens: white space does, and a comma where `commas`
/// holds.
pub open spec fn is_separator(c: char, commas: bool) -> bool {
    is_space(c) || (commas && c == ',')
}

/// The tokens of `s`: its longest runs of characters that are not separators,
/// in order.
pub open spec fn tokens(s: Seq<char>, commas: bool) -> Seq<Seq<char>>
    decreases s.len(),
{
    if s.len() == 0 {
        Seq::empty()
    } else {
        let earlier = tokens(s.drop_last(), commas);
        if is_separator(s.last(), commas) {
            earlier
        } else if s.len() >= 2 && !is_separator(s[s.len() - 2], commas) {
            earlier.update(earlier.len() - 1, earlier.last().push(s.last()))
        } else {
            earlier.push(seq![s.last()])
        }
    }
}

/// No token is empty, and none holds a separator.
pub proof fn lemma_tokens_hold_no_separator(s: Seq<char>, commas: bool)
    ensures
        forall|k: int|
            0 <= k < tokens(s, commas).len() ==> {
                &&& (#[trigger] tokens(s, commas)[k]).len() > 0
                &&& forall|j: int|
                    0 <= j < tokens(s, commas)[k].len() ==> !is_separator(
                        #[trigger] tokens(s, commas)[k][j],
                        commas,
                    )
            },
        s.len() > 0 && !is_separator(s.last(), commas) ==> tokens(s, commas).len() > 0,
    decreases s.len(),
{
    if s.len() > 0 {
        let init = s.drop_last();
        let earlier = tokens(init, commas);
        lemma_tokens_hold_no_separator(init, commas);
        let now = tokens(s, commas);
        if !is_separator(s.last(), commas) {
            if s.len() >= 2 && !is_separator(s[s.len() - 2], commas) {
                assert(init.last() == s[s.len() - 2]);
                let last = earlier.len() - 1;
                assert forall|k: int| 0 <= k < now.len() implies {
                    &&& (#[trigger] now[k]).len() > 0
                    &&& forall|j: int|
                        0 <= j < now[k].len() ==> !is_separator(#[trigger] now[k][j], commas)
                } by {
                    if k == last {
                        assert forall|j: int| 0 <= j < now[k].len() implies !is_separator(
                            #[trigger] now[k][j],
                            commas,
                        ) by {
                            if j < earlier[k].len() {
                                assert(now[k][j] == earlier[k][j]);
                            }
                        }
                    } else {
                        assert(now[k] == earlier[k]);
                    }
                }
            } else {
                assert forall|k: int| 0 <= k < now.len() implies {
                    &&& (#[trigger] now[k]).len() > 0
                    &&& forall|j: int|
                        0 <= j < now[k].len() ==> !is_separator(#[trigger] now[k][j], commas)
                } by {
                    if k < earlier.len() {
                        assert(now[k] == earlier[k]);
                    }
                }
            }
        }
    }
}

/// The tokens after the two that tag the line.
pub open spec fn fields(toks: Seq<Seq<char>>) -> Seq<Seq<char>> {
    if toks.len() >= 2 {
        toks.skip(2)
    } else {
        Seq::empty()
    }
}

/// The index behind the last point of `s`; zero where it has none.
pub open spec fn after_last_dot(s: Seq<char>) -> int
    decreases s.len(),
{
    if s.len() == 0 {
        0
    } else if s.last() == '.' {
        s.len() as int
    } else {
        after_last_dot(s.drop_last())
    }
}

/// A name without its package: what follows its last point.
pub open spec fn simple_name(s: Seq<char>) -> Seq<char> {
    s.skip(after_last_dot(s))
}

/// Whether `pat` stands in `s` at index `i`.
pub open spec fn occurs_at(s: Seq<char>, pat: Seq<char>, i: int) -> bool {
    0 <= i && i + pat.len() <= s.len() && s.subrange(i, i + pat.len()) == pat
}

/// Whether `pat` stands anywhere in `s`.
pub open spec fn contains_text(s: Seq<char>, pat: Seq<char>) -> bool {
    exists|i: int| occurs_at(s, pat, i)
}

/// What a line of the analyser's output is.
#[derive(Clone, Copy, Debug, PartialEq, Eq, Structural)]
pub enum LineKind {
    /// The end of the record of a class.
    Sentinel,
    /// The parameter types of a class.
    MethodParams,
    /// The field types of a class.
    FieldTypes,
    /// The metrics of a class.
    Metrics,
    /// Anything else; such a line is passed over.
    Other,
}

/// The kind of a line: a sentinel where it holds a tilde; else by the first
/// of the tags `method_params - `, `field_types - ` and `metrics - ` that it
/// holds, in this order.
pub open spec fn line_kind(line: Seq<char>) -> LineKind {
    if contains_text(line, "~"@) {
        LineKind::Sentinel
    } else if contains_text(line, "method_params - "@) {
        LineKind::MethodParams
    } else if contains_text(line, "field_types - "@) {
        LineKind::FieldTypes
    } else if contains_text(line, "metrics - "@) {
        LineKind::Metrics
    } else {
        LineKind::Other
    }
}

/// Whether a token is a numeral: one that denotes a number, or one of the
/// words for infinity and for what is no number.
pub open spec fn is_numeral(token: Seq<char>) -> bool {
    is_decimal(token) || is_non_finite(token)
}

/// What the numerals among the tokens denote, in order: the number of a
/// decimal numeral; nothing for one that is not finite.
pub open spec fn numeric_values(toks: Seq<Seq<char>>) -> Seq<Option<Fixed>>
    decreases toks.len(),
{
    if toks.len() == 0 {
        Seq::empty()
    } else {
        let earlier = numeric_values(toks.drop_last());
        if is_decimal(toks.last()) {
            earlier.push(Some(decimal_value(toks.last())))
        } else if is_non_finite(toks.last()) {
            earlier.push(None)
        } else {
            earlier
        }
    }
}

/// The class that the tokens name: the simple name of the last token that is
/// no numeral; the empty name where every token is one.
pub open spec fn named_class(toks: Seq<Seq<char>>) -> Seq<char>
    decreases toks.len(),
{
    if toks.len() == 0 {
        Seq::empty()
    } else if !is_numeral(toks.last()) {
        simple_name(toks.last())
    } else {
        named_class(toks.drop_last())
    }
}

/// The class of a list of types: the simple name of its first field.
pub open spec fn listed_class(f: Seq<Seq<char>>) -> Option<Seq<char>> {
    if f.len() == 0 {
        None
    } else {
        Some(simple_name(f[0]))
    }
}

/// The types of a list of types: its fields after the first.
pub open spec fn listed_types(f: Seq<Seq<char>>) -> Seq<Seq<char>> {
    if f.len() == 0 {
        Seq::empty()
    } else {
        f.skip(1)
    }
}

/// The metrics of one class as a line gives them.
#[derive(Debug)]
pub struct MetricsRecord {
    /// The simple name of the class; empty where the line names none.
    pub class_name: String,
    /// The values, in the order of the record: one for each numeral of the
    /// line, none where the numeral is not finite.
    pub values: Vec<Option<Fixed>>,
}

/// The types of one class as a line lists them.
#[derive(Debug)]
pub struct TypeList {
    /// The simple name of the class; none where the line names none.
    pub class_name: Option<String>,
    /// The types, as listed.
    pub types: Vec<String>,
}

/// Whether `c` is white space.
pub fn char_is_space(c: char) -> (r: bool)
    ensures
        r == is_space(c),
{
    let n: u32 = c as u32;
    (0x09 <= n && n <= 0x0d) || n == 0x20 || n == 0x85 || n == 0xa0 || n == 0x1680 || (0x2000 <= n
        && n <= 0x200a) || n == 0x2028 || n == 0x2029 || n == 0x202f || n == 0x205f || n == 0x3000
}

/// The first and the end index of each token of `chars`.
fn token_bounds(chars: &Vec<char>, commas: bool) -> (r: Vec<(usize, usize)>)
    ensures
        r@.len() == tokens(chars@, commas).len(),
        forall|k: int|
            0 <= k < r@.len() ==> {
                &&& (#[trigger] r@[k]).0 <= r@[k].1 <= chars@.len()
                &&& chars@.subrange(r@[k].0 as int, r@[k].1 as int) == tokens(chars@, commas)[k]
            },
{
    let n: usize = chars.len();
    let mut bounds: Vec<(usize, usize)> = Vec::new();
    let mut i: usize = 0;
    let mut in_token: bool = false;
    while i < n
        invariant
            i <= n == chars@.len(),
            in_token == (i > 0 && !is_separator(chars@[i - 1], commas)),
            bounds@.len() == tokens(chars@.take(i as int), commas).len(),
            in_token ==> bounds@.len() > 0 && bounds@[bounds@.len() - 1].1 == i,
            forall|k: int|
                0 <= k < bounds@.len() ==> {
                    &&& (#[trigger] bounds@[k]).0 <= bounds@[k].1 <= i
                    &&& chars@.subrange(bounds@[k].0 as int, bounds@[k].1 as int) == tokens(
                        chars@.take(i as int),
                        commas,
                    )[k]
                },
        decreases n - i,
    {
        let c: char = chars[i];
        let separator: bool = char_is_space(c) || (commas && c == ',');
        let ghost before = tokens(chars@.take(i as int), commas);
        let ghost prefix = chars@.take(i + 1);
        proof {
            assert(prefix.drop_last() =~= chars@.take(i as int));
            assert(prefix.last() == c);
            if i > 0 {
                assert(prefix[prefix.len() - 2] == chars@[i - 1]);
            }
        }
        if !separator {
            if in_token {
                let last: usize = bounds.len() - 1;
                let start: usize = bounds[last].0;
                bounds[last] = (start, i + 1);
                proof {
                    let after = tokens(prefix, commas);
                    assert(after == before.update(before.len() - 1, before.last().push(c)));
                    assert forall|k: int| 0 <= k < bounds@.len() implies {
                        &&& (#[trigger] bounds@[k]).0 <= bounds@[k].1 <= i + 1
                        &&& chars@.subrange(bounds@[k].0 as int, bounds@[k].1 as int) == after[k]
                    } by {
                        if k == last {
                            assert(chars@.subrange(start as int, i + 1) =~= chars@.subrange(
                                start as int,
                                i as int,
                            ).push(c));
                        }
                    }
                }
            } else {
                bounds.push((i, i + 1));
                proof {
                    let after = tokens(prefix, commas);
                    assert(after == before.push(seq![c]));
                    assert(chars@.subrange(i as int, i + 1) =~= seq![c]);
                }
            }
        }
        in_token = !separator;
        i = i + 1;
    }
    proof {
        assert(chars@.take(n as int) =~= chars@);
    }
    bounds
}

/// Splits a line into its tokens.
pub fn split_tokens(line: &str, commas: bool) -> (r: Vec<String>)
    ensures
        r.deep_view() == tokens(line@, commas),
{
    let chars = chars_of(line);
    let bounds = token_bounds(&chars, commas);
    let mut out: Vec<String> = Vec::new();
    let mut k: usize = 0;
    while k < bounds.len()
        invariant
            k <= bounds@.len() == tokens(line@, commas).len(),
            chars@ == line@,
            out@.len() == k,
            forall|j: int| 0 <= j < k ==> (#[trigger] out@[j])@ == tokens(line@, commas)[j],
            forall|j: int|
                0 <= j < bounds@.len() ==> {
                    &&& (#[trigger] bounds@[j]).0 <= bounds@[j].1 <= chars@.len()
                    &&& chars@.subrange(bounds@[j].0 as int, bounds@[j].1 as int) == tokens(
                        chars@,
                        commas,
                    )[j]
                },
        decreases bounds@.len() - k,
    {
        let from: usize = bounds[k].0;
        let to: usize = bounds[k].1;
        out.push(line.substring_char(from, to).to_owned());
        k = k + 1;
    }
    proof {
        assert(out.deep_view() =~= tokens(line@, commas));
    }
    out
}

/// A name without its package: what follows its last point.
pub fn simple_name_of(token: &str) -> (r: String)
    ensures
        r@ == simple_name(token@),
{
    let chars = chars_of(token);
    let n: usize = chars.len();
    let mut start: usize = 0;
    let mut i: usize = 0;
    while i < n
        invariant
            i <= n == chars@.len(),
            start <= i,
            start == after_last_dot(chars@.take(i as int)),
        decreases n - i,
    {
        proof {
            assert(chars@.take(i + 1).drop_last() =~= chars@.take(i as int));
        }
        if chars[i] == '.' {
            start = i + 1;
        }
        i = i + 1;
    }
    proof {
        assert(chars@.take(n as int) =~= chars@);
        assert(token@.subrange(start as int, n as int) =~= token@.skip(start as int));
    }
    token.substring_char(start, n).to_owned()
}

/// Whether `pat` stands in `s` at index `i`.
fn matches_at(s: &Vec<char>, pat: &Vec<char>, i: usize) -> (r: bool)
    requires
        i + pat@.len() <= s@.len(),
    ensures
        r == occurs_at(s@, pat@, i as int),
{
    let n: usize = s.len();
    let m: usize = pat.len();
    let mut j: usize = 0;
    while j < m
        invariant
            j <= m == pat@.len(),
            i + m <= n == s@.len(),
            forall|k: int| 0 <= k < j ==> s@[i + k] == pat@[k],
        decreases m - j,
    {
        if s[i + j] != pat[j] {
            proof {
                assert(s@.subrange(i as int, i + m)[j as int] == s@[i + j]);
            }
            return false;
        }
        j = j + 1;
    }
    proof {
        assert(s@.subrange(i as int, i + m) =~= pat@);
    }
    true
}

/// Whether `pat` stands anywhere in `s`.
pub fn contains_chars(s: &Vec<char>, pat: &Vec<char>) -> (r: bool)
    ensures
        r == contains_text(s@, pat@),
{
    let n: usize = s.len();
    let m: usize = pat.len();
    if m > n {
        return false;
    }
    let last: usize = n - m;
    let mut i: usize = 0;
    loop
        invariant
            m <= n,
            n == s@.len(),
            m == pat@.len(),
            last == n - m,
            i <= last,
            forall|k: int| 0 <= k < i ==> !occurs_at(s@, pat@, k),
        decreases last - i,
    {
        if matches_at(s, pat, i) {
            return true;
        }
        if i == last {
            return false;
        }
        i = i + 1;
    }
}

/// Tells what a line is: see [`line_kind`].
pub fn classify_line(line: &str) -> (r: LineKind)
    ensures
        r == line_kind(line@),
{
    let chars = chars_of(line);
    if contains_chars(&chars, &chars_of("~")) {
        LineKind::Sentinel
    } else if contains_chars(&chars, &chars_of("method_params - ")) {
        LineKind::MethodParams
    } else if contains_chars(&chars, &chars_of("field_types - ")) {
        LineKind::FieldTypes
    } else if contains_chars(&chars, &chars_of("metrics - ")) {
        LineKind::Metrics
    } else {
        LineKind::Other
    }
}

/// Reads a metrics line: the tokens are parted by white space; each one that
/// is a numeral gives the next value, and the last one that is none names the
/// class.
pub fn parse_metrics_line(line: &str) -> (r: MetricsRecord)
    ensures
        r.class_name@ == named_class(fields(tokens(line@, false))),
        r.values@ == numeric_values(fields(tokens(line@, false))),
{
    let toks = split_tokens(line, false);
    let mut class_name: String = String::new();
    let mut values: Vec<Option<Fixed>> = Vec::new();
    let ghost f = fields(toks.deep_view());
    let mut k: usize = 2;
    if toks.len() < 2 {
        proof {
            assert(values@ =~= numeric_values(f));
        }
        return MetricsRecord { class_name, values };
    }
    proof {
        assert(f.take(0) =~= Seq::<Seq<char>>::empty());
        assert(values@ =~= numeric_values(f.take(0)));
    }
    while k < toks.len()
        invariant
            2 <= k <= toks@.len(),
            f == fields(toks.deep_view()),
            class_name@ == named_class(f.take(k - 2)),
            values@ == numeric_values(f.take(k - 2)),
        decreases toks@.len() - k,
    {
        proof {
            assert(f.take(k - 1).drop_last() =~= f.take(k - 2));
            assert(f.take(k - 1).last() == toks@[k as int]@);
        }
        let chars = chars_of(toks[k].as_str());
        match Fixed::parse_chars(&chars) {
            Some(value) => {
                values.push(Some(value));
            },
            None => {
                if non_finite_chars(&chars) {
                    values.push(None);
                } else {
                    class_name = simple_name_of(toks[k].as_str());
                }
            },
        }
        k = k + 1;
    }
    proof {
        assert(f.take(toks@.len() - 2) =~= f);
    }
    MetricsRecord { class_name, values }
}

/// Reads a list of types: the tokens are parted by white space and commas;
/// the first names the class, the others are its types.
pub fn parse_type_list_line(line: &str) -> (r: TypeList)
    ensures
        match r.class_name {
            Some(name) => listed_class(fields(tokens(line@, true))) == Some(name@),
            None => listed_class(fields(tokens(line@, true))) is None,
        },
        r.types.deep_view() == listed_types(fields(tokens(line@, true))),
{
    let toks = split_tokens(line, true);
    let mut types: Vec<String> = Vec::new();
    let ghost f = fields(toks.deep_view());
    if toks.len() < 3 {
        proof {
            assert(types.deep_view() =~= listed_types(f));
        }
        return TypeList { class_name: None, types };
    }
    let class_name = simple_name_of(toks[2].as_str());
    let mut k: usize = 3;
    proof {
        assert(types.deep_view() =~= f.skip(1).take(0));
    }
    while k < toks.len()
        invariant
            3 <= k <= toks@.len(),
            f == fields(toks.deep_view()),
            types.deep_view() == f.skip(1).take(k - 3),
        decreases toks@.len() - k,
    {
        let ghost before = types.deep_view();
        types.push(toks[k].clone());
        proof {
            assert(types.deep_view() =~= before.push(toks@[k as int]@));
            assert(f.skip(1).take(k - 2) =~= f.skip(1).take(k - 3).push(toks@[k as int]@));
        }
        k = k + 1;
    }
    proof {
        assert(f.skip(1).take(toks@.len() - 3) =~= f.skip(1));
    }
    TypeList { class_name: Some(class_name), types }
}

} // verus!
