//! Numbers as text.
//!
//! A numeral is read as floating-point text is: an optional sign, digits with
//! at most one decimal point among them, and an optional exponent. What it
//! denotes is taken in millionths, rounded toward zero, and clamped into the
//! range of [`Fixed`]. The words for infinity and for what is no number are
//! numerals too, but denote no `Fixed`.

use crate::fixed::{clamp, Fixed};
use vstd::prelude::*;

verus! {

/// Upper limit for a run of digits while it is read: any larger number is far
/// outside the range of [`Fixed`], and beyond the length of any text.
pub const DIGIT_CAP: u128 = 100_000_000_000_000_000_000;

/// Whether `c` is one of the ten decimal digits.
pub open spec fn is_digit(c: char) -> bool {
    '0' <= c && c <= '9'
}

/// The number that a decimal digit stands for.
pub open spec fn digit_value(c: char) -> nat {
    (c as u32 - '0' as u32) as nat
}

/// Whether every character of `s` is a decimal digit.
pub open spec fn all_digits(s: Seq<char>) -> bool {
    forall|i: int| 0 <= i < s.len() ==> is_digit(#[trigger] s[i])
}

/// The natural number written by a run of digits; the empty run writes zero.
pub open spec fn digits_value(s: Seq<char>) -> nat
    decreases s.len(),
{
    if s.len() == 0 {
        0
    } else {
        digits_value(s.drop_last()) * 10 + digit_value(s.last())
    }
}

/// Ten to the power `n`.
pub open spec fn pow10(n: nat) -> nat
    decreases n,
{
    if n == 0 {
        1
    } else {
        10 * pow10((n - 1) as nat)
    }
}

/// How many characters a leading sign takes: one or none.
pub open spec fn sign_len(s: Seq<char>) -> int {
    if s.len() > 0 && (s[0] == '+' || s[0] == '-') {
        1
    } else {
        0
    }
}

/// Whether the text starts with a minus sign.
pub open spec fn is_negative(s: Seq<char>) -> bool {
    s.len() > 0 && s[0] == '-'
}

/// The index of the first decimal point in `s`, or its length if it has none.
pub open spec fn first_dot(s: Seq<char>) -> int
    decreases s.len(),
{
    if s.len() == 0 || s[0] == '.' {
        0
    } else {
        1 + first_dot(s.drop_first())
    }
}

/// Whether `c` marks an exponent.
pub open spec fn is_exp_mark(c: char) -> bool {
    c == 'e' || c == 'E'
}

/// The index of the first exponent mark in `s`, or its length if it has none.
pub open spec fn first_exp(s: Seq<char>) -> int
    decreases s.len(),
{
    if s.len() == 0 || is_exp_mark(s[0]) {
        0
    } else {
        1 + first_exp(s.drop_first())
    }
}

/// The numeral without its sign.
pub open spec fn body_of(s: Seq<char>) -> Seq<char> {
    s.skip(sign_len(s))
}

/// Whether the numeral has an exponent mark.
pub open spec fn has_exponent(s: Seq<char>) -> bool {
    first_exp(body_of(s)) < body_of(s).len()
}

/// What stands before the exponent mark, without the sign.
pub open spec fn mantissa_of(s: Seq<char>) -> Seq<char> {
    body_of(s).take(first_exp(body_of(s)))
}

/// What stands behind the exponent mark; empty where there is none.
pub open spec fn exponent_of(s: Seq<char>) -> Seq<char> {
    if has_exponent(s) {
        body_of(s).skip(first_exp(body_of(s)) + 1)
    } else {
        Seq::empty()
    }
}

/// The digits before the decimal point.
pub open spec fn whole_digits(s: Seq<char>) -> Seq<char> {
    mantissa_of(s).take(first_dot(mantissa_of(s)))
}

/// The digits after the decimal point; empty where there is no point.
pub open spec fn fraction_digits(s: Seq<char>) -> Seq<char> {
    let mantissa = mantissa_of(s);
    let p = first_dot(mantissa);
    if p < mantissa.len() {
        mantissa.skip(p + 1)
    } else {
        Seq::empty()
    }
}

/// The digits of the exponent, without its sign.
pub open spec fn exponent_digits(s: Seq<char>) -> Seq<char> {
    exponent_of(s).skip(sign_len(exponent_of(s)))
}

/// The exponent of the numeral; zero where it has none.
pub open spec fn exponent_value(s: Seq<char>) -> int {
    if is_negative(exponent_of(s)) {
        -(digits_value(exponent_digits(s)) as int)
    } else {
        digits_value(exponent_digits(s)) as int
    }
}

/// A decimal numeral: an optional sign; then digits with at most one decimal
/// point among them and at least one digit in all; then, optionally, an
/// exponent mark, an optional sign and at least one digit. No other
/// character.
pub open spec fn is_decimal(s: Seq<char>) -> bool {
    &&& all_digits(whole_digits(s))
    &&& all_digits(fraction_digits(s))
    &&& whole_digits(s).len() + fraction_digits(s).len() >= 1
    &&& has_exponent(s) ==> all_digits(exponent_digits(s)) && exponent_digits(s).len() >= 1
}

/// Whether `s` spells a word, each letter in either case.
pub open spec fn spells(s: Seq<char>, lower: Seq<char>, upper: Seq<char>) -> bool {
    &&& s.len() == lower.len()
    &&& forall|i: int| 0 <= i < s.len() ==> #[trigger] s[i] == lower[i] || s[i] == upper[i]
}

/// A numeral that denotes no finite number: `inf`, `infinity` or `nan`, in
/// any case of its letters, with an optional sign.
pub open spec fn is_non_finite(s: Seq<char>) -> bool {
    let body = body_of(s);
    ||| spells(body, seq!['i', 'n', 'f'], seq!['I', 'N', 'F'])
    ||| spells(
        body,
        seq!['i', 'n', 'f', 'i', 'n', 'i', 't', 'y'],
        seq!['I', 'N', 'F', 'I', 'N', 'I', 'T', 'Y'],
    )
    ||| spells(body, seq!['n', 'a', 'n'], seq!['N', 'A', 'N'])
}

/// `value` times ten to the `shift`, rounded down where the shift is
/// negative.
pub open spec fn scaled(value: nat, shift: int) -> nat {
    if shift >= 0 {
        value * pow10(shift as nat)
    } else {
        value / pow10((-shift) as nat)
    }
}

/// The count of units that a numeral writes, before its sign is applied: its
/// digits, shifted by the exponent and by where the point stands, in
/// millionths; what is less than a millionth is dropped.
pub open spec fn decimal_magnitude(s: Seq<char>) -> nat {
    scaled(
        digits_value(whole_digits(s) + fraction_digits(s)),
        6 + exponent_value(s) - fraction_digits(s).len(),
    )
}

/// The count of units of the `Fixed` that a decimal numeral denotes.
pub open spec fn decimal_units(s: Seq<char>) -> int {
    if is_negative(s) {
        clamp(-(decimal_magnitude(s) as int))
    } else {
        clamp(decimal_magnitude(s) as int)
    }
}

/// The number that a decimal numeral denotes.
pub open spec fn decimal_value(s: Seq<char>) -> Fixed {
    Fixed { units: decimal_units(s) as i64 }
}

/// A position `p` that holds the first point of `s` is `first_dot(s)`.
pub proof fn lemma_first_dot(s: Seq<char>, p: int)
    requires
        0 <= p <= s.len(),
        forall|k: int| 0 <= k < p ==> s[k] != '.',
        p == s.len() || s[p] == '.',
    ensures
        first_dot(s) == p,
    decreases s.len(),
{
    if s.len() > 0 && p > 0 {
        let t = s.drop_first();
        assert forall|k: int| 0 <= k < p - 1 implies t[k] != '.' by {
            assert(t[k] == s[k + 1]);
        }
        lemma_first_dot(t, p - 1);
    }
}

/// A position `p` that holds the first exponent mark of `s` is
/// `first_exp(s)`.
pub proof fn lemma_first_exp(s: Seq<char>, p: int)
    requires
        0 <= p <= s.len(),
        forall|k: int| 0 <= k < p ==> !is_exp_mark(s[k]),
        p == s.len() || is_exp_mark(s[p]),
    ensures
        first_exp(s) == p,
    decreases s.len(),
{
    if s.len() > 0 && p > 0 {
        let t = s.drop_first();
        assert forall|k: int| 0 <= k < p - 1 implies !is_exp_mark(t[k]) by {
            assert(t[k] == s[k + 1]);
        }
        lemma_first_exp(t, p - 1);
    }
}

/// Ten to any power is positive.
pub proof fn lemma_pow10_positive(n: nat)
    ensures
        pow10(n) > 0,
    decreases n,
{
    if n > 0 {
        lemma_pow10_positive((n - 1) as nat);
    }
}

/// A larger power of ten is a larger number.
pub proof fn lemma_pow10_grows(a: nat, b: nat)
    requires
        a <= b,
    ensures
        pow10(a) <= pow10(b),
    decreases b,
{
    if a < b {
        lemma_pow10_grows(a, (b - 1) as nat);
        lemma_pow10_positive((b - 1) as nat);
    }
}

/// Powers of ten multiply by adding their exponents.
pub proof fn lemma_pow10_adds(a: nat, b: nat)
    ensures
        pow10(a + b) == pow10(a) * pow10(b),
    decreases b,
{
    let pa = pow10(a);
    if b == 0 {
        assert(pow10(0) == 1);
        assert(pa * 1 == pa) by (nonlinear_arith);
    } else {
        let pb = pow10((b - 1) as nat);
        lemma_pow10_adds(a, (b - 1) as nat);
        assert(pow10((a + (b - 1)) as nat) == pa * pb);
        assert(pow10(a + b) == 10 * pow10((a + b - 1) as nat));
        assert(pow10(b) == 10 * pb);
        assert(10 * (pa * pb) == pa * (10 * pb)) by (nonlinear_arith);
    }
}

/// A run of digits writes a number below ten to its length.
pub proof fn lemma_digits_bound(d: Seq<char>)
    requires
        all_digits(d),
    ensures
        digits_value(d) < pow10(d.len()),
    decreases d.len(),
{
    if d.len() > 0 {
        let init = d.drop_last();
        assert forall|i: int| 0 <= i < init.len() implies is_digit(#[trigger] init[i]) by {
            assert(init[i] == d[i]);
        }
        lemma_digits_bound(init);
        assert(is_digit(d[d.len() - 1]));
    }
}

/// Dropping the last `k` digits of a run divides what it writes by ten to
/// the `k`, rounding down.
pub proof fn lemma_digits_take(d: Seq<char>, k: nat)
    requires
        all_digits(d),
        k <= d.len(),
    ensures
        digits_value(d) / pow10(k) == digits_value(d.take(d.len() - k)),
    decreases k,
{
    let v = digits_value(d);
    if k == 0 {
        assert(d.take(d.len() as int) =~= d);
        assert(pow10(0) == 1);
        assert(v / 1 == v);
    } else {
        let init = d.drop_last();
        assert forall|i: int| 0 <= i < init.len() implies is_digit(#[trigger] init[i]) by {
            assert(init[i] == d[i]);
        }
        assert(is_digit(d[d.len() - 1]));
        lemma_digits_take(init, (k - 1) as nat);
        assert(init.take(init.len() - (k - 1)) =~= d.take(d.len() - k));
        let p = pow10((k - 1) as nat);
        lemma_pow10_positive((k - 1) as nat);
        assert(v == digits_value(init) * 10 + digit_value(d.last()));
        assert(v / 10 == digits_value(init));
        vstd::arithmetic::div_mod::lemma_div_denominator(v as int, 10, p as int);
        assert(pow10(k) == 10 * p);
        assert((v as int) / (10 * (p as int)) == ((v as int) / 10) / (p as int));
        assert(digits_value(init) / p == digits_value(d.take(d.len() - k)));
    }
}

/// What two runs of digits write one after the other.
pub proof fn lemma_digits_concat(a: Seq<char>, b: Seq<char>)
    ensures
        digits_value(a + b) == digits_value(a) * pow10(b.len()) + digits_value(b),
    decreases b.len(),
{
    let x = digits_value(a);
    if b.len() == 0 {
        assert(a + b =~= a);
        assert(pow10(0) == 1);
        assert(x * 1 == x) by (nonlinear_arith);
    } else {
        lemma_digits_concat(a, b.drop_last());
        assert((a + b).drop_last() =~= a + b.drop_last());
        assert((a + b).last() == b.last());
        let p = pow10((b.len() - 1) as nat);
        let y = digits_value(b.drop_last());
        let d = digit_value(b.last());
        assert(pow10(b.len()) == 10 * p);
        assert(digits_value(a + b) == (x * p + y) * 10 + d);
        assert((x * p + y) * 10 + d == x * (10 * p) + (y * 10 + d)) by (nonlinear_arith);
    }
}

/// A run of zeros writes zero.
pub proof fn lemma_zeros_value(z: Seq<char>)
    requires
        forall|i: int| 0 <= i < z.len() ==> #[trigger] z[i] == '0',
    ensures
        digits_value(z) == 0,
    decreases z.len(),
{
    if z.len() > 0 {
        let init = z.drop_last();
        assert forall|i: int| 0 <= i < init.len() implies #[trigger] init[i] == '0' by {
            assert(init[i] == z[i]);
        }
        lemma_zeros_value(init);
        assert(z[z.len() - 1] == '0');
    }
}

/// The least of a number and the cap.
pub open spec fn capped(x: int) -> int {
    if x < DIGIT_CAP {
        x
    } else {
        DIGIT_CAP as int
    }
}

/// Beyond twenty-one places up, a shift tells nothing but whether the value
/// is zero.
pub proof fn lemma_scaled_far_up(value: nat, s1: int, s2: int)
    requires
        s1 >= 21,
        s2 >= 21,
    ensures
        capped(scaled(value, s1) as int) == capped(scaled(value, s2) as int),
{
    assert(pow10(21) > DIGIT_CAP) by {
        reveal_with_fuel(pow10, 23);
    }
    lemma_pow10_grows(21, s1 as nat);
    lemma_pow10_grows(21, s2 as nat);
    let p1 = pow10(s1 as nat);
    let p2 = pow10(s2 as nat);
    if value > 0 {
        assert(value * p1 >= p1) by (nonlinear_arith)
            requires
                value >= 1,
                p1 >= 0,
        ;
        assert(value * p2 >= p2) by (nonlinear_arith)
            requires
                value >= 1,
                p2 >= 0,
        ;
    } else {
        assert(value * p1 == 0 && value * p2 == 0) by (nonlinear_arith)
            requires
                value == 0,
        ;
    }
}

/// Shifted down by its length or more, a run of digits writes zero.
pub proof fn lemma_scaled_far_down(d: Seq<char>, shift: int)
    requires
        all_digits(d),
        shift <= -d.len(),
    ensures
        scaled(digits_value(d), shift) == 0,
{
    lemma_digits_bound(d);
    lemma_pow10_positive(d.len());
    if shift < 0 {
        lemma_pow10_grows(d.len(), (-shift) as nat);
        vstd::arithmetic::div_mod::lemma_basic_div(
            digits_value(d) as int,
            pow10((-shift) as nat) as int,
        );
    } else {
        assert(d.len() == 0);
        assert(pow10(0) == 1);
    }
}

/// Reads the digits of `chars` from `from` up to `to` as a number, stopping
/// the growth at [`DIGIT_CAP`].
fn read_digits(chars: &Vec<char>, from: usize, to: usize) -> (r: u128)
    requires
        from <= to <= chars.len(),
        all_digits(chars@.subrange(from as int, to as int)),
    ensures
        r == capped(digits_value(chars@.subrange(from as int, to as int)) as int),
{
    let mut acc: u128 = 0;
    let mut i: usize = from;
    while i < to
        invariant
            from <= i <= to <= chars.len(),
            all_digits(chars@.subrange(from as int, to as int)),
            acc <= DIGIT_CAP,
            acc == capped(digits_value(chars@.subrange(from as int, i as int)) as int),
        decreases to - i,
    {
        let c: char = chars[i];
        proof {
            let run = chars@.subrange(from as int, to as int);
            assert(run[i - from] == chars@[i as int]);
            assert(is_digit(c));
            let next = chars@.subrange(from as int, i + 1);
            assert(next.drop_last() =~= chars@.subrange(from as int, i as int));
            assert(next.last() == c);
        }
        let d: u128 = (c as u32 - '0' as u32) as u128;
        let grown: u128 = acc * 10 + d;
        acc = if grown < DIGIT_CAP {
            grown
        } else {
            DIGIT_CAP
        };
        i = i + 1;
    }
    acc
}

/// Whether the characters of `chars` from `from` up to `to` are all digits.
fn digits_only(chars: &Vec<char>, from: usize, to: usize) -> (r: bool)
    requires
        from <= to <= chars.len(),
    ensures
        r == all_digits(chars@.subrange(from as int, to as int)),
{
    let mut i: usize = from;
    while i < to
        invariant
            from <= i <= to <= chars.len(),
            all_digits(chars@.subrange(from as int, i as int)),
        decreases to - i,
    {
        let c: char = chars[i];
        if !(c >= '0' && c <= '9') {
            proof {
                let run = chars@.subrange(from as int, to as int);
                assert(run[i - from] == c);
            }
            return false;
        }
        proof {
            let next = chars@.subrange(from as int, i + 1);
            let prev = chars@.subrange(from as int, i as int);
            assert forall|k: int| 0 <= k < next.len() implies is_digit(#[trigger] next[k]) by {
                if k < i - from {
                    assert(next[k] == prev[k]);
                }
            }
        }
        i = i + 1;
    }
    true
}

/// The characters of `s`, in order.
pub fn chars_of(s: &str) -> (v: Vec<char>)
    ensures
        v@ == s@,
{
    let mut v: Vec<char> = Vec::new();
    for c in it: s.chars()
        invariant
            v@ == it.seq().take(it.index() as int),
    {
        v.push(c);
    }
    v
}

/// `base` times ten to the `shift`, stopping the growth at [`DIGIT_CAP`].
fn scale_up(base: u128, shift: i128) -> (r: u128)
    requires
        base <= DIGIT_CAP,
        shift >= 0,
    ensures
        r == capped(base * pow10(shift as nat)),
{
    let mut acc: u128 = base;
    let mut i: i128 = 0;
    proof {
        assert(base * pow10(0) == base) by (nonlinear_arith)
            requires
                pow10(0) == 1,
        ;
    }
    while i < shift && acc > 0 && acc < DIGIT_CAP
        invariant
            0 <= i <= shift,
            base <= DIGIT_CAP,
            acc == capped(base * pow10(i as nat)),
        decreases shift - i,
    {
        proof {
            let p = pow10(i as nat);
            assert(base * pow10((i + 1) as nat) == (base * p) * 10) by (nonlinear_arith)
                requires
                    pow10((i + 1) as nat) == 10 * p,
            ;
        }
        let grown: u128 = acc * 10;
        acc = if grown < DIGIT_CAP {
            grown
        } else {
            DIGIT_CAP
        };
        i = i + 1;
    }
    proof {
        let p = pow10(i as nat);
        let q = pow10(shift as nat);
        lemma_pow10_grows(i as nat, shift as nat);
        lemma_pow10_positive(i as nat);
        if i < shift {
            if acc == 0 {
                assert(base == 0) by (nonlinear_arith)
                    requires
                        base * p == 0,
                        p > 0,
                        base >= 0,
                ;
                assert(base * q == 0) by (nonlinear_arith)
                    requires
                        base == 0,
                ;
            } else {
                assert(base * q >= base * p) by (nonlinear_arith)
                    requires
                        q >= p,
                        base >= 0,
                ;
            }
        }
    }
    acc
}

/// What the digits write, shifted by `shift` places, stopping the growth at
/// [`DIGIT_CAP`].
fn shifted(digits: &Vec<char>, shift: i128) -> (r: u128)
    requires
        all_digits(digits@),
        shift > i128::MIN,
    ensures
        r == capped(scaled(digits_value(digits@), shift as int) as int),
{
    let len: usize = digits.len();
    proof {
        assert(digits@.subrange(0, len as int) =~= digits@);
    }
    if shift >= 0 {
        let base: u128 = read_digits(digits, 0, len);
        let r = scale_up(base, shift);
        proof {
            let v = digits_value(digits@);
            let p = pow10(shift as nat);
            lemma_pow10_positive(shift as nat);
            if v >= DIGIT_CAP {
                assert(v * p >= v) by (nonlinear_arith)
                    requires
                        p >= 1,
                        v >= 0,
                ;
                assert(DIGIT_CAP * p >= DIGIT_CAP) by (nonlinear_arith)
                    requires
                        p >= 1,
                ;
            }
        }
        r
    } else {
        let k: i128 = -shift;
        if k >= len as i128 {
            proof {
                lemma_scaled_far_down(digits@, shift as int);
            }
            0
        } else {
            let keep: usize = len - k as usize;
            proof {
                lemma_digits_take(digits@, k as nat);
                assert(digits@.subrange(0, keep as int) =~= digits@.take(keep as int));
                assert forall|i: int| 0 <= i < keep implies is_digit(
                    #[trigger] digits@.subrange(0, keep as int)[i],
                ) by {
                    assert(digits@.subrange(0, keep as int)[i] == digits@[i]);
                }
            }
            read_digits(digits, 0, keep)
        }
    }
}

/// The characters of two ranges of `chars`, one after the other.
fn joined(chars: &Vec<char>, a0: usize, a1: usize, b0: usize, b1: usize) -> (r: Vec<char>)
    requires
        a0 <= a1 <= chars.len(),
        b0 <= b1 <= chars.len(),
    ensures
        r@ == chars@.subrange(a0 as int, a1 as int) + chars@.subrange(b0 as int, b1 as int),
{
    let mut r: Vec<char> = Vec::new();
    let mut i: usize = a0;
    while i < a1
        invariant
            a0 <= i <= a1 <= chars.len(),
            r@ == chars@.subrange(a0 as int, i as int),
        decreases a1 - i,
    {
        r.push(chars[i]);
        proof {
            assert(r@ =~= chars@.subrange(a0 as int, i + 1));
        }
        i = i + 1;
    }
    let mut j: usize = b0;
    while j < b1
        invariant
            b0 <= j <= b1 <= chars.len(),
            a0 <= a1 <= chars.len(),
            r@ == chars@.subrange(a0 as int, a1 as int) + chars@.subrange(b0 as int, j as int),
        decreases b1 - j,
    {
        r.push(chars[j]);
        proof {
            assert(r@ =~= chars@.subrange(a0 as int, a1 as int) + chars@.subrange(
                b0 as int,
                j + 1,
            ));
        }
        j = j + 1;
    }
    r
}

/// Whether the characters of `chars` from `from` on spell the word.
fn spells_word(chars: &Vec<char>, from: usize, lower: &Vec<char>, upper: &Vec<char>) -> (r: bool)
    requires
        from <= chars.len(),
        lower.len() == upper.len(),
    ensures
        r == spells(chars@.skip(from as int), lower@, upper@),
{
    let n: usize = chars.len();
    let m: usize = lower.len();
    if n - from != m {
        return false;
    }
    let ghost body = chars@.skip(from as int);
    let mut i: usize = 0;
    while i < m
        invariant
            i <= m == lower@.len() == upper@.len(),
            from + m == n == chars@.len(),
            body == chars@.skip(from as int),
            forall|k: int| 0 <= k < i ==> #[trigger] body[k] == lower@[k] || body[k] == upper@[k],
        decreases m - i,
    {
        let c: char = chars[from + i];
        proof {
            assert(body[i as int] == c);
        }
        if c != lower[i] && c != upper[i] {
            return false;
        }
        i = i + 1;
    }
    true
}

/// Whether the characters are a numeral that denotes no finite number.
pub fn non_finite_chars(chars: &Vec<char>) -> (r: bool)
    ensures
        r == is_non_finite(chars@),
{
    let n: usize = chars.len();
    let start: usize = if n > 0 && (chars[0] == '+' || chars[0] == '-') {
        1
    } else {
        0
    };
    let inf = spells_word(chars, start, &vec!['i', 'n', 'f'], &vec!['I', 'N', 'F']);
    let infinity = spells_word(
        chars,
        start,
        &vec!['i', 'n', 'f', 'i', 'n', 'i', 't', 'y'],
        &vec!['I', 'N', 'F', 'I', 'N', 'I', 'T', 'Y'],
    );
    let nan = spells_word(chars, start, &vec!['n', 'a', 'n'], &vec!['N', 'A', 'N']);
    inf || infinity || nan
}

impl Fixed {
    /// Reads a decimal numeral. A token of any other shape gives `None`; a
    /// numeral beyond the range gives the nearest end of the range.
    pub fn parse(token: &str) -> (r: Option<Fixed>)
        ensures
            r is Some <==> is_decimal(token@),
            r matches Some(x) ==> x == decimal_value(token@),
    {
        let chars = chars_of(token);
        Fixed::parse_chars(&chars)
    }

    /// Reads a decimal numeral from its characters, as [`Fixed::parse`] does.
    pub fn parse_chars(chars: &Vec<char>) -> (r: Option<Fixed>)
        ensures
            r is Some <==> is_decimal(chars@),
            r matches Some(x) ==> x == decimal_value(chars@),
    {
        let n: usize = chars.len();
        let at = layout(chars);
        if !digits_only(chars, at.start, at.point) || !digits_only(chars, at.frac_from, at.mark) {
            return None;
        }
        if (at.point - at.start) + (at.mark - at.frac_from) == 0 {
            return None;
        }
        if !digits_only(chars, at.exp_from, n) {
            return None;
        }
        if at.mark < n && n - at.exp_from == 0 {
            return None;
        }
        let exp_size: u128 = read_digits(chars, at.exp_from, n);
        let exponent: i128 = if at.exp_negative {
            -(exp_size as i128)
        } else {
            exp_size as i128
        };
        let digits = joined(chars, at.start, at.point, at.frac_from, at.mark);
        let shift: i128 = 6 + exponent - (at.mark - at.frac_from) as i128;
        proof {
            lemma_joined_digits(whole_digits(chars@), fraction_digits(chars@));
        }
        let magnitude: u128 = shifted(&digits, shift);
        proof {
            let true_shift = 6 + exponent_value(chars@) - fraction_digits(chars@).len();
            let value = digits_value(digits@);
            let written = digits_value(exponent_digits(chars@));
            if written < DIGIT_CAP {
                assert(shift == true_shift);
            } else if at.exp_negative {
                lemma_scaled_far_down(digits@, shift as int);
                lemma_scaled_far_down(digits@, true_shift);
            } else {
                lemma_scaled_far_up(value, shift as int, true_shift);
            }
            assert(magnitude == capped(decimal_magnitude(chars@) as int));
        }
        let signed: i128 = if at.negative {
            -(magnitude as i128)
        } else {
            magnitude as i128
        };
        Some(Fixed::saturating(signed))
    }
}

/// Where the parts of a numeral stand in its characters.
struct Layout {
    /// The index behind the sign.
    start: usize,
    /// The index of the decimal point, or of what follows the mantissa.
    point: usize,
    /// The index behind the decimal point, or of what follows the mantissa.
    frac_from: usize,
    /// The index of the exponent mark, or the length.
    mark: usize,
    /// The index of the first digit of the exponent, or the length.
    exp_from: usize,
    /// Whether the numeral starts with a minus sign.
    negative: bool,
    /// Whether the exponent starts with a minus sign.
    exp_negative: bool,
}

/// The index of the first exponent mark of `chars` from `from` on, or the
/// length.
fn find_exp(chars: &Vec<char>, from: usize) -> (x: usize)
    requires
        from <= chars@.len(),
    ensures
        from <= x <= chars@.len(),
        first_exp(chars@.skip(from as int)) == x - from,
{
    let n: usize = chars.len();
    let mut x: usize = from;
    while x < n && !(chars[x] == 'e' || chars[x] == 'E')
        invariant
            from <= x <= n == chars.len(),
            forall|k: int| from <= k < x ==> !is_exp_mark(chars@[k]),
        decreases n - x,
    {
        x = x + 1;
    }
    proof {
        let rest = chars@.skip(from as int);
        assert forall|k: int| 0 <= k < x - from implies !is_exp_mark(rest[k]) by {
            assert(rest[k] == chars@[k + from]);
        }
        if x < n {
            assert(rest[x - from] == chars@[x as int]);
        }
        lemma_first_exp(rest, x - from);
    }
    x
}

/// The index of the first decimal point of `chars` from `from` up to `to`,
/// or `to`.
fn find_dot(chars: &Vec<char>, from: usize, to: usize) -> (p: usize)
    requires
        from <= to <= chars@.len(),
    ensures
        from <= p <= to,
        first_dot(chars@.subrange(from as int, to as int)) == p - from,
{
    let mut p: usize = from;
    while p < to && chars[p] != '.'
        invariant
            from <= p <= to <= chars.len(),
            forall|k: int| from <= k < p ==> chars@[k] != '.',
        decreases to - p,
    {
        p = p + 1;
    }
    proof {
        let part = chars@.subrange(from as int, to as int);
        assert forall|k: int| 0 <= k < p - from implies part[k] != '.' by {
            assert(part[k] == chars@[k + from]);
        }
        if p < to {
            assert(part[p - from] == chars@[p as int]);
        }
        lemma_first_dot(part, p - from);
    }
    p
}

/// How many characters the sign of `chars` at `from` takes, and whether it
/// is a minus sign.
fn sign_at(chars: &Vec<char>, from: usize) -> (r: (usize, bool))
    requires
        from <= chars@.len(),
    ensures
        r.0 == sign_len(chars@.skip(from as int)),
        r.1 == is_negative(chars@.skip(from as int)),
        from + r.0 <= chars@.len(),
{
    let n: usize = chars.len();
    proof {
        if from < n {
            assert(chars@.skip(from as int)[0] == chars@[from as int]);
        }
    }
    if from < n && chars[from] == '-' {
        (1, true)
    } else if from < n && chars[from] == '+' {
        (1, false)
    } else {
        (0, false)
    }
}

/// Finds the sign, the decimal point and the exponent mark.
fn layout(chars: &Vec<char>) -> (at: Layout)
    ensures
        at.start <= at.point <= at.frac_from <= at.mark <= at.exp_from <= chars@.len(),
        whole_digits(chars@) == chars@.subrange(at.start as int, at.point as int),
        fraction_digits(chars@) == chars@.subrange(at.frac_from as int, at.mark as int),
        exponent_digits(chars@) == chars@.subrange(at.exp_from as int, chars@.len() as int),
        has_exponent(chars@) == (at.mark < chars@.len()),
        at.negative == is_negative(chars@),
        at.exp_negative == is_negative(exponent_of(chars@)),
{
    let n: usize = chars.len();
    proof {
        assert(chars@.skip(0) =~= chars@);
    }
    let (start, negative) = sign_at(chars, 0);
    let mark: usize = find_exp(chars, start);
    proof {
        assert(mantissa_of(chars@) =~= chars@.subrange(start as int, mark as int));
    }
    let point: usize = find_dot(chars, start, mark);
    let frac_from: usize = if point < mark {
        point + 1
    } else {
        mark
    };
    proof {
        let mantissa = chars@.subrange(start as int, mark as int);
        assert(mantissa.take(point - start) =~= chars@.subrange(start as int, point as int));
        if point < mark {
            assert(mantissa.skip(point - start + 1) =~= chars@.subrange(
                frac_from as int,
                mark as int,
            ));
        } else {
            assert(chars@.subrange(frac_from as int, mark as int) =~= Seq::<char>::empty());
        }
    }
    let exp_at: usize = if mark < n {
        mark + 1
    } else {
        n
    };
    proof {
        if mark < n {
            assert(body_of(chars@).skip(mark - start + 1) =~= chars@.skip(exp_at as int));
        } else {
            assert(chars@.skip(exp_at as int) =~= Seq::<char>::empty());
        }
        assert(exponent_of(chars@) == chars@.skip(exp_at as int));
    }
    let (exp_sign, exp_negative) = sign_at(chars, exp_at);
    let exp_from: usize = exp_at + exp_sign;
    proof {
        assert(chars@.skip(exp_at as int).skip(exp_sign as int) =~= chars@.subrange(
            exp_from as int,
            n as int,
        ));
    }
    Layout { start, point, frac_from, mark, exp_from, negative, exp_negative }
}

/// Two runs of digits, one after the other, are a run of digits.
proof fn lemma_joined_digits(a: Seq<char>, b: Seq<char>)
    requires
        all_digits(a),
        all_digits(b),
    ensures
        all_digits(a + b),
{
    assert forall|i: int| 0 <= i < (a + b).len() implies is_digit(#[trigger] (a + b)[i]) by {
        if i < a.len() {
            assert((a + b)[i] == a[i]);
        } else {
            assert((a + b)[i] == b[i - a.len()]);
        }
    }
}

} // verus!
