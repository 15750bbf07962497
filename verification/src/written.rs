//! Numbers written out.
//!
//! A number is written as a decimal numeral without exponent: the whole part,
//! and the fraction as far as it is not zero. What is written reads back as
//! the same number.

use crate::fixed::Fixed;
use crate::numeral::{
    all_digits, body_of, decimal_magnitude, decimal_value, digit_value, digits_value,
    exponent_digits, exponent_of, exponent_value, fraction_digits, has_exponent,
    is_decimal, is_digit, is_exp_mark, is_negative, lemma_digits_concat, lemma_first_dot,
    lemma_first_exp, lemma_pow10_adds, lemma_pow10_positive, lemma_zeros_value, mantissa_of,
    pow10, scaled, sign_len, whole_digits,
};
use vstd::prelude::*;

verus! {

/// The character of a digit below ten.
pub open spec fn digit_char(d: nat) -> char {
    if d == 0 {
        '0'
    } else if d == 1 {
        '1'
    } else if d == 2 {
        '2'
    } else if d == 3 {
        '3'
    } else if d == 4 {
        '4'
    } else if d == 5 {
        '5'
    } else if d == 6 {
        '6'
    } else if d == 7 {
        '7'
    } else if d == 8 {
        '8'
    } else {
        '9'
    }
}

/// A natural number in decimal digits, without leading zeros.
pub open spec fn natural_text(n: nat) -> Seq<char>
    decreases n,
{
    if n < 10 {
        seq![digit_char(n)]
    } else {
        natural_text(n / 10).push(digit_char(n % 10))
    }
}

/// The last `width` decimal digits of `f`, with leading zeros.
pub open spec fn fraction_text(f: nat, width: nat) -> Seq<char>
    decreases width,
{
    if width == 0 {
        Seq::empty()
    } else {
        fraction_text(f / 10, (width - 1) as nat).push(digit_char(f % 10))
    }
}

/// A run of digits without the zeros at its end.
pub open spec fn trimmed(s: Seq<char>) -> Seq<char>
    decreases s.len(),
{
    if s.len() > 0 && s.last() == '0' {
        trimmed(s.drop_last())
    } else {
        s
    }
}

/// A count of units as a decimal numeral: a minus sign where it is negative,
/// the whole part, and, where the fraction is not zero, a point and the
/// fraction without the zeros at its end.
pub open spec fn decimal_text(units: int) -> Seq<char> {
    let magnitude = if units < 0 {
        -units
    } else {
        units
    };
    let whole = natural_text((magnitude / 1_000_000) as nat);
    let fraction = trimmed(fraction_text((magnitude % 1_000_000) as nat, 6));
    let body = if fraction.len() == 0 {
        whole
    } else {
        whole + seq!['.'] + fraction
    };
    if units < 0 {
        seq!['-'] + body
    } else {
        body
    }
}

/// The digit `d` as text.
fn digit_str(d: u64) -> (r: &'static str)
    requires
        d < 10,
    ensures
        r@ == seq![digit_char(d as nat)],
{
    proof {
        reveal_strlit("0");
        reveal_strlit("1");
        reveal_strlit("2");
        reveal_strlit("3");
        reveal_strlit("4");
        reveal_strlit("5");
        reveal_strlit("6");
        reveal_strlit("7");
        reveal_strlit("8");
        reveal_strlit("9");
    }
    let r = if d == 0 {
        "0"
    } else if d == 1 {
        "1"
    } else if d == 2 {
        "2"
    } else if d == 3 {
        "3"
    } else if d == 4 {
        "4"
    } else if d == 5 {
        "5"
    } else if d == 6 {
        "6"
    } else if d == 7 {
        "7"
    } else if d == 8 {
        "8"
    } else {
        "9"
    };
    proof {
        assert(r@ =~= seq![digit_char(d as nat)]);
    }
    r
}

/// Appends the decimal digits of `n` to `out`.
fn push_natural(out: &mut String, n: u64)
    ensures
        final(out)@ == old(out)@ + natural_text(n as nat),
    decreases n,
{
    if n >= 10 {
        push_natural(out, n / 10);
    }
    out.append(digit_str(n % 10));
    proof {
        if n >= 10 {
            assert(out@ =~= old(out)@ + natural_text(n as nat));
        } else {
            assert(out@ =~= old(out)@ + natural_text(n as nat));
        }
    }
}

/// Appends the last `width` decimal digits of `f` to `out`.
fn push_fraction(out: &mut String, f: u64, width: u64)
    ensures
        final(out)@ == old(out)@ + fraction_text(f as nat, width as nat),
    decreases width,
{
    if width > 0 {
        push_fraction(out, f / 10, width - 1);
        out.append(digit_str(f % 10));
        proof {
            assert(out@ =~= old(out)@ + fraction_text(f as nat, width as nat));
        }
    } else {
        proof {
            assert(out@ =~= old(out)@ + fraction_text(f as nat, width as nat));
        }
    }
}

impl Fixed {
    /// The number as a decimal numeral: see [`decimal_text`].
    pub fn to_decimal_string(&self) -> (r: String)
        ensures
            r@ == decimal_text(self@),
    {
        let magnitude: u64 = if self.units < 0 {
            (-(self.units as i128)) as u64
        } else {
            self.units as u64
        };
        let mut out: String = String::new();
        if self.units < 0 {
            proof {
                reveal_strlit("-");
            }
            out.append("-");
        }
        let ghost signed = out@;
        push_natural(&mut out, magnitude / 1_000_000);
        let mut f: u64 = magnitude % 1_000_000;
        let mut width: u64 = 6;
        while width > 0 && f % 10 == 0
            invariant
                width <= 6,
                trimmed(fraction_text(f as nat, width as nat)) == trimmed(
                    fraction_text((magnitude % 1_000_000) as nat, 6),
                ),
            decreases width,
        {
            proof {
                let full = fraction_text(f as nat, width as nat);
                assert(full.last() == '0');
                assert(full.drop_last() =~= fraction_text((f / 10) as nat, (width - 1) as nat));
            }
            f = f / 10;
            width = width - 1;
        }
        proof {
            let full = fraction_text(f as nat, width as nat);
            if width > 0 {
                assert(full.last() == digit_char((f % 10) as nat));
                assert(full.last() != '0');
            }
            assert(trimmed(full) == full);
            assert(full.len() == width) by {
                lemma_fraction_text(f as nat, width as nat);
            }
        }
        if width > 0 {
            proof {
                reveal_strlit(".");
            }
            out.append(".");
            push_fraction(&mut out, f, width);
        }
        proof {
            assert(signed =~= if self.units < 0 {
                seq!['-']
            } else {
                Seq::<char>::empty()
            });
            assert(out@ =~= decimal_text(self@));
        }
        out
    }
}

/// The character of a digit is a digit and stands for it.
pub proof fn lemma_digit_char(d: nat)
    requires
        d < 10,
    ensures
        is_digit(digit_char(d)),
        digit_value(digit_char(d)) == d,
        digit_char(d) != '.',
        digit_char(d) != '+',
        digit_char(d) != '-',
        (digit_char(d) == '0') == (d == 0),
{
}

/// The text of a natural number is a run of digits, not empty, that writes
/// the number.
pub proof fn lemma_natural_text(n: nat)
    ensures
        natural_text(n).len() >= 1,
        all_digits(natural_text(n)),
        digits_value(natural_text(n)) == n,
    decreases n,
{
    if n < 10 {
        lemma_digit_char(n);
        let t = natural_text(n);
        assert(t.drop_last() =~= Seq::<char>::empty());
        assert(digits_value(t.drop_last()) == 0);
    } else {
        lemma_natural_text(n / 10);
        lemma_digit_char(n % 10);
        let t = natural_text(n);
        assert(t.drop_last() =~= natural_text(n / 10));
        assert forall|i: int| 0 <= i < t.len() implies is_digit(#[trigger] t[i]) by {
            if i < t.len() - 1 {
                assert(t[i] == natural_text(n / 10)[i]);
            }
        }
    }
}

/// The text of `width` digits is a run of digits that writes the number
/// below ten to the `width`.
pub proof fn lemma_fraction_text(f: nat, width: nat)
    ensures
        fraction_text(f, width).len() == width,
        all_digits(fraction_text(f, width)),
        digits_value(fraction_text(f, width)) == f % pow10(width),
    decreases width,
{
    if width > 0 {
        let p = pow10((width - 1) as nat);
        lemma_fraction_text(f / 10, (width - 1) as nat);
        lemma_digit_char(f % 10);
        let t = fraction_text(f, width);
        let init = fraction_text(f / 10, (width - 1) as nat);
        assert(t.drop_last() =~= init);
        assert forall|i: int| 0 <= i < t.len() implies is_digit(#[trigger] t[i]) by {
            if i < t.len() - 1 {
                assert(t[i] == init[i]);
            }
        }
        assert(p > 0) by {
            lemma_pow10_positive((width - 1) as nat);
        }
        vstd::arithmetic::div_mod::lemma_mod_breakdown(f as int, 10, p as int);
        assert(pow10(width) == 10 * p);
    }
}

/// Trimming a run of digits takes only zeros off its end.
pub proof fn lemma_trimmed(s: Seq<char>)
    ensures
        trimmed(s).len() <= s.len(),
        forall|i: int| 0 <= i < trimmed(s).len() ==> #[trigger] trimmed(s)[i] == s[i],
        forall|i: int| trimmed(s).len() <= i < s.len() ==> #[trigger] s[i] == '0',
        trimmed(s).len() > 0 ==> trimmed(s).last() != '0',
    decreases s.len(),
{
    if s.len() > 0 && s.last() == '0' {
        let init = s.drop_last();
        lemma_trimmed(init);
        assert forall|i: int| 0 <= i < trimmed(s).len() implies #[trigger] trimmed(s)[i]
            == s[i] by {
            assert(trimmed(init)[i] == init[i]);
        }
        assert forall|i: int| trimmed(s).len() <= i < s.len() implies #[trigger] s[i] == '0' by {
            if i < init.len() {
                assert(init[i] == '0');
            }
        }
    }
}

/// Trimming takes only zeros off, so the digits that stay, with the zeros put
/// back, write the same number.
pub proof fn lemma_trimmed_value(full: Seq<char>)
    requires
        all_digits(full),
    ensures
        all_digits(trimmed(full)),
        digits_value(trimmed(full)) * pow10((full.len() - trimmed(full).len()) as nat)
            == digits_value(full),
{
    lemma_trimmed(full);
    let kept = trimmed(full);
    let zeros = full.skip(kept.len() as int);
    assert(full =~= kept + zeros);
    assert forall|i: int| 0 <= i < kept.len() implies is_digit(#[trigger] kept[i]) by {
        assert(kept[i] == full[i]);
    }
    assert forall|i: int| 0 <= i < zeros.len() implies #[trigger] zeros[i] == '0' by {
        assert(zeros[i] == full[i + kept.len()]);
    }
    lemma_zeros_value(zeros);
    lemma_digits_concat(kept, zeros);
}

/// Reading back what was written gives the number: the text of a number is a
/// decimal numeral, and the numeral denotes the number.
pub proof fn lemma_decimal_text_reads_back(x: Fixed)
    ensures
        is_decimal(decimal_text(x@)),
        decimal_value(decimal_text(x@)) == x,
{
    let units = x@;
    let magnitude = if units < 0 {
        -units
    } else {
        units
    };
    let whole = natural_text((magnitude / 1_000_000) as nat);
    let full = fraction_text((magnitude % 1_000_000) as nat, 6);
    let fraction = trimmed(full);
    let body = if fraction.len() == 0 {
        whole
    } else {
        whole + seq!['.'] + fraction
    };
    let text = decimal_text(units);
    lemma_natural_text((magnitude / 1_000_000) as nat);
    lemma_fraction_text((magnitude % 1_000_000) as nat, 6);
    lemma_trimmed(full);
    lemma_trimmed_value(full);
    assert(pow10(6) == 1_000_000) by {
        reveal_with_fuel(pow10, 8);
    }
    assert(is_digit(whole[0]));
    assert(body[0] == whole[0]);
    assert(text[0] == if units < 0 {
        '-'
    } else {
        whole[0]
    });
    assert(sign_len(text) == if units < 0 {
        1int
    } else {
        0int
    });
    assert(body_of(text) =~= body);
    assert forall|k: int| 0 <= k < body.len() implies !is_exp_mark(body[k]) by {
        if k < whole.len() {
            assert(body[k] == whole[k]);
            assert(is_digit(whole[k]));
        } else if k > whole.len() {
            assert(body[k] == fraction[k - whole.len() - 1]);
            assert(is_digit(fraction[k - whole.len() - 1]));
        } else {
            assert(body[k] == '.');
        }
    }
    lemma_first_exp(body, body.len() as int);
    assert(mantissa_of(text) =~= body);
    assert(!has_exponent(text));
    assert(exponent_of(text) =~= Seq::<char>::empty());
    assert(exponent_digits(text) =~= Seq::<char>::empty());
    assert(exponent_value(text) == 0);
    assert forall|k: int| 0 <= k < whole.len() implies body[k] != '.' by {
        assert(body[k] == whole[k]);
        assert(is_digit(whole[k]));
    }
    if fraction.len() > 0 {
        assert(body[whole.len() as int] == '.');
    }
    lemma_first_dot(body, whole.len() as int);
    assert(whole_digits(text) =~= whole);
    assert(fraction_digits(text) =~= fraction);
    lemma_digits_concat(whole, fraction);
    let gap = (6 - fraction.len()) as nat;
    lemma_pow10_adds(fraction.len(), gap);
    assert(decimal_magnitude(text) == magnitude) by {
        let w = digits_value(whole);
        let f = digits_value(fraction);
        let pf = pow10(fraction.len());
        let pg = pow10(gap);
        assert(digits_value(whole + fraction) == w * pf + f);
        assert(f * pg == digits_value(full));
        assert(pf * pg == 1_000_000);
        assert((w * pf + f) * pg == w * (pf * pg) + f * pg) by (nonlinear_arith);
        assert(w == magnitude / 1_000_000);
        assert(digits_value(full) == magnitude % 1_000_000);
        assert(scaled(digits_value(whole + fraction), gap as int) == (w * pf + f) * pg);
    }
    assert(is_negative(text) == (units < 0));
}

} // verus!
