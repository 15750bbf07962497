//! The reusability score: a linear model over a class's coupling, functional
//! abstraction and data access.

use crate::fixed::{clamp, floor_div, units_of, Fixed};
use vstd::prelude::*;

verus! {

/// The constant term of the model, in thousandths of a unit: -37.111.
pub const INTERCEPT_MILLIS: i128 = -37_111_000_000;

/// The weight of the coupling, in thousandths: 3.973.
pub const CBO_MILLIS: i128 = 3_973;

/// The weight of the functional abstraction, in thousandths: 32.500.
pub const MFA_MILLIS: i128 = 32_500;

/// The weight of the data access, in thousandths: 20.709.
pub const DAM_MILLIS: i128 = 20_709;

/// The score of one class before it is rounded, in thousandths of a unit:
/// `-37.111 + 3.973 * cbo + 32.500 * mfa + 20.709 * dam`.
pub open spec fn reusability_thousandths(cbo: int, mfa: int, dam: int) -> int {
    -37_111_000_000 + 3_973 * cbo + 32_500 * mfa + 20_709 * dam
}

/// The score of one class, in units: rounded down to a millionth and clamped
/// into range.
pub open spec fn reusability_score(cbo: int, mfa: int, dam: int) -> int {
    clamp(reusability_thousandths(cbo, mfa, dam) / 1000)
}

/// The score is linear in its three inputs: a step in an input moves the
/// score by the weight of the input times the step, wherever it starts.
pub proof fn lemma_reusability_is_linear(
    cbo: int,
    mfa: int,
    dam: int,
    cbo_step: int,
    mfa_step: int,
    dam_step: int,
)
    ensures
        reusability_thousandths(cbo + cbo_step, mfa + mfa_step, dam + dam_step)
            - reusability_thousandths(cbo, mfa, dam) == 3_973 * cbo_step + 32_500 * mfa_step
            + 20_709 * dam_step,
        reusability_thousandths(0, 0, 0) == -37_111_000_000,
{
}

/// The scores of the first `n` classes, added up.
pub open spec fn reusability_sum(cbo: Seq<Fixed>, mfa: Seq<Fixed>, dam: Seq<Fixed>, n: nat) -> int
    decreases n,
{
    if n == 0 {
        0
    } else {
        reusability_sum(cbo, mfa, dam, (n - 1) as nat) + reusability_score(
            cbo[n - 1]@,
            mfa[n - 1]@,
            dam[n - 1]@,
        )
    }
}

/// The sum of `n` scores lies within what `n` numbers can add up to.
pub proof fn lemma_reusability_sum_bounds(
    cbo: Seq<Fixed>,
    mfa: Seq<Fixed>,
    dam: Seq<Fixed>,
    n: nat,
)
    ensures
        n * i64::MIN <= reusability_sum(cbo, mfa, dam, n) <= n * i64::MAX,
    decreases n,
{
    if n > 0 {
        lemma_reusability_sum_bounds(cbo, mfa, dam, (n - 1) as nat);
    }
}

/// The score of one class.
pub fn class_reusability(cbo: Fixed, mfa: Fixed, dam: Fixed) -> (r: Fixed)
    ensures
        r@ == reusability_score(cbo@, mfa@, dam@),
{
    let weighted: i128 = INTERCEPT_MILLIS + CBO_MILLIS * (cbo.units as i128) + MFA_MILLIS * (
    mfa.units as i128) + DAM_MILLIS * (dam.units as i128);
    Fixed::saturating(floor_div(weighted, 1000))
}

/// The sum of the scores of the classes, clamped into range. The three lists
/// go by class: the `i`-th class has the `i`-th value of each, and there are
/// as many classes as couplings.
pub fn compute_reusability_metric(
    cbo_values: &Vec<Fixed>,
    mfa_values: Vec<Fixed>,
    dam_values: Vec<Fixed>,
) -> (r: Fixed)
    requires
        cbo_values@.len() <= mfa_values@.len(),
        cbo_values@.len() <= dam_values@.len(),
    ensures
        r@ == clamp(reusability_sum(cbo_values@, mfa_values@, dam_values@, cbo_values@.len())),
{
    Fixed::saturating(sum_of_scores(cbo_values, &mfa_values, &dam_values))
}

/// The mean of the scores of the classes, rounded down; none of no classes.
pub fn mean_reusability(
    cbo_values: &Vec<Fixed>,
    mfa_values: &Vec<Fixed>,
    dam_values: &Vec<Fixed>,
) -> (r: Option<Fixed>)
    requires
        cbo_values@.len() <= mfa_values@.len(),
        cbo_values@.len() <= dam_values@.len(),
    ensures
        units_of(r) == if cbo_values@.len() == 0 {
            None
        } else {
            Some(
                clamp(
                    reusability_sum(cbo_values@, mfa_values@, dam_values@, cbo_values@.len()) / (
                    cbo_values@.len() as int),
                ),
            )
        },
{
    let n: usize = cbo_values.len();
    if n == 0 {
        None
    } else {
        let sum: i128 = sum_of_scores(cbo_values, mfa_values, dam_values);
        Some(Fixed::saturating(floor_div(sum, n as i128)))
    }
}

/// The scores of the classes, added up.
fn sum_of_scores(cbo_values: &Vec<Fixed>, mfa_values: &Vec<Fixed>, dam_values: &Vec<Fixed>) -> (r:
    i128)
    requires
        cbo_values@.len() <= mfa_values@.len(),
        cbo_values@.len() <= dam_values@.len(),
    ensures
        r == reusability_sum(cbo_values@, mfa_values@, dam_values@, cbo_values@.len()),
{
    let n: usize = cbo_values.len();
    let mut sum: i128 = 0;
    let mut i: usize = 0;
    while i < n
        invariant
            i <= n == cbo_values@.len(),
            n <= mfa_values@.len(),
            n <= dam_values@.len(),
            sum == reusability_sum(cbo_values@, mfa_values@, dam_values@, i as nat),
        decreases n - i,
    {
        proof {
            lemma_reusability_sum_bounds(cbo_values@, mfa_values@, dam_values@, i as nat);
        }
        let score = class_reusability(cbo_values[i], mfa_values[i], dam_values[i]);
        sum = sum + score.units as i128;
        i = i + 1;
    }
    sum
}

} // verus!
