//! The maintainability indices: one weighted by the means of five metrics,
//! one by how many values of five metrics lie beyond their outlier bounds.

use crate::fixed::{clamp, floor_div, units_of, Fixed};
use crate::metrics::{ClassAndMetricStruct, MetricsData};
use crate::schema::Metric;
use vstd::prelude::*;

verus! {

/// What one class can add to the four sub-totals at most: the sum of all
/// weights.
pub const WEIGHT_CEILING: u128 = 35;

/// The mean-weighted index, in units: the mean of two halves, one
/// `0.25 * dam - 0.25 * cbo + 0.5 * moa`, the other
/// `0.5 * dit - 0.5 * cbo + 0.5 * mfa`, rounded down to a millionth.
pub open spec fn maintainability_index(cbo: int, dam: int, moa: int, dit: int, mfa: int) -> int {
    clamp(((dam - cbo + 2 * moa) + 2 * (dit - cbo + mfa)) / 8)
}

/// The mean-weighted maintainability index of a project, from the means of
/// its couplings, data access, aggregation, inheritance depth and functional
/// abstraction.
pub fn compute_maintainability_metric(
    mean_cbo: Fixed,
    mean_dam: Fixed,
    mean_moa: Fixed,
    mean_dit: Fixed,
    mean_mfa: Fixed,
) -> (r: Fixed)
    ensures
        r@ == maintainability_index(mean_cbo@, mean_dam@, mean_moa@, mean_dit@, mean_mfa@),
{
    let first: i128 = mean_dam.units as i128 - mean_cbo.units as i128 + 2 * (mean_moa.units as i128);
    let second: i128 = mean_dit.units as i128 - mean_cbo.units as i128 + mean_mfa.units as i128;
    Fixed::saturating(floor_div(first + 2 * second, 8))
}

/// The mean-weighted index where a mean may be missing: none as soon as one
/// of the five is.
pub open spec fn maintainability_of_means(
    cbo: Option<Fixed>,
    dam: Option<Fixed>,
    moa: Option<Fixed>,
    dit: Option<Fixed>,
    mfa: Option<Fixed>,
) -> Option<int> {
    if cbo is Some && dam is Some && moa is Some && dit is Some && mfa is Some {
        Some(maintainability_index(cbo->0@, dam->0@, moa->0@, dit->0@, mfa->0@))
    } else {
        None
    }
}

/// The mean-weighted index of means of which some may be missing.
pub fn maintainability_from_means(
    mean_cbo: Option<Fixed>,
    mean_dam: Option<Fixed>,
    mean_moa: Option<Fixed>,
    mean_dit: Option<Fixed>,
    mean_mfa: Option<Fixed>,
) -> (r: Option<Fixed>)
    ensures
        units_of(r) == maintainability_of_means(mean_cbo, mean_dam, mean_moa, mean_dit, mean_mfa),
{
    match (mean_cbo, mean_dam, mean_moa, mean_dit, mean_mfa) {
        (Some(cbo), Some(dam), Some(moa), Some(dit), Some(mfa)) => Some(
            compute_maintainability_metric(cbo, dam, moa, dit, mfa),
        ),
        _ => None,
    }
}

/// How a value on an outlier bound is taken.
#[derive(Clone, Copy, Debug, PartialEq, Eq, Structural)]
pub enum BoundPolicy {
    /// A value on a bound is an outlier.
    Inclusive,
    /// A value on a bound is none.
    Exclusive,
}

/// One of the four sides of maintainability.
#[derive(Clone, Copy, Debug, PartialEq, Eq, Structural)]
pub enum SubIndex {
    Analyzability,
    Changeability,
    Stability,
    Testability,
}

/// Whether `value` lies beyond the bounds `low` and `high`.
pub open spec fn is_outlier(value: int, low: int, high: int, policy: BoundPolicy) -> bool {
    match policy {
        BoundPolicy::Inclusive => value <= low || value >= high,
        BoundPolicy::Exclusive => value < low || value > high,
    }
}

/// How many of the values lie beyond the bounds.
pub open spec fn outlier_count(values: Seq<Fixed>, low: int, high: int, policy: BoundPolicy) -> nat
    decreases values.len(),
{
    if values.len() == 0 {
        0
    } else {
        outlier_count(values.drop_last(), low, high, policy) + if is_outlier(
            values.last()@,
            low,
            high,
            policy,
        ) {
            1nat
        } else {
            0nat
        }
    }
}

/// The outliers of a series by its own bounds; none while it has no bounds.
pub open spec fn series_outliers(series: MetricsData, policy: BoundPolicy) -> nat {
    if series.limits@.len() == 2 {
        outlier_count(series.values@, series.limits@[0]@, series.limits@[1]@, policy)
    } else {
        0
    }
}

/// What an outlier of `metric` adds to the sub-total `sub`. Coupling and lack
/// of cohesion weigh two on every side; inheritance depth and the number of
/// methods weigh one on stability and two elsewhere; the number of children
/// weighs two on changeability and one elsewhere. No other metric weighs.
pub open spec fn weight(metric: Metric, sub: SubIndex) -> nat {
    match metric {
        Metric::Cbo => 2,
        Metric::Lcom => 2,
        Metric::Dit => match sub {
            SubIndex::Stability => 1,
            _ => 2,
        },
        Metric::WmcNom => match sub {
            SubIndex::Stability => 1,
            _ => 2,
        },
        Metric::Noc => match sub {
            SubIndex::Changeability => 2,
            _ => 1,
        },
        _ => 0,
    }
}

/// The weights of one metric add up over the four sides, and those of all
/// metrics to the ceiling of one class.
pub proof fn lemma_weights_add_up()
    ensures
        weight(Metric::Cbo, SubIndex::Analyzability) + weight(Metric::Cbo, SubIndex::Changeability)
            + weight(Metric::Cbo, SubIndex::Stability) + weight(Metric::Cbo, SubIndex::Testability)
            + weight(Metric::Dit, SubIndex::Analyzability) + weight(
            Metric::Dit,
            SubIndex::Changeability,
        ) + weight(Metric::Dit, SubIndex::Stability) + weight(Metric::Dit, SubIndex::Testability)
            + weight(Metric::Lcom, SubIndex::Analyzability) + weight(
            Metric::Lcom,
            SubIndex::Changeability,
        ) + weight(Metric::Lcom, SubIndex::Stability) + weight(Metric::Lcom, SubIndex::Testability)
            + weight(Metric::Noc, SubIndex::Analyzability) + weight(
            Metric::Noc,
            SubIndex::Changeability,
        ) + weight(Metric::Noc, SubIndex::Stability) + weight(Metric::Noc, SubIndex::Testability)
            + weight(Metric::WmcNom, SubIndex::Analyzability) + weight(
            Metric::WmcNom,
            SubIndex::Changeability,
        ) + weight(Metric::WmcNom, SubIndex::Stability) + weight(
            Metric::WmcNom,
            SubIndex::Testability,
        ) == WEIGHT_CEILING,
{
}

/// The sub-total of one side: over the five weighted metrics, the outliers of
/// the series times the weight of the metric.
pub open spec fn sub_total(metrics: Seq<MetricsData>, sub: SubIndex, policy: BoundPolicy) -> nat {
    weight(Metric::Cbo, sub) * series_outliers(metrics[3], policy) + weight(Metric::Dit, sub)
        * series_outliers(metrics[1], policy) + weight(Metric::Lcom, sub) * series_outliers(
        metrics[5],
        policy,
    ) + weight(Metric::Noc, sub) * series_outliers(metrics[2], policy) + weight(
        Metric::WmcNom,
        sub,
    ) * series_outliers(metrics[0], policy)
}

/// The four sub-totals of a project.
#[derive(Clone, Copy, Debug, PartialEq, Eq, Structural)]
pub struct SubTotals {
    pub analyzability: u128,
    pub changeability: u128,
    pub stability: u128,
    pub testability: u128,
}

impl SubTotals {
    /// The raw index: the four sub-totals added up.
    pub open spec fn spec_raw(self) -> nat {
        (self.analyzability + self.changeability + self.stability + self.testability) as nat
    }

    /// The raw index: the four sub-totals added up; the largest number where
    /// the sum does not fit.
    pub fn raw(self) -> (r: u128)
        ensures
            r == if self.spec_raw() <= u128::MAX {
                self.spec_raw()
            } else {
                u128::MAX as nat
            },
    {
        self.analyzability.saturating_add(self.changeability).saturating_add(
            self.stability,
        ).saturating_add(self.testability)
    }
}

/// The raw index over one ceiling per class, in units, rounded down; where
/// `inverted` holds, what it leaves of one whole.
pub open spec fn normalized_units(raw: nat, class_count: nat, inverted: bool) -> Option<int> {
    if class_count == 0 {
        None
    } else {
        let share = clamp(((raw * 1_000_000) / (35 * class_count)) as int);
        if inverted {
            Some(clamp(1_000_000 - share))
        } else {
            Some(share)
        }
    }
}

/// Counts the values of a series that lie beyond its outlier bounds.
pub fn count_outliers(series: &MetricsData, policy: BoundPolicy) -> (r: usize)
    ensures
        r == series_outliers(*series, policy),
{
    if series.limits.len() != 2 {
        return 0;
    }
    let low: i64 = series.limits[0].units;
    let high: i64 = series.limits[1].units;
    let n: usize = series.values.len();
    let mut count: usize = 0;
    let mut i: usize = 0;
    while i < n
        invariant
            i <= n == series.values@.len(),
            count <= i,
            count == outlier_count(series.values@.take(i as int), low as int, high as int, policy),
        decreases n - i,
    {
        let v: i64 = series.values[i].units;
        let beyond: bool = match policy {
            BoundPolicy::Inclusive => v <= low || v >= high,
            BoundPolicy::Exclusive => v < low || v > high,
        };
        proof {
            assert(series.values@.take(i + 1).drop_last() =~= series.values@.take(i as int));
        }
        if beyond {
            count = count + 1;
        }
        i = i + 1;
    }
    proof {
        assert(series.values@.take(n as int) =~= series.values@);
    }
    count
}

/// The four sub-totals of a project whose outlier bounds were generated: each
/// value of coupling, inheritance depth, lack of cohesion, number of children
/// and number of methods that lies beyond the bounds of its series adds the
/// weights of its metric.
pub fn outlier_sub_totals(summary: &ClassAndMetricStruct, policy: BoundPolicy) -> (r: SubTotals)
    requires
        summary.initialized(),
    ensures
        r.analyzability == sub_total(summary.metrics@, SubIndex::Analyzability, policy),
        r.changeability == sub_total(summary.metrics@, SubIndex::Changeability, policy),
        r.stability == sub_total(summary.metrics@, SubIndex::Stability, policy),
        r.testability == sub_total(summary.metrics@, SubIndex::Testability, policy),
        r.spec_raw() <= 40 * 0xffff_ffff_ffff_ffff,
{
    let cbo: u128 = count_outliers(&summary.metrics[3], policy) as u128;
    let dit: u128 = count_outliers(&summary.metrics[1], policy) as u128;
    let lcom: u128 = count_outliers(&summary.metrics[5], policy) as u128;
    let noc: u128 = count_outliers(&summary.metrics[2], policy) as u128;
    let wmc: u128 = count_outliers(&summary.metrics[0], policy) as u128;
    proof {
        lemma_weighted(Metric::Cbo, cbo as nat);
        lemma_weighted(Metric::Dit, dit as nat);
        lemma_weighted(Metric::Lcom, lcom as nat);
        lemma_weighted(Metric::Noc, noc as nat);
        lemma_weighted(Metric::WmcNom, wmc as nat);
    }
    SubTotals {
        analyzability: 2 * cbo + 2 * dit + 2 * lcom + noc + 2 * wmc,
        changeability: 2 * cbo + 2 * dit + 2 * lcom + 2 * noc + 2 * wmc,
        stability: 2 * cbo + dit + 2 * lcom + noc + wmc,
        testability: 2 * cbo + 2 * dit + 2 * lcom + noc + 2 * wmc,
    }
}

/// A weight times a count is the count, or twice the count, or nothing.
proof fn lemma_weighted(metric: Metric, count: nat)
    ensures
        forall|sub: SubIndex|
            #[trigger] (weight(metric, sub) * count) == if weight(metric, sub) == 2 {
                2 * count
            } else if weight(metric, sub) == 1 {
                count
            } else {
                0
            },
{
    assert forall|sub: SubIndex|
        #[trigger] (weight(metric, sub) * count) == if weight(metric, sub) == 2 {
            2 * count
        } else if weight(metric, sub) == 1 {
            count
        } else {
            0
        } by {
        let w = weight(metric, sub);
        assert(w == 0 || w == 1 || w == 2);
        assert(w * count == if w == 2 {
            2 * count
        } else if w == 1 {
            count
        } else {
            0
        }) by (nonlinear_arith)
            requires
                w == 0 || w == 1 || w == 2,
        ;
    }
}

/// The raw index over one ceiling per class; none of no classes. With
/// `inverted` the result is what the share leaves of one whole, so that more
/// is better.
pub fn normalized_maintainability(raw: u128, class_count: usize, inverted: bool) -> (r: Option<
    Fixed,
>)
    ensures
        units_of(r) == normalized_units(raw as nat, class_count as nat, inverted),
{
    if class_count == 0 {
        return None;
    }
    let divisor: u128 = 35 * (class_count as u128);
    let whole: u128 = raw / divisor;
    let rest: u128 = raw % divisor;
    let part: u128 = (rest * 1_000_000) / divisor;
    proof {
        let d = divisor as int;
        assert(raw == d * whole + rest) by {
            vstd::arithmetic::div_mod::lemma_fundamental_div_mod(raw as int, d);
        }
        assert((raw * 1_000_000) == rest * 1_000_000 + (whole * 1_000_000) * d)
            by (nonlinear_arith)
            requires
                raw == d * whole + rest,
        ;
        vstd::arithmetic::div_mod::lemma_hoist_over_denominator(
            rest * 1_000_000,
            whole * 1_000_000,
            d as nat,
        );
        assert((raw * 1_000_000) / d == part + whole * 1_000_000);
        assert(part < 1_000_000) by (nonlinear_arith)
            requires
                part == (rest * 1_000_000) / d,
                0 <= rest < d,
        ;
    }
    let share: Fixed = if whole > 9_223_372_036_854 {
        Fixed::max_value()
    } else {
        Fixed::saturating((whole * 1_000_000 + part) as i128)
    };
    if inverted {
        Some(Fixed::saturating(1_000_000 - share.units as i128))
    } else {
        Some(share)
    }
}

} // verus!
