use ckjm_analyzer::fixed::Fixed;
use ckjm_analyzer::maintainability::{
    compute_maintainability_metric, count_outliers, maintainability_from_means,
    normalized_maintainability, outlier_sub_totals, BoundPolicy, SubTotals,
};
use ckjm_analyzer::metrics::{ClassAndMetricStruct, MetricsData};

fn fx(text: &str) -> Fixed {
    Fixed::parse(text).unwrap()
}

fn series_of(values: &[&str]) -> MetricsData {
    let mut series = MetricsData::new();
    for v in values {
        series.add_metric_value(fx(v));
    }
    series.generate_limits();
    series
}

fn project_with(series: &[(usize, &[&str])]) -> ClassAndMetricStruct {
    let mut project = ClassAndMetricStruct::new();
    project.initialize_metrics();
    for (position, values) in series {
        for v in *values {
            project.add_metric_value(*position, fx(v));
        }
    }
    project.generate_limits();
    project
}

#[test]
fn mean_weighted_index_of_zero_means() {
    assert_eq!(compute_maintainability_metric(fx("0"), fx("0"), fx("0"), fx("0"), fx("0")), fx("0"));
}

#[test]
fn mean_weighted_index_weighs_each_mean() {
    // cbo weighs -0.375, dam 0.125, moa, dit and mfa 0.25 each
    assert_eq!(compute_maintainability_metric(fx("1"), fx("0"), fx("0"), fx("0"), fx("0")), fx("-0.375"));
    assert_eq!(compute_maintainability_metric(fx("0"), fx("1"), fx("0"), fx("0"), fx("0")), fx("0.125"));
    assert_eq!(compute_maintainability_metric(fx("0"), fx("0"), fx("1"), fx("0"), fx("0")), fx("0.25"));
    assert_eq!(compute_maintainability_metric(fx("0"), fx("0"), fx("0"), fx("1"), fx("0")), fx("0.25"));
    assert_eq!(compute_maintainability_metric(fx("0"), fx("0"), fx("0"), fx("0"), fx("1")), fx("0.25"));
}

#[test]
fn mean_weighted_index_of_a_project() {
    // 0.5 * (0.25 * 0.8 - 0.25 * 6 + 0.5 * 2) + 0.5 * (0.5 * 1.5 - 0.5 * 6 + 0.5 * 0.4)
    // = 0.5 * (-0.3) + 0.5 * (-2.05) = -1.175
    assert_eq!(
        compute_maintainability_metric(fx("6"), fx("0.8"), fx("2"), fx("1.5"), fx("0.4")),
        fx("-1.175")
    );
}

#[test]
fn mean_weighted_index_rounds_down() {
    // one unit of dam is an eighth of a unit of index: rounded down to nothing
    assert_eq!(
        compute_maintainability_metric(fx("0"), Fixed::from_units(1), fx("0"), fx("0"), fx("0")),
        fx("0")
    );
    assert_eq!(
        compute_maintainability_metric(fx("0"), Fixed::from_units(-1), fx("0"), fx("0"), fx("0")),
        Fixed::from_units(-1)
    );
}

#[test]
fn mean_weighted_index_is_clamped() {
    let top = Fixed::max_value();
    let bottom = Fixed::min_value();
    assert_eq!(compute_maintainability_metric(bottom, top, top, top, top), Fixed::max_value());
    assert_eq!(compute_maintainability_metric(top, bottom, bottom, bottom, bottom), Fixed::min_value());
}

#[test]
fn mean_weighted_index_needs_every_mean() {
    let one = Some(fx("1"));
    assert_eq!(maintainability_from_means(one, one, one, one, one), Some(fx("0.5")));
    assert_eq!(maintainability_from_means(None, one, one, one, one), None);
    assert_eq!(maintainability_from_means(one, None, one, one, one), None);
    assert_eq!(maintainability_from_means(one, one, None, one, one), None);
    assert_eq!(maintainability_from_means(one, one, one, None, one), None);
    assert_eq!(maintainability_from_means(one, one, one, one, None), None);
}

#[test]
fn outliers_lie_beyond_the_bounds() {
    // bounds 1.5 and 8.5
    let series = series_of(&["0", "10", "1.5", "5", "8.5", "9", "1.4"]);
    assert_eq!(count_outliers(&series, BoundPolicy::Inclusive), 6);
    assert_eq!(count_outliers(&series, BoundPolicy::Exclusive), 4);
}

#[test]
fn outliers_of_a_series_without_bounds() {
    let mut series = MetricsData::new();
    series.add_metric_value(fx("1"));
    series.add_metric_value(fx("100"));
    assert_eq!(count_outliers(&series, BoundPolicy::Inclusive), 0);
    assert_eq!(count_outliers(&MetricsData::new(), BoundPolicy::Inclusive), 0);
}

#[test]
fn values_at_the_midpoint_are_no_outliers() {
    // two classes, each metric the same for both: every value on the midpoint of its range
    let project = project_with(&[
        (3, &["5", "5"]),
        (1, &["2", "2"]),
        (5, &["7", "7"]),
        (2, &["1", "1"]),
        (0, &["12", "12"]),
    ]);
    let totals = outlier_sub_totals(&project, BoundPolicy::Exclusive);
    assert_eq!(
        totals,
        SubTotals { analyzability: 0, changeability: 0, stability: 0, testability: 0 }
    );
    assert_eq!(totals.raw(), 0);
}

#[test]
fn values_on_a_bound_are_outliers_where_bounds_count() {
    // a range of one point has both bounds on it: every value lies on them
    let project = project_with(&[
        (3, &["5", "5"]),
        (1, &["2", "2"]),
        (5, &["7", "7"]),
        (2, &["1", "1"]),
        (0, &["12", "12"]),
    ]);
    let totals = outlier_sub_totals(&project, BoundPolicy::Inclusive);
    assert_eq!(
        totals,
        SubTotals { analyzability: 18, changeability: 20, stability: 14, testability: 18 }
    );
    assert_eq!(totals.raw(), 70);
}

#[test]
fn each_metric_adds_its_own_weights() {
    let rows: [(usize, [u128; 4]); 5] = [
        (3, [2, 2, 2, 2]),
        (1, [2, 2, 1, 2]),
        (5, [2, 2, 2, 2]),
        (2, [1, 2, 1, 1]),
        (0, [2, 2, 1, 2]),
    ];
    for (position, weights) in rows {
        // one value below the lower bound, two inside
        let project = project_with(&[(position, &["0", "5", "5", "10"])]);
        let totals = outlier_sub_totals(&project, BoundPolicy::Exclusive);
        assert_eq!(
            [totals.analyzability, totals.changeability, totals.stability, totals.testability],
            [2 * weights[0], 2 * weights[1], 2 * weights[2], 2 * weights[3]]
        );
    }
}

#[test]
fn other_metrics_add_nothing() {
    let project = project_with(&[(4, &["0", "5", "10"]), (10, &["0", "5", "10"]), (18, &["1", "9"])]);
    let totals = outlier_sub_totals(&project, BoundPolicy::Inclusive);
    assert_eq!(totals.raw(), 0);
}

#[test]
fn raw_index_adds_the_sub_totals() {
    let totals = SubTotals { analyzability: 1, changeability: 2, stability: 3, testability: 4 };
    assert_eq!(totals.raw(), 10);
    let full = SubTotals { analyzability: u128::MAX, changeability: 1, stability: 0, testability: 0 };
    assert_eq!(full.raw(), u128::MAX);
}

#[test]
fn normalized_index_is_the_raw_over_the_ceiling() {
    assert_eq!(normalized_maintainability(35, 1, false), Some(fx("1")));
    assert_eq!(normalized_maintainability(0, 4, false), Some(fx("0")));
    assert_eq!(normalized_maintainability(7, 2, false), Some(fx("0.1")));
    // 10 / 105 = 0.095238095...
    assert_eq!(normalized_maintainability(10, 3, false), Some(fx("0.095238")));
    assert_eq!(normalized_maintainability(70, 1, false), Some(fx("2")));
}

#[test]
fn normalized_index_inverted() {
    assert_eq!(normalized_maintainability(35, 1, true), Some(fx("0")));
    assert_eq!(normalized_maintainability(0, 4, true), Some(fx("1")));
    assert_eq!(normalized_maintainability(7, 2, true), Some(fx("0.9")));
    assert_eq!(normalized_maintainability(10, 3, true), Some(fx("0.904762")));
}

#[test]
fn normalized_index_of_no_classes_is_missing() {
    assert_eq!(normalized_maintainability(0, 0, false), None);
    assert_eq!(normalized_maintainability(5, 0, true), None);
}

#[test]
fn normalized_index_is_clamped() {
    assert_eq!(normalized_maintainability(u128::MAX, 1, false), Some(Fixed::max_value()));
    assert_eq!(
        normalized_maintainability(u128::MAX, 1, true),
        Some(Fixed::from_units(1_000_000 - i64::MAX))
    );
    // just inside the range: 35 * 9223372036854 / 35
    assert_eq!(
        normalized_maintainability(35 * 9_223_372_036_854, 1, false),
        Some(fx("9223372036854"))
    );
}
