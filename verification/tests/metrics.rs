use ckjm_analyzer::fixed::Fixed;
use ckjm_analyzer::metrics::{
    ClassAndMetricStruct, ClassData, MetricMean, MetricRange, MetricsData,
};
use ckjm_analyzer::schema::Metric;

fn fx(text: &str) -> Fixed {
    Fixed::parse(text).unwrap()
}

fn names(items: &[&str]) -> Vec<String> {
    items.iter().map(|s| s.to_string()).collect()
}

#[test]
fn range_follows_the_values() {
    let mut range = MetricRange { min: Fixed::max_value(), max: Fixed::min_value() };
    range.update_min_max(fx("3"));
    assert_eq!((range.min, range.max), (fx("3"), fx("3")));
    range.update_min_max(fx("-1.5"));
    assert_eq!((range.min, range.max), (fx("-1.5"), fx("3")));
    range.update_min_max(fx("7"));
    assert_eq!((range.min, range.max), (fx("-1.5"), fx("7")));
    range.update_min_max(fx("2"));
    assert_eq!((range.min, range.max), (fx("-1.5"), fx("7")));
}

#[test]
fn mean_of_nothing_is_missing() {
    let mut mean = MetricMean::new();
    assert_eq!((mean.acc, mean.count, mean.mean), (0, 0, None));
    mean.compute_mean();
    assert_eq!(mean.mean, None);
}

#[test]
fn mean_is_the_sum_over_the_count() {
    let mut mean = MetricMean::new();
    mean.add_value(fx("1"));
    mean.add_value(fx("2"));
    mean.add_value(fx("4"));
    assert_eq!(mean.acc, 7_000_000);
    assert_eq!(mean.count, 3);
    assert_eq!(mean.mean, None);
    mean.compute_mean();
    assert_eq!(mean.mean, Some(fx("2.333333")));
}

#[test]
fn mean_rounds_down_below_zero() {
    let mut mean = MetricMean::new();
    mean.add_value(fx("-1"));
    mean.add_value(fx("-1"));
    mean.add_value(fx("-2"));
    mean.compute_mean();
    assert_eq!(mean.mean, Some(fx("-1.333334")));
}

#[test]
fn series_keeps_values_range_and_sum() {
    let mut series = MetricsData::new();
    assert!(series.values.is_empty());
    assert!(series.limits.is_empty());
    series.add_metric_value(fx("5"));
    series.add_metric_value(fx("1"));
    series.add_metric_value(fx("9"));
    assert_eq!(series.values, vec![fx("5"), fx("1"), fx("9")]);
    assert_eq!(series.range.min, fx("1"));
    assert_eq!(series.range.max, fx("9"));
    assert_eq!(series.mean.acc, 15_000_000);
    assert_eq!(series.mean.count, 3);
    series.compute_mean();
    assert_eq!(series.mean.mean, Some(fx("5")));
}

#[test]
fn limits_lie_fifteen_hundredths_inside_the_range() {
    let mut series = MetricsData::new();
    series.add_metric_value(fx("0"));
    series.add_metric_value(fx("10"));
    series.add_metric_value(fx("4"));
    series.generate_limits();
    assert_eq!(series.limits, vec![fx("1.5"), fx("8.5")]);
}

#[test]
fn limits_round_the_tail_down() {
    let mut series = MetricsData::new();
    series.add_metric_value(Fixed::from_units(0));
    series.add_metric_value(Fixed::from_units(7));
    series.generate_limits();
    // the tail is 1.05 units wide, rounded down to 1
    assert_eq!(series.limits, vec![Fixed::from_units(1), Fixed::from_units(6)]);
}

#[test]
fn limits_of_a_range_of_one_point() {
    let mut series = MetricsData::new();
    series.add_metric_value(fx("5"));
    series.add_metric_value(fx("5"));
    series.generate_limits();
    assert_eq!(series.limits, vec![fx("5"), fx("5")]);
}

#[test]
fn limits_of_no_values_are_missing() {
    let mut series = MetricsData::new();
    series.generate_limits();
    assert!(series.limits.is_empty());
    series.compute_mean();
    assert_eq!(series.mean.mean, None);
}

#[test]
fn limits_stay_within_the_range() {
    let cases: [&[&str]; 5] = [
        &["1", "2"],
        &["-5", "5", "0.3"],
        &["0.000001", "0.000002"],
        &["-9223372036854.775808", "9223372036854.775807"],
        &["3", "3", "3"],
    ];
    for values in cases {
        let mut series = MetricsData::new();
        for v in values {
            series.add_metric_value(fx(v));
        }
        series.generate_limits();
        assert_eq!(series.limits.len(), 2);
        assert!(series.range.min.units <= series.limits[0].units);
        assert!(series.limits[0].units <= series.limits[1].units);
        assert!(series.limits[1].units <= series.range.max.units);
    }
}

#[test]
fn limits_of_the_widest_range() {
    let mut series = MetricsData::new();
    series.add_metric_value(Fixed::min_value());
    series.add_metric_value(Fixed::max_value());
    series.generate_limits();
    // the range is 2^64 - 1 units wide; fifteen hundredths of it, rounded down
    let tail: i128 = (((1i128 << 64) - 1) * 15) / 100;
    assert_eq!(series.limits[0].units as i128, i64::MIN as i128 + tail);
    assert_eq!(series.limits[1].units as i128, i64::MAX as i128 - tail);
}

#[test]
fn new_class_knows_nothing() {
    let class = ClassData::new();
    assert!(class.method_params.is_empty());
    assert!(class.field_types.is_empty());
    assert_eq!(class.cbo, fx("0"));
    assert_eq!(class.di_params, 0);
    assert_eq!(class.diw_cbo, fx("0"));
    assert!(!class.uses_di());
}

#[test]
fn class_with_one_injected_dependency() {
    let mut class = ClassData::new();
    class.add_method_param("Foo".to_string());
    class.add_method_param("int".to_string());
    class.add_field_type("Foo".to_string());
    class.add_cbo(fx("4"));
    class.compute_class_di_metrics(&names(&["Foo", "Bar"]), &names(&[]));
    assert_eq!(class.di_params, 1);
    assert_eq!(class.diw_cbo, fx("3.5"));
    assert_eq!(class.cbo, fx("4"));
    assert!(class.uses_di());
}

#[test]
fn class_with_wired_beans() {
    let mut class = ClassData::new();
    class.add_method_param("Foo".to_string());
    class.add_field_type("Foo".to_string());
    class.add_field_type("Repo".to_string());
    class.add_field_type("Cache".to_string());
    class.add_cbo(fx("10"));
    class.compute_class_di_metrics(&names(&["Foo", "Repo", "Cache"]), &names(&["Repo", "Cache"]));
    assert_eq!(class.di_params, 3);
    assert_eq!(class.diw_cbo, fx("8.5"));
}

#[test]
fn weighting_never_raises_the_coupling() {
    for (cbo, params) in [("0", 0usize), ("0", 3), ("5", 1), ("-2", 2), ("9223372036854.775807", 4)] {
        let mut class = ClassData::new();
        for k in 0..params {
            class.add_method_param(format!("T{}", k));
            class.add_field_type(format!("T{}", k));
        }
        class.add_cbo(fx(cbo));
        let all: Vec<String> = (0..params).map(|k| format!("T{}", k)).collect();
        class.compute_class_di_metrics(&all, &Vec::new());
        assert_eq!(class.di_params, params);
        assert!(class.diw_cbo.units <= class.cbo.units);
        assert_eq!(class.diw_cbo.units as i128, class.cbo.units as i128 - 500_000 * params as i128);
    }
}

#[test]
fn weighting_is_clamped_at_the_lower_end() {
    let mut class = ClassData::new();
    class.add_method_param("A".to_string());
    class.add_field_type("A".to_string());
    class.add_cbo(Fixed::min_value());
    class.compute_class_di_metrics(&names(&["A"]), &names(&[]));
    assert_eq!(class.di_params, 1);
    assert_eq!(class.diw_cbo, Fixed::min_value());
}

#[test]
fn later_coupling_replaces_the_earlier() {
    let mut class = ClassData::new();
    class.add_cbo(fx("5"));
    class.add_cbo(fx("7"));
    assert_eq!(class.cbo, fx("7"));
}

#[test]
fn shared_types_count_without_class_names() {
    let mut class = ClassData::new();
    class.add_method_param("Foo".to_string());
    class.add_method_param("int".to_string());
    class.add_field_type("int".to_string());
    class.add_field_type("Foo".to_string());
    class.add_field_type("Foo".to_string());
    class.add_cbo(fx("3"));
    class.compute_shared_di_metrics();
    assert_eq!(class.di_params, 2);
    assert_eq!(class.diw_cbo, fx("2"));
}

#[test]
fn new_project_is_empty() {
    let project = ClassAndMetricStruct::new();
    assert!(project.metrics.is_empty());
    assert!(project.classes.is_empty());
    assert_eq!(project.total_loc, fx("0"));
    assert_eq!(project.di_couplings, fx("0"));
    assert_eq!(project.total_couplings, fx("0"));
    assert_eq!(project.di_proportion, None);
    assert_eq!(project.diw_cbo_mean.count, 0);
}

#[test]
fn project_gets_a_series_for_each_metric() {
    let mut project = ClassAndMetricStruct::new();
    project.initialize_metrics();
    assert_eq!(project.metrics.len(), 19);
    assert!(project.metrics.iter().all(|m| m.values.is_empty() && m.limits.is_empty()));
    project.add_metric_value(3, fx("5"));
    project.initialize_metrics();
    assert_eq!(project.metrics.len(), 19);
    assert!(project.metrics[3].values.is_empty());
}

#[test]
fn project_finds_classes_by_name() {
    let mut project = ClassAndMetricStruct::new();
    assert_eq!(project.find_class("A"), None);
    assert_eq!(project.open_class("A"), 0);
    assert_eq!(project.open_class("B"), 1);
    assert_eq!(project.open_class("A"), 0);
    assert_eq!(project.classes.len(), 2);
    assert_eq!(project.find_class("B"), Some(1));
    assert_eq!(project.find_class("C"), None);
    assert_eq!(project.classes[1].name, "B");
}

#[test]
fn project_sums_lines_of_code() {
    let mut project = ClassAndMetricStruct::new();
    project.initialize_metrics();
    project.add_metric_value(10, fx("120"));
    project.add_metric_value(10, fx("30.5"));
    project.add_metric_value(3, fx("1000"));
    assert_eq!(project.total_loc, fx("150.5"));
}

fn project_of(classes: &[(&str, &str, usize)]) -> ClassAndMetricStruct {
    let mut project = ClassAndMetricStruct::new();
    for (name, cbo, params) in classes {
        let index = project.open_class(name);
        let all: Vec<String> = (0..*params).map(|k| format!("T{}", k)).collect();
        for t in &all {
            project.classes[index].data.add_method_param(t.clone());
            project.classes[index].data.add_field_type(t.clone());
        }
        project.classes[index].data.add_cbo(fx(cbo));
        project.classes[index].data.compute_class_di_metrics(&all, &Vec::new());
    }
    project
}

#[test]
fn di_proportion_is_the_injected_share_of_the_couplings() {
    let mut project = project_of(&[("A", "4", 1), ("B", "6", 2), ("C", "2", 0)]);
    project.generate_di_metrics();
    assert_eq!(project.di_couplings, fx("3"));
    assert_eq!(project.total_couplings, fx("12"));
    assert_eq!(project.di_proportion, Some(fx("0.25")));
    assert_eq!(project.diw_cbo_mean.acc, 10_500_000);
    assert_eq!(project.diw_cbo_mean.count, 3);
    project.compute_means();
    assert_eq!(project.diw_cbo_mean.mean, Some(fx("3.5")));
}

#[test]
fn di_proportion_of_no_couplings_is_missing() {
    let mut project = project_of(&[]);
    project.generate_di_metrics();
    assert_eq!(project.di_proportion, None);
    let mut project = project_of(&[("A", "0", 1)]);
    project.generate_di_metrics();
    assert_eq!(project.di_couplings, fx("1"));
    assert_eq!(project.di_proportion, None);
}

#[test]
fn di_proportion_does_not_depend_on_the_order_of_the_classes() {
    let mut one = project_of(&[("A", "4", 1), ("B", "6.5", 2), ("C", "2", 0), ("D", "0.1", 3)]);
    let mut other = project_of(&[("D", "0.1", 3), ("B", "6.5", 2), ("A", "4", 1), ("C", "2", 0)]);
    one.generate_di_metrics();
    other.generate_di_metrics();
    assert_eq!(one.di_proportion, other.di_proportion);
    assert_eq!(one.di_couplings, other.di_couplings);
    assert_eq!(one.total_couplings, other.total_couplings);
    assert_eq!(one.diw_cbo_mean.acc, other.diw_cbo_mean.acc);
    // 6 / 12.6 = 0.476190476...
    assert_eq!(one.di_proportion, Some(fx("0.476190")));
}

#[test]
fn di_metrics_are_summed_anew_each_time() {
    let mut project = project_of(&[("A", "4", 1), ("B", "6", 2)]);
    project.generate_di_metrics();
    project.generate_di_metrics();
    assert_eq!(project.di_couplings, fx("3"));
    assert_eq!(project.total_couplings, fx("10"));
    assert_eq!(project.diw_cbo_mean.count, 2);
}

#[test]
fn project_generates_limits_and_means_for_every_series() {
    let mut project = ClassAndMetricStruct::new();
    project.initialize_metrics();
    for (position, values) in [(0usize, ["1", "3"]), (3, ["0", "20"]), (18, ["2", "2"])] {
        for v in values {
            project.add_metric_value(position, fx(v));
        }
    }
    project.generate_limits();
    project.compute_means();
    assert_eq!(project.metrics[0].limits, vec![fx("1.3"), fx("2.7")]);
    assert_eq!(project.metrics[3].limits, vec![fx("3"), fx("17")]);
    assert_eq!(project.metrics[18].limits, vec![fx("2"), fx("2")]);
    assert!(project.metrics[1].limits.is_empty());
    assert_eq!(project.metrics[0].mean.mean, Some(fx("2")));
    assert_eq!(project.metrics[3].mean.mean, Some(fx("10")));
    assert_eq!(project.metrics[1].mean.mean, None);
}

#[test]
fn project_hands_out_the_series_of_a_metric() {
    let mut project = ClassAndMetricStruct::new();
    project.initialize_metrics();
    project.add_metric_value(3, fx("5"));
    project.add_metric_value(11, fx("0.5"));
    assert_eq!(project.series(Metric::Cbo).values, vec![fx("5")]);
    assert_eq!(project.series(Metric::Dam).values, vec![fx("0.5")]);
    assert!(project.series(Metric::Dit).values.is_empty());
}

#[test]
fn cruder_count_takes_more_than_one_known_type() {
    let all = names(&["Foo", "Bar", "Baz"]);
    let mut class = ClassData::new();
    assert!(!class.uses_di_by_known_types(&all));
    class.add_field_type("Foo".to_string());
    class.add_method_param("Foo".to_string());
    class.add_method_param("int".to_string());
    assert!(!class.uses_di_by_known_types(&all));
    class.add_method_param("Bar".to_string());
    assert!(class.uses_di_by_known_types(&all));
    assert!(!class.uses_di_by_known_types(&names(&["Foo"])));
}

#[test]
fn cruder_share_of_the_classes() {
    let all = names(&["Foo", "Bar", "Baz"]);
    let mut project = ClassAndMetricStruct::new();
    assert_eq!(project.crude_di_share(&all), None);
    for (name, types) in [("A", vec!["Foo", "Bar"]), ("B", vec!["Foo"]), ("C", vec!["Baz", "Bar", "x"])] {
        let index = project.open_class(name);
        for t in types {
            project.classes[index].data.add_field_type(t.to_string());
        }
    }
    assert_eq!(project.crude_di_share(&all), Some(fx("0.666666")));
    assert_eq!(project.crude_di_share(&names(&[])), Some(fx("0")));
}
