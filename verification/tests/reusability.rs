use ckjm_analyzer::fixed::Fixed;
use ckjm_analyzer::reusability::{class_reusability, compute_reusability_metric, mean_reusability};

fn fx(text: &str) -> Fixed {
    Fixed::parse(text).unwrap()
}

#[test]
fn it_works() {
    assert_eq!(2 + 2, 4);
}

#[test]
fn test_reusability_metric_simple() {
    assert_eq!(
        compute_reusability_metric(&[fx("0.0")].to_vec(), [fx("0.0")].to_vec(), [fx("0.0")].to_vec()),
        fx("-37.111")
    );
    assert_eq!(
        compute_reusability_metric(&[fx("1.0")].to_vec(), [fx("1.0")].to_vec(), [fx("1.0")].to_vec()),
        fx("20.071")
    );
}

#[test]
fn reusability_of_one_class_is_the_weighted_sum() {
    // -37.111 + 39.73 + 16.25 + 4.1418
    let score = compute_reusability_metric(&vec![fx("10")], vec![fx("0.5")], vec![fx("0.2")]);
    assert_eq!(score, fx("23.0108"));
    assert_eq!(score.units, 23_010_800);
    assert_eq!(class_reusability(fx("10"), fx("0.5"), fx("0.2")), fx("23.0108"));
}

#[test]
fn reusability_adds_the_classes_up() {
    let cbo = vec![fx("0"), fx("1"), fx("10")];
    let mfa = vec![fx("0"), fx("1"), fx("0.5")];
    let dam = vec![fx("0"), fx("1"), fx("0.2")];
    // -37.111 + 20.071 + 23.0108
    assert_eq!(compute_reusability_metric(&cbo, mfa.clone(), dam.clone()), fx("5.9708"));
    // 5.9708 / 3 = 1.990266666...
    assert_eq!(mean_reusability(&cbo, &mfa, &dam), Some(fx("1.990266")));
}

#[test]
fn reusability_of_no_classes() {
    let none: Vec<Fixed> = Vec::new();
    assert_eq!(compute_reusability_metric(&none, Vec::new(), Vec::new()), fx("0"));
    assert_eq!(mean_reusability(&none, &none, &none), None);
}

#[test]
fn reusability_rounds_down_to_a_millionth() {
    // 3.973 * 0.000001 = 0.000003973, so the score is -37.111 + 0.000003 rounded down
    assert_eq!(class_reusability(fx("0.000001"), fx("0"), fx("0")), fx("-37.110997"));
    // -3.973 * 0.000001 lies below zero: rounding goes down, not toward zero
    assert_eq!(class_reusability(fx("-0.000001"), fx("0"), fx("0")), fx("-37.111004"));
}

#[test]
fn reusability_is_clamped() {
    let top = Fixed::max_value();
    assert_eq!(class_reusability(top, top, top), Fixed::max_value());
    let bottom = Fixed::min_value();
    assert_eq!(class_reusability(bottom, bottom, bottom), Fixed::min_value());
    assert_eq!(
        compute_reusability_metric(&vec![top, top], vec![top, top], vec![top, top]),
        Fixed::max_value()
    );
}

#[test]
fn reusability_goes_by_the_couplings() {
    // longer lists of the other two are read only as far as there are couplings
    let score = compute_reusability_metric(&vec![fx("1")], vec![fx("1"), fx("9")], vec![fx("1"), fx("9")]);
    assert_eq!(score, fx("20.071"));
}
