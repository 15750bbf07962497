use ckjm_analyzer::names::{distinct_names, injected_names, known_types, shared_names};

fn names(items: &[&str]) -> Vec<String> {
    items.iter().map(|s| s.to_string()).collect()
}

#[test]
fn injected_names_of_a_class_with_one_injected_field() {
    let injected = injected_names(
        &names(&["Foo", "int"]),
        &names(&[]),
        &names(&["Foo"]),
        &names(&["Foo", "Bar"]),
    );
    assert_eq!(injected, names(&["Foo"]));
}

#[test]
fn injected_names_count_a_name_once() {
    let injected = injected_names(
        &names(&["Foo", "Foo", "Bar", "Foo"]),
        &names(&[]),
        &names(&["Bar", "Foo", "Bar"]),
        &names(&["Foo", "Bar", "Foo"]),
    );
    assert_eq!(injected, names(&["Foo", "Bar"]));
}

#[test]
fn injected_names_take_wired_beans_as_supplied() {
    // `Repo` is no parameter type, but a wired bean, a class and a field type
    let injected = injected_names(
        &names(&["Foo"]),
        &names(&["Repo", "Other"]),
        &names(&["Repo", "Foo", "String"]),
        &names(&["Foo", "Repo", "Other"]),
    );
    assert_eq!(injected, names(&["Foo", "Repo"]));
}

#[test]
fn injected_names_leave_out_what_is_no_class_of_the_project() {
    let injected = injected_names(
        &names(&["int", "String"]),
        &names(&[]),
        &names(&["int", "String"]),
        &names(&["Foo"]),
    );
    assert!(injected.is_empty());
}

#[test]
fn injected_names_leave_out_what_is_no_field_type() {
    let injected = injected_names(
        &names(&["Foo", "Bar"]),
        &names(&[]),
        &names(&["Bar"]),
        &names(&["Foo", "Bar"]),
    );
    assert_eq!(injected, names(&["Bar"]));
}

#[test]
fn injected_names_of_empty_lists() {
    assert!(injected_names(&names(&[]), &names(&[]), &names(&[]), &names(&[])).is_empty());
    assert!(injected_names(&names(&["A"]), &names(&[]), &names(&[]), &names(&["A"])).is_empty());
    assert!(injected_names(&names(&[]), &names(&[]), &names(&["A"]), &names(&["A"])).is_empty());
    assert!(injected_names(&names(&["A"]), &names(&[]), &names(&["A"]), &names(&[])).is_empty());
}

#[test]
fn injected_names_do_not_depend_on_the_order_of_the_lists() {
    let one = injected_names(
        &names(&["A", "B", "C"]),
        &names(&["D"]),
        &names(&["C", "D", "A"]),
        &names(&["A", "B", "C", "D"]),
    );
    let other = injected_names(
        &names(&["C", "B", "A"]),
        &names(&["D"]),
        &names(&["A", "D", "C"]),
        &names(&["D", "C", "B", "A"]),
    );
    assert_eq!(one.len(), 3);
    assert_eq!(other.len(), 3);
    let mut one_sorted = one.clone();
    one_sorted.sort();
    let mut other_sorted = other.clone();
    other_sorted.sort();
    assert_eq!(one_sorted, other_sorted);
}

#[test]
fn shared_names_are_field_and_parameter_types() {
    assert_eq!(
        shared_names(&names(&["Foo", "int", "Foo", "Bar"]), &names(&["Bar", "Foo", "long"])),
        names(&["Foo", "Bar"])
    );
    assert!(shared_names(&names(&["Foo"]), &names(&["Bar"])).is_empty());
    assert!(shared_names(&names(&[]), &names(&["Bar"])).is_empty());
}

#[test]
fn distinct_names_keep_the_first_of_each() {
    assert_eq!(
        distinct_names(&names(&["b", "a", "b", "c", "a", "b"])),
        names(&["b", "a", "c"])
    );
    assert!(distinct_names(&names(&[])).is_empty());
    assert_eq!(distinct_names(&names(&["x", "x", "x"])), names(&["x"]));
}

#[test]
fn known_types_are_classes_of_the_project() {
    assert_eq!(
        known_types(
            &names(&["Foo", "int", "Foo"]),
            &names(&["Bar", "Foo", "long"]),
            &names(&["Bar", "Foo", "Baz"]),
        ),
        names(&["Foo", "Bar"])
    );
    assert!(known_types(&names(&["a"]), &names(&["b"]), &names(&[])).is_empty());
}
