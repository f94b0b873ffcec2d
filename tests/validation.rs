use rstest_plan::error::SpecError;
use rstest_plan::model::{Fixture, RsTestData, RsTestItem, TestCase, ValueList};
use rstest_plan::validate::validate;

fn s(v: &str) -> String {
    v.to_string()
}

fn strs(v: &[&str]) -> Vec<String> {
    v.iter().map(|x| x.to_string()).collect()
}

fn axis(name: &str, values: &[&str]) -> RsTestItem {
    RsTestItem::ValueList(ValueList { name: s(name), values: strs(values) })
}

fn injected(name: &str, args: &[&str]) -> RsTestItem {
    RsTestItem::Fixture(Fixture { name: s(name), resolve: None, args: strs(args) })
}

fn case(values: &[&str]) -> RsTestItem {
    RsTestItem::TestCase(TestCase { values: strs(values), description: None, attrs: vec![] })
}

#[test]
fn empty_value_list_is_rejected() {
    let data = RsTestData { items: vec![axis("empty", &[])] };
    let errors = validate(&data, &strs(&["empty"])).unwrap_err();
    assert_eq!(vec![SpecError::EmptyValueList(s("empty"))], errors);
}

#[test]
fn unmatched_axes_are_each_reported() {
    let data = RsTestData { items: vec![axis("not_exist_1", &["42"]), axis("not_exist_2", &["42"])] };
    let errors = validate(&data, &vec![]).unwrap_err();
    assert_eq!(
        vec![
            SpecError::NoMatchingArgument(s("not_exist_1")),
            SpecError::NoMatchingArgument(s("not_exist_2")),
        ],
        errors
    );
}

#[test]
fn axis_then_injection_conflicts() {
    let data = RsTestData { items: vec![axis("f", &["41", "42"]), injected("f", &["42"])] };
    let errors = validate(&data, &strs(&["f"])).unwrap_err();
    assert_eq!(vec![SpecError::ConflictingBinding(s("f"))], errors);
}

#[test]
fn injection_then_axis_conflicts() {
    let data = RsTestData { items: vec![injected("f", &["42"]), axis("f", &["41", "42"])] };
    let errors = validate(&data, &strs(&["f"])).unwrap_err();
    assert_eq!(vec![SpecError::ConflictingBinding(s("f"))], errors);
}

#[test]
fn duplicate_injection_is_rejected() {
    let data = RsTestData {
        items: vec![injected("f", &["42"]), injected("f", &["42"]), axis("v", &["41", "42"])],
    };
    let errors = validate(&data, &strs(&["v", "f"])).unwrap_err();
    assert_eq!(vec![SpecError::DuplicateInjection(s("f"))], errors);
}

#[test]
fn injecting_an_unknown_argument_is_rejected() {
    let data = RsTestData { items: vec![axis("f", &["41", "42"]), injected("not_a_fixture", &["24"])] };
    let errors = validate(&data, &strs(&["f"])).unwrap_err();
    assert_eq!(vec![SpecError::NoMatchingArgument(s("not_a_fixture"))], errors);
}

#[test]
fn one_name_can_break_two_rules() {
    let data = RsTestData { items: vec![axis("x", &[])] };
    let errors = validate(&data, &vec![]).unwrap_err();
    assert_eq!(
        vec![SpecError::NoMatchingArgument(s("x")), SpecError::EmptyValueList(s("x"))],
        errors
    );
}

#[test]
fn case_rows_must_match_case_arguments() {
    let data = RsTestData {
        items: vec![
            RsTestItem::CaseArgName(s("a")),
            RsTestItem::CaseArgName(s("b")),
            case(&["1", "2"]),
            case(&["3"]),
        ],
    };
    let errors = validate(&data, &strs(&["a", "b"])).unwrap_err();
    assert_eq!(vec![SpecError::ArityMismatch { case: 1, expected: 2, found: 1 }], errors);
}

#[test]
fn valid_specification_passes() {
    let data = RsTestData {
        items: vec![
            RsTestItem::CaseArgName(s("a")),
            case(&["1"]),
            axis("v", &["1", "2"]),
            injected("f", &["3"]),
        ],
    };
    assert_eq!(Ok(()), validate(&data, &strs(&["a", "v", "f"])));
}

#[test]
fn plain_fixture_and_axis_of_same_name_clash() {
    let data = RsTestData { items: vec![injected("f", &[]), axis("f", &["1"])] };
    assert_eq!(Err(vec![SpecError::ConflictingBinding(s("f"))]), validate(&data, &strs(&["f"])));
}

#[test]
fn one_name_is_bound_once() {
    let data = RsTestData {
        items: vec![
            RsTestItem::CaseArgName(s("a")),
            axis("a", &["1"]),
            axis("b", &["1"]),
            axis("b", &["2"]),
            RsTestItem::CaseArgName(s("c")),
            RsTestItem::CaseArgName(s("c")),
            case(&["1", "2", "3"]),
        ],
    };
    let errors = validate(&data, &strs(&["a", "b", "c"])).unwrap_err();
    assert_eq!(
        vec![
            SpecError::ConflictingBinding(s("a")),
            SpecError::ConflictingBinding(s("b")),
            SpecError::ConflictingBinding(s("c")),
        ],
        errors
    );
}

