use rstest_plan::attributes::{Attribute, RsTestAttributes};
use rstest_plan::fixtures::{f, fixture, n};
use rstest_plan::model::{Files, Fixture, Folder, RsTestData, RsTestItem, TestCase, ValueList};

fn s(v: &str) -> String {
    v.to_string()
}

fn strs(v: &[&str]) -> Vec<String> {
    v.iter().map(|x| x.to_string()).collect()
}

#[test]
fn should_parse_fixture_cases_and_matrix_in_any_order() {
    let case = |values: &[&str]| RsTestItem::TestCase(TestCase { values: strs(values), description: None, attrs: vec![] });
    let data = RsTestData {
        items: vec![
            RsTestItem::CaseArgName(s("u")),
            RsTestItem::ValueList(ValueList { name: s("m"), values: strs(&["1", "2"]) }),
            case(&["42", "A{}", "D{}"]),
            RsTestItem::CaseArgName(s("a")),
            case(&["43", "A{}", "D{}"]),
            RsTestItem::Fixture(Fixture { name: s("the_fixture"), resolve: None, args: strs(&["42"]) }),
            RsTestItem::ValueList(ValueList { name: s("mm"), values: strs(&["\"f\"", "\"oo\"", "\"BAR\""]) }),
            RsTestItem::CaseArgName(s("d")),
        ],
    };

    let fixtures = data.fixtures();
    assert_eq!(1, fixtures.len());
    assert_eq!(&Fixture { name: s("the_fixture"), resolve: None, args: strs(&["42"]) }, fixtures[0]);

    assert_eq!(strs(&["u", "a", "d"]), data.case_args());

    let cases = data.cases();
    assert_eq!(2, cases.len());
    assert_eq!(strs(&["42", "A{}", "D{}"]), cases[0].values);
    assert_eq!(strs(&["43", "A{}", "D{}"]), cases[1].values);

    let value_ranges = data.list_values();
    assert_eq!(2, value_ranges.len());
    assert_eq!(strs(&["1", "2"]), value_ranges[0].values);
    assert_eq!(strs(&["\"f\"", "\"oo\"", "\"BAR\""]), value_ranges[1].values);

    assert!(data.has_cases() && data.has_case_args() && data.has_fixtures() && data.has_list_values());
    assert!(data.files().is_none());
}

#[test]
fn empty_specification_has_nothing() {
    let data = RsTestData { items: vec![] };
    assert!(!data.has_cases() && !data.has_case_args() && !data.has_fixtures() && !data.has_list_values());
    assert!(data.files().is_none());
}

#[test]
fn first_file_data_set_is_found() {
    let mut second = Files::from_hierarchy(Folder { name: s("other"), files: vec![], folders: vec![] });
    second.push_data(s("x"));
    let data = RsTestData {
        items: vec![
            RsTestItem::CaseArgName(s("a")),
            RsTestItem::Files(Files::from_hierarchy(Folder::fake())),
            RsTestItem::Files(second),
        ],
    };
    let files = data.files().unwrap();
    assert_eq!("fake", files.hierarchy().name);
    assert!(files.data().is_empty());
}

#[test]
fn maybe_ident_names_bound_arguments() {
    let item = RsTestItem::CaseArgName(s("a"));
    assert_eq!(Some(&s("a")), item.maybe_ident());
    let item = RsTestItem::TestCase(TestCase { values: vec![], description: None, attrs: vec![] });
    assert_eq!(None, item.maybe_ident());
}

#[test]
fn trace_me_respects_notrace() {
    let mut attrs = RsTestAttributes { attributes: vec![] };
    assert!(!attrs.should_trace());
    assert!(!attrs.trace_me(&s("a")));
    attrs.add_trace(s("trace"));
    attrs.add_notraces(strs(&["b"]));
    attrs.add_notraces(vec![]);
    assert_eq!(2, attrs.attributes.len());
    assert!(attrs.should_trace());
    assert!(attrs.trace_me(&s("a")));
    assert!(!attrs.trace_me(&s("b")));
}

#[test]
fn async_and_timeout_are_read() {
    let attrs = RsTestAttributes {
        attributes: vec![
            Attribute::Tagged(s("timeout"), strs(&["first"])),
            Attribute::Tagged(s("future"), strs(&["a"])),
            Attribute::Tagged(s("timeout"), strs(&["second"])),
        ],
    };
    assert!(attrs.is_async());
    assert_eq!(Some(s("second")), attrs.timeout());
    let plain = RsTestAttributes { attributes: vec![Attribute::Attr(s("awt"))] };
    assert!(plain.is_async());
    assert_eq!(None, plain.timeout());
}

#[test]
fn sample_fixtures() {
    assert_eq!(42, fixture());
    assert_eq!(24, n());
    assert_eq!(48, f(n()));
}
