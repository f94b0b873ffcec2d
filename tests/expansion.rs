use rstest_plan::attributes::{Attribute, RsTestAttributes};
use rstest_plan::error::SpecError;
use rstest_plan::expand::{expand, Binding, Invocation};
use rstest_plan::model::{Files, Fixture, Folder, RsTestData, RsTestItem, StructField, TestCase, ValueList};
use rstest_plan::plan::plan;
use rstest_plan::resolve::{dependency_order, resolved_name, FixtureDef};

fn s(v: &str) -> String {
    v.to_string()
}

fn strs(v: &[&str]) -> Vec<String> {
    v.iter().map(|x| x.to_string()).collect()
}

fn axis(name: &str, values: &[&str]) -> RsTestItem {
    RsTestItem::ValueList(ValueList { name: s(name), values: strs(values) })
}

fn case(values: &[&str], description: Option<&str>) -> RsTestItem {
    RsTestItem::TestCase(TestCase {
        values: strs(values),
        description: description.map(s),
        attrs: vec![],
    })
}

fn no_attrs() -> RsTestAttributes {
    RsTestAttributes { attributes: vec![] }
}

fn value(b: &Binding) -> String {
    match b {
        Binding::Value(v) => v.clone(),
        other => panic!("not a value: {:?}", other),
    }
}

fn happy_path_data() -> RsTestData {
    RsTestData {
        items: vec![
            axis("expected", &["12", "34 * 2"]),
            axis("input", &["format!(\"aa_{}\", 2)", "\"other\""]),
        ],
    }
}

#[test]
fn matrix_happy_path() {
    let data = happy_path_data();
    let params = strs(&["expected", "input"]);
    let invs = expand(&data, &params, &no_attrs(), &vec![]);
    assert_eq!(4, invs.len());
    let pairs: Vec<(String, String)> =
        invs.iter().map(|i| (value(&i.bindings[0]), value(&i.bindings[1]))).collect();
    assert_eq!(
        vec![
            (s("12"), s("format!(\"aa_{}\", 2)")),
            (s("12"), s("\"other\"")),
            (s("34 * 2"), s("format!(\"aa_{}\", 2)")),
            (s("34 * 2"), s("\"other\"")),
        ],
        pairs
    );
    let names: Vec<String> = invs.iter().map(|i| i.name.clone()).collect();
    assert_eq!(
        strs(&[
            "expected_1__input_1",
            "expected_1__input_2",
            "expected_2__input_1",
            "expected_2__input_2"
        ]),
        names
    );
    assert_eq!(vec![1, 1], invs[3].values);
    assert_eq!(None, invs[0].case);
    assert_eq!(None, invs[0].record);
}

#[test]
fn expansion_is_repeatable() {
    let data = happy_path_data();
    let params = strs(&["expected", "input"]);
    let first = expand(&data, &params, &no_attrs(), &vec![]);
    let second = expand(&data, &params, &no_attrs(), &vec![]);
    assert_eq!(first, second);
}

#[test]
fn count_is_cases_times_axes_times_records() {
    let data = RsTestData {
        items: vec![
            RsTestItem::CaseArgName(s("a")),
            case(&["1"], None),
            case(&["2"], None),
            case(&["3"], Some("third")),
            axis("x", &["10", "20"]),
            axis("y", &["1", "2", "3", "4"]),
            RsTestItem::Files(Files::from_hierarchy(Folder::fake())),
        ],
    };
    let params = strs(&["a", "x", "y"]);
    let records = strs(&["r1.json", "r2.json"]);
    let invs = expand(&data, &params, &no_attrs(), &records);
    assert_eq!(3 * 2 * 4 * 2, invs.len());
    // The case varies slowest, then the record, then each axis.
    assert_eq!(Some(0), invs[0].case);
    assert_eq!(Some(0), invs[0].record);
    assert_eq!(Some(1), invs[8].record);
    assert_eq!(Some(1), invs[16].case);
    assert_eq!(s("2"), value(&invs[16].bindings[0]));
    assert_eq!(s("case_3_third__record_2__x_2__y_4"), invs[47].name);
    assert_eq!(s("case_1__record_1__x_1__y_1"), invs[0].name);
}

#[test]
fn no_axis_and_no_case_gives_one_invocation() {
    let data = RsTestData { items: vec![] };
    let invs = expand(&data, &strs(&["fixture"]), &no_attrs(), &vec![]);
    assert_eq!(1, invs.len());
    assert_eq!(s(""), invs[0].name);
    assert_eq!(
        vec![Binding::Fixture { source: s("fixture"), args: vec![] }],
        invs[0].bindings
    );
}

#[test]
fn names_number_past_nine() {
    let mut values = Vec::new();
    for k in 0..12 {
        values.push(format!("{}", k));
    }
    let refs: Vec<&str> = values.iter().map(|v| v.as_str()).collect();
    let data = RsTestData { items: vec![axis("v", &refs)] };
    let invs = expand(&data, &strs(&["v"]), &no_attrs(), &vec![]);
    assert_eq!(12, invs.len());
    assert_eq!(s("v_12"), invs[11].name);
    assert_eq!(s("v_10"), invs[9].name);
}

#[test]
fn fixtures_and_records_are_bound() {
    let mut files = Files::from_hierarchy(Folder::fake());
    files.push_data(s("user"));
    files.push_arg(StructField::new(s("age"), None));
    files.push_arg(StructField::new(s("name"), Some(s("first_name"))));
    let data = RsTestData {
        items: vec![
            RsTestItem::Fixture(Fixture { name: s("short"), resolve: Some(s("long_fixture_name")), args: strs(&["42"]) }),
            RsTestItem::Files(files),
        ],
    };
    let params = strs(&["short", "user", "age", "name", "other"]);
    let invs = expand(&data, &params, &no_attrs(), &strs(&["a.json"]));
    assert_eq!(1, invs.len());
    assert_eq!(
        vec![
            Binding::Fixture { source: s("long_fixture_name"), args: strs(&["42"]) },
            Binding::Record { record: Some(0), field: None },
            Binding::Record { record: Some(0), field: Some(s("age")) },
            Binding::Record { record: Some(0), field: Some(s("first_name")) },
            Binding::Fixture { source: s("other"), args: vec![] },
        ],
        invs[0].bindings
    );
}

#[test]
fn trace_and_timeout_are_copied() {
    let attrs = RsTestAttributes {
        attributes: vec![
            Attribute::Attr(s("trace")),
            Attribute::Tagged(s("notrace"), strs(&["input"])),
            Attribute::Tagged(s("timeout"), strs(&["Duration::from_millis(10)"])),
        ],
    };
    let invs = expand(&happy_path_data(), &strs(&["expected", "input"]), &attrs, &vec![]);
    for inv in &invs {
        assert_eq!(vec![true, false], inv.traced);
        assert_eq!(Some(s("Duration::from_millis(10)")), inv.timeout);
        assert!(!inv.is_async);
    }
}

#[test]
fn renamed_fixture_resolves_to_its_source() {
    let f = Fixture { name: s("short"), resolve: Some(s("long_fixture_name")), args: vec![] };
    assert_eq!("long_fixture_name", resolved_name(&f).as_str());
    let g = Fixture { name: s("simple"), resolve: None, args: vec![] };
    assert_eq!("simple", resolved_name(&g).as_str());
}

#[test]
fn cyclic_fixtures_are_rejected() {
    let defs = vec![
        FixtureDef { name: s("f"), deps: strs(&["n"]) },
        FixtureDef { name: s("n"), deps: strs(&["f"]) },
    ];
    match dependency_order(&defs) {
        Err(SpecError::CyclicFixtureDependency(path)) => {
            assert_eq!(2, path.len());
            assert!(path.contains(&s("f")) && path.contains(&s("n")));
        }
        other => panic!("expected a cycle, got {:?}", other),
    }
}

#[test]
fn cycle_stops_expansion() {
    let defs = vec![
        FixtureDef { name: s("f"), deps: strs(&["n"]) },
        FixtureDef { name: s("n"), deps: strs(&["f"]) },
    ];
    let data = RsTestData { items: vec![axis("v", &["1"])] };
    let errors = plan(&data, &strs(&["v", "f"]), &no_attrs(), &vec![], &defs).unwrap_err();
    assert_eq!(1, errors.len());
    assert!(matches!(errors[0], SpecError::CyclicFixtureDependency(_)));
}

#[test]
fn plan_reports_every_defect() {
    let defs = vec![FixtureDef { name: s("f"), deps: strs(&["f"]) }];
    let data = RsTestData { items: vec![axis("empty", &[])] };
    let errors = plan(&data, &strs(&["empty"]), &no_attrs(), &vec![], &defs).unwrap_err();
    assert_eq!(2, errors.len());
    assert_eq!(SpecError::EmptyValueList(s("empty")), errors[0]);
    assert_eq!(SpecError::CyclicFixtureDependency(strs(&["f"])), errors[1]);
}

#[test]
fn acyclic_fixtures_are_ordered() {
    let defs = vec![
        FixtureDef { name: s("f"), deps: strs(&["n"]) },
        FixtureDef { name: s("n"), deps: vec![] },
        FixtureDef { name: s("fixture"), deps: vec![] },
    ];
    assert_eq!(Ok(vec![1, 0, 2]), dependency_order(&defs));
    let data = happy_path_data();
    let invs: Vec<Invocation> =
        plan(&data, &strs(&["expected", "input", "f"]), &no_attrs(), &vec![], &defs).unwrap();
    assert_eq!(4, invs.len());
}

#[test]
fn argument_without_fixture_is_unresolved() {
    let defs = vec![
        FixtureDef { name: s("fixture"), deps: vec![] },
        FixtureDef { name: s("n"), deps: vec![] },
        FixtureDef { name: s("f"), deps: strs(&["n"]) },
    ];
    let data = RsTestData { items: vec![axis("f", &["42"])] };
    let errors = plan(&data, &strs(&["no_fixture", "f"]), &no_attrs(), &vec![], &defs).unwrap_err();
    assert_eq!(vec![SpecError::UnresolvedArgument(s("no_fixture"))], errors);
    let invs = plan(&data, &strs(&["fixture", "f"]), &no_attrs(), &vec![], &defs).unwrap();
    assert_eq!(1, invs.len());
}

#[test]
fn cycle_among_specification_fixtures_is_rejected() {
    let data = RsTestData {
        items: vec![
            RsTestItem::Fixture(Fixture { name: s("f"), resolve: None, args: strs(&["n"]) }),
            RsTestItem::Fixture(Fixture { name: s("n"), resolve: None, args: strs(&["f"]) }),
        ],
    };
    let errors = plan(&data, &strs(&["f", "n"]), &no_attrs(), &vec![], &vec![]).unwrap_err();
    assert_eq!(1, errors.len());
    assert!(matches!(errors[0], SpecError::CyclicFixtureDependency(_)));
}
