use rstest_plan::attributes::RsTestAttributes;
use rstest_plan::error::SpecError;
use rstest_plan::extend::{extend_with_function_attrs, extract_cases, ArgumentsInfo, RsTestInfo};
use rstest_plan::extract::{Attr, AttrArgs, FnArg, FnAttr, ItemFn};
use rstest_plan::model::{Fixture, Folder, RsTestData, RsTestItem, TestCase, ValueList};

fn s(v: &str) -> String {
    v.to_string()
}

fn strs(v: &[&str]) -> Vec<String> {
    v.iter().map(|x| x.to_string()).collect()
}

fn path(name: &str) -> Attr {
    Attr { name: s(name), args: AttrArgs::Path }
}

fn named(name: &str, value: &str) -> Attr {
    Attr { name: s(name), args: AttrArgs::Str(s(value)) }
}

fn list(name: &str, values: &[&str]) -> Attr {
    Attr { name: s(name), args: AttrArgs::List(strs(values)) }
}

fn arg(name: &str, attrs: Vec<Attr>) -> FnArg {
    FnArg { name: Some(s(name)), attrs }
}

fn empty_info() -> RsTestInfo {
    RsTestInfo {
        data: RsTestData { items: vec![] },
        attributes: RsTestAttributes { attributes: vec![] },
        arguments: ArgumentsInfo { futures: vec![], global_await: false },
    }
}

fn fixture(name: &str, args: &[&str], resolve: Option<&str>) -> RsTestItem {
    RsTestItem::Fixture(Fixture { name: s(name), resolve: resolve.map(s), args: strs(args) })
}

#[test]
fn rename_with_attributes() {
    let mut item_fn = ItemFn {
        attrs: vec![],
        args: vec![
            arg("short", vec![named("from", "long_fixture_name"), list("with", &["42", "\"other\""])]),
            arg("s", vec![named("from", "simple")]),
            arg("no_change", vec![]),
        ],
    };
    let mut info = empty_info();
    info.extend_with_function_attrs(&mut item_fn).unwrap();
    let expected = RsTestInfo {
        data: RsTestData {
            items: vec![
                fixture("short", &["42", "\"other\""], Some("long_fixture_name")),
                fixture("s", &[], Some("simple")),
            ],
        },
        attributes: RsTestAttributes { attributes: vec![] },
        arguments: ArgumentsInfo { futures: vec![], global_await: false },
    };
    assert_eq!(expected, info);
}

#[test]
fn defined_via_with_attributes() {
    let mut item_fn = ItemFn {
        attrs: vec![],
        args: vec![
            arg("my_fixture", vec![list("with", &["42", "\"other\""])]),
            arg("other", vec![list("with", &["vec![42]"])]),
        ],
    };
    let mut info = empty_info();
    info.extend_with_function_attrs(&mut item_fn).unwrap();
    assert_eq!(
        vec![fixture("my_fixture", &["42", "\"other\""], None), fixture("other", &["vec![42]"], None)],
        info.data.items
    );
}

#[test]
fn extract_notrace_args_atttribute() {
    let mut item_fn = ItemFn {
        attrs: vec![],
        args: vec![
            arg("a", vec![path("notrace")]),
            arg("b", vec![path("something_else")]),
            arg("c", vec![path("notrace")]),
        ],
    };
    let mut info = empty_info();
    info.extend_with_function_attrs(&mut item_fn).unwrap();
    info.attributes.add_trace(s("trace"));
    assert!(!info.attributes.trace_me(&s("a")));
    assert!(info.attributes.trace_me(&s("b")));
    assert!(!info.attributes.trace_me(&s("c")));
    assert_eq!(vec![path("something_else")], item_fn.args[1].attrs);
}

#[test]
fn rstest_one_arg() {
    let mut item_fn = ItemFn {
        attrs: vec![],
        args: vec![
            arg("arg1", vec![list("values", &["1", "2", "1+2"])]),
            arg("arg2", vec![list("values", &["format!(\"a\")", "\"b b\".to_owned()", "String::new()"])]),
        ],
    };
    let mut info = empty_info();
    info.extend_with_function_attrs(&mut item_fn).unwrap();
    let list_values = info.data.list_values();
    assert_eq!(2, list_values.len());
    assert_eq!(strs(&["1", "2", "1+2"]), list_values[0].values);
    assert_eq!(strs(&["format!(\"a\")", "\"b b\".to_owned()", "String::new()"]), list_values[1].values);
}

#[test]
fn markers_are_appended_in_order() {
    let row = |v: &str| FnAttr::Case(TestCase { values: strs(&[v]), description: None, attrs: vec![] });
    let mut item_fn = ItemFn {
        attrs: vec![row("1"), FnAttr::Other(s("other")), row("2"), FnAttr::Files(Folder::fake())],
        args: vec![
            arg("x", vec![path("case")]),
            arg("v", vec![list("values", &["a", "b"])]),
            arg("f", vec![list("with", &["3"])]),
            arg("user", vec![path("data")]),
        ],
    };
    let mut data = RsTestData { items: vec![] };
    extend_with_function_attrs(&mut data, &mut item_fn).unwrap();
    assert_eq!(6, data.items.len());
    assert_eq!(fixture("f", &["3"], None), data.items[0]);
    assert_eq!(RsTestItem::CaseArgName(s("x")), data.items[1]);
    assert_eq!(RsTestItem::TestCase(TestCase { values: strs(&["1"]), description: None, attrs: vec![] }), data.items[2]);
    assert_eq!(RsTestItem::TestCase(TestCase { values: strs(&["2"]), description: None, attrs: strs(&["other"]) }), data.items[3]);
    assert_eq!(RsTestItem::ValueList(ValueList { name: s("v"), values: strs(&["a", "b"]) }), data.items[4]);
    let files = data.files().unwrap();
    assert_eq!([s("user")], files.data());
    assert!(item_fn.attrs.is_empty());
}

#[test]
fn every_marker_error_is_reported() {
    let mut item_fn = ItemFn {
        attrs: vec![],
        args: vec![
            arg("a", vec![list("with", &["1"]), list("with", &["2"])]),
            arg("b", vec![path("from")]),
            arg("c", vec![named("case", "x")]),
            arg("d", vec![path("field")]),
        ],
    };
    let mut data = RsTestData { items: vec![] };
    let errors = extend_with_function_attrs(&mut data, &mut item_fn).unwrap_err();
    assert_eq!(
        vec![
            SpecError::DuplicateAttributeUsage(s("with")),
            SpecError::ExpectedOneName(s("from")),
            SpecError::UnexpectedAttributeArgs(s("case")),
            SpecError::FileAttributeWithoutDataset(s("d"), rstest_plan::error::RecordAttr::Field),
        ],
        errors
    );
    assert!(data.items.is_empty());
}

#[test]
fn notrace_errors_follow_marker_errors() {
    let mut item_fn = ItemFn {
        attrs: vec![],
        args: vec![arg("a", vec![path("notrace"), path("notrace")]), arg("v", vec![path("values"), path("values")])],
    };
    let mut info = empty_info();
    let errors = info.extend_with_function_attrs(&mut item_fn).unwrap_err();
    assert_eq!(
        vec![SpecError::DuplicateAttributeUsage(s("values")), SpecError::DuplicateAttributeUsage(s("notrace"))],
        errors
    );
    assert!(info.attributes.attributes.is_empty());
}

#[test]
fn case_rows_are_taken_off() {
    let mut item_fn = ItemFn {
        attrs: vec![
            FnAttr::Case(TestCase { values: strs(&["1"]), description: Some(s("one")), attrs: strs(&["ignore"]) }),
            FnAttr::Other(s("keep")),
        ],
        args: vec![],
    };
    let (cases, errors) = extract_cases(&mut item_fn);
    assert_eq!(vec![TestCase { values: strs(&["1"]), description: Some(s("one")), attrs: strs(&["ignore"]) }], cases);
    assert!(errors.is_empty());
    assert_eq!(vec![FnAttr::Other(s("keep"))], item_fn.attrs);
}

fn case_fn() -> ItemFn {
    let row = |v: &str| FnAttr::Case(TestCase { values: strs(&[v]), description: None, attrs: vec![] });
    ItemFn {
        attrs: vec![
            FnAttr::Other(s("#[first]")),
            FnAttr::Other(s("#[first2(42)]")),
            row("42"),
            FnAttr::Other(s("#[second]")),
            row("24"),
            FnAttr::Other(s("#[global]")),
        ],
        args: vec![arg("arg", vec![path("case")])],
    }
}

#[test]
fn should_collect_attributes() {
    let mut item_fn = case_fn();
    let mut info = empty_info();
    info.extend_with_function_attrs(&mut item_fn).unwrap();
    let cases = info.data.cases();
    assert_eq!(2, cases.len());
    assert_eq!(&TestCase { values: strs(&["42"]), description: None, attrs: strs(&["#[first]", "#[first2(42)]"]) }, cases[0]);
    assert_eq!(&TestCase { values: strs(&["24"]), description: None, attrs: strs(&["#[second]"]) }, cases[1]);
}

#[test]
fn should_consume_all_used_attributes() {
    let mut item_fn = case_fn();
    let mut info = empty_info();
    info.extend_with_function_attrs(&mut item_fn).unwrap();
    assert_eq!(vec![FnAttr::Other(s("#[global]"))], item_fn.attrs);
    assert!(!item_fn.attrs.iter().any(|a| matches!(a, FnAttr::Case(_))));
    assert!(!item_fn.args.iter().any(|a| a.attrs.iter().any(|m| m.name == "case")));
}

#[test]
fn should_report_all_errors() {
    let mut item_fn = ItemFn {
        attrs: vec![FnAttr::CaseError(s("expected an expression"))],
        args: vec![
            arg("arg", vec![path("case")]),
            arg("err_fixture", vec![Attr { name: s("with"), args: AttrArgs::Invalid(s("expected an expression")) }]),
        ],
    };
    let mut info = empty_info();
    let errors = info.extend_with_function_attrs(&mut item_fn).unwrap_err();
    assert_eq!(2, errors.len());
    assert_eq!(
        vec![
            SpecError::InvalidCase(s("expected an expression")),
            SpecError::InvalidAttributeArgs(s("with"), s("expected an expression")),
        ],
        errors
    );
}

#[test]
fn should_check_all_timeout_to_catch_the_right_errors() {
    let mut item_fn = ItemFn {
        attrs: vec![
            FnAttr::TimeoutError(s("expected an expression")),
            FnAttr::Timeout(s("42")),
            FnAttr::TimeoutError(s("expected attribute arguments in parentheses")),
            FnAttr::Timeout(s("Duration::from_millis(20)")),
        ],
        args: vec![arg("arg", vec![path("case")])],
    };
    let mut info = empty_info();
    let errors = info.extend_with_function_attrs(&mut item_fn).unwrap_err();
    assert_eq!(2, errors.len());
    assert_eq!(
        vec![
            SpecError::InvalidTimeout(s("expected an expression")),
            SpecError::InvalidTimeout(s("expected attribute arguments in parentheses")),
        ],
        errors
    );
}

#[test]
fn extract_future() {
    let mut item_fn = ItemFn {
        attrs: vec![FnAttr::GlobalAwait],
        args: vec![arg("a", vec![path("future")]), arg("b", vec![])],
    };
    let mut info = empty_info();
    info.extend_with_function_attrs(&mut item_fn).unwrap();
    assert_eq!(strs(&["a"]), info.arguments.futures);
    assert!(info.arguments.global_await);
    assert!(item_fn.args[0].attrs.is_empty());
}

#[test]
fn path_only_errors_come_before_repeats() {
    let mut item_fn = ItemFn {
        attrs: vec![],
        args: vec![arg("a", vec![named("future", "x"), path("future"), named("future", "y")])],
    };
    let mut info = empty_info();
    let errors = info.extend_with_function_attrs(&mut item_fn).unwrap_err();
    assert_eq!(
        vec![
            SpecError::UnexpectedAttributeArgs(s("future")),
            SpecError::UnexpectedAttributeArgs(s("future")),
            SpecError::DuplicateAttributeUsage(s("future")),
            SpecError::DuplicateAttributeUsage(s("future")),
        ],
        errors
    );
    assert!(info.arguments.futures.is_empty());
}

#[test]
fn recognised_markers_are_taken_off() {
    let mut item_fn = ItemFn {
        attrs: vec![],
        args: vec![
            arg("f", vec![path("allow"), list("with", &["1"]), named("from", "g"), path("notrace")]),
            arg("v", vec![list("values", &["1"]), path("keep")]),
        ],
    };
    let mut info = empty_info();
    info.extend_with_function_attrs(&mut item_fn).unwrap();
    assert_eq!(vec![path("allow")], item_fn.args[0].attrs);
    assert_eq!(vec![path("keep")], item_fn.args[1].attrs);
    assert_eq!(Some(s("v")), item_fn.args[1].name);
}

#[test]
fn model_pass_takes_its_markers_off() {
    let mut item_fn = case_fn();
    item_fn.args[0].attrs.push(path("notrace"));
    item_fn.args[0].attrs.push(path("other"));
    let mut data = RsTestData { items: vec![] };
    extend_with_function_attrs(&mut data, &mut item_fn).unwrap();
    assert_eq!(vec![path("notrace"), path("other")], item_fn.args[0].attrs);
    assert_eq!(3, data.items.len());
}
