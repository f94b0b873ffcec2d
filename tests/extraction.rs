use rstest_plan::error::{RecordAttr, SpecError};
use rstest_plan::extract::{
    attribute_args_once, extract_files, maybe_parse_attribute_args_just_once, Attr, AttrArgs, FnArg, FnAttr,
    ItemFn,
};
use rstest_plan::model::{Folder, StructField};

fn s(v: &str) -> String {
    v.to_string()
}

fn path(name: &str) -> Attr {
    Attr { name: s(name), args: AttrArgs::Path }
}

fn with_str(name: &str, value: &str) -> Attr {
    Attr { name: s(name), args: AttrArgs::Str(s(value)) }
}

fn arg(name: &str, attrs: Vec<Attr>) -> FnArg {
    FnArg { name: Some(s(name)), attrs }
}

fn json_fn(args: Vec<FnArg>) -> ItemFn {
    ItemFn { attrs: vec![FnAttr::Files(Folder::fake())], args }
}

fn assert_fake(folder: &Folder) {
    assert_eq!("fake", folder.name);
    assert_eq!(vec![s("foo"), s("bar")], folder.files);
    assert_eq!(1, folder.folders.len());
    assert_eq!("baz", folder.folders[0].name);
    assert!(folder.folders[0].files.is_empty());
    assert!(folder.folders[0].folders.is_empty());
}

#[test]
fn rstest_happy_path() {
    let mut item_fn = ItemFn {
        attrs: vec![FnAttr::Other(s("test")), FnAttr::Files(Folder::fake())],
        args: vec![
            arg("age", vec![path("field")]),
            arg("user", vec![path("data")]),
            arg("name", vec![with_str("field", "first_name")]),
        ],
    };
    let files = extract_files(&mut item_fn).unwrap().unwrap();
    assert_fake(files.hierarchy());
    assert_eq!([s("user")], files.data());
    assert_eq!(
        [StructField::new(s("age"), None), StructField::new(s("name"), Some(s("first_name")))],
        files.args()
    );
    // The data set declaration is taken off; other attributes stay.
    assert_eq!(vec![FnAttr::Other(s("test"))], item_fn.attrs);
}

#[test]
fn no_data_set_gives_none() {
    let mut item_fn = ItemFn { attrs: vec![FnAttr::Other(s("x"))], args: vec![arg("a", vec![path("other")])] };
    assert_eq!(Ok(None), extract_files(&mut item_fn));
    assert_eq!(vec![path("other")], item_fn.args[0].attrs);
}

#[test]
fn field_just_once() {
    let mut item_fn = json_fn(vec![arg("age", vec![path("field"), with_str("field", "first_name")])]);
    let errors = extract_files(&mut item_fn).unwrap_err();
    assert_eq!(vec![SpecError::DuplicateAttributeUsage(s("field"))], errors);
}

#[test]
fn field_without_files() {
    let mut item_fn = ItemFn { attrs: vec![], args: vec![arg("age", vec![path("field")])] };
    let errors = extract_files(&mut item_fn).unwrap_err();
    assert_eq!(vec![SpecError::FileAttributeWithoutDataset(s("age"), RecordAttr::Field)], errors);
}

#[test]
fn field_as_name_value() {
    let mut item_fn = ItemFn {
        attrs: vec![],
        args: vec![arg("name", vec![Attr { name: s("field"), args: AttrArgs::Invalid(s("expected parentheses")) }])],
    };
    let errors = extract_files(&mut item_fn).unwrap_err();
    assert_eq!(vec![SpecError::InvalidAttributeArgs(s("field"), s("expected parentheses"))], errors);
}

#[test]
fn data_just_once() {
    let mut item_fn = json_fn(vec![arg("user", vec![path("data"), path("data")])]);
    let errors = extract_files(&mut item_fn).unwrap_err();
    assert_eq!(vec![SpecError::DuplicateAttributeUsage(s("data"))], errors);
}

#[test]
fn data_wrong_syntax() {
    let mut item_fn = json_fn(vec![arg("user", vec![with_str("data", "some")])]);
    let errors = extract_files(&mut item_fn).unwrap_err();
    assert_eq!(vec![SpecError::UnexpectedAttributeArgs(s("data"))], errors);
}

#[test]
fn data_without_files() {
    let mut item_fn = ItemFn { attrs: vec![], args: vec![arg("user", vec![path("data")])] };
    let errors = extract_files(&mut item_fn).unwrap_err();
    assert_eq!(vec![SpecError::FileAttributeWithoutDataset(s("user"), RecordAttr::Data)], errors);
}

#[test]
fn extraction_goes_on_after_an_error() {
    let mut item_fn = ItemFn {
        attrs: vec![FnAttr::FilesError(s("no such folder"))],
        args: vec![arg("age", vec![path("field")]), arg("user", vec![path("data"), path("data")])],
    };
    let errors = extract_files(&mut item_fn).unwrap_err();
    assert_eq!(
        vec![
            SpecError::InvalidDataSet(s("no such folder")),
            SpecError::FileAttributeWithoutDataset(s("age"), RecordAttr::Field),
            SpecError::FileAttributeWithoutDataset(s("user"), RecordAttr::Data),
            SpecError::DuplicateAttributeUsage(s("data")),
        ],
        errors
    );
}

#[test]
fn first_use_of_an_attribute_wins() {
    let attrs = vec![path("other"), with_str("field", "a"), with_str("field", "b")];
    let (first, errors) = maybe_parse_attribute_args_just_once(&attrs, &s("field"));
    assert_eq!(Some(Some(s("a"))), first);
    assert_eq!(vec![SpecError::DuplicateAttributeUsage(s("field"))], errors);
    let (none, no_errors) = maybe_parse_attribute_args_just_once(&attrs, &s("data"));
    assert_eq!(None, none);
    assert!(no_errors.is_empty());
}

#[test]
fn path_only_attribute_is_found_once() {
    let attrs = vec![path("data"), with_str("data", "x")];
    let (first, errors) = attribute_args_once(&attrs, &s("data"));
    assert_eq!(Some(&path("data")), first);
    assert_eq!(
        vec![SpecError::UnexpectedAttributeArgs(s("data")), SpecError::DuplicateAttributeUsage(s("data"))],
        errors
    );
}

#[test]
fn pattern_arguments_are_skipped() {
    let mut item_fn = ItemFn { attrs: vec![], args: vec![FnArg { name: None, attrs: vec![path("data")] }] };
    assert_eq!(Ok(None), extract_files(&mut item_fn));
}
