use vstd::prelude::*;
use crate::error::{RecordAttr, SpecError};
use crate::model::{Files, Folder, StructField, TestCase};

verus! {

/// The arguments that an attribute was written with.
#[derive(Debug, PartialEq, Eq)]
pub enum AttrArgs {
    /// No argument list: `#[name]`.
    Path,
    /// One string literal: `#[name("text")]`.
    Str(String),
    /// A list of expressions: `#[name(a, b + 1)]`.
    List(Vec<String>),
    /// Arguments that could not be read; the text says why.
    Invalid(String),
}

/// An attribute on a function argument.
#[derive(Debug, PartialEq, Eq)]
pub struct Attr {
    pub name: String,
    pub args: AttrArgs,
}

/// The first use of the attribute `name` among `attrs` (`Some(None)` when it
/// has no argument, `Some(Some(s))` when it holds `s`) and the errors: one for
/// each use whose arguments are not one string and one for each later use.
pub open spec fn just_once(attrs: Seq<Attr>, name: Seq<char>) -> (Option<Option<String>>, Seq<SpecError>)
    decreases attrs.len(),
{
    if attrs.len() == 0 {
        (None, seq![])
    } else {
        let (first, errs) = just_once(attrs.drop_last(), name);
        let a = attrs.last();
        if a.name@ != name {
            (first, errs)
        } else {
            match a.args {
                AttrArgs::Invalid(m) => (first, errs.push(SpecError::InvalidAttributeArgs(a.name, m))),
                AttrArgs::Path => if first is None {
                    (Some(None), errs)
                } else {
                    (first, errs.push(SpecError::DuplicateAttributeUsage(a.name)))
                },
                AttrArgs::Str(s) => if first is None {
                    (Some(Some(s)), errs)
                } else {
                    (first, errs.push(SpecError::DuplicateAttributeUsage(a.name)))
                },
                AttrArgs::List(_) => (first, errs.push(SpecError::ExpectedOneName(a.name))),
            }
        }
    }
}

/// Reads the attribute `name`, which may carry one string, at most once.
pub fn maybe_parse_attribute_args_just_once(attrs: &Vec<Attr>, name: &String) -> (r: (
    Option<Option<String>>,
    Vec<SpecError>,
))
    ensures
        r.0 == just_once(attrs@, name@).0,
        r.1@ == just_once(attrs@, name@).1,
{
    let mut first: Option<Option<String>> = None;
    let mut errors: Vec<SpecError> = Vec::new();
    let mut i: usize = 0;
    while i < attrs.len()
        invariant
            i <= attrs@.len(),
            first == just_once(attrs@.subrange(0, i as int), name@).0,
            errors@ == just_once(attrs@.subrange(0, i as int), name@).1,
        decreases attrs@.len() - i,
    {
        assert(attrs@.subrange(0, i + 1).drop_last() == attrs@.subrange(0, i as int));
        assert(attrs@.subrange(0, i + 1).last() == attrs@[i as int]);
        let a = &attrs[i];
        if a.name.eq(name) {
            match &a.args {
                AttrArgs::Invalid(m) => {
                    errors.push(SpecError::InvalidAttributeArgs(a.name.clone(), m.clone()));
                },
                AttrArgs::Path => {
                    if first.is_none() {
                        first = Some(None);
                    } else {
                        errors.push(SpecError::DuplicateAttributeUsage(a.name.clone()));
                    }
                },
                AttrArgs::Str(s) => {
                    if first.is_none() {
                        first = Some(Some(s.clone()));
                    } else {
                        errors.push(SpecError::DuplicateAttributeUsage(a.name.clone()));
                    }
                },
                AttrArgs::List(_) => {
                    errors.push(SpecError::ExpectedOneName(a.name.clone()));
                },
            }
        }
        i = i + 1;
    }
    assert(attrs@.subrange(0, i as int) == attrs@);
    (first, errors)
}

/// Reads the uses of the argument-less attribute `name` front to back: the
/// first use, one error for each use given arguments, and one error for each
/// later use.
pub open spec fn args_once_scan(attrs: Seq<Attr>, name: Seq<char>) -> (Option<Attr>, Seq<SpecError>, Seq<SpecError>)
    decreases attrs.len(),
{
    if attrs.len() == 0 {
        (None, seq![], seq![])
    } else {
        let (first, arg_errs, dup_errs) = args_once_scan(attrs.drop_last(), name);
        let a = attrs.last();
        if a.name@ != name {
            (first, arg_errs, dup_errs)
        } else {
            let arg_errs = if a.args is Path {
                arg_errs
            } else {
                arg_errs.push(SpecError::UnexpectedAttributeArgs(a.name))
            };
            if first is None {
                (Some(a), arg_errs, dup_errs)
            } else {
                (first, arg_errs, dup_errs.push(SpecError::DuplicateAttributeUsage(a.name)))
            }
        }
    }
}

/// The first use of the argument-less attribute `name` among `attrs`, and the
/// errors: first one for each use given arguments, then one for each later use.
pub open spec fn args_once(attrs: Seq<Attr>, name: Seq<char>) -> (Option<Attr>, Seq<SpecError>) {
    let (first, arg_errs, dup_errs) = args_once_scan(attrs, name);
    (first, arg_errs + dup_errs)
}

/// Reads the attribute `name`, which takes no argument, at most once.
pub fn attribute_args_once<'a>(attrs: &'a Vec<Attr>, name: &String) -> (r: (
    Option<&'a Attr>,
    Vec<SpecError>,
))
    ensures
        r.0 matches Some(a) ==> args_once(attrs@, name@).0 == Some(*a),
        r.0 is None ==> args_once(attrs@, name@).0 is None,
        r.1@ == args_once(attrs@, name@).1,
{
    let mut first: Option<&Attr> = None;
    let mut arg_errors: Vec<SpecError> = Vec::new();
    let mut dup_errors: Vec<SpecError> = Vec::new();
    let mut i: usize = 0;
    while i < attrs.len()
        invariant
            i <= attrs@.len(),
            first matches Some(a) ==> args_once_scan(attrs@.subrange(0, i as int), name@).0 == Some(*a),
            first is None ==> args_once_scan(attrs@.subrange(0, i as int), name@).0 is None,
            arg_errors@ == args_once_scan(attrs@.subrange(0, i as int), name@).1,
            dup_errors@ == args_once_scan(attrs@.subrange(0, i as int), name@).2,
        decreases attrs@.len() - i,
    {
        assert(attrs@.subrange(0, i + 1).drop_last() == attrs@.subrange(0, i as int));
        assert(attrs@.subrange(0, i + 1).last() == attrs@[i as int]);
        let a = &attrs[i];
        if a.name.eq(name) {
            match &a.args {
                AttrArgs::Path => {},
                _ => {
                    arg_errors.push(SpecError::UnexpectedAttributeArgs(a.name.clone()));
                },
            }
            if first.is_none() {
                first = Some(a);
            } else {
                dup_errors.push(SpecError::DuplicateAttributeUsage(a.name.clone()));
            }
        }
        i = i + 1;
    }
    assert(attrs@.subrange(0, i as int) == attrs@);
    arg_errors.append(&mut dup_errors);
    (first, arg_errors)
}

/// A function argument: its name, unless it is bound by a pattern, and its
/// attributes.
#[derive(Debug, PartialEq, Eq)]
pub struct FnArg {
    pub name: Option<String>,
    pub attrs: Vec<Attr>,
}

/// What one argument adds to a file data set: the arguments bound to whole
/// records, those bound to one field, and the errors.
pub open spec fn arg_records(has_files: bool, arg: FnArg) -> (Seq<String>, Seq<StructField>, Seq<SpecError>) {
    match arg.name {
        None => (seq![], seq![], seq![]),
        Some(name) => {
            let (field, field_errs) = just_once(arg.attrs@, "field"@);
            let (data, data_errs) = args_once(arg.attrs@, "data"@);
            let fields = match field {
                Some(f) if has_files => seq![StructField { ident: name, field: f }],
                _ => seq![],
            };
            let no_set_field = if !has_files && field is Some {
                seq![SpecError::FileAttributeWithoutDataset(name, RecordAttr::Field)]
            } else {
                seq![]
            };
            let whole = if has_files && data is Some {
                seq![name]
            } else {
                seq![]
            };
            let no_set_data = if !has_files && data is Some {
                seq![SpecError::FileAttributeWithoutDataset(name, RecordAttr::Data)]
            } else {
                seq![]
            };
            (whole, fields, no_set_field + field_errs + no_set_data + data_errs)
        },
    }
}

/// What the arguments add to a file data set, in order.
pub open spec fn args_records(has_files: bool, args: Seq<FnArg>) -> (Seq<String>, Seq<StructField>, Seq<SpecError>)
    decreases args.len(),
{
    if args.len() == 0 {
        (seq![], seq![], seq![])
    } else {
        let (d, f, e) = args_records(has_files, args.drop_last());
        let (d1, f1, e1) = arg_records(has_files, args.last());
        (d + d1, f + f1, e + e1)
    }
}

/// Reads the record attributes of one argument into `files`, or reports them
/// where no data set is declared.
pub fn visit_fn_arg(files: &mut Option<Files>, errors: &mut Vec<SpecError>, arg: &FnArg)
    ensures
        *old(files) is Some <==> *final(files) is Some,
        final(errors)@ == old(errors)@ + arg_records(*old(files) is Some, *arg).2,
        *old(files) matches Some(f0) ==> (*final(files) matches Some(f1) && f1.spec_hierarchy()
            == f0.spec_hierarchy() && f1.spec_data() == f0.spec_data() + arg_records(true, *arg).0
            && f1.spec_args() == f0.spec_args() + arg_records(true, *arg).1),
{
    let name = match &arg.name {
        Some(n) => n,
        None => {
            assert(old(errors)@ + seq![] == old(errors)@);
            assert(forall|d: Seq<String>| d + seq![] == d);
            assert(forall|d: Seq<StructField>| d + seq![] == d);
            return ;
        },
    };
    let ghost has_files = files.is_some();
    let ghost e0 = errors@;
    let field_attr = String::from_str("field");
    proof { reveal_strlit("field"); reveal_strlit("data"); }
    let (field, mut field_errs) = maybe_parse_attribute_args_just_once(&arg.attrs, &field_attr);
    let ghost fields_added: Seq<StructField> = seq![];
    let ghost no_set_field: Seq<SpecError> = seq![];
    match field {
        Some(f) => {
            match files {
                Some(fs) => {
                    let sf = StructField::new(name.clone(), f);
                    proof { fields_added = seq![sf]; }
                    fs.push_arg(sf);
                },
                None => {
                    let e = SpecError::FileAttributeWithoutDataset(name.clone(), RecordAttr::Field);
                    proof { no_set_field = seq![e]; }
                    errors.push(e);
                },
            }
        },
        None => {},
    }
    errors.append(&mut field_errs);
    let data_attr = String::from_str("data");
    let (data, mut data_errs) = attribute_args_once(&arg.attrs, &data_attr);
    let ghost whole_added: Seq<String> = seq![];
    let ghost no_set_data: Seq<SpecError> = seq![];
    if data.is_some() {
        match files {
            Some(fs) => {
                let n = name.clone();
                proof { whole_added = seq![n]; }
                fs.push_data(n);
            },
            None => {
                let e = SpecError::FileAttributeWithoutDataset(name.clone(), RecordAttr::Data);
                proof { no_set_data = seq![e]; }
                errors.push(e);
            },
        }
    }
    errors.append(&mut data_errs);
    assert(errors@ == e0 + (no_set_field + just_once(arg.attrs@, "field"@).1 + no_set_data + args_once(arg.attrs@, "data"@).1));
}

/// An attribute on a test function.
#[derive(Debug, PartialEq, Eq)]
pub enum FnAttr {
    /// A file data set whose locator was resolved into this hierarchy.
    Files(Folder),
    /// A file data set whose locator could not be resolved; the text says why.
    FilesError(String),
    /// One row of the case table.
    Case(TestCase),
    /// A row of the case table that could not be read; the text says why.
    CaseError(String),
    /// A timeout with a readable expression.
    Timeout(String),
    /// A timeout that could not be read; the text says why.
    TimeoutError(String),
    /// The marker that awaits every future argument.
    GlobalAwait,
    /// Any other attribute, left for later passes.
    Other(String),
}

/// A test function as the extraction passes see it.
#[derive(Debug, PartialEq, Eq)]
pub struct ItemFn {
    pub attrs: Vec<FnAttr>,
    pub args: Vec<FnArg>,
}

/// The function attributes that the data set pass leaves in place: all but
/// the data set declarations.
pub open spec fn kept_attrs(attrs: Seq<FnAttr>) -> Seq<FnAttr>
    decreases attrs.len(),
{
    if attrs.len() == 0 {
        seq![]
    } else {
        let rest = kept_attrs(attrs.drop_last());
        if !(attrs.last() is Files || attrs.last() is FilesError) {
            rest.push(attrs.last())
        } else {
            rest
        }
    }
}

/// The hierarchy of the last data set declared, and one error for each locator
/// that could not be resolved.
pub open spec fn declared_files(attrs: Seq<FnAttr>) -> (Option<Folder>, Seq<SpecError>)
    decreases attrs.len(),
{
    if attrs.len() == 0 {
        (None, seq![])
    } else {
        let (folder, errs) = declared_files(attrs.drop_last());
        match attrs.last() {
            FnAttr::Files(f) => (Some(f), errs),
            FnAttr::FilesError(m) => (folder, errs.push(SpecError::InvalidDataSet(m))),
            _ => (folder, errs),
        }
    }
}

/// Takes the data set declarations off the function, then reads the record
/// attributes of its arguments into the data set.
pub fn visit_item_fn(item: &mut ItemFn, files: &mut Option<Files>, errors: &mut Vec<SpecError>)
    ensures
        final(item).attrs@ == kept_attrs(old(item).attrs@),
        final(item).args == old(item).args,
        ({
            let folder = declared_files(old(item).attrs@).0;
            let has = *old(files) is Some || folder is Some;
            let (data, fields, arg_errs) = args_records(has, old(item).args@);
            &&& (*final(files) is Some <==> has)
            &&& (folder matches Some(h) ==> (*final(files) matches Some(f) && f.spec_hierarchy() == h
                && f.spec_data() == data && f.spec_args() == fields))
            &&& (folder is None ==> (*old(files) matches Some(f0) ==> (*final(files) matches Some(f)
                && f.spec_hierarchy() == f0.spec_hierarchy() && f.spec_data() == f0.spec_data() + data
                && f.spec_args() == f0.spec_args() + fields)))
            &&& final(errors)@ == old(errors)@ + declared_files(old(item).attrs@).1 + arg_errs
        }),
{
    let ghost files0 = *files;
    let ghost attrs0 = item.attrs@;
    let ghost e0 = errors@;
    let mut attrs: Vec<FnAttr> = Vec::new();
    std::mem::swap(&mut attrs, &mut item.attrs);
    assert(attrs@ == attrs0);
    let mut kept: Vec<FnAttr> = Vec::new();
    let mut i: usize = 0;
    let len = attrs.len();
    let mut rest = attrs;
    while i < len
        invariant
            len == attrs0.len(),
            i <= len,
            rest@.len() == len - i,
            rest@ == attrs0.subrange(i as int, len as int),
            kept@ == kept_attrs(attrs0.subrange(0, i as int)),
            declared_files(attrs0.subrange(0, i as int)).0 is None ==> *files == files0,
            declared_files(attrs0.subrange(0, i as int)).0 matches Some(h) ==> (*files matches Some(f)
                && f.spec_hierarchy() == h && f.spec_data().len() == 0 && f.spec_args().len() == 0),
            errors@ == e0 + declared_files(attrs0.subrange(0, i as int)).1,
        decreases len - i,
    {
        assert(attrs0.subrange(0, i + 1).drop_last() == attrs0.subrange(0, i as int));
        let a = rest.remove(0);
        assert(a == attrs0[i as int]);
        match a {
            FnAttr::Files(folder) => {
                *files = Some(Files::from_hierarchy(folder));
            },
            FnAttr::FilesError(m) => {
                errors.push(SpecError::InvalidDataSet(m));
            },
            other => {
                kept.push(other);
            },
        }
        i = i + 1;
    }
    assert(attrs0.subrange(0, len as int) == attrs0);
    item.attrs = kept;
    let ghost has_files = files.is_some();
    let ghost e1 = errors@;
    let ghost f1 = *files;
    assert(has_files == (files0 is Some || declared_files(attrs0).0 is Some));
    let mut j: usize = 0;
    while j < item.args.len()
        invariant
            item.attrs@ == kept_attrs(attrs0),
            j <= item.args@.len(),
            (*files is Some) == has_files,
            f1 is Some == has_files,
            *files matches Some(f) ==> (f1 matches Some(b) && f.spec_hierarchy() == b.spec_hierarchy()
                && f.spec_data() == b.spec_data() + args_records(true, item.args@.subrange(0, j as int)).0
                && f.spec_args() == b.spec_args() + args_records(true, item.args@.subrange(0, j as int)).1),
            errors@ == e1 + args_records(has_files, item.args@.subrange(0, j as int)).2,
            e1 == e0 + declared_files(attrs0).1,
        decreases item.args@.len() - j,
    {
        assert(item.args@.subrange(0, j + 1).drop_last() == item.args@.subrange(0, j as int));
        assert(item.args@.subrange(0, j + 1).last() == item.args@[j as int]);
        let ghost before = *files;
        visit_fn_arg(files, errors, &item.args[j]);
        assert(errors@ == e1 + args_records(has_files, item.args@.subrange(0, j + 1)).2);
        proof {
            let ff = *files;
            if ff is Some {
                let f = ff->Some_0;
                let b = f1->Some_0;
                assert(f.spec_data() =~= b.spec_data() + args_records(true, item.args@.subrange(0, j + 1)).0);
                assert(f.spec_args() =~= b.spec_args() + args_records(true, item.args@.subrange(0, j + 1)).1);
            }
        }
        j = j + 1;
    }
    assert(item.args@.subrange(0, j as int) == item.args@);
    proof {
        let ff = *files;
        if ff is Some {
            let b = f1->Some_0;
            if declared_files(attrs0).0 is Some {
                assert(b.spec_data() + args_records(true, item.args@).0 =~= args_records(true, item.args@).0);
                assert(b.spec_args() + args_records(true, item.args@).1 =~= args_records(true, item.args@).1);
            }
        }
    }
}

/// The file data set that the function declares, with the arguments bound to
/// its records; or every error found on the way.
pub fn extract_files(item: &mut ItemFn) -> (r: Result<Option<Files>, Vec<SpecError>>)
    ensures
        final(item).attrs@ == kept_attrs(old(item).attrs@),
        final(item).args == old(item).args,
        ({
            let (folder, decl_errs) = declared_files(old(item).attrs@);
            let (data, fields, arg_errs) = args_records(folder is Some, old(item).args@);
            &&& r is Ok <==> decl_errs.len() + arg_errs.len() == 0
            &&& r matches Err(e) ==> e@ == decl_errs + arg_errs
            &&& r matches Ok(None) ==> folder is None
            &&& r matches Ok(Some(f)) ==> (folder == Some(f.spec_hierarchy()) && f.spec_data() == data
                && f.spec_args() == fields)
        }),
{
    let mut files: Option<Files> = None;
    let mut errors: Vec<SpecError> = Vec::new();
    visit_item_fn(item, &mut files, &mut errors);
    assert(errors@ =~= declared_files(old(item).attrs@).1 + args_records(
        declared_files(old(item).attrs@).0 is Some,
        old(item).args@,
    ).2);
    if errors.len() == 0 {
        Ok(files)
    } else {
        Err(errors)
    }
}

} // verus!
