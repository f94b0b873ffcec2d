use vstd::prelude::*;
use crate::attributes::{Attribute, RsTestAttributes};
use crate::error::SpecError;
use crate::extract::{
    Attr, AttrArgs, FnArg, FnAttr, ItemFn, args_once, args_records, attribute_args_once, declared_files, extract_files,
    kept_attrs,
};
use crate::lookup::copy_strings;
use crate::model::{
    Fixture, RsTestData, RsTestItem, TestCase, ValueList, case_args_of, cases_of, files_of, fixtures_of,
    value_lists_of,
};

verus! {

/// The first readable use of the attribute `name`, and the errors: one for
/// each use whose arguments could not be read and one for each later use.
pub open spec fn first_use(attrs: Seq<Attr>, name: Seq<char>) -> (Option<Attr>, Seq<SpecError>)
    decreases attrs.len(),
{
    if attrs.len() == 0 {
        (None, seq![])
    } else {
        let (first, errs) = first_use(attrs.drop_last(), name);
        let a = attrs.last();
        if a.name@ != name {
            (first, errs)
        } else {
            match a.args {
                AttrArgs::Invalid(m) => (first, errs.push(SpecError::InvalidAttributeArgs(a.name, m))),
                _ => if first is None {
                    (Some(a), errs)
                } else {
                    (first, errs.push(SpecError::DuplicateAttributeUsage(a.name)))
                },
            }
        }
    }
}

/// Reads the attribute `name` at most once.
pub fn attribute_once<'a>(attrs: &'a Vec<Attr>, name: &String) -> (r: (Option<&'a Attr>, Vec<SpecError>))
    ensures
        r.0 matches Some(a) ==> first_use(attrs@, name@).0 == Some(*a),
        r.0 is None ==> first_use(attrs@, name@).0 is None,
        r.1@ == first_use(attrs@, name@).1,
{
    let mut first: Option<&Attr> = None;
    let mut errors: Vec<SpecError> = Vec::new();
    let mut i: usize = 0;
    while i < attrs.len()
        invariant
            i <= attrs@.len(),
            first matches Some(a) ==> first_use(attrs@.subrange(0, i as int), name@).0 == Some(*a),
            first is None ==> first_use(attrs@.subrange(0, i as int), name@).0 is None,
            errors@ == first_use(attrs@.subrange(0, i as int), name@).1,
        decreases attrs@.len() - i,
    {
        assert(attrs@.subrange(0, i + 1).drop_last() == attrs@.subrange(0, i as int));
        assert(attrs@.subrange(0, i + 1).last() == attrs@[i as int]);
        let a = &attrs[i];
        if a.name.eq(name) {
            match &a.args {
                AttrArgs::Invalid(m) => {
                    errors.push(SpecError::InvalidAttributeArgs(a.name.clone(), m.clone()));
                },
                _ => {
                    if first.is_none() {
                        first = Some(a);
                    } else {
                        errors.push(SpecError::DuplicateAttributeUsage(a.name.clone()));
                    }
                },
            }
        }
        i = i + 1;
    }
    assert(attrs@.subrange(0, i as int) == attrs@);
    (first, errors)
}

/// The expressions that an attribute carries.
pub open spec fn values_of(args: AttrArgs) -> Seq<String> {
    match args {
        AttrArgs::Str(x) => seq![x],
        AttrArgs::List(v) => v@,
        _ => seq![],
    }
}

fn attr_values(args: &AttrArgs) -> (r: Vec<String>)
    ensures
        r@ == values_of(*args),
{
    match args {
        AttrArgs::Str(x) => {
            let mut r: Vec<String> = Vec::new();
            r.push(x.clone());
            r
        },
        AttrArgs::List(v) => copy_strings(v),
        _ => Vec::new(),
    }
}

pub open spec fn opt_seq<A>(o: Option<A>) -> Seq<A> {
    match o {
        Some(x) => seq![x],
        None => seq![],
    }
}

/// A fixture as plain values: its name, the name it is renamed from, its
/// arguments.
pub open spec fn fixture_view(f: Fixture) -> (Seq<char>, Option<Seq<char>>, Seq<String>) {
    (
        f.name@,
        match f.resolve {
            Some(r) => Some(r@),
            None => None,
        },
        f.args@,
    )
}

/// An axis as plain values: its name and its values.
pub open spec fn value_list_view(v: ValueList) -> (Seq<char>, Seq<String>) {
    (v.name@, v.values@)
}

/// The fixture that an argument declares with `with(...)` (its arguments)
/// or `from(name)` (the name it is renamed from).
pub open spec fn arg_fixture(arg: FnArg) -> Option<(Seq<char>, Option<Seq<char>>, Seq<String>)> {
    match arg.name {
        None => None,
        Some(n) => {
            let w = first_use(arg.attrs@, "with"@).0;
            let fr = first_use(arg.attrs@, "from"@).0;
            if w is None && fr is None {
                None
            } else {
                Some(
                    (
                        n@,
                        match fr {
                            Some(a) => match a.args {
                                AttrArgs::Str(x) => Some(x@),
                                _ => None,
                            },
                            None => None,
                        },
                        match w {
                            Some(a) => values_of(a.args),
                            None => seq![],
                        },
                    ),
                )
            }
        },
    }
}

/// The argument's name, where it is marked `case`.
pub open spec fn arg_case(arg: FnArg) -> Option<Seq<char>> {
    match arg.name {
        Some(n) => if args_once(arg.attrs@, "case"@).0 is Some {
            Some(n@)
        } else {
            None
        },
        None => None,
    }
}

/// The axis that an argument declares with `values(...)`.
pub open spec fn arg_values(arg: FnArg) -> Option<(Seq<char>, Seq<String>)> {
    match arg.name {
        Some(n) => match first_use(arg.attrs@, "values"@).0 {
            Some(a) => Some((n@, values_of(a.args))),
            None => None,
        },
        None => None,
    }
}

/// The errors in an argument's markers.
pub open spec fn arg_errors(arg: FnArg) -> Seq<SpecError> {
    match arg.name {
        None => seq![],
        Some(_) => {
            let (_, with_errs) = first_use(arg.attrs@, "with"@);
            let (fr, from_errs) = first_use(arg.attrs@, "from"@);
            let bad_from = match fr {
                Some(a) => if a.args is Str {
                    seq![]
                } else {
                    seq![SpecError::ExpectedOneName(a.name)]
                },
                None => seq![],
            };
            with_errs + from_errs + bad_from + args_once(arg.attrs@, "case"@).1 + first_use(
                arg.attrs@,
                "values"@,
            ).1
        },
    }
}

pub open spec fn declared_fixtures(args: Seq<FnArg>) -> Seq<(Seq<char>, Option<Seq<char>>, Seq<String>)>
    decreases args.len(),
{
    if args.len() == 0 {
        seq![]
    } else {
        declared_fixtures(args.drop_last()) + opt_seq(arg_fixture(args.last()))
    }
}

pub open spec fn declared_case_args(args: Seq<FnArg>) -> Seq<Seq<char>>
    decreases args.len(),
{
    if args.len() == 0 {
        seq![]
    } else {
        declared_case_args(args.drop_last()) + opt_seq(arg_case(args.last()))
    }
}

pub open spec fn declared_values(args: Seq<FnArg>) -> Seq<(Seq<char>, Seq<String>)>
    decreases args.len(),
{
    if args.len() == 0 {
        seq![]
    } else {
        declared_values(args.drop_last()) + opt_seq(arg_values(args.last()))
    }
}

pub open spec fn declared_errors(args: Seq<FnArg>) -> Seq<SpecError>
    decreases args.len(),
{
    if args.len() == 0 {
        seq![]
    } else {
        declared_errors(args.drop_last()) + arg_errors(args.last())
    }
}

/// Reads the fixture, case and axis markers of one argument.
fn read_arg(
    arg: &FnArg,
    fixtures: &mut Vec<Fixture>,
    case_args: &mut Vec<String>,
    values: &mut Vec<ValueList>,
    errors: &mut Vec<SpecError>,
)
    ensures
        final(fixtures)@.map_values(|f: Fixture| fixture_view(f)) == old(fixtures)@.map_values(
            |f: Fixture| fixture_view(f),
        ) + opt_seq(arg_fixture(*arg)),
        final(case_args)@.map_values(|s: String| s@) == old(case_args)@.map_values(|s: String| s@)
            + opt_seq(arg_case(*arg)),
        final(values)@.map_values(|v: ValueList| value_list_view(v)) == old(values)@.map_values(
            |v: ValueList| value_list_view(v),
        ) + opt_seq(arg_values(*arg)),
        final(errors)@ == old(errors)@ + arg_errors(*arg),
{
    let name = match &arg.name {
        Some(n) => n,
        None => {
            assert(old(fixtures)@.map_values(|f: Fixture| fixture_view(f)) + seq![] =~= old(fixtures)@.map_values(
                |f: Fixture| fixture_view(f),
            ));
            assert(old(case_args)@.map_values(|s: String| s@) + seq![] =~= old(case_args)@.map_values(
                |s: String| s@,
            ));
            assert(old(values)@.map_values(|v: ValueList| value_list_view(v)) + seq![] =~= old(values)@.map_values(
                |v: ValueList| value_list_view(v),
            ));
            assert(old(errors)@ + seq![] =~= old(errors)@);
            return ;
        },
    };
    let ghost e0 = errors@;
    let (with, mut with_errs) = attribute_once(&arg.attrs, &String::from_str("with"));
    let (from, mut from_errs) = attribute_once(&arg.attrs, &String::from_str("from"));
    errors.append(&mut with_errs);
    errors.append(&mut from_errs);
    let mut resolve: Option<String> = None;
    match from {
        Some(a) => match &a.args {
            AttrArgs::Str(x) => {
                resolve = Some(x.clone());
            },
            _ => {
                errors.push(SpecError::ExpectedOneName(a.name.clone()));
            },
        },
        None => {},
    }
    let ghost old_fx = fixtures@;
    if with.is_some() || from.is_some() {
        let args = match with {
            Some(a) => attr_values(&a.args),
            None => Vec::new(),
        };
        let f = Fixture { name: name.clone(), resolve, args };
        fixtures.push(f);
        assert(fixtures@.map_values(|f: Fixture| fixture_view(f)) =~= old_fx.map_values(|f: Fixture| fixture_view(f))
            + opt_seq(arg_fixture(*arg)));
    } else {
        assert(fixtures@.map_values(|f: Fixture| fixture_view(f)) =~= old_fx.map_values(|f: Fixture| fixture_view(f))
            + opt_seq(arg_fixture(*arg)));
    }
    let (case, mut case_errs) = attribute_args_once(&arg.attrs, &String::from_str("case"));
    errors.append(&mut case_errs);
    let ghost old_ca = case_args@;
    if case.is_some() {
        case_args.push(name.clone());
    }
    assert(case_args@.map_values(|s: String| s@) =~= old_ca.map_values(|s: String| s@) + opt_seq(arg_case(*arg)));
    let (vals, mut vals_errs) = attribute_once(&arg.attrs, &String::from_str("values"));
    errors.append(&mut vals_errs);
    let ghost old_vs = values@;
    match vals {
        Some(a) => {
            values.push(ValueList { name: name.clone(), values: attr_values(&a.args) });
        },
        None => {},
    }
    assert(values@.map_values(|v: ValueList| value_list_view(v)) =~= old_vs.map_values(
        |v: ValueList| value_list_view(v),
    ) + opt_seq(arg_values(*arg)));
    assert(errors@ =~= e0 + arg_errors(*arg));
}

/// A case row as plain values: its values, its description, its own
/// attributes.
pub open spec fn case_view(c: TestCase) -> (Seq<String>, Option<String>, Seq<String>) {
    (c.values@, c.description, c.attrs@)
}

/// Reads the function attributes front to back. Each case row takes the
/// other attributes written since the previous row as its own; data set
/// declarations stay. The result: what stays, the other attributes after the
/// last row, and the rows.
pub open spec fn case_scan(attrs: Seq<FnAttr>) -> (Seq<FnAttr>, Seq<String>, Seq<(Seq<String>, Option<String>, Seq<String>)>)
    decreases attrs.len(),
{
    if attrs.len() == 0 {
        (seq![], seq![], seq![])
    } else {
        let (kept, pending, rows) = case_scan(attrs.drop_last());
        match attrs.last() {
            FnAttr::Other(o) => (kept, pending.push(o), rows),
            FnAttr::Case(c) => (kept, seq![], rows.push((c.values@, c.description, c.attrs@ + pending))),
            FnAttr::CaseError(_) => (kept, pending, rows),
            a => (kept.push(a), pending, rows),
        }
    }
}

/// One error for each case row that could not be read.
pub open spec fn case_errors(attrs: Seq<FnAttr>) -> Seq<SpecError>
    decreases attrs.len(),
{
    if attrs.len() == 0 {
        seq![]
    } else {
        match attrs.last() {
            FnAttr::CaseError(m) => case_errors(attrs.drop_last()).push(SpecError::InvalidCase(m)),
            _ => case_errors(attrs.drop_last()),
        }
    }
}

/// The case rows, with the attributes each takes.
pub open spec fn case_rows(attrs: Seq<FnAttr>) -> Seq<(Seq<String>, Option<String>, Seq<String>)> {
    case_scan(attrs).2
}

/// The function attributes left once the case rows, and the attributes they
/// take, are off: data set declarations, then the other attributes written
/// after the last row.
pub open spec fn without_cases(attrs: Seq<FnAttr>) -> Seq<FnAttr> {
    case_scan(attrs).0 + case_scan(attrs).1.map_values(|o: String| FnAttr::Other(o))
}

/// Takes the case rows off the function, each with the attributes written
/// before it, and reports those that could not be read.
pub fn extract_cases(item: &mut ItemFn) -> (r: (Vec<TestCase>, Vec<SpecError>))
    ensures
        r.0@.map_values(|c: TestCase| case_view(c)) == case_rows(old(item).attrs@),
        r.1@ == case_errors(old(item).attrs@),
        final(item).attrs@ == without_cases(old(item).attrs@),
        final(item).args == old(item).args,
{
    let ghost attrs0 = item.attrs@;
    let mut rest: Vec<FnAttr> = Vec::new();
    std::mem::swap(&mut rest, &mut item.attrs);
    let len = rest.len();
    let mut kept: Vec<FnAttr> = Vec::new();
    let mut pending: Vec<String> = Vec::new();
    let mut cases: Vec<TestCase> = Vec::new();
    let mut errors: Vec<SpecError> = Vec::new();
    let mut i: usize = 0;
    while i < len
        invariant
            len == attrs0.len(),
            errors@ == case_errors(attrs0.subrange(0, i as int)),
            i <= len,
            rest@ == attrs0.subrange(i as int, len as int),
            kept@ == case_scan(attrs0.subrange(0, i as int)).0,
            pending@ == case_scan(attrs0.subrange(0, i as int)).1,
            cases@.map_values(|c: TestCase| case_view(c)) == case_scan(attrs0.subrange(0, i as int)).2,
        decreases len - i,
    {
        assert(attrs0.subrange(0, i + 1).drop_last() == attrs0.subrange(0, i as int));
        let a = rest.remove(0);
        assert(a == attrs0[i as int]);
        let ghost before = cases@;
        match a {
            FnAttr::Other(o) => {
                pending.push(o);
            },
            FnAttr::Case(c) => {
                let mut c = c;
                c.attrs.append(&mut pending);
                cases.push(c);
                assert(cases@.map_values(|c: TestCase| case_view(c)) =~= before.map_values(|c: TestCase| case_view(c)).push(case_view(c)));
                assert(pending@ =~= Seq::<String>::empty());
            },
            FnAttr::CaseError(m) => {
                errors.push(SpecError::InvalidCase(m));
            },
            other => {
                kept.push(other);
            },
        }
        i = i + 1;
    }
    assert(attrs0.subrange(0, len as int) == attrs0);
    let ghost kept0 = kept@;
    let ghost pending0 = pending@;
    let mut j: usize = 0;
    while j < pending.len()
        invariant
            pending@ == pending0,
            j <= pending@.len(),
            kept@ == kept0 + pending0.subrange(0, j as int).map_values(|o: String| FnAttr::Other(o)),
        decreases pending@.len() - j,
    {
        kept.push(FnAttr::Other(pending[j].clone()));
        assert(kept@ =~= kept0 + pending0.subrange(0, j + 1).map_values(|o: String| FnAttr::Other(o)));
        j = j + 1;
    }
    assert(pending0.subrange(0, j as int) == pending0);
    item.attrs = kept;
    (cases, errors)
}

/// The errors that reading a function's markers finds: those of its case
/// rows, of its arguments, then of its file data set.
pub open spec fn function_errors(item: ItemFn) -> Seq<SpecError> {
    let attrs = without_cases(item.attrs@);
    case_errors(item.attrs@) + declared_errors(item.args@) + declared_files(attrs).1 + args_records(
        declared_files(attrs).0 is Some,
        item.args@,
    ).2
}

/// The items lay out, in order, the fixtures, the case arguments, the case
/// rows and the axes given.
pub open spec fn laid_out(
    added: Seq<RsTestItem>,
    fx: Seq<Fixture>,
    ca: Seq<String>,
    cs: Seq<TestCase>,
    vs: Seq<ValueList>,
) -> bool {
    &&& added.len() == fx.len() + ca.len() + cs.len() + vs.len()
    &&& forall|i: int| 0 <= i < fx.len() ==> added[i] == RsTestItem::Fixture(fx[i])
    &&& forall|i: int| 0 <= i < ca.len() ==> added[fx.len() + i] == RsTestItem::CaseArgName(ca[i])
    &&& forall|i: int| 0 <= i < cs.len() ==> added[fx.len() + ca.len() + i] == RsTestItem::TestCase(cs[i])
    &&& forall|i: int|
        0 <= i < vs.len() ==> added[fx.len() + ca.len() + cs.len() + i] == RsTestItem::ValueList(vs[i])
}

/// Appending items extends each view of the items.
pub proof fn lemma_items_concat(a: Seq<RsTestItem>, b: Seq<RsTestItem>)
    ensures
        fixtures_of(a + b) == fixtures_of(a) + fixtures_of(b),
        case_args_of(a + b) == case_args_of(a) + case_args_of(b),
        cases_of(a + b) == cases_of(a) + cases_of(b),
        value_lists_of(a + b) == value_lists_of(a) + value_lists_of(b),
        files_of(a) is Some ==> files_of(a + b) == files_of(a),
        files_of(a) is None ==> files_of(a + b) == files_of(b),
    decreases b.len(),
{
    if b.len() == 0 {
        assert(a + b =~= a);
        assert(fixtures_of(a) + fixtures_of(b) =~= fixtures_of(a));
        assert(case_args_of(a) + case_args_of(b) =~= case_args_of(a));
        assert(cases_of(a) + cases_of(b) =~= cases_of(a));
        assert(value_lists_of(a) + value_lists_of(b) =~= value_lists_of(a));
    } else {
        lemma_items_concat(a, b.drop_last());
        assert((a + b).drop_last() =~= a + b.drop_last());
        assert((a + b).last() == b.last());
        assert(fixtures_of(a + b) =~= fixtures_of(a) + fixtures_of(b));
        assert(case_args_of(a + b) =~= case_args_of(a) + case_args_of(b));
        assert(cases_of(a + b) =~= cases_of(a) + cases_of(b));
        assert(value_lists_of(a + b) =~= value_lists_of(a) + value_lists_of(b));
    }
}

/// The items after a successful read: the old ones, then the fixtures, case
/// arguments, case rows, axes and data set that the function declares.
pub open spec fn extended_by(items0: Seq<RsTestItem>, items: Seq<RsTestItem>, item: ItemFn) -> bool {
        ({
            &&& fixtures_of(items).map_values(|f: Fixture| fixture_view(f)) == fixtures_of(items0).map_values(
                |f: Fixture| fixture_view(f),
            ) + declared_fixtures(item.args@)
            &&& case_args_of(items) == case_args_of(items0) + declared_case_args(item.args@)
            &&& cases_of(items).map_values(|c: TestCase| case_view(c)) == cases_of(items0).map_values(
                |c: TestCase| case_view(c),
            ) + case_rows(item.attrs@)
            &&& value_lists_of(items).map_values(|v: ValueList| value_list_view(v)) == value_lists_of(
                items0,
            ).map_values(|v: ValueList| value_list_view(v)) + declared_values(item.args@)
            &&& files_of(items0) is Some ==> files_of(items) == files_of(items0)
            &&& files_of(items0) is None ==> (files_of(items) is Some <==> declared_files(
                without_cases(item.attrs@),
            ).0 is Some)
            &&& files_of(items0) is None ==> (files_of(items) matches Some(f) ==> (Some(f.spec_hierarchy())
                == declared_files(without_cases(item.attrs@)).0 && f.spec_data() == args_records(
                true,
                item.args@,
            ).0 && f.spec_args() == args_records(true, item.args@).1))

        }) && ({
            let o = items0.len() as int;
            let df = declared_fixtures(item.args@);
            let dc = declared_case_args(item.args@);
            let rows = case_rows(item.attrs@);
            let dv = declared_values(item.args@);
            let folder = declared_files(without_cases(item.attrs@)).0;
            &&& items.subrange(0, o) == items0
            &&& items.len() == o + df.len() + dc.len() + rows.len() + dv.len() + if folder is Some {
                1int
            } else {
                0int
            }
            &&& forall|i: int|
                0 <= i < df.len() ==> #[trigger] items[o + i] is Fixture && fixture_view(items[o + i]->Fixture_0)
                    == df[i]
            &&& forall|i: int|
                0 <= i < dc.len() ==> #[trigger] items[o + df.len() + i] is CaseArgName && (items[o + df.len()
                    + i]->CaseArgName_0)@ == dc[i]
            &&& forall|i: int|
                0 <= i < rows.len() ==> #[trigger] items[o + df.len() + dc.len() + i] is TestCase && case_view(
                    items[o + df.len() + dc.len() + i]->TestCase_0,
                ) == rows[i]
            &&& forall|i: int|
                0 <= i < dv.len() ==> #[trigger] items[o + df.len() + dc.len() + rows.len() + i] is ValueList
                    && value_list_view(items[o + df.len() + dc.len() + rows.len() + i]->ValueList_0) == dv[i]
            &&& folder is Some ==> items.last() is Files
        })
}

/// Each argument keeps its name and loses its markers: those of the model
/// pass, and also `notrace` and `future` where `all` holds.
pub open spec fn args_stripped(args0: Seq<FnArg>, args: Seq<FnArg>, all: bool) -> bool {
    &&& args.len() == args0.len()
    &&& forall|k: int|
        0 <= k < args0.len() ==> (#[trigger] args[k]).name == args0[k].name && args[k].attrs@ == unmarked(
            args0[k].attrs@,
            all,
        )
}

/// Reads the markers of a test function into the specification, leaving
/// the function as it was but for its case rows and data set declarations.
fn read_function_attrs(data: &mut RsTestData, item: &mut ItemFn) -> (r: Result<(), Vec<SpecError>>)
    ensures
        final(item).attrs@ == kept_attrs(without_cases(old(item).attrs@)),
        final(item).args == old(item).args,
        r is Ok <==> function_errors(*old(item)).len() == 0,
        r matches Err(e) ==> e@ == function_errors(*old(item)) && final(data).items@ == old(data).items@,
        r is Ok ==> extended_by(old(data).items@, final(data).items@, *old(item)),
{
    let ghost item0 = *item;
    let (mut cases, case_errs) = extract_cases(item);
    let mut fixtures: Vec<Fixture> = Vec::new();
    let mut case_args: Vec<String> = Vec::new();
    let mut values: Vec<ValueList> = Vec::new();
    let mut errors: Vec<SpecError> = case_errs;
    let ghost e0 = errors@;
    let mut k: usize = 0;
    while k < item.args.len()
        invariant
            item.args == item0.args,
            k <= item.args@.len(),
            e0 == case_errors(item0.attrs@),
            fixtures@.map_values(|f: Fixture| fixture_view(f)) == declared_fixtures(item.args@.subrange(0, k as int)),
            case_args@.map_values(|s: String| s@) == declared_case_args(item.args@.subrange(0, k as int)),
            values@.map_values(|v: ValueList| value_list_view(v)) == declared_values(item.args@.subrange(0, k as int)),
            errors@ == e0 + declared_errors(item.args@.subrange(0, k as int)),
        decreases item.args@.len() - k,
    {
        assert(item.args@.subrange(0, k + 1).drop_last() == item.args@.subrange(0, k as int));
        assert(item.args@.subrange(0, k + 1).last() == item.args@[k as int]);
        read_arg(&item.args[k], &mut fixtures, &mut case_args, &mut values, &mut errors);
        assert(errors@ =~= e0 + declared_errors(item.args@.subrange(0, k + 1)));
        k = k + 1;
    }
    assert(item.args@.subrange(0, k as int) == item.args@);
    let files = match extract_files(item) {
        Ok(f) => f,
        Err(mut e) => {
            errors.append(&mut e);
            None
        },
    };
    if errors.len() > 0 {
        assert(errors@ =~= function_errors(item0));
        return Err(errors);
    }
    assert(function_errors(item0) =~= errors@);
    let ghost fx0 = fixtures@;
    let ghost ca0 = case_args@;
    let ghost cs0 = cases@;
    let ghost vs0 = values@;
    let ghost done_fx: Seq<Fixture> = seq![];
    let ghost done_ca: Seq<String> = seq![];
    let ghost done_cs: Seq<TestCase> = seq![];
    let ghost done_vs: Seq<ValueList> = seq![];
    let mut added: Vec<RsTestItem> = Vec::new();
    while fixtures.len() > 0
        invariant
            fixtures_of(added@) + fixtures@ == fx0,
            done_fx + fixtures@ == fx0,
            laid_out(added@, done_fx, seq![], seq![], seq![]),
            case_args_of(added@).len() == 0,
            cases_of(added@).len() == 0,
            value_lists_of(added@).len() == 0,
            files_of(added@) is None,
        decreases fixtures@.len(),
    {
        let f = fixtures.remove(0);
        let ghost before = added@;
        proof { done_fx = done_fx.push(f); }
        added.push(RsTestItem::Fixture(f));
        assert(added@.drop_last() == before);
        assert(fixtures_of(added@) + fixtures@ =~= fx0);
        assert(done_fx + fixtures@ =~= fx0);
    }
    assert(fixtures_of(added@) =~= fx0);
    assert(done_fx =~= fx0);
    while case_args.len() > 0
        invariant
            fixtures_of(added@) == fx0,
            case_args_of(added@) + case_args@.map_values(|s: String| s@) == ca0.map_values(|s: String| s@),
            done_ca + case_args@ == ca0,
            laid_out(added@, fx0, done_ca, seq![], seq![]),
            cases_of(added@).len() == 0,
            value_lists_of(added@).len() == 0,
            files_of(added@) is None,
        decreases case_args@.len(),
    {
        let ghost rest = case_args@;
        let c = case_args.remove(0);
        let ghost before = added@;
        proof { done_ca = done_ca.push(c); }
        added.push(RsTestItem::CaseArgName(c));
        assert(added@.drop_last() == before);
        assert(rest.map_values(|s: String| s@) =~= seq![c@] + case_args@.map_values(|s: String| s@));
        assert(case_args_of(added@) + case_args@.map_values(|s: String| s@) =~= ca0.map_values(|s: String| s@));
        assert(done_ca + case_args@ =~= ca0);
    }
    assert(case_args_of(added@) =~= ca0.map_values(|s: String| s@));
    assert(done_ca =~= ca0);
    while cases.len() > 0
        invariant
            fixtures_of(added@) == fx0,
            case_args_of(added@) == ca0.map_values(|s: String| s@),
            cases_of(added@) + cases@ == cs0,
            done_cs + cases@ == cs0,
            laid_out(added@, fx0, ca0, done_cs, seq![]),
            value_lists_of(added@).len() == 0,
            files_of(added@) is None,
        decreases cases@.len(),
    {
        let c = cases.remove(0);
        let ghost before = added@;
        proof { done_cs = done_cs.push(c); }
        added.push(RsTestItem::TestCase(c));
        assert(added@.drop_last() == before);
        assert(cases_of(added@) + cases@ =~= cs0);
        assert(done_cs + cases@ =~= cs0);
    }
    assert(cases_of(added@) =~= cs0);
    assert(done_cs =~= cs0);
    while values.len() > 0
        invariant
            fixtures_of(added@) == fx0,
            case_args_of(added@) == ca0.map_values(|s: String| s@),
            cases_of(added@) == cs0,
            value_lists_of(added@) + values@ == vs0,
            done_vs + values@ == vs0,
            laid_out(added@, fx0, ca0, cs0, done_vs),
            files_of(added@) is None,
        decreases values@.len(),
    {
        let v = values.remove(0);
        let ghost before = added@;
        proof { done_vs = done_vs.push(v); }
        added.push(RsTestItem::ValueList(v));
        assert(added@.drop_last() == before);
        assert(value_lists_of(added@) + values@ =~= vs0);
        assert(done_vs + values@ =~= vs0);
    }
    assert(value_lists_of(added@) =~= vs0);
    assert(done_vs =~= vs0);
    let ghost no_files = added@;
    match files {
        Some(f) => {
            added.push(RsTestItem::Files(f));
            assert(added@.drop_last() == no_files);
        },
        None => {},
    }
    let ghost items0 = data.items@;
    let ghost add = added@;
    data.items.append(&mut added);
    proof {
        lemma_items_concat(items0, add);
        assert(fixtures_of(items0 + add).map_values(|f: Fixture| fixture_view(f)) =~= fixtures_of(items0).map_values(
            |f: Fixture| fixture_view(f),
        ) + fx0.map_values(|f: Fixture| fixture_view(f)));
        assert(value_lists_of(items0 + add).map_values(|v: ValueList| value_list_view(v)) =~= value_lists_of(
            items0,
        ).map_values(|v: ValueList| value_list_view(v)) + vs0.map_values(|v: ValueList| value_list_view(v)));
        assert(cases_of(items0 + add).map_values(|c: TestCase| case_view(c)) =~= cases_of(items0).map_values(
            |c: TestCase| case_view(c),
        ) + cs0.map_values(|c: TestCase| case_view(c)));
        let o = items0.len() as int;
        let items = items0 + add;
        assert(items.subrange(0, o) =~= items0);
        assert forall|i: int| 0 <= i < fx0.len() implies #[trigger] items[o + i] is Fixture && fixture_view(
            items[o + i]->Fixture_0,
        ) == fx0.map_values(|f: Fixture| fixture_view(f))[i] by {
            assert(items[o + i] == no_files[i]);
        }
        let nf = fx0.len() as int;
        assert forall|i: int| 0 <= i < ca0.len() implies #[trigger] items[o + nf + i] is CaseArgName && (items[o
            + nf + i]->CaseArgName_0)@ == ca0.map_values(|s: String| s@)[i] by {
            assert(items[o + nf + i] == no_files[nf + i]);
            assert(no_files[fx0.len() + i] == RsTestItem::CaseArgName(ca0[i]));
        }
        let nc = ca0.len() as int;
        assert forall|i: int| 0 <= i < cs0.len() implies #[trigger] items[o + nf + nc + i] is TestCase
            && case_view(items[o + nf + nc + i]->TestCase_0) == cs0.map_values(|c: TestCase| case_view(c))[i] by {
            assert(items[o + nf + nc + i] == no_files[nf + nc + i]);
            assert(no_files[fx0.len() + ca0.len() + i] == RsTestItem::TestCase(cs0[i]));
        }
        let nt = cs0.len() as int;
        assert forall|i: int| 0 <= i < vs0.len() implies #[trigger] items[o + nf + nc + nt + i] is ValueList
            && value_list_view(items[o + nf + nc + nt + i]->ValueList_0) == vs0.map_values(
            |v: ValueList| value_list_view(v),
        )[i] by {
            assert(items[o + nf + nc + nt + i] == no_files[nf + nc + nt + i]);
            assert(no_files[fx0.len() + ca0.len() + cs0.len() + i] == RsTestItem::ValueList(vs0[i]));
        }
    }
    Ok(())
}

/// Reads every marker of a test function into the specification: the
/// fixtures, case arguments, case rows, axes and file data set it declares,
/// appended in that order. Case rows and data set declarations are taken off
/// the function, and the markers this pass reads off its arguments. Where any
/// marker is wrong, the specification is left as it was and every error is
/// returned.
pub fn extend_with_function_attrs(data: &mut RsTestData, item: &mut ItemFn) -> (r: Result<(), Vec<SpecError>>)
    ensures
        final(item).attrs@ == kept_attrs(without_cases(old(item).attrs@)),
        args_stripped(old(item).args@, final(item).args@, false),
        r is Ok <==> function_errors(*old(item)).len() == 0,
        r matches Err(e) ==> e@ == function_errors(*old(item)) && final(data).items@ == old(data).items@,
        r is Ok ==> extended_by(old(data).items@, final(data).items@, *old(item)),
{
    let r = read_function_attrs(data, item);
    strip_markers(item, false);
    r
}

/// The arguments marked with the argument-less attribute `name`, and the
/// errors of those marks.
pub open spec fn marked_args(args: Seq<FnArg>, name: Seq<char>) -> (Seq<String>, Seq<SpecError>)
    decreases args.len(),
{
    if args.len() == 0 {
        (seq![], seq![])
    } else {
        let (names, errs) = marked_args(args.drop_last(), name);
        let arg = args.last();
        match arg.name {
            Some(n) => {
                let (mark, mark_errs) = args_once(arg.attrs@, name);
                (
                    if mark is Some {
                        names.push(n)
                    } else {
                        names
                    },
                    errs + mark_errs,
                )
            },
            None => (names, errs),
        }
    }
}

/// The arguments marked `notrace`, and the errors of those marks.
pub open spec fn excluded_trace(args: Seq<FnArg>) -> (Seq<String>, Seq<SpecError>) {
    marked_args(args, "notrace"@)
}

/// The arguments marked `future`, and the errors of those marks.
pub open spec fn future_args(args: Seq<FnArg>) -> (Seq<String>, Seq<SpecError>) {
    marked_args(args, "future"@)
}

/// Reads which arguments carry the argument-less attribute `mark`.
pub fn extract_marked_args(item: &ItemFn, mark: &String) -> (r: (Vec<String>, Vec<SpecError>))
    ensures
        r.0@ == marked_args(item.args@, mark@).0,
        r.1@ == marked_args(item.args@, mark@).1,
{
    let mut names: Vec<String> = Vec::new();
    let mut errors: Vec<SpecError> = Vec::new();
    let mut k: usize = 0;
    while k < item.args.len()
        invariant
            k <= item.args@.len(),
            names@ == marked_args(item.args@.subrange(0, k as int), mark@).0,
            errors@ == marked_args(item.args@.subrange(0, k as int), mark@).1,
        decreases item.args@.len() - k,
    {
        assert(item.args@.subrange(0, k + 1).drop_last() == item.args@.subrange(0, k as int));
        assert(item.args@.subrange(0, k + 1).last() == item.args@[k as int]);
        let arg = &item.args[k];
        match &arg.name {
            Some(n) => {
                let (found, mut mark_errs) = attribute_args_once(&arg.attrs, mark);
                if found.is_some() {
                    names.push(n.clone());
                }
                errors.append(&mut mark_errs);
            },
            None => {},
        }
        k = k + 1;
    }
    assert(item.args@.subrange(0, k as int) == item.args@);
    (names, errors)
}

/// Reads which arguments are kept out of tracing.
pub fn extract_excluded_trace(item: &ItemFn) -> (r: (Vec<String>, Vec<SpecError>))
    ensures
        r.0@ == excluded_trace(item.args@).0,
        r.1@ == excluded_trace(item.args@).1,
{
    extract_marked_args(item, &String::from_str("notrace"))
}

/// Reads which arguments are futures.
pub fn extract_futures(item: &ItemFn) -> (r: (Vec<String>, Vec<SpecError>))
    ensures
        r.0@ == future_args(item.args@).0,
        r.1@ == future_args(item.args@).1,
{
    extract_marked_args(item, &String::from_str("future"))
}

/// One error for each timeout that could not be read.
pub open spec fn timeout_errors(attrs: Seq<FnAttr>) -> Seq<SpecError>
    decreases attrs.len(),
{
    if attrs.len() == 0 {
        seq![]
    } else {
        match attrs.last() {
            FnAttr::TimeoutError(m) => timeout_errors(attrs.drop_last()).push(SpecError::InvalidTimeout(m)),
            _ => timeout_errors(attrs.drop_last()),
        }
    }
}

/// Checks every timeout of the function, not only the first.
pub fn check_timeout_attrs(item: &ItemFn) -> (r: Vec<SpecError>)
    ensures
        r@ == timeout_errors(item.attrs@),
{
    let mut errors: Vec<SpecError> = Vec::new();
    let mut k: usize = 0;
    while k < item.attrs.len()
        invariant
            k <= item.attrs@.len(),
            errors@ == timeout_errors(item.attrs@.subrange(0, k as int)),
        decreases item.attrs@.len() - k,
    {
        assert(item.attrs@.subrange(0, k + 1).drop_last() == item.attrs@.subrange(0, k as int));
        match &item.attrs[k] {
            FnAttr::TimeoutError(m) => {
                errors.push(SpecError::InvalidTimeout(m.clone()));
            },
            _ => {},
        }
        k = k + 1;
    }
    assert(item.attrs@.subrange(0, k as int) == item.attrs@);
    errors
}

pub open spec fn has_global_await(attrs: Seq<FnAttr>) -> bool {
    exists|k: int| 0 <= k < attrs.len() && attrs[k] is GlobalAwait
}

/// Whether the function awaits every future argument.
pub fn extract_global_awt(item: &ItemFn) -> (r: bool)
    ensures
        r == has_global_await(item.attrs@),
{
    let mut k: usize = 0;
    while k < item.attrs.len()
        invariant
            k <= item.attrs@.len(),
            forall|j: int| 0 <= j < k ==> !(item.attrs@[j] is GlobalAwait),
        decreases item.attrs@.len() - k,
    {
        if let FnAttr::GlobalAwait = &item.attrs[k] {
            return true;
        }
        k = k + 1;
    }
    false
}

/// The argument attributes that the passes read: `with`, `from`, `case`,
/// `values`, `field` and `data` for the model, and, where `all` holds,
/// `notrace` and `future` as well.
pub open spec fn is_marker(n: Seq<char>, all: bool) -> bool {
    n == "with"@ || n == "from"@ || n == "case"@ || n == "values"@ || n == "field"@ || n == "data"@ || (all && (n
        == "notrace"@ || n == "future"@))
}

fn is_marker_name(n: &String, all: bool) -> (r: bool)
    ensures
        r == is_marker(n@, all),
{
    n.eq(&String::from_str("with")) || n.eq(&String::from_str("from")) || n.eq(&String::from_str("case"))
        || n.eq(&String::from_str("values")) || n.eq(&String::from_str("field")) || n.eq(
        &String::from_str("data"),
    ) || (all && (n.eq(&String::from_str("notrace")) || n.eq(&String::from_str("future"))))
}

/// The attributes that are not markers, in order.
pub open spec fn unmarked(attrs: Seq<Attr>, all: bool) -> Seq<Attr>
    decreases attrs.len(),
{
    if attrs.len() == 0 {
        seq![]
    } else if is_marker(attrs.last().name@, all) {
        unmarked(attrs.drop_last(), all)
    } else {
        unmarked(attrs.drop_last(), all).push(attrs.last())
    }
}

/// Taking the model's markers off, then all markers, takes all markers off.
proof fn lemma_unmarked_twice(attrs: Seq<Attr>)
    ensures
        unmarked(unmarked(attrs, false), true) == unmarked(attrs, true),
    decreases attrs.len(),
{
    if attrs.len() > 0 {
        lemma_unmarked_twice(attrs.drop_last());
        if !is_marker(attrs.last().name@, false) {
            assert(unmarked(attrs, false).drop_last() == unmarked(attrs.drop_last(), false));
        }
    }
}

/// Takes the markers off every argument, leaving its other attributes.
pub fn strip_markers(item: &mut ItemFn, all: bool)
    ensures
        final(item).attrs == old(item).attrs,
        args_stripped(old(item).args@, final(item).args@, all),
{
    let ghost args0 = item.args@;
    let mut rest: Vec<FnArg> = Vec::new();
    std::mem::swap(&mut rest, &mut item.args);
    let n = rest.len();
    let mut out: Vec<FnArg> = Vec::new();
    let mut k: usize = 0;
    while k < n
        invariant
            n == args0.len(),
            k <= n,
            rest@ == args0.subrange(k as int, n as int),
            out@.len() == k,
            forall|j: int|
                0 <= j < k ==> (#[trigger] out@[j]).name == args0[j].name && out@[j].attrs@ == unmarked(
                    args0[j].attrs@,
                    all,
                ),
        decreases n - k,
    {
        let arg = rest.remove(0);
        assert(arg == args0[k as int]);
        let FnArg { name, attrs } = arg;
        let ghost attrs0 = attrs@;
        let mut attrs = attrs;
        let len = attrs.len();
        let mut kept: Vec<Attr> = Vec::new();
        let mut i: usize = 0;
        while i < len
            invariant
                len == attrs0.len(),
                i <= len,
                attrs@ == attrs0.subrange(i as int, len as int),
                kept@ == unmarked(attrs0.subrange(0, i as int), all),
            decreases len - i,
        {
            assert(attrs0.subrange(0, i + 1).drop_last() == attrs0.subrange(0, i as int));
            let a = attrs.remove(0);
            assert(a == attrs0[i as int]);
            if !is_marker_name(&a.name, all) {
                kept.push(a);
            }
            i = i + 1;
        }
        assert(attrs0.subrange(0, len as int) == attrs0);
        out.push(FnArg { name, attrs: kept });
        k = k + 1;
    }
    item.args = out;
}

/// Which arguments are futures, and whether all of them are awaited.
#[derive(Debug, PartialEq, Eq)]
pub struct ArgumentsInfo {
    pub futures: Vec<String>,
    pub global_await: bool,
}

/// A test specification together with its specification-wide attributes and
/// what is known of its arguments.
#[derive(Debug, PartialEq, Eq)]
pub struct RsTestInfo {
    pub data: RsTestData,
    pub attributes: RsTestAttributes,
    pub arguments: ArgumentsInfo,
}

/// Every error that reading a function finds: those of the specification's
/// markers, of the `notrace` marks, of the timeouts, then of the `future`
/// marks.
pub open spec fn info_errors(item: ItemFn) -> Seq<SpecError> {
    function_errors(item) + excluded_trace(item.args@).1 + timeout_errors(item.attrs@) + future_args(item.args@).1
}

impl RsTestInfo {
    /// Reads the function's markers into the specification, its `notrace`
    /// marks into the attributes, and its `future` marks and global-await
    /// marker into the arguments, then takes the markers off the arguments. Every step runs; where any fails, every
    /// error is returned and the attributes and arguments are left as they
    /// were; the specification is then not to be used.
    pub fn extend_with_function_attrs(&mut self, item: &mut ItemFn) -> (r: Result<(), Vec<SpecError>>)
        ensures
            final(item).attrs@ == kept_attrs(without_cases(old(item).attrs@)),
            args_stripped(old(item).args@, final(item).args@, true),
            function_errors(*old(item)).len() == 0 ==> extended_by(
                old(self).data.items@,
                final(self).data.items@,
                *old(item),
            ),
            function_errors(*old(item)).len() > 0 ==> final(self).data.items@ == old(self).data.items@,
            r is Ok <==> info_errors(*old(item)).len() == 0,
            r matches Err(e) ==> e@ == info_errors(*old(item)),
            r is Err ==> final(self).attributes == old(self).attributes && final(self).arguments == old(
                self,
            ).arguments,
            r is Ok && excluded_trace(old(item).args@).0.len() == 0 ==> final(self).attributes.attributes@
                == old(self).attributes.attributes@,
            r is Ok && excluded_trace(old(item).args@).0.len() > 0 ==> final(self).attributes.attributes@.len()
                == old(self).attributes.attributes@.len() + 1,
            r is Ok && excluded_trace(old(item).args@).0.len() > 0 ==> final(self).attributes.attributes@.drop_last()
                == old(self).attributes.attributes@,
            r is Ok && excluded_trace(old(item).args@).0.len() > 0 ==> (final(self).attributes.attributes@.last() matches Attribute::Tagged(
                tag,
                names,
            ) && tag@ == "notrace"@ && names@ == excluded_trace(old(item).args@).0),
            r is Ok ==> final(self).arguments.futures@ == old(self).arguments.futures@ + future_args(
                old(item).args@,
            ).0,
            r is Ok ==> final(self).arguments.global_await == (old(self).arguments.global_await
                || has_global_await(old(item).attrs@)),
    {
        let ghost item0 = *item;
        let (excluded, mut trace_errs) = extract_excluded_trace(item);
        let mut timeout_errs = check_timeout_attrs(item);
        let (mut futures, mut future_errs) = extract_futures(item);
        let global_awt = extract_global_awt(item);
        let mut errors = match extend_with_function_attrs(&mut self.data, item) {
            Ok(()) => Vec::new(),
            Err(e) => e,
        };
        assert(errors@ =~= function_errors(item0));
        errors.append(&mut trace_errs);
        errors.append(&mut timeout_errs);
        errors.append(&mut future_errs);
        let ghost args1 = item.args@;
        strip_markers(item, true);
        proof {
            assert forall|k: int| 0 <= k < item0.args@.len() implies #[trigger] item.args@[k].attrs@ == unmarked(
                item0.args@[k].attrs@,
                true,
            ) by {
                assert(args1[k].attrs@ == unmarked(item0.args@[k].attrs@, false));
                lemma_unmarked_twice(item0.args@[k].attrs@);
            }
        }
        if errors.len() > 0 {
            return Err(errors);
        }
        let ghost before = self.attributes;
        self.attributes.add_notraces(excluded);
        proof {
            if excluded_trace(item0.args@).0.len() == 0 {
                assert(self.attributes.attributes@ =~= before.attributes@);
            }
        }
        self.arguments.futures.append(&mut futures);
        self.arguments.global_await = self.arguments.global_await || global_awt;
        Ok(())
    }
}

} // verus!
