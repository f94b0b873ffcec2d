use vstd::prelude::*;
use crate::error::SpecError;
use crate::model::{RsTestData, RsTestItem, case_args_of, cases_of};

verus! {

pub open spec fn names_contain(names: Seq<String>, n: Seq<char>) -> bool {
    exists|i: int| 0 <= i < names.len() && names[i]@ == n
}

/// The item injects the fixture `n` with explicit arguments.
pub open spec fn is_injection(item: RsTestItem, n: Seq<char>) -> bool {
    item matches RsTestItem::Fixture(f) && f.name@ == n && f.args@.len() > 0
}

pub open spec fn injected_before(items: Seq<RsTestItem>, k: int, n: Seq<char>) -> bool {
    exists|j: int| 0 <= j < k && is_injection(items[j], n)
}

pub open spec fn unmatched(params: Seq<String>, n: String) -> Seq<SpecError> {
    if names_contain(params, n@) {
        seq![]
    } else {
        seq![SpecError::NoMatchingArgument(n)]
    }
}

/// An item before `k` binds the name `n` too, other than a second injection
/// of an injected fixture (which is a duplicate, not a clash).
pub open spec fn clashes_before(items: Seq<RsTestItem>, k: int, n: Seq<char>, injected: bool) -> bool {
    exists|j: int|
        0 <= j < k && (#[trigger] items[j]).spec_ident() == Some(n) && !(injected && is_injection(items[j], n))
}

/// The errors that the item at `k` brings. A conflict or a repetition between
/// two items is reported at the later one. A name is bound by one mechanism
/// only: one fixture, case argument or axis.
pub open spec fn item_errors(items: Seq<RsTestItem>, params: Seq<String>, k: int) -> Seq<SpecError> {
    match items[k] {
        RsTestItem::Fixture(f) => {
            let injected = f.args@.len() > 0;
            unmatched(params, f.name) + (if injected && injected_before(items, k, f.name@) {
                seq![SpecError::DuplicateInjection(f.name)]
            } else {
                seq![]
            }) + (if clashes_before(items, k, f.name@, injected) {
                seq![SpecError::ConflictingBinding(f.name)]
            } else {
                seq![]
            })
        },
        RsTestItem::ValueList(v) => {
            unmatched(params, v.name) + (if v.values@.len() == 0 {
                seq![SpecError::EmptyValueList(v.name)]
            } else {
                seq![]
            }) + (if clashes_before(items, k, v.name@, false) {
                seq![SpecError::ConflictingBinding(v.name)]
            } else {
                seq![]
            })
        },
        RsTestItem::CaseArgName(n) => unmatched(params, n) + (if clashes_before(items, k, n@, false) {
            seq![SpecError::ConflictingBinding(n)]
        } else {
            seq![]
        }),
        RsTestItem::TestCase(c) => if c.values@.len() != case_args_of(items).len() {
            seq![
                SpecError::ArityMismatch {
                    case: cases_of(items.subrange(0, k)).len() as usize,
                    expected: case_args_of(items).len() as usize,
                    found: c.values@.len() as usize,
                },
            ]
        } else {
            seq![]
        },
        RsTestItem::Files(_) => seq![],
    }
}

/// The errors of the first `n` items, in item order.
pub open spec fn errors_upto(items: Seq<RsTestItem>, params: Seq<String>, n: int) -> Seq<SpecError>
    decreases n,
{
    if n <= 0 {
        seq![]
    } else {
        errors_upto(items, params, n - 1) + item_errors(items, params, n - 1)
    }
}

/// Every defect of a specification on a function with parameters `params`.
pub open spec fn spec_errors(data: RsTestData, params: Seq<String>) -> Seq<SpecError> {
    errors_upto(data.items@, params, data.items@.len() as int)
}

pub fn contains_name(names: &[String], n: &String) -> (r: bool)
    ensures
        r == names_contain(names@, n@),
{
    let mut i: usize = 0;
    while i < names.len()
        invariant
            i <= names@.len(),
            forall|j: int| 0 <= j < i ==> names@[j]@ != n@,
        decreases names@.len() - i,
    {
        if names[i].eq(n) {
            return true;
        }
        i = i + 1;
    }
    false
}

fn find_clash(items: &Vec<RsTestItem>, k: usize, n: &String, injected: bool) -> (r: bool)
    requires
        k <= items@.len(),
    ensures
        r == clashes_before(items@, k as int, n@, injected),
{
    let mut j: usize = 0;
    while j < k
        invariant
            k <= items@.len(),
            j <= k,
            forall|i: int|
                0 <= i < j ==> !((#[trigger] items@[i]).spec_ident() == Some(n@) && !(injected && is_injection(
                    items@[i],
                    n@,
                ))),
        decreases k - j,
    {
        let it = &items[j];
        match it.maybe_ident() {
            Some(m) => {
                if m.eq(n) {
                    let other_injected = match it {
                        RsTestItem::Fixture(f) => f.args.len() > 0,
                        _ => false,
                    };
                    if !(injected && other_injected) {
                        return true;
                    }
                }
            },
            None => {},
        }
        j = j + 1;
    }
    false
}

fn find_injection_before(items: &Vec<RsTestItem>, k: usize, n: &String) -> (r: bool)
    requires
        k <= items@.len(),
    ensures
        r == injected_before(items@, k as int, n@),
{
    let mut j: usize = 0;
    while j < k
        invariant
            k <= items@.len(),
            j <= k,
            forall|i: int| 0 <= i < j ==> !is_injection(items@[i], n@),
        decreases k - j,
    {
        if let RsTestItem::Fixture(f) = &items[j] {
            if f.args.len() > 0 && f.name.eq(n) {
                return true;
            }
        }
        j = j + 1;
    }
    false
}

fn push_unmatched(errors: &mut Vec<SpecError>, params: &Vec<String>, n: &String)
    ensures
        final(errors)@ == old(errors)@ + unmatched(params@, *n),
{
    if !contains_name(params, n) {
        errors.push(SpecError::NoMatchingArgument(n.clone()));
    } else {
        assert(old(errors)@ + seq![] == old(errors)@);
    }
}

/// Checks a specification against the parameters of its function. All rules
/// run over all items; the result is `Ok` only where no rule fails, and
/// otherwise lists every failure.
pub fn validate(data: &RsTestData, params: &Vec<String>) -> (r: Result<(), Vec<SpecError>>)
    ensures
        r is Ok <==> spec_errors(*data, params@).len() == 0,
        r matches Err(e) ==> e@ == spec_errors(*data, params@),
{
    let items = &data.items;
    let n_case_args = data.case_args().len();
    let mut errors: Vec<SpecError> = Vec::new();
    let mut n_cases: usize = 0;
    let mut k: usize = 0;
    while k < items.len()
        invariant
            k <= items@.len(),
            items == data.items,
            n_case_args == case_args_of(items@).len(),
            n_cases == cases_of(items@.subrange(0, k as int)).len(),
            n_cases <= k,
            errors@ == errors_upto(items@, params@, k as int),
        decreases items@.len() - k,
    {
        let ghost e0 = errors@;
        assert(items@.subrange(0, k + 1).drop_last() == items@.subrange(0, k as int));
        assert(items@.subrange(0, k + 1).last() == items@[k as int]);
        match &items[k] {
            RsTestItem::Fixture(f) => {
                push_unmatched(&mut errors, params, &f.name);
                let injected = f.args.len() > 0;
                if injected && find_injection_before(items, k, &f.name) {
                    errors.push(SpecError::DuplicateInjection(f.name.clone()));
                }
                if find_clash(items, k, &f.name, injected) {
                    errors.push(SpecError::ConflictingBinding(f.name.clone()));
                }
                assert(errors@ == e0 + item_errors(items@, params@, k as int));
            },
            RsTestItem::ValueList(v) => {
                push_unmatched(&mut errors, params, &v.name);
                if v.values.len() == 0 {
                    errors.push(SpecError::EmptyValueList(v.name.clone()));
                }
                if find_clash(items, k, &v.name, false) {
                    errors.push(SpecError::ConflictingBinding(v.name.clone()));
                }
                assert(errors@ == e0 + item_errors(items@, params@, k as int));
            },
            RsTestItem::CaseArgName(n) => {
                push_unmatched(&mut errors, params, n);
                if find_clash(items, k, n, false) {
                    errors.push(SpecError::ConflictingBinding(n.clone()));
                }
                assert(errors@ =~= e0 + item_errors(items@, params@, k as int));
            },
            RsTestItem::TestCase(c) => {
                if c.values.len() != n_case_args {
                    errors.push(
                        SpecError::ArityMismatch {
                            case: n_cases,
                            expected: n_case_args,
                            found: c.values.len(),
                        },
                    );
                } else {
                    assert(e0 + seq![] == e0);
                }
                n_cases = n_cases + 1;
            },
            RsTestItem::Files(_) => {
                assert(e0 + seq![] == e0);
            },
        }
        k = k + 1;
    }
    assert(items@.subrange(0, k as int) == items@);
    if errors.len() == 0 {
        Ok(())
    } else {
        Err(errors)
    }
}

} // verus!
