use vstd::prelude::*;
use crate::attributes::RsTestAttributes;
use crate::expand::{Binding, Invocation, bound_as, fixture_bound_as, at_least_one, axis_lens, combos, invocation_ok, product, radices};
use crate::error::SpecError;
use crate::model::{RsTestData, RsTestItem, ValueList, cases_of, fixtures_of, value_lists_of};
use crate::validate::{errors_upto, is_injection, item_errors, spec_errors};

verus! {

/// The product of the lengths of the axes.
pub open spec fn axes_product(axes: Seq<ValueList>) -> nat
    decreases axes.len(),
{
    if axes.len() == 0 {
        1
    } else {
        axes_product(axes.drop_last()) * axes.last().values@.len()
    }
}

/// The number of invocations is the number of case rows (at least one),
/// times the length of each axis, times the number of records (at least one).
pub proof fn lemma_cardinality(data: RsTestData, rows: nat)
    requires
        cases_of(data.items@).len() <= usize::MAX,
        rows <= usize::MAX,
        forall|a: int|
            0 <= a < value_lists_of(data.items@).len() ==> #[trigger] value_lists_of(data.items@)[a].values@.len()
                <= usize::MAX,
    ensures
        product(radices(data, rows)) == at_least_one(cases_of(data.items@).len()) * axes_product(
            value_lists_of(data.items@),
        ) * at_least_one(rows),
{
    let c = at_least_one(cases_of(data.items@).len());
    let r = at_least_one(rows);
    let axes = value_lists_of(data.items@);
    lemma_product_axes(c as usize, r as usize, axes);
    assert(c * r * axes_product(axes) == c * axes_product(axes) * r) by (nonlinear_arith);
}

proof fn lemma_product_axes(c: usize, r: usize, axes: Seq<ValueList>)
    requires
        forall|a: int| 0 <= a < axes.len() ==> #[trigger] axes[a].values@.len() <= usize::MAX,
    ensures
        product(seq![c, r] + axis_lens(axes)) == c * r * axes_product(axes),
    decreases axes.len(),
{
    let rs = seq![c, r] + axis_lens(axes);
    if axes.len() == 0 {
        assert(axis_lens(axes) =~= Seq::<usize>::empty());
        assert(rs =~= seq![c, r]);
        assert(rs.drop_last() =~= seq![c]);
        assert(seq![c].drop_last() =~= Seq::<usize>::empty());
        assert(product(Seq::<usize>::empty()) == 1);
        assert(seq![c].last() == c);
        assert(product(seq![c]) == product(Seq::<usize>::empty()) * (c as nat));
        assert(product(seq![c]) == (c as nat));
        assert(product(rs) == (c as nat) * (r as nat));
        assert(axes_product(axes) == 1);
        assert((c as nat) * (r as nat) == c * r * 1) by (nonlinear_arith);
    } else {
        lemma_product_axes(c, r, axes.drop_last());
        assert(rs.drop_last() =~= seq![c, r] + axis_lens(axes.drop_last()));
        let p = c * r * axes_product(axes.drop_last());
        let l = axes.last().values@.len();
        assert(rs.last() == l as usize);
        assert(product(rs) == product(rs.drop_last()) * (rs.last() as nat));
        assert(product(rs) == p * l);
        assert(axes_product(axes) == axes_product(axes.drop_last()) * l);
        assert(p * l == c * r * (axes_product(axes.drop_last()) * l)) by (nonlinear_arith)
            requires
                p == c * r * axes_product(axes.drop_last()),
        ;
    }
}

/// The two bindings give an argument the same value: the same expression,
/// the same record and field, or the same fixture with the same arguments.
pub open spec fn same_binding(a: Binding, b: Binding) -> bool {
    match (a, b) {
        (Binding::Value(x), Binding::Value(y)) => x@ == y@,
        (Binding::Record { record: r1, field: f1 }, Binding::Record { record: r2, field: f2 }) => r1 == r2 && match (
            f1,
            f2,
        ) {
            (Some(x), Some(y)) => x@ == y@,
            (None, None) => true,
            _ => false,
        },
        (Binding::Fixture { source: s1, args: a1 }, Binding::Fixture { source: s2, args: a2 }) => s1@ == s2@ && a1@
            == a2@,
        _ => false,
    }
}

/// `bound_as` fixes a binding up to the views of its strings.
proof fn lemma_bound_as_unique(a: Binding, b: Binding, data: RsTestData, rows: nat, p: Seq<char>, ds: Seq<usize>)
    requires
        bound_as(a, data, rows, p, ds),
        bound_as(b, data, rows, p, ds),
    ensures
        same_binding(a, b),
{
    match a {
        Binding::Value(x) => {
            assert(same_binding(a, b));
        },
        Binding::Record { record, field } => {
            match field {
                Some(n) => {
                    assert(b matches Binding::Record { record: _, field: Some(_) });
                    assert(same_binding(a, b));
                },
                None => {
                    assert(same_binding(a, b));
                },
            }
        },
        Binding::Fixture { source, args } => {
            let items = data.items@;
            assert(fixture_bound_as(a, fixtures_of(items), p));
            assert(fixture_bound_as(b, fixtures_of(items), p));
            let b_args = b->Fixture_args;
            assert(args@ =~= b_args@ || crate::lookup::last_fixture(fixtures_of(items), p) >= 0);
            assert(same_binding(a, b));
        },
    }
}

/// Expanding an unchanged specification twice gives the same invocations in
/// the same order, under the same names.
pub proof fn lemma_expand_deterministic(
    data: RsTestData,
    params: Seq<String>,
    attrs: RsTestAttributes,
    rows: nat,
    first: Seq<Invocation>,
    second: Seq<Invocation>,
)
    requires
        first.len() == product(radices(data, rows)),
        second.len() == product(radices(data, rows)),
        forall|i: int|
            0 <= i < first.len() ==> invocation_ok(#[trigger] first[i], data, params, attrs, rows, combos(radices(data, rows))[i]),
        forall|i: int|
            0 <= i < second.len() ==> invocation_ok(#[trigger] second[i], data, params, attrs, rows, combos(radices(data, rows))[i]),
    ensures
        first.len() == second.len(),
        forall|i: int|
            0 <= i < first.len() ==> {
                &&& (#[trigger] first[i]).name@ == second[i].name@
                &&& first[i].case == second[i].case
                &&& first[i].record == second[i].record
                &&& first[i].values@ == second[i].values@
                &&& first[i].traced@ == second[i].traced@
                &&& first[i].timeout == second[i].timeout
                &&& first[i].is_async == second[i].is_async
                &&& first[i].bindings@.len() == second[i].bindings@.len()
                &&& forall|k: int|
                    0 <= k < first[i].bindings@.len() ==> same_binding(
                        #[trigger] first[i].bindings@[k],
                        second[i].bindings@[k],
                    )
            },
{
    assert forall|i: int| 0 <= i < first.len() implies {
        &&& (#[trigger] first[i]).name@ == second[i].name@
        &&& first[i].case == second[i].case
        &&& first[i].record == second[i].record
        &&& first[i].values@ == second[i].values@
        &&& first[i].traced@ == second[i].traced@
        &&& first[i].timeout == second[i].timeout
        &&& first[i].is_async == second[i].is_async
        &&& first[i].bindings@.len() == second[i].bindings@.len()
        &&& forall|k: int|
            0 <= k < first[i].bindings@.len() ==> same_binding(#[trigger] first[i].bindings@[k], second[i].bindings@[k])
    } by {
        assert(invocation_ok(first[i], data, params, attrs, rows, combos(radices(data, rows))[i]));
        assert(invocation_ok(second[i], data, params, attrs, rows, combos(radices(data, rows))[i]));
        assert(first[i].traced@ =~= second[i].traced@);
        assert forall|k: int| 0 <= k < first[i].bindings@.len() implies same_binding(
            #[trigger] first[i].bindings@[k],
            second[i].bindings@[k],
        ) by {
            assert(bound_as(first[i].bindings@[k], data, rows, params[k]@, combos(radices(data, rows))[i]));
            assert(bound_as(second[i].bindings@[k], data, rows, params[k]@, combos(radices(data, rows))[i]));
            lemma_bound_as_unique(first[i].bindings@[k], second[i].bindings@[k], data, rows, params[k]@, combos(radices(data, rows))[i]);
        }
    }
}

/// A fixture injected twice is reported as a duplicate injection, whatever
/// the injected values and whatever other items the specification holds.
pub proof fn lemma_duplicate_injection(data: RsTestData, params: Seq<String>, j: int, k: int)
    requires
        0 <= j < k < data.items@.len(),
        data.items@[k] is Fixture,
        is_injection(data.items@[j], data.items@[k]->Fixture_0.name@),
        is_injection(data.items@[k], data.items@[k]->Fixture_0.name@),
    ensures
        spec_errors(data, params).contains(SpecError::DuplicateInjection(data.items@[k]->Fixture_0.name)),
{
    let items = data.items@;
    let name = items[k]->Fixture_0.name;
    let e = item_errors(items, params, k);
    assert(e.contains(SpecError::DuplicateInjection(name))) by {
        let u = crate::validate::unmatched(params, name);
        assert(e[u.len() as int] == SpecError::DuplicateInjection(name));
    }
    lemma_errors_grow(items, params, k + 1, items.len() as int);
    assert(errors_upto(items, params, k + 1) == errors_upto(items, params, k) + e);
    let i = choose|i: int| 0 <= i < e.len() && e[i] == SpecError::DuplicateInjection(name);
    assert(errors_upto(items, params, k + 1)[errors_upto(items, params, k).len() + i] == SpecError::DuplicateInjection(name));
}

/// The errors of a prefix of the items stay at the front of those of a
/// longer prefix.
proof fn lemma_errors_grow(items: Seq<RsTestItem>, params: Seq<String>, m: int, n: int)
    requires
        0 <= m <= n,
    ensures
        errors_upto(items, params, n).len() >= errors_upto(items, params, m).len(),
        errors_upto(items, params, n).subrange(0, errors_upto(items, params, m).len() as int)
            == errors_upto(items, params, m),
    decreases n - m,
{
    if m < n {
        lemma_errors_grow(items, params, m, n - 1);
        let a = errors_upto(items, params, m);
        let b = errors_upto(items, params, n - 1);
        assert(errors_upto(items, params, n).subrange(0, a.len() as int) =~= b.subrange(0, a.len() as int));
    } else {
        assert(errors_upto(items, params, n).subrange(0, errors_upto(items, params, m).len() as int) =~= errors_upto(items, params, m));
    }
}

} // verus!
