use vstd::prelude::*;
use vstd::arithmetic::div_mod::{lemma_fundamental_div_mod_converse_div, lemma_fundamental_div_mod_converse_mod, lemma_mod_bound, lemma_multiply_divide_lt};
use vstd::arithmetic::mul::{lemma_mul_inequality, lemma_mul_is_distributive_add_other_way};
use crate::attributes::RsTestAttributes;
use crate::lookup::{copy_strings, find_last_axis, find_last_field, find_last_fixture, find_last_name, last_axis, last_field, last_fixture, last_name, lemma_last_axis_range, lemma_last_name_range};
use crate::model::{Files, RsTestData, RsTestItem, Fixture, TestCase, ValueList, case_args_of, cases_of, value_lists_of, fixtures_of, files_of};
use crate::resolve::resolved_name;
use crate::validate::{contains_name, errors_upto, item_errors, names_contain, spec_errors};

verus! {

/// The product of the radices.
pub open spec fn product(rs: Seq<usize>) -> nat
    decreases rs.len(),
{
    if rs.len() == 0 {
        1
    } else {
        product(rs.drop_last()) * (rs.last() as nat)
    }
}

/// Every choice of one digit below each radix, in order: the first radix
/// varies slowest, the last fastest.
pub open spec fn combos(rs: Seq<usize>) -> Seq<Seq<usize>>
    decreases rs.len(),
{
    if rs.len() == 0 {
        seq![seq![]]
    } else {
        let prev = combos(rs.drop_last());
        let r = rs.last() as int;
        Seq::new((prev.len() * r) as nat, |i: int| prev[i / r].push((i % r) as usize))
    }
}

pub proof fn lemma_combos_len(rs: Seq<usize>)
    ensures
        combos(rs).len() == product(rs),
    decreases rs.len(),
{
    if rs.len() > 0 {
        lemma_combos_len(rs.drop_last());
    }
}

/// All digit choices below the radices `rs`, as `combos` orders them.
pub fn combinations(rs: &Vec<usize>) -> (r: Vec<Vec<usize>>)
    requires
        product(rs@) <= usize::MAX,
    ensures
        r@.len() == combos(rs@).len(),
        forall|i: int| 0 <= i < r@.len() ==> r@[i]@ == combos(rs@)[i],
{
    let mut z: usize = 0;
    while z < rs.len()
        invariant
            z <= rs@.len(),
            forall|i: int| 0 <= i < z ==> rs@[i] > 0,
        decreases rs@.len() - z,
    {
        if rs[z] == 0 {
            proof {
                lemma_product_zero(rs@, z as int);
                lemma_combos_len(rs@);
            }
            return Vec::new();
        }
        z = z + 1;
    }
    let mut cur: Vec<Vec<usize>> = Vec::new();
    cur.push(Vec::new());
    assert(cur@[0]@ == combos(rs@.subrange(0, 0))[0]);
    let mut k: usize = 0;
    while k < rs.len()
        invariant
            k <= rs@.len(),
            product(rs@) <= usize::MAX,
            forall|i: int| 0 <= i < rs@.len() ==> rs@[i] > 0,
            cur@.len() == combos(rs@.subrange(0, k as int)).len(),
            forall|i: int| 0 <= i < cur@.len() ==> cur@[i]@ == combos(rs@.subrange(0, k as int))[i],
        decreases rs@.len() - k,
    {
        let ghost pre = rs@.subrange(0, k as int);
        let ghost pre1 = rs@.subrange(0, k + 1);
        assert(pre1.drop_last() == pre);
        proof {
            lemma_combos_len(pre);
            lemma_combos_len(pre1);
            lemma_product_prefix(rs@, k + 1);
        }
        let r = rs[k];
        let mut next: Vec<Vec<usize>> = Vec::new();
        let mut idx: usize = 0;
        while idx < cur.len()
            invariant
                cur@.len() == combos(pre).len(),
                combos(pre1).len() == cur@.len() * r,
                cur@.len() * r <= usize::MAX,
                idx <= cur@.len(),
                next@.len() == idx * r,
                r == pre1.last(),
                pre1.len() > 0,
                pre1.drop_last() == pre,
                forall|i: int| 0 <= i < cur@.len() ==> cur@[i]@ == combos(pre)[i],
                forall|t: int| 0 <= t < next@.len() ==> next@[t]@ == combos(pre1)[t],
            decreases cur@.len() - idx,
        {
            let mut d: usize = 0;
            while d < r
                invariant
                    cur@.len() == combos(pre).len(),
                    combos(pre1).len() == cur@.len() * r,
                    cur@.len() * r <= usize::MAX,
                    idx < cur@.len(),
                    d <= r,
                    next@.len() == idx * r + d,
                    r == pre1.last(),
                    pre1.len() > 0,
                    pre1.drop_last() == pre,
                    forall|i: int| 0 <= i < cur@.len() ==> cur@[i]@ == combos(pre)[i],
                    forall|t: int| 0 <= t < next@.len() ==> next@[t]@ == combos(pre1)[t],
                decreases r - d,
            {
                proof {
                    lemma_mul_inequality(idx as int + 1, cur@.len() as int, r as int);
                    lemma_mul_is_distributive_add_other_way(r as int, idx as int, 1);
                    lemma_fundamental_div_mod_converse_div((idx * r + d) as int, r as int, idx as int, d as int);
                    lemma_fundamental_div_mod_converse_mod((idx * r + d) as int, r as int, idx as int, d as int);
                }
                let mut v = cur[idx].clone();
                assert(v@ =~= cur@[idx as int]@);
                v.push(d);
                let ghost t = next@.len() as int;
                next.push(v);
                assert(t / (r as int) == idx as int);
                assert(t % (r as int) == d as int);
                assert(t < combos(pre1).len());
                assert(combos(pre1)[t] == combos(pre)[t / (r as int)].push((t % (r as int)) as usize));
                assert(next@[t]@ == combos(pre1)[t]);
                d = d + 1;
            }
            proof {
                lemma_mul_is_distributive_add_other_way(r as int, idx as int, 1);
            }
            idx = idx + 1;
        }
        cur = next;
        k = k + 1;
    }
    assert(rs@.subrange(0, k as int) == rs@);
    cur
}

/// Where no radix is 0, the product of a prefix is at most that of the whole.
proof fn lemma_product_prefix(rs: Seq<usize>, k: int)
    requires
        0 <= k <= rs.len(),
        forall|i: int| 0 <= i < rs.len() ==> rs[i] > 0,
    ensures
        product(rs.subrange(0, k)) <= product(rs),
    decreases rs.len(),
{
    if k < rs.len() {
        assert(rs.drop_last().subrange(0, k) == rs.subrange(0, k));
        lemma_product_prefix(rs.drop_last(), k);
        let p = product(rs.drop_last());
        let l = rs.last() as nat;
        assert(p <= p * l) by (nonlinear_arith)
            requires
                l >= 1,
        ;
    } else {
        assert(rs.subrange(0, k) == rs);
    }
}

/// A radix of 0 leaves no combination.
proof fn lemma_product_zero(rs: Seq<usize>, i: int)
    requires
        0 <= i < rs.len(),
        rs[i] == 0,
    ensures
        product(rs) == 0,
    decreases rs.len(),
{
    if i < rs.len() - 1 {
        lemma_product_zero(rs.drop_last(), i);
    }
    let p = product(rs.drop_last());
    let l = rs.last() as nat;
    assert(p == 0 || l == 0 ==> p * l == 0) by (nonlinear_arith);
}

/// How one argument of one invocation gets its value.
#[derive(Debug, PartialEq, Eq)]
pub enum Binding {
    /// A literal expression, from a case row or a matrix axis.
    Value(String),
    /// A record of the file data set (`None` where it holds no record), whole
    /// (`field` is `None`) or one field of it.
    Record { record: Option<usize>, field: Option<String> },
    /// A fixture, looked up under `source`, built with `args` where given.
    Fixture { source: String, args: Vec<String> },
}

/// One concrete test call.
#[derive(Debug, PartialEq, Eq)]
pub struct Invocation {
    /// A name made of the chosen case, record and axis values.
    pub name: String,
    /// The chosen case row, where the specification has cases.
    pub case: Option<usize>,
    /// The chosen record, where the specification has records.
    pub record: Option<usize>,
    /// The chosen value of each axis, in declaration order.
    pub values: Vec<usize>,
    /// One binding for each parameter of the function, in order.
    pub bindings: Vec<Binding>,
    /// Whether each parameter is traced.
    pub traced: Vec<bool>,
    pub timeout: Option<String>,
    pub is_async: bool,
}

/// The number of records the expansion runs over: those given, where the
/// specification declares a file data set, else none.
pub open spec fn row_count(data: RsTestData, records: Seq<String>) -> nat {
    if files_of(data.items@) is Some {
        records.len()
    } else {
        0
    }
}

pub open spec fn at_least_one(n: nat) -> nat {
    if n == 0 {
        1
    } else {
        n
    }
}

pub open spec fn axis_lens(axes: Seq<ValueList>) -> Seq<usize> {
    axes.map_values(|v: ValueList| v.values@.len() as usize)
}

/// The radices of the expansion: cases, then records, then each axis.
pub open spec fn radices(data: RsTestData, rows: nat) -> Seq<usize> {
    seq![at_least_one(cases_of(data.items@).len()) as usize, at_least_one(rows) as usize] + axis_lens(
        value_lists_of(data.items@),
    )
}

/// The binding of the parameter `p` under the digits `ds`: a case argument
/// takes the chosen row's value, an axis its chosen value, a record argument
/// the chosen record, and any other argument a fixture of its name.
pub open spec fn bound_as(b: Binding, data: RsTestData, rows: nat, p: Seq<char>, ds: Seq<usize>) -> bool {
    let items = data.items@;
    let cases = cases_of(items);
    let axes = value_lists_of(items);
    let c = last_name(case_args_of(items), p);
    let a = last_axis(axes, p);
    let rec = if rows > 0 {
        Some(ds[1])
    } else {
        None
    };
    if c >= 0 && cases.len() > 0 {
        b == Binding::Value(cases[ds[0] as int].values@[c])
    } else if a >= 0 {
        b == Binding::Value(axes[a].values@[ds[2 + a] as int])
    } else {
        match files_of(items) {
            Some(f) if names_contain(f.spec_data(), p) => b == Binding::Record { record: rec, field: None },
            Some(f) if last_field(f.spec_args(), p) >= 0 => {
                let sf = f.spec_args()[last_field(f.spec_args(), p)];
                b matches Binding::Record { record, field: Some(name) } && record == rec && name@ == (
                match sf.field {
                    Some(o) => o@,
                    None => p,
                })
            },
            _ => fixture_bound_as(b, fixtures_of(items), p),
        }
    }
}

/// A fixture binding: the last fixture item of the argument's name, looked up
/// under the name it is renamed from; else the fixture of the argument's own
/// name, built with no argument.
pub open spec fn fixture_bound_as(b: Binding, fixtures: Seq<Fixture>, p: Seq<char>) -> bool {
    let fx = last_fixture(fixtures, p);
    if fx >= 0 {
        let f = fixtures[fx];
        b matches Binding::Fixture { source, args } && source@ == (match f.resolve {
            Some(o) => o@,
            None => f.name@,
        }) && args@ == f.args@
    } else {
        b matches Binding::Fixture { source, args } && source@ == p && args@.len() == 0
    }
}

/// The invocation for the digits `ds` (case, record, then one per axis).
pub open spec fn invocation_ok(
    inv: Invocation,
    data: RsTestData,
    params: Seq<String>,
    attrs: RsTestAttributes,
    rows: nat,
    ds: Seq<usize>,
) -> bool {
    &&& inv.name@ == join(name_segments(data, rows, ds))
    &&& inv.case == if cases_of(data.items@).len() > 0 {
        Some(ds[0])
    } else {
        None
    }
    &&& inv.record == if rows > 0 {
        Some(ds[1])
    } else {
        None
    }
    &&& inv.values@ == ds.subrange(2, ds.len() as int)
    &&& inv.bindings@.len() == params.len()
    &&& forall|k: int| 0 <= k < params.len() ==> bound_as(#[trigger] inv.bindings@[k], data, rows, params[k]@, ds)
    &&& inv.traced@.len() == params.len()
    &&& forall|k: int| 0 <= k < params.len() ==> #[trigger] inv.traced@[k] == attrs.spec_trace_me(params[k]@)
    &&& inv.timeout == attrs.spec_timeout()
    &&& inv.is_async == attrs.spec_is_async()
}

/// Each combination has one digit per radix, each below its radix.
pub proof fn lemma_combos_digits(rs: Seq<usize>, i: int)
    requires
        0 <= i < combos(rs).len(),
    ensures
        combos(rs)[i].len() == rs.len(),
        forall|k: int| 0 <= k < rs.len() ==> combos(rs)[i][k] < rs[k],
    decreases rs.len(),
{
    if rs.len() > 0 {
        let prev = combos(rs.drop_last());
        let r = rs.last() as int;
        assert(r > 0) by {
            if r == 0 {
                assert(prev.len() * r == 0) by (nonlinear_arith) requires r == 0;
            }
        }
        lemma_multiply_divide_lt(i, r, prev.len() as int);
        assert(i < prev.len() * r);
        assert(r * prev.len() == prev.len() * r) by (nonlinear_arith);
        lemma_mod_bound(i, r);
        lemma_combos_digits(rs.drop_last(), i / r);
        assert(combos(rs)[i] == prev[i / r].push((i % r) as usize));
        assert forall|k: int| 0 <= k < rs.len() implies combos(rs)[i][k] < rs[k] by {
            if k < rs.len() - 1 {
                assert(rs.drop_last()[k] == rs[k]);
                assert(combos(rs)[i][k] == prev[i / r][k]);
            }
        }
    }
}

/// In a specification without defects every case row has one value for each
/// case argument.
pub proof fn lemma_valid_arity(data: RsTestData, params: Seq<String>)
    requires
        spec_errors(data, params).len() == 0,
    ensures
        forall|i: int|
            0 <= i < cases_of(data.items@).len() ==> #[trigger] cases_of(data.items@)[i].values@.len()
                == case_args_of(data.items@).len(),
{
    let items = data.items@;
    lemma_arity_prefix(items, params, items.len() as int);
    assert(items.subrange(0, items.len() as int) == items);
}

proof fn lemma_errors_prefix(items: Seq<RsTestItem>, params: Seq<String>, n: int, m: int)
    requires
        0 <= m <= n,
        errors_upto(items, params, n).len() == 0,
    ensures
        errors_upto(items, params, m).len() == 0,
    decreases n - m,
{
    if m < n {
        lemma_errors_prefix(items, params, n - 1, m);
    }
}

proof fn lemma_arity_prefix(items: Seq<RsTestItem>, params: Seq<String>, n: int)
    requires
        0 <= n <= items.len(),
        errors_upto(items, params, items.len() as int).len() == 0,
    ensures
        forall|i: int|
            0 <= i < cases_of(items.subrange(0, n)).len() ==> #[trigger] cases_of(items.subrange(0, n))[i].values@.len()
                == case_args_of(items).len(),
    decreases n,
{
    if n > 0 {
        lemma_arity_prefix(items, params, n - 1);
        assert(items.subrange(0, n).drop_last() == items.subrange(0, n - 1));
        lemma_errors_prefix(items, params, items.len() as int, n);
        assert(item_errors(items, params, n - 1).len() == 0);
    }
}

/// The binding of the parameter `p`, given the specification's parts.
fn bind_param(
    data: &RsTestData,
    case_args: &Vec<String>,
    cases: &Vec<&TestCase>,
    axes: &Vec<&ValueList>,
    fixtures: &Vec<&Fixture>,
    files: Option<&Files>,
    rows: usize,
    p: &String,
    ds: &Vec<usize>,
) -> (b: Binding)
    requires
        case_args@.map_values(|s: String| s@) == case_args_of(data.items@),
        cases@.map_values(|c: &TestCase| *c) == cases_of(data.items@),
        axes@.map_values(|v: &ValueList| *v) == value_lists_of(data.items@),
        fixtures@.map_values(|f: &Fixture| *f) == fixtures_of(data.items@),
        files matches Some(f) ==> files_of(data.items@) == Some(*f),
        files is None ==> files_of(data.items@) is None,
        forall|i: int|
            0 <= i < cases_of(data.items@).len() ==> #[trigger] cases_of(data.items@)[i].values@.len()
                == case_args_of(data.items@).len(),
        ds@.len() == radices(*data, rows as nat).len(),
        forall|k: int| 0 <= k < ds@.len() ==> ds@[k] < radices(*data, rows as nat)[k],
    ensures
        bound_as(b, *data, rows as nat, p@, ds@),
{
    let ghost rs = radices(*data, rows as nat);
    let rec = if rows > 0 {
        Some(ds[1])
    } else {
        None
    };
    proof {
        lemma_last_name_range(case_args_of(data.items@), p@);
        lemma_last_axis_range(value_lists_of(data.items@), p@);
    }
    if cases.len() > 0 {
        if let Some(c) = find_last_name(case_args, p) {
            let row = cases[ds[0]];
            assert(row == cases_of(data.items@)[ds@[0] as int]);
            return Binding::Value(row.values[c].clone());
        }
    }
    if let Some(a) = find_last_axis(axes, p) {
        assert(value_lists_of(data.items@)[a as int] == *axes@[a as int]);
        assert(rs.len() == 2 + axes@.len());
        assert(rs[2 + a] == axis_lens(value_lists_of(data.items@))[a as int]);
        let axis = axes[a];
        let n = ds.len();
        assert(2 + a < n);
        return Binding::Value(axis.values[ds[2 + a]].clone());
    }
    if let Some(f) = files {
        if contains_name(f.data(), p) {
            return Binding::Record { record: rec, field: None };
        }
        if let Some(k) = find_last_field(f.args(), p) {
            let sf = &f.args()[k];
            let name = match &sf.field {
                Some(o) => o.clone(),
                None => p.clone(),
            };
            return Binding::Record { record: rec, field: Some(name) };
        }
    }
    match find_last_fixture(fixtures, p) {
        Some(x) => {
            let f = fixtures[x];
            Binding::Fixture { source: resolved_name(f).clone(), args: copy_strings(&f.args) }
        },
        None => Binding::Fixture { source: p.clone(), args: Vec::new() },
    }
}

pub open spec fn digit_char(d: nat) -> char {
    seq!['0', '1', '2', '3', '4', '5', '6', '7', '8', '9'][d as int]
}

/// The decimal digits of `n`, without leading zeros.
pub open spec fn decimal_spec(n: nat) -> Seq<char>
    decreases n,
{
    if n < 10 {
        seq![digit_char(n)]
    } else {
        decimal_spec(n / 10) + seq![digit_char(n % 10)]
    }
}

/// The digit `d` as a one-character string.
fn digit_str(d: usize) -> (r: &'static str)
    requires
        d < 10,
    ensures
        r@ == seq![digit_char(d as nat)],
{
    proof {
        reveal_strlit("0");
        reveal_strlit("1");
        reveal_strlit("2");
        reveal_strlit("3");
        reveal_strlit("4");
        reveal_strlit("5");
        reveal_strlit("6");
        reveal_strlit("7");
        reveal_strlit("8");
        reveal_strlit("9");
    }
    let r = if d == 0 {
        "0"
    } else if d == 1 {
        "1"
    } else if d == 2 {
        "2"
    } else if d == 3 {
        "3"
    } else if d == 4 {
        "4"
    } else if d == 5 {
        "5"
    } else if d == 6 {
        "6"
    } else if d == 7 {
        "7"
    } else if d == 8 {
        "8"
    } else {
        "9"
    };
    assert(r@ =~= seq![digit_char(d as nat)]);
    r
}

/// `n` in decimal.
fn decimal(n: usize) -> (r: String)
    ensures
        r@ == decimal_spec(n as nat),
    decreases n,
{
    if n < 10 {
        String::from_str(digit_str(n))
    } else {
        let mut r = decimal(n / 10);
        r.append(digit_str(n % 10));
        r
    }
}

/// The segments joined with a double underscore between each two.
pub open spec fn join(segs: Seq<Seq<char>>) -> Seq<char>
    decreases segs.len(),
{
    if segs.len() == 0 {
        seq![]
    } else if segs.len() == 1 {
        segs[0]
    } else {
        join(segs.drop_last()) + "__"@ + segs.last()
    }
}

/// The parts of an invocation's name: the case (numbered from 1, with its
/// description), the record (numbered from 1), then each axis with its
/// chosen value (numbered from 1).
pub open spec fn name_segments(data: RsTestData, rows: nat, ds: Seq<usize>) -> Seq<Seq<char>> {
    let cases = cases_of(data.items@);
    let axes = value_lists_of(data.items@);
    let case_part = if cases.len() > 0 {
        seq![
            "case_"@ + decimal_spec((ds[0] + 1) as nat) + match cases[ds[0] as int].description {
                Some(d) => "_"@ + d@,
                None => seq![],
            },
        ]
    } else {
        seq![]
    };
    let record_part = if rows > 0 {
        seq!["record_"@ + decimal_spec((ds[1] + 1) as nat)]
    } else {
        seq![]
    };
    case_part + record_part + Seq::new(
        axes.len(),
        |a: int| axes[a].name@ + "_"@ + decimal_spec((ds[2 + a] + 1) as nat),
    )
}

/// Joins the segments with a double underscore.
fn join_segments(segs: &Vec<String>) -> (r: String)
    ensures
        r@ == join(segs@.map_values(|s: String| s@)),
{
    let ghost all = segs@.map_values(|s: String| s@);
    let mut r = String::new();
    let mut i: usize = 0;
    while i < segs.len()
        invariant
            i <= segs@.len(),
            all == segs@.map_values(|s: String| s@),
            r@ == join(all.subrange(0, i as int)),
        decreases segs@.len() - i,
    {
        assert(all.subrange(0, i + 1).drop_last() == all.subrange(0, i as int));
        if i > 0 {
            r.append("__");
        } else {
            assert(all.subrange(0, 1).len() == 1);
        }
        r.append(segs[i].as_str());
        i = i + 1;
    }
    assert(all.subrange(0, i as int) == all);
    r
}

/// The name of the invocation for the digits `ds`.
fn invocation_name(
    cases: &Vec<&TestCase>,
    axes: &Vec<&ValueList>,
    data: &RsTestData,
    rows: usize,
    ds: &Vec<usize>,
) -> (r: String)
    requires
        cases@.map_values(|c: &TestCase| *c) == cases_of(data.items@),
        axes@.map_values(|v: &ValueList| *v) == value_lists_of(data.items@),
        ds@.len() == radices(*data, rows as nat).len(),
        forall|k: int| 0 <= k < ds@.len() ==> ds@[k] < radices(*data, rows as nat)[k],
    ensures
        r@ == join(name_segments(*data, rows as nat, ds@)),
{
    let ghost rs = radices(*data, rows as nat);
    let ghost want = name_segments(*data, rows as nat, ds@);
    let ghost cases_s = cases_of(data.items@);
    let ghost case_part: Seq<Seq<char>> = if cases_s.len() > 0 {
        seq![
            "case_"@ + decimal_spec((ds@[0] + 1) as nat) + match cases_s[ds@[0] as int].description {
                Some(d) => "_"@ + d@,
                None => seq![],
            },
        ]
    } else {
        seq![]
    };
    let ghost record_part: Seq<Seq<char>> = if rows > 0 {
        seq!["record_"@ + decimal_spec((ds@[1] + 1) as nat)]
    } else {
        seq![]
    };
    let mut segs: Vec<String> = Vec::new();
    if cases.len() > 0 {
        assert(cases_s[ds@[0] as int] == *cases@[ds@[0] as int]);
        let mut seg = String::from_str("case_");
        seg.append(decimal(ds[0] + 1).as_str());
        match &cases[ds[0]].description {
            Some(d) => {
                seg.append("_");
                seg.append(d.as_str());
                assert(seg@ =~= case_part[0]);
            },
            None => {
                assert(seg@ =~= case_part[0]);
            },
        }
        segs.push(seg);
    }
    assert(segs@.map_values(|s: String| s@) =~= case_part);
    if rows > 0 {
        let mut seg = String::from_str("record_");
        seg.append(decimal(ds[1] + 1).as_str());
        segs.push(seg);
    }
    assert(segs@.map_values(|s: String| s@) =~= case_part + record_part);
    let ghost base = segs@.len();
    assert(segs@.map_values(|s: String| s@) =~= want.subrange(0, base as int));
    assert(rs.len() == 2 + axes@.len());
    let mut a: usize = 0;
    while a < axes.len()
        invariant
            a <= axes@.len(),
            rs.len() == 2 + axes@.len(),
            ds@.len() == rs.len(),
            forall|k: int| 0 <= k < ds@.len() ==> ds@[k] < rs[k],
            axes@.map_values(|v: &ValueList| *v) == value_lists_of(data.items@),
            want == name_segments(*data, rows as nat, ds@),
            base + axes@.len() == want.len(),
            segs@.len() == base + a,
            segs@.map_values(|s: String| s@) == want.subrange(0, base + a),
        decreases axes@.len() - a,
    {
        assert(value_lists_of(data.items@)[a as int] == *axes@[a as int]);
        let n = ds.len();
        assert(2 + a < n);
        let mut seg = String::new();
        seg.append(axes[a].name.as_str());
        seg.append("_");
        assert(ds@[2 + a] < rs[2 + a]);
        seg.append(decimal(ds[2 + a] + 1).as_str());
        segs.push(seg);
        assert(segs@.map_values(|s: String| s@) =~= want.subrange(0, base + a + 1));
        a = a + 1;
    }
    assert(want.subrange(0, want.len() as int) == want);
    join_segments(&segs)
}

/// The invocations of a specification without defects, for a function with
/// parameters `params`, over the given records: one for each combination of
/// a case row (slowest), a record, and a value of each axis (the last axis
/// fastest), in that order.
pub fn expand(data: &RsTestData, params: &Vec<String>, attrs: &RsTestAttributes, records: &Vec<String>) -> (r:
    Vec<Invocation>)
    requires
        spec_errors(*data, params@).len() == 0,
        product(radices(*data, row_count(*data, records@))) <= usize::MAX,
    ensures
        r@.len() == product(radices(*data, row_count(*data, records@))),
        forall|i: int|
            0 <= i < r@.len() ==> invocation_ok(
                #[trigger] r@[i],
                *data,
                params@,
                *attrs,
                row_count(*data, records@),
                combos(radices(*data, row_count(*data, records@)))[i],
            ),
{
    proof { lemma_valid_arity(*data, params@); }
    let case_args = data.case_args();
    let cases = data.cases();
    let axes = data.list_values();
    let fixtures = data.fixtures();
    let files = data.files();
    assert(cases@.map_values(|c: &TestCase| *c) =~= cases_of(data.items@));
    assert(axes@.map_values(|v: &ValueList| *v) =~= value_lists_of(data.items@));
    assert(fixtures@.map_values(|f: &Fixture| *f) =~= fixtures_of(data.items@));
    let rows: usize = if files.is_some() {
        records.len()
    } else {
        0
    };
    let ghost rs = radices(*data, rows as nat);
    let mut radix: Vec<usize> = Vec::new();
    radix.push(if cases.len() == 0 { 1 } else { cases.len() });
    radix.push(if rows == 0 { 1 } else { rows });
    let mut a: usize = 0;
    while a < axes.len()
        invariant
            a <= axes@.len(),
            axes@.map_values(|v: &ValueList| *v) == value_lists_of(data.items@),
            radix@ == rs.subrange(0, 2 + a),
            rs == radices(*data, rows as nat),
            rs.len() == 2 + axes@.len(),
        decreases axes@.len() - a,
    {
        assert(value_lists_of(data.items@)[a as int] == *axes@[a as int]);
        radix.push(axes[a].values.len());
        assert(radix@ =~= rs.subrange(0, 2 + a + 1));
        a = a + 1;
    }
    assert(radix@ == rs);
    let all = combinations(&radix);
    let timeout = attrs.timeout();
    let is_async = attrs.is_async();
    let mut r: Vec<Invocation> = Vec::new();
    let mut i: usize = 0;
    while i < all.len()
        invariant
            i <= all@.len(),
            all@.len() == combos(rs).len(),
            forall|j: int| 0 <= j < all@.len() ==> all@[j]@ == combos(rs)[j],
            rs == radices(*data, rows as nat),
            rows as nat == row_count(*data, records@),
            case_args@.map_values(|s: String| s@) == case_args_of(data.items@),
            cases@.map_values(|c: &TestCase| *c) == cases_of(data.items@),
            axes@.map_values(|v: &ValueList| *v) == value_lists_of(data.items@),
            fixtures@.map_values(|f: &Fixture| *f) == fixtures_of(data.items@),
            files matches Some(f) ==> files_of(data.items@) == Some(*f),
            files is None ==> files_of(data.items@) is None,
            forall|j: int|
                0 <= j < cases_of(data.items@).len() ==> #[trigger] cases_of(data.items@)[j].values@.len()
                    == case_args_of(data.items@).len(),
            timeout == attrs.spec_timeout(),
            is_async == attrs.spec_is_async(),
            r@.len() == i,
            forall|j: int| 0 <= j < i ==> invocation_ok(#[trigger] r@[j], *data, params@, *attrs, rows as nat, combos(rs)[j]),
        decreases all@.len() - i,
    {
        let ds = &all[i];
        proof { lemma_combos_digits(rs, i as int); }
        let mut bindings: Vec<Binding> = Vec::new();
        let mut traced: Vec<bool> = Vec::new();
        let mut k: usize = 0;
        while k < params.len()
            invariant
                k <= params@.len(),
                ds@ == combos(rs)[i as int],
                ds@.len() == rs.len(),
                forall|m: int| 0 <= m < ds@.len() ==> ds@[m] < rs[m],
                rs == radices(*data, rows as nat),
                case_args@.map_values(|s: String| s@) == case_args_of(data.items@),
                cases@.map_values(|c: &TestCase| *c) == cases_of(data.items@),
                axes@.map_values(|v: &ValueList| *v) == value_lists_of(data.items@),
                fixtures@.map_values(|f: &Fixture| *f) == fixtures_of(data.items@),
                files matches Some(f) ==> files_of(data.items@) == Some(*f),
                files is None ==> files_of(data.items@) is None,
                forall|j: int|
                    0 <= j < cases_of(data.items@).len() ==> #[trigger] cases_of(data.items@)[j].values@.len()
                        == case_args_of(data.items@).len(),
                bindings@.len() == k,
                traced@.len() == k,
                forall|m: int| 0 <= m < k ==> bound_as(#[trigger] bindings@[m], *data, rows as nat, params@[m]@, ds@),
                forall|m: int| 0 <= m < k ==> #[trigger] traced@[m] == attrs.spec_trace_me(params@[m]@),
            decreases params@.len() - k,
        {
            let b = bind_param(data, &case_args, &cases, &axes, &fixtures, files, rows, &params[k], ds);
            bindings.push(b);
            traced.push(attrs.trace_me(&params[k]));
            k = k + 1;
        }
        let name = invocation_name(&cases, &axes, data, rows, ds);
        let mut values: Vec<usize> = Vec::new();
        let mut v: usize = 2;
        while v < ds.len()
            invariant
                2 <= v <= ds@.len(),
                ds@.len() >= 2,
                values@ == ds@.subrange(2, v as int),
            decreases ds@.len() - v,
        {
            values.push(ds[v]);
            v = v + 1;
        }
        let inv = Invocation {
            name,
            case: if cases.len() > 0 { Some(ds[0]) } else { None },
            record: if rows > 0 { Some(ds[1]) } else { None },
            values,
            bindings,
            traced,
            timeout: timeout.clone(),
            is_async,
        };
        r.push(inv);
        i = i + 1;
    }
    proof { lemma_combos_len(rs); }
    r
}

} // verus!
