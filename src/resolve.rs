use vstd::prelude::*;
use vstd::arithmetic::div_mod::{lemma_mod_self_0, lemma_small_mod};
use crate::error::SpecError;
use crate::model::Fixture;
use crate::validate::{contains_name, names_contain};

verus! {

/// A fixture definition: its name and the names of its own arguments.
#[derive(Debug, PartialEq, Eq)]
pub struct FixtureDef {
    pub name: String,
    pub deps: Vec<String>,
}

/// The fixture at `i` names the fixture at `j` among its arguments.
pub open spec fn edge(defs: Seq<FixtureDef>, i: int, j: int) -> bool {
    names_contain(defs[i].deps@, defs[j].name@)
}

/// Some fixture named `a` names some fixture named `b` among its arguments.
pub open spec fn depends_on(defs: Seq<FixtureDef>, a: Seq<char>, b: Seq<char>) -> bool {
    exists|i: int, j: int|
        0 <= i < defs.len() && 0 <= j < defs.len() && defs[i].name@ == a && defs[j].name@ == b
            && #[trigger] edge(defs, i, j)
}

/// `order` lists each definition once, each after every definition it depends on.
pub open spec fn is_dependency_order(defs: Seq<FixtureDef>, order: Seq<usize>) -> bool {
    &&& order.len() == defs.len()
    &&& order.no_duplicates()
    &&& forall|k: int| 0 <= k < order.len() ==> order[k] < defs.len()
    &&& forall|k: int, j: int|
        0 <= k < order.len() && 0 <= j < defs.len() && #[trigger] edge(defs, order[k] as int, j)
            ==> exists|m: int| 0 <= m < k && order[m] == j
}

/// `path` is a cycle of fixtures: each depends on the next, the last on the first.
pub open spec fn is_cycle(defs: Seq<FixtureDef>, path: Seq<String>) -> bool {
    &&& path.len() > 0
    &&& forall|k: int|
        0 <= k < path.len() ==> #[trigger] depends_on(
            defs,
            path[k]@,
            path[(k + 1) % (path.len() as int)]@,
        )
}

pub open spec fn count_true(s: Seq<bool>) -> nat
    decreases s.len(),
{
    if s.len() == 0 {
        0
    } else {
        count_true(s.drop_last()) + if s.last() {
            1nat
        } else {
            0nat
        }
    }
}

proof fn lemma_count_bounded(s: Seq<bool>)
    ensures
        count_true(s) <= s.len(),
    decreases s.len(),
{
    if s.len() > 0 {
        lemma_count_bounded(s.drop_last());
    }
}

proof fn lemma_count_set(s: Seq<bool>, i: int)
    requires
        0 <= i < s.len(),
        !s[i],
    ensures
        count_true(s.update(i, true)) == count_true(s) + 1,
    decreases s.len(),
{
    if i == s.len() - 1 {
        assert(s.update(i, true).drop_last() == s.drop_last());
    } else {
        assert(s.update(i, true).drop_last() == s.drop_last().update(i, true));
        lemma_count_set(s.drop_last(), i);
    }
}

/// The name under which a fixture is looked up: the one it is renamed from,
/// or its own.
pub fn resolved_name(f: &Fixture) -> (r: &String)
    ensures
        f.resolve matches Some(n) ==> *r == n,
        f.resolve is None ==> *r == f.name,
{
    match &f.resolve {
        Some(n) => n,
        None => &f.name,
    }
}

/// An unplaced definition that the one at `i` depends on, if there is one.
fn blocker(defs: &Vec<FixtureDef>, placed: &Vec<bool>, i: usize) -> (r: Option<usize>)
    requires
        i < defs@.len(),
        placed@.len() == defs@.len(),
    ensures
        r matches Some(j) ==> j < defs@.len() && edge(defs@, i as int, j as int) && !placed@[j as int],
        r is None ==> forall|j: int| 0 <= j < defs@.len() && edge(defs@, i as int, j) ==> placed@[j],
{
    let mut j: usize = 0;
    while j < defs.len()
        invariant
            i < defs@.len(),
            placed@.len() == defs@.len(),
            j <= defs@.len(),
            forall|m: int| 0 <= m < j && edge(defs@, i as int, m) ==> placed@[m],
        decreases defs@.len() - j,
    {
        if !placed[j] && contains_name(&defs[i].deps, &defs[j].name) {
            return Some(j);
        }
        j = j + 1;
    }
    None
}

/// An order in which the fixtures can be built, each after those it
/// depends on; or, where there is none, a cycle among them.
pub fn dependency_order(defs: &Vec<FixtureDef>) -> (r: Result<Vec<usize>, SpecError>)
    ensures
        r matches Ok(order) ==> is_dependency_order(defs@, order@),
        r matches Err(e) ==> (e matches SpecError::CyclicFixtureDependency(path) && is_cycle(
            defs@,
            path@,
        )),
{
    let n = defs.len();
    let mut placed: Vec<bool> = Vec::new();
    let mut i: usize = 0;
    while i < n
        invariant
            n == defs@.len(),
            i <= n,
            placed@.len() == i,
            forall|k: int| 0 <= k < i ==> !placed@[k],
        decreases n - i,
    {
        placed.push(false);
        i = i + 1;
    }
    assert(count_true(placed@) == 0) by {
        assert forall|m: nat| m <= placed@.len() implies count_true(placed@.subrange(0, m as int)) == 0 by {
            lemma_count_zero(placed@, m);
        }
        assert(placed@.subrange(0, n as int) == placed@);
    }
    let mut order: Vec<usize> = Vec::new();
    while order.len() < n
        invariant
            n == defs@.len(),
            placed@.len() == n,
            order@.len() == count_true(placed@),
            order@.no_duplicates(),
            forall|k: int| 0 <= k < order@.len() ==> order@[k] < n && placed@[order@[k] as int],
            forall|x: int| 0 <= x < n && placed@[x] ==> exists|k: int| 0 <= k < order@.len() && order@[k] == x,
            forall|k: int, j: int|
                0 <= k < order@.len() && 0 <= j < n && #[trigger] edge(defs@, order@[k] as int, j)
                    ==> exists|m: int| 0 <= m < k && order@[m] == j,
        decreases n - order@.len(),
    {
        proof { lemma_count_bounded(placed@); }
        let next = next_ready(defs, &placed);
        match next {
            Some(x) => {
                proof {
                    lemma_count_set(placed@, x as int);
                }
                let ghost old_order = order@;
                let ghost old_placed = placed@;
                placed.set(x, true);
                order.push(x);
                proof { lemma_place(defs@, old_order, old_placed, x); }
            },
            None => {
                proof { lemma_count_bounded(placed@); }
                // Some definition is unplaced; walk from it along unplaced
                // dependencies until a definition comes round again.
                let mut start: usize = 0;
                proof {
                    if forall|x: int| 0 <= x < n ==> placed@[x] {
                        lemma_all_placed(placed@);
                    }
                }
                while placed[start]
                    invariant
                        n == defs@.len(),
                        placed@.len() == n,
                        start < n,
                        exists|x: int| start <= x < n && !placed@[x],
                    decreases n - start,
                {
                    start = start + 1;
                }
                let path = walk(defs, &placed, start);
                return Err(SpecError::CyclicFixtureDependency(path));
            },
        }
    }
    proof { lemma_count_bounded(placed@); }
    Ok(order)
}

/// The first unplaced definition whose dependencies are all placed; where
/// there is none, each unplaced one depends on another unplaced one.
fn next_ready(defs: &Vec<FixtureDef>, placed: &Vec<bool>) -> (r: Option<usize>)
    requires
        placed@.len() == defs@.len(),
    ensures
        r matches Some(x) ==> x < defs@.len() && !placed@[x as int] && forall|j: int|
            0 <= j < defs@.len() && edge(defs@, x as int, j) ==> placed@[j],
        r is None ==> forall|x: int|
            0 <= x < defs@.len() && !placed@[x] ==> exists|j: int|
                0 <= j < defs@.len() && edge(defs@, x, j) && !placed@[j],
{
    let n = defs.len();
    let mut i: usize = 0;
    while i < n
        invariant
            n == defs@.len(),
            placed@.len() == n,
            i <= n,
            forall|x: int|
                0 <= x < i && !placed@[x] ==> exists|j: int| 0 <= j < n && edge(defs@, x, j) && !placed@[j],
        decreases n - i,
    {
        if !placed[i] {
            match blocker(defs, placed, i) {
                None => {
                    return Some(i);
                },
                Some(_) => {},
            }
        }
        i = i + 1;
    }
    None
}

/// Placing a ready definition keeps the order a valid prefix.
proof fn lemma_place(defs: Seq<FixtureDef>, order: Seq<usize>, placed: Seq<bool>, x: usize)
    requires
        placed.len() == defs.len(),
        x < defs.len(),
        !placed[x as int],
        forall|j: int| 0 <= j < defs.len() && edge(defs, x as int, j) ==> placed[j],
        order.len() == count_true(placed),
        order.no_duplicates(),
        forall|k: int| 0 <= k < order.len() ==> order[k] < defs.len() && placed[order[k] as int],
        forall|y: int| 0 <= y < defs.len() && placed[y] ==> exists|k: int| 0 <= k < order.len() && order[k] == y,
        forall|k: int, j: int|
            0 <= k < order.len() && 0 <= j < defs.len() && #[trigger] edge(defs, order[k] as int, j)
                ==> exists|m: int| 0 <= m < k && order[m] == j,
    ensures
        ({
            let order2 = order.push(x);
            let placed2 = placed.update(x as int, true);
            &&& order2.len() == count_true(placed2)
            &&& order2.no_duplicates()
            &&& forall|k: int| 0 <= k < order2.len() ==> order2[k] < defs.len() && placed2[order2[k] as int]
            &&& forall|y: int| 0 <= y < defs.len() && placed2[y] ==> exists|k: int| 0 <= k < order2.len() && order2[k] == y
            &&& forall|k: int, j: int|
                0 <= k < order2.len() && 0 <= j < defs.len() && #[trigger] edge(defs, order2[k] as int, j)
                    ==> exists|m: int| 0 <= m < k && order2[m] == j
        }),
{
    let order2 = order.push(x);
    let placed2 = placed.update(x as int, true);
    lemma_count_set(placed, x as int);
    assert forall|k: int, j: int|
        0 <= k < order2.len() && 0 <= j < defs.len() && #[trigger] edge(defs, order2[k] as int, j)
            implies exists|m: int| 0 <= m < k && order2[m] == j by {
        if k < order.len() {
            let m = choose|m: int| 0 <= m < k && order[m] == j;
            assert(order2[m] == j);
        } else {
            assert(placed[j]);
            let m = choose|m: int| 0 <= m < order.len() && order[m] == j;
            assert(order2[m] == j);
        }
    }
    assert forall|y: int| 0 <= y < defs.len() && placed2[y] implies exists|k: int|
        0 <= k < order2.len() && order2[k] == y by {
        if y == x {
            assert(order2[order.len() as int] == y);
        } else {
            let k = choose|k: int| 0 <= k < order.len() && order[k] == y;
            assert(order2[k] == y);
        }
    }
    assert forall|a: int, b: int| 0 <= a < order2.len() && 0 <= b < order2.len() && a != b implies order2[a] != order2[b] by {
        if a < order.len() && b < order.len() {
        } else if a < order.len() {
            assert(placed[order[a] as int]);
        } else {
            assert(placed[order[b] as int]);
        }
    }
}

proof fn lemma_count_zero(s: Seq<bool>, m: nat)
    requires
        m <= s.len(),
        forall|k: int| 0 <= k < s.len() ==> !s[k],
    ensures
        count_true(s.subrange(0, m as int)) == 0,
    decreases m,
{
    if m > 0 {
        assert(s.subrange(0, m as int).drop_last() == s.subrange(0, m - 1));
        lemma_count_zero(s, (m - 1) as nat);
    }
}

/// Where every entry is true, the count is the length.
proof fn lemma_all_placed(s: Seq<bool>)
    requires
        forall|k: int| 0 <= k < s.len() ==> s[k],
    ensures
        count_true(s) == s.len(),
    decreases s.len(),
{
    if s.len() > 0 {
        lemma_all_placed(s.drop_last());
    }
}

/// Stepping to a definition not yet on the path keeps the walk's invariant.
proof fn lemma_extend(defs: Seq<FixtureDef>, placed: Seq<bool>, on_path: Seq<bool>, path: Seq<usize>, j: usize)
    requires
        on_path.len() == defs.len(),
        path.len() > 0,
        path.len() == count_true(on_path),
        forall|k: int| 0 <= k < path.len() ==> path[k] < defs.len() && !placed[path[k] as int] && on_path[path[k] as int],
        forall|x: int| 0 <= x < defs.len() && on_path[x] ==> exists|k: int| 0 <= k < path.len() && path[k] == x,
        forall|k: int| 0 <= k < path.len() - 1 ==> #[trigger] edge(defs, path[k] as int, path[k + 1] as int),
        j < defs.len(),
        !placed[j as int],
        !on_path[j as int],
        edge(defs, path[path.len() - 1] as int, j as int),
    ensures
        ({
            let path2 = path.push(j);
            let on2 = on_path.update(j as int, true);
            &&& path2.len() == count_true(on2)
            &&& path2.len() <= defs.len()
            &&& forall|k: int| 0 <= k < path2.len() ==> path2[k] < defs.len() && !placed[path2[k] as int] && on2[path2[k] as int]
            &&& forall|x: int| 0 <= x < defs.len() && on2[x] ==> exists|k: int| 0 <= k < path2.len() && path2[k] == x
            &&& forall|k: int| 0 <= k < path2.len() - 1 ==> #[trigger] edge(defs, path2[k] as int, path2[k + 1] as int)
        }),
{
    let path2 = path.push(j);
    let on2 = on_path.update(j as int, true);
    lemma_count_set(on_path, j as int);
    lemma_count_bounded(on2);
    assert forall|x: int| 0 <= x < defs.len() && on2[x] implies exists|k: int|
        0 <= k < path2.len() && path2[k] == x by {
        if x == j {
            assert(path2[path.len() as int] == x);
        } else {
            let k = choose|k: int| 0 <= k < path.len() && path[k] == x;
            assert(path2[k] == x);
        }
    }
    assert forall|k: int| 0 <= k < path2.len() - 1 implies #[trigger] edge(defs, path2[k] as int, path2[k + 1] as int) by {
        if k < path.len() - 1 {
            assert(edge(defs, path[k] as int, path[k + 1] as int));
        }
    }
}

/// The names along the tail of `path` that starts where `j` stands, where
/// the last entry of `path` depends on `j`.
fn cycle_names(defs: &Vec<FixtureDef>, path: &Vec<usize>, j: usize) -> (r: Vec<String>)
    requires
        path@.len() > 0,
        forall|k: int| 0 <= k < path@.len() ==> path@[k] < defs@.len(),
        forall|k: int| 0 <= k < path@.len() - 1 ==> #[trigger] edge(defs@, path@[k] as int, path@[k + 1] as int),
        exists|k: int| 0 <= k < path@.len() && path@[k] == j,
        edge(defs@, path@[path@.len() - 1] as int, j as int),
    ensures
        is_cycle(defs@, r@),
{
    let mut p: usize = 0;
    while p < path.len() && path[p] != j
        invariant
            p <= path@.len(),
            exists|k: int| p <= k < path@.len() && path@[k] == j,
        decreases path@.len() - p,
    {
        p = p + 1;
    }
    assert(p < path@.len() && path@[p as int] == j);
    let mut names: Vec<String> = Vec::new();
    let mut q: usize = p;
    while q < path.len()
        invariant
            p < path@.len(),
            p <= q <= path@.len(),
            forall|k: int| 0 <= k < path@.len() ==> path@[k] < defs@.len(),
            names@.len() == q - p,
            forall|k: int| 0 <= k < names@.len() ==> names@[k] == defs@[path@[p + k] as int].name,
        decreases path@.len() - q,
    {
        names.push(defs[path[q]].name.clone());
        q = q + 1;
    }
    let ghost len = names@.len() as int;
    assert forall|k: int| 0 <= k < len implies #[trigger] depends_on(
        defs@,
        names@[k]@,
        names@[(k + 1) % len]@,
    ) by {
        let a = path@[p + k] as int;
        assert(names@[k] == defs@[a].name);
        if k + 1 < len {
            lemma_small_mod((k + 1) as nat, len as nat);
            assert(0 <= p + k < path@.len() - 1);
            let b = path@[p + k + 1] as int;
            assert(edge(defs@, a, b));
        } else {
            lemma_mod_self_0(len);
            assert(p + k == path@.len() - 1);
            assert(names@[0] == defs@[j as int].name);
            assert(edge(defs@, a, j as int));
        }
    }
    names
}

/// Follows unplaced dependencies from `start` until one repeats, and returns
/// the names along the cycle so found.
fn walk(defs: &Vec<FixtureDef>, placed: &Vec<bool>, start: usize) -> (r: Vec<String>)
    requires
        placed@.len() == defs@.len(),
        start < defs@.len(),
        !placed@[start as int],
        forall|x: int|
            0 <= x < defs@.len() && !placed@[x] ==> exists|j: int|
                0 <= j < defs@.len() && edge(defs@, x, j) && !placed@[j],
    ensures
        is_cycle(defs@, r@),
{
    let n = defs.len();
    let mut on_path: Vec<bool> = Vec::new();
    let mut i: usize = 0;
    while i < n
        invariant
            n == defs@.len(),
            i <= n,
            on_path@.len() == i,
            forall|k: int| 0 <= k < i ==> !on_path@[k],
        decreases n - i,
    {
        on_path.push(false);
        i = i + 1;
    }
    proof {
        lemma_count_zero(on_path@, n as nat);
        assert(on_path@.subrange(0, n as int) == on_path@);
        lemma_count_set(on_path@, start as int);
    }
    on_path.set(start, true);
    let mut path: Vec<usize> = Vec::new();
    path.push(start);
    assert forall|x: int| 0 <= x < n && on_path@[x] implies exists|k: int|
        0 <= k < path@.len() && path@[k] == x by {
        assert(path@[0] == x);
    }
    loop
        invariant
            n == defs@.len(),
            placed@.len() == n,
            on_path@.len() == n,
            forall|x: int|
                0 <= x < n && !placed@[x] ==> exists|j: int| 0 <= j < n && edge(defs@, x, j) && !placed@[j],
            path@.len() > 0,
            path@.len() == count_true(on_path@),
            forall|k: int| 0 <= k < path@.len() ==> path@[k] < n && !placed@[path@[k] as int] && on_path@[path@[k] as int],
            forall|x: int| 0 <= x < n && on_path@[x] ==> exists|k: int| 0 <= k < path@.len() && path@[k] == x,
            forall|k: int| 0 <= k < path@.len() - 1 ==> #[trigger] edge(defs@, path@[k] as int, path@[k + 1] as int),
        decreases n - path@.len(),
    {
        proof { lemma_count_bounded(on_path@); }
        let cur = path[path.len() - 1];
        let j = match blocker(defs, placed, cur) {
            Some(j) => j,
            None => {
                proof {
                    let j = choose|j: int| 0 <= j < n && edge(defs@, cur as int, j) && !placed@[j];
                }
                return Vec::new();
            },
        };
        if on_path[j] {
            return cycle_names(defs, &path, j);
        }
        proof { lemma_extend(defs@, placed@, on_path@, path@, j); }
        on_path.set(j, true);
        path.push(j);
    }
}

} // verus!
