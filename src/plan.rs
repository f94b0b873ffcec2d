use vstd::prelude::*;
use crate::attributes::RsTestAttributes;
use crate::error::SpecError;
use crate::expand::{Binding, Invocation, combos, expand, invocation_ok, product, radices, row_count};
use crate::lookup::copy_strings;
use crate::model::{Fixture, RsTestData, fixtures_of};
use crate::resolve::{FixtureDef, dependency_order, is_cycle, is_dependency_order};
use crate::validate::{contains_name, names_contain, spec_errors, validate};

verus! {

/// The names of the fixture definitions.
pub open spec fn def_names(defs: Seq<FixtureDef>) -> Seq<String> {
    defs.map_values(|d: FixtureDef| d.name)
}

/// One error for each of the first `n` parameters bound to a fixture that
/// has no definition.
pub open spec fn unresolved(params: Seq<String>, bindings: Seq<Binding>, names: Seq<String>, n: int) -> Seq<SpecError>
    decreases n,
{
    if n <= 0 {
        seq![]
    } else {
        unresolved(params, bindings, names, n - 1) + match bindings[n - 1] {
            Binding::Fixture { source, args: _ } => if names_contain(names, source@) {
                seq![]
            } else {
                seq![SpecError::UnresolvedArgument(params[n - 1])]
            },
            _ => seq![],
        }
    }
}

proof fn lemma_unresolved_kind(params: Seq<String>, bindings: Seq<Binding>, names: Seq<String>, n: int)
    ensures
        forall|k: int|
            0 <= k < unresolved(params, bindings, names, n).len() ==> #[trigger] unresolved(params, bindings, names, n)[k] is UnresolvedArgument,
    decreases n,
{
    if n > 0 {
        lemma_unresolved_kind(params, bindings, names, n - 1);
    }
}

fn check_resolved(params: &Vec<String>, bindings: &Vec<Binding>, names: &Vec<String>) -> (r: Vec<SpecError>)
    requires
        bindings@.len() == params@.len(),
    ensures
        r@ == unresolved(params@, bindings@, names@, params@.len() as int),
{
    let mut r: Vec<SpecError> = Vec::new();
    let mut k: usize = 0;
    while k < params.len()
        invariant
            k <= params@.len(),
            bindings@.len() == params@.len(),
            r@ == unresolved(params@, bindings@, names@, k as int),
        decreases params@.len() - k,
    {
        match &bindings[k] {
            Binding::Fixture { source, args: _ } => {
                if !contains_name(names, source) {
                    r.push(SpecError::UnresolvedArgument(params[k].clone()));
                }
            },
            _ => {},
        }
        k = k + 1;
    }
    r
}

/// Checks a specification and its fixture definitions, then expands it.
/// The specification's own defects come first, followed by a cycle in the
/// fixture graph (the definitions and the specification's own fixtures,
/// linked by the names among their arguments) where there is one; expansion
/// runs only where there is neither. Then each argument bound to a fixture
/// that has no definition is reported. Which fixture binds an argument does not depend
/// on the case, record or axis values, so the first invocation shows them all.
pub fn plan(
    data: &RsTestData,
    params: &Vec<String>,
    attrs: &RsTestAttributes,
    records: &Vec<String>,
    defs: &Vec<FixtureDef>,
) -> (r: Result<Vec<Invocation>, Vec<SpecError>>)
    requires
        product(radices(*data, row_count(*data, records@))) <= usize::MAX,
    ensures
        r is Ok ==> spec_errors(*data, params@).len() == 0,
        spec_errors(*data, params@).len() > 0 ==> (r matches Err(e) && e@.subrange(
            0,
            spec_errors(*data, params@).len() as int,
        ) == spec_errors(*data, params@)),
        r matches Err(e) ==> e@.len() > 0,
        (forall|g: Seq<FixtureDef>, o: Seq<usize>| is_graph_of(g, *data, defs@) ==> !is_dependency_order(g, o))
            ==> (r matches Err(e) && exists|k: int| 0 <= k < e@.len() && e@[k] is CyclicFixtureDependency),
        dependency_errors(r, spec_errors(*data, params@).len() as int, *data, defs@),
        ({
            let rows = row_count(*data, records@);
            let rs = radices(*data, rows);
            r matches Ok(invs) ==> invs@.len() == product(rs) && (forall|i: int|
                0 <= i < invs@.len() ==> invocation_ok(#[trigger] invs@[i], *data, params@, *attrs, rows, combos(rs)[i]))
                && (invs@.len() > 0 ==> unresolved(params@, invs@[0].bindings@, def_names(defs@), params@.len() as int).len() == 0)
        }),
        ({
            let rows = row_count(*data, records@);
            let rs = radices(*data, rows);
            r matches Err(e) ==> (spec_errors(*data, params@).len() == 0 && e@[0] is UnresolvedArgument ==> exists|invs: Seq<Invocation>|
                invs.len() == product(rs) && invs.len() > 0 && (forall|i: int|
                0 <= i < invs.len() ==> invocation_ok(#[trigger] invs[i], *data, params@, *attrs, rows, combos(rs)[i]))
                && e@ == unresolved(params@, invs[0].bindings@, def_names(defs@), params@.len() as int))
        }),
{
    let mut errors: Vec<SpecError> = match validate(data, params) {
        Ok(()) => Vec::new(),
        Err(e) => e,
    };
    let ghost n0 = errors@.len();
    assert(errors@ == spec_errors(*data, params@)) by {
        if spec_errors(*data, params@).len() == 0 {
            assert(errors@ =~= spec_errors(*data, params@));
        }
    }
    let graph = fixture_graph(data, defs);
    match dependency_order(&graph) {
        Ok(_) => {},
        Err(e) => {
            errors.push(e);
            assert(errors@[errors@.len() - 1] is CyclicFixtureDependency);
        },
    }
    assert(errors@.subrange(0, n0 as int) =~= spec_errors(*data, params@));
    if errors.len() > 0 {
        return Err(errors);
    }
    let invs = expand(data, params, attrs, records);
    if invs.len() > 0 {
        let mut names: Vec<String> = Vec::new();
        let mut k: usize = 0;
        while k < defs.len()
            invariant
                k <= defs@.len(),
                names@ == def_names(defs@).subrange(0, k as int),
            decreases defs@.len() - k,
        {
            names.push(defs[k].name.clone());
            assert(names@ =~= def_names(defs@).subrange(0, k + 1));
            k = k + 1;
        }
        assert(names@ =~= def_names(defs@));
        let missing = check_resolved(params, &invs[0].bindings, &names);
        if missing.len() > 0 {
            proof {
                lemma_unresolved_kind(params@, invs@[0].bindings@, names@, params@.len() as int);
                let w = invs@;
                assert(w.len() > 0 && missing@ == unresolved(params@, w[0].bindings@, def_names(defs@), params@.len() as int));
            }
            return Err(missing);
        }
    }
    Ok(invs)
}

/// `g` is the fixture graph of a specification: the fixture definitions,
/// then one node for each fixture of the specification, whose arguments name
/// the fixtures it depends on.
pub open spec fn is_graph_of(g: Seq<FixtureDef>, data: RsTestData, defs: Seq<FixtureDef>) -> bool {
    let fx = fixtures_of(data.items@);
    &&& g.len() == defs.len() + fx.len()
    &&& forall|i: int| 0 <= i < defs.len() ==> g[i].name@ == defs[i].name@ && g[i].deps@ == defs[i].deps@
    &&& forall|i: int|
        0 <= i < fx.len() ==> g[defs.len() + i].name@ == fx[i].name@ && g[defs.len() + i].deps@ == fx[i].args@
}

/// Builds the fixture graph of a specification.
fn fixture_graph(data: &RsTestData, defs: &Vec<FixtureDef>) -> (g: Vec<FixtureDef>)
    ensures
        is_graph_of(g@, *data, defs@),
{
    let mut g: Vec<FixtureDef> = Vec::new();
    let mut k: usize = 0;
    while k < defs.len()
        invariant
            k <= defs@.len(),
            g@.len() == k,
            forall|i: int| 0 <= i < k ==> g@[i].name@ == defs@[i].name@ && g@[i].deps@ == defs@[i].deps@,
        decreases defs@.len() - k,
    {
        g.push(FixtureDef { name: defs[k].name.clone(), deps: copy_strings(&defs[k].deps) });
        k = k + 1;
    }
    let fixtures = data.fixtures();
    let ghost fx = fixtures_of(data.items@);
    let mut j: usize = 0;
    while j < fixtures.len()
        invariant
            j <= fixtures@.len(),
            fixtures@.len() == fx.len(),
            forall|i: int| 0 <= i < fixtures@.len() ==> *fixtures@[i] == fx[i],
            g@.len() == defs@.len() + j,
            forall|i: int| 0 <= i < defs@.len() ==> g@[i].name@ == defs@[i].name@ && g@[i].deps@ == defs@[i].deps@,
            forall|i: int|
                0 <= i < j ==> g@[defs@.len() + i].name@ == fx[i].name@ && g@[defs@.len() + i].deps@ == fx[i].args@,
        decreases fixtures@.len() - j,
    {
        let f: &Fixture = fixtures[j];
        g.push(FixtureDef { name: f.name.clone(), deps: copy_strings(&f.args) });
        j = j + 1;
    }
    g
}

/// Past the specification's own `n` errors, an error is a cycle in the
/// fixture graph, or an argument that no fixture definition resolves.
pub open spec fn dependency_errors(
    r: Result<Vec<Invocation>, Vec<SpecError>>,
    n: int,
    data: RsTestData,
    defs: Seq<FixtureDef>,
) -> bool {
    r matches Err(e) ==> forall|k: int|
        n <= k < e@.len() ==> (#[trigger] e@[k] matches SpecError::CyclicFixtureDependency(path) && exists|
            g: Seq<FixtureDef>,
        | is_graph_of(g, data, defs) && is_cycle(g, path@)) || e@[k] is UnresolvedArgument
}

} // verus!
