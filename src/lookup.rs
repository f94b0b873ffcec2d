use vstd::prelude::*;
use crate::model::{Fixture, StructField, ValueList};

verus! {

/// The position of the last entry equal to `p`, or -1.
pub open spec fn last_name(names: Seq<Seq<char>>, p: Seq<char>) -> int
    decreases names.len(),
{
    if names.len() == 0 {
        -1
    } else if names.last() == p {
        names.len() - 1
    } else {
        last_name(names.drop_last(), p)
    }
}

/// The position of the last axis named `p`, or -1.
pub open spec fn last_axis(axes: Seq<ValueList>, p: Seq<char>) -> int
    decreases axes.len(),
{
    if axes.len() == 0 {
        -1
    } else if axes.last().name@ == p {
        axes.len() - 1
    } else {
        last_axis(axes.drop_last(), p)
    }
}

/// The position of the last record field bound to the argument `p`, or -1.
pub open spec fn last_field(fields: Seq<StructField>, p: Seq<char>) -> int
    decreases fields.len(),
{
    if fields.len() == 0 {
        -1
    } else if fields.last().ident@ == p {
        fields.len() - 1
    } else {
        last_field(fields.drop_last(), p)
    }
}

/// The position of the last fixture bound to the argument `p`, or -1.
pub open spec fn last_fixture(fixtures: Seq<Fixture>, p: Seq<char>) -> int
    decreases fixtures.len(),
{
    if fixtures.len() == 0 {
        -1
    } else if fixtures.last().name@ == p {
        fixtures.len() - 1
    } else {
        last_fixture(fixtures.drop_last(), p)
    }
}

pub proof fn lemma_last_name_range(names: Seq<Seq<char>>, p: Seq<char>)
    ensures
        -1 <= last_name(names, p) < names.len(),
        last_name(names, p) >= 0 ==> names[last_name(names, p)] == p,
    decreases names.len(),
{
    if names.len() > 0 {
        lemma_last_name_range(names.drop_last(), p);
    }
}

pub proof fn lemma_last_axis_range(axes: Seq<ValueList>, p: Seq<char>)
    ensures
        -1 <= last_axis(axes, p) < axes.len(),
        last_axis(axes, p) >= 0 ==> axes[last_axis(axes, p)].name@ == p,
    decreases axes.len(),
{
    if axes.len() > 0 {
        lemma_last_axis_range(axes.drop_last(), p);
    }
}

pub fn find_last_name(names: &Vec<String>, p: &String) -> (r: Option<usize>)
    ensures
        r matches Some(i) ==> i < names@.len() && i as int == last_name(names@.map_values(|s: String| s@), p@),
        r is None ==> last_name(names@.map_values(|s: String| s@), p@) == -1,
{
    let ghost all = names@.map_values(|s: String| s@);
    let mut r: Option<usize> = None;
    let mut i: usize = 0;
    while i < names.len()
        invariant
            i <= names@.len(),
            all == names@.map_values(|s: String| s@),
            r matches Some(j) ==> j < i && j as int == last_name(all.subrange(0, i as int), p@),
            r is None ==> last_name(all.subrange(0, i as int), p@) == -1,
        decreases names@.len() - i,
    {
        assert(all.subrange(0, i + 1).drop_last() == all.subrange(0, i as int));
        if names[i].eq(p) {
            r = Some(i);
        }
        i = i + 1;
    }
    assert(all.subrange(0, i as int) == all);
    r
}

pub fn find_last_axis(axes: &Vec<&ValueList>, p: &String) -> (r: Option<usize>)
    ensures
        r matches Some(i) ==> i < axes@.len() && i as int == last_axis(axes@.map_values(|v: &ValueList| *v), p@),
        r is None ==> last_axis(axes@.map_values(|v: &ValueList| *v), p@) == -1,
{
    let ghost all = axes@.map_values(|v: &ValueList| *v);
    let mut r: Option<usize> = None;
    let mut i: usize = 0;
    while i < axes.len()
        invariant
            i <= axes@.len(),
            all == axes@.map_values(|v: &ValueList| *v),
            r matches Some(j) ==> j < i && j as int == last_axis(all.subrange(0, i as int), p@),
            r is None ==> last_axis(all.subrange(0, i as int), p@) == -1,
        decreases axes@.len() - i,
    {
        assert(all.subrange(0, i + 1).drop_last() == all.subrange(0, i as int));
        if axes[i].name.eq(p) {
            r = Some(i);
        }
        i = i + 1;
    }
    assert(all.subrange(0, i as int) == all);
    r
}

pub fn find_last_field(fields: &[StructField], p: &String) -> (r: Option<usize>)
    ensures
        r matches Some(i) ==> i < fields@.len() && i as int == last_field(fields@, p@),
        r is None ==> last_field(fields@, p@) == -1,
{
    let mut r: Option<usize> = None;
    let mut i: usize = 0;
    while i < fields.len()
        invariant
            i <= fields@.len(),
            r matches Some(j) ==> j < i && j as int == last_field(fields@.subrange(0, i as int), p@),
            r is None ==> last_field(fields@.subrange(0, i as int), p@) == -1,
        decreases fields@.len() - i,
    {
        assert(fields@.subrange(0, i + 1).drop_last() == fields@.subrange(0, i as int));
        if fields[i].ident.eq(p) {
            r = Some(i);
        }
        i = i + 1;
    }
    assert(fields@.subrange(0, i as int) == fields@);
    r
}

pub fn find_last_fixture(fixtures: &Vec<&Fixture>, p: &String) -> (r: Option<usize>)
    ensures
        r matches Some(i) ==> i < fixtures@.len() && i as int == last_fixture(fixtures@.map_values(|f: &Fixture| *f), p@),
        r is None ==> last_fixture(fixtures@.map_values(|f: &Fixture| *f), p@) == -1,
{
    let ghost all = fixtures@.map_values(|f: &Fixture| *f);
    let mut r: Option<usize> = None;
    let mut i: usize = 0;
    while i < fixtures.len()
        invariant
            i <= fixtures@.len(),
            all == fixtures@.map_values(|f: &Fixture| *f),
            r matches Some(j) ==> j < i && j as int == last_fixture(all.subrange(0, i as int), p@),
            r is None ==> last_fixture(all.subrange(0, i as int), p@) == -1,
        decreases fixtures@.len() - i,
    {
        assert(all.subrange(0, i + 1).drop_last() == all.subrange(0, i as int));
        if fixtures[i].name.eq(p) {
            r = Some(i);
        }
        i = i + 1;
    }
    assert(all.subrange(0, i as int) == all);
    r
}

/// A copy of a list of strings.
pub fn copy_strings(v: &Vec<String>) -> (r: Vec<String>)
    ensures
        r@ == v@,
{
    let mut r: Vec<String> = Vec::new();
    let mut i: usize = 0;
    while i < v.len()
        invariant
            i <= v@.len(),
            r@ == v@.subrange(0, i as int),
        decreases v@.len() - i,
    {
        r.push(v[i].clone());
        i = i + 1;
    }
    assert(v@.subrange(0, i as int) == v@);
    r
}

} // verus!
