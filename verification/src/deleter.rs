//! Deleting every other file of a directory: the entries are taken in
//! sorted order and those at even (or odd) positions go.

use vstd::prelude::*;
use crate::sort::{sort_names, sorted_names};

verus! {

/// Whether the entry at position `i` of the sorted listing is deleted:
/// positions 0, 2, 4, ... with `even`, positions 1, 3, 5, ... without.
pub open spec fn spec_should_delete(i: nat, even: bool) -> bool {
    if even {
        i % 2 == 0
    } else {
        i % 2 != 0
    }
}

/// Whether the entry at position `i` of the sorted listing is deleted.
pub fn should_delete(i: usize, even: bool) -> (r: bool)
    ensures
        r == spec_should_delete(i as nat, even),
{
    if even {
        i % 2 == 0
    } else {
        i % 2 != 0
    }
}

/// One entry of the listing and what becomes of it.
pub struct Decision {
    pub path: String,
    pub delete: bool,
}

/// The paths of a list of decisions.
pub open spec fn decision_paths(d: Seq<Decision>) -> Seq<String> {
    d.map_values(|x: Decision| x.path)
}

/// Sorts the entries of a directory and decides, position by position,
/// which of them are deleted.
pub fn plan(entries: &Vec<String>, even: bool) -> (out: Vec<Decision>)
    ensures
        sorted_names(decision_paths(out@)),
        decision_paths(out@).to_multiset() == entries@.to_multiset(),
        forall|i: int| 0 <= i < out@.len() ==> (#[trigger] out@[i]).delete == spec_should_delete(i as nat, even),
{
    let sorted = sort_names(entries);
    let mut out: Vec<Decision> = Vec::new();
    for i in 0..sorted.len()
        invariant
            decision_paths(out@) == sorted@.take(i as int),
            forall|k: int| 0 <= k < i ==> (#[trigger] out@[k]).delete == spec_should_delete(k as nat, even),
    {
        let ghost prev = out@;
        out.push(Decision { path: sorted[i].clone(), delete: should_delete(i, even) });
        assert(decision_paths(out@) =~= decision_paths(prev).push(sorted@[i as int]));
        assert(sorted@.take(i + 1) =~= sorted@.take(i as int).push(sorted@[i as int]));
    }
    assert(sorted@.take(sorted@.len() as int) =~= sorted@);
    out
}

/// Decides a deletion run over directory `dir` from its listing (the
/// paths of its entries, or the reason it could not be read).
pub fn run(dir: &str, listing: &Result<Vec<String>, String>, even: bool) -> (r: Result<Vec<Decision>, String>)
    ensures
        match listing {
            Err(e) => r is Err && r->Err_0@ == "error reading directory "@ + dir@ + ": "@ + e@,
            Ok(entries) => r matches Ok(out) && sorted_names(decision_paths(out@))
                && decision_paths(out@).to_multiset() == entries@.to_multiset()
                && forall|i: int| 0 <= i < out@.len() ==> (#[trigger] out@[i]).delete == spec_should_delete(i as nat, even),
        },
{
    match listing {
        Err(e) => {
            let mut m = String::from_str("error reading directory ");
            m.append(dir);
            m.append(": ");
            m.append(e.as_str());
            Err(m)
        },
        Ok(entries) => Ok(plan(entries, even)),
    }
}

/// Law: the even and the odd choice split the listing between them; each
/// position is deleted by exactly one of the two.
pub proof fn law_even_odd_complementary(i: nat)
    ensures
        spec_should_delete(i, true) != spec_should_delete(i, false),
{
}

/// The number of positions below `n` that are deleted.
pub open spec fn deleted_count(n: nat, even: bool) -> nat
    decreases n,
{
    if n == 0 {
        0
    } else {
        deleted_count((n - 1) as nat, even) + if spec_should_delete((n - 1) as nat, even) { 1nat } else { 0nat }
    }
}

/// Law: of `n` entries, the even choice deletes the ceiling of half of
/// them and the odd choice the floor.
pub proof fn law_deleted_count(n: nat)
    ensures
        deleted_count(n, true) == (n + 1) / 2,
        deleted_count(n, false) == n / 2,
    decreases n,
{
    if n > 0 {
        law_deleted_count((n - 1) as nat);
    }
}

} // verus!
