//! What holds across operations: a package still declared elsewhere is
//! never uninstalled, one that nothing declares any more is, and a
//! dependency set read back from what was written is the set that was
//! written.
use vstd::prelude::*;

use crate::dependencies::{lemma_sorted_unique, DependencyNames};
use crate::workspace::EsteemWorkspace;

verus! {

/// A name that another project `b` declares is never among the packages to
/// uninstall when project `a` drops it, whatever else `a` drops.
pub proof fn lemma_shared_dependency_is_kept(
    ws: &EsteemWorkspace,
    a: int,
    b: int,
    names: Seq<Seq<char>>,
    x: Seq<char>,
)
    requires
        0 <= a < ws.all_projects_rep@.len(),
        0 <= b < ws.all_projects_rep@.len(),
        a != b,
        ws.all_projects_rep@[b].dependencies@.all_names().contains(x),
    ensures
        !ws.orphans(a, names).contains(x),
{
    let pred = |name: Seq<char>| !ws.references_after_removal(a, names, name);
    assert(ws.references_after_removal(a, names, x));
    if ws.orphans(a, names).contains(x) {
        let k = choose|k: int| 0 <= k < names.filter(pred).len() && names.filter(pred)[k] == x;
        names.lemma_filter_pred(pred, k);
    }
}

/// Where only projects `a` and `b` declare `x`, dropping it from `a` leaves
/// it installed, and dropping it from `b` afterwards uninstalls it.
pub proof fn lemma_orphaned_by_last_removal(
    ws0: &EsteemWorkspace,
    ws1: &EsteemWorkspace,
    a: int,
    b: int,
    names_a: Seq<Seq<char>>,
    names_b: Seq<Seq<char>>,
    x: Seq<char>,
)
    requires
        0 <= a < ws0.all_projects_rep@.len(),
        0 <= b < ws0.all_projects_rep@.len(),
        a != b,
        names_a.contains(x),
        names_b.contains(x),
        !ws0.dependencies@.all_names().contains(x),
        ws0.all_projects_rep@[a].dependencies@.all_names().contains(x),
        ws0.all_projects_rep@[b].dependencies@.all_names().contains(x),
        forall|j: int|
            0 <= j < ws0.all_projects_rep@.len() && j != a && j != b
                ==> !(#[trigger] ws0.all_projects_rep@[j]).dependencies@.all_names().contains(x),
        ws0.replaced_project_dependencies(ws1, a),
        ws0.all_projects_rep@[a].dependencies@.names_removed(
            ws1.all_projects_rep@[a].dependencies@,
            names_a,
        ),
    ensures
        !ws0.orphans(a, names_a).contains(x),
        ws1.orphans(b, names_b).contains(x),
{
    lemma_shared_dependency_is_kept(ws0, a, b, names_a, x);
    let pred = |name: Seq<char>| !ws1.references_after_removal(b, names_b, name);
    assert(!ws1.all_projects_rep@[a].dependencies@.all_names().contains(x));
    assert forall|j: int|
        0 <= j < ws1.all_projects_rep@.len() && j != b implies !(
        #[trigger] ws1.all_projects_rep@[j]).dependencies@.all_names().contains(x) by {
        if j != a {
            assert(ws1.all_projects_rep@[j] == ws0.all_projects_rep@[j]);
        }
    }
    assert(pred(x));
    let k = choose|k: int| 0 <= k < names_b.len() && names_b[k] == x;
    names_b.lemma_filter_contains(pred, k);
}

/// A dependency set read back from the sorted lists that were written for
/// it (each list loaded as a set of names, kept sorted) is the set that was
/// written.
pub proof fn lemma_round_trip(written: DependencyNames, loaded: DependencyNames)
    requires
        written.wf(),
        loaded.wf(),
        loaded.required_set() == written.required.to_set(),
        loaded.development_set() == written.development.to_set(),
    ensures
        loaded == written,
{
    lemma_sorted_unique(loaded.required, written.required);
    lemma_sorted_unique(loaded.development, written.development);
}

} // verus!
