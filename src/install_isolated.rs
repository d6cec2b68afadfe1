//! The isolated install: the manifest reduced to the dependencies of a few
//! projects and of the workspace, each with the version the full manifest
//! gives it.
use vstd::prelude::*;

use crate::dependencies::{names_of, strictly_sorted, EsteemDependencies};
use crate::workspace::EsteemWorkspace;
use crate::LibraryError;

verus! {

/// The root manifest's dependency tables: each package name with its version.
pub struct Manifest {
    /// the `dependencies` table
    pub dependencies: Vec<(String, String)>,
    /// the `devDependencies` table
    pub dev_dependencies: Vec<(String, String)>,
}

/// The names and versions of a table, in order.
pub open spec fn entries_of(v: Seq<(String, String)>) -> Seq<(Seq<char>, Seq<char>)> {
    v.map_values(|e: (String, String)| (e.0@, e.1@))
}

/// The value of the last entry named `name`, as a map built from the entries
/// in order holds it.
pub open spec fn lookup(entries: Seq<(Seq<char>, Seq<char>)>, name: Seq<char>) -> Option<Seq<char>>
    decreases entries.len(),
{
    if entries.len() == 0 {
        None
    } else if entries.last().0 == name {
        Some(entries.last().1)
    } else {
        lookup(entries.drop_last(), name)
    }
}

/// The table `entries` lists exactly `names`, in order, each with the version
/// that `source` gives it.
pub open spec fn lists_exactly(
    entries: Seq<(Seq<char>, Seq<char>)>,
    names: Set<Seq<char>>,
    source: Manifest,
) -> bool {
    &&& strictly_sorted(entries.map_values(|e: (Seq<char>, Seq<char>)| e.0))
    &&& entries.map_values(|e: (Seq<char>, Seq<char>)| e.0).to_set() == names
    &&& forall|k: int|
        0 <= k < entries.len() ==> source.version_of((#[trigger] entries[k]).0) == Some(entries[k].1)
}

impl Manifest {
    /// The version of `name`: that of the development table, or else that of
    /// the required table.
    pub open spec fn version_of(&self, name: Seq<char>) -> Option<Seq<char>> {
        match lookup(entries_of(self.dev_dependencies@), name) {
            Some(v) => Some(v),
            None => lookup(entries_of(self.dependencies@), name),
        }
    }

    /// The version of `name`, if the manifest has one.
    pub fn version(&self, name: &String) -> (r: Option<String>)
        ensures
            match self.version_of(name@) {
                Some(v) => r matches Some(s) && s@ == v,
                None => r is None,
            },
    {
        match find_entry(&self.dev_dependencies, name) {
            Some(v) => Some(v),
            None => find_entry(&self.dependencies, name),
        }
    }
}

pub(crate) fn find_entry(table: &Vec<(String, String)>, name: &String) -> (r: Option<String>)
    ensures
        match lookup(entries_of(table@), name@) {
            Some(v) => r matches Some(s) && s@ == v,
            None => r is None,
        },
{
    let ghost entries = entries_of(table@);
    let mut j: usize = table.len();
    proof {
        assert(entries.take(j as int) =~= entries);
    }
    while j > 0
        invariant
            j <= table@.len(),
            entries == entries_of(table@),
            lookup(entries, name@) == lookup(entries.take(j as int), name@),
        decreases j,
    {
        let ghost prefix = entries.take(j as int);
        proof {
            assert(prefix.drop_last() =~= entries.take(j - 1));
            assert(prefix.last() == (table@[j - 1].0@, table@[j - 1].1@));
        }
        if table[j - 1].0 == *name {
            return Some(table[j - 1].1.clone());
        }
        j = j - 1;
    }
    None
}

/// The names that the targets' projects declare as required, besides those
/// of the workspace.
pub open spec fn targets_required(ws: &EsteemWorkspace, targets: Seq<Seq<char>>) -> Set<Seq<char>> {
    Set::new(
        |name: Seq<char>|
            exists|k: int, i: int|
                0 <= k < targets.len() && #[trigger] ws.is_project_at(i, targets[k])
                    && ws.all_projects_rep@[i].dependencies@.required_set().contains(name),
    )
}

/// The names that the targets' projects declare as development
/// dependencies.
pub open spec fn targets_development(ws: &EsteemWorkspace, targets: Seq<Seq<char>>) -> Set<Seq<char>> {
    Set::new(
        |name: Seq<char>|
            exists|k: int, i: int|
                0 <= k < targets.len() && #[trigger] ws.is_project_at(i, targets[k])
                    && ws.all_projects_rep@[i].dependencies@.development_set().contains(name),
    )
}

/// The required names an isolated install of `targets` keeps.
pub open spec fn isolated_required(ws: &EsteemWorkspace, targets: Seq<Seq<char>>) -> Set<Seq<char>> {
    ws.dependencies@.required_set() + targets_required(ws, targets)
}

/// The development names an isolated install of `targets` keeps.
pub open spec fn isolated_development(ws: &EsteemWorkspace, targets: Seq<Seq<char>>) -> Set<Seq<char>> {
    ws.dependencies@.development_set() + targets_development(ws, targets)
}

proof fn lemma_project_at_unique(ws: &EsteemWorkspace, i: int, j: int, name: Seq<char>)
    requires
        ws.is_project_at(i, name),
        ws.is_project_at(j, name),
    ensures
        i == j,
{
    if i < j {
        assert(ws.all_projects_rep@[i].name@ != name);
    } else if j < i {
        assert(ws.all_projects_rep@[j].name@ != name);
    }
}

/// The dependencies of the workspace together with those of the projects
/// `project_names`; `NotFound` where one of them is not a project.
fn union_of_targets(workspace: &EsteemWorkspace, project_names: &Vec<String>) -> (r: Result<
    EsteemDependencies,
    LibraryError,
>)
    requires
        workspace.wf(),
    ensures
        r is Ok <==> forall|k: int|
            0 <= k < project_names@.len() ==> workspace.has_project(#[trigger] project_names@[k]@),
        r is Err ==> r == Err::<EsteemDependencies, LibraryError>(LibraryError::NotFound),
        r matches Ok(d) ==> d@.wf() && d@.required_set() == isolated_required(
            workspace,
            names_of(project_names@),
        ) && d@.development_set() == isolated_development(workspace, names_of(project_names@)),
{
    let ghost targets = names_of(project_names@);
    let mut acc = workspace.dependencies.duplicate();
    let mut k: usize = 0;
    proof {
        assert(targets_required(workspace, targets.take(0)) =~= Set::<Seq<char>>::empty());
        assert(targets_development(workspace, targets.take(0)) =~= Set::<Seq<char>>::empty());
        assert(acc@.required_set() =~= isolated_required(workspace, targets.take(0)));
        assert(acc@.development_set() =~= isolated_development(workspace, targets.take(0)));
    }
    while k < project_names.len()
        invariant
            workspace.wf(),
            targets == names_of(project_names@),
            k <= project_names@.len(),
            acc@.wf(),
            acc@.required_set() == isolated_required(workspace, targets.take(k as int)),
            acc@.development_set() == isolated_development(workspace, targets.take(k as int)),
            forall|m: int| 0 <= m < k ==> workspace.has_project(#[trigger] project_names@[m]@),
        decreases project_names@.len() - k,
    {
        let i = match workspace.find_project(&project_names[k]) {
            Ok(i) => i,
            Err(e) => return Err(e),
        };
        let ghost t = targets[k as int];
        let ghost d = workspace.all_projects_rep@[i as int].dependencies@;
        proof {
            assert(workspace.all_projects_rep@[i as int].wf());
            assert(targets.take(k + 1) =~= targets.take(k as int).push(t));
        }
        let required = workspace.all_projects_rep[i].dependencies.required_list();
        let development = workspace.all_projects_rep[i].dependencies.development_list();
        acc.add_all(&required, false);
        acc.add_all(&development, true);
        proof {
            let next = targets.take(k + 1);
            let prev = targets.take(k as int);
            assert(d.required.to_set() == d.required_set());
            assert forall|name: Seq<char>|
                #[trigger] targets_required(workspace, next).contains(name) <==> (targets_required(
                    workspace,
                    prev,
                ).contains(name) || d.required_set().contains(name)) by {
                if targets_required(workspace, next).contains(name) {
                    let (m, j) = choose|m: int, j: int|
                        0 <= m < next.len() && #[trigger] workspace.is_project_at(j, next[m])
                            && workspace.all_projects_rep@[j].dependencies@.required_set().contains(name);
                    if m == k {
                        lemma_project_at_unique(workspace, i as int, j, t);
                    } else {
                        assert(prev[m] == next[m]);
                        assert(workspace.is_project_at(j, prev[m]));
                    }
                }
                if targets_required(workspace, prev).contains(name) {
                    let (m, j) = choose|m: int, j: int|
                        0 <= m < prev.len() && #[trigger] workspace.is_project_at(j, prev[m])
                            && workspace.all_projects_rep@[j].dependencies@.required_set().contains(name);
                    assert(next[m] == prev[m]);
                    assert(workspace.is_project_at(j, next[m]));
                }
                if d.required_set().contains(name) {
                    assert(next[k as int] == t);
                    assert(workspace.is_project_at(i as int, next[k as int]));
                }
            }
            assert forall|name: Seq<char>|
                #[trigger] targets_development(workspace, next).contains(name) <==> (
                targets_development(workspace, prev).contains(name) || d.development_set().contains(
                    name,
                )) by {
                if targets_development(workspace, next).contains(name) {
                    let (m, j) = choose|m: int, j: int|
                        0 <= m < next.len() && #[trigger] workspace.is_project_at(j, next[m])
                            && workspace.all_projects_rep@[j].dependencies@.development_set().contains(
                            name,
                        );
                    if m == k {
                        lemma_project_at_unique(workspace, i as int, j, t);
                    } else {
                        assert(prev[m] == next[m]);
                        assert(workspace.is_project_at(j, prev[m]));
                    }
                }
                if targets_development(workspace, prev).contains(name) {
                    let (m, j) = choose|m: int, j: int|
                        0 <= m < prev.len() && #[trigger] workspace.is_project_at(j, prev[m])
                            && workspace.all_projects_rep@[j].dependencies@.development_set().contains(
                            name,
                        );
                    assert(next[m] == prev[m]);
                    assert(workspace.is_project_at(j, next[m]));
                }
                if d.development_set().contains(name) {
                    assert(next[k as int] == t);
                    assert(workspace.is_project_at(i as int, next[k as int]));
                }
            }
            assert(acc@.required_set() =~= isolated_required(workspace, next));
            assert(acc@.development_set() =~= isolated_development(workspace, next));
        }
        k = k + 1;
    }
    proof {
        assert(targets.take(k as int) =~= targets);
    }
    Ok(acc)
}

/// A table of `names`, in order, each with its version in `manifest`;
/// `None` where one of them has none.
fn versions_of(names: &Vec<String>, manifest: &Manifest) -> (r: Option<Vec<(String, String)>>)
    requires
        strictly_sorted(names_of(names@)),
    ensures
        r is None <==> exists|k: int|
            0 <= k < names@.len() && (#[trigger] manifest.version_of(names@[k]@)) is None,
        r matches Some(t) ==> lists_exactly(entries_of(t@), names_of(names@).to_set(), *manifest),
{
    let ghost keys_of = |e: (Seq<char>, Seq<char>)| e.0;
    let mut table: Vec<(String, String)> = Vec::new();
    let mut k: usize = 0;
    while k < names.len()
        invariant
            k <= names@.len(),
            keys_of == (|e: (Seq<char>, Seq<char>)| e.0),
            entries_of(table@).map_values(keys_of) == names_of(names@).take(k as int),
            forall|m: int|
                0 <= m < table@.len() ==> manifest.version_of((#[trigger] entries_of(table@)[m]).0)
                    == Some(entries_of(table@)[m].1),
            forall|m: int| 0 <= m < k ==> (#[trigger] manifest.version_of(names@[m]@)) is Some,
        decreases names@.len() - k,
    {
        match manifest.version(&names[k]) {
            Some(v) => {
                let ghost before = table@;
                table.push((names[k].clone(), v));
                proof {
                    assert(entries_of(table@) =~= entries_of(before).push((names@[k as int]@, v@)));
                    entries_of(before).lemma_push_map_commute(keys_of, (names@[k as int]@, v@));
                    assert(names_of(names@).take(k + 1) =~= names_of(names@).take(k as int).push(
                        names@[k as int]@,
                    ));
                    assert(entries_of(table@).map_values(keys_of) =~= names_of(names@).take(k + 1));
                }
            },
            None => {
                return None;
            },
        }
        k = k + 1;
    }
    proof {
        assert(names_of(names@).take(k as int) =~= names_of(names@));
    }
    Some(table)
}

/// The manifest reduced to what the projects `project_names` and the
/// workspace declare: each of those names with its version in `manifest`,
/// in order. `NotFound` where one of `project_names` is not a project;
/// `ManifestInconsistency` where one of the names has no version.
pub fn perform_install_isolated(
    workspace: &EsteemWorkspace,
    project_names: &Vec<String>,
    manifest: &Manifest,
) -> (r: Result<Manifest, LibraryError>)
    requires
        workspace.wf(),
    ensures
        !(forall|k: int|
            0 <= k < project_names@.len() ==> workspace.has_project(#[trigger] project_names@[k]@))
            ==> r == Err::<Manifest, LibraryError>(LibraryError::NotFound),
        (forall|k: int|
            0 <= k < project_names@.len() ==> workspace.has_project(#[trigger] project_names@[k]@))
            ==> {
            let required = isolated_required(workspace, names_of(project_names@));
            let development = isolated_development(workspace, names_of(project_names@));
            let complete = forall|name: Seq<char>|
                (required.contains(name) || development.contains(name))
                    ==> (#[trigger] manifest.version_of(name)) is Some;
            &&& !complete ==> r == Err::<Manifest, LibraryError>(LibraryError::ManifestInconsistency)
            &&& complete ==> r is Ok
            &&& r matches Ok(m) ==> lists_exactly(entries_of(m.dependencies@), required, *manifest)
                && lists_exactly(entries_of(m.dev_dependencies@), development, *manifest)
        },
{
    let ghost targets = names_of(project_names@);
    let union = match union_of_targets(workspace, project_names) {
        Ok(d) => d,
        Err(e) => return Err(e),
    };
    let required_names = union.required_list();
    let development_names = union.development_list();
    proof {
        assert(names_of(required_names@).to_set() == isolated_required(workspace, targets));
        assert(names_of(development_names@).to_set() == isolated_development(workspace, targets));
    }
    let dependencies = match versions_of(&required_names, manifest) {
        Some(t) => t,
        None => {
            proof {
                let k = choose|k: int|
                    0 <= k < required_names@.len() && (#[trigger] manifest.version_of(
                        required_names@[k]@,
                    )) is None;
                assert(names_of(required_names@)[k] == required_names@[k]@);
                assert(isolated_required(workspace, targets).contains(required_names@[k]@));
            }
            return Err(LibraryError::ManifestInconsistency);
        },
    };
    let dev_dependencies = match versions_of(&development_names, manifest) {
        Some(t) => t,
        None => {
            proof {
                let k = choose|k: int|
                    0 <= k < development_names@.len() && (#[trigger] manifest.version_of(
                        development_names@[k]@,
                    )) is None;
                assert(names_of(development_names@)[k] == development_names@[k]@);
                assert(isolated_development(workspace, targets).contains(development_names@[k]@));
            }
            return Err(LibraryError::ManifestInconsistency);
        },
    };
    proof {
        let required = isolated_required(workspace, targets);
        let development = isolated_development(workspace, targets);
        assert forall|name: Seq<char>|
            (required.contains(name) || development.contains(name)) implies (
            #[trigger] manifest.version_of(name)) is Some by {
            if required.contains(name) {
                assert(names_of(required_names@).to_set().contains(name));
                let k = choose|k: int|
                    0 <= k < names_of(required_names@).len() && names_of(required_names@)[k] == name;
                assert(manifest.version_of(required_names@[k]@) is Some);
            } else {
                assert(names_of(development_names@).to_set().contains(name));
                let k = choose|k: int|
                    0 <= k < names_of(development_names@).len() && names_of(development_names@)[k]
                        == name;
                assert(manifest.version_of(development_names@[k]@) is Some);
            }
        }
    }
    Ok(Manifest { dependencies, dev_dependencies })
}

} // verus!
