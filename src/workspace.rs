//! Projects, the workspace that holds them, and the questions asked of the
//! workspace as a whole: which names it refers to, and which of the names
//! taken out of one place nothing refers to any more.
use vstd::prelude::*;

use crate::dependencies::{lemma_concat_holds_all_names, names_of, EsteemDependencies};
use crate::LibraryError;

verus! {

/// One project of the workspace.
pub struct EsteemProject {
    /// the name of the project, unique in the workspace
    pub name: String,
    /// the path of the project's declaration file
    pub description_file_path: String,
    /// the dependencies the project declares
    pub dependencies: EsteemDependencies,
    /// the other keys of the declaration file, each with its JSON text
    pub other: Vec<(String, String)>,
}

/// The workspace: its projects and the dependencies of all of them.
pub struct EsteemWorkspace {
    /// the path of the workspace descriptor
    pub path: String,
    /// the project table: each project's name and relative path
    pub projects: Vec<(String, String)>,
    /// the loaded projects
    pub all_projects_rep: Vec<EsteemProject>,
    /// the dependencies of the workspace itself
    pub dependencies: EsteemDependencies,
    /// the other keys of the descriptor, each with its JSON text
    pub other: Vec<(String, String)>,
}

impl EsteemProject {
    pub open spec fn wf(&self) -> bool {
        self.dependencies@.wf()
    }

    /// `self` is `other` but for its dependencies.
    pub open spec fn same_but_dependencies(&self, other: &EsteemProject) -> bool {
        &&& self.name == other.name
        &&& self.description_file_path == other.description_file_path
        &&& self.other == other.other
    }
}

impl EsteemWorkspace {
    /// The dependency sets are well formed, and the loaded projects agree
    /// with the project table: no name twice in either, and each loaded
    /// project listed in the table.
    pub open spec fn wf(&self) -> bool {
        &&& self.dependencies@.wf()
        &&& forall|i: int|
            0 <= i < self.all_projects_rep@.len() ==> (#[trigger] self.all_projects_rep@[i]).wf()
        &&& forall|i: int, j: int|
            0 <= i < j < self.all_projects_rep@.len() ==> (#[trigger] self.all_projects_rep@[i]).name@
                != (#[trigger] self.all_projects_rep@[j]).name@
        &&& forall|k: int, m: int|
            0 <= k < m < self.projects@.len() ==> (#[trigger] self.projects@[k]).0@
                != (#[trigger] self.projects@[m]).0@
        &&& forall|i: int|
            0 <= i < self.all_projects_rep@.len() ==> self.in_table(
                (#[trigger] self.all_projects_rep@[i]).name@,
            )
    }

    /// Whether the project table lists `name`.
    pub open spec fn in_table(&self, name: Seq<char>) -> bool {
        exists|k: int| 0 <= k < self.projects@.len() && (#[trigger] self.projects@[k]).0@ == name
    }

    /// Whether the workspace itself or any of its projects declares `name`.
    pub open spec fn references(&self, name: Seq<char>) -> bool {
        ||| self.dependencies@.all_names().contains(name)
        ||| exists|i: int|
            0 <= i < self.all_projects_rep@.len()
                && (#[trigger] self.all_projects_rep@[i]).dependencies@.all_names().contains(name)
    }

    /// Every name that the workspace or a project declares.
    pub open spec fn all_dependency_names(&self) -> Set<Seq<char>> {
        Set::new(|name: Seq<char>| self.references(name))
    }

    /// Those of `names` that nothing in the workspace declares, in order.
    pub open spec fn removal_candidates(&self, names: Seq<Seq<char>>) -> Seq<Seq<char>> {
        names.filter(|name: Seq<char>| !self.references(name))
    }

    /// Whether `name` is still declared once project `i` no longer declares
    /// any of `names`.
    pub open spec fn references_after_removal(&self, i: int, names: Seq<Seq<char>>, name: Seq<char>) -> bool {
        ||| self.dependencies@.all_names().contains(name)
        ||| self.all_projects_rep@[i].dependencies@.all_names().contains(name) && !names.contains(name)
        ||| exists|j: int|
            0 <= j < self.all_projects_rep@.len() && j != i
                && (#[trigger] self.all_projects_rep@[j]).dependencies@.all_names().contains(name)
    }

    /// Those of `names` that nothing declares once project `i` no longer
    /// declares them, in order.
    pub open spec fn orphans(&self, i: int, names: Seq<Seq<char>>) -> Seq<Seq<char>> {
        names.filter(|name: Seq<char>| !self.references_after_removal(i, names, name))
    }

    /// Whether `name` is still declared once the workspace itself no longer
    /// declares any of `names`.
    pub open spec fn references_after_workspace_removal(&self, names: Seq<Seq<char>>, name: Seq<char>) -> bool {
        ||| self.dependencies@.all_names().contains(name) && !names.contains(name)
        ||| exists|j: int|
            0 <= j < self.all_projects_rep@.len()
                && (#[trigger] self.all_projects_rep@[j]).dependencies@.all_names().contains(name)
    }

    /// Those of `names` that nothing declares once the workspace itself no
    /// longer declares them, in order.
    pub open spec fn workspace_orphans(&self, names: Seq<Seq<char>>) -> Seq<Seq<char>> {
        names.filter(|name: Seq<char>| !self.references_after_workspace_removal(names, name))
    }

    /// `self` holds what `other` holds.
    pub open spec fn same_as(&self, other: &EsteemWorkspace) -> bool {
        &&& self.path == other.path
        &&& self.projects == other.projects
        &&& self.all_projects_rep@ == other.all_projects_rep@
        &&& self.dependencies == other.dependencies
        &&& self.other == other.other
    }

    /// `i` is the first project named `name`.
    pub open spec fn is_project_at(&self, i: int, name: Seq<char>) -> bool {
        &&& 0 <= i < self.all_projects_rep@.len()
        &&& self.all_projects_rep@[i].name@ == name
        &&& forall|j: int| 0 <= j < i ==> (#[trigger] self.all_projects_rep@[j]).name@ != name
    }

    pub open spec fn has_project(&self, name: Seq<char>) -> bool {
        exists|i: int|
            0 <= i < self.all_projects_rep@.len() && (#[trigger] self.all_projects_rep@[i]).name@
                == name
    }

    /// `after` is `self` with only the dependencies of project `i` changed.
    pub open spec fn replaced_project_dependencies(&self, after: &EsteemWorkspace, i: int) -> bool {
        &&& 0 <= i < self.all_projects_rep@.len()
        &&& after.all_projects_rep@.len() == self.all_projects_rep@.len()
        &&& after.all_projects_rep@[i].same_but_dependencies(&self.all_projects_rep@[i])
        &&& forall|j: int|
            0 <= j < self.all_projects_rep@.len() && j != i ==> after.all_projects_rep@[j]
                == self.all_projects_rep@[j]
        &&& after.path == self.path
        &&& after.projects == self.projects
        &&& after.dependencies == self.dependencies
        &&& after.other == self.other
    }

    /// `after` is `self` with only the workspace's own dependencies changed.
    pub open spec fn replaced_workspace_dependencies(&self, after: &EsteemWorkspace) -> bool {
        &&& after.path == self.path
        &&& after.projects == self.projects
        &&& after.all_projects_rep == self.all_projects_rep
        &&& after.other == self.other
    }

    /// The index of the first project named `project_name`.
    pub fn find_project(&self, project_name: &String) -> (r: Result<usize, LibraryError>)
        ensures
            r is Ok <==> self.has_project(project_name@),
            r matches Ok(i) ==> self.is_project_at(i as int, project_name@),
            r is Err ==> r == Err::<usize, LibraryError>(LibraryError::NotFound),
    {
        let mut i: usize = 0;
        while i < self.all_projects_rep.len()
            invariant
                i <= self.all_projects_rep@.len(),
                forall|j: int| 0 <= j < i ==> (#[trigger] self.all_projects_rep@[j]).name@ != project_name@,
            decreases self.all_projects_rep@.len() - i,
        {
            if self.all_projects_rep[i].name == *project_name {
                return Ok(i);
            }
            i = i + 1;
        }
        Err(LibraryError::NotFound)
    }

    /// The first project named `project_name`.
    pub fn get_project(&self, project_name: &String) -> (r: Result<&EsteemProject, LibraryError>)
        ensures
            r is Ok <==> self.has_project(project_name@),
            r is Err ==> r == Err::<&EsteemProject, LibraryError>(LibraryError::NotFound),
            forall|i: int|
                self.is_project_at(i, project_name@) ==> (r matches Ok(p) && *p
                    == self.all_projects_rep@[i]),
    {
        match self.find_project(project_name) {
            Ok(i) => {
                proof {
                    assert forall|j: int| self.is_project_at(j, project_name@) implies j == i by {
                        if j < i {
                            assert(self.all_projects_rep@[j].name@ != project_name@);
                        } else if i < j {
                            assert(self.all_projects_rep@[i as int].name@ != project_name@);
                        }
                    }
                }
                Ok(&self.all_projects_rep[i])
            },
            Err(e) => Err(e),
        }
    }

    /// Whether the workspace itself or any of its projects declares
    /// `dependency`.
    pub fn is_dependency_present(&self, dependency: &str) -> (r: bool)
        requires
            self.wf(),
        ensures
            r == self.references(dependency@),
    {
        let name = dependency.to_owned();
        if self.dependencies.contains_dependency(&name) {
            return true;
        }
        let mut i: usize = 0;
        while i < self.all_projects_rep.len()
            invariant
                self.wf(),
                name@ == dependency@,
                i <= self.all_projects_rep@.len(),
                !self.dependencies@.all_names().contains(name@),
                forall|j: int|
                    0 <= j < i ==> !(#[trigger] self.all_projects_rep@[j]).dependencies@.all_names().contains(
                        name@,
                    ),
            decreases self.all_projects_rep@.len() - i,
        {
            proof {
                assert(self.all_projects_rep@[i as int].wf());
            }
            if self.all_projects_rep[i].dependencies.contains_dependency(&name) {
                return true;
            }
            i = i + 1;
        }
        false
    }

    /// Every name that the workspace or a project declares; a name may come
    /// more than once.
    pub fn get_all_dependencies(&self) -> (r: Vec<String>)
        ensures
            names_of(r@).to_set() == self.all_dependency_names(),
    {
        let mut r = self.dependencies.get_all_dependencies();
        proof {
            lemma_concat_holds_all_names(self.dependencies@);
        }
        let mut i: usize = 0;
        while i < self.all_projects_rep.len()
            invariant
                i <= self.all_projects_rep@.len(),
                forall|name: Seq<char>|
                    #![trigger names_of(r@).contains(name)]
                    names_of(r@).contains(name) <==> (self.dependencies@.all_names().contains(name)
                        || exists|j: int|
                        0 <= j < i && (#[trigger] self.all_projects_rep@[j]).dependencies@.all_names().contains(
                            name,
                        )),
            decreases self.all_projects_rep@.len() - i,
        {
            let ghost before = names_of(r@);
            let mut more = self.all_projects_rep[i].dependencies.get_all_dependencies();
            let ghost added = names_of(more@);
            r.append(&mut more);
            proof {
                lemma_concat_holds_all_names(self.all_projects_rep@[i as int].dependencies@);
                assert(names_of(r@) =~= before + added);
                assert forall|name: Seq<char>|
                    #![trigger names_of(r@).contains(name)]
                    names_of(r@).contains(name) <==> (self.dependencies@.all_names().contains(name)
                        || exists|j: int|
                        0 <= j < i + 1 && (#[trigger] self.all_projects_rep@[j]).dependencies@.all_names().contains(
                            name,
                        )) by {
                    let d = self.all_projects_rep@[i as int].dependencies@;
                    if names_of(r@).contains(name) {
                        let k = choose|k: int| 0 <= k < names_of(r@).len() && names_of(r@)[k] == name;
                        if k < before.len() {
                            assert(before[k] == name);
                            assert(before.contains(name));
                        } else {
                            assert(added[k - before.len()] == name);
                            assert(d.development.contains(name) || d.required.contains(name));
                            assert(d.all_names().contains(name));
                        }
                    }
                    if exists|j: int|
                        0 <= j < i + 1 && (#[trigger] self.all_projects_rep@[j]).dependencies@.all_names().contains(
                            name,
                        ) {
                        let j = choose|j: int|
                            0 <= j < i + 1 && (#[trigger] self.all_projects_rep@[j]).dependencies@.all_names().contains(
                                name,
                            );
                        if j == i {
                            assert(added.contains(name));
                            let k = choose|k: int| 0 <= k < added.len() && added[k] == name;
                            assert(names_of(r@)[before.len() + k] == name);
                        } else {
                            assert(before.contains(name));
                            let k = choose|k: int| 0 <= k < before.len() && before[k] == name;
                            assert(names_of(r@)[k] == name);
                        }
                    }
                    if self.dependencies@.all_names().contains(name) {
                        assert(before.contains(name));
                        let k = choose|k: int| 0 <= k < before.len() && before[k] == name;
                        assert(names_of(r@)[k] == name);
                    }
                }
            }
            i = i + 1;
        }
        proof {
            assert(names_of(r@).to_set() =~= self.all_dependency_names());
        }
        r
    }

    /// Those of `to_remove` that nothing in the workspace declares, in order:
    /// the packages that may leave the installation.
    pub fn get_dependencies_to_remove(&self, to_remove: Vec<String>) -> (r: Vec<String>)
        requires
            self.wf(),
        ensures
            names_of(r@) == self.removal_candidates(names_of(to_remove@)),
    {
        let ghost names = names_of(to_remove@);
        let ghost pred = |name: Seq<char>| !self.references(name);
        let mut r: Vec<String> = Vec::new();
        let mut i: usize = 0;
        while i < to_remove.len()
            invariant
                self.wf(),
                names == names_of(to_remove@),
                pred == (|name: Seq<char>| !self.references(name)),
                i <= to_remove@.len(),
                names_of(r@) == names.take(i as int).filter(pred),
            decreases to_remove@.len() - i,
        {
            let present = self.is_dependency_present(to_remove[i].as_str());
            proof {
                assert(names.take(i + 1) =~= names.take(i as int).push(names[i as int]));
                names.take(i as int).lemma_filter_push(names[i as int], pred);
            }
            if !present {
                let ghost before = r@;
                r.push(to_remove[i].clone());
                proof {
                    before.lemma_push_map_commute(|s: String| s@, to_remove@[i as int]);
                }
            }
            i = i + 1;
        }
        proof {
            assert(names.take(i as int) =~= names);
        }
        r
    }

    /// The names in the project table, in order.
    pub fn project_names(&self) -> (r: Vec<String>)
        ensures
            names_of(r@) == self.projects@.map_values(|e: (String, String)| e.0@),
    {
        let mut r: Vec<String> = Vec::new();
        let mut i: usize = 0;
        while i < self.projects.len()
            invariant
                i <= self.projects@.len(),
                names_of(r@) == self.projects@.map_values(|e: (String, String)| e.0@).take(i as int),
            decreases self.projects@.len() - i,
        {
            let ghost before = r@;
            r.push(self.projects[i].0.clone());
            proof {
                before.lemma_push_map_commute(|s: String| s@, self.projects@[i as int].0);
                assert(names_of(r@) =~= self.projects@.map_values(|e: (String, String)| e.0@).take(
                    i + 1,
                ));
            }
            i = i + 1;
        }
        proof {
            assert(self.projects@.map_values(|e: (String, String)| e.0@).take(i as int)
                =~= self.projects@.map_values(|e: (String, String)| e.0@));
        }
        r
    }
}

/// Changing the dependencies of one project to a well-formed set keeps the
/// workspace well formed.
pub proof fn lemma_wf_after_project_change(before: &EsteemWorkspace, after: &EsteemWorkspace, i: int)
    requires
        before.wf(),
        before.replaced_project_dependencies(after, i),
        after.all_projects_rep@[i].wf(),
    ensures
        after.wf(),
{
    assert forall|j: int| 0 <= j < after.all_projects_rep@.len() implies (
    #[trigger] after.all_projects_rep@[j]).wf() by {
        if j != i {
            assert(before.all_projects_rep@[j].wf());
        }
    }
    assert forall|a: int, b: int|
        0 <= a < b < after.all_projects_rep@.len() implies (
        #[trigger] after.all_projects_rep@[a]).name@ != (#[trigger] after.all_projects_rep@[b]).name@ by {
        assert(after.all_projects_rep@[a].name == before.all_projects_rep@[a].name);
        assert(after.all_projects_rep@[b].name == before.all_projects_rep@[b].name);
        assert(before.all_projects_rep@[a].name@ != before.all_projects_rep@[b].name@);
    }
    assert forall|j: int| 0 <= j < after.all_projects_rep@.len() implies after.in_table(
        (#[trigger] after.all_projects_rep@[j]).name@,
    ) by {
        assert(after.all_projects_rep@[j].name == before.all_projects_rep@[j].name);
        assert(before.in_table(before.all_projects_rep@[j].name@));
    }
}

/// Changing the workspace's own dependencies to a well-formed set keeps the
/// workspace well formed.
pub proof fn lemma_wf_after_workspace_change(before: &EsteemWorkspace, after: &EsteemWorkspace)
    requires
        before.wf(),
        before.replaced_workspace_dependencies(after),
        after.dependencies@.wf(),
    ensures
        after.wf(),
{
    lemma_wf_same_projects(before, after);
}

/// Well-formedness of the projects and the table depends on them alone.
proof fn lemma_wf_same_projects(before: &EsteemWorkspace, after: &EsteemWorkspace)
    requires
        before.wf(),
        after.dependencies@.wf(),
        after.all_projects_rep@ == before.all_projects_rep@,
        after.projects@ == before.projects@,
    ensures
        after.wf(),
{
    assert forall|j: int| 0 <= j < after.all_projects_rep@.len() implies (
    #[trigger] after.all_projects_rep@[j]).wf() by {
        assert(before.all_projects_rep@[j].wf());
    }
    assert forall|a: int, b: int|
        0 <= a < b < after.all_projects_rep@.len() implies (
        #[trigger] after.all_projects_rep@[a]).name@ != (#[trigger] after.all_projects_rep@[b]).name@ by {
        assert(before.all_projects_rep@[a].name@ != before.all_projects_rep@[b].name@);
    }
    assert forall|k: int, m: int| 0 <= k < m < after.projects@.len() implies (
    #[trigger] after.projects@[k]).0@ != (#[trigger] after.projects@[m]).0@ by {
        assert(before.projects@[k].0@ != before.projects@[m].0@);
    }
    assert forall|j: int| 0 <= j < after.all_projects_rep@.len() implies after.in_table(
        (#[trigger] after.all_projects_rep@[j]).name@,
    ) by {
        assert(before.in_table(before.all_projects_rep@[j].name@));
    }
}

/// A workspace that holds what a well-formed one holds is well formed.
pub proof fn lemma_wf_same_as(before: &EsteemWorkspace, after: &EsteemWorkspace)
    requires
        before.wf(),
        after.same_as(before),
    ensures
        after.wf(),
{
    lemma_wf_same_projects(before, after);
}

/// Once project `i` has dropped `names`, the names that nothing declares are
/// those that `orphans` gives.
pub proof fn lemma_project_removal_candidates(
    before: &EsteemWorkspace,
    after: &EsteemWorkspace,
    i: int,
    names: Seq<Seq<char>>,
)
    requires
        before.replaced_project_dependencies(after, i),
        before.all_projects_rep@[i].dependencies@.names_removed(
            after.all_projects_rep@[i].dependencies@,
            names,
        ),
    ensures
        after.removal_candidates(names) == before.orphans(i, names),
{
    let unreferenced_after = |name: Seq<char>| !after.references(name);
    let unreferenced_before = |name: Seq<char>| !before.references_after_removal(i, names, name);
    assert forall|name: Seq<char>| #[trigger] unreferenced_after(name) == unreferenced_before(name) by {
        if after.references(name) {
            if !after.dependencies@.all_names().contains(name) {
                let j = choose|j: int|
                    0 <= j < after.all_projects_rep@.len()
                        && (#[trigger] after.all_projects_rep@[j]).dependencies@.all_names().contains(name);
                if j != i {
                    assert(before.all_projects_rep@[j] == after.all_projects_rep@[j]);
                }
            }
        }
        if before.references_after_removal(i, names, name) {
            if !before.dependencies@.all_names().contains(name) && !(
            before.all_projects_rep@[i].dependencies@.all_names().contains(name) && !names.contains(
                name,
            )) {
                let j = choose|j: int|
                    0 <= j < before.all_projects_rep@.len() && j != i
                        && (#[trigger] before.all_projects_rep@[j]).dependencies@.all_names().contains(name);
                assert(before.all_projects_rep@[j] == after.all_projects_rep@[j]);
            } else if !before.dependencies@.all_names().contains(name) {
                assert(after.all_projects_rep@[i].dependencies@.all_names().contains(name));
            }
        }
    }
    assert(unreferenced_after =~= unreferenced_before);
}

/// Once the workspace itself has dropped `names`, the names that nothing
/// declares are those that `workspace_orphans` gives.
pub proof fn lemma_workspace_removal_candidates(
    before: &EsteemWorkspace,
    after: &EsteemWorkspace,
    names: Seq<Seq<char>>,
)
    requires
        before.replaced_workspace_dependencies(after),
        before.dependencies@.names_removed(after.dependencies@, names),
    ensures
        after.removal_candidates(names) == before.workspace_orphans(names),
{
    let unreferenced_after = |name: Seq<char>| !after.references(name);
    let unreferenced_before = |name: Seq<char>| !before.references_after_workspace_removal(names, name);
    assert forall|name: Seq<char>| #[trigger] unreferenced_after(name) == unreferenced_before(name) by {
        if after.references(name) && !after.dependencies@.all_names().contains(name) {
            let j = choose|j: int|
                0 <= j < after.all_projects_rep@.len()
                    && (#[trigger] after.all_projects_rep@[j]).dependencies@.all_names().contains(name);
            assert(before.all_projects_rep@[j] == after.all_projects_rep@[j]);
        }
        if before.references_after_workspace_removal(names, name)
            && !before.dependencies@.all_names().contains(name) {
            let j = choose|j: int|
                0 <= j < before.all_projects_rep@.len()
                    && (#[trigger] before.all_projects_rep@[j]).dependencies@.all_names().contains(name);
            assert(before.all_projects_rep@[j] == after.all_projects_rep@[j]);
        }
    }
    assert(unreferenced_after =~= unreferenced_before);
}

} // verus!
