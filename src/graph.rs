//! The project graph written by the build tool: which projects are related
//! to the one it was focused on, and where their declaration files are.
use vstd::prelude::*;
use vstd::string::{StrSliceExecFns, StringExecFns};

use crate::dependencies::{copy_strings, names_of};
use crate::install_isolated::{entries_of, find_entry, lookup};
use crate::workspace::EsteemWorkspace;
use crate::LibraryError;

verus! {

/// The name of a project's declaration file.
pub const PROJECT_FILE: &'static str = "project.json";

/// The path of the declaration file in the directory `root`, as a path join
/// gives it.
pub open spec fn config_path(root: Seq<char>) -> Seq<char> {
    if root.len() == 0 {
        "project.json"@
    } else if root.last() == '/' {
        root + "project.json"@
    } else {
        root + "/project.json"@
    }
}

/// Whether the last character of `s` is a slash.
fn ends_with_slash(s: &str) -> (r: bool)
    ensures
        r == (s@.len() > 0 && s@.last() == '/'),
{
    let n = s.unicode_len();
    n > 0 && s.get_char(n - 1) == '/'
}

/// The path of the declaration file in the directory `root`.
pub fn project_config_path(root: &String) -> (r: String)
    ensures
        r@ == config_path(root@),
{
    let mut path = root.clone();
    if root.as_str().is_empty() {
        path.append(PROJECT_FILE);
    } else if ends_with_slash(root.as_str()) {
        path.append(PROJECT_FILE);
    } else {
        path.append("/");
        path.append(PROJECT_FILE);
        proof {
            assert(path@ =~= root@ + "/project.json"@) by {
                reveal_strlit("/project.json");
                reveal_strlit("project.json");
                reveal_strlit("/");
            }
        }
    }
    path
}

/// What the graph file holds: the projects related to the focused one, and
/// the root directory of each project.
pub struct NxProject {
    /// the names of the related projects
    pub dependencies: Vec<String>,
    /// each project's name with its root directory
    pub nodes: Vec<(String, String)>,
}

impl NxProject {
    /// The names of the related projects.
    pub fn get_project_dependencies(&self) -> (r: Vec<String>)
        ensures
            names_of(r@) == names_of(self.dependencies@),
    {
        copy_strings(&self.dependencies)
    }

    /// Each related project with the path of its declaration file;
    /// `Malformed` where the graph has no root for one of them.
    pub fn get_projects_with_config_path(&self) -> (r: Result<Vec<(String, String)>, LibraryError>)
        ensures
            r is Ok <==> forall|k: int|
                0 <= k < self.dependencies@.len() ==> (#[trigger] lookup(
                    entries_of(self.nodes@),
                    self.dependencies@[k]@,
                )) is Some,
            r is Err ==> r == Err::<Vec<(String, String)>, LibraryError>(LibraryError::Malformed),
            r matches Ok(v) ==> v@.len() == self.dependencies@.len() && forall|k: int|
                0 <= k < v@.len() ==> (#[trigger] v@[k]).0@ == self.dependencies@[k]@ && v@[k].1@
                    == config_path(lookup(entries_of(self.nodes@), self.dependencies@[k]@)->Some_0),
    {
        let mut r: Vec<(String, String)> = Vec::new();
        let mut i: usize = 0;
        while i < self.dependencies.len()
            invariant
                i <= self.dependencies@.len(),
                r@.len() == i,
                forall|k: int|
                    0 <= k < i ==> (#[trigger] lookup(entries_of(self.nodes@), self.dependencies@[k]@))
                        is Some,
                forall|k: int|
                    0 <= k < i ==> (#[trigger] r@[k]).0@ == self.dependencies@[k]@ && r@[k].1@
                        == config_path(lookup(entries_of(self.nodes@), self.dependencies@[k]@)->Some_0),
            decreases self.dependencies@.len() - i,
        {
            match find_entry(&self.nodes, &self.dependencies[i]) {
                Some(root) => {
                    let path = project_config_path(&root);
                    r.push((self.dependencies[i].clone(), path));
                },
                None => {
                    return Err(LibraryError::Malformed);
                },
            }
            i = i + 1;
        }
        Ok(r)
    }
}

/// The names of the projects related to the focused one, each checked to be
/// a project of the workspace; `NotFound` where one is not.
pub fn utils_get_dependencies(workspace: &EsteemWorkspace, graph: &NxProject) -> (r: Result<
    Vec<String>,
    LibraryError,
>)
    ensures
        r is Ok <==> forall|k: int|
            0 <= k < graph.dependencies@.len() ==> workspace.has_project(
                #[trigger] graph.dependencies@[k]@,
            ),
        r is Err ==> r == Err::<Vec<String>, LibraryError>(LibraryError::NotFound),
        r matches Ok(v) ==> names_of(v@) == names_of(graph.dependencies@),
{
    let names = graph.get_project_dependencies();
    proof {
        assert(names_of(names@).len() == names@.len());
        assert(names_of(graph.dependencies@).len() == graph.dependencies@.len());
    }
    let mut i: usize = 0;
    while i < names.len()
        invariant
            i <= names@.len(),
            names@.len() == graph.dependencies@.len(),
            names_of(names@) == names_of(graph.dependencies@),
            forall|k: int| 0 <= k < i ==> workspace.has_project(#[trigger] graph.dependencies@[k]@),
        decreases names@.len() - i,
    {
        proof {
            assert(names@[i as int]@ == names_of(names@)[i as int]);
            assert(names_of(graph.dependencies@)[i as int] == graph.dependencies@[i as int]@);
        }
        match workspace.find_project(&names[i]) {
            Ok(_) => {},
            Err(e) => return Err(e),
        }
        i = i + 1;
    }
    Ok(names)
}

} // verus!
