//! The operations on a loaded workspace: adding and removing dependencies of
//! a project or of the workspace itself. Each one changes the workspace in
//! memory and hands back the package manager command to run, if any; the
//! caller writes the changed declaration file and runs the command.
use vstd::prelude::*;

use crate::dependencies::{copy_strings, names_of, strictly_sorted, EsteemDependencies};
use crate::managers::{detected_manager, install_args, CommandExecutor, PackageManager};
use crate::workspace::{
    lemma_project_removal_candidates, lemma_wf_after_project_change,
    lemma_wf_after_workspace_change, lemma_wf_same_as, lemma_workspace_removal_candidates, EsteemProject,
    EsteemWorkspace,
};
use crate::LibraryError;

verus! {

/// The installation command for `to_add`, where a package manager is needed
/// and one is detected.
fn install_command(
    to_add: Vec<String>,
    is_development: bool,
    dir_entries: &Vec<String>,
) -> (r: Result<CommandExecutor, LibraryError>)
    ensures
        match detected_manager(names_of(dir_entries@)) {
            Some(kind) => r matches Ok(c) && c.package_manager.kind == kind
                && c.package_manager.wf() && c.call_script_executor && names_of(
                c.command_to_execute@,
            ) == install_args(&c.package_manager, names_of(to_add@), is_development),
            None => r == Err::<CommandExecutor, LibraryError>(
                LibraryError::NoPackageManagerDetected,
            ),
        },
{
    match PackageManager::get_command_executor(true, dir_entries) {
        Ok(mut c) => {
            c.add_dependencies(to_add, is_development);
            proof {
                assert(names_of(c.command_to_execute@) =~= install_args(
                    &c.package_manager,
                    names_of(to_add@),
                    is_development,
                ));
            }
            Ok(c)
        },
        Err(e) => Err(e),
    }
}

/// The removal command for `to_remove`.
fn remove_command(to_remove: Vec<String>, dir_entries: &Vec<String>) -> (r: Result<
    CommandExecutor,
    LibraryError,
>)
    requires
        to_remove@.len() > 0,
    ensures
        match detected_manager(names_of(dir_entries@)) {
            Some(kind) => r matches Ok(c) && c.package_manager.kind == kind
                && c.package_manager.wf() && c.call_script_executor && names_of(
                c.command_to_execute@,
            ) == seq![c.package_manager.remove@] + names_of(to_remove@),
            None => r == Err::<CommandExecutor, LibraryError>(
                LibraryError::NoPackageManagerDetected,
            ),
        },
{
    match PackageManager::get_command_executor(true, dir_entries) {
        Ok(mut c) => {
            c.remove_dependencies(to_remove);
            proof {
                assert(names_of(c.command_to_execute@) =~= seq![c.package_manager.remove@]
                    + names_of(to_remove@));
            }
            Ok(c)
        },
        Err(e) => Err(e),
    }
}

/// Adds `to_add` to the dependencies of the project `project_name`, as
/// development dependencies or as required ones, and gives the command that
/// installs them, unless `skip_package_manager`. `NotFound` where there is no
/// such project, `NoPackageManagerDetected` where a command is needed and
/// `dir_entries`, the entries of the working directory, hold no lock file;
/// on an error the workspace is left as it was.
pub fn perform_add(
    workspace: &mut EsteemWorkspace,
    project_name: String,
    to_add: Vec<String>,
    is_development: bool,
    skip_package_manager: bool,
    dir_entries: &Vec<String>,
) -> (r: Result<Option<CommandExecutor>, LibraryError>)
    requires
        old(workspace).wf(),
    ensures
        final(workspace).wf(),
        !old(workspace).has_project(project_name@) ==> r == Err::<
            Option<CommandExecutor>,
            LibraryError,
        >(LibraryError::NotFound),
        old(workspace).has_project(project_name@) && !skip_package_manager && detected_manager(
            names_of(dir_entries@),
        ) is None ==> r == Err::<Option<CommandExecutor>, LibraryError>(
            LibraryError::NoPackageManagerDetected,
        ),
        r is Ok <==> old(workspace).has_project(project_name@) && (skip_package_manager
            || detected_manager(names_of(dir_entries@)) is Some),
        r is Err ==> final(workspace).same_as(old(workspace)),
        forall|i: int|
            old(workspace).is_project_at(i, project_name@) && r is Ok ==> {
                &&& old(workspace).replaced_project_dependencies(final(workspace), i)
                &&& old(workspace).all_projects_rep@[i].dependencies@.names_added(
                    final(workspace).all_projects_rep@[i].dependencies@,
                    names_of(to_add@),
                    is_development,
                )
            },
        r matches Ok(c) ==> (c is None <==> skip_package_manager),
        r matches Ok(Some(c)) ==> {
            &&& detected_manager(names_of(dir_entries@)) == Some(c.package_manager.kind)
            &&& c.package_manager.wf()
            &&& c.call_script_executor
            &&& names_of(c.command_to_execute@) == install_args(
                &c.package_manager,
                names_of(to_add@),
                is_development,
            )
        },
{
    let i = match workspace.find_project(&project_name) {
        Ok(i) => i,
        Err(e) => return Err(e),
    };
    let ghost names = names_of(to_add@);
    let command = if skip_package_manager {
        None
    } else {
        let names_to_install = copy_strings(&to_add);
        match install_command(names_to_install, is_development, dir_entries) {
            Ok(c) => Some(c),
            Err(e) => return Err(e),
        }
    };
    let ghost before = workspace.all_projects_rep@;
    let mut project = workspace.all_projects_rep.remove(i);
    proof {
        assert(before[i as int] == project);
        assert(project.wf());
    }
    project.dependencies.add_all(&to_add, is_development);
    workspace.all_projects_rep.insert(i, project);
    proof {
        assert(workspace.all_projects_rep@ =~= before.update(i as int, project));
        lemma_wf_after_project_change(old(workspace), workspace, i as int);
    }
    Ok(command)
}

/// Adds `to_add` to the workspace's own dependencies, as development
/// dependencies or as required ones, and gives the command that installs
/// them, unless `skip_package_manager`. `NoPackageManagerDetected` where a
/// command is needed and `dir_entries` hold no lock file; on an error the
/// workspace is left as it was.
pub fn perform_workspace_add(
    workspace: &mut EsteemWorkspace,
    to_add: Vec<String>,
    is_development: bool,
    skip_package_manager: bool,
    dir_entries: &Vec<String>,
) -> (r: Result<Option<CommandExecutor>, LibraryError>)
    requires
        old(workspace).wf(),
    ensures
        final(workspace).wf(),
        r is Err <==> !skip_package_manager && detected_manager(names_of(dir_entries@)) is None,
        r is Err ==> r == Err::<Option<CommandExecutor>, LibraryError>(
            LibraryError::NoPackageManagerDetected,
        ) && final(workspace).same_as(old(workspace)),
        r is Ok ==> old(workspace).replaced_workspace_dependencies(final(workspace))
            && old(workspace).dependencies@.names_added(
            final(workspace).dependencies@,
            names_of(to_add@),
            is_development,
        ),
        r matches Ok(c) ==> (c is None <==> skip_package_manager),
        r matches Ok(Some(c)) ==> {
            &&& detected_manager(names_of(dir_entries@)) == Some(c.package_manager.kind)
            &&& c.package_manager.wf()
            &&& c.call_script_executor
            &&& names_of(c.command_to_execute@) == install_args(
                &c.package_manager,
                names_of(to_add@),
                is_development,
            )
        },
{
    let command = if skip_package_manager {
        None
    } else {
        let names_to_install = copy_strings(&to_add);
        match install_command(names_to_install, is_development, dir_entries) {
            Ok(c) => Some(c),
            Err(e) => return Err(e),
        }
    };
    workspace.dependencies.add_all(&to_add, is_development);
    proof {
        lemma_wf_after_workspace_change(old(workspace), workspace);
    }
    Ok(command)
}

/// Removes `to_remove` from the project `project_name`, from both of its
/// collections, and gives the command that uninstalls those of them that
/// nothing in the workspace declares any more (`None` where there are
/// none). `NotFound` where there is no such project, or where a name is in
/// neither collection by its turn; `NoPackageManagerDetected` where a
/// command is needed and `dir_entries` hold no lock file. On an error the
/// workspace is left as it was.
pub fn perform_remove(
    workspace: &mut EsteemWorkspace,
    project_name: String,
    to_remove: Vec<String>,
    dir_entries: &Vec<String>,
) -> (r: Result<Option<CommandExecutor>, LibraryError>)
    requires
        old(workspace).wf(),
    ensures
        final(workspace).wf(),
        !old(workspace).has_project(project_name@) ==> r == Err::<
            Option<CommandExecutor>,
            LibraryError,
        >(LibraryError::NotFound),
        r is Err ==> final(workspace).same_as(old(workspace)),
        forall|i: int|
            #![trigger old(workspace).is_project_at(i, project_name@)]
            old(workspace).is_project_at(i, project_name@) ==> {
                let names = names_of(to_remove@);
                let before = old(workspace).all_projects_rep@[i].dependencies@;
                let orphans = old(workspace).orphans(i, names);
                &&& !before.can_remove_all(names) ==> r == Err::<
                    Option<CommandExecutor>,
                    LibraryError,
                >(LibraryError::NotFound)
                &&& before.can_remove_all(names) && orphans.len() > 0 && detected_manager(
                    names_of(dir_entries@),
                ) is None ==> r == Err::<Option<CommandExecutor>, LibraryError>(
                    LibraryError::NoPackageManagerDetected,
                )
                &&& r is Ok <==> before.can_remove_all(names) && (orphans.len() == 0
                    || detected_manager(names_of(dir_entries@)) is Some)
                &&& r is Ok ==> old(workspace).replaced_project_dependencies(final(workspace), i)
                    && before.names_removed(final(workspace).all_projects_rep@[i].dependencies@, names)
                    && final(workspace).removal_candidates(names) == orphans
                &&& r matches Ok(c) ==> (c is None <==> orphans.len() == 0)
                &&& r matches Ok(Some(c)) ==> {
                    &&& detected_manager(names_of(dir_entries@)) == Some(c.package_manager.kind)
                    &&& c.package_manager.wf()
                    &&& c.call_script_executor
                    &&& names_of(c.command_to_execute@) == seq![c.package_manager.remove@]
                        + orphans
                }
            },
{
    let i = match workspace.find_project(&project_name) {
        Ok(i) => i,
        Err(e) => return Err(e),
    };
    let ghost names = names_of(to_remove@);
    let ghost projects_before = workspace.all_projects_rep@;
    proof {
        assert(workspace.all_projects_rep@[i as int].wf());
    }
    let mut updated = workspace.all_projects_rep[i].dependencies.duplicate();
    match updated.remove_all(&to_remove) {
        Ok(()) => {},
        Err(e) => return Err(e),
    }
    let mut project = workspace.all_projects_rep.remove(i);
    core::mem::swap(&mut project.dependencies, &mut updated);
    let saved = updated;
    workspace.all_projects_rep.insert(i, project);
    proof {
        assert(workspace.all_projects_rep@ =~= projects_before.update(i as int, project));
        lemma_wf_after_project_change(old(workspace), workspace, i as int);
        lemma_project_removal_candidates(old(workspace), workspace, i as int, names);
    }
    let candidates = workspace.get_dependencies_to_remove(copy_strings(&to_remove));
    if candidates.len() == 0 {
        return Ok(None);
    }
    match remove_command(candidates, dir_entries) {
        Ok(c) => Ok(Some(c)),
        Err(e) => {
            let ghost changed = workspace.all_projects_rep@;
            let mut project = workspace.all_projects_rep.remove(i);
            project.dependencies = saved;
            workspace.all_projects_rep.insert(i, project);
            proof {
                assert(workspace.all_projects_rep@ =~= projects_before);
                lemma_wf_same_as(old(workspace), workspace);
            }
            Err(e)
        },
    }
}

/// Removes `to_remove` from the workspace's own dependencies, from both
/// collections, and gives the command that uninstalls those of them that
/// nothing declares any more (`None` where there are none). `NotFound` where
/// a name is in neither collection by its turn; `NoPackageManagerDetected`
/// where a command is needed and `dir_entries` hold no lock file. On an
/// error the workspace is left as it was.
pub fn perform_workspace_remove(
    workspace: &mut EsteemWorkspace,
    to_remove: Vec<String>,
    dir_entries: &Vec<String>,
) -> (r: Result<Option<CommandExecutor>, LibraryError>)
    requires
        old(workspace).wf(),
    ensures
        final(workspace).wf(),
        ({
            let names = names_of(to_remove@);
            let before = old(workspace).dependencies@;
            let orphans = old(workspace).workspace_orphans(names);
            &&& !before.can_remove_all(names) ==> r == Err::<Option<CommandExecutor>, LibraryError>(
                LibraryError::NotFound,
            )
            &&& before.can_remove_all(names) && orphans.len() > 0 && detected_manager(
                names_of(dir_entries@),
            ) is None ==> r == Err::<Option<CommandExecutor>, LibraryError>(
                LibraryError::NoPackageManagerDetected,
            )
            &&& r is Ok <==> before.can_remove_all(names) && (orphans.len() == 0 || detected_manager(
                names_of(dir_entries@),
            ) is Some)
            &&& r is Err ==> final(workspace).same_as(old(workspace))
            &&& r is Ok ==> old(workspace).replaced_workspace_dependencies(final(workspace))
                && before.names_removed(final(workspace).dependencies@, names)
                && final(workspace).removal_candidates(names) == orphans
            &&& r matches Ok(c) ==> (c is None <==> orphans.len() == 0)
            &&& r matches Ok(Some(c)) ==> {
                &&& detected_manager(names_of(dir_entries@)) == Some(c.package_manager.kind)
                &&& c.package_manager.wf()
                &&& c.call_script_executor
                &&& names_of(c.command_to_execute@) == seq![c.package_manager.remove@] + orphans
            }
        }),
{
    let ghost names = names_of(to_remove@);
    let mut updated = workspace.dependencies.duplicate();
    match updated.remove_all(&to_remove) {
        Ok(()) => {},
        Err(e) => return Err(e),
    }
    core::mem::swap(&mut workspace.dependencies, &mut updated);
    let saved = updated;
    proof {
        lemma_workspace_removal_candidates(old(workspace), workspace, names);
        lemma_wf_after_workspace_change(old(workspace), workspace);
    }
    let candidates = workspace.get_dependencies_to_remove(copy_strings(&to_remove));
    if candidates.len() == 0 {
        return Ok(None);
    }
    match remove_command(candidates, dir_entries) {
        Ok(c) => Ok(Some(c)),
        Err(e) => {
            workspace.dependencies = saved;
            Err(e)
        },
    }
}

/// What initialization writes into one declaration file: its path and its
/// two dependency arrays.
pub struct DeclarationContents {
    pub path: String,
    pub required: Vec<String>,
    pub development: Vec<String>,
}

/// The canonical dependency arrays of `path` for the set `d`.
fn contents_of(path: &String, d: &EsteemDependencies) -> (r: DeclarationContents)
    ensures
        r.path@ == path@,
        names_of(r.required@) == d@.required,
        names_of(r.development@) == d@.development,
{
    DeclarationContents {
        path: path.clone(),
        required: d.required_list(),
        development: d.development_list(),
    }
}

/// The declaration files that initialization writes back, in canonical
/// form: the workspace descriptor first, then each project's file in order.
/// Each array written is the loaded set, sorted and without repeats, so
/// loading the files again gives back the same sets (`lemma_round_trip`).
pub fn perform_init(workspace: &EsteemWorkspace) -> (r: Vec<DeclarationContents>)
    requires
        workspace.wf(),
    ensures
        r@.len() == workspace.all_projects_rep@.len() + 1,
        r@[0].path@ == workspace.path@,
        names_of(r@[0].required@) == workspace.dependencies@.required,
        names_of(r@[0].development@) == workspace.dependencies@.development,
        forall|k: int|
            0 <= k < workspace.all_projects_rep@.len() ==> {
                let p = #[trigger] workspace.all_projects_rep@[k];
                &&& r@[k + 1].path@ == p.description_file_path@
                &&& names_of(r@[k + 1].required@) == p.dependencies@.required
                &&& names_of(r@[k + 1].development@) == p.dependencies@.development
            },
        forall|k: int|
            0 <= k < r@.len() ==> strictly_sorted(names_of((#[trigger] r@[k]).required@))
                && strictly_sorted(names_of(r@[k].development@)),
{
    let mut r: Vec<DeclarationContents> = Vec::new();
    r.push(contents_of(&workspace.path, &workspace.dependencies));
    let mut i: usize = 0;
    while i < workspace.all_projects_rep.len()
        invariant
            workspace.wf(),
            i <= workspace.all_projects_rep@.len(),
            r@.len() == i + 1,
            r@[0].path@ == workspace.path@,
            names_of(r@[0].required@) == workspace.dependencies@.required,
            names_of(r@[0].development@) == workspace.dependencies@.development,
            forall|k: int|
                0 <= k < i ==> {
                    let p = #[trigger] workspace.all_projects_rep@[k];
                    &&& r@[k + 1].path@ == p.description_file_path@
                    &&& names_of(r@[k + 1].required@) == p.dependencies@.required
                    &&& names_of(r@[k + 1].development@) == p.dependencies@.development
                },
        decreases workspace.all_projects_rep@.len() - i,
    {
        let p = &workspace.all_projects_rep[i];
        r.push(contents_of(&p.description_file_path, &p.dependencies));
        i = i + 1;
    }
    proof {
        assert forall|k: int|
            0 <= k < r@.len() implies strictly_sorted(names_of((#[trigger] r@[k]).required@))
                && strictly_sorted(names_of(r@[k].development@)) by {
            if k > 0 {
                assert(workspace.all_projects_rep@[k - 1].wf());
            }
        }
    }
    r
}

/// The names in the project table of the workspace, if it could be loaded;
/// none otherwise.
pub fn get_all_project_names(workspace: &Result<EsteemWorkspace, LibraryError>) -> (r: Vec<String>)
    ensures
        match workspace {
            Ok(w) => names_of(r@) == w.projects@.map_values(|e: (String, String)| e.0@),
            Err(_) => r@.len() == 0,
        },
{
    match workspace {
        Ok(w) => w.project_names(),
        Err(_) => Vec::new(),
    }
}

} // verus!
