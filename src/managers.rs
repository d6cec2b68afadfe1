//! The package managers this library drives, how the one in use is found
//! from the lock file beside the workspace, and the command lines given to it.
use vstd::prelude::*;

use crate::dependencies::{copy_strings, names_of};
use crate::LibraryError;

verus! {

/// The package managers that can be detected.
#[derive(Debug, Clone, Copy, PartialEq, Eq, Structural)]
pub enum ManagerKind {
    Npm,
    Pnpm,
    Yarn,
}

pub open spec fn install_word(kind: ManagerKind) -> Seq<char> {
    match kind {
        ManagerKind::Yarn => "add"@,
        _ => "install"@,
    }
}

pub open spec fn remove_word(kind: ManagerKind) -> Seq<char> {
    match kind {
        ManagerKind::Npm => "uninstall"@,
        _ => "remove"@,
    }
}

pub open spec fn development_flag_word(kind: ManagerKind) -> Seq<char> {
    match kind {
        ManagerKind::Yarn => "--dev"@,
        _ => "--save-dev"@,
    }
}

pub open spec fn script_executor_word(kind: ManagerKind) -> Seq<char> {
    match kind {
        ManagerKind::Npm => "npx"@,
        ManagerKind::Pnpm => "pnpm"@,
        ManagerKind::Yarn => "yarn"@,
    }
}

pub open spec fn command_executor_word(kind: ManagerKind) -> Seq<char> {
    match kind {
        ManagerKind::Npm => "npm"@,
        ManagerKind::Pnpm => "pnpm"@,
        ManagerKind::Yarn => "yarn"@,
    }
}

/// The manager whose lock file is named `name`, if any.
pub open spec fn lockfile_kind(name: Seq<char>) -> Option<ManagerKind> {
    if name == "yarn.lock"@ {
        Some(ManagerKind::Yarn)
    } else if name == "pnpm-lock.yaml"@ {
        Some(ManagerKind::Pnpm)
    } else if name == "package-lock.json"@ {
        Some(ManagerKind::Npm)
    } else {
        None
    }
}

/// The manager of the first lock file among the directory entries `names`.
pub open spec fn detected_manager(names: Seq<Seq<char>>) -> Option<ManagerKind>
    decreases names.len(),
{
    if names.len() == 0 {
        None
    } else {
        match lockfile_kind(names[0]) {
            Some(kind) => Some(kind),
            None => detected_manager(names.drop_first()),
        }
    }
}

/// How one package manager is called.
#[derive(Debug)]
pub struct PackageManager {
    /// which manager this is
    pub kind: ManagerKind,
    /// the installation subcommand
    pub install: String,
    /// the removal subcommand
    pub remove: String,
    /// the program that runs scripts
    pub script_executor: String,
    /// the program that runs the manager's own commands
    pub command_executor: String,
    /// the flag that marks an addition as a development dependency
    pub development_flag: String,
}

impl PackageManager {
    /// Each field holds the word of its kind of manager.
    pub open spec fn wf(&self) -> bool {
        &&& self.install@ == install_word(self.kind)
        &&& self.remove@ == remove_word(self.kind)
        &&& self.script_executor@ == script_executor_word(self.kind)
        &&& self.command_executor@ == command_executor_word(self.kind)
        &&& self.development_flag@ == development_flag_word(self.kind)
    }

    /// The profile of the manager `kind`.
    pub fn for_kind(kind: ManagerKind) -> (r: Self)
        ensures
            r.kind == kind,
            r.wf(),
    {
        match kind {
            ManagerKind::Npm => PackageManager {
                kind,
                install: "install".to_owned(),
                remove: "uninstall".to_owned(),
                script_executor: "npx".to_owned(),
                command_executor: "npm".to_owned(),
                development_flag: "--save-dev".to_owned(),
            },
            ManagerKind::Pnpm => PackageManager {
                kind,
                install: "install".to_owned(),
                remove: "remove".to_owned(),
                script_executor: "pnpm".to_owned(),
                command_executor: "pnpm".to_owned(),
                development_flag: "--save-dev".to_owned(),
            },
            ManagerKind::Yarn => PackageManager {
                kind,
                install: "add".to_owned(),
                remove: "remove".to_owned(),
                script_executor: "yarn".to_owned(),
                command_executor: "yarn".to_owned(),
                development_flag: "--dev".to_owned(),
            },
        }
    }

    /// The manager whose lock file comes first among the entries of the
    /// working directory, if any.
    pub fn detect(dir_entries: &Vec<String>) -> (r: Option<ManagerKind>)
        ensures
            r == detected_manager(names_of(dir_entries@)),
    {
        let ghost names = names_of(dir_entries@);
        let yarn = "yarn.lock".to_owned();
        let pnpm = "pnpm-lock.yaml".to_owned();
        let npm = "package-lock.json".to_owned();
        let mut i: usize = 0;
        proof {
            assert(names.skip(0) =~= names);
        }
        while i < dir_entries.len()
            invariant
                names == names_of(dir_entries@),
                i <= names.len(),
                detected_manager(names) == detected_manager(names.skip(i as int)),
                yarn@ == "yarn.lock"@,
                pnpm@ == "pnpm-lock.yaml"@,
                npm@ == "package-lock.json"@,
            decreases names.len() - i,
        {
            let entry = &dir_entries[i];
            proof {
                assert(names.skip(i as int)[0] == entry@);
                assert(names.skip(i as int).drop_first() =~= names.skip(i + 1));
            }
            if *entry == yarn {
                return Some(ManagerKind::Yarn);
            } else if *entry == pnpm {
                return Some(ManagerKind::Pnpm);
            } else if *entry == npm {
                return Some(ManagerKind::Npm);
            }
            i = i + 1;
        }
        None
    }

    /// A command executor for the detected manager, with an empty command
    /// line; `NoPackageManagerDetected` where no lock file is there.
    pub fn get_command_executor(call_script_executor: bool, dir_entries: &Vec<String>) -> (r: Result<
        CommandExecutor,
        LibraryError,
    >)
        ensures
            match detected_manager(names_of(dir_entries@)) {
                Some(kind) => r matches Ok(c) && c.package_manager.kind == kind
                    && c.package_manager.wf() && c.command_to_execute@.len() == 0
                    && c.call_script_executor == call_script_executor,
                None => r == Err::<CommandExecutor, LibraryError>(
                    LibraryError::NoPackageManagerDetected,
                ),
            },
    {
        match PackageManager::detect(dir_entries) {
            Some(kind) => Ok(CommandExecutor::new(call_script_executor, PackageManager::for_kind(kind))),
            None => Err(LibraryError::NoPackageManagerDetected),
        }
    }
}

/// A command line under construction for a package manager.
#[derive(Debug)]
pub struct CommandExecutor {
    /// the arguments of the command
    pub command_to_execute: Vec<String>,
    /// whether to run the command through the manager's script runner
    pub call_script_executor: bool,
    /// the manager the command is for
    pub package_manager: PackageManager,
}

impl CommandExecutor {
    /// `after` holds the command of `self` with `args` appended, and the
    /// rest unchanged.
    pub open spec fn extended(&self, after: &CommandExecutor, args: Seq<Seq<char>>) -> bool {
        &&& names_of(after.command_to_execute@) == names_of(self.command_to_execute@) + args
        &&& after.call_script_executor == self.call_script_executor
        &&& after.package_manager == self.package_manager
    }

    fn new(call_script_executor: bool, package_manager: PackageManager) -> (r: Self)
        ensures
            r.command_to_execute@.len() == 0,
            r.call_script_executor == call_script_executor,
            r.package_manager == package_manager,
    {
        CommandExecutor { command_to_execute: Vec::new(), call_script_executor, package_manager }
    }

    fn push_argument(&mut self, arg: String)
        ensures
            old(self).extended(final(self), seq![arg@]),
    {
        let ghost before = self.command_to_execute@;
        self.command_to_execute.push(arg);
        proof {
            before.lemma_push_map_commute(|s: String| s@, arg);
            assert(names_of(before).push(arg@) =~= names_of(before) + seq![arg@]);
        }
    }

    fn push_dependencies_args(&mut self, to_add: Vec<String>)
        ensures
            old(self).extended(final(self), names_of(to_add@)),
    {
        let mut to_add = to_add;
        let ghost before = self.command_to_execute@;
        let ghost added = to_add@;
        self.command_to_execute.append(&mut to_add);
        proof {
            assert(names_of(self.command_to_execute@) =~= names_of(before) + names_of(added));
        }
    }

    fn start_install_command(&mut self)
        ensures
            old(self).extended(final(self), seq![old(self).package_manager.install@]),
    {
        let install = self.package_manager.install.clone();
        self.push_argument(install);
    }

    /// Appends the installation subcommand and the names to add.
    pub fn add_required_dependencies(&mut self, to_add: Vec<String>)
        ensures
            old(self).extended(
                final(self),
                seq![old(self).package_manager.install@] + names_of(to_add@),
            ),
    {
        self.start_install_command();
        self.push_dependencies_args(to_add);
        proof {
            assert(names_of(self.command_to_execute@) =~= names_of(old(self).command_to_execute@) + (
            seq![old(self).package_manager.install@] + names_of(to_add@)));
        }
    }

    /// Appends the installation subcommand, the development flag and the
    /// names to add.
    pub fn add_development_dependencies(&mut self, to_add: Vec<String>)
        ensures
            old(self).extended(
                final(self),
                seq![old(self).package_manager.install@, old(self).package_manager.development_flag@]
                    + names_of(to_add@),
            ),
    {
        self.start_install_command();
        let flag = self.package_manager.development_flag.clone();
        self.push_argument(flag);
        self.push_dependencies_args(to_add);
        proof {
            assert(names_of(self.command_to_execute@) =~= names_of(old(self).command_to_execute@) + (
            seq![old(self).package_manager.install@, old(self).package_manager.development_flag@]
                + names_of(to_add@)));
        }
    }

    /// Appends the installation of `to_add`, as development dependencies or
    /// as required ones.
    pub fn add_dependencies(&mut self, to_add: Vec<String>, is_development: bool)
        ensures
            old(self).extended(final(self), install_args(&old(self).package_manager, names_of(to_add@), is_development)),
    {
        if is_development {
            self.add_development_dependencies(to_add);
        } else {
            self.add_required_dependencies(to_add);
        }
    }

    /// Appends the removal subcommand and the names to remove; with no names
    /// the command stays as it is.
    pub fn remove_dependencies(&mut self, to_remove: Vec<String>)
        ensures
            to_remove@.len() == 0 ==> final(self).command_to_execute@ == old(self).command_to_execute@
                && final(self).call_script_executor == old(self).call_script_executor
                && final(self).package_manager == old(self).package_manager,
            to_remove@.len() > 0 ==> old(self).extended(
                final(self),
                seq![old(self).package_manager.remove@] + names_of(to_remove@),
            ),
    {
        if to_remove.len() == 0 {
            return;
        }
        let remove = self.package_manager.remove.clone();
        self.push_argument(remove);
        self.push_dependencies_args(to_remove);
        proof {
            assert(names_of(self.command_to_execute@) =~= names_of(old(self).command_to_execute@) + (
            seq![old(self).package_manager.remove@] + names_of(to_remove@)));
        }
    }

    /// Appends the command that writes the project graph focused on
    /// `project_name` to `graph_file`.
    pub fn graph_dependencies(&mut self, project_name: &String, graph_file: String)
        ensures
            old(self).extended(
                final(self),
                seq!["nx"@, "graph"@, "--file"@, graph_file@, "--focus"@, project_name@],
            ),
    {
        let ghost before = names_of(self.command_to_execute@);
        self.push_argument("nx".to_owned());
        self.push_argument("graph".to_owned());
        self.push_argument("--file".to_owned());
        self.push_argument(graph_file);
        self.push_argument("--focus".to_owned());
        self.push_argument(project_name.clone());
        proof {
            assert(names_of(self.command_to_execute@) =~= before + seq![
                "nx"@,
                "graph"@,
                "--file"@,
                graph_file@,
                "--focus"@,
                project_name@,
            ]);
        }
    }

    /// The program and the arguments that run the command through the
    /// manager.
    pub fn command_invocation(&self) -> (r: (String, Vec<String>))
        ensures
            r.0@ == self.package_manager.command_executor@,
            names_of(r.1@) == names_of(self.command_to_execute@),
    {
        (self.package_manager.command_executor.clone(), copy_strings(&self.command_to_execute))
    }

    /// The program and the arguments that run the command as a script:
    /// through the script runner, or as a program of its own whose name is
    /// the first argument (`None` where there is none).
    pub fn script_invocation(&self) -> (r: Option<(String, Vec<String>)>)
        ensures
            self.call_script_executor ==> (r matches Some(p) && p.0@
                == self.package_manager.script_executor@ && names_of(p.1@) == names_of(
                self.command_to_execute@,
            )),
            !self.call_script_executor && self.command_to_execute@.len() == 0 ==> r is None,
            !self.call_script_executor && self.command_to_execute@.len() > 0 ==> (r matches Some(p)
                && p.0@ == self.command_to_execute@[0]@ && names_of(p.1@) == names_of(
                self.command_to_execute@,
            ).drop_first()),
    {
        if self.call_script_executor {
            Some((self.package_manager.script_executor.clone(), copy_strings(&self.command_to_execute)))
        } else if self.command_to_execute.len() == 0 {
            None
        } else {
            let mut args = copy_strings(&self.command_to_execute);
            let ghost all = args@;
            proof {
                assert(names_of(all).len() == all.len());
                assert(names_of(all)[0] == all[0]@);
            }
            let program = args.remove(0);
            proof {
                assert(names_of(args@) =~= names_of(self.command_to_execute@).drop_first());
            }
            Some((program, args))
        }
    }
}

/// The arguments that install `names` with the manager `pm`.
pub open spec fn install_args(pm: &PackageManager, names: Seq<Seq<char>>, is_development: bool) -> Seq<Seq<char>> {
    if is_development {
        seq![pm.install@, pm.development_flag@] + names
    } else {
        seq![pm.install@] + names
    }
}

} // verus!
