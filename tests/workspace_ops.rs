use esteem::cli::{
    get_all_project_names, perform_add, perform_init, perform_remove, perform_workspace_add,
    perform_workspace_remove,
};
use esteem::dependencies::EsteemDependencies;
use esteem::managers::ManagerKind;
use esteem::workspace::{EsteemProject, EsteemWorkspace};
use esteem::LibraryError;

fn strings(items: &[&str]) -> Vec<String> {
    items.iter().map(|s| s.to_string()).collect()
}

fn project(name: &str, required: &[&str], development: &[&str]) -> EsteemProject {
    EsteemProject {
        name: name.to_string(),
        description_file_path: format!("/repo/{name}/project.json"),
        dependencies: EsteemDependencies::from_lists(&strings(required), &strings(development)),
        other: vec![("root".to_string(), format!("\"{name}\""))],
    }
}

fn workspace(projects: Vec<EsteemProject>, required: &[&str], development: &[&str]) -> EsteemWorkspace {
    EsteemWorkspace {
        path: "/repo/workspace.json".to_string(),
        projects: projects
            .iter()
            .map(|p| (p.name.clone(), format!("./{}", p.name)))
            .collect(),
        all_projects_rep: projects,
        dependencies: EsteemDependencies::from_lists(&strings(required), &strings(development)),
        other: vec![],
    }
}

#[test]
fn add_to_project_without_manager_call() {
    let mut ws = workspace(vec![project("api", &["lodash"], &[])], &[], &[]);
    let r = perform_add(&mut ws, "api".to_string(), strings(&["chalk"]), false, true, &strings(&[]));
    assert!(matches!(r, Ok(None)));
    assert_eq!(
        ws.all_projects_rep[0].dependencies.required_list(),
        strings(&["chalk", "lodash"])
    );
    assert!(ws.all_projects_rep[0].dependencies.development_list().is_empty());
}

#[test]
fn remove_of_undeclared_name_aborts() {
    let mut ws = workspace(vec![project("api", &["lodash"], &[])], &[], &[]);
    let r = perform_remove(&mut ws, "api".to_string(), strings(&["left-pad"]), &strings(&["yarn.lock"]));
    assert_eq!(r.err(), Some(LibraryError::NotFound));
    assert_eq!(ws.all_projects_rep[0].dependencies.required_list(), strings(&["lodash"]));
}

#[test]
fn add_to_unknown_project_is_not_found() {
    let mut ws = workspace(vec![project("api", &[], &[])], &[], &[]);
    let r = perform_add(&mut ws, "web".to_string(), strings(&["chalk"]), false, true, &strings(&[]));
    assert_eq!(r.err(), Some(LibraryError::NotFound));
}

#[test]
fn add_without_lock_file_aborts_before_change() {
    let mut ws = workspace(vec![project("api", &["lodash"], &[])], &[], &[]);
    let r = perform_add(&mut ws, "api".to_string(), strings(&["chalk"]), false, false, &strings(&["README.md"]));
    assert_eq!(r.err(), Some(LibraryError::NoPackageManagerDetected));
    assert_eq!(ws.all_projects_rep[0].dependencies.required_list(), strings(&["lodash"]));
}

#[test]
fn add_development_with_yarn_builds_command() {
    let mut ws = workspace(vec![project("api", &[], &[])], &[], &[]);
    let r = perform_add(
        &mut ws,
        "api".to_string(),
        strings(&["jest", "eslint"]),
        true,
        false,
        &strings(&["src", "yarn.lock"]),
    );
    let c = r.unwrap().unwrap();
    assert_eq!(c.package_manager.kind, ManagerKind::Yarn);
    assert_eq!(c.command_to_execute, strings(&["add", "--dev", "jest", "eslint"]));
    let (program, args) = c.command_invocation();
    assert_eq!(program, "yarn");
    assert_eq!(args, strings(&["add", "--dev", "jest", "eslint"]));
    assert_eq!(
        ws.all_projects_rep[0].dependencies.development_list(),
        strings(&["eslint", "jest"])
    );
}

#[test]
fn shared_dependency_is_not_uninstalled() {
    let mut ws = workspace(
        vec![project("a", &["x"], &[]), project("b", &["x"], &[])],
        &[],
        &[],
    );
    let r = perform_remove(&mut ws, "a".to_string(), strings(&["x"]), &strings(&["package-lock.json"]));
    assert!(matches!(r, Ok(None)));
    assert!(ws.all_projects_rep[0].dependencies.required_list().is_empty());
    assert!(ws.is_dependency_present("x"));
}

#[test]
fn orphan_is_uninstalled_on_last_removal() {
    let mut ws = workspace(
        vec![project("a", &["x"], &[]), project("b", &[], &["x"])],
        &[],
        &[],
    );
    let lock = strings(&["package-lock.json"]);
    let first = perform_remove(&mut ws, "a".to_string(), strings(&["x"]), &lock);
    assert!(matches!(first, Ok(None)));
    let second = perform_remove(&mut ws, "b".to_string(), strings(&["x"]), &lock).unwrap().unwrap();
    assert_eq!(second.command_to_execute, strings(&["uninstall", "x"]));
    assert_eq!(second.command_invocation().0, "npm");
    assert!(!ws.is_dependency_present("x"));
}

#[test]
fn workspace_dependency_keeps_package() {
    let mut ws = workspace(vec![project("a", &["x", "y"], &[])], &["x"], &[]);
    let c = perform_remove(&mut ws, "a".to_string(), strings(&["x", "y"]), &strings(&["pnpm-lock.yaml"]))
        .unwrap()
        .unwrap();
    assert_eq!(c.command_to_execute, strings(&["remove", "y"]));
    assert_eq!(c.command_invocation().0, "pnpm");
}

#[test]
fn remove_without_lock_file_restores_project() {
    let mut ws = workspace(vec![project("a", &["x"], &[])], &[], &[]);
    let r = perform_remove(&mut ws, "a".to_string(), strings(&["x"]), &strings(&[]));
    assert_eq!(r.err(), Some(LibraryError::NoPackageManagerDetected));
    assert_eq!(ws.all_projects_rep[0].dependencies.required_list(), strings(&["x"]));
}

#[test]
fn workspace_add_and_remove() {
    let mut ws = workspace(vec![project("a", &["x"], &[])], &[], &[]);
    let added = perform_workspace_add(&mut ws, strings(&["typescript", "x"]), true, true, &strings(&[]));
    assert!(matches!(added, Ok(None)));
    assert_eq!(ws.dependencies.development_list(), strings(&["typescript", "x"]));
    let removed = perform_workspace_remove(&mut ws, strings(&["x", "typescript"]), &strings(&["yarn.lock"]))
        .unwrap()
        .unwrap();
    assert_eq!(removed.command_to_execute, strings(&["remove", "typescript"]));
    assert!(ws.dependencies.development_list().is_empty());
}

#[test]
fn workspace_remove_of_absent_name() {
    let mut ws = workspace(vec![], &["x"], &[]);
    let r = perform_workspace_remove(&mut ws, strings(&["y"]), &strings(&["yarn.lock"]));
    assert_eq!(r.err(), Some(LibraryError::NotFound));
    assert_eq!(ws.dependencies.required_list(), strings(&["x"]));
}

#[test]
fn workspace_add_needs_manager() {
    let mut ws = workspace(vec![], &[], &[]);
    let r = perform_workspace_add(&mut ws, strings(&["x"]), false, false, &strings(&[]));
    assert_eq!(r.err(), Some(LibraryError::NoPackageManagerDetected));
    assert!(ws.dependencies.required_list().is_empty());
    let r = perform_workspace_add(&mut ws, strings(&["x"]), false, false, &strings(&["package-lock.json"]));
    assert_eq!(r.unwrap().unwrap().command_to_execute, strings(&["install", "x"]));
}

#[test]
fn dependencies_to_remove_filters_referenced() {
    let ws = workspace(vec![project("a", &["x"], &["d"])], &["w"], &[]);
    assert_eq!(
        ws.get_dependencies_to_remove(strings(&["x", "q", "w", "d", "r"])),
        strings(&["q", "r"])
    );
    let mut all = ws.get_all_dependencies();
    all.sort();
    assert_eq!(all, strings(&["d", "w", "x"]));
}

#[test]
fn find_project_and_names() {
    let ws = workspace(vec![project("a", &[], &[]), project("b", &[], &[])], &[], &[]);
    assert_eq!(ws.find_project(&"b".to_string()), Ok(1));
    assert_eq!(ws.find_project(&"c".to_string()), Err(LibraryError::NotFound));
    assert_eq!(get_all_project_names(&Ok(ws)), strings(&["a", "b"]));
    assert!(get_all_project_names(&Err(LibraryError::NotFound)).is_empty());
}

#[test]
fn init_lists_declaration_files() {
    let ws = workspace(vec![project("a", &[], &[]), project("b", &[], &[])], &[], &[]);
    let contents = perform_init(&ws);
    let paths: Vec<String> = contents.iter().map(|c| c.path.clone()).collect();
    assert_eq!(
        paths,
        strings(&["/repo/workspace.json", "/repo/a/project.json", "/repo/b/project.json"])
    );
}

#[test]
fn init_writes_sorted_arrays() {
    let ws = workspace(vec![project("a", &["zod", "chalk", "zod"], &["jest"])], &["b", "a"], &[]);
    let contents = perform_init(&ws);
    assert_eq!(contents[0].required, strings(&["a", "b"]));
    assert!(contents[0].development.is_empty());
    assert_eq!(contents[1].required, strings(&["chalk", "zod"]));
    assert_eq!(contents[1].development, strings(&["jest"]));
    let reloaded = EsteemDependencies::from_lists(&contents[1].required, &contents[1].development);
    assert_eq!(reloaded.required_list(), contents[1].required);
}
