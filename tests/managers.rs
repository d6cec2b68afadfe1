use esteem::managers::{ManagerKind, PackageManager};
use esteem::LibraryError;

fn strings(items: &[&str]) -> Vec<String> {
    items.iter().map(|s| s.to_string()).collect()
}

#[test]
fn first_lock_file_decides() {
    assert_eq!(
        PackageManager::detect(&strings(&["src", "pnpm-lock.yaml", "yarn.lock"])),
        Some(ManagerKind::Pnpm)
    );
    assert_eq!(
        PackageManager::detect(&strings(&["package-lock.json", "yarn.lock"])),
        Some(ManagerKind::Npm)
    );
    assert_eq!(PackageManager::detect(&strings(&["yarn.lock"])), Some(ManagerKind::Yarn));
    assert_eq!(PackageManager::detect(&strings(&["yarn.lock.bak", "package.json"])), None);
    assert_eq!(PackageManager::detect(&strings(&[])), None);
}

#[test]
fn no_lock_file_is_an_error() {
    let r = PackageManager::get_command_executor(true, &strings(&["package.json"]));
    assert_eq!(r.err(), Some(LibraryError::NoPackageManagerDetected));
}

#[test]
fn manager_profiles() {
    let npm = PackageManager::for_kind(ManagerKind::Npm);
    assert_eq!(
        (npm.install.as_str(), npm.remove.as_str(), npm.script_executor.as_str(), npm.command_executor.as_str(), npm.development_flag.as_str()),
        ("install", "uninstall", "npx", "npm", "--save-dev")
    );
    let pnpm = PackageManager::for_kind(ManagerKind::Pnpm);
    assert_eq!(
        (pnpm.install.as_str(), pnpm.remove.as_str(), pnpm.script_executor.as_str(), pnpm.command_executor.as_str(), pnpm.development_flag.as_str()),
        ("install", "remove", "pnpm", "pnpm", "--save-dev")
    );
    let yarn = PackageManager::for_kind(ManagerKind::Yarn);
    assert_eq!(
        (yarn.install.as_str(), yarn.remove.as_str(), yarn.script_executor.as_str(), yarn.command_executor.as_str(), yarn.development_flag.as_str()),
        ("add", "remove", "yarn", "yarn", "--dev")
    );
}

#[test]
fn command_lines() {
    let mut c = PackageManager::get_command_executor(false, &strings(&["package-lock.json"])).unwrap();
    assert!(c.command_to_execute.is_empty());
    c.add_required_dependencies(strings(&["a", "b"]));
    assert_eq!(c.command_to_execute, strings(&["install", "a", "b"]));
    let mut d = PackageManager::get_command_executor(false, &strings(&["package-lock.json"])).unwrap();
    d.add_development_dependencies(strings(&["jest"]));
    assert_eq!(d.command_to_execute, strings(&["install", "--save-dev", "jest"]));
    let mut e = PackageManager::get_command_executor(false, &strings(&["yarn.lock"])).unwrap();
    e.remove_dependencies(strings(&["x"]));
    assert_eq!(e.command_to_execute, strings(&["remove", "x"]));
    let mut f = PackageManager::get_command_executor(false, &strings(&["yarn.lock"])).unwrap();
    f.add_dependencies(strings(&["y"]), false);
    assert_eq!(f.command_to_execute, strings(&["add", "y"]));
}

#[test]
fn graph_command_and_invocations() {
    let mut c = PackageManager::get_command_executor(true, &strings(&["package-lock.json"])).unwrap();
    c.graph_dependencies(&"api".to_string(), "/tmp/g.json".to_string());
    assert_eq!(
        c.command_to_execute,
        strings(&["nx", "graph", "--file", "/tmp/g.json", "--focus", "api"])
    );
    let (program, args) = c.script_invocation().unwrap();
    assert_eq!(program, "npx");
    assert_eq!(args.len(), 6);
    let mut direct = PackageManager::get_command_executor(false, &strings(&["package-lock.json"])).unwrap();
    assert!(direct.script_invocation().is_none());
    direct.graph_dependencies(&"api".to_string(), "/tmp/g.json".to_string());
    let (program, args) = direct.script_invocation().unwrap();
    assert_eq!(program, "nx");
    assert_eq!(args, strings(&["graph", "--file", "/tmp/g.json", "--focus", "api"]));
}

#[test]
fn removing_no_names_leaves_command_unchanged() {
    let mut c = PackageManager::get_command_executor(false, &strings(&["yarn.lock"])).unwrap();
    c.remove_dependencies(strings(&[]));
    assert!(c.command_to_execute.is_empty());
    c.remove_dependencies(strings(&["x"]));
    c.remove_dependencies(strings(&[]));
    assert_eq!(c.command_to_execute, strings(&["remove", "x"]));
}
