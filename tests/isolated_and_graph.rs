use esteem::dependencies::EsteemDependencies;
use esteem::graph::{project_config_path, utils_get_dependencies, NxProject};
use esteem::install_isolated::{perform_install_isolated, Manifest};
use esteem::workspace::{EsteemProject, EsteemWorkspace};
use esteem::LibraryError;

fn strings(items: &[&str]) -> Vec<String> {
    items.iter().map(|s| s.to_string()).collect()
}

fn pairs(items: &[(&str, &str)]) -> Vec<(String, String)> {
    items.iter().map(|(a, b)| (a.to_string(), b.to_string())).collect()
}

fn project(name: &str, required: &[&str], development: &[&str]) -> EsteemProject {
    EsteemProject {
        name: name.to_string(),
        description_file_path: format!("/repo/{name}/project.json"),
        dependencies: EsteemDependencies::from_lists(&strings(required), &strings(development)),
        other: vec![],
    }
}

fn sample_workspace() -> EsteemWorkspace {
    let projects = vec![
        project("api", &["express", "lodash"], &["jest"]),
        project("web", &["react"], &["vite"]),
    ];
    EsteemWorkspace {
        path: "/repo/workspace.json".to_string(),
        projects: pairs(&[("api", "./api"), ("web", "./web")]),
        all_projects_rep: projects,
        dependencies: EsteemDependencies::from_lists(&strings(&["tslib"]), &strings(&["typescript"])),
        other: vec![],
    }
}

fn sample_manifest() -> Manifest {
    Manifest {
        dependencies: pairs(&[
            ("express", "^4.18.0"),
            ("lodash", "^4.17.21"),
            ("react", "^18.2.0"),
            ("tslib", "^2.6.0"),
        ]),
        dev_dependencies: pairs(&[("jest", "^29.0.0"), ("typescript", "^5.0.0"), ("vite", "^5.0.0")]),
    }
}

#[test]
fn isolated_manifest_keeps_only_targets() {
    let m = perform_install_isolated(&sample_workspace(), &strings(&["api"]), &sample_manifest()).unwrap();
    assert_eq!(
        m.dependencies,
        pairs(&[("express", "^4.18.0"), ("lodash", "^4.17.21"), ("tslib", "^2.6.0")])
    );
    assert_eq!(m.dev_dependencies, pairs(&[("jest", "^29.0.0"), ("typescript", "^5.0.0")]));
}

#[test]
fn isolated_manifest_of_several_projects() {
    let m = perform_install_isolated(&sample_workspace(), &strings(&["web", "api", "web"]), &sample_manifest())
        .unwrap();
    assert_eq!(
        m.dependencies,
        pairs(&[
            ("express", "^4.18.0"),
            ("lodash", "^4.17.21"),
            ("react", "^18.2.0"),
            ("tslib", "^2.6.0"),
        ])
    );
    assert_eq!(
        m.dev_dependencies,
        pairs(&[("jest", "^29.0.0"), ("typescript", "^5.0.0"), ("vite", "^5.0.0")])
    );
}

#[test]
fn isolated_manifest_missing_version_is_fatal() {
    let mut manifest = sample_manifest();
    manifest.dependencies.retain(|(name, _)| name != "lodash");
    let r = perform_install_isolated(&sample_workspace(), &strings(&["api"]), &manifest);
    assert_eq!(r.err(), Some(LibraryError::ManifestInconsistency));
}

#[test]
fn isolated_manifest_unknown_project() {
    let r = perform_install_isolated(&sample_workspace(), &strings(&["cli"]), &sample_manifest());
    assert_eq!(r.err(), Some(LibraryError::NotFound));
}

#[test]
fn development_version_wins() {
    let manifest = Manifest {
        dependencies: pairs(&[("tslib", "1.0.0"), ("typescript", "4.0.0")]),
        dev_dependencies: pairs(&[("typescript", "5.0.0"), ("tslib", "2.0.0")]),
    };
    let ws = sample_workspace();
    assert_eq!(manifest.version(&"tslib".to_string()), Some("2.0.0".to_string()));
    assert_eq!(manifest.version(&"none".to_string()), None);
    let m = perform_install_isolated(&ws, &strings(&[]), &manifest).unwrap();
    assert_eq!(m.dependencies, pairs(&[("tslib", "2.0.0")]));
    assert_eq!(m.dev_dependencies, pairs(&[("typescript", "5.0.0")]));
}

#[test]
fn config_path_joins_root() {
    assert_eq!(project_config_path(&"apps/api".to_string()), "apps/api/project.json");
    assert_eq!(project_config_path(&"apps/api/".to_string()), "apps/api/project.json");
    assert_eq!(project_config_path(&"".to_string()), "project.json");
}

#[test]
fn graph_paths_and_names() {
    let graph = NxProject {
        dependencies: strings(&["web", "api"]),
        nodes: pairs(&[("api", "apps/api"), ("web", "apps/web"), ("lib", "libs/lib")]),
    };
    assert_eq!(graph.get_project_dependencies(), strings(&["web", "api"]));
    assert_eq!(
        graph.get_projects_with_config_path().unwrap(),
        pairs(&[("web", "apps/web/project.json"), ("api", "apps/api/project.json")])
    );
    assert_eq!(utils_get_dependencies(&sample_workspace(), &graph), Ok(strings(&["web", "api"])));
}

#[test]
fn graph_without_root_is_malformed() {
    let graph = NxProject { dependencies: strings(&["cli"]), nodes: pairs(&[("api", "apps/api")]) };
    assert_eq!(graph.get_projects_with_config_path().err(), Some(LibraryError::Malformed));
    assert_eq!(utils_get_dependencies(&sample_workspace(), &graph), Err(LibraryError::NotFound));
}
