use esteem::dependencies::EsteemDependencies;
use esteem::LibraryError;

fn strings(items: &[&str]) -> Vec<String> {
    items.iter().map(|s| s.to_string()).collect()
}

#[test]
fn add_keeps_names_sorted() {
    let mut d = EsteemDependencies::new();
    d.add_required_dependency("lodash".to_string());
    d.add_required_dependency("chalk".to_string());
    d.add_required_dependency("zod".to_string());
    assert_eq!(d.required_list(), strings(&["chalk", "lodash", "zod"]));
    assert!(d.development_list().is_empty());
}

#[test]
fn add_twice_is_idempotent() {
    let mut d = EsteemDependencies::from_lists(&strings(&["a"]), &strings(&["b"]));
    d.add_development_dependency("jest".to_string());
    let once = (d.required_list(), d.development_list());
    d.add_development_dependency("jest".to_string());
    assert_eq!((d.required_list(), d.development_list()), once);
    assert_eq!(d.development_list(), strings(&["b", "jest"]));
}

#[test]
fn add_dependency_by_kind() {
    let mut d = EsteemDependencies::default();
    d.add_dependency("eslint".to_string(), true);
    d.add_dependency("react".to_string(), false);
    assert_eq!(d.required_list(), strings(&["react"]));
    assert_eq!(d.development_list(), strings(&["eslint"]));
}

#[test]
fn order_is_byte_order() {
    let d = EsteemDependencies::from_lists(
        &strings(&["b", "B", "a", "@types/node", "ab", "a"]),
        &strings(&[]),
    );
    assert_eq!(d.required_list(), strings(&["@types/node", "B", "a", "ab", "b"]));
}

#[test]
fn remove_takes_name_from_both_collections() {
    let mut d = EsteemDependencies::from_lists(&strings(&["x", "y"]), &strings(&["x", "z"]));
    assert_eq!(d.remove_dependency("x".to_string()), Ok(()));
    assert_eq!(d.required_list(), strings(&["y"]));
    assert_eq!(d.development_list(), strings(&["z"]));
}

#[test]
fn remove_of_absent_name_is_not_found_and_changes_nothing() {
    let mut d = EsteemDependencies::from_lists(&strings(&["x"]), &strings(&["z"]));
    assert_eq!(d.remove_dependency("w".to_string()), Err(LibraryError::NotFound));
    assert_eq!(d.required_list(), strings(&["x"]));
    assert_eq!(d.development_list(), strings(&["z"]));
}

#[test]
fn remove_from_one_collection() {
    let mut d = EsteemDependencies::from_lists(&strings(&["x"]), &strings(&["z"]));
    assert_eq!(d.remove_required_dependency("z".to_string()), Err(LibraryError::NotFound));
    assert_eq!(d.remove_development_dependency("z".to_string()), Ok(()));
    assert_eq!(d.remove_required_dependency("x".to_string()), Ok(()));
    assert!(d.required_list().is_empty());
    assert!(d.development_list().is_empty());
}

#[test]
fn remove_all_is_all_or_nothing() {
    let mut d = EsteemDependencies::from_lists(&strings(&["a", "b"]), &strings(&["c"]));
    assert_eq!(d.remove_all(&strings(&["a", "missing"])), Err(LibraryError::NotFound));
    assert_eq!(d.required_list(), strings(&["a", "b"]));
    assert_eq!(d.remove_all(&strings(&["a", "a"])), Err(LibraryError::NotFound));
    assert_eq!(d.required_list(), strings(&["a", "b"]));
    assert_eq!(d.remove_all(&strings(&["c", "a"])), Ok(()));
    assert_eq!(d.required_list(), strings(&["b"]));
    assert!(d.development_list().is_empty());
}

#[test]
fn contains_and_all_names() {
    let d = EsteemDependencies::from_lists(&strings(&["r2", "r1"]), &strings(&["d1"]));
    assert!(d.contains_dependency(&"r1".to_string()));
    assert!(d.contains_dependency(&"d1".to_string()));
    assert!(!d.contains_dependency(&"x".to_string()));
    assert_eq!(d.get_all_dependencies(), strings(&["d1", "r1", "r2"]));
}

#[test]
fn round_trip_reproduces_lists() {
    let d = EsteemDependencies::from_lists(&strings(&["lodash", "chalk"]), &strings(&["jest"]));
    let written_required = d.required_list();
    let written_development = d.development_list();
    let loaded = EsteemDependencies::from_lists(&written_required, &written_development);
    assert_eq!(loaded.required_list(), written_required);
    assert_eq!(loaded.development_list(), written_development);
    assert_eq!(written_required, strings(&["chalk", "lodash"]));
}

#[test]
fn empty_set_has_no_names() {
    let d = EsteemDependencies::from_lists(&strings(&[]), &strings(&[]));
    assert!(d.get_all_dependencies().is_empty());
    let copy = d.duplicate();
    assert!(copy.required_list().is_empty());
}
