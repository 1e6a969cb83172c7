use depo_core::dependency::Dependency;
use depo_core::error::PkgError;
use depo_core::package::{Package, UpdateOutcome};

fn dep(name: &str, constraint: Option<&str>, version: &str) -> Dependency {
    Dependency::new(
        name,
        &format!("owner/{}", name),
        &format!("https://example.invalid/{}.git", name),
        constraint.map(|c| c.to_string()),
        version,
    )
}

fn two_dep_package() -> Package {
    let mut p = Package::new();
    p.add_dependency(dep("alpha", None, "v1.0.0")).unwrap();
    p.add_dependency(dep("beta", Some("^2"), "v2.0.0")).unwrap();
    p
}

#[test]
fn new_package_is_empty() {
    let p = Package::new();
    assert_eq!(p.dependencies.len(), 0);
}

#[test]
fn init_refuses_an_existing_record() {
    assert!(matches!(Package::init(true), Err(PkgError::AlreadyExists)));
    let p = Package::init(false).unwrap();
    assert_eq!(p.dependencies.len(), 0);
}

#[test]
fn add_then_lookup() {
    let p = two_dep_package();
    assert!(p.is_dependency_existing("alpha"));
    assert!(p.is_dependency_existing("beta"));
    assert!(!p.is_dependency_existing("gamma"));
}

#[test]
fn adding_a_colliding_name_fails_and_keeps_the_existing_entry() {
    let mut p = two_dep_package();
    let r = p.add_dependency(dep("alpha", Some("^9"), "v9.9.9"));
    assert_eq!(r, Err(PkgError::AlreadyExists));
    assert_eq!(p.dependencies.len(), 2);
    assert_eq!(p.dependencies[0].name, "alpha");
    assert_eq!(p.dependencies[0].version, "v1.0.0");
    assert_eq!(p.dependencies[0].version_constraint, None);
}

#[test]
fn removing_a_nonexistent_dependency_fails_and_mutates_nothing() {
    let mut p = two_dep_package();
    let r = p.remove_dependency("gamma");
    assert!(matches!(r, Err(PkgError::NotFound)));
    assert_eq!(p.dependencies.len(), 2);
    assert_eq!(p.dependencies[0].name, "alpha");
    assert_eq!(p.dependencies[1].name, "beta");
}

#[test]
fn removing_returns_the_entry_and_drops_it_from_the_record() {
    let mut p = two_dep_package();
    let removed = p.remove_dependency("alpha").unwrap();
    assert_eq!(removed.name, "alpha");
    assert_eq!(removed.version, "v1.0.0");
    assert_eq!(p.dependencies.len(), 1);
    assert_eq!(p.dependencies[0].name, "beta");
}

#[test]
fn update_with_unchanged_version_is_a_no_op() {
    let mut p = two_dep_package();
    let tags: Vec<String> = vec!["v1.0.0".to_string(), "v0.9.0".to_string()];
    let r = p.update_dependency("alpha", &tags).unwrap();
    assert!(matches!(r, UpdateOutcome::Unchanged));
    assert_eq!(p.dependencies[0].version, "v1.0.0");
}

#[test]
fn update_with_newer_version_rewrites_the_record() {
    let mut p = two_dep_package();
    let tags: Vec<String> = vec!["v1.0.0".to_string(), "v1.5.0".to_string()];
    let r = p.update_dependency("alpha", &tags).unwrap();
    match r {
        UpdateOutcome::Reinstall { old_dir, new_version } => {
            assert_eq!(old_dir, "alpha@v1.0.0");
            assert_eq!(new_version, "1.5.0");
        },
        UpdateOutcome::Unchanged => panic!("expected a reinstall"),
    }
    assert_eq!(p.dependencies[0].version, "1.5.0");
    assert_eq!(p.dependencies[1].version, "v2.0.0");
}

#[test]
fn update_of_a_missing_name_fails() {
    let mut p = two_dep_package();
    let tags: Vec<String> = vec!["v1.0.0".to_string()];
    assert!(matches!(p.update_dependency("gamma", &tags), Err(PkgError::NotFound)));
}

#[test]
fn constraint_can_be_set_and_cleared() {
    let mut p = two_dep_package();
    p.modify_dependency_constraint("alpha", "~1.0").unwrap();
    assert_eq!(p.dependencies[0].version_constraint, Some("~1.0".to_string()));
    p.remove_dependency_constraint("alpha").unwrap();
    assert_eq!(p.dependencies[0].version_constraint, None);
}

#[test]
fn constraint_updates_validate_their_input() {
    let mut p = two_dep_package();
    let r = p.modify_dependency_constraint("alpha", "no such range");
    assert!(matches!(r, Err(PkgError::InvalidConstraint)));
    assert_eq!(p.dependencies[0].version_constraint, None);
}

#[test]
fn clearing_an_absent_constraint_fails() {
    let mut p = two_dep_package();
    assert!(matches!(
        p.remove_dependency_constraint("alpha"),
        Err(PkgError::MissingConstraint)
    ));
    assert!(matches!(
        p.remove_dependency_constraint("gamma"),
        Err(PkgError::NotFound)
    ));
}

#[test]
fn final_path_uses_name_and_version() {
    assert_eq!(dep("alpha", None, "v1.0.0").get_final_path(), "alpha@v1.0.0");
    assert_eq!(dep("alpha", None, "").get_final_path(), "alpha@temp");
    assert_eq!(dep("alpha", None, "").temp_dir_name(), "alpha@temp");
}
