use depo_core::codec::{load_package, save_package};
use depo_core::dependency::Dependency;
use depo_core::error::PkgError;
use depo_core::package::Package;

fn dep(name: &str, constraint: Option<&str>, version: &str) -> Dependency {
    Dependency::new(
        name,
        &format!("owner/{}", name),
        &format!("https://example.invalid/{}.git", name),
        constraint.map(|c| c.to_string()),
        version,
    )
}

fn assert_round_trip(p: &Package) {
    let text = save_package(p);
    let back = load_package(&text).unwrap();
    assert_eq!(back.dependencies.len(), p.dependencies.len());
    for (a, b) in p.dependencies.iter().zip(back.dependencies.iter()) {
        assert_eq!(a.name, b.name);
        assert_eq!(a.full_name, b.full_name);
        assert_eq!(a.url, b.url);
        assert_eq!(a.version_constraint, b.version_constraint);
        assert_eq!(a.version, b.version);
    }
}

#[test]
fn empty_package_round_trips() {
    assert_round_trip(&Package::new());
}

#[test]
fn ordinary_package_round_trips_in_order() {
    let mut p = Package::new();
    p.add_dependency(dep("alpha", None, "v1.0.0")).unwrap();
    p.add_dependency(dep("beta", Some("^2.0"), "v2.1.3")).unwrap();
    p.add_dependency(dep("gamma", Some("~=2.1"), "")).unwrap();
    assert_round_trip(&p);
}

#[test]
fn values_with_quotes_backslashes_and_newlines_round_trip() {
    let mut p = Package::new();
    p.add_dependency(Dependency::new(
        "odd",
        "say \"hi\"\nback\\slash",
        "https://example.invalid/o.git",
        Some("^1 \"x\"".to_string()),
        "v1.0.0\\rc",
    ))
    .unwrap();
    assert_round_trip(&p);
}

#[test]
fn saved_record_has_the_documented_shape() {
    let mut p = Package::new();
    p.add_dependency(dep("alpha", Some("^1"), "v1.0.0")).unwrap();
    let text = save_package(&p);
    let expected = "dependencies:\n\
                    - name: \"alpha\"\n  \
                    full_name: \"owner/alpha\"\n  \
                    url: \"https://example.invalid/alpha.git\"\n  \
                    version_constraint: \"^1\"\n  \
                    version: \"v1.0.0\"\n";
    assert_eq!(text, expected);
}

#[test]
fn absent_constraint_is_written_as_null() {
    let mut p = Package::new();
    p.add_dependency(dep("alpha", None, "v1.0.0")).unwrap();
    let text = save_package(&p);
    assert!(text.contains("version_constraint: null\n"));
}

#[test]
fn empty_field_values_round_trip() {
    let mut p = Package::new();
    p.add_dependency(Dependency::new("a", "", "", None, "")).unwrap();
    assert_round_trip(&p);
}

#[test]
fn malformed_records_fail_to_load() {
    assert_eq!(load_package("").err(), Some(PkgError::PersistenceFailure));
    assert_eq!(load_package("nonsense").err(), Some(PkgError::PersistenceFailure));
    assert_eq!(
        load_package("dependencies:\n- name: \"unterminated\n").err(),
        Some(PkgError::PersistenceFailure)
    );
    assert_eq!(
        load_package("dependencies:\n- name: \"a\"\n").err(),
        Some(PkgError::PersistenceFailure)
    );
}
