use depo_core::dependency::Dependency;
use depo_core::error::PkgError;
use depo_core::resolver::{normalize_constraint, resolve, strip_v_exec, ResolvedRef};
use depo_core::version::{ver_lt_exec, SemVer};

fn dep_with(constraint: Option<&str>) -> Dependency {
    Dependency::new(
        "lib",
        "owner/lib",
        "https://example.invalid/lib.git",
        constraint.map(|c| c.to_string()),
        "",
    )
}

fn tags(names: &[&str]) -> Vec<String> {
    names.iter().map(|s| s.to_string()).collect()
}

#[test]
fn caret_range_picks_highest_matching() {
    let d = dep_with(Some("^1.0"));
    let t = tags(&["v1.0.0", "v1.2.0", "v2.0.0"]);
    let r = d.find_latest_matching_version(&t).unwrap();
    assert_eq!(r, "1.2.0");
}

#[test]
fn tilde_equals_spelling_resolves_compatible_release() {
    let d = dep_with(Some("~=2.1"));
    let t = tags(&["v2.0.0", "v2.1.0", "v2.1.3", "v3.0.0"]);
    let r = d.find_latest_matching_version(&t).unwrap();
    assert_eq!(r, "2.1.3");
}

#[test]
fn no_constraint_picks_highest_tag() {
    let d = dep_with(None);
    let t = tags(&["v0.9.0", "v1.10.0", "v1.9.0", "not-a-version"]);
    let r = d.find_latest_matching_version(&t).unwrap();
    assert_eq!(r, "1.10.0");
}

#[test]
fn unmatched_range_reports_no_matching_version() {
    let d = dep_with(Some("^9"));
    let t = tags(&["v1.0.0", "v2.0.0"]);
    assert_eq!(d.find_latest_matching_version(&t), Err(PkgError::NoMatchingVersion));
}

#[test]
fn malformed_range_reports_invalid_constraint() {
    let d = dep_with(Some("not a range"));
    let t = tags(&["v1.0.0"]);
    assert_eq!(d.find_latest_matching_version(&t), Err(PkgError::InvalidConstraint));
}

#[test]
fn resolve_without_constraint_keeps_default_head() {
    let r = resolve(&None, &tags(&["v1.0.0"]));
    assert!(matches!(r, Ok(ResolvedRef::DefaultHead)));
}

#[test]
fn resolve_range_names_the_tag_itself() {
    let r = resolve(&Some("^1.0".to_string()), &tags(&["v1.0.0", "v1.2.0", "v2.0.0"]));
    match r {
        Ok(ResolvedRef::Tag(t)) => assert_eq!(t, "v1.2.0"),
        _ => panic!("expected a tag"),
    }
}

#[test]
fn resolve_non_range_falls_back_to_ref_name() {
    let r = resolve(&Some("develop".to_string()), &tags(&["v1.0.0"]));
    match r {
        Ok(ResolvedRef::RefName(n)) => assert_eq!(n, "develop"),
        _ => panic!("expected a ref name"),
    }
}

#[test]
fn resolve_range_without_match_fails() {
    let r = resolve(&Some("^3".to_string()), &tags(&["v1.0.0", "v2.0.0"]));
    assert!(matches!(r, Err(PkgError::NoMatchingVersion)));
}

#[test]
fn strip_v_removes_one_leading_v() {
    assert_eq!(strip_v_exec("v1.2.3"), "1.2.3");
    assert_eq!(strip_v_exec("1.2.3"), "1.2.3");
    assert_eq!(strip_v_exec("vv1.2.3"), "v1.2.3");
    assert_eq!(strip_v_exec(""), "");
}

#[test]
fn normalize_rewrites_tilde_equals_only() {
    assert_eq!(normalize_constraint("~=2.1"), "~2.1");
    assert_eq!(normalize_constraint("~2.1"), "~2.1");
    assert_eq!(normalize_constraint("^1.0"), "^1.0");
}

#[test]
fn validate_accepts_ranges_and_rejects_noise() {
    let d = dep_with(None);
    assert!(d.validate_version_constraint("^1.0").is_ok());
    assert!(d.validate_version_constraint("~=2.1").is_ok());
    assert_eq!(d.validate_version_constraint("wat wat"), Err(PkgError::InvalidConstraint));
}

#[test]
fn parse_reads_numeric_components_and_prerelease() {
    let v = SemVer::parse("1.2.3-alpha.7").unwrap();
    assert_eq!(v.major, 1);
    assert_eq!(v.minor, 2);
    assert_eq!(v.patch, 3);
    assert_eq!(v.pre, vec!["alpha".to_string(), "7".to_string()]);
    assert!(SemVer::parse("1.2").is_none());
    assert!(SemVer::parse("1.2.x").is_none());
}

#[test]
fn precedence_orders_numbers_then_prerelease() {
    let a = SemVer::parse("1.9.0").unwrap();
    let b = SemVer::parse("1.10.0").unwrap();
    assert!(ver_lt_exec(&a, &b));
    assert!(!ver_lt_exec(&b, &a));

    // a pre-release precedes its release
    let pre = SemVer::parse("2.0.0-rc.1").unwrap();
    let rel = SemVer::parse("2.0.0").unwrap();
    assert!(ver_lt_exec(&pre, &rel));
    assert!(!ver_lt_exec(&rel, &pre));

    // numeric identifiers compare numerically, and precede alphanumeric ones
    let two = SemVer::parse("1.0.0-alpha.2").unwrap();
    let ten = SemVer::parse("1.0.0-alpha.10").unwrap();
    assert!(ver_lt_exec(&two, &ten));
    let num = SemVer::parse("1.0.0-1").unwrap();
    let alpha = SemVer::parse("1.0.0-alpha").unwrap();
    assert!(ver_lt_exec(&num, &alpha));

    // a shorter identifier list precedes its extension
    let short = SemVer::parse("1.0.0-alpha").unwrap();
    let long = SemVer::parse("1.0.0-alpha.1").unwrap();
    assert!(ver_lt_exec(&short, &long));
}

#[test]
fn prerelease_tags_resolve_by_precedence() {
    let d = dep_with(None);
    let t = tags(&["v1.0.0-alpha", "v1.0.0-alpha.2", "v1.0.0-alpha.10"]);
    let r = d.find_latest_matching_version(&t).unwrap();
    assert_eq!(r, "1.0.0-alpha.10");
}
