use depo_core::dependency::Dependency;
use depo_core::error::PkgError;
use depo_core::install::{
    detect_checked_out_version, InstallAction, InstallEvent, InstallMachine, TagRef,
};
use depo_core::resolver::ResolvedRef;

const HEAD: &str = "0123456789abcdef0123456789abcdef01234567";
const OTHER: &str = "fedcba9876543210fedcba9876543210fedcba98";

fn dep(name: &str, constraint: Option<&str>, version: &str) -> Dependency {
    Dependency::new(
        name,
        &format!("owner/{}", name),
        &format!("https://example.invalid/{}.git", name),
        constraint.map(|c| c.to_string()),
        version,
    )
}

fn tag(name: &str, target: &str) -> TagRef {
    TagRef { name: name.to_string(), target: target.to_string() }
}

#[test]
fn detection_prefers_a_tag_pointing_at_head() {
    let tags = vec![tag("v0.9.0", OTHER), tag("v1.0.0", HEAD)];
    assert_eq!(detect_checked_out_version(&tags, HEAD), "v1.0.0");
}

#[test]
fn detection_without_matching_tag_uses_the_short_hash() {
    let tags = vec![tag("v0.9.0", OTHER)];
    assert_eq!(detect_checked_out_version(&tags, HEAD), "0123456");
    assert_eq!(detect_checked_out_version(&Vec::new(), HEAD), "0123456");
}

#[test]
fn install_over_existing_path_only_reinspects() {
    let mut m = InstallMachine::new(dep("alpha", None, "v1.0.0"));
    let a = m.begin();
    match a {
        InstallAction::CheckFinalPath { dir } => assert_eq!(dir, "alpha@v1.0.0"),
        _ => panic!("expected the existence check"),
    }
    let a = m.step(InstallEvent::FinalChecked { exists: true });
    match a {
        InstallAction::Inspect { dir } => assert_eq!(dir, "alpha@v1.0.0"),
        _ => panic!("an existing final path is inspected, never cloned over"),
    }
    let a = m.step(InstallEvent::Inspected {
        data: Some((vec![tag("v1.0.0", HEAD)], HEAD.to_string())),
    });
    match a {
        InstallAction::Finish { version } => assert_eq!(version, "v1.0.0"),
        _ => panic!("expected the install to finish at the re-derived version"),
    }
}

#[test]
fn fresh_install_of_untagged_head_finalizes_at_short_hash() {
    let mut m = InstallMachine::new(dep("alpha", None, ""));
    let a = m.begin();
    assert!(matches!(a, InstallAction::CheckFinalPath { .. }));
    let a = m.step(InstallEvent::FinalChecked { exists: false });
    match a {
        InstallAction::RemoveDir { dir } => assert_eq!(dir, "alpha@temp"),
        _ => panic!("expected stale staging cleanup"),
    }
    let a = m.step(InstallEvent::Cleaned { ok: true });
    match a {
        InstallAction::CloneRepo { url, dir } => {
            assert_eq!(url, "https://example.invalid/alpha.git");
            assert_eq!(dir, "alpha@temp");
        },
        _ => panic!("expected the clone"),
    }
    let a = m.step(InstallEvent::CloneFinished { ok: true });
    assert!(matches!(a, InstallAction::Inspect { .. }));
    let a = m.step(InstallEvent::Inspected {
        data: Some((vec![tag("v0.9.0", OTHER)], HEAD.to_string())),
    });
    match a {
        InstallAction::SettleAndMove { from, to } => {
            assert_eq!(from, "alpha@temp");
            assert_eq!(to, "alpha@0123456");
        },
        _ => panic!("expected the move into place"),
    }
    let a = m.step(InstallEvent::Moved { renamed: true });
    match a {
        InstallAction::Finish { version } => assert_eq!(version, "0123456"),
        _ => panic!("expected the install to finish"),
    }
}

#[test]
fn rename_failure_falls_back_to_copy_at_the_same_target() {
    let mut m = InstallMachine::new(dep("alpha", None, ""));
    m.begin();
    m.step(InstallEvent::FinalChecked { exists: false });
    m.step(InstallEvent::Cleaned { ok: true });
    m.step(InstallEvent::CloneFinished { ok: true });
    m.step(InstallEvent::Inspected { data: Some((Vec::new(), HEAD.to_string())) });
    let a = m.step(InstallEvent::Moved { renamed: false });
    match a {
        InstallAction::CopyAndRemove { from, to } => {
            assert_eq!(from, "alpha@temp");
            assert_eq!(to, "alpha@0123456");
        },
        _ => panic!("a failed rename has exactly one fallback: copy and remove"),
    }
    let a = m.step(InstallEvent::Copied { ok: true });
    match a {
        InstallAction::Finish { version } => assert_eq!(version, "0123456"),
        _ => panic!("expected the install to finish after the fallback"),
    }
}

#[test]
fn constrained_install_resolves_and_checks_out_the_best_tag() {
    let mut m = InstallMachine::new(dep("alpha", Some("~=2.1"), ""));
    m.begin();
    m.step(InstallEvent::FinalChecked { exists: false });
    m.step(InstallEvent::Cleaned { ok: true });
    let a = m.step(InstallEvent::CloneFinished { ok: true });
    assert!(matches!(a, InstallAction::ListTags));
    let names: Vec<String> =
        ["v2.0.0", "v2.1.0", "v2.1.3", "v3.0.0"].iter().map(|s| s.to_string()).collect();
    let a = m.step(InstallEvent::TagsListed { tags: Some(names) });
    match a {
        InstallAction::Checkout { target: ResolvedRef::Tag(t) } => assert_eq!(t, "v2.1.3"),
        _ => panic!("expected a detached checkout of the best tag"),
    }
}

#[test]
fn unmatched_range_aborts_resolution() {
    let mut m = InstallMachine::new(dep("alpha", Some("^9"), ""));
    m.begin();
    m.step(InstallEvent::FinalChecked { exists: false });
    m.step(InstallEvent::Cleaned { ok: true });
    m.step(InstallEvent::CloneFinished { ok: true });
    let a = m.step(InstallEvent::TagsListed { tags: Some(vec!["v1.0.0".to_string()]) });
    match a {
        InstallAction::Abort { error } => assert_eq!(error, PkgError::NoMatchingVersion),
        _ => panic!("expected the machine to abort"),
    }
}

#[test]
fn failed_cleanup_is_a_filesystem_failure() {
    let mut m = InstallMachine::new(dep("alpha", None, ""));
    m.begin();
    m.step(InstallEvent::FinalChecked { exists: false });
    let a = m.step(InstallEvent::Cleaned { ok: false });
    match a {
        InstallAction::Abort { error } => assert_eq!(error, PkgError::FilesystemFailure),
        _ => panic!("expected the machine to abort"),
    }
}

#[test]
fn failed_copy_fallback_is_fatal() {
    let mut m = InstallMachine::new(dep("alpha", None, ""));
    m.begin();
    m.step(InstallEvent::FinalChecked { exists: false });
    m.step(InstallEvent::Cleaned { ok: true });
    m.step(InstallEvent::CloneFinished { ok: true });
    m.step(InstallEvent::Inspected { data: Some((Vec::new(), HEAD.to_string())) });
    m.step(InstallEvent::Moved { renamed: false });
    let a = m.step(InstallEvent::Copied { ok: false });
    match a {
        InstallAction::Abort { error } => assert_eq!(error, PkgError::FilesystemFailure),
        _ => panic!("expected the machine to abort"),
    }
}

#[test]
fn clone_failure_is_a_source_control_failure() {
    let mut m = InstallMachine::new(dep("alpha", None, ""));
    m.begin();
    m.step(InstallEvent::FinalChecked { exists: false });
    m.step(InstallEvent::Cleaned { ok: true });
    let a = m.step(InstallEvent::CloneFinished { ok: false });
    match a {
        InstallAction::Abort { error } => assert_eq!(error, PkgError::SourceControlFailure),
        _ => panic!("expected the machine to abort"),
    }
}

#[test]
fn branch_constraint_that_matches_nothing_is_unresolvable() {
    let mut m = InstallMachine::new(dep("alpha", Some("develop"), ""));
    m.begin();
    m.step(InstallEvent::FinalChecked { exists: false });
    m.step(InstallEvent::Cleaned { ok: true });
    m.step(InstallEvent::CloneFinished { ok: true });
    let a = m.step(InstallEvent::TagsListed { tags: Some(vec!["v1.0.0".to_string()]) });
    match a {
        InstallAction::Checkout { target: ResolvedRef::RefName(n) } => assert_eq!(n, "develop"),
        _ => panic!("expected a branch lookup"),
    }
    let a = m.step(InstallEvent::CheckedOut { ok: false });
    match a {
        InstallAction::Abort { error } => assert_eq!(error, PkgError::UnresolvableConstraint),
        _ => panic!("expected the machine to abort"),
    }
}
