use depo_core::bridge::{BuildSystem, CMake};
use depo_core::dependency::Dependency;

fn dep(name: &str, version: &str) -> Dependency {
    Dependency::new(
        name,
        &format!("owner/{}", name),
        &format!("https://example.invalid/{}.git", name),
        None,
        version,
    )
}

#[test]
fn bridge_lists_every_dependency_at_its_versioned_path() {
    let deps = vec![dep("alpha", "v1.0.0"), dep("beta", "2.1.3")];
    let (includes, links) = CMake::generate_dependency_bridge(&deps, "proj/deps");
    let expected_includes = "add_subdirectory(proj/deps/alpha@v1.0.0)\n\
                            include_directories(proj/deps/alpha@v1.0.0/include)\n\
                            add_subdirectory(proj/deps/beta@2.1.3)\n\
                            include_directories(proj/deps/beta@2.1.3/include)\n";
    let expected_links = "target_link_libraries(main PRIVATE alpha)\n\
                          target_link_libraries(main PRIVATE beta)\n";
    assert_eq!(includes, expected_includes);
    assert_eq!(links, expected_links);
}

#[test]
fn bridge_generation_is_idempotent() {
    let deps = vec![dep("alpha", "v1.0.0"), dep("beta", "2.1.3")];
    let first = CMake::generate_dependency_bridge(&deps, "proj/deps");
    let second = CMake::generate_dependency_bridge(&deps, "proj/deps");
    assert_eq!(first.0, second.0);
    assert_eq!(first.1, second.1);
}

#[test]
fn bridge_of_an_empty_set_is_empty() {
    let (includes, links) = CMake::generate_dependency_bridge(&Vec::new(), "proj/deps");
    assert_eq!(includes, "");
    assert_eq!(links, "");
}

#[test]
fn regeneration_reflects_a_removed_dependency() {
    let mut deps = vec![dep("alpha", "v1.0.0"), dep("beta", "2.1.3")];
    deps.remove(0);
    let (includes, links) = CMake::generate_dependency_bridge(&deps, "proj/deps");
    assert!(!includes.contains("alpha"));
    assert!(!links.contains("alpha"));
    assert!(includes.contains("beta@2.1.3"));
}
