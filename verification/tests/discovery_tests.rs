use depo_core::config::Config;
use depo_core::discovery::{classify_search_response, dependencies_from_candidates, Candidate};
use depo_core::error::PkgError;

#[test]
fn auth_header_wraps_the_token() {
    let c = Config::new(Some("sometoken".to_string()));
    assert!(c.has_token());
    assert_eq!(c.get_auth_header(), Some("Bearer sometoken".to_string()));
}

#[test]
fn missing_token_yields_no_header() {
    let c = Config::new(None);
    assert!(!c.has_token());
    assert_eq!(c.get_auth_header(), None);
}

#[test]
fn rate_limited_refusal_is_distinguished() {
    let r = classify_search_response(403, "API rate limit exceeded for 10.0.0.1");
    assert_eq!(r, Some(PkgError::RateLimited));
}

#[test]
fn other_refusals_are_generic_remote_failures() {
    let r = classify_search_response(403, "abuse detection triggered");
    assert_eq!(r, Some(PkgError::RemoteServiceFailure));
}

#[test]
fn successful_statuses_pass_through() {
    assert_eq!(classify_search_response(200, "{}"), None);
    assert_eq!(classify_search_response(404, "missing"), None);
}

#[test]
fn candidates_become_uninstalled_dependencies_in_order() {
    let cands = vec![
        Candidate {
            name: "json".to_string(),
            full_name: "nlohmann/json".to_string(),
            clone_url: "https://example.invalid/json.git".to_string(),
        },
        Candidate {
            name: "fmt".to_string(),
            full_name: "fmtlib/fmt".to_string(),
            clone_url: "https://example.invalid/fmt.git".to_string(),
        },
    ];
    let deps = dependencies_from_candidates(&cands);
    assert_eq!(deps.len(), 2);
    assert_eq!(deps[0].name, "json");
    assert_eq!(deps[0].full_name, "nlohmann/json");
    assert_eq!(deps[0].url, "https://example.invalid/json.git");
    assert_eq!(deps[0].version_constraint, None);
    assert_eq!(deps[0].version, "");
    assert_eq!(deps[1].name, "fmt");
}
