//! Tests of precedence ordering, the version resolver, and the registry
//! version lister.

use cargo_download::constraint::Crate;
use cargo_download::registry::{list_versions, DownloadError};
use cargo_download::resolve::resolve_version;
use cargo_download::version::Version;

fn v(text: &str) -> Version {
    Version::parse(text).unwrap()
}

fn versions(texts: &[&str]) -> Vec<Version> {
    texts.iter().map(|t| v(t)).collect()
}

#[test]
fn precedence_chain() {
    let chain = ["1.0.0-alpha", "1.0.0-alpha.1", "1.0.0-alpha.beta", "1.0.0-beta",
        "1.0.0-beta.2", "1.0.0-beta.11", "1.0.0-rc.1", "1.0.0", "1.0.1", "1.1.0", "2.0.0"];
    for i in 0..chain.len() {
        for j in 0..chain.len() {
            let le = v(chain[i]).precedes_or_equals(&v(chain[j]));
            assert_eq!(le, i <= j, "{} <= {}", chain[i], chain[j]);
        }
    }
}

#[test]
fn precedence_ignores_build_metadata() {
    assert!(v("1.0.0+alpha").precedes_or_equals(&v("1.0.0+beta")));
    assert!(v("1.0.0+beta").precedes_or_equals(&v("1.0.0+alpha")));
}

#[test]
fn resolver_picks_newest_matching() {
    // `^1.0.0` over [1.0.0, 1.2.0, 1.3.0-beta, 2.0.0]: the pre-release is
    // excluded by pre-release precedence rules, 2.0.0 by the caret
    let list = versions(&["1.0.0", "1.2.0", "1.3.0-beta", "2.0.0"]);
    let c = Crate::from_str("demo=^1.0.0").unwrap();
    let chosen = resolve_version(&list, c.version_requirement()).unwrap();
    assert_eq!(chosen.version_string(), "1.2.0");
}

#[test]
fn resolver_input_order_does_not_matter() {
    let list = versions(&["1.2.0", "2.0.0", "1.0.0", "1.3.0-beta"]);
    let c = Crate::from_str("demo=^1.0.0").unwrap();
    let chosen = resolve_version(&list, c.version_requirement()).unwrap();
    assert_eq!(chosen.version_string(), "1.2.0");
}

#[test]
fn resolver_reports_no_matching_version() {
    let list = versions(&["1.0.0", "1.2.0", "1.3.0-beta", "2.0.0"]);
    let c = Crate::from_str("demo=^3.0.0").unwrap();
    match resolve_version(&list, c.version_requirement()) {
        Err(DownloadError::NoMatchingVersion { requirement, considered }) => {
            assert_eq!(requirement, "^3.0.0");
            assert_eq!(considered, 4);
        }
        _ => panic!("expected no matching version"),
    }
}

#[test]
fn resolver_exact_constraint_distinguishes_build() {
    let list = versions(&["2.0.0+build", "2.0.0"]);
    let c = Crate::from_str("demo==2.0.0").unwrap();
    let chosen = resolve_version(&list, c.version_requirement()).unwrap();
    assert_eq!(chosen.version_string(), "2.0.0");
}

#[test]
fn lister_rejects_unparsable_body() {
    match list_versions("not json at all", "https://example.invalid/demo/versions") {
        Err(DownloadError::MalformedRegistryResponse { resource }) => {
            assert_eq!(resource, "https://example.invalid/demo/versions");
        }
        _ => panic!("expected a malformed-response error"),
    }
}

#[test]
fn lister_rejects_missing_versions_key() {
    assert!(matches!(
        list_versions("{}", "r"),
        Err(DownloadError::MalformedRegistryResponse { .. })
    ));
    assert!(matches!(
        list_versions("{\"other\": []}", "r"),
        Err(DownloadError::MalformedRegistryResponse { .. })
    ));
}

#[test]
fn lister_rejects_non_array_versions() {
    assert!(matches!(
        list_versions("{\"versions\": 42}", "r"),
        Err(DownloadError::MalformedRegistryResponse { .. })
    ));
    assert!(matches!(
        list_versions("{\"versions\": {\"num\": \"1.0.0\"}}", "r"),
        Err(DownloadError::MalformedRegistryResponse { .. })
    ));
}

#[test]
fn lister_rejects_empty_listing() {
    assert!(matches!(
        list_versions("{\"versions\": []}", "r"),
        Err(DownloadError::NoValidVersions)
    ));
}

#[test]
fn lister_rejects_listing_with_no_parsable_version() {
    let body = "{\"versions\": [{\"num\": \"bogus\"}, {\"num\": 7}, {\"other\": true}]}";
    assert!(matches!(
        list_versions(body, "r"),
        Err(DownloadError::NoValidVersions)
    ));
}

#[test]
fn lister_keeps_order_and_counts_dropped() {
    let body = "{\"versions\": [{\"num\": \"1.0.0\"}, {\"num\": \"bogus\"}, {\"other\": 1}, \
        {\"num\": \"2.0.0\"}, {\"num\": \"0.3.1-beta.2\"}]}";
    let listing = list_versions(body, "r").unwrap();
    let texts: Vec<String> = listing.versions.iter().map(|w| w.version_string()).collect();
    assert_eq!(texts, vec!["1.0.0", "2.0.0", "0.3.1-beta.2"]);
    assert_eq!(listing.dropped, 2);
}
