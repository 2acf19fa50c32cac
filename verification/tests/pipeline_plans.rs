//! Tests of the pipeline's planning layer: fetch plans, endpoint URLs,
//! materialization plans, options, and the signature line; plus the
//! end-to-end scenarios the pipeline is specified by.

use cargo_download::constraint::Crate;
use cargo_download::pipeline::{
    download_url, get_newest_version, log_signature, plan_fetch, plan_materialize, versions_url,
    FetchPlan, MaterializePlan, Options, Output,
};
use cargo_download::registry::DownloadError;
use cargo_download::version::Version;

const ROOT: &str = "https://crates.io/api/v1/crates";

#[test]
fn exact_constraint_never_queries_the_registry() {
    // resolution of an exact constraint issues no version-list query
    let c = Crate::from_str("demo==2.0.0").unwrap();
    match plan_fetch(&c, ROOT) {
        FetchPlan::UseExact(v) => assert_eq!(v.version_string(), "2.0.0"),
        FetchPlan::QueryVersions(_) => panic!("an exact constraint must not query"),
    }
}

#[test]
fn range_constraint_queries_the_version_list() {
    let c = Crate::from_str("demo=^1.0.0").unwrap();
    match plan_fetch(&c, ROOT) {
        FetchPlan::QueryVersions(url) => {
            assert_eq!(url, "https://crates.io/api/v1/crates/demo/versions");
        }
        FetchPlan::UseExact(_) => panic!("a range constraint must query"),
    }
}

#[test]
fn endpoint_urls() {
    assert_eq!(versions_url(ROOT, "serde"), "https://crates.io/api/v1/crates/serde/versions");
    let v = Version::parse("1.1.0").unwrap();
    assert_eq!(
        download_url(ROOT, "demo", &v),
        "https://crates.io/api/v1/crates/demo/1.1.0/download"
    );
}

#[test]
fn scenario_range_resolution_and_raw_output() {
    // specification `demo=^1.0.0`; the registry lists 0.9.0, 1.0.0 and
    // 1.1.0; the resolver picks 1.1.0 and raw mode hands the bytes to the
    // standard output sink unmodified
    let c = Crate::from_str("demo=^1.0.0").unwrap();
    let url = match plan_fetch(&c, ROOT) {
        FetchPlan::QueryVersions(url) => url,
        FetchPlan::UseExact(_) => panic!("must query"),
    };
    let body = "{\"versions\": [{\"num\": \"0.9.0\"}, {\"num\": \"1.0.0\"}, {\"num\": \"1.1.0\"}]}";
    let chosen = get_newest_version(&c, body, &url).unwrap();
    assert_eq!(chosen.version_string(), "1.1.0");
    assert_eq!(
        download_url(ROOT, c.name(), &chosen),
        "https://crates.io/api/v1/crates/demo/1.1.0/download"
    );
    match plan_materialize(c.name(), &chosen, false, &None) {
        MaterializePlan::WriteRaw(Output::Stdout) => {}
        _ => panic!("raw mode without an output path writes to standard output"),
    }
}

#[test]
fn scenario_bare_name_extraction_dir() {
    // specification `demo` with extraction requested and no destination:
    // the archive is unpacked into ./demo-<resolved-version>/
    let c = Crate::from_str("demo").unwrap();
    let body = "{\"versions\": [{\"num\": \"1.0.0\"}, {\"num\": \"1.2.0\"}]}";
    let chosen = get_newest_version(&c, body, "r").unwrap();
    assert_eq!(chosen.version_string(), "1.2.0");
    match plan_materialize(c.name(), &chosen, true, &None) {
        MaterializePlan::Extract { dir, rename_to } => {
            assert_eq!(dir, "./demo-1.2.0");
            assert!(rename_to.is_none());
        }
        _ => panic!("extraction requested"),
    }
}

#[test]
fn extraction_with_destination_renames() {
    let c = Crate::from_str("demo==1.0.0").unwrap();
    let v = Version::parse("1.0.0").unwrap();
    match plan_materialize(c.name(), &v, true, &Some(Output::Path(String::from("dest")))) {
        MaterializePlan::Extract { dir, rename_to } => {
            assert_eq!(dir, "./demo-1.0.0");
            assert_eq!(rename_to.as_deref(), Some("dest"));
        }
        _ => panic!("extraction requested"),
    }
}

#[test]
fn raw_output_to_named_file() {
    let v = Version::parse("1.0.0").unwrap();
    match plan_materialize("demo", &v, false, &Some(Output::Path(String::from("out.crate")))) {
        MaterializePlan::WriteRaw(Output::Path(p)) => assert_eq!(p, "out.crate"),
        _ => panic!("raw mode with an output path writes to that file"),
    }
}

#[test]
fn malformed_body_fails_resolution() {
    let c = Crate::from_str("demo=^1.0.0").unwrap();
    match get_newest_version(&c, "[]", "the-resource") {
        Err(DownloadError::MalformedRegistryResponse { resource }) => {
            assert_eq!(resource, "the-resource");
        }
        _ => panic!("expected a malformed-response error"),
    }
}

#[test]
fn options_verbosity() {
    let c = Crate::from_str("demo").unwrap();
    let o = Options::from_counts(2, 0, c.clone(), false, None);
    assert!(o.verbose());
    assert!(!o.quiet());
    assert_eq!(o.verbosity, 2);
    let q = Options::from_counts(0, 3, c, true, Some(Output::Stdout));
    assert!(!q.verbose());
    assert!(q.quiet());
    assert_eq!(q.verbosity, -3);
}

#[test]
fn signature_line() {
    assert_eq!(log_signature("cargo-download", Some("0.1.0")), "cargo-download v0.1.0");
    assert_eq!(log_signature("cargo-download", None), "cargo-download <UNKNOWN VERSION>");
}
