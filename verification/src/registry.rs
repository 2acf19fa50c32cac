//! The registry version lister: reads a version-listing response body —
//! a JSON object with a `versions` array of objects carrying a `num` string —
//! and produces the parsable versions, counting the entries it had to drop.

use vstd::prelude::*;
use vstd::string::StringExecFns;
use crate::json::{JsonModel, json_as_array, json_as_str, json_get, json_of, parse_json, value_model};
use crate::version::{Version, VersionView, spec_parse_version, version_views};

verus! {

// ---------------------------------------------------------------------------
// Errors of the resolution and retrieval pipeline
// ---------------------------------------------------------------------------

/// Failures of the version resolution and retrieval pipeline.
#[derive(Clone, Debug)]
pub enum DownloadError {
    /// The response from `resource` could not be read as a version listing.
    MalformedRegistryResponse { resource: String },
    /// The version listing held no parsable version at all.
    NoValidVersions,
    /// No listed version satisfies the requirement; `considered` versions
    /// were examined.
    NoMatchingVersion { requirement: String, considered: usize },
    /// The registry could not be reached or answered with failure.
    RegistryUnavailable { detail: String },
    /// Downloading the archive from `url` failed.
    DownloadFailed { url: String },
    /// Unpacking the downloaded archive failed.
    ExtractionFailed,
    /// The archive was unpacked, but moving it to the requested destination
    /// failed.
    RelocationFailed,
}

// ---------------------------------------------------------------------------
// The shape of a version-listing response
// ---------------------------------------------------------------------------

/// The entries of the `versions` array, if the response has that shape.
pub open spec fn versions_entries(m: JsonModel) -> Option<Seq<JsonModel>> {
    match m {
        JsonModel::Obj(o) => if o.contains_key("versions"@) {
            match o["versions"@] {
                JsonModel::Arr(a) => Some(a),
                _ => None,
            }
        } else {
            None
        },
        _ => None,
    }
}

/// The `num` string of one version entry, if it has one.
pub open spec fn entry_num(m: JsonModel) -> Option<Seq<char>> {
    match m {
        JsonModel::Obj(o) => if o.contains_key("num"@) {
            match o["num"@] {
                JsonModel::Str(s) => Some(s),
                _ => None,
            }
        } else {
            None
        },
        _ => None,
    }
}

/// The versions parsed from the entries, in order; entries without a proper
/// `num` string or with an unparsable version are dropped.
pub open spec fn collect_versions(entries: Seq<JsonModel>) -> Seq<VersionView>
    decreases entries.len(),
{
    if entries.len() == 0 {
        Seq::<VersionView>::empty()
    } else {
        let init = collect_versions(entries.drop_last());
        match entry_num(entries.last()) {
            Some(s) => match spec_parse_version(s) {
                Some(v) => init.push(v),
                None => init,
            },
            None => init,
        }
    }
}

proof fn lemma_collect_len(entries: Seq<JsonModel>)
    ensures collect_versions(entries).len() <= entries.len(),
    decreases entries.len(),
{
    if entries.len() > 0 {
        lemma_collect_len(entries.drop_last());
    }
}

// ---------------------------------------------------------------------------
// The lister
// ---------------------------------------------------------------------------

/// A filtered version listing: the parsable versions, and how many entries
/// were dropped as unparsable (a tracked gap in the registry's data).
pub struct VersionList {
    pub versions: Vec<Version>,
    pub dropped: usize,
}

/// What `list_versions` returns for a response body: a malformed body or one
/// without a `versions` array is `MalformedRegistryResponse` naming the
/// queried resource; a listing whose entries all fail to parse is
/// `NoValidVersions`; otherwise the parsed versions in listing order, with
/// the count of dropped entries.
pub open spec fn spec_list_outcome(
    body: Seq<char>,
    resource: Seq<char>,
    r: Result<VersionList, DownloadError>,
) -> bool {
    match json_of(body) {
        None => r matches Err(e)
            && e matches DownloadError::MalformedRegistryResponse { resource: n } && n@ == resource,
        Some(m) => match versions_entries(m) {
            None => r matches Err(e)
                && e matches DownloadError::MalformedRegistryResponse { resource: n }
                && n@ == resource,
            Some(entries) => {
                let vs = collect_versions(entries);
                if vs.len() == 0 {
                    r matches Err(e) && e is NoValidVersions
                } else {
                    r matches Ok(l)
                    && version_views(l.versions@) == vs
                    && l.dropped + vs.len() == entries.len()
                }
            }
        },
    }
}

/// Parse a registry version-listing body fetched from `resource`.
pub fn list_versions(body: &str, resource: &str) -> (r: Result<VersionList, DownloadError>)
    ensures spec_list_outcome(body@, resource@, r),
{
    let root = match parse_json(body) {
        Some(v) => v,
        None => {
            return Err(DownloadError::MalformedRegistryResponse {
                resource: String::from_str(resource),
            });
        }
    };
    let versions_val = match json_get(&root, "versions") {
        Some(v) => v,
        None => {
            return Err(DownloadError::MalformedRegistryResponse {
                resource: String::from_str(resource),
            });
        }
    };
    let arr = match json_as_array(versions_val) {
        Some(a) => a,
        None => {
            return Err(DownloadError::MalformedRegistryResponse {
                resource: String::from_str(resource),
            });
        }
    };
    let ghost entries = versions_entries(json_of(body@)->Some_0)->Some_0;
    proof {
        assert(arr@.len() == entries.len());
        assert(forall|i: int| 0 <= i < entries.len()
            ==> value_model(#[trigger] arr@[i]) == entries[i]);
    }
    let n = arr.len();
    let mut versions: Vec<Version> = Vec::new();
    let mut dropped: usize = 0;
    let mut i: usize = 0;
    while i < n
        invariant
            i <= n,
            n == entries.len(),
            n == arr@.len(),
            forall|k: int| 0 <= k < entries.len()
                ==> value_model(#[trigger] arr@[k]) == entries[k],
            version_views(versions@) == collect_versions(entries.take(i as int)),
            versions@.len() + dropped == i,
        decreases n - i,
    {
        proof {
            assert(entries.take(i + 1 as int).drop_last() =~= entries.take(i as int));
            assert(entries.take(i + 1 as int).last() == entries[i as int]);
        }
        let entry = &arr[i];
        let parsed: Option<Version> = match json_get(entry, "num") {
            Some(num_val) => match json_as_str(num_val) {
                Some(num_str) => Version::parse(num_str),
                None => None,
            },
            None => None,
        };
        let ghost old_versions = versions@;
        match parsed {
            Some(v) => {
                versions.push(v);
                proof {
                    assert(version_views(old_versions.push(v))
                        =~= version_views(old_versions).push(v@));
                }
            }
            None => {
                dropped = dropped + 1;
            }
        }
        i = i + 1;
    }
    proof {
        assert(entries.take(n as int) =~= entries);
        lemma_collect_len(entries);
    }
    if versions.len() == 0 {
        return Err(DownloadError::NoValidVersions);
    }
    Ok(VersionList { versions, dropped })
}

} // verus!
