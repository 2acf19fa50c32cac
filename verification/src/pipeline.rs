//! The pipeline's decision layer: planning how a specification is fetched
//! (an exact constraint skips the version-list query entirely), the registry
//! endpoints queried, how the downloaded archive is materialized, and the
//! startup signature line. The surrounding program performs the network and
//! filesystem work these plans call for.

use vstd::prelude::*;
use vstd::string::StringExecFns;
use crate::constraint::{Crate, CrateVersionView, render_constraint};
use crate::json::json_of;
use crate::registry::{DownloadError, collect_versions, list_versions, versions_entries};
use crate::resolve::{is_resolved, resolve_version, some_match};
use crate::version::{Version, VersionView, render_version};

verus! {

// ---------------------------------------------------------------------------
// Fetch planning
// ---------------------------------------------------------------------------

/// How the version to download is obtained.
pub enum FetchPlan {
    /// The constraint names the version outright; no version-list query is
    /// issued.
    UseExact(Version),
    /// The registry's version list must be fetched from this endpoint.
    QueryVersions(String),
}

/// The registry's version-listing endpoint for a package.
pub open spec fn spec_versions_url(root: Seq<char>, name: Seq<char>) -> Seq<char> {
    root + "/"@ + name + "/versions"@
}

/// The registry's download endpoint for one version of a package.
pub open spec fn spec_download_url(root: Seq<char>, name: Seq<char>, v: VersionView) -> Seq<char> {
    root + "/"@ + name + "/"@ + render_version(v) + "/download"@
}

pub fn versions_url(root: &str, name: &str) -> (r: String)
    ensures r@ == spec_versions_url(root@, name@),
{
    let mut s = String::from_str(root);
    s.append("/");
    s.append(name);
    s.append("/versions");
    proof {
        assert(s@ =~= spec_versions_url(root@, name@));
    }
    s
}

pub fn download_url(root: &str, name: &str, version: &Version) -> (r: String)
    ensures r@ == spec_download_url(root@, name@, version@),
{
    let mut s = String::from_str(root);
    s.append("/");
    s.append(name);
    s.append("/");
    let vs = version.version_string();
    s.append(vs.as_str());
    s.append("/download");
    proof {
        assert(s@ =~= spec_download_url(root@, name@, version@));
    }
    s
}

/// Decide how to obtain the version to download. An exact constraint is
/// resolved without querying the registry at all — the plan for it never
/// holds a query endpoint — while any other constraint requires the
/// version-list query.
pub fn plan_fetch(c: &Crate, registry_root: &str) -> (p: FetchPlan)
    ensures
        c@.version matches CrateVersionView::Exact(v)
            ==> p matches FetchPlan::UseExact(pv) && pv@ == v,
        !(c@.version is Exact)
            ==> (p matches FetchPlan::QueryVersions(u)
                && u@ == spec_versions_url(registry_root@, c@.name)),
{
    match c.exact_version() {
        Some(v) => FetchPlan::UseExact(v.duplicate()),
        None => FetchPlan::QueryVersions(versions_url(registry_root, c.name())),
    }
}

// ---------------------------------------------------------------------------
// Resolution against a fetched version listing
// ---------------------------------------------------------------------------

/// What `get_newest_version` returns for a crate and a response body.
pub open spec fn spec_newest_outcome(
    c: CrateVersionView,
    body: Seq<char>,
    resource: Seq<char>,
    r: Result<Version, DownloadError>,
) -> bool {
    match json_of(body) {
        None => r matches Err(e)
            && e matches DownloadError::MalformedRegistryResponse { resource: n } && n@ == resource,
        Some(m) => match versions_entries(m) {
            None => r matches Err(e)
                && e matches DownloadError::MalformedRegistryResponse { resource: n }
                && n@ == resource,
            Some(entries) => {
                let vs = collect_versions(entries);
                if vs.len() == 0 {
                    r matches Err(e) && e is NoValidVersions
                } else if some_match(vs, c) {
                    r matches Ok(v) && exists|i: int|
                        #[trigger] is_resolved(vs, c, i) && vs[i] == v@
                } else {
                    r matches Err(e) && e matches DownloadError::NoMatchingVersion {
                        requirement: t,
                        considered: n,
                    } && t@ == render_constraint(c) && n == vs.len()
                }
            }
        },
    }
}

/// Choose the newest version of `c` that its constraint admits, from the
/// version-listing response `body` fetched from `resource`.
pub fn get_newest_version(c: &Crate, body: &str, resource: &str)
    -> (r: Result<Version, DownloadError>)
    ensures spec_newest_outcome(c@.version, body@, resource@, r),
{
    let listing = match list_versions(body, resource) {
        Ok(l) => l,
        Err(e) => {
            return Err(e);
        }
    };
    resolve_version(&listing.versions, c.version_requirement())
}

// ---------------------------------------------------------------------------
// Materialization planning
// ---------------------------------------------------------------------------

/// Where the downloaded bytes go when not extracting.
#[derive(Clone, Debug)]
pub enum Output {
    /// The standard output stream.
    Stdout,
    /// A named file, or the destination directory when extracting.
    Path(String),
}

/// How the downloaded archive is materialized.
pub enum MaterializePlan {
    /// Hand the downloaded bytes to this sink unmodified.
    WriteRaw(Output),
    /// Unpack the gzipped tar archive in the working directory, producing
    /// `dir`; afterwards move it to `rename_to` when one is given.
    Extract { dir: String, rename_to: Option<String> },
}

/// The directory an extracted archive lands in: `./NAME-VERSION`.
pub open spec fn spec_extraction_dir(name: Seq<char>, v: VersionView) -> Seq<char> {
    "./"@ + name + "-"@ + render_version(v)
}

/// Decide the materialization step for the downloaded bytes.
pub fn plan_materialize(name: &str, version: &Version, extract: bool, output: &Option<Output>)
    -> (p: MaterializePlan)
    ensures
        extract ==> (p matches MaterializePlan::Extract { dir, rename_to }
            && dir@ == spec_extraction_dir(name@, version@)
            && (match output {
                Some(Output::Path(q)) => rename_to matches Some(t) && t@ == q@,
                _ => rename_to is None,
            })),
        !extract ==> (p matches MaterializePlan::WriteRaw(o)
            && (match output {
                Some(Output::Path(q)) => o matches Output::Path(t) && t@ == q@,
                _ => o is Stdout,
            })),
{
    if extract {
        let mut dir = String::from_str("./");
        dir.append(name);
        dir.append("-");
        let vs = version.version_string();
        dir.append(vs.as_str());
        proof {
            assert(dir@ =~= spec_extraction_dir(name@, version@));
        }
        let rename_to = match output {
            Some(Output::Path(q)) => Some(String::from_str(q.as_str())),
            _ => None,
        };
        MaterializePlan::Extract { dir, rename_to }
    } else {
        let sink = match output {
            Some(Output::Path(q)) => Output::Path(String::from_str(q.as_str())),
            _ => Output::Stdout,
        };
        MaterializePlan::WriteRaw(sink)
    }
}

// ---------------------------------------------------------------------------
// Options
// ---------------------------------------------------------------------------

/// Options a run of the pipeline is configured with.
#[derive(Clone, Debug)]
pub struct Options {
    /// Logging verbosity: positive for `-v` repetitions, negative for `-q`.
    pub verbosity: i64,
    /// The crate to download.
    pub crate_: Crate,
    /// Whether to extract the downloaded archive.
    pub extract: bool,
    /// The requested output sink, when one was named.
    pub output: Option<Output>,
}

impl Options {
    /// Whether logging is more verbose than the default.
    pub fn verbose(&self) -> (r: bool)
        ensures r == (self.verbosity > 0),
    {
        self.verbosity > 0
    }

    /// Whether logging is quieter than the default.
    pub fn quiet(&self) -> (r: bool)
        ensures r == (self.verbosity < 0),
    {
        self.verbosity < 0
    }

    /// Build options from the counted verbosity flags.
    pub fn from_counts(
        verbose_count: u32,
        quiet_count: u32,
        crate_: Crate,
        extract: bool,
        output: Option<Output>,
    ) -> (r: Options)
        ensures
            r.verbosity == verbose_count as i64 - quiet_count as i64,
            r.crate_ == crate_,
            r.extract == extract,
            r.output == output,
    {
        Options {
            verbosity: verbose_count as i64 - quiet_count as i64,
            crate_,
            extract,
            output,
        }
    }
}

// ---------------------------------------------------------------------------
// Logging
// ---------------------------------------------------------------------------

/// The signature line logged at startup: the program name, then its version
/// or a placeholder when the version is unknown.
pub fn log_signature(name: &str, version: Option<&str>) -> (r: String)
    ensures
        match version {
            Some(v) => r@ == name@ + " v"@ + v@,
            None => r@ == name@ + " <UNKNOWN VERSION>"@,
        },
{
    let mut s = String::from_str(name);
    match version {
        Some(v) => {
            s.append(" v");
            s.append(v);
            proof {
                assert(s@ =~= name@ + " v"@ + v@);
            }
        }
        None => {
            s.append(" <UNKNOWN VERSION>");
        }
    }
    s
}

} // verus!
