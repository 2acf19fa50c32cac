//! Trusted boundary to the `semver` crate, which supplies the range-expression
//! grammar (`^`, `~`, `=`, comparison chains, wildcards) and its matching
//! semantics. Both are functions of the texts involved alone, so they are
//! named by uninterpreted spec functions that the wrappers' contracts apply.

use vstd::prelude::*;

verus! {

/// Whether `semver::VersionReq::parse` accepts `text` as a range expression.
pub uninterp spec fn valid_range(text: Seq<char>) -> bool;

/// What `semver::VersionReq::matches` answers for the requirement parsed from
/// `req_text` and the version parsed from `version_text`; `false` when either
/// text is rejected by the `semver` parsers.
pub uninterp spec fn range_matches(req_text: Seq<char>, version_text: Seq<char>) -> bool;

/// Relies on `semver::VersionReq::parse`: deterministic in the text, `Ok`
/// exactly on well-formed range expressions, `Err` carrying a message.
#[verifier::external_body]
pub fn check_range_syntax(text: &str) -> (r: Result<(), String>)
    ensures r is Ok <==> valid_range(text@),
{
    match semver::VersionReq::parse(text) {
        Ok(_) => Ok(()),
        Err(e) => Err(format!("{}", e)),
    }
}

/// Relies on `semver::VersionReq::parse`, `semver::Version::parse` and
/// `semver::VersionReq::matches`: each is deterministic in its text input,
/// so the answer is a function of the two texts alone.
#[verifier::external_body]
pub fn range_matches_exec(req_text: &str, version_text: &str) -> (r: bool)
    ensures r == range_matches(req_text@, version_text@),
{
    let req = match semver::VersionReq::parse(req_text) {
        Ok(r) => r,
        Err(_) => return false,
    };
    let ver = match semver::Version::parse(version_text) {
        Ok(v) => v,
        Err(_) => return false,
    };
    req.matches(&ver)
}

} // verus!
