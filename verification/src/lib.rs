//! Verified core of a package-download pipeline: parsing `NAME[=CONSTRAINT]`
//! package specifications, filtering a registry's version list, resolving the
//! newest matching semantic version, and planning the download and
//! materialization steps.

pub mod text;
pub mod version;
pub mod order;
pub mod ranges;
pub mod constraint;
pub mod json;
pub mod registry;
pub mod resolve;
pub mod pipeline;
