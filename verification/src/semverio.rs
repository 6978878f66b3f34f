//! Trusted boundary to the semver crate: parsing a version string into its
//! numeric components and the emptiness of its pre-release and build parts.

use vstd::prelude::*;

verus! {

/// A release version: major, minor and patch numbers of a stable version.
#[derive(Debug, Clone, Copy, PartialEq, Eq, Structural)]
pub struct SemVer {
    pub major: u64,
    pub minor: u64,
    pub patch: u64,
}

/// What semver parsing yields on a text: the numeric components plus
/// whether the pre-release and build parts are empty, or nothing when the
/// text is not a valid version.
pub uninterp spec fn semver_parse_of(s: Seq<char>) -> Option<(u64, u64, u64, bool, bool)>;

/// Relies on semver::Version::parse: reads a version text into its major,
/// minor and patch numbers and the emptiness of its pre-release and build
/// metadata.
#[verifier::external_body]
pub fn semver_parse(s: &str) -> (r: Option<(u64, u64, u64, bool, bool)>)
    ensures
        r == semver_parse_of(s@),
{
    match semver::Version::parse(s) {
        Ok(v) => Some((v.major, v.minor, v.patch, v.pre.is_empty(), v.build.is_empty())),
        Err(_) => None,
    }
}

} // verus!
