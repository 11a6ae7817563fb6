//! What the library takes from the `semver` crate. Everything here works on
//! plain values: versions by their fields, requirements by their text.

use vstd::prelude::*;

use crate::precedence::{version_order, Precedence};
use crate::version::{
    model_of, version_of, version_round_trip, version_text, Version, VersionModel,
};

verus! {

/// The error of a failed parse in `semver`. Nothing is known of its contents.
#[verifier::external_type_specification]
#[verifier::external_body]
pub struct ExSemverError(semver::Error);

/// Whether `semver::VersionReq::parse` accepts a text.
pub uninterp spec fn requirement_reads(requirement: Seq<char>) -> bool;

/// Whether the requirement that a text writes admits a version, as
/// `semver::VersionReq::matches` answers it. Build metadata plays no part.
pub uninterp spec fn requirement_admits(
    requirement: Seq<char>,
    major: u64,
    minor: u64,
    patch: u64,
    pre: Seq<char>,
) -> bool;

/// Whether `requirement` admits the version `m`.
pub open spec fn admits(requirement: Seq<char>, m: VersionModel) -> bool {
    requirement_admits(requirement, m.major, m.minor, m.patch, m.pre)
}

/// A version requirement, held as the text that writes it.
#[derive(Debug, PartialEq, Eq)]
pub struct Requirement {
    pub text: String,
}

/// `semver::Version::parse`: it accepts exactly the texts that write a version,
/// `major.minor.patch` with numbers up to `u64::MAX` and without leading zeros,
/// then an optional `-pre` and an optional `+build`, and returns the version
/// written.
#[verifier::external_body]
fn semver_version(text: &str) -> (r: Result<Version, semver::Error>)
    ensures
        r matches Ok(v) ==> v@.well_formed() && version_text(v@) == text@,
        r is Err ==> forall|m: VersionModel|
            m.well_formed() ==> #[trigger] version_text(m) != text@,
{
    match semver::Version::parse(text) {
        Ok(v) => Ok(
            Version {
                major: v.major,
                minor: v.minor,
                patch: v.patch,
                pre: v.pre.as_str().to_string(),
                build: v.build.as_str().to_string(),
            },
        ),
        Err(e) => Err(e),
    }
}

/// The comparison of two `semver::Version` values, `Ord::cmp`: numbers from left
/// to right, then pre-releases, with a release above its pre-releases, then build
/// metadata. Pre-releases and build metadata compare identifier by identifier:
/// numeric ones by value, numeric below other ones, other ones in ASCII order, and
/// in build metadata, where leading zeros may occur, fewer of them lower.
#[verifier::external_body]
pub(crate) fn semver_compare(a: &Version, b: &Version) -> (r: Precedence)
    requires
        a@.well_formed(),
        b@.well_formed(),
    ensures
        r == version_order(a@, b@),
{
    let pre = semver::Prerelease::new(&a.pre).unwrap();
    let build = semver::BuildMetadata::new(&a.build).unwrap();
    let left = semver::Version { major: a.major, minor: a.minor, patch: a.patch, pre, build };
    let pre = semver::Prerelease::new(&b.pre).unwrap();
    let build = semver::BuildMetadata::new(&b.build).unwrap();
    let right = semver::Version { major: b.major, minor: b.minor, patch: b.patch, pre, build };
    match left.cmp(&right) {
        std::cmp::Ordering::Less => Precedence::Lower,
        std::cmp::Ordering::Equal => Precedence::Same,
        std::cmp::Ordering::Greater => Precedence::Higher,
    }
}

/// `semver::VersionReq::parse`: which texts it accepts is named. The requirement
/// is kept as the text.
#[verifier::external_body]
fn semver_requirement(text: &str) -> (r: Result<Requirement, semver::Error>)
    ensures
        r is Ok == requirement_reads(text@),
        r matches Ok(q) ==> q.text@ == text@,
{
    match semver::VersionReq::parse(text) {
        Ok(_) => Ok(Requirement { text: text.to_string() }),
        Err(e) => Err(e),
    }
}

/// `semver::VersionReq::matches`: its answer is a function of the requirement
/// and of the version without its build metadata, and is named.
#[verifier::external_body]
pub(crate) fn semver_matches(requirement: &Requirement, version: &Version) -> (r: bool)
    requires
        requirement_reads(requirement.text@),
        version@.well_formed(),
    ensures
        r == requirement_admits(
            requirement.text@,
            version.major,
            version.minor,
            version.patch,
            version.pre@,
        ),
{
    let pre = semver::Prerelease::new(&version.pre).unwrap();
    let build = semver::BuildMetadata::new(&version.build).unwrap();
    let (major, minor, patch) = (version.major, version.minor, version.patch);
    let version = semver::Version { major, minor, patch, pre, build };
    semver::VersionReq::parse(&requirement.text).unwrap().matches(&version)
}

/// Reads a version that is written in full.
pub fn parse_version(text: &str) -> (r: Option<Version>)
    ensures
        model_of(r) == version_of(text@),
        r matches Some(v) ==> v@.well_formed() && version_text(v@) == text@,
{
    match semver_version(text) {
        Ok(v) => {
            proof {
                version_round_trip(v@);
            }
            Some(v)
        },
        Err(_) => None,
    }
}

/// Reads a version requirement.
pub fn parse_requirement(text: &str) -> (r: Option<Requirement>)
    ensures
        r is Some == requirement_reads(text@),
        r matches Some(q) ==> q.text@ == text@,
{
    match semver_requirement(text) {
        Ok(q) => Some(q),
        Err(_) => None,
    }
}

} // verus!
