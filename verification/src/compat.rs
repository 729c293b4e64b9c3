//! Protocol versions.
use serde::Deserialize;
use vstd::prelude::*;

use crate::msgpack;

verus! {

/// The versions of `semver`, whose fields verified code reads.
#[verifier::external_type_specification]
pub struct ExVersion(semver::Version);

/// The identifiers of `semver` that follow the three numbers of a version.
#[verifier::external_type_specification]
pub struct ExIdentifier(semver::Identifier);

/// An identifier as a mathematical value.
pub enum IdentifierSpec {
    Numeric(u64),
    AlphaNumeric(Seq<char>),
}

/// A version as a mathematical value.
#[verifier::ext_equal]
pub struct VersionSpec {
    pub major: u64,
    pub minor: u64,
    pub patch: u64,
    pub pre: Seq<IdentifierSpec>,
    pub build: Seq<IdentifierSpec>,
}

/// The value of an identifier.
pub open spec fn identifier_view(identifier: semver::Identifier) -> IdentifierSpec {
    match identifier {
        semver::Identifier::Numeric(n) => IdentifierSpec::Numeric(n),
        semver::Identifier::AlphaNumeric(s) => IdentifierSpec::AlphaNumeric(s@),
    }
}

/// The value of a version.
pub open spec fn version_view(version: semver::Version) -> VersionSpec {
    VersionSpec {
        major: version.major,
        minor: version.minor,
        patch: version.patch,
        pre: version.pre@.map_values(|i: semver::Identifier| identifier_view(i)),
        build: version.build@.map_values(|i: semver::Identifier| identifier_view(i)),
    }
}

/// The value of an optional version.
pub open spec fn found_view(found: Option<semver::Version>) -> Option<VersionSpec> {
    match found {
        Some(version) => Some(version_view(version)),
        None => None,
    }
}

/// The version that `semver::Version::parse` reads in a text; `None` where the text is no version.
pub uninterp spec fn parsed_version(text: Seq<char>) -> Option<VersionSpec>;

/// The version in the string at the start of MessagePack data, and the size of that string.
pub open spec fn version_of(data: Seq<u8>) -> Option<(VersionSpec, nat)> {
    match msgpack::str_of(data) {
        Some((text, size)) => match parsed_version(vstd::utf8::decode_utf8(text)) {
            Some(version) => Some((version, size)),
            None => None,
        },
        None => None,
    }
}

/// `semver::Version::deserialize` on an `rmp_serde::Deserializer` over a slice: the version that
/// the string at the start of the slice parses to, and the bytes read. Fails where there is no
/// complete string in UTF-8, or where the string is no version.
#[verifier::external_body]
pub(crate) fn decode_version(data: &[u8]) -> (r: Result<
    (semver::Version, u64),
    rmp_serde::decode::Error,
>)
    ensures
        match r {
            Ok((version, size)) => msgpack::str_of(data@) matches Some((text, n)) && n == size
                && parsed_version(vstd::utf8::decode_utf8(text)) == Some(version_view(version)),
            Err(_) => msgpack::str_of(data@) matches Some((text, _)) ==> parsed_version(
                vstd::utf8::decode_utf8(text),
            ) is None,
        },
{
    let mut cursor = std::io::Cursor::new(data);
    let version = semver::Version::deserialize(&mut rmp_serde::Deserializer::new(&mut cursor))?;
    Ok((version, cursor.position()))
}

/// `semver::VersionReq::parse` and `matches` for the requirement `1.0.0`, which admits every
/// version from 1.0.0 up to, not including, 2.0.0, pre-releases excepted.
#[verifier::external_body]
fn satisfies(requirement: &str, version: &semver::Version) -> (r: bool)
    requires
        requirement@ == "1.0.0"@,
    ensures
        r == (version.major == 1 && version.pre@.len() == 0),
{
    semver::VersionReq::parse(requirement).unwrap().matches(version)
}

/// Whether a client that speaks this version of the protocol is compatible with the node.
pub open spec fn is_compatible_spec(version: VersionSpec) -> bool {
    version.major == 1 && version.pre.len() == 0
}

/// Whether a version comes before a release in the order of versions: the numbers are compared one
/// after the other, and a pre-release comes before the release with its numbers.
pub open spec fn precedes_release(
    version: VersionSpec,
    major: u64,
    minor: u64,
    patch: u64,
) -> bool {
    if version.major != major {
        version.major < major
    } else if version.minor != minor {
        version.minor < minor
    } else if version.patch != patch {
        version.patch < patch
    } else {
        version.pre.len() > 0
    }
}

/// The compatible versions are the releases from 1.0.0 up to, not including, 2.0.0.
pub proof fn law_compatible_releases(version: VersionSpec)
    ensures
        is_compatible_spec(version) <==> {
            &&& version.pre.len() == 0
            &&& !precedes_release(version, 1, 0, 0)
            &&& precedes_release(version, 2, 0, 0)
        },
{
}

/// Of two releases with the same major number, both are compatible or neither is. No pre-release
/// is, and build metadata does not count.
pub proof fn law_only_major_counts(version: VersionSpec, other: VersionSpec)
    ensures
        version.pre.len() == 0 && other.pre.len() == 0 && version.major == other.major ==> (
        is_compatible_spec(version) <==> is_compatible_spec(other)),
        version.pre.len() > 0 ==> !is_compatible_spec(version),
{
}

/// Whether a client that speaks this version of the protocol is compatible with the node.
pub fn is_compatible(version: &semver::Version) -> (r: bool)
    ensures
        r == is_compatible_spec(version_view(*version)),
        r == (version.pre@.len() == 0 && !precedes_release(version_view(*version), 1, 0, 0)
            && precedes_release(version_view(*version), 2, 0, 0)),
{
    satisfies("1.0.0", version)
}

/// The version of the protocol that the node speaks.
pub open spec fn server_version_spec() -> VersionSpec {
    VersionSpec { major: 1, minor: 0, patch: 0, pre: Seq::empty(), build: Seq::empty() }
}

/// `semver::Version::parse`: the version in a text. That of `1.0.0` is spelt out.
#[verifier::external_body]
fn parse_version(text: &str) -> (r: Option<semver::Version>)
    ensures
        found_view(r) == parsed_version(text@),
        text@ == "1.0.0"@ ==> found_view(r) == Some(server_version_spec()),
{
    semver::Version::parse(text).ok()
}

/// The version of the protocol that the node speaks.
pub fn server_version() -> (r: semver::Version)
    ensures
        version_view(r) == server_version_spec(),
        parsed_version("1.0.0"@) == Some(version_view(r)),
        r.major == 1 && r.minor == 0 && r.patch == 0,
        r.pre@.len() == 0 && r.build@.len() == 0,
{
    let version = parse_version("1.0.0").unwrap();
    assert(version_view(version).pre.len() == version.pre@.len());
    assert(version_view(version).build.len() == version.build@.len());
    version
}

/// The value of an optional version is that of the version.
pub proof fn law_found_view(version: semver::Version)
    ensures
        found_view(Some(version)) == Some(version_view(version)),
        found_view(None) is None,
{
}

} // verus!
