//! Reading layer manifests.
//!
//! A manifest is a JSON object with the five required members `id`, `name`,
//! `description`, `version` and `enabled`. The decoding — parsing the text
//! and reading those five members out of it — is delegated to serde_json
//! behind a trusted wrapper, and semantic-version checking to semver; what
//! is verified here is everything built on their named results: the
//! assembly of the record, the injection of its path, and the decisions
//! about when a text is accepted.

use vstd::prelude::*;
use crate::Layer;

verus! {

/// The fields of a manifest text, in declaration order
/// (`id`, `name`, `description`, `version`, `enabled`),
/// or `None` where the text is not an acceptable manifest.
pub uninterp spec fn manifest_fields_of(s: Seq<char>) -> Option<
    (Seq<char>, Seq<char>, Seq<char>, Seq<char>, bool),
>;

/// Whether a version string parses as a semantic version.
pub uninterp spec fn semver_ok(s: Seq<char>) -> bool;

/// Relies on serde_json::from_str together with the accessors
/// serde_json::Value::get, Value::as_str and Value::as_bool: their results
/// are functions of the manifest text alone. The text is accepted exactly
/// when serde_json parses it as a JSON value holding string members `id`,
/// `name`, `description` and `version` and a boolean member `enabled`.
#[verifier::external_body]
fn parse_manifest_text(s: &str) -> (r: Option<(String, String, String, String, bool)>)
    ensures
        r is Some <==> manifest_fields_of(s@) is Some,
        (match (r, manifest_fields_of(s@)) {
            (Some(f), Some(m)) => f.0@ == m.0 && f.1@ == m.1 && f.2@ == m.2 && f.3@ == m.3
                && f.4 == m.4,
            (None, None) => true,
            _ => false,
        }),
{
    let v: serde_json::Value = serde_json::from_str(s).ok()?;
    let id = v.get("id")?.as_str()?.to_owned();
    let name = v.get("name")?.as_str()?.to_owned();
    let description = v.get("description")?.as_str()?.to_owned();
    let version = v.get("version")?.as_str()?.to_owned();
    let enabled = v.get("enabled")?.as_bool()?;
    Some((id, name, description, version, enabled))
}

/// Relies on semver::Version::parse: whether a string is a valid semantic
/// version is a function of the string alone.
#[verifier::external_body]
fn version_parses(s: &str) -> (r: bool)
    ensures
        r == semver_ok(s@),
{
    semver::Version::parse(s).is_ok()
}

/// The text decodes as a manifest record.
pub open spec fn manifest_accepted(text: Seq<char>) -> bool {
    manifest_fields_of(text) is Some
}

/// The text decodes as a manifest record whose version field is a valid
/// semantic version.
pub open spec fn manifest_version_ok(text: Seq<char>) -> bool {
    match manifest_fields_of(text) {
        Some(m) => semver_ok(m.3),
        None => false,
    }
}

/// `l` carries exactly the fields of the manifest `text`, with `dir`
/// injected as its path.
pub open spec fn layer_matches_manifest(l: Layer, text: Seq<char>, dir: Seq<char>) -> bool {
    match manifest_fields_of(text) {
        Some(m) => l.id@ == m.0 && l.name@ == m.1 && l.description@ == m.2 && l.version@ == m.3
            && l.enabled == m.4 && l.path@ == dir,
        None => false,
    }
}

/// Decodes a manifest text into a `Layer` rooted at `dir`.
///
/// Succeeds exactly when the text is an acceptable manifest; the version
/// field is not checked here.
pub fn read_layer(text: &str, dir: &str) -> (r: Option<Layer>)
    ensures
        r is Some <==> manifest_accepted(text@),
        (match r {
            Some(l) => layer_matches_manifest(l, text@, dir@),
            None => true,
        }),
{
    match parse_manifest_text(text) {
        Some(f) => Some(
            Layer {
                id: f.0,
                name: f.1,
                description: f.2,
                version: f.3,
                enabled: f.4,
                path: dir.to_owned(),
            },
        ),
        None => None,
    }
}

/// Decodes a manifest text into a `Layer` rooted at `dir` and checks that
/// its version field is a valid semantic version.
///
/// Succeeds exactly when the text is an acceptable manifest with a valid
/// version.
pub fn read_valid_layer(text: &str, dir: &str) -> (r: Option<Layer>)
    ensures
        r is Some <==> manifest_version_ok(text@),
        (match r {
            Some(l) => layer_matches_manifest(l, text@, dir@) && semver_ok(l.version@),
            None => true,
        }),
{
    match read_layer(text, dir) {
        Some(l) => {
            if version_parses(l.version.as_str()) {
                Some(l)
            } else {
                None
            }
        },
        None => None,
    }
}

} // verus!
