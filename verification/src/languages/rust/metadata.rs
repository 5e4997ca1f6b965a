//! Package metadata read from a crate's `Cargo.toml`.

use vstd::prelude::*;
use crate::error::LaibraryError;
use crate::paths::{join_path, opt_view, path_join};
use crate::types::PackageMetadata;

verus! {

#[verifier::external_type_specification]
#[verifier::external_body]
pub struct ExTomlValue(toml::Value);

#[verifier::external_type_specification]
#[verifier::external_body]
pub struct ExTomlError(toml::de::Error);

/// Whether `toml` accepts a text as a TOML document.
pub uninterp spec fn toml_accepts(text: Seq<char>) -> bool;

/// The document `toml` reads from a text it accepts.
pub uninterp spec fn toml_document(text: Seq<char>) -> toml::Value;

/// The value `toml::Value::get` finds under `key`: the entry of a table, or
/// nothing for a table without it and for any other value.
pub uninterp spec fn toml_entry(value: toml::Value, key: Seq<char>) -> Option<toml::Value>;

/// The text `toml::Value::as_str` gives of a string value, or nothing for any
/// other value.
pub uninterp spec fn toml_text(value: toml::Value) -> Option<Seq<char>>;

/// `str::parse::<toml::Value>`, which `toml` implements as a full parse of the
/// text as a TOML document. The contract claims that success and the value
/// read are functions of the text.
#[verifier::external_body]
fn parse_toml(text: &str) -> (r: Result<toml::Value, toml::de::Error>)
    ensures
        r is Ok == toml_accepts(text@),
        r matches Ok(v) ==> v == toml_document(text@),
{
    text.parse::<toml::Value>()
}

/// The `Display` text of a `toml::de::Error`. Nothing is claimed of it.
#[verifier::external_body]
fn toml_error_message(e: &toml::de::Error) -> String {
    e.to_string()
}

/// `toml::Value::get` with a string key: the value under `key` when the value
/// is a table that holds it. The contract claims that the outcome is a
/// function of the value and the key.
#[verifier::external_body]
fn toml_get<'a>(v: &'a toml::Value, key: &str) -> (r: Option<&'a toml::Value>)
    ensures
        match r {
            Some(x) => toml_entry(*v, key@) == Some(*x),
            None => toml_entry(*v, key@) is None,
        },
{
    v.get(key)
}

/// `toml::Value::as_str`, copied: the text of a string value. The contract
/// claims that the outcome is a function of the value.
#[verifier::external_body]
fn toml_as_str(v: &toml::Value) -> (r: Option<String>)
    ensures
        opt_view(r) == toml_text(*v),
{
    match v.as_str() {
        Some(s) => Some(s.to_string()),
        None => None,
    }
}

/// The string under `key` in a TOML value, if any.
pub open spec fn string_in(v: toml::Value, key: Seq<char>) -> Option<Seq<char>> {
    match toml_entry(v, key) {
        Some(x) => toml_text(x),
        None => None,
    }
}

/// The `name` and `version` strings of the `[package]` table of an accepted
/// manifest text, or nothing when it has no `package` entry.
pub open spec fn manifest_package(text: Seq<char>) -> Option<(Option<Seq<char>>, Option<Seq<char>>)> {
    match toml_entry(toml_document(text), "package"@) {
        Some(p) => Some((string_in(p, "name"@), string_in(p, "version"@))),
        None => None,
    }
}

/// The string at `lib.path` of an accepted manifest text, if any.
pub open spec fn manifest_lib_path(text: Seq<char>) -> Option<Seq<char>> {
    match toml_entry(toml_document(text), "lib"@) {
        Some(l) => string_in(l, "path"@),
        None => None,
    }
}

/// The `[package]` fields the metadata is read from.
#[derive(Debug)]
pub struct PackageFields {
    pub name: Option<String>,
    pub version: Option<String>,
}

/// What the metadata reads of a manifest: its `[package]` table, if any, and
/// the string at `lib.path`, if any.
#[derive(Debug)]
pub struct ManifestDocument {
    pub package: Option<PackageFields>,
    pub lib_path: Option<String>,
}

impl ManifestDocument {
    /// The document as plain values: the `name` and `version` of its
    /// `[package]` table, if any, and its `lib.path`.
    pub open spec fn view(self) -> (Option<(Option<Seq<char>>, Option<Seq<char>>)>, Option<Seq<char>>) {
        (
            match self.package {
                Some(p) => Some((opt_view(p.name), opt_view(p.version))),
                None => None,
            },
            opt_view(self.lib_path),
        )
    }
}

/// The string under `key` in a TOML value, if the value is a table holding a string there.
fn string_at(v: &toml::Value, key: &str) -> (r: Option<String>)
    ensures
        opt_view(r) == string_in(*v, key@),
{
    match toml_get(v, key) {
        Some(x) => toml_as_str(x),
        None => None,
    }
}

/// Reads the fields the metadata needs out of a manifest text; the error is the
/// message of the TOML parse error.
pub fn read_manifest(text: &str) -> (r: Result<ManifestDocument, String>)
    ensures
        r is Ok == toml_accepts(text@),
        r matches Ok(doc) ==> doc.view() == (manifest_package(text@), manifest_lib_path(text@)),
{
    match parse_toml(text) {
        Err(e) => Err(toml_error_message(&e)),
        Ok(doc) => {
            let package = match toml_get(&doc, "package") {
                Some(p) => Some(PackageFields { name: string_at(p, "name"), version: string_at(p, "version") }),
                None => None,
            };
            let lib_path = match toml_get(&doc, "lib") {
                Some(l) => string_at(l, "path"),
                None => None,
            };
            Ok(ManifestDocument { package, lib_path })
        },
    }
}

/// The package's name and version, or the first thing missing: a manifest that
/// does not parse, then the `[package]` section, its `name`, its `version`.
pub open spec fn manifest_identity(m: Result<ManifestDocument, String>) -> Result<(Seq<char>, Seq<char>), Seq<char>> {
    match m {
        Err(e) => Err("Failed to parse Cargo.toml: "@ + e@),
        Ok(doc) => match doc.package {
            None => Err("Missing [package] section in Cargo.toml"@),
            Some(p) => match p.name {
                None => Err("Missing 'name' in [package] section"@),
                Some(n) => match p.version {
                    None => Err("Missing 'version' in [package] section"@),
                    Some(v) => Ok((n@, v@)),
                },
            },
        },
    }
}

/// The package's name and version from a manifest as read.
pub fn package_identity(manifest: &Result<ManifestDocument, String>) -> (r: Result<(String, String), LaibraryError>)
    ensures
        match manifest_identity(*manifest) {
            Ok((n, v)) => r matches Ok((x, y)) && x@ == n && y@ == v,
            Err(e) => r matches Err(LaibraryError::Parse(m)) && m@ == e,
        },
{
    let doc = match manifest {
        Err(e) => {
            let mut m = String::from_str("Failed to parse Cargo.toml: ");
            m.append(e.as_str());
            return Err(LaibraryError::Parse(m));
        },
        Ok(doc) => doc,
    };
    let package = match &doc.package {
        Some(p) => p,
        None => return Err(LaibraryError::Parse(String::from_str("Missing [package] section in Cargo.toml"))),
    };
    let name = match &package.name {
        Some(n) => n.clone(),
        None => return Err(LaibraryError::Parse(String::from_str("Missing 'name' in [package] section"))),
    };
    let version = match &package.version {
        Some(v) => v.clone(),
        None => return Err(LaibraryError::Parse(String::from_str("Missing 'version' in [package] section"))),
    };
    Ok((name, version))
}

/// The entry point of the crate in `crate_dir`: `lib.path` joined onto it, or
/// `src/lib.rs` when the manifest names none.
pub open spec fn entry_point_of(crate_dir: Seq<char>, doc: ManifestDocument) -> Seq<char> {
    match doc.lib_path {
        Some(p) => path_join(crate_dir, p@),
        None => path_join(crate_dir, "src/lib.rs"@),
    }
}

/// The metadata of the crate in `crate_dir`, from its manifest as read and its
/// README text.
pub fn metadata_from_manifest(
    crate_dir: &str,
    manifest: &Result<ManifestDocument, String>,
    documentation: String,
) -> (r: Result<PackageMetadata, LaibraryError>)
    ensures
        match manifest_identity(*manifest) {
            Ok((n, v)) => r matches Ok(md) && md.name@ == n && md.version@ == v
                && md.documentation@ == documentation@
                && md.entry_point@ == entry_point_of(crate_dir@, manifest->Ok_0),
            Err(e) => r matches Err(LaibraryError::Parse(m)) && m@ == e,
        },
{
    let (name, version) = package_identity(manifest)?;
    let doc = match manifest {
        Ok(doc) => doc,
        Err(_) => return Err(LaibraryError::Parse(String::new())),
    };
    let entry_point = match &doc.lib_path {
        Some(p) => join_path(crate_dir, p.as_str()),
        None => join_path(crate_dir, "src/lib.rs"),
    };
    Ok(PackageMetadata { name, version, documentation, entry_point })
}

/// The package's name and version in an accepted manifest text, or the first
/// thing missing: the `[package]` section, its `name`, its `version`.
pub open spec fn text_identity(text: Seq<char>) -> Result<(Seq<char>, Seq<char>), Seq<char>> {
    match manifest_package(text) {
        None => Err("Missing [package] section in Cargo.toml"@),
        Some((None, _)) => Err("Missing 'name' in [package] section"@),
        Some((Some(_), None)) => Err("Missing 'version' in [package] section"@),
        Some((Some(n), Some(v))) => Ok((n, v)),
    }
}

/// The entry point of the crate in `crate_dir` with an accepted manifest text:
/// its `lib.path` joined onto the directory, or `src/lib.rs` when it names none.
pub open spec fn text_entry_point(crate_dir: Seq<char>, text: Seq<char>) -> Seq<char> {
    match manifest_lib_path(text) {
        Some(p) => path_join(crate_dir, p),
        None => path_join(crate_dir, "src/lib.rs"@),
    }
}

/// The opening of the message for a manifest `toml` does not accept.
pub open spec fn manifest_refusal() -> Seq<char> {
    "Failed to parse Cargo.toml: "@
}

/// Whether a message reports a manifest `toml` does not accept: it opens with
/// `manifest_refusal()`, followed by `toml`'s own message.
pub open spec fn reports_refused_manifest(m: Seq<char>) -> bool {
    m.len() >= manifest_refusal().len() && m.subrange(0, manifest_refusal().len() as int) == manifest_refusal()
}

/// Whether `r` is the metadata of the crate in `crate_dir` read from the
/// outcome of reading its manifest, with `documentation` as its README text:
/// the read failure, the refusal of a text `toml` does not accept, the first
/// thing missing, or the package's name, version, documentation and entry point.
pub open spec fn metadata_outcome(
    r: Result<PackageMetadata, LaibraryError>,
    crate_dir: Seq<char>,
    cargo_toml: Result<String, String>,
    documentation: Seq<char>,
) -> bool {
    match cargo_toml {
        Err(e) => r matches Err(LaibraryError::Parse(m)) && m@ == "Failed to read Cargo.toml: "@ + e@,
        Ok(text) => if !toml_accepts(text@) {
            r matches Err(LaibraryError::Parse(m)) && reports_refused_manifest(m@)
        } else {
            match text_identity(text@) {
                Ok((n, v)) => r matches Ok(md) && md.name@ == n && md.version@ == v
                    && md.documentation@ == documentation
                    && md.entry_point@ == text_entry_point(crate_dir, text@),
                Err(e) => r matches Err(LaibraryError::Parse(x)) && x@ == e,
            }
        },
    }
}

/// What the metadata reads of a manifest text is what `text_identity` and
/// `text_entry_point` describe.
pub proof fn lemma_manifest_reading(crate_dir: Seq<char>, text: Seq<char>, m: Result<ManifestDocument, String>)
    requires
        m is Ok == toml_accepts(text),
        m matches Ok(doc) ==> doc.view() == (manifest_package(text), manifest_lib_path(text)),
    ensures
        m matches Err(e) ==> manifest_identity(m) == Err::<(Seq<char>, Seq<char>), Seq<char>>(manifest_refusal() + e@),
        m is Ok ==> manifest_identity(m) == text_identity(text)
            && entry_point_of(crate_dir, m->Ok_0) == text_entry_point(crate_dir, text),
{
    if let Ok(doc) = m {
        match doc.package {
            Some(p) => {
                match p.name {
                    Some(n) => {},
                    None => {},
                }
            },
            None => {},
        }
    }
}

/// The metadata of the crate in `crate_dir`, from the outcome of reading its
/// `Cargo.toml` (its text, or the message of the I/O error) and its README text
/// (empty when there is none).
pub fn extract_metadata(
    crate_dir: &str,
    cargo_toml: &Result<String, String>,
    documentation: String,
) -> (r: Result<PackageMetadata, LaibraryError>)
    ensures
        metadata_outcome(r, crate_dir@, *cargo_toml, documentation@),
{
    match cargo_toml {
        Err(e) => {
            let mut m = String::from_str("Failed to read Cargo.toml: ");
            m.append(e.as_str());
            Err(LaibraryError::Parse(m))
        },
        Ok(text) => {
            let manifest = read_manifest(text.as_str());
            proof { lemma_manifest_reading(crate_dir@, text@, manifest); }
            let r = metadata_from_manifest(crate_dir, &manifest, documentation);
            proof {
                if let Err(e) = manifest {
                    let m = manifest_refusal() + e@;
                    assert(m.subrange(0, manifest_refusal().len() as int) =~= manifest_refusal());
                }
            }
            r
        },
    }
}

} // verus!
