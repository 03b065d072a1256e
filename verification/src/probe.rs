//! Reading the name and the version of a package out of the bytes of a manifest.
//!
//! The bytes are decoded by the crate `toml`. Of a decoded value the contracts speak by
//! what it holds: the paths of keys that lead into it, and the strings that they lead to.

use crate::nesting::{nesting_depth, nesting_within, MAX_NESTING};
use vstd::prelude::*;
use vstd::utf8::{decode_utf8, valid_utf8};

verus! {

/// A value of a TOML document, as the crate `toml` holds it.
#[verifier::external_type_specification]
#[verifier::external_body]
pub struct ExValue(toml::Value);

/// The name and the version that a manifest declares.
#[derive(Debug, Clone, PartialEq, Eq)]
pub struct ManifestDescriptor {
    pub name: String,
    pub version: String,
}

impl View for ManifestDescriptor {
    type V = (Seq<char>, Seq<char>);

    open spec fn view(&self) -> (Seq<char>, Seq<char>) {
        (self.name@, self.version@)
    }
}

/// The paths that lead into a value: every row of one or more keys that can be looked
/// up one after the other, the first in the value itself and each further one in what
/// the keys before it led to. A key can be looked up in a table that has it.
pub uninterp spec fn paths_of(value: toml::Value) -> Set<Seq<Seq<char>>>;

/// The strings in a value, each under the path that leads to it; the value's own text
/// under the empty path, where the value is a string.
pub uninterp spec fn strings_of(value: toml::Value) -> Map<Seq<Seq<char>>, Seq<char>>;

/// What a text holds when it is read as a TOML document: the paths that lead into the
/// document, and the strings in it. Nothing where the text is no TOML document.
pub uninterp spec fn decoded(text: Seq<char>) -> Option<
    (Set<Seq<Seq<char>>>, Map<Seq<Seq<char>>, Seq<char>>),
>;

/// The paths that go on from `key`, of a set of paths.
pub open spec fn paths_under(paths: Set<Seq<Seq<char>>>, key: Seq<char>) -> Set<Seq<Seq<char>>> {
    Set::new(|p: Seq<Seq<char>>| p.len() > 0 && paths.contains(seq![key] + p))
}

/// The strings under the paths that go on from `key`, of a map of strings.
pub open spec fn strings_under(strings: Map<Seq<Seq<char>>, Seq<char>>, key: Seq<char>) -> Map<
    Seq<Seq<char>>,
    Seq<char>,
> {
    Map::new(
        |p: Seq<Seq<char>>| strings.contains_key(seq![key] + p),
        |p: Seq<Seq<char>>| strings[seq![key] + p],
    )
}

/// Reads bytes as text.
///
/// Rests on `core::str::from_utf8`, of which it claims that it gives a text exactly for
/// the bytes that are valid UTF-8, and then the characters that the bytes encode.
#[verifier::external_body]
pub(crate) fn utf8_text(bytes: &[u8]) -> (r: Option<&str>)
    ensures
        r is Some <==> valid_utf8(bytes@),
        r matches Some(text) ==> text@ == decode_utf8(bytes@),
{
    match core::str::from_utf8(bytes) {
        Ok(text) => Some(text),
        Err(_) => None,
    }
}

/// Decodes a text as a TOML document.
///
/// Rests on `toml::from_str`, read at the type `toml::Value`. What the document holds is
/// given the name `decoded`; a text that is refused holds nothing.
///
/// The decoder calls itself for every array or inline table that lies in another and for
/// every part of a key, and so does what takes the document apart again; a text that is
/// nested some thousand times exhausts the stack. Such texts are left out here.
/// `nesting_depth` reads a text by the decoder's own tokens, so the decoder never has
/// more arrays, inline tables and key parts open than it says. What is decoded lies at
/// most twice as deep, since a part of a header may name a table in an array.
#[verifier::external_body]
pub(crate) fn parse_document(text: &str) -> (r: Option<toml::Value>)
    requires
        nesting_depth(text@) <= MAX_NESTING,
    ensures
        match r {
            Some(document) => decoded(text@) == Some((paths_of(document), strings_of(document))),
            None => decoded(text@) is None,
        },
{
    match toml::from_str::<toml::Value>(text) {
        Ok(document) => Some(document),
        Err(_) => None,
    }
}

/// Looks a key up in a value.
///
/// Rests on `toml::Value::get` with a string as the index. It claims that something is
/// found exactly where the key alone is a path into the value, and that what is found
/// holds what the value holds under the paths that start with the key.
#[verifier::external_body]
pub(crate) fn get_entry<'a>(value: &'a toml::Value, key: &str) -> (r: Option<&'a toml::Value>)
    ensures
        r is Some <==> paths_of(*value).contains(seq![key@]),
        r matches Some(entry) ==> paths_of(*entry) == paths_under(paths_of(*value), key@),
        r matches Some(entry) ==> strings_of(*entry) == strings_under(strings_of(*value), key@),
{
    value.get(key)
}

/// The text of a value that is a string.
///
/// Rests on `toml::Value::as_str`. It claims that a text is given exactly where the
/// value holds a string under the empty path, and that it is that string.
#[verifier::external_body]
pub(crate) fn get_string<'a>(value: &'a toml::Value) -> (r: Option<&'a str>)
    ensures
        r is Some <==> strings_of(*value).contains_key(Seq::empty()),
        r matches Some(text) ==> strings_of(*value)[Seq::empty()] == text@,
{
    value.as_str()
}

/// The string that a path leads to, where it leads to a string.
pub open spec fn string_at(
    paths: Set<Seq<Seq<char>>>,
    strings: Map<Seq<Seq<char>>, Seq<char>>,
    path: Seq<Seq<char>>,
) -> Option<Seq<char>> {
    if paths.contains(path) && strings.contains_key(path) {
        Some(strings[path])
    } else {
        None
    }
}

/// The view of a text that may be missing.
pub open spec fn text_view(t: Option<String>) -> Option<Seq<char>> {
    match t {
        Some(t) => Some(t@),
        None => None,
    }
}

/// The text that a table holds under a key, where it holds a string there.
pub fn field(table: &toml::Value, key: &str) -> (r: Option<String>)
    ensures
        text_view(r) == string_at(paths_of(*table), strings_of(*table), seq![key@]),
{
    match get_entry(table, key) {
        Some(entry) => {
            proof {
                assert(seq![key@] + Seq::<Seq<char>>::empty() =~= seq![key@]);
            }
            match get_string(entry) {
                Some(text) => Some(String::from_str(text)),
                None => None,
            }
        },
        None => None,
    }
}

/// A descriptor, where both the name and the version were found.
pub open spec fn paired(name: Option<Seq<char>>, version: Option<Seq<char>>) -> Option<
    (Seq<char>, Seq<char>),
> {
    match (name, version) {
        (Some(n), Some(v)) => Some((n, v)),
        _ => None,
    }
}

/// A descriptor, where both the name and the version were found.
pub fn descriptor_from(name: Option<String>, version: Option<String>) -> (r: Option<
    ManifestDescriptor,
>)
    ensures
        match (name, version) {
            (Some(n), Some(v)) => r == Some(ManifestDescriptor { name: n, version: v }),
            _ => r is None,
        },
{
    match name {
        Some(n) => match version {
            Some(v) => Some(ManifestDescriptor { name: n, version: v }),
            None => None,
        },
        None => None,
    }
}

/// The key of the table that describes the package: `package`, or, where nothing stands
/// under that, `project`, or none where nothing stands under either.
pub open spec fn package_key(paths: Set<Seq<Seq<char>>>) -> Option<Seq<char>> {
    if paths.contains(seq!["package"@]) {
        Some("package"@)
    } else if paths.contains(seq!["project"@]) {
        Some("project"@)
    } else {
        None
    }
}

/// What a document declares that holds the given paths and strings: the strings under
/// `name` and `version` of the table that describes the package. Nothing where the
/// table or one of the two is missing.
pub open spec fn described(paths: Set<Seq<Seq<char>>>, strings: Map<Seq<Seq<char>>, Seq<char>>) -> Option<
    (Seq<char>, Seq<char>),
> {
    match package_key(paths) {
        Some(table) => paired(
            string_at(paths, strings, seq![table, "name"@]),
            string_at(paths, strings, seq![table, "version"@]),
        ),
        None => None,
    }
}

/// What a text declares, read as a TOML document. Nothing where it is no such document,
/// or where its arrays, inline tables and key parts nest deeper than `MAX_NESTING`: so
/// deep a text is not handed to the decoder.
pub open spec fn described_text(text: Seq<char>) -> Option<(Seq<char>, Seq<char>)> {
    if nesting_depth(text) <= MAX_NESTING {
        match decoded(text) {
            Some(held) => described(held.0, held.1),
            None => None,
        }
    } else {
        None
    }
}

/// What the bytes of a manifest declare. Nothing where they are no text.
pub open spec fn probed(bytes: Seq<u8>) -> Option<(Seq<char>, Seq<char>)> {
    if valid_utf8(bytes) {
        described_text(decode_utf8(bytes))
    } else {
        None
    }
}

/// The view of a descriptor that may be missing.
pub open spec fn descriptor_view(d: Option<ManifestDescriptor>) -> Option<(Seq<char>, Seq<char>)> {
    match d {
        Some(d) => Some(d@),
        None => None,
    }
}

/// The name and the version in a table that was found under `key` in a document.
fn describe_table(document: &toml::Value, table: &toml::Value, key: &str) -> (r: Option<
    ManifestDescriptor,
>)
    requires
        paths_of(*table) == paths_under(paths_of(*document), key@),
        strings_of(*table) == strings_under(strings_of(*document), key@),
    ensures
        descriptor_view(r) == paired(
            string_at(paths_of(*document), strings_of(*document), seq![key@, "name"@]),
            string_at(paths_of(*document), strings_of(*document), seq![key@, "version"@]),
        ),
{
    let name = field(table, "name");
    let version = field(table, "version");
    proof {
        assert(seq![key@] + seq!["name"@] =~= seq![key@, "name"@]);
        assert(seq![key@] + seq!["version"@] =~= seq![key@, "version"@]);
    }
    descriptor_from(name, version)
}

/// What a document declares.
pub fn describe(document: &toml::Value) -> (r: Option<ManifestDescriptor>)
    ensures
        descriptor_view(r) == described(paths_of(*document), strings_of(*document)),
{
    match get_entry(document, "package") {
        Some(table) => describe_table(document, table, "package"),
        None => match get_entry(document, "project") {
            Some(table) => describe_table(document, table, "project"),
            None => None,
        },
    }
}

/// What a text declares, read as a TOML document.
pub fn probe_text(text: &str) -> (r: Option<ManifestDescriptor>)
    ensures
        descriptor_view(r) == described_text(text@),
{
    if !nesting_within(text) {
        return None;
    }
    match parse_document(text) {
        Some(document) => describe(&document),
        None => None,
    }
}

/// What the bytes of a manifest declare.
pub fn probe(bytes: &[u8]) -> (r: Option<ManifestDescriptor>)
    ensures
        descriptor_view(r) == probed(bytes@),
{
    match utf8_text(bytes) {
        Some(text) => probe_text(text),
        None => None,
    }
}

/// Whether what a manifest declares is the package `name` at the version `version`.
pub open spec fn declares(
    found: Option<(Seq<char>, Seq<char>)>,
    name: Seq<char>,
    version: Seq<char>,
) -> bool {
    found == Some((name, version))
}

/// Whether what a manifest declares is the package `name` at the version `version`.
pub fn is_match(found: &Option<ManifestDescriptor>, name: &str, version: &str) -> (r: bool)
    ensures
        r == declares(descriptor_view(*found), name@, version@),
{
    match found {
        Some(d) => crate::text::same_text(d.name.as_str(), name) && crate::text::same_text(
            d.version.as_str(),
            version,
        ),
        None => false,
    }
}

} // verus!
