//! Searching the tree of a commit for the manifest of a package.

use crate::probe::{declares, is_match, probe, probed};
use crate::text::same_text;
use vstd::prelude::*;

verus! {

/// What an entry of a tree stands for.
#[derive(Debug, PartialEq, Eq)]
pub enum Node {
    /// A file, with its bytes.
    Blob(Vec<u8>),
    /// A directory, with its entries in the tree's own order.
    Tree(Vec<Entry>),
    /// Anything else, such as a commit of another repository.
    Other,
}

/// An entry of a tree: a name, which is one component of a path, and what it names.
#[derive(Debug, PartialEq, Eq)]
pub struct Entry {
    pub name: String,
    pub node: Node,
}

/// The name of a manifest file.
pub open spec fn manifest_name() -> Seq<char> {
    "Cargo.toml"@
}

/// The entry is a file, is named as a manifest is, letter for letter, and declares the
/// package `name` at the version `version`.
pub open spec fn is_matching_manifest(e: Entry, name: Seq<char>, version: Seq<char>) -> bool {
    &&& e.name@ == manifest_name()
    &&& e.node matches Node::Blob(bytes) && declares(probed(bytes@), name, version)
}

/// The entry is such a manifest, or a directory that holds one at any depth.
pub open spec fn entry_matches(e: Entry, name: Seq<char>, version: Seq<char>) -> bool
    decreases e,
{
    match e.node {
        Node::Blob(bytes) => is_matching_manifest(e, name, version),
        Node::Tree(entries) => tree_matches(entries@, name, version),
        Node::Other => false,
    }
}

/// One of the entries is such a manifest, or a directory that holds one at any depth.
pub open spec fn tree_matches(entries: Seq<Entry>, name: Seq<char>, version: Seq<char>) -> bool
    decreases entries,
{
    exists|i: int| 0 <= i < entries.len() && entry_matches(#[trigger] entries[i], name, version)
}

/// One of the entries themselves is such a manifest.
pub open spec fn root_matches(entries: Seq<Entry>, name: Seq<char>, version: Seq<char>) -> bool {
    exists|i: int| 0 <= i < entries.len() && #[trigger] is_matching_manifest(entries[i], name, version)
}

/// Whether an entry is a manifest that declares the package `name` at the version
/// `version`.
pub fn manifest_declares(e: &Entry, name: &str, version: &str) -> (r: bool)
    ensures
        r == is_matching_manifest(*e, name@, version@),
{
    match &e.node {
        Node::Blob(bytes) => {
            if same_text(e.name.as_str(), "Cargo.toml") {
                let found = probe(bytes.as_slice());
                is_match(&found, name, version)
            } else {
                false
            }
        },
        _ => false,
    }
}

/// Whether one of the entries themselves is a manifest that declares the package.
pub fn root_declares(entries: &Vec<Entry>, name: &str, version: &str) -> (r: bool)
    ensures
        r == root_matches(entries@, name@, version@),
{
    let mut i: usize = 0;
    while i < entries.len()
        invariant
            i <= entries.len(),
            forall|k: int| 0 <= k < i ==> !is_matching_manifest(entries@[k], name@, version@),
        decreases entries.len() - i,
    {
        if manifest_declares(&entries[i], name, version) {
            return true;
        }
        i += 1;
    }
    false
}

/// Whether a tree holds, at any depth, a manifest that declares the package `name` at the
/// version `version`. Directories are searched in the tree's order, each before the
/// entries after it, and the search ends at the first such manifest.
pub fn tree_declares(entries: &Vec<Entry>, name: &str, version: &str) -> (r: bool)
    ensures
        r == tree_matches(entries@, name@, version@),
    decreases entries,
{
    let mut i: usize = 0;
    while i < entries.len()
        invariant
            i <= entries.len(),
            forall|k: int| 0 <= k < i ==> !entry_matches(entries@[k], name@, version@),
        decreases entries.len() - i,
    {
        let e = &entries[i];
        let hit = match &e.node {
            Node::Blob(bytes) => manifest_declares(e, name, version),
            Node::Tree(sub) => tree_declares(sub, name, version),
            Node::Other => false,
        };
        if hit {
            assert(entry_matches(entries@[i as int], name@, version@));
            return true;
        }
        i += 1;
    }
    false
}

/// The entry that a path of positions leads to: the first position is taken among the
/// entries, each further one among the entries of the directory reached so far.
pub open spec fn entry_at(entries: Seq<Entry>, path: Seq<int>) -> Option<Entry>
    decreases path.len(),
{
    if path.len() == 0 || !(0 <= path[0] < entries.len()) {
        None
    } else if path.len() == 1 {
        Some(entries[path[0]])
    } else {
        match entries[path[0]].node {
            Node::Tree(sub) => entry_at(sub@, path.drop_first()),
            _ => None,
        }
    }
}

/// A manifest that declares the package is found wherever it lies, at any depth.
pub proof fn lemma_match_at_any_depth(
    entries: Seq<Entry>,
    path: Seq<int>,
    name: Seq<char>,
    version: Seq<char>,
)
    requires
        entry_at(entries, path) matches Some(e) && is_matching_manifest(e, name, version),
    ensures
        tree_matches(entries, name, version),
    decreases path.len(),
{
    let first = entries[path[0]];
    if path.len() == 1 {
        assert(entry_matches(first, name, version));
    } else {
        match first.node {
            Node::Tree(sub) => {
                lemma_match_at_any_depth(sub@, path.drop_first(), name, version);
                assert(entry_matches(first, name, version));
            },
            _ => {},
        }
    }
}

/// Where the search finds something, a file lies in the tree that is named as a manifest
/// is, letter for letter, and declares the package: no other file counts, whatever its
/// name ends in.
pub proof fn lemma_match_is_a_manifest(entries: Seq<Entry>, name: Seq<char>, version: Seq<char>)
    requires
        tree_matches(entries, name, version),
    ensures
        exists|path: Seq<int>|
            (#[trigger] entry_at(entries, path)) matches Some(e) && is_matching_manifest(
                e,
                name,
                version,
            ),
    decreases entries,
{
    let i = choose|i: int| 0 <= i < entries.len() && entry_matches(#[trigger] entries[i], name, version);
    match entries[i].node {
        Node::Tree(sub) => {
            lemma_match_is_a_manifest(sub@, name, version);
            let rest = choose|path: Seq<int>|
                (#[trigger] entry_at(sub@, path)) matches Some(e) && is_matching_manifest(
                    e,
                    name,
                    version,
                );
            let path = seq![i] + rest;
            assert(path.drop_first() =~= rest);
            assert(rest.len() > 0);
            assert(entry_at(entries, path) == entry_at(sub@, rest));
        },
        _ => {
            assert(entry_at(entries, seq![i]) == Some(entries[i]));
        },
    }
}

} // verus!
