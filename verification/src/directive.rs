//! The line that records a replacement: its key, its value, and how both are written.

use vstd::prelude::*;

verus! {

/// What to check out of a repository.
#[derive(Debug, Clone, PartialEq, Eq)]
pub enum GitReference {
    Branch(String),
    Tag(String),
    Rev(String),
}

/// Where a package comes from.
#[derive(Debug, Clone, PartialEq, Eq)]
pub enum SourceKind {
    /// The registry that is asked where no other is named.
    DefaultRegistry,
    /// Another registry, known by the location of its index.
    AlternateRegistry { url: String },
    /// A repository, at a reference.
    VersionControlled { url: String, reference: GitReference },
    /// A directory, known by its location as the resolver of dependencies writes it.
    LocalPath { path: String },
}

/// A package as the resolver of dependencies names it.
#[derive(Debug, Clone, PartialEq, Eq)]
pub struct PackageIdentifier {
    pub name: String,
    /// The version, as it is written.
    pub version: String,
    pub source: SourceKind,
}

/// What a package is replaced with.
#[derive(Debug, Clone, PartialEq, Eq)]
pub enum Replacement {
    /// A directory.
    Path { path: String },
    /// A repository, at a reference.
    Git { url: String, reference: GitReference },
}

/// A replacement as the manifest records it: the package that is replaced, and what
/// replaces it.
#[derive(Debug, Clone, PartialEq, Eq)]
pub struct ReplaceDirective {
    pub spec_key: String,
    pub spec_value: Replacement,
}

/// Why no replacement could be chosen.
#[derive(Debug, Clone, Copy, PartialEq, Eq)]
pub enum SelectionError {
    /// Neither a path nor a repository was given.
    NoSource,
}

/// The sixteen digits of a number written to base sixteen, capitals for ten to fifteen.
pub open spec fn hex_digits() -> Seq<char> {
    "0123456789ABCDEF"@
}

/// How one character of a string stands between the double quotes of a TOML basic string.
pub open spec fn escaped_char(c: char) -> Seq<char> {
    if c == '\u{8}' {
        "\\b"@
    } else if c == '\t' {
        "\\t"@
    } else if c == '\n' {
        "\\n"@
    } else if c == '\u{c}' {
        "\\f"@
    } else if c == '\r' {
        "\\r"@
    } else if c == '"' {
        "\\\""@
    } else if c == '\\' {
        "\\\\"@
    } else if (c as u32) < 0x1f {
        "\\u00"@ + seq![hex_digits()[(c as int) / 16], hex_digits()[(c as int) % 16]]
    } else {
        seq![c]
    }
}

/// The characters of a string, each as it stands between the double quotes.
pub open spec fn escaped(s: Seq<char>) -> Seq<char>
    decreases s.len(),
{
    if s.len() == 0 {
        Seq::empty()
    } else {
        escaped(s.drop_last()) + escaped_char(s.last())
    }
}

/// A string written as a TOML basic string on one line.
pub open spec fn quoted(s: Seq<char>) -> Seq<char> {
    seq!['"'] + escaped(s) + seq!['"']
}

/// Writes a string as a TOML value.
///
/// Rests on the `Display` of `toml::Value`, for a value that is a string. It claims that
/// the string comes out between double quotes on one line, with backspace, tab, line feed,
/// form feed, carriage return, the double quote and the backslash written as a backslash
/// and a letter or themselves, every other character below U+001F as `\u` and four digits
/// to base sixteen, and all others as they are.
#[verifier::external_body]
pub(crate) fn quote(text: &str) -> (r: String)
    ensures
        r@ == quoted(text@),
{
    toml::Value::String(text.to_string()).to_string()
}

/// The path that leads from the directory `base` to `path`, as text; none where there
/// is none.
///
/// This is what `pathdiff::diff_paths` gives for the two paths, written out as
/// `Path::display` writes it. That function reads no file and asks the system nothing:
/// it takes the two paths apart into their parts and compares them from the front. How
/// a path falls into parts, and when it is absolute, goes by the platform that the
/// library is built for. So on one platform the same two texts always give the same
/// answer, which is all that the name claims; on another platform the answer to the
/// same texts may be another.
pub uninterp spec fn relative_path(path: Seq<char>, base: Seq<char>) -> Option<Seq<char>>;

/// The path that the manifest is to name: the relative one where there is one, else the
/// absolute one.
pub open spec fn preferred(relative: Option<Seq<char>>, absolute: Seq<char>) -> Seq<char> {
    match relative {
        Some(p) => p,
        None => absolute,
    }
}

/// The path that the manifest is to name: the relative one where there is one, else the
/// absolute one.
pub fn preferred_path(relative: Option<String>, absolute: &str) -> (r: String)
    ensures
        r@ == preferred(
            match relative {
                Some(p) => Some(p@),
                None => None,
            },
            absolute@,
        ),
{
    match relative {
        Some(p) => p,
        None => String::from_str(absolute),
    }
}

/// A replacement by the directory at `absolute`, named from the project's root where a
/// path from there can be made.
pub fn path_replacement(absolute: &str, root: &str) -> (r: Replacement)
    ensures
        r matches Replacement::Path { path } && path@ == preferred(
            relative_path(absolute@, root@),
            absolute@,
        ),
{
    let relative = relative_to(absolute, root);
    Replacement::Path { path: preferred_path(relative, absolute) }
}

/// The path from the directory `base` to `path`, where there is one.
///
/// Rests on `pathdiff::diff_paths`, called with `path` first and `base` second, and on
/// `Path::display` for writing the answer out. What it gives is given the name
/// `relative_path`.
#[verifier::external_body]
pub(crate) fn relative_to(path: &str, base: &str) -> (r: Option<String>)
    ensures
        r matches Some(p) ==> relative_path(path@, base@) == Some(p@),
        r is None ==> relative_path(path@, base@) is None,
{
    match pathdiff::diff_paths(std::path::Path::new(path), std::path::Path::new(base)) {
        Some(p) => Some(p.display().to_string()),
        None => None,
    }
}

/// The reference that was asked for: the branch where one is given, else the tag, else
/// the revision, else the branch `master`.
pub open spec fn selected_reference(
    branch: Option<String>,
    tag: Option<String>,
    rev: Option<String>,
    r: GitReference,
) -> bool {
    match (branch, tag, rev) {
        (Some(b), _, _) => r == GitReference::Branch(b),
        (None, Some(t), _) => r == GitReference::Tag(t),
        (None, None, Some(v)) => r == GitReference::Rev(v),
        (None, None, None) => r matches GitReference::Branch(b) && b@ == "master"@,
    }
}

/// The reference that was asked for: the branch where one is given, else the tag, else
/// the revision, else the branch `master`.
pub fn select_reference(branch: Option<String>, tag: Option<String>, rev: Option<String>) -> (r:
    GitReference)
    ensures
        selected_reference(branch, tag, rev, r),
{
    match branch {
        Some(b) => GitReference::Branch(b),
        None => match tag {
            Some(t) => GitReference::Tag(t),
            None => match rev {
                Some(v) => GitReference::Rev(v),
                None => GitReference::Branch(String::from_str("master")),
            },
        },
    }
}

/// What replaces the package: the directory where a path is given, else the repository at
/// the reference that was asked for; nothing where neither a path nor a repository is
/// given.
pub fn select_replacement(
    path: Option<String>,
    git: Option<String>,
    branch: Option<String>,
    tag: Option<String>,
    rev: Option<String>,
) -> (r: Result<Replacement, SelectionError>)
    ensures
        match (path, git) {
            (Some(p), _) => r == Ok::<Replacement, SelectionError>(Replacement::Path { path: p }),
            (None, Some(u)) => r matches Ok(Replacement::Git { url, reference }) && url == u
                && selected_reference(branch, tag, rev, reference),
            (None, None) => r == Err::<Replacement, SelectionError>(SelectionError::NoSource),
        },
{
    match path {
        Some(p) => Ok(Replacement::Path { path: p }),
        None => match git {
            Some(u) => Ok(Replacement::Git { url: u, reference: select_reference(branch, tag, rev) }),
            None => Err(SelectionError::NoSource),
        },
    }
}

/// The location that a source other than the default registry is known by.
pub open spec fn location_of(source: SourceKind) -> Option<Seq<char>> {
    match source {
        SourceKind::DefaultRegistry => None,
        SourceKind::AlternateRegistry { url } => Some(url@),
        SourceKind::VersionControlled { url, reference } => Some(url@),
        SourceKind::LocalPath { path } => Some(path@),
    }
}

/// The key under which a package is replaced: its name, a colon and its version, and for
/// a package from anywhere but the default registry its source's location and `#` before
/// them.
pub open spec fn spec_key_of(pkg: PackageIdentifier) -> Seq<char> {
    match location_of(pkg.source) {
        None => pkg.name@ + seq![':'] + pkg.version@,
        Some(location) => location + seq!['#'] + pkg.name@ + seq![':'] + pkg.version@,
    }
}

/// The key under which a package is replaced.
pub fn spec_key(pkg: &PackageIdentifier) -> (r: String)
    ensures
        r@ == spec_key_of(*pkg),
{
    let mut key = String::new();
    match &pkg.source {
        SourceKind::DefaultRegistry => {},
        SourceKind::AlternateRegistry { url } => {
            key.append(url.as_str());
            crate::text::push_char(&mut key, '#');
        },
        SourceKind::VersionControlled { url, reference } => {
            key.append(url.as_str());
            crate::text::push_char(&mut key, '#');
        },
        SourceKind::LocalPath { path } => {
            key.append(path.as_str());
            crate::text::push_char(&mut key, '#');
        },
    }
    key.append(pkg.name.as_str());
    crate::text::push_char(&mut key, ':');
    key.append(pkg.version.as_str());
    proof {
        assert(key@ =~= spec_key_of(*pkg));
    }
    key
}

/// The record of replacing `pkg` with `replacement`.
pub fn compose(pkg: &PackageIdentifier, replacement: Replacement) -> (r: ReplaceDirective)
    ensures
        r.spec_key@ == spec_key_of(*pkg),
        r.spec_value == replacement,
{
    ReplaceDirective { spec_key: spec_key(pkg), spec_value: replacement }
}

/// What a line says of the reference, after the repository: nothing of the branch
/// `master`, else a comma, the kind of the reference and its value between double quotes.
pub open spec fn reference_suffix_of(reference: GitReference) -> Seq<char> {
    match reference {
        GitReference::Branch(b) => if b@ == "master"@ {
            Seq::empty()
        } else {
            ", branch = \""@ + b@ + seq!['"']
        },
        GitReference::Tag(t) => ", tag = \""@ + t@ + seq!['"'],
        GitReference::Rev(v) => ", rev = \""@ + v@ + seq!['"'],
    }
}

/// What a line says of the reference, after the repository.
pub fn reference_suffix(reference: &GitReference) -> (r: String)
    ensures
        r@ == reference_suffix_of(*reference),
{
    let mut out = String::new();
    match reference {
        GitReference::Branch(b) => {
            let master = String::from_str("master");
            if *b != master {
                out.append(", branch = \"");
                out.append(b.as_str());
                crate::text::push_char(&mut out, '"');
            }
        },
        GitReference::Tag(t) => {
            out.append(", tag = \"");
            out.append(t.as_str());
            crate::text::push_char(&mut out, '"');
        },
        GitReference::Rev(v) => {
            out.append(", rev = \"");
            out.append(v.as_str());
            crate::text::push_char(&mut out, '"');
        },
    }
    proof {
        assert(out@ =~= reference_suffix_of(*reference));
    }
    out
}

/// The line that records under `key` the replacement by `value`, line feed included: the
/// key as a TOML string, ` = `, and between braces either `path` and the path or `git` and
/// the repository, each as a TOML string, and after the repository what is said of the
/// reference.
pub open spec fn line_text(key: Seq<char>, value: Replacement) -> Seq<char> {
    match value {
        Replacement::Path { path } => quoted(key) + " = { path = "@ + quoted(path@) + " }\n"@,
        Replacement::Git { url, reference } => quoted(key) + " = { git = "@ + quoted(url@)
            + reference_suffix_of(reference) + " }\n"@,
    }
}

/// The line that records a replacement, line feed included.
pub open spec fn line_of(directive: ReplaceDirective) -> Seq<char> {
    line_text(directive.spec_key@, directive.spec_value)
}

/// The line that records a replacement, line feed included.
pub fn directive_line(directive: &ReplaceDirective) -> (r: String)
    ensures
        r@ == line_of(*directive),
{
    let mut out = quote(directive.spec_key.as_str());
    match &directive.spec_value {
        Replacement::Path { path } => {
            out.append(" = { path = ");
            out.append(quote(path.as_str()).as_str());
        },
        Replacement::Git { url, reference } => {
            out.append(" = { git = ");
            out.append(quote(url.as_str()).as_str());
            out.append(reference_suffix(reference).as_str());
        },
    }
    out.append(" }\n");
    proof {
        assert(out@ =~= line_of(*directive));
    }
    out
}

} // verus!
