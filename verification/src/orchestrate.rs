//! The decisions around the two steps: how the package's sources are to be had, what is
//! written into the manifest, and what is said where the package was not found.

use crate::directive::{
    compose, directive_line, line_of, line_text, spec_key_of, PackageIdentifier, ReplaceDirective,
    Replacement, SourceKind,
};
use crate::patcher::{patch, patched, PatchFailure};
use crate::resolver::{texts, FailureModel, ResolutionFailure};
use vstd::prelude::*;

verus! {

/// Why a package is not replaced.
#[derive(Debug, Clone, Copy, PartialEq, Eq)]
pub enum InputError {
    /// The package comes from a directory already, or is replaced already.
    AlreadyReplaced,
    /// Something stands where the sources were to be put.
    DestinationExists,
}

/// Where the sources of the package are to be looked for.
#[derive(Debug, Clone, PartialEq, Eq)]
pub enum Origin {
    /// In the repository that the package comes from.
    Repository { url: String },
    /// In the repository that the registry names for the package, if it names one.
    Registry,
}

/// How the sources of the package are to be had.
#[derive(Debug, Clone, PartialEq, Eq)]
pub enum Acquisition {
    /// Fetch the repository, and search it for the commit that holds the version.
    Fetch { url: String },
    /// Copy the files of the package as they were unpacked: no repository is known, so
    /// there is no history to search.
    CopyFiles,
}

/// Whether a package is replaced at all, and where its sources are then looked for.
///
/// A package that comes from a directory, or that is replaced already, is refused, and
/// so is any package where the destination exists; the first of the two reasons counts.
pub open spec fn screened(source: SourceKind, replaced: bool, destination_exists: bool) -> Result<
    Origin,
    InputError,
> {
    if replaced || source is LocalPath {
        Err(InputError::AlreadyReplaced)
    } else if destination_exists {
        Err(InputError::DestinationExists)
    } else {
        match source {
            SourceKind::VersionControlled { url, reference } => Ok(Origin::Repository { url }),
            _ => Ok(Origin::Registry),
        }
    }
}

/// Whether a package is replaced at all, and where its sources are then looked for.
pub fn screen(source: SourceKind, replaced: bool, destination_exists: bool) -> (r: Result<
    Origin,
    InputError,
>)
    ensures
        r == screened(source, replaced, destination_exists),
{
    if replaced {
        return Err(InputError::AlreadyReplaced);
    }
    match source {
        SourceKind::LocalPath { path } => Err(InputError::AlreadyReplaced),
        SourceKind::VersionControlled { url, reference } => {
            if destination_exists {
                Err(InputError::DestinationExists)
            } else {
                Ok(Origin::Repository { url })
            }
        },
        _ => {
            if destination_exists {
                Err(InputError::DestinationExists)
            } else {
                Ok(Origin::Registry)
            }
        },
    }
}

/// How the sources are to be had: a package from a repository is fetched from there, and
/// a package from a registry from the repository that the registry names for it, or
/// copied where it names none.
pub open spec fn planned(origin: Origin, named: Option<String>) -> Acquisition {
    match origin {
        Origin::Repository { url } => Acquisition::Fetch { url },
        Origin::Registry => match named {
            Some(url) => Acquisition::Fetch { url },
            None => Acquisition::CopyFiles,
        },
    }
}

/// How the sources are to be had. `named` is the repository that the registry names for
/// the package; it is looked at for a package from a registry only.
pub fn plan_acquisition(origin: Origin, named: Option<String>) -> (r: Acquisition)
    ensures
        r == planned(origin, named),
{
    match origin {
        Origin::Repository { url } => Acquisition::Fetch { url },
        Origin::Registry => match named {
            Some(url) => Acquisition::Fetch { url },
            None => Acquisition::CopyFiles,
        },
    }
}

/// Writes a replacement into the text of a manifest, and returns the new text: the line
/// that records the replacement is written into the section of replacements.
pub fn apply_directive(manifest: &str, directive: &ReplaceDirective) -> (r: Result<
    String,
    PatchFailure,
>)
    ensures
        match r {
            Ok(out) => patched(manifest@, line_of(*directive)) == Ok::<Seq<char>, PatchFailure>(
                out@,
            ),
            Err(e) => patched(manifest@, line_of(*directive)) == Err::<Seq<char>, PatchFailure>(e),
        },
{
    let line = directive_line(directive);
    patch(manifest, line.as_str())
}

/// Writes the replacement of `pkg` by `replacement` into the text of a manifest, and
/// returns the new text: the replacement is recorded under the key of `pkg`.
pub fn replace_in_manifest(manifest: &str, pkg: &PackageIdentifier, replacement: Replacement) -> (r:
    Result<String, PatchFailure>)
    ensures
        match r {
            Ok(out) => patched(manifest@, line_text(spec_key_of(*pkg), replacement)) == Ok::<
                Seq<char>,
                PatchFailure,
            >(out@),
            Err(e) => patched(manifest@, line_text(spec_key_of(*pkg), replacement)) == Err::<
                Seq<char>,
                PatchFailure,
            >(e),
        },
{
    let directive = compose(pkg, replacement);
    apply_directive(manifest, &directive)
}

/// How a replacement is shown to the user: the directory, or the repository's location.
pub open spec fn shown(replacement: Replacement) -> Seq<char> {
    match replacement {
        Replacement::Path { path } => path@,
        Replacement::Git { url, reference } => url@,
    }
}

/// What is said where the package was not found in what it was to be replaced with: the
/// package, its version and the replacement, and on a second line what may be wrong, a
/// branch or tag for a repository and the version for a directory.
pub open spec fn not_found_text(name: Seq<char>, version: Seq<char>, replacement: Replacement) -> Seq<
    char,
> {
    "failed to find `"@ + name + " v"@ + version + "` inside of `"@ + shown(replacement) + "`\n"@
        + (if replacement is Git {
        "perhaps a different branch/tag is needed?"@
    } else {
        "perhaps this path contains the wrong version?"@
    })
}

/// What is said where the package was not found in what it was to be replaced with.
pub fn not_found_message(name: &str, version: &str, replacement: &Replacement) -> (r: String)
    ensures
        r@ == not_found_text(name@, version@, *replacement),
{
    let mut out = String::from_str("failed to find `");
    out.append(name);
    out.append(" v");
    out.append(version);
    out.append("` inside of `");
    match replacement {
        Replacement::Path { path } => {
            out.append(path.as_str());
            out.append("`\n");
            out.append("perhaps this path contains the wrong version?");
        },
        Replacement::Git { url, reference } => {
            out.append(url.as_str());
            out.append("`\n");
            out.append("perhaps a different branch/tag is needed?");
        },
    }
    proof {
        assert(out@ =~= not_found_text(name@, version@, *replacement));
    }
    out
}

/// The texts of `items` from position `from` on, each after a comma and a space.
pub open spec fn listed_from(items: Seq<Seq<char>>, from: int) -> Seq<char>
    decreases items.len() - from,
{
    if 0 <= from < items.len() {
        ", "@ + items[from] + listed_from(items, from + 1)
    } else {
        Seq::empty()
    }
}

/// The texts of `items` with a comma and a space between them.
pub open spec fn listed(items: Seq<Seq<char>>) -> Seq<char> {
    if items.len() == 0 {
        Seq::empty()
    } else {
        items[0] + listed_from(items, 1)
    }
}

/// What is said where no commit was found: what was searched for and where, and what
/// was tried.
pub open spec fn failure_text(failure: FailureModel) -> Seq<char> {
    match failure {
        FailureModel::MissingDefaultBranch => "no tag or branch is named after the version, and the repository has no default branch to search"@,
        FailureModel::NotFound { candidates, url, destination, version } => "failed to find version "@
            + version + " in `"@ + url + "`, checked out at `"@ + destination
            + "`\nno tag or branch is named one of: "@ + listed(candidates)
            + "\nand no commit of the default branch declares the version in its manifest"@,
    }
}

/// What is said where no commit was found.
pub fn failure_message(failure: &ResolutionFailure) -> (r: String)
    ensures
        r@ == failure_text(failure@),
{
    match failure {
        ResolutionFailure::MissingDefaultBranch => String::from_str(
            "no tag or branch is named after the version, and the repository has no default branch to search",
        ),
        ResolutionFailure::NotFound { candidates, url, destination, version } => {
            let mut out = String::from_str("failed to find version ");
            out.append(version.as_str());
            out.append(" in `");
            out.append(url.as_str());
            out.append("`, checked out at `");
            out.append(destination.as_str());
            out.append("`\nno tag or branch is named one of: ");
            let ghost head = out@;
            let ghost items = texts(candidates@);
            if candidates.len() > 0 {
                out.append(candidates[0].as_str());
                let mut i: usize = 1;
                while i < candidates.len()
                    invariant
                        1 <= i <= candidates.len(),
                        items == texts(candidates@),
                        head + listed(items) == out@ + listed_from(items, i as int),
                    decreases candidates.len() - i,
                {
                    proof {
                        assert(items[i as int] == candidates@[i as int]@);
                        assert(head + listed(items) =~= (out@ + ", "@ + items[i as int])
                            + listed_from(items, i + 1));
                    }
                    out.append(", ");
                    out.append(candidates[i].as_str());
                    i += 1;
                }
                assert(out@ =~= head + listed(items));
            } else {
                assert(out@ =~= head + listed(items));
            }
            out.append(
                "\nand no commit of the default branch declares the version in its manifest",
            );
            proof {
                assert(out@ =~= failure_text(failure@));
            }
            out
        },
    }
}

} // verus!
