//! Finding the commit of a repository that holds a given version of a package.
//!
//! A repository is given as what was read from it: its tags and branches with the commits
//! they point to, and the commits that can be reached from the tip of its default branch,
//! each with its tree. The names that a release is by custom given are tried first, as a
//! tag and as a branch; where none of them exists, the commits are searched for one whose
//! manifest declares the package at the version.

use crate::text::push_char;
use crate::tree::{root_declares, root_matches, tree_declares, tree_matches, Entry};
use vstd::prelude::*;

verus! {

/// A tag or a branch: its name, and the commit it points to. A tag counts as pointing to
/// the commit that it leads to in the end.
#[derive(Debug, Clone, PartialEq, Eq)]
pub struct Reference {
    /// The name by which the tag or the branch is known, without `refs/tags/` or
    /// `refs/heads/` before it.
    pub name: String,
    /// The id of the commit.
    pub commit: String,
}

/// A commit: its id, and its tree.
#[derive(Debug, PartialEq, Eq)]
pub struct Commit {
    pub id: String,
    pub tree: Vec<Entry>,
}

/// What was read from a repository.
#[derive(Debug, PartialEq, Eq)]
pub struct Repository {
    /// Where the repository was fetched from.
    pub url: String,
    /// Where it was put.
    pub destination: String,
    pub tags: Vec<Reference>,
    /// The local branches.
    pub branches: Vec<Reference>,
    /// The commits that can be reached from the tip of the default branch, parents after
    /// their children and otherwise by time. `None` where there is no default branch.
    pub history: Option<Vec<Commit>>,
}

/// How a commit was found.
#[derive(Debug, Clone, Copy, PartialEq, Eq)]
pub enum Strategy {
    /// A tag has one of the customary names.
    Tag,
    /// A branch has one of the customary names.
    Branch,
    /// No tag and no branch has such a name; the commit was found by its manifest.
    History,
}

/// The commit that holds the version asked for, and how it was found.
#[derive(Debug, Clone, PartialEq, Eq)]
pub struct ResolvedLocation {
    pub commit: String,
    pub strategy: Strategy,
}

/// Why no commit was found.
#[derive(Debug, Clone, PartialEq, Eq)]
pub enum ResolutionFailure {
    /// No tag or branch has a customary name, and without a default branch there are no
    /// commits to search.
    MissingDefaultBranch,
    /// No tag or branch has a customary name, and no commit declares the package at the
    /// version.
    NotFound { candidates: Vec<String>, url: String, destination: String, version: String },
}

/// A `ResolvedLocation` in contracts.
pub struct LocationModel {
    pub commit: Seq<char>,
    pub strategy: Strategy,
}

/// A `ResolutionFailure` in contracts.
pub enum FailureModel {
    MissingDefaultBranch,
    NotFound {
        candidates: Seq<Seq<char>>,
        url: Seq<char>,
        destination: Seq<char>,
        version: Seq<char>,
    },
}

/// The texts of a sequence of strings.
pub open spec fn texts(v: Seq<String>) -> Seq<Seq<char>> {
    Seq::new(v.len(), |i: int| v[i]@)
}

impl View for ResolvedLocation {
    type V = LocationModel;

    open spec fn view(&self) -> LocationModel {
        LocationModel { commit: self.commit@, strategy: self.strategy }
    }
}

impl View for ResolutionFailure {
    type V = FailureModel;

    open spec fn view(&self) -> FailureModel {
        match *self {
            ResolutionFailure::MissingDefaultBranch => FailureModel::MissingDefaultBranch,
            ResolutionFailure::NotFound { candidates, url, destination, version } => {
                FailureModel::NotFound {
                    candidates: texts(candidates@),
                    url: url@,
                    destination: destination@,
                    version: version@,
                }
            },
        }
    }
}

/// The names that the release of a version is by custom given, in the order in which they
/// are tried: the version, the version after `v`, and each of the two after the
/// package's name and a hyphen.
pub open spec fn candidates_of(name: Seq<char>, version: Seq<char>) -> Seq<Seq<char>> {
    seq![
        version,
        seq!['v'] + version,
        name + seq!['-'] + version,
        name + seq!['-', 'v'] + version,
    ]
}

/// The names that the release of a version is by custom given, in the order in which they
/// are tried.
pub fn reference_candidates(name: &str, version: &str) -> (r: Vec<String>)
    ensures
        texts(r@) == candidates_of(name@, version@),
{
    let plain = String::from_str(version);
    let mut prefixed = String::new();
    push_char(&mut prefixed, 'v');
    prefixed.append(version);
    let mut named = String::from_str(name);
    push_char(&mut named, '-');
    named.append(version);
    let mut named_prefixed = String::from_str(name);
    push_char(&mut named_prefixed, '-');
    push_char(&mut named_prefixed, 'v');
    named_prefixed.append(version);
    let mut r: Vec<String> = Vec::new();
    r.push(plain);
    r.push(prefixed);
    r.push(named);
    r.push(named_prefixed);
    proof {
        assert(r@[1]@ =~= seq!['v'] + version@);
        assert(r@[2]@ =~= name@ + seq!['-'] + version@);
        assert(r@[3]@ =~= name@ + seq!['-', 'v'] + version@);
        assert(texts(r@) =~= candidates_of(name@, version@));
    }
    r
}

/// The commit that the first reference named `name` points to.
pub open spec fn lookup(refs: Seq<Reference>, name: Seq<char>) -> Option<Seq<char>>
    decreases refs.len(),
{
    if refs.len() == 0 {
        None
    } else if refs[0].name@ == name {
        Some(refs[0].commit@)
    } else {
        lookup(refs.drop_first(), name)
    }
}

/// The commit that a reference named `name` points to.
pub fn find_reference(refs: &Vec<Reference>, name: &str) -> (r: Option<String>)
    ensures
        match r {
            Some(commit) => lookup(refs@, name@) == Some(commit@),
            None => lookup(refs@, name@) is None,
        },
{
    let mut i: usize = 0;
    assert(refs@.skip(0) =~= refs@);
    while i < refs.len()
        invariant
            i <= refs.len(),
            lookup(refs@, name@) == lookup(refs@.skip(i as int), name@),
        decreases refs.len() - i,
    {
        proof {
            assert(refs@.skip(i as int).drop_first() =~= refs@.skip(i + 1));
        }
        if crate::text::same_text(refs[i].name.as_str(), name) {
            return Some(refs[i].commit.clone());
        }
        i += 1;
    }
    None
}

/// What one name leads to: the commit of the tag of that name, else the commit of the
/// branch of that name.
pub open spec fn candidate_hit(
    tags: Seq<Reference>,
    branches: Seq<Reference>,
    candidate: Seq<char>,
) -> Option<LocationModel> {
    match lookup(tags, candidate) {
        Some(commit) => Some(LocationModel { commit, strategy: Strategy::Tag }),
        None => match lookup(branches, candidate) {
            Some(commit) => Some(LocationModel { commit, strategy: Strategy::Branch }),
            None => None,
        },
    }
}

/// What the names lead to: what the first of them leads to that leads anywhere.
pub open spec fn by_convention(
    tags: Seq<Reference>,
    branches: Seq<Reference>,
    candidates: Seq<Seq<char>>,
) -> Option<LocationModel>
    decreases candidates.len(),
{
    if candidates.len() == 0 {
        None
    } else {
        match candidate_hit(tags, branches, candidates[0]) {
            Some(hit) => Some(hit),
            None => by_convention(tags, branches, candidates.drop_first()),
        }
    }
}

/// The view of a location that may be missing.
pub open spec fn location_view(l: Option<ResolvedLocation>) -> Option<LocationModel> {
    match l {
        Some(l) => Some(l@),
        None => None,
    }
}

/// Tries one name, as a tag and then as a branch.
pub fn try_candidate(tags: &Vec<Reference>, branches: &Vec<Reference>, candidate: &str) -> (r:
    Option<ResolvedLocation>)
    ensures
        location_view(r) == candidate_hit(tags@, branches@, candidate@),
{
    match find_reference(tags, candidate) {
        Some(commit) => Some(ResolvedLocation { commit, strategy: Strategy::Tag }),
        None => match find_reference(branches, candidate) {
            Some(commit) => Some(ResolvedLocation { commit, strategy: Strategy::Branch }),
            None => None,
        },
    }
}

/// Tries the names in order, each as a tag and then as a branch, and stops at the first
/// that exists.
pub fn resolve_by_convention(
    tags: &Vec<Reference>,
    branches: &Vec<Reference>,
    candidates: &Vec<String>,
) -> (r: Option<ResolvedLocation>)
    ensures
        location_view(r) == by_convention(tags@, branches@, texts(candidates@)),
{
    let ghost all = texts(candidates@);
    let mut i: usize = 0;
    assert(all.skip(0) =~= all);
    while i < candidates.len()
        invariant
            i <= candidates.len(),
            all == texts(candidates@),
            by_convention(tags@, branches@, all) == by_convention(
                tags@,
                branches@,
                all.skip(i as int),
            ),
        decreases candidates.len() - i,
    {
        proof {
            assert(all.skip(i as int).drop_first() =~= all.skip(i + 1));
            assert(all.skip(i as int)[0] == candidates@[i as int]@);
        }
        match try_candidate(tags, branches, candidates[i].as_str()) {
            Some(hit) => {
                return Some(hit);
            },
            None => {},
        }
        i += 1;
    }
    None
}

/// The commit's manifest, at the root of its tree or anywhere below, declares the package
/// `name` at the version `version`.
pub open spec fn commit_matches(c: Commit, name: Seq<char>, version: Seq<char>) -> bool {
    root_matches(c.tree@, name, version) || tree_matches(c.tree@, name, version)
}

/// Whether a commit's manifest, at the root of its tree or anywhere below, declares the
/// package. The root is looked at first.
pub fn commit_declares(c: &Commit, name: &str, version: &str) -> (r: bool)
    ensures
        r == commit_matches(*c, name@, version@),
{
    root_declares(&c.tree, name, version) || tree_declares(&c.tree, name, version)
}

/// The id of the first of the commits that declares the package at the version.
pub open spec fn first_matching_commit(
    history: Seq<Commit>,
    name: Seq<char>,
    version: Seq<char>,
) -> Option<Seq<char>>
    decreases history.len(),
{
    if history.len() == 0 {
        None
    } else if commit_matches(history[0], name, version) {
        Some(history[0].id@)
    } else {
        first_matching_commit(history.drop_first(), name, version)
    }
}

/// Goes through the commits in the order given and stops at the first that declares the
/// package at the version.
pub fn walk_history(history: &Vec<Commit>, name: &str, version: &str) -> (r: Option<String>)
    ensures
        match r {
            Some(id) => first_matching_commit(history@, name@, version@) == Some(id@),
            None => first_matching_commit(history@, name@, version@) is None,
        },
{
    let mut i: usize = 0;
    assert(history@.skip(0) =~= history@);
    while i < history.len()
        invariant
            i <= history.len(),
            first_matching_commit(history@, name@, version@) == first_matching_commit(
                history@.skip(i as int),
                name@,
                version@,
            ),
        decreases history.len() - i,
    {
        proof {
            assert(history@.skip(i as int).drop_first() =~= history@.skip(i + 1));
        }
        if commit_declares(&history[i], name, version) {
            return Some(history[i].id.clone());
        }
        i += 1;
    }
    None
}

/// The commit of a repository that holds the package `name` at the version `version`.
///
/// It is what the customary names lead to, where one of them is a tag or a branch. Else
/// it is the first of the commits reachable from the default branch that declares the
/// package at the version; without a default branch that search cannot be made, and
/// where it finds nothing the failure tells what was tried.
pub open spec fn resolved(repo: Repository, name: Seq<char>, version: Seq<char>) -> Result<
    LocationModel,
    FailureModel,
> {
    match by_convention(repo.tags@, repo.branches@, candidates_of(name, version)) {
        Some(hit) => Ok(hit),
        None => match repo.history {
            None => Err(FailureModel::MissingDefaultBranch),
            Some(history) => match first_matching_commit(history@, name, version) {
                Some(commit) => Ok(LocationModel { commit, strategy: Strategy::History }),
                None => Err(
                    FailureModel::NotFound {
                        candidates: candidates_of(name, version),
                        url: repo.url@,
                        destination: repo.destination@,
                        version,
                    },
                ),
            },
        },
    }
}

/// The view of the result of a resolution.
pub open spec fn outcome_view(r: Result<ResolvedLocation, ResolutionFailure>) -> Result<
    LocationModel,
    FailureModel,
> {
    match r {
        Ok(l) => Ok(l@),
        Err(e) => Err(e@),
    }
}

/// Finds the commit of a repository that holds the package `name` at the version
/// `version`.
pub fn resolve(repo: &Repository, name: &str, version: &str) -> (r: Result<
    ResolvedLocation,
    ResolutionFailure,
>)
    ensures
        outcome_view(r) == resolved(*repo, name@, version@),
{
    let candidates = reference_candidates(name, version);
    match resolve_by_convention(&repo.tags, &repo.branches, &candidates) {
        Some(hit) => {
            return Ok(hit);
        },
        None => {},
    }
    match &repo.history {
        None => Err(ResolutionFailure::MissingDefaultBranch),
        Some(history) => match walk_history(history, name, version) {
            Some(commit) => Ok(ResolvedLocation { commit, strategy: Strategy::History }),
            None => Err(
                ResolutionFailure::NotFound {
                    candidates,
                    url: repo.url.clone(),
                    destination: repo.destination.clone(),
                    version: String::from_str(version),
                },
            ),
        },
    }
}

/// The reference at position `i` is named `name`.
pub open spec fn is_named(refs: Seq<Reference>, i: int, name: Seq<char>) -> bool {
    0 <= i < refs.len() && refs[i].name@ == name
}

/// What `lookup` gives is the commit of the first reference of that name, and it gives
/// nothing only where no reference has the name.
pub proof fn lemma_lookup(refs: Seq<Reference>, name: Seq<char>)
    ensures
        match lookup(refs, name) {
            Some(commit) => exists|i: int|
                #[trigger] is_named(refs, i, name) && refs[i].commit@ == commit && forall|j: int|
                    0 <= j < i ==> !is_named(refs, j, name),
            None => forall|i: int| !is_named(refs, i, name),
        },
    decreases refs.len(),
{
    if refs.len() > 0 {
        if refs[0].name@ == name {
            assert(is_named(refs, 0, name));
        } else {
            let rest = refs.drop_first();
            lemma_lookup(rest, name);
            assert forall|i: int| is_named(refs, i, name) == is_named(rest, i - 1, name) by {
                if 0 < i < refs.len() {
                    assert(rest[i - 1] == refs[i]);
                }
            }
            match lookup(rest, name) {
                Some(commit) => {
                    let i = choose|i: int|
                        #[trigger] is_named(rest, i, name) && rest[i].commit@ == commit
                            && forall|j: int| 0 <= j < i ==> !is_named(rest, j, name);
                    assert(is_named(refs, i + 1, name));
                    assert(refs[i + 1] == rest[i]);
                    assert forall|j: int| 0 <= j < i + 1 implies !is_named(refs, j, name) by {
                        assert(is_named(refs, j, name) == is_named(rest, j - 1, name));
                    }
                },
                None => {
                    assert forall|i: int| !is_named(refs, i, name) by {
                        assert(is_named(refs, i, name) == is_named(rest, i - 1, name));
                    }
                },
            }
        }
    }
}

/// A tag goes before a branch of the same name: where a tag has the name, the name leads
/// to the tag's commit, whatever the branches are.
pub proof fn lemma_tag_before_branch(
    tags: Seq<Reference>,
    branches: Seq<Reference>,
    candidate: Seq<char>,
)
    requires
        lookup(tags, candidate) is Some,
    ensures
        candidate_hit(tags, branches, candidate) == Some(
            LocationModel { commit: lookup(tags, candidate)->0, strategy: Strategy::Tag },
        ),
{
}

/// An earlier name goes before a later one: the names lead to what the first of them
/// leads to that leads anywhere, be it by a tag or by a branch, and to nothing only
/// where none of them leads anywhere.
pub proof fn lemma_earliest_candidate_wins(
    tags: Seq<Reference>,
    branches: Seq<Reference>,
    candidates: Seq<Seq<char>>,
)
    ensures
        match by_convention(tags, branches, candidates) {
            Some(hit) => exists|k: int|
                0 <= k < candidates.len() && candidate_hit(tags, branches, #[trigger] candidates[k])
                    == Some(hit) && forall|j: int|
                    0 <= j < k ==> candidate_hit(tags, branches, #[trigger] candidates[j]) is None,
            None => forall|k: int|
                0 <= k < candidates.len() ==> candidate_hit(
                    tags,
                    branches,
                    #[trigger] candidates[k],
                ) is None,
        },
    decreases candidates.len(),
{
    if candidates.len() > 0 {
        let rest = candidates.drop_first();
        match candidate_hit(tags, branches, candidates[0]) {
            Some(hit) => {},
            None => {
                lemma_earliest_candidate_wins(tags, branches, rest);
                assert forall|k: int| 0 < k < candidates.len() implies candidates[k] == rest[k
                    - 1] by {}
                match by_convention(tags, branches, rest) {
                    Some(hit) => {
                        let k = choose|k: int|
                            0 <= k < rest.len() && candidate_hit(tags, branches, #[trigger] rest[k])
                                == Some(hit) && forall|j: int|
                                0 <= j < k ==> candidate_hit(tags, branches, #[trigger] rest[j])
                                    is None;
                        assert(candidates[k + 1] == rest[k]);
                        assert forall|j: int| 0 <= j < k + 1 implies candidate_hit(
                            tags,
                            branches,
                            #[trigger] candidates[j],
                        ) is None by {
                            if j > 0 {
                                assert(candidates[j] == rest[j - 1]);
                            }
                        }
                    },
                    None => {
                        assert forall|k: int| 0 <= k < candidates.len() implies candidate_hit(
                            tags,
                            branches,
                            #[trigger] candidates[k],
                        ) is None by {
                            if k > 0 {
                                assert(candidates[k] == rest[k - 1]);
                            }
                        }
                    },
                }
            },
        }
    }
}

/// No two of the references have the same name.
pub open spec fn distinct_names(refs: Seq<Reference>) -> bool {
    forall|i: int, j: int|
        0 <= i < j < refs.len() ==> (#[trigger] refs[i]).name@ != (#[trigger] refs[j]).name@
}

/// Every reference of `a` stands in `b` too, with its name and its commit.
pub open spec fn all_found_in(a: Seq<Reference>, b: Seq<Reference>) -> bool {
    forall|i: int|
        0 <= i < a.len() ==> exists|j: int|
            #[trigger] is_named(b, j, (#[trigger] a[i]).name@) && b[j].commit@ == a[i].commit@
}

/// In which order a repository lists its references does not matter: two lists of the
/// same references, in each of which no name stands twice, give the same commit for
/// every name.
pub proof fn lemma_lookup_ignores_order(a: Seq<Reference>, b: Seq<Reference>, name: Seq<char>)
    requires
        distinct_names(a),
        distinct_names(b),
        all_found_in(a, b),
        all_found_in(b, a),
    ensures
        lookup(a, name) == lookup(b, name),
{
    lemma_lookup(a, name);
    lemma_lookup(b, name);
    match lookup(a, name) {
        Some(commit) => {
            let i = choose|i: int|
                #[trigger] is_named(a, i, name) && a[i].commit@ == commit && forall|j: int|
                    0 <= j < i ==> !is_named(a, j, name);
            let j = choose|j: int| #[trigger] is_named(b, j, a[i].name@) && b[j].commit@ == a[i].commit@;
            assert(is_named(b, j, name));
            let found = lookup(b, name)->0;
            let k = choose|k: int|
                #[trigger] is_named(b, k, name) && b[k].commit@ == found && forall|j: int|
                    0 <= j < k ==> !is_named(b, j, name);
            if k != j {
                assert(b[k].name@ == b[j].name@);
            }
        },
        None => {
            if lookup(b, name) is Some {
                let found = lookup(b, name)->0;
                let k = choose|k: int|
                    #[trigger] is_named(b, k, name) && b[k].commit@ == found && forall|j: int|
                        0 <= j < k ==> !is_named(b, j, name);
                let i = choose|i: int|
                    #[trigger] is_named(a, i, b[k].name@) && a[i].commit@ == b[k].commit@;
                assert(is_named(a, i, name));
            }
        },
    }
}

/// The names lead to the same commit in whatever order a repository lists its tags and
/// its branches.
pub proof fn lemma_convention_ignores_order(
    tags_a: Seq<Reference>,
    tags_b: Seq<Reference>,
    branches_a: Seq<Reference>,
    branches_b: Seq<Reference>,
    candidates: Seq<Seq<char>>,
)
    requires
        distinct_names(tags_a),
        distinct_names(tags_b),
        all_found_in(tags_a, tags_b),
        all_found_in(tags_b, tags_a),
        distinct_names(branches_a),
        distinct_names(branches_b),
        all_found_in(branches_a, branches_b),
        all_found_in(branches_b, branches_a),
    ensures
        by_convention(tags_a, branches_a, candidates) == by_convention(
            tags_b,
            branches_b,
            candidates,
        ),
    decreases candidates.len(),
{
    if candidates.len() > 0 {
        lemma_lookup_ignores_order(tags_a, tags_b, candidates[0]);
        lemma_lookup_ignores_order(branches_a, branches_b, candidates[0]);
        lemma_convention_ignores_order(
            tags_a,
            tags_b,
            branches_a,
            branches_b,
            candidates.drop_first(),
        );
    }
}

/// The search through the commits selects the first commit, in the order given, that
/// declares the package at the version, and selects none only where no commit does: what
/// it selects is fixed by what the repository holds.
pub proof fn lemma_walk_selects_first(history: Seq<Commit>, name: Seq<char>, version: Seq<char>)
    ensures
        match first_matching_commit(history, name, version) {
            Some(id) => exists|k: int|
                0 <= k < history.len() && (#[trigger] history[k]).id@ == id && commit_matches(
                    history[k],
                    name,
                    version,
                ) && forall|j: int|
                    0 <= j < k ==> !commit_matches(#[trigger] history[j], name, version),
            None => forall|k: int|
                0 <= k < history.len() ==> !commit_matches(#[trigger] history[k], name, version),
        },
    decreases history.len(),
{
    if history.len() > 0 {
        if commit_matches(history[0], name, version) {
        } else {
            let rest = history.drop_first();
            lemma_walk_selects_first(rest, name, version);
            match first_matching_commit(rest, name, version) {
                Some(id) => {
                    let k = choose|k: int|
                        0 <= k < rest.len() && (#[trigger] rest[k]).id@ == id && commit_matches(
                            rest[k],
                            name,
                            version,
                        ) && forall|j: int|
                            0 <= j < k ==> !commit_matches(#[trigger] rest[j], name, version);
                    assert(history[k + 1] == rest[k]);
                    assert forall|j: int| 0 <= j < k + 1 implies !commit_matches(
                        #[trigger] history[j],
                        name,
                        version,
                    ) by {
                        if j > 0 {
                            assert(history[j] == rest[j - 1]);
                        }
                    }
                },
                None => {
                    assert forall|k: int| 0 <= k < history.len() implies !commit_matches(
                        #[trigger] history[k],
                        name,
                        version,
                    ) by {
                        if k > 0 {
                            assert(history[k] == rest[k - 1]);
                        }
                    }
                },
            }
        }
    }
}

/// The search through the commits is entered only where none of the customary names is
/// a tag or a branch.
pub proof fn lemma_history_is_last_resort(repo: Repository, name: Seq<char>, version: Seq<char>)
    ensures
        resolved(repo, name, version) matches Ok(found) && found.strategy is History
            ==> by_convention(repo.tags@, repo.branches@, candidates_of(name, version)) is None,
        by_convention(repo.tags@, repo.branches@, candidates_of(name, version)) matches Some(hit)
            ==> resolved(repo, name, version) == Ok::<LocationModel, FailureModel>(hit),
{
    lemma_earliest_candidate_wins(repo.tags@, repo.branches@, candidates_of(name, version));
}

} // verus!
