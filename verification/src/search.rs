//! The search for a commit, one step at a time.
//!
//! Reading a repository is slow, and most searches end at a tag. So the search is also
//! given as a machine: it says what is to be read next, is handed what was read, and
//! decides. Whoever drives it reads no more of the repository than the search needs. Driven
//! with all that a repository holds, it ends where `resolve` ends.

use crate::resolver::{
    by_convention, candidates_of, commit_declares, commit_matches, first_matching_commit,
    reference_candidates, resolve_by_convention, resolved, Commit, FailureModel, LocationModel,
    Reference, Repository, ResolutionFailure, ResolvedLocation, Strategy,
};
use vstd::prelude::*;

verus! {

/// What is searched for, and where.
#[derive(Debug, Clone, PartialEq, Eq)]
pub struct Target {
    /// The name of the package.
    pub name: String,
    /// The version of the package.
    pub version: String,
    /// Where the repository was fetched from.
    pub url: String,
    /// Where it was put.
    pub destination: String,
}

/// Where a search stands.
#[derive(Debug, PartialEq, Eq)]
pub enum Search {
    /// The tags and branches have yet to be read.
    Naming,
    /// No tag and no branch has a customary name; the commits are gone through.
    Walking,
    /// The search has ended.
    Over(Result<ResolvedLocation, ResolutionFailure>),
}

/// A `Search` in contracts.
pub enum SearchModel {
    Naming,
    Walking,
    Over(Result<LocationModel, FailureModel>),
}

impl View for Search {
    type V = SearchModel;

    open spec fn view(&self) -> SearchModel {
        match *self {
            Search::Naming => SearchModel::Naming,
            Search::Walking => SearchModel::Walking,
            Search::Over(Ok(found)) => SearchModel::Over(Ok(found@)),
            Search::Over(Err(failure)) => SearchModel::Over(Err(failure@)),
        }
    }
}

/// What was read from the repository.
#[derive(Debug, PartialEq, Eq)]
pub enum Finding {
    /// The tags and the local branches.
    References { tags: Vec<Reference>, branches: Vec<Reference> },
    /// The repository has no default branch, so no commits can be gone through.
    NoDefaultBranch,
    /// The next of the commits that can be reached from the tip of the default branch,
    /// parents after their children and otherwise by time.
    Commit(Commit),
    /// All commits were read.
    NoMoreCommits,
}

/// What is to be done next.
#[derive(Debug, Clone, Copy, PartialEq, Eq)]
pub enum Action {
    /// Read the tags and the local branches.
    ReadReferences,
    /// Warn that nothing has a customary name, and read the first commit.
    OpenHistory,
    /// Read the next commit.
    ReadCommit,
    /// Nothing: the search has ended.
    Finish,
}

/// What is to be done where a search stands, if nothing new was learnt.
pub open spec fn pending(search: SearchModel) -> Action {
    match search {
        SearchModel::Naming => Action::ReadReferences,
        SearchModel::Walking => Action::ReadCommit,
        SearchModel::Over(_) => Action::Finish,
    }
}

/// Where a search stands after a finding, and what is to be done next.
///
/// The references end the search where one of the customary names is a tag or a branch,
/// and open the history otherwise. A commit ends the search where it declares the package
/// at the version. The search fails where there is no default branch, or no commit is
/// left. A finding that was not asked for changes nothing.
pub open spec fn advanced(search: SearchModel, finding: Finding, target: Target) -> (
    SearchModel,
    Action,
) {
    match (search, finding) {
        (SearchModel::Naming, Finding::References { tags, branches }) => match by_convention(
            tags@,
            branches@,
            candidates_of(target.name@, target.version@),
        ) {
            Some(hit) => (SearchModel::Over(Ok(hit)), Action::Finish),
            None => (SearchModel::Walking, Action::OpenHistory),
        },
        (SearchModel::Walking, Finding::NoDefaultBranch) => (
            SearchModel::Over(Err(FailureModel::MissingDefaultBranch)),
            Action::Finish,
        ),
        (SearchModel::Walking, Finding::Commit(commit)) => if commit_matches(
            commit,
            target.name@,
            target.version@,
        ) {
            (
                SearchModel::Over(Ok(LocationModel { commit: commit.id@, strategy: Strategy::History })),
                Action::Finish,
            )
        } else {
            (SearchModel::Walking, Action::ReadCommit)
        },
        (SearchModel::Walking, Finding::NoMoreCommits) => (
            SearchModel::Over(
                Err(
                    FailureModel::NotFound {
                        candidates: candidates_of(target.name@, target.version@),
                        url: target.url@,
                        destination: target.destination@,
                        version: target.version@,
                    },
                ),
            ),
            Action::Finish,
        ),
        _ => (search, pending(search)),
    }
}

/// What is to be done first: a search starts at `Search::Naming`, by this.
pub fn first_action() -> (r: Action)
    ensures
        r == pending(SearchModel::Naming),
{
    Action::ReadReferences
}

/// Takes a search one step on: where it stands after the finding, and what is to be done
/// next.
pub fn advance(search: Search, finding: &Finding, target: &Target) -> (r: (Search, Action))
    ensures
        (r.0@, r.1) == advanced(search@, *finding, *target),
{
    match search {
        Search::Naming => match finding {
            Finding::References { tags, branches } => {
                let candidates = reference_candidates(target.name.as_str(), target.version.as_str());
                match resolve_by_convention(tags, branches, &candidates) {
                    Some(hit) => (Search::Over(Ok(hit)), Action::Finish),
                    None => (Search::Walking, Action::OpenHistory),
                }
            },
            _ => (Search::Naming, Action::ReadReferences),
        },
        Search::Walking => match finding {
            Finding::NoDefaultBranch => (
                Search::Over(Err(ResolutionFailure::MissingDefaultBranch)),
                Action::Finish,
            ),
            Finding::Commit(commit) => {
                if commit_declares(commit, target.name.as_str(), target.version.as_str()) {
                    let found = ResolvedLocation {
                        commit: commit.id.clone(),
                        strategy: Strategy::History,
                    };
                    (Search::Over(Ok(found)), Action::Finish)
                } else {
                    (Search::Walking, Action::ReadCommit)
                }
            },
            Finding::NoMoreCommits => {
                let failure = ResolutionFailure::NotFound {
                    candidates: reference_candidates(
                        target.name.as_str(),
                        target.version.as_str(),
                    ),
                    url: target.url.clone(),
                    destination: target.destination.clone(),
                    version: target.version.clone(),
                };
                (Search::Over(Err(failure)), Action::Finish)
            },
            _ => (Search::Walking, Action::ReadCommit),
        },
        Search::Over(outcome) => (Search::Over(outcome), Action::Finish),
    }
}

/// Where a search stands after a row of findings.
pub open spec fn run(search: SearchModel, findings: Seq<Finding>, target: Target) -> SearchModel
    decreases findings.len(),
{
    if findings.len() == 0 {
        search
    } else {
        run(advanced(search, findings[0], target).0, findings.drop_first(), target)
    }
}

/// The commits of a history as findings, and the end of the history after them.
pub open spec fn commits_read(history: Seq<Commit>) -> Seq<Finding> {
    Seq::new(history.len(), |i: int| Finding::Commit(history[i])).push(Finding::NoMoreCommits)
}

/// All that can be read from a repository, in the order in which a search asks for it.
pub open spec fn findings_of(repo: Repository) -> Seq<Finding> {
    seq![Finding::References { tags: repo.tags, branches: repo.branches }] + match repo.history {
        Some(history) => commits_read(history@),
        None => seq![Finding::NoDefaultBranch],
    }
}

/// A search that has ended stays as it is.
pub proof fn lemma_over_stays(outcome: Result<LocationModel, FailureModel>, findings: Seq<Finding>, target: Target)
    ensures
        run(SearchModel::Over(outcome), findings, target) == SearchModel::Over(outcome),
    decreases findings.len(),
{
    if findings.len() > 0 {
        lemma_over_stays(outcome, findings.drop_first(), target);
    }
}

/// Going through the commits one by one ends at the first that declares the package at
/// the version, and fails where none does.
pub proof fn lemma_walk_by_steps(history: Seq<Commit>, target: Target)
    ensures
        run(SearchModel::Walking, commits_read(history), target) == SearchModel::Over(
            match first_matching_commit(history, target.name@, target.version@) {
                Some(commit) => Ok(LocationModel { commit, strategy: Strategy::History }),
                None => Err(
                    FailureModel::NotFound {
                        candidates: candidates_of(target.name@, target.version@),
                        url: target.url@,
                        destination: target.destination@,
                        version: target.version@,
                    },
                ),
            },
        ),
    decreases history.len(),
{
    let findings = commits_read(history);
    if history.len() == 0 {
        assert(findings.drop_first().len() == 0);
        assert(run(
            advanced(SearchModel::Walking, findings[0], target).0,
            findings.drop_first(),
            target,
        ) == advanced(SearchModel::Walking, findings[0], target).0);
    } else {
        assert(findings.drop_first() =~= commits_read(history.drop_first()));
        assert(findings[0] == Finding::Commit(history[0]));
        if commit_matches(history[0], target.name@, target.version@) {
            lemma_over_stays(
                Ok(LocationModel { commit: history[0].id@, strategy: Strategy::History }),
                findings.drop_first(),
                target,
            );
        } else {
            lemma_walk_by_steps(history.drop_first(), target);
        }
    }
}

/// Driven with all that a repository holds, the search ends where `resolve` ends.
pub proof fn lemma_search_agrees(repo: Repository, target: Target)
    requires
        target.url@ == repo.url@,
        target.destination@ == repo.destination@,
    ensures
        run(SearchModel::Naming, findings_of(repo), target) == SearchModel::Over(
            resolved(repo, target.name@, target.version@),
        ),
{
    let findings = findings_of(repo);
    let rest = findings.drop_first();
    let after = advanced(SearchModel::Naming, findings[0], target).0;
    assert(run(SearchModel::Naming, findings, target) == run(after, rest, target));
    match by_convention(repo.tags@, repo.branches@, candidates_of(target.name@, target.version@)) {
        Some(hit) => {
            lemma_over_stays(Ok(hit), rest, target);
        },
        None => {
            match repo.history {
                Some(history) => {
                    assert(rest =~= commits_read(history@));
                    lemma_walk_by_steps(history@, target);
                },
                None => {
                    assert(rest =~= seq![Finding::NoDefaultBranch]);
                    assert(rest.drop_first().len() == 0);
                    let last = advanced(SearchModel::Walking, rest[0], target).0;
                    assert(run(SearchModel::Walking, rest, target) == run(
                        last,
                        rest.drop_first(),
                        target,
                    ));
                },
            }
        },
    }
}

} // verus!
