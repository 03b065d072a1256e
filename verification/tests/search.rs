use edit_locally::resolver::{
    resolve, Commit, Reference, Repository, ResolutionFailure, ResolvedLocation, Strategy,
};
use edit_locally::search::{advance, first_action, Action, Finding, Search, Target};
use edit_locally::tree::{Entry, Node};

fn target(version: &str) -> Target {
    Target {
        name: "log".to_string(),
        version: version.to_string(),
        url: "https://example.com/log".to_string(),
        destination: "/work/log".to_string(),
    }
}

fn reference(name: &str, commit: &str) -> Reference {
    Reference {
        name: name.to_string(),
        commit: commit.to_string(),
    }
}

fn commit(id: &str, version: &str) -> Commit {
    Commit {
        id: id.to_string(),
        tree: vec![Entry {
            name: "Cargo.toml".to_string(),
            node: Node::Blob(
                format!("[package]\nname = \"log\"\nversion = \"{}\"\n", version).into_bytes(),
            ),
        }],
    }
}

fn references(tags: Vec<Reference>, branches: Vec<Reference>) -> Finding {
    Finding::References { tags, branches }
}

fn not_found(version: &str) -> ResolutionFailure {
    ResolutionFailure::NotFound {
        candidates: vec![
            version.to_string(),
            format!("v{}", version),
            format!("log-{}", version),
            format!("log-v{}", version),
        ],
        url: "https://example.com/log".to_string(),
        destination: "/work/log".to_string(),
        version: version.to_string(),
    }
}

fn drive(findings: Vec<Finding>, target: &Target) -> (Search, Vec<Action>) {
    let mut search = Search::Naming;
    let mut actions = vec![first_action()];
    for finding in &findings {
        let (next, action) = advance(search, finding, target);
        search = next;
        actions.push(action);
    }
    (search, actions)
}

#[test]
fn search_starts_with_the_references() {
    assert_eq!(first_action(), Action::ReadReferences);
}

#[test]
fn search_ends_at_a_tag() {
    let (search, actions) = drive(
        vec![references(vec![reference("v0.3.5", "t")], vec![reference("log-0.3.5", "b")])],
        &target("0.3.5"),
    );
    assert_eq!(
        search,
        Search::Over(Ok(ResolvedLocation {
            commit: "t".to_string(),
            strategy: Strategy::Tag
        }))
    );
    assert_eq!(actions, vec![Action::ReadReferences, Action::Finish]);
}

#[test]
fn search_opens_the_history_where_nothing_is_named() {
    let (search, action) = advance(
        Search::Naming,
        &references(vec![reference("0.3.6", "t")], vec![reference("master", "m")]),
        &target("0.3.5"),
    );
    assert_eq!(search, Search::Walking);
    assert_eq!(action, Action::OpenHistory);
}

#[test]
fn search_ends_at_the_first_commit_that_declares_the_version() {
    let (search, actions) = drive(
        vec![
            references(Vec::new(), Vec::new()),
            Finding::Commit(commit("c3", "0.3.6")),
            Finding::Commit(commit("c2", "0.3.5")),
            Finding::Commit(commit("c1", "0.3.5")),
            Finding::NoMoreCommits,
        ],
        &target("0.3.5"),
    );
    assert_eq!(
        search,
        Search::Over(Ok(ResolvedLocation {
            commit: "c2".to_string(),
            strategy: Strategy::History
        }))
    );
    assert_eq!(
        actions,
        vec![
            Action::ReadReferences,
            Action::OpenHistory,
            Action::ReadCommit,
            Action::Finish,
            Action::Finish,
            Action::Finish,
        ]
    );
}

#[test]
fn search_fails_where_no_commit_is_left() {
    let (search, actions) = drive(
        vec![
            references(Vec::new(), vec![reference("master", "c3")]),
            Finding::Commit(commit("c3", "0.3.6")),
            Finding::NoMoreCommits,
        ],
        &target("0.3.5"),
    );
    assert_eq!(search, Search::Over(Err(not_found("0.3.5"))));
    assert_eq!(
        actions,
        vec![
            Action::ReadReferences,
            Action::OpenHistory,
            Action::ReadCommit,
            Action::Finish,
        ]
    );
}

#[test]
fn search_fails_without_a_default_branch() {
    let (search, _) = drive(
        vec![references(Vec::new(), Vec::new()), Finding::NoDefaultBranch],
        &target("0.3.5"),
    );
    assert_eq!(search, Search::Over(Err(ResolutionFailure::MissingDefaultBranch)));
}

#[test]
fn finding_that_was_not_asked_for_changes_nothing() {
    let t = target("0.3.5");
    assert_eq!(
        advance(Search::Naming, &Finding::Commit(commit("c2", "0.3.5")), &t),
        (Search::Naming, Action::ReadReferences)
    );
    assert_eq!(
        advance(Search::Naming, &Finding::NoMoreCommits, &t),
        (Search::Naming, Action::ReadReferences)
    );
    assert_eq!(
        advance(Search::Naming, &Finding::NoDefaultBranch, &t),
        (Search::Naming, Action::ReadReferences)
    );
    assert_eq!(
        advance(
            Search::Walking,
            &references(vec![reference("0.3.5", "t")], Vec::new()),
            &t
        ),
        (Search::Walking, Action::ReadCommit)
    );
    let over = || Search::Over(Err(ResolutionFailure::MissingDefaultBranch));
    assert_eq!(
        advance(over(), &Finding::Commit(commit("c2", "0.3.5")), &t),
        (over(), Action::Finish)
    );
}

#[test]
fn search_by_steps_ends_where_resolve_ends() {
    let make = |tags: Vec<Reference>, history: Option<Vec<&str>>| Repository {
        url: "https://example.com/log".to_string(),
        destination: "/work/log".to_string(),
        tags,
        branches: vec![reference("master", "c3")],
        history: history.map(|versions| {
            versions
                .iter()
                .enumerate()
                .map(|(i, v)| commit(&format!("c{}", versions.len() - i), v))
                .collect()
        }),
    };
    let cases = vec![
        (vec![reference("0.3.5", "t")], Some(vec!["0.3.6", "0.3.5"])),
        (Vec::new(), Some(vec!["0.3.6", "0.3.5", "0.3.5"])),
        (Vec::new(), Some(vec!["0.3.6"])),
        (Vec::new(), Some(Vec::new())),
        (Vec::new(), None),
        (vec![reference("log-v0.3.5", "t")], None),
    ];
    for (tags, history) in cases {
        let repo = make(tags.clone(), history.clone());
        let expected = resolve(&repo, "log", "0.3.5");
        let repo = make(tags, history);
        let mut findings = vec![references(repo.tags, repo.branches)];
        match repo.history {
            Some(commits) => {
                for c in commits {
                    findings.push(Finding::Commit(c));
                }
                findings.push(Finding::NoMoreCommits);
            }
            None => findings.push(Finding::NoDefaultBranch),
        }
        let (search, _) = drive(findings, &target("0.3.5"));
        assert_eq!(search, Search::Over(expected));
    }
}
