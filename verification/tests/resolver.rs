use edit_locally::resolver::{
    commit_declares, find_reference, reference_candidates, resolve, resolve_by_convention,
    try_candidate, walk_history, Commit, Reference, Repository, ResolutionFailure,
    ResolvedLocation, Strategy,
};
use edit_locally::tree::{Entry, Node};

fn reference(name: &str, commit: &str) -> Reference {
    Reference {
        name: name.to_string(),
        commit: commit.to_string(),
    }
}

fn manifest(name: &str, version: &str) -> Entry {
    Entry {
        name: "Cargo.toml".to_string(),
        node: Node::Blob(
            format!("[package]\nname = \"{}\"\nversion = \"{}\"\n", name, version).into_bytes(),
        ),
    }
}

fn commit(id: &str, tree: Vec<Entry>) -> Commit {
    Commit {
        id: id.to_string(),
        tree,
    }
}

fn history() -> Vec<Commit> {
    vec![
        commit("c5", vec![manifest("log", "0.3.7")]),
        commit("c4", vec![manifest("log", "0.3.6")]),
        commit("c3", vec![manifest("log", "0.3.6")]),
        commit(
            "c2",
            vec![Entry {
                name: "log".to_string(),
                node: Node::Tree(vec![manifest("log", "0.3.5")]),
            }],
        ),
        commit("c1", vec![manifest("log", "0.3.5")]),
        commit("c0", Vec::new()),
    ]
}

fn repository(tags: Vec<Reference>, branches: Vec<Reference>, history: Option<Vec<Commit>>) -> Repository {
    Repository {
        url: "https://github.com/rust-lang-nursery/log".to_string(),
        destination: "/work/log".to_string(),
        tags,
        branches,
        history,
    }
}

fn found(commit: &str, strategy: Strategy) -> Result<ResolvedLocation, ResolutionFailure> {
    Ok(ResolvedLocation {
        commit: commit.to_string(),
        strategy,
    })
}

#[test]
fn candidates_in_their_order() {
    assert_eq!(
        reference_candidates("log", "0.3.5"),
        vec!["0.3.5", "v0.3.5", "log-0.3.5", "log-v0.3.5"]
    );
    assert_eq!(reference_candidates("", ""), vec!["", "v", "-", "-v"]);
}

#[test]
fn reference_is_found_by_its_name() {
    let refs = vec![reference("a", "1"), reference("b", "2"), reference("a", "3")];
    assert_eq!(find_reference(&refs, "a"), Some("1".to_string()));
    assert_eq!(find_reference(&refs, "b"), Some("2".to_string()));
    assert_eq!(find_reference(&refs, "c"), None);
    assert_eq!(find_reference(&refs, "A"), None);
    assert_eq!(find_reference(&Vec::new(), "a"), None);
}

#[test]
fn tag_goes_before_branch_of_the_same_name() {
    let tags = vec![reference("0.3.5", "t")];
    let branches = vec![reference("0.3.5", "b")];
    assert_eq!(
        try_candidate(&tags, &branches, "0.3.5"),
        Some(ResolvedLocation {
            commit: "t".to_string(),
            strategy: Strategy::Tag
        })
    );
    assert_eq!(
        try_candidate(&Vec::new(), &branches, "0.3.5"),
        Some(ResolvedLocation {
            commit: "b".to_string(),
            strategy: Strategy::Branch
        })
    );
    assert_eq!(try_candidate(&tags, &branches, "v0.3.5"), None);
    let repo = repository(tags, branches, Some(history()));
    assert_eq!(resolve(&repo, "log", "0.3.5"), found("t", Strategy::Tag));
}

#[test]
fn earlier_candidate_goes_before_later_one() {
    // a branch named by the first candidate goes before a tag named by the second
    let repo = repository(
        vec![reference("v0.3.5", "t")],
        vec![reference("0.3.5", "b")],
        Some(history()),
    );
    assert_eq!(resolve(&repo, "log", "0.3.5"), found("b", Strategy::Branch));

    let repo = repository(
        vec![reference("log-v0.3.5", "t4"), reference("log-0.3.5", "t3")],
        vec![reference("log-0.3.5", "b3"), reference("v0.3.5", "b2")],
        Some(history()),
    );
    assert_eq!(resolve(&repo, "log", "0.3.5"), found("b2", Strategy::Branch));

    let repo = repository(
        vec![reference("log-v0.3.5", "t4"), reference("log-0.3.5", "t3")],
        vec![reference("log-0.3.5", "b3")],
        Some(history()),
    );
    assert_eq!(resolve(&repo, "log", "0.3.5"), found("t3", Strategy::Tag));

    let repo = repository(vec![reference("log-v0.3.5", "t4")], Vec::new(), None);
    assert_eq!(resolve(&repo, "log", "0.3.5"), found("t4", Strategy::Tag));
}

#[test]
fn order_of_the_references_does_not_matter() {
    let tags = vec![
        reference("v0.3.5", "t2"),
        reference("log-0.3.5", "t3"),
        reference("0.3.4", "t0"),
    ];
    let branches = vec![
        reference("master", "m"),
        reference("0.3.5", "b1"),
        reference("log-v0.3.5", "b4"),
    ];
    let candidates = reference_candidates("log", "0.3.5");
    let expected = resolve_by_convention(&tags, &branches, &candidates);
    assert_eq!(
        expected,
        Some(ResolvedLocation {
            commit: "b1".to_string(),
            strategy: Strategy::Branch
        })
    );
    for t in [[0, 1, 2], [0, 2, 1], [1, 0, 2], [1, 2, 0], [2, 0, 1], [2, 1, 0]] {
        for b in [[0, 1, 2], [0, 2, 1], [1, 0, 2], [1, 2, 0], [2, 0, 1], [2, 1, 0]] {
            let tags: Vec<Reference> = t.iter().map(|i| tags[*i].clone()).collect();
            let branches: Vec<Reference> = b.iter().map(|i| branches[*i].clone()).collect();
            assert_eq!(resolve_by_convention(&tags, &branches, &candidates), expected);
        }
    }
}

#[test]
fn tag_of_the_version_is_selected_without_a_search() {
    // no commit declares 0.3.6 in its manifest here, and there is no default branch
    let repo = repository(vec![reference("0.3.6", "c4")], Vec::new(), None);
    assert_eq!(resolve(&repo, "log", "0.3.6"), found("c4", Strategy::Tag));
    let repo = repository(
        vec![reference("0.3.6", "c3")],
        vec![reference("master", "c5")],
        Some(history()),
    );
    assert_eq!(resolve(&repo, "log", "0.3.6"), found("c3", Strategy::Tag));
}

#[test]
fn commit_is_found_by_its_manifest() {
    let repo = repository(
        vec![reference("0.3.6", "c4")],
        vec![reference("master", "c5")],
        Some(history()),
    );
    // the first commit in the order given whose manifest declares the version, here one
    // whose manifest lies in a directory
    assert_eq!(resolve(&repo, "log", "0.3.5"), found("c2", Strategy::History));
    assert_eq!(resolve(&repo, "log", "0.3.7"), found("c5", Strategy::History));
    assert_eq!(walk_history(&history(), "log", "0.3.6"), Some("c4".to_string()));
    assert_eq!(walk_history(&history(), "log", "0.3.5"), Some("c2".to_string()));
    assert_eq!(walk_history(&history(), "log", "0.3.4"), None);
    assert_eq!(walk_history(&Vec::new(), "log", "0.3.5"), None);
}

#[test]
fn commit_declares_by_root_or_nested_manifest() {
    let all = history();
    assert!(commit_declares(&all[3], "log", "0.3.5"));
    assert!(commit_declares(&all[4], "log", "0.3.5"));
    assert!(!commit_declares(&all[5], "log", "0.3.5"));
    assert!(!commit_declares(&all[0], "log", "0.3.5"));
}

#[test]
fn same_repository_gives_the_same_commit() {
    let make = || {
        repository(
            vec![reference("0.3.6", "c4")],
            vec![reference("master", "c5")],
            Some(history()),
        )
    };
    assert_eq!(resolve(&make(), "log", "0.3.5"), resolve(&make(), "log", "0.3.5"));
    let repo = make();
    assert_eq!(resolve(&repo, "log", "0.3.5"), resolve(&repo, "log", "0.3.5"));
    assert_eq!(resolve(&repo, "log", "0.3.5"), found("c2", Strategy::History));
}

#[test]
fn failure_tells_what_was_tried() {
    let repo = repository(
        vec![reference("0.3.6", "c4")],
        vec![reference("master", "c5")],
        Some(history()),
    );
    assert_eq!(
        resolve(&repo, "log", "0.3.4"),
        Err(ResolutionFailure::NotFound {
            candidates: vec![
                "0.3.4".to_string(),
                "v0.3.4".to_string(),
                "log-0.3.4".to_string(),
                "log-v0.3.4".to_string(),
            ],
            url: "https://github.com/rust-lang-nursery/log".to_string(),
            destination: "/work/log".to_string(),
            version: "0.3.4".to_string(),
        })
    );
    // the name counts too
    assert!(matches!(
        resolve(&repo, "env_logger", "0.3.5"),
        Err(ResolutionFailure::NotFound { .. })
    ));
}

#[test]
fn search_needs_a_default_branch() {
    let repo = repository(vec![reference("0.3.6", "c4")], Vec::new(), None);
    assert_eq!(
        resolve(&repo, "log", "0.3.5"),
        Err(ResolutionFailure::MissingDefaultBranch)
    );
}
