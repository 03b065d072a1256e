use edit_locally::directive::{
    compose, directive_line, path_replacement, select_replacement, GitReference,
    PackageIdentifier, Replacement, SourceKind,
};
use edit_locally::orchestrate::{not_found_message, replace_in_manifest};
use edit_locally::resolver::{
    resolve, Commit, Reference, Repository, ResolutionFailure, ResolvedLocation, Strategy,
};
use edit_locally::tree::{Entry, Node};

fn xform(s: &str) -> String {
    s.replace("\n", "\u{21b5}\n")
        .chars()
        .map(|c| if c == ' ' { '\u{b7}' } else { c })
        .collect()
}

fn str_eq(a: &str, b: &str) {
    if a == b {
        return;
    }
    if a.lines().count() == b.lines().count() {
        for (a, b) in a.lines().zip(b.lines()) {
            if a.trim() == b.trim() {
                continue;
            }

            panic!("line difference\n{:?}\n{:?}", a, b);
        }
        return;
    }
    let a = xform(a);
    let b = xform(b);
    panic!("string differences:\n`{}`\n\n`{}`", a, b);
}

fn log(version: &str, source: SourceKind) -> PackageIdentifier {
    PackageIdentifier {
        name: "log".to_string(),
        version: version.to_string(),
        source,
    }
}

fn manifest_entry(contents: &str) -> Entry {
    Entry {
        name: "Cargo.toml".to_string(),
        node: Node::Blob(contents.as_bytes().to_vec()),
    }
}

fn log_repository(tags: Vec<Reference>, history: Vec<Commit>) -> Repository {
    Repository {
        url: "https://github.com/rust-lang-nursery/log".to_string(),
        destination: "log".to_string(),
        tags,
        branches: vec![Reference {
            name: "master".to_string(),
            commit: "c3".to_string(),
        }],
        history: Some(history),
    }
}

#[test]
fn path() {
    let manifest = r#"
        [package]
        name = "foo"
        version = "0.1.0"

        [dependencies]
        log = "=0.3.5"
    "#;
    let replacement = path_replacement("/work/project/foo", "/work/project");
    assert_eq!(
        replacement,
        Replacement::Path {
            path: "foo".to_string()
        }
    );
    let out = replace_in_manifest(manifest, &log("0.3.5", SourceKind::DefaultRegistry), replacement)
        .unwrap();

    str_eq(
        &out,
        r#"
        [package]
        name = "foo"
        version = "0.1.0"

        [dependencies]
        log = "=0.3.5"

[replace]
"log:0.3.5" = { path = "foo" }
"#,
    );
    assert_eq!(
        out,
        format!(
            "{}\n[replace]\n\"log:0.3.5\" = {{ path = \"foo\" }}\n",
            manifest
        )
    );
}

#[test]
fn no_newlines() {
    let manifest = r#"
        [package]
        name = "foo"
        version = "0.1.0"

        [dependencies]
        log = "=0.3.5""#;
    let replacement = Replacement::Path {
        path: "foo".to_string(),
    };
    let out = replace_in_manifest(manifest, &log("0.3.5", SourceKind::DefaultRegistry), replacement)
        .unwrap();

    str_eq(
        &out,
        r#"
        [package]
        name = "foo"
        version = "0.1.0"

        [dependencies]
        log = "=0.3.5"

[replace]
"log:0.3.5" = { path = "foo" }
"#,
    );
    assert_eq!(
        out,
        format!(
            "{}\n\n[replace]\n\"log:0.3.5\" = {{ path = \"foo\" }}\n",
            manifest
        )
    );
}

#[test]
fn add_to_existing_replace() {
    let manifest = r#"
        [package]
        name = "foo"
        version = "0.1.0"

        [dependencies]
        log = "=0.3.5"

[replace]
"wut:0.3.5" = { path = "wut" }
    "#;
    let replacement = Replacement::Path {
        path: "foo".to_string(),
    };
    let out = replace_in_manifest(manifest, &log("0.3.5", SourceKind::DefaultRegistry), replacement)
        .unwrap();

    let expected = r#"
        [package]
        name = "foo"
        version = "0.1.0"

        [dependencies]
        log = "=0.3.5"

[replace]
"log:0.3.5" = { path = "foo" }
"wut:0.3.5" = { path = "wut" }
    "#;
    str_eq(&out, expected);
    assert_eq!(out, expected);
}

#[test]
fn empty_replace() {
    let manifest = r#"
        [package]
        name = "foo"
        version = "0.1.0"

        [dependencies]
        log = "=0.3.5"

[replace]
    "#;
    let replacement = Replacement::Path {
        path: "foo".to_string(),
    };
    let out = replace_in_manifest(manifest, &log("0.3.5", SourceKind::DefaultRegistry), replacement)
        .unwrap();

    let expected = r#"
        [package]
        name = "foo"
        version = "0.1.0"

        [dependencies]
        log = "=0.3.5"

[replace]
"log:0.3.5" = { path = "foo" }
    "#;
    str_eq(&out, expected);
    assert_eq!(out, expected);
}

#[test]
fn wrong_version() {
    // the repository holds 0.3.6 only, and nothing is named after 0.3.5
    let repo = log_repository(
        vec![Reference {
            name: "0.3.6".to_string(),
            commit: "c3".to_string(),
        }],
        vec![Commit {
            id: "c3".to_string(),
            tree: vec![manifest_entry(
                "[package]\nname = \"log\"\nversion = \"0.3.6\"\n",
            )],
        }],
    );
    let failure = resolve(&repo, "log", "0.3.5").unwrap_err();
    assert_eq!(
        failure,
        ResolutionFailure::NotFound {
            candidates: vec![
                "0.3.5".to_string(),
                "v0.3.5".to_string(),
                "log-0.3.5".to_string(),
                "log-v0.3.5".to_string(),
            ],
            url: "https://github.com/rust-lang-nursery/log".to_string(),
            destination: "log".to_string(),
            version: "0.3.5".to_string(),
        }
    );

    let replacement = select_replacement(
        None,
        Some("https://github.com/rust-lang-nursery/log".to_string()),
        None,
        None,
        None,
    )
    .unwrap();
    let err = not_found_message("log", "0.3.5", &replacement);
    assert!(err.contains("failed to find `log v0.3.5` inside of"));
    assert!(err.contains("perhaps a different branch/tag is needed?"));
}

#[test]
fn git() {
    let replacement = select_replacement(
        None,
        Some("https://github.com/rust-lang-nursery/log".to_string()),
        None,
        Some("0.3.6".to_string()),
        None,
    )
    .unwrap();
    assert_eq!(
        replacement,
        Replacement::Git {
            url: "https://github.com/rust-lang-nursery/log".to_string(),
            reference: GitReference::Tag("0.3.6".to_string()),
        }
    );

    let repo = log_repository(
        vec![Reference {
            name: "0.3.6".to_string(),
            commit: "c2".to_string(),
        }],
        vec![
            Commit {
                id: "c3".to_string(),
                tree: vec![manifest_entry(
                    "[package]\nname = \"log\"\nversion = \"0.3.7\"\n",
                )],
            },
            Commit {
                id: "c2".to_string(),
                tree: vec![manifest_entry(
                    "[package]\nname = \"log\"\nversion = \"0.3.6\"\n",
                )],
            },
        ],
    );
    assert_eq!(
        resolve(&repo, "log", "0.3.6"),
        Ok(ResolvedLocation {
            commit: "c2".to_string(),
            strategy: Strategy::Tag,
        })
    );

    let directive = compose(&log("0.3.6", SourceKind::DefaultRegistry), replacement);
    assert_eq!(
        directive_line(&directive),
        "\"log:0.3.6\" = { git = \"https://github.com/rust-lang-nursery/log\", tag = \"0.3.6\" }\n"
    );
}

#[test]
fn git_remote() {
    let manifest = r#"
        [package]
        name = "foo"
        version = "0.1.0"

        [dependencies]
        log = { git = 'https://github.com/rust-lang-nursery/log', tag = '0.3.6' }
    "#;
    let source = SourceKind::VersionControlled {
        url: "https://github.com/rust-lang-nursery/log".to_string(),
        reference: GitReference::Tag("0.3.6".to_string()),
    };
    let replacement = Replacement::Path {
        path: "foo".to_string(),
    };
    let out = replace_in_manifest(manifest, &log("0.3.6", source), replacement).unwrap();

    str_eq(
        &out,
        r#"
        [package]
        name = "foo"
        version = "0.1.0"

        [dependencies]
        log = { git = 'https://github.com/rust-lang-nursery/log', tag = '0.3.6' }

[replace]
"https://github.com/rust-lang-nursery/log#log:0.3.6" = { path = "foo" }
"#,
    );
    assert_eq!(
        out,
        format!(
            "{}\n[replace]\n\"https://github.com/rust-lang-nursery/log#log:0.3.6\" = {{ path = \"foo\" }}\n",
            manifest
        )
    );
}
