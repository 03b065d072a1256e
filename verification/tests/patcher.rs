use edit_locally::patcher::{blank_tail, normalize, patch, patch_chars, PatchFailure};

const LINE: &str = "\"log:0.3.5\" = { path = \"foo\" }\n";

fn cs(s: &str) -> Vec<char> {
    s.chars().collect()
}

fn normalized(s: &str) -> String {
    let mut v = cs(s);
    normalize(&mut v);
    v.into_iter().collect()
}

#[test]
fn blank_tail_counts_blank_pieces_up_to_two() {
    assert_eq!(blank_tail(&cs("")), 1);
    assert_eq!(blank_tail(&cs("abc")), 0);
    assert_eq!(blank_tail(&cs("abc  ")), 0);
    assert_eq!(blank_tail(&cs("abc\n")), 1);
    assert_eq!(blank_tail(&cs("abc\n   ")), 1);
    assert_eq!(blank_tail(&cs("abc  \n \n")), 2);
    assert_eq!(blank_tail(&cs("abc\n\n\n\n")), 2);
    assert_eq!(blank_tail(&cs("   ")), 1);
    assert_eq!(blank_tail(&cs("\n")), 2);
    assert_eq!(blank_tail(&cs("\n\n")), 2);
    assert_eq!(blank_tail(&cs("abc\n\u{a0}\t")), 1);
    assert_eq!(blank_tail(&cs("abc\nx")), 0);
}

#[test]
fn blank_tail_agrees_with_counting_pieces() {
    for text in [
        "", "a", "a\n", "a\n\n", "a \n \n ", " ", "\n", "\na", "a\r\n", "a\n\r\n", "a\u{2003}",
        "[x]\n\n\n", "a\n b\n\n",
    ] {
        let counted = text
            .split('\n')
            .rev()
            .take_while(|s| s.trim().is_empty())
            .count();
        assert_eq!(blank_tail(&cs(text)), counted.min(2), "{:?}", text);
    }
}

#[test]
fn normalize_pads_to_one_blank_line() {
    assert_eq!(normalized("a"), "a\n\n");
    assert_eq!(normalized("a\n"), "a\n\n");
    assert_eq!(normalized("a\n\n"), "a\n\n");
    assert_eq!(normalized("a\n\n\n"), "a\n\n\n");
    assert_eq!(normalized("a\n    "), "a\n    \n");
    assert_eq!(normalized(""), "\n");
    assert_eq!(normalized("a  "), "a  \n\n");
}

#[test]
fn new_section_after_one_blank_line() {
    assert_eq!(
        patch("[package]\nname = \"foo\"\n", LINE),
        Ok("[package]\nname = \"foo\"\n\n[replace]\n\"log:0.3.5\" = { path = \"foo\" }\n".to_string())
    );
    assert_eq!(
        patch("[package]\nname = \"foo\"", LINE),
        Ok("[package]\nname = \"foo\"\n\n[replace]\n\"log:0.3.5\" = { path = \"foo\" }\n".to_string())
    );
    assert_eq!(
        patch("[package]\nname = \"foo\"\n\n", LINE),
        Ok("[package]\nname = \"foo\"\n\n[replace]\n\"log:0.3.5\" = { path = \"foo\" }\n".to_string())
    );
    assert_eq!(
        patch("[package]\n\n\n\n", LINE),
        Ok("[package]\n\n\n\n[replace]\n\"log:0.3.5\" = { path = \"foo\" }\n".to_string())
    );
}

#[test]
fn new_section_in_an_empty_manifest() {
    assert_eq!(patch("", "x\n"), Ok("\n[replace]\nx\n".to_string()));
}

#[test]
fn line_goes_first_in_an_existing_section() {
    assert_eq!(
        patch("[a]\n\n[replace]\n\"wut:0.3.5\" = { path = \"wut\" }\n", LINE),
        Ok("[a]\n\n[replace]\n\"log:0.3.5\" = { path = \"foo\" }\n\"wut:0.3.5\" = { path = \"wut\" }\n".to_string())
    );
}

#[test]
fn section_header_as_last_line_without_line_feed() {
    assert_eq!(
        patch("[a]\n[replace]", "x\n"),
        Ok("[a]\n[replace]\nx\n".to_string())
    );
}

#[test]
fn rest_of_the_header_line_is_kept() {
    assert_eq!(
        patch("[a]\n[replace] # local\nold = 1\n", "x\n"),
        Ok("[a]\n[replace] # local\nx\nold = 1\n".to_string())
    );
}

#[test]
fn first_of_two_headers_is_used() {
    assert_eq!(
        patch("\n[replace]\na\n[replace]\nb\n", "x\n"),
        Ok("\n[replace]\nx\na\n[replace]\nb\n".to_string())
    );
}

#[test]
fn header_not_at_line_start_is_ambiguous() {
    assert_eq!(
        patch("[replace]\n\"wut:0.3.5\" = { path = \"wut\" }\n", LINE),
        Err(PatchFailure::AmbiguousSection)
    );
    assert_eq!(
        patch("[a]\n# [replace]\n", LINE),
        Err(PatchFailure::AmbiguousSection)
    );
    assert_eq!(
        patch("[a]\n  [replace]\n", LINE),
        Err(PatchFailure::AmbiguousSection)
    );
    assert_eq!(
        patch("x = \"[replace]\"", LINE),
        Err(PatchFailure::AmbiguousSection)
    );
}

#[test]
fn patching_twice_puts_the_newer_line_first() {
    let first = "\"log:0.3.5\" = { path = \"foo\" }\n";
    let second = "\"wut:0.1.0\" = { path = \"wut\" }\n";
    for manifest in ["[a]\nb = 1\n", "[a]", "", "[a]\n\n[replace]\nold = 1\n", "[a]\n[replace]"] {
        let once = patch(manifest, first).unwrap();
        let twice = patch(&once, second).unwrap();
        let at = once.find(first).unwrap();
        assert_eq!(
            twice,
            format!("{}{}{}", &once[..at], second, &once[at..]),
            "{:?}",
            manifest
        );
        assert!(twice.contains(&format!("{}{}", second, first)));
    }
    assert_eq!(
        patch(&patch("[a]\n", first).unwrap(), second),
        Ok("[a]\n\n[replace]\n\"wut:0.1.0\" = { path = \"wut\" }\n\"log:0.3.5\" = { path = \"foo\" }\n".to_string())
    );
}

#[test]
fn same_line_twice_stands_twice() {
    let once = patch("[a]\n", "k = 1\n").unwrap();
    assert_eq!(
        patch(&once, "k = 1\n"),
        Ok("[a]\n\n[replace]\nk = 1\nk = 1\n".to_string())
    );
}

#[test]
fn header_after_trailing_spaces_is_not_found_again() {
    let once = patch("[a]\n\n  ", "x\n").unwrap();
    assert_eq!(once, "[a]\n\n  [replace]\nx\n");
    assert_eq!(patch(&once, "y\n"), Err(PatchFailure::AmbiguousSection));
}

#[test]
fn manifest_is_kept_before_a_new_section() {
    for manifest in ["", "a", "a\n", "a\n\n", "a\n\n\n", "a\n  ", "\u{e9}\u{a0}", "[x]\ny = \"z\"\n"] {
        let out = patch(manifest, LINE).unwrap();
        assert!(out.starts_with(manifest), "{:?}", manifest);
        let added = &out[manifest.len()..];
        let expected_tail = format!("[replace]\n{}", LINE);
        assert!(added.ends_with(&expected_tail));
        let padding = &added[..added.len() - expected_tail.len()];
        assert!(padding == "" || padding == "\n" || padding == "\n\n");
        assert_eq!(out.find(manifest), Some(0));
    }
}

#[test]
fn text_outside_the_line_is_kept_in_an_existing_section() {
    let manifest = "# top\n[a]\nb = 1\n\n[replace]\r\n\"wut:0.3.5\" = { path = \"wut\" }\n\n[c]\n";
    let out = patch(manifest, LINE).unwrap();
    let at = out.find(LINE).unwrap();
    assert_eq!(format!("{}{}", &out[..at], &out[at + LINE.len()..]), manifest);
    assert_eq!(at, "# top\n[a]\nb = 1\n\n[replace]\r\n".len());
}

#[test]
fn white_space_of_any_kind_counts_as_blank() {
    assert_eq!(
        patch("a\n\u{a0}\u{2003}", "x\n"),
        Ok("a\n\u{a0}\u{2003}\n[replace]\nx\n".to_string())
    );
    assert_eq!(
        patch("a\r\n", "x\n"),
        Ok("a\r\n\n[replace]\nx\n".to_string())
    );
}

#[test]
fn patch_chars_does_what_patch_does() {
    for manifest in ["", "a", "[a]\n[replace]\nx = 1\n", "[replace]"] {
        let by_chars = patch_chars(&cs(manifest), &cs(LINE)).map(|v| v.into_iter().collect::<String>());
        assert_eq!(by_chars, patch(manifest, LINE));
    }
}
