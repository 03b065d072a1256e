//! Writing a replacement into the text of a manifest.
//!
//! The text is edited as a sequence of characters, never decoded and written out anew, so
//! that everything but the added line, and the section header where it had to be added,
//! stays as it was.

use crate::text::{
    append_chars, append_range, chars_of, find, find_from, first_occurrence, is_white_space,
    lemma_first_occurrence, lemma_first_occurrence_is, occurs, occurs_at, string_of, white_space,
};
use vstd::prelude::*;

verus! {

/// Why a manifest was left alone.
#[derive(Debug, Clone, Copy, PartialEq, Eq)]
pub enum PatchFailure {
    /// The section header stands in the text, but nowhere at the start of a line after the
    /// first.
    AmbiguousSection,
}

/// The header of the section that holds the replacements.
pub open spec fn header() -> Seq<char> {
    "[replace]"@
}

/// The header at the start of a line: a line feed, then the header.
pub open spec fn marker() -> Seq<char> {
    "\n[replace]"@
}

/// A line feed.
pub open spec fn line_feed() -> Seq<char> {
    seq!['\n']
}

/// How many of the last pieces of a text are blank, where the pieces are what line feeds
/// separate and a piece is blank if it holds white space only. The count starts at the
/// last piece and stops before the first piece that is not blank.
///
/// A text that ends in a line feed ends in an empty piece, so the count is one more than
/// that of the text before the line feed; other white space at the end belongs to the last
/// piece and leaves the count as it is; any other character at the end makes it zero.
pub open spec fn trailing_blank_lines(m: Seq<char>) -> nat
    decreases m.len(),
{
    if m.len() == 0 {
        1
    } else if m.last() == '\n' {
        1 + trailing_blank_lines(m.drop_last())
    } else if is_white_space(m.last()) {
        trailing_blank_lines(m.drop_last())
    } else {
        0
    }
}

/// The text with line feeds added at its end until a new section can follow after one
/// blank line: one line feed where no piece at the end is blank, then one more where just
/// one is.
pub open spec fn normalized(m: Seq<char>) -> Seq<char> {
    let first = if trailing_blank_lines(m) == 0 {
        m.push('\n')
    } else {
        m
    };
    if trailing_blank_lines(first) == 1 {
        first.push('\n')
    } else {
        first
    }
}

/// The manifest `m` with the line `line` written into its section of replacements.
///
/// Where the header stands at the start of a line, the new line goes right after the line
/// of the first such header, before what the section held; where the text ends with that
/// header, a line feed and the new line are added. Where the header stands nowhere, the
/// text is padded with line feeds, and the header on a line of its own and the new line
/// follow. Where the header stands in the text but at the start of no line, nothing is
/// written.
pub open spec fn patched(m: Seq<char>, line: Seq<char>) -> Result<Seq<char>, PatchFailure> {
    match first_occurrence(m, marker()) {
        Some(i) => match first_occurrence(m.skip(i + 1), line_feed()) {
            Some(j) => Ok(m.take(i + 2 + j) + line + m.skip(i + 2 + j)),
            None => Ok(m + line_feed() + line),
        },
        None => if occurs(m, header()) {
            Err(PatchFailure::AmbiguousSection)
        } else {
            Ok(normalized(m) + header() + line_feed() + line)
        },
    }
}

/// Adding a line feed to a text adds one blank piece at its end.
pub proof fn lemma_line_feed_adds_blank_line(m: Seq<char>)
    ensures
        trailing_blank_lines(m.push('\n')) == trailing_blank_lines(m) + 1,
{
    assert(m.push('\n').drop_last() =~= m);
}

/// The number of blank pieces at the end of a text, counted up to two.
pub fn blank_tail(v: &Vec<char>) -> (n: usize)
    ensures
        n <= 2,
        n < 2 ==> n == trailing_blank_lines(v@),
        n == 2 ==> trailing_blank_lines(v@) >= 2,
{
    let mut k: usize = v.len();
    let mut n: usize = 0;
    assert(v@.take(k as int) =~= v@);
    while k > 0
        invariant
            k <= v.len(),
            n <= 1,
            trailing_blank_lines(v@) == n + trailing_blank_lines(v@.take(k as int)),
        decreases k,
    {
        let c = v[k - 1];
        proof {
            assert(v@.take(k as int).drop_last() =~= v@.take(k - 1));
            assert(v@.take(k as int).last() == c);
        }
        if c == '\n' {
            if n == 1 {
                return 2;
            }
            n += 1;
        } else if !white_space(c) {
            return n;
        }
        k -= 1;
    }
    assert(v@.take(0).len() == 0);
    n + 1
}

/// Pads a text with line feeds so that a new section can follow.
pub fn normalize(v: &mut Vec<char>)
    ensures
        final(v)@ == normalized(old(v)@),
{
    let n = blank_tail(v);
    proof {
        lemma_line_feed_adds_blank_line(v@);
    }
    if n == 0 {
        v.push('\n');
        v.push('\n');
    } else if n == 1 {
        v.push('\n');
    }
}

/// Writes the line `line` into the section of replacements of the manifest `manifest`,
/// and returns the new text; fails where the section's header stands in the text but at
/// the start of no line.
pub fn patch_chars(manifest: &Vec<char>, line: &Vec<char>) -> (r: Result<Vec<char>, PatchFailure>)
    ensures
        match r {
            Ok(out) => patched(manifest@, line@) == Ok::<Seq<char>, PatchFailure>(out@),
            Err(e) => patched(manifest@, line@) == Err::<Seq<char>, PatchFailure>(e),
        },
{
    let marker_text = chars_of("\n[replace]");
    let header_text = chars_of("[replace]");
    let mut feed: Vec<char> = Vec::new();
    feed.push('\n');
    assert(feed@ =~= line_feed());
    let mut out: Vec<char> = Vec::new();
    match find(manifest, &marker_text) {
        Some(i) => {
            proof {
                reveal_strlit("\n[replace]");
            }
            match find_from(manifest, &feed, i + 1) {
                Some(p) => {
                    append_range(&mut out, manifest, 0, p + 1);
                    append_chars(&mut out, line);
                    append_range(&mut out, manifest, p + 1, manifest.len());
                    proof {
                        let j = p - (i + 1);
                        assert(i + 2 + j == p + 1);
                        assert(manifest@.take(p + 1) =~= manifest@.subrange(0, p + 1));
                        assert(manifest@.skip(p + 1) =~= manifest@.subrange(
                            p + 1,
                            manifest@.len() as int,
                        ));
                    }
                },
                None => {
                    append_chars(&mut out, manifest);
                    out.push('\n');
                    append_chars(&mut out, line);
                    assert(out@ =~= manifest@ + line_feed() + line@);
                },
            }
            Ok(out)
        },
        None => {
            match find(manifest, &header_text) {
                Some(k) => {
                    proof {
                        lemma_first_occurrence(manifest@, header());
                        assert(occurs_at(manifest@, header(), k as int));
                    }
                    Err(PatchFailure::AmbiguousSection)
                },
                None => {
                    proof {
                        lemma_first_occurrence(manifest@, header());
                    }
                    append_chars(&mut out, manifest);
                    assert(out@ =~= manifest@);
                    normalize(&mut out);
                    append_chars(&mut out, &header_text);
                    out.push('\n');
                    append_chars(&mut out, line);
                    assert(out@ =~= normalized(manifest@) + header() + line_feed() + line@);
                    Ok(out)
                },
            }
        },
    }
}

/// Writes the line `line` into the section of replacements of the manifest `manifest`,
/// and returns the new text; fails where the section's header stands in the text but at
/// the start of no line.
pub fn patch(manifest: &str, line: &str) -> (r: Result<String, PatchFailure>)
    ensures
        match r {
            Ok(out) => patched(manifest@, line@) == Ok::<Seq<char>, PatchFailure>(out@),
            Err(e) => patched(manifest@, line@) == Err::<Seq<char>, PatchFailure>(e),
        },
{
    let m = chars_of(manifest);
    let l = chars_of(line);
    match patch_chars(&m, &l) {
        Ok(out) => Ok(string_of(&out)),
        Err(e) => Err(e),
    }
}

/// The line feeds that `normalized` adds to a text: two where no piece at its end is
/// blank, one where just one is, else none.
pub open spec fn padding_of(m: Seq<char>) -> Seq<char> {
    if trailing_blank_lines(m) == 0 {
        seq!['\n', '\n']
    } else if trailing_blank_lines(m) == 1 {
        seq!['\n']
    } else {
        Seq::empty()
    }
}

/// Padding a text leaves the text as it was, adds line feeds only, and leaves at least
/// two blank pieces at the end: what follows starts a line and has a blank line before
/// it, unless white space other than a line feed ended the text.
pub proof fn lemma_normalized(m: Seq<char>)
    ensures
        normalized(m) == m + padding_of(m),
        trailing_blank_lines(normalized(m)) >= 2,
        trailing_blank_lines(m) <= 1 ==> normalized(m).last() == '\n',
{
    lemma_line_feed_adds_blank_line(m);
    lemma_line_feed_adds_blank_line(m.push('\n'));
    if trailing_blank_lines(m) == 0 {
        assert(m.push('\n').push('\n') =~= m + seq!['\n', '\n']);
    } else if trailing_blank_lines(m) == 1 {
        assert(m.push('\n') =~= m + seq!['\n']);
    } else {
        assert(m =~= m + Seq::<char>::empty());
    }
}

/// Where the header stands at the start of a line, it stands in the text.
pub proof fn lemma_marker_holds_header(m: Seq<char>, i: int)
    requires
        occurs_at(m, marker(), i),
    ensures
        m[i] == '\n',
        occurs_at(m, header(), i + 1),
{
    reveal_strlit("\n[replace]");
    reveal_strlit("[replace]");
    let piece = m.subrange(i, i + 10);
    assert(piece == marker());
    assert(m[i] == piece[0]);
    assert(m.subrange(i + 1, i + 10) =~= header()) by {
        assert forall|k: int| 0 <= k < 9 implies m.subrange(i + 1, i + 10)[k] == header()[k] by {
            assert(m.subrange(i + 1, i + 10)[k] == piece[k + 1]);
        }
    }
}

/// Where a line feed stands before the header, the header stands at the start of a line.
pub proof fn lemma_header_after_line_feed(m: Seq<char>, i: int)
    requires
        0 <= i,
        m[i] == '\n',
        occurs_at(m, header(), i + 1),
    ensures
        occurs_at(m, marker(), i),
{
    reveal_strlit("\n[replace]");
    reveal_strlit("[replace]");
    let piece = m.subrange(i + 1, i + 10);
    assert(piece == header());
    assert(m.subrange(i, i + 10) =~= marker()) by {
        assert forall|k: int| 0 <= k < 10 implies m.subrange(i, i + 10)[k] == marker()[k] by {
            if k > 0 {
                assert(m.subrange(i, i + 10)[k] == piece[k - 1]);
            }
        }
    }
}

/// No line feed stands where the header stands.
pub proof fn lemma_header_holds_no_line_feed(m: Seq<char>, i: int, k: int)
    requires
        occurs_at(m, header(), i),
        i <= k < i + 9,
    ensures
        m[k] != '\n',
{
    reveal_strlit("[replace]");
    let piece = m.subrange(i, i + 9);
    assert(piece == header());
    assert(m[k] == piece[k - i]);
}

/// Where a text is patched, nothing of it is lost or changed: the new text is the old
/// one with something put in at one place, and what is put in ends with the line.
pub proof fn lemma_patch_only_inserts(m: Seq<char>, line: Seq<char>)
    ensures
        patched(m, line) matches Ok(out) ==> exists|p: int, lead: Seq<char>|
            0 <= p <= m.len() && out == #[trigger] (m.take(p) + lead + line) + m.skip(p),
{
    lemma_first_occurrence(m, marker());
    match first_occurrence(m, marker()) {
        Some(i) => {
            reveal_strlit("\n[replace]");
            let rest = m.skip(i + 1);
            lemma_first_occurrence(rest, line_feed());
            match first_occurrence(rest, line_feed()) {
                Some(j) => {
                    let p = i + 2 + j;
                    let out = m.take(p) + line + m.skip(p);
                    assert(out =~= (m.take(p) + Seq::<char>::empty() + line) + m.skip(p));
                },
                None => {
                    let p = m.len() as int;
                    let out = m + line_feed() + line;
                    assert(out =~= (m.take(p) + line_feed() + line) + m.skip(p));
                },
            }
        },
        None => {
            if !occurs(m, header()) {
                lemma_normalized(m);
                let p = m.len() as int;
                let lead = padding_of(m) + header() + line_feed();
                let out = normalized(m) + header() + line_feed() + line;
                assert(out =~= (m.take(p) + lead + line) + m.skip(p));
            }
        },
    }
}

/// Where a manifest has no section of replacements, the patched text begins with the
/// manifest as it was, character for character, and goes on with the padding, the header
/// on a line of its own, and the line.
pub proof fn lemma_new_section_keeps_manifest(m: Seq<char>, line: Seq<char>)
    requires
        !occurs(m, header()),
    ensures
        patched(m, line) == Ok::<Seq<char>, PatchFailure>(
            m + padding_of(m) + header() + line_feed() + line,
        ),
        (m + padding_of(m) + header() + line_feed() + line).take(m.len() as int) == m,
        occurs_at(m + padding_of(m) + header() + line_feed() + line, m, 0),
{
    lemma_first_occurrence(m, marker());
    match first_occurrence(m, marker()) {
        Some(i) => {
            lemma_marker_holds_header(m, i);
        },
        None => {},
    }
    lemma_normalized(m);
    let out = m + padding_of(m) + header() + line_feed() + line;
    assert(out.take(m.len() as int) =~= m);
    assert(out.subrange(0, m.len() as int) =~= m);
}

/// The header of the manifest's section of replacements starts a line, or will start
/// one where the section has yet to be added: a header is there at the start of a line,
/// or the text when padded ends in a line feed.
pub open spec fn header_starts_line(m: Seq<char>) -> bool {
    first_occurrence(m, marker()) is Some || normalized(m).last() == '\n'
}

/// Where a manifest is patched with one line and then with another, the second patch
/// succeeds, both lines stand in the result, and the later line stands right before the
/// earlier one, at the place where the earlier one was written: it is now the first line
/// of the section.
///
/// This holds where the section's header starts a line. It does not where a manifest
/// without the section ends in two blank lines and then white space with no line feed
/// after it: the header is then written after that white space, and is not found again.
pub proof fn lemma_patch_twice(m: Seq<char>, first: Seq<char>, second: Seq<char>)
    requires
        patched(m, first) is Ok,
        header_starts_line(m),
    ensures
        ({
            let once = patched(m, first)->Ok_0;
            exists|p: int|
                0 <= p && p + first.len() <= once.len() && #[trigger] once.subrange(
                    p,
                    p + first.len(),
                ) == first && patched(once, second) == Ok::<Seq<char>, PatchFailure>(
                    once.take(p) + second + once.skip(p),
                )
        }),
{
    reveal_strlit("\n[replace]");
    reveal_strlit("[replace]");
    let once = patched(m, first)->Ok_0;
    lemma_first_occurrence(m, marker());
    match first_occurrence(m, marker()) {
        Some(i) => {
            let rest = m.skip(i + 1);
            lemma_first_occurrence(rest, line_feed());
            lemma_marker_holds_header(m, i);
            match first_occurrence(rest, line_feed()) {
                Some(j) => {
                    let p = i + 2 + j;
                    assert(rest[j] == rest.subrange(j, j + 1)[0]);
                    assert(j >= 9) by {
                        if j < 9 {
                            lemma_header_holds_no_line_feed(m, i + 1, i + 1 + j);
                        }
                    }
                    assert(once == m.take(p) + first + m.skip(p));
                    assert(once.take(p) =~= m.take(p));
                    lemma_same_start(m, once, p, i, j);
                    assert(once.subrange(p, p + first.len()) =~= first);
                },
                None => {
                    let p = m.len() as int + 1;
                    assert(once == m + line_feed() + first);
                    let j = m.len() - (i + 1);
                    assert forall|k: int| i + 1 <= k < m.len() implies m[k] != '\n' by {
                        let t = k - (i + 1);
                        assert(!occurs_at(rest, line_feed(), t));
                        if m[k] == '\n' {
                            assert(rest.subrange(t, t + 1) =~= line_feed());
                        }
                    }
                    assert(once.take(m.len() as int) =~= m);
                    lemma_same_start_appended(m, once, i, j);
                    assert(once.subrange(p, p + first.len()) =~= first);
                },
            }
        },
        None => {
            lemma_normalized(m);
            let padded = normalized(m);
            assert(once == padded + header() + line_feed() + first);
            let i = padded.len() - 1;
            let p = padded.len() as int + 10;
            assert(occurs_at(once, header(), i + 1)) by {
                assert(once.subrange(i + 1, i + 1 + 9) =~= header());
            }
            lemma_header_after_line_feed(once, i);
            assert forall|q: int| 0 <= q < i implies !occurs_at(once, marker(), q) by {
                if occurs_at(once, marker(), q) {
                    lemma_marker_holds_header(once, q);
                    if q + 10 > i {
                        lemma_header_holds_no_line_feed(once, q + 1, i);
                    } else if q + 10 <= m.len() {
                        assert(m.subrange(q + 1, q + 1 + 9) =~= once.subrange(q + 1, q + 1 + 9));
                        assert(occurs_at(m, header(), q + 1));
                    } else {
                        assert(once[m.len() as int] == '\n');
                        lemma_header_holds_no_line_feed(once, q + 1, m.len() as int);
                    }
                }
            }
            lemma_first_occurrence_is(once, marker(), i);
            let rest = once.skip(i + 1);
            assert(rest =~= header() + line_feed() + first);
            assert(rest.subrange(9, 10) =~= line_feed());
            assert forall|k: int| 0 <= k < 9 implies !occurs_at(rest, line_feed(), k) by {
                if occurs_at(rest, line_feed(), k) {
                    assert(rest.subrange(k, k + 1)[0] == rest[k]);
                }
            }
            lemma_first_occurrence_is(rest, line_feed(), 9);
            assert(i + 2 + 9 == p);
            assert(once.subrange(p, p + first.len()) =~= first);
        },
    }
}

/// After a line was written behind the first line of the section, the section and the
/// end of its first line are found where they were.
proof fn lemma_same_start(m: Seq<char>, once: Seq<char>, p: int, i: int, j: int)
    requires
        first_occurrence(m, marker()) == Some(i),
        first_occurrence(m.skip(i + 1), line_feed()) == Some(j),
        p == i + 2 + j,
        j >= 9,
        p <= m.len(),
        once.len() >= p,
        once.take(p) == m.take(p),
    ensures
        first_occurrence(once, marker()) == Some(i),
        first_occurrence(once.skip(i + 1), line_feed()) == Some(j),
{
    reveal_strlit("\n[replace]");
    lemma_first_occurrence(m, marker());
    lemma_first_occurrence(m.skip(i + 1), line_feed());
    assert forall|q: int| 0 <= q <= i implies occurs_at(once, marker(), q) == occurs_at(
        m,
        marker(),
        q,
    ) by {
        assert(once.subrange(q, q + 10) =~= once.take(p).subrange(q, q + 10));
        assert(m.subrange(q, q + 10) =~= m.take(p).subrange(q, q + 10));
    }
    lemma_first_occurrence_is(once, marker(), i);
    let a = m.skip(i + 1);
    let b = once.skip(i + 1);
    assert forall|k: int| 0 <= k <= j implies occurs_at(b, line_feed(), k) == occurs_at(
        a,
        line_feed(),
        k,
    ) by {
        assert(b.subrange(k, k + 1) =~= once.take(p).subrange(i + 1 + k, i + 2 + k));
        assert(a.subrange(k, k + 1) =~= m.take(p).subrange(i + 1 + k, i + 2 + k));
    }
    lemma_first_occurrence_is(b, line_feed(), j);
}

/// After a line feed and a line were added to a text that ended with the header, the
/// section is found where it was, and its first line ends where the text ended.
proof fn lemma_same_start_appended(m: Seq<char>, once: Seq<char>, i: int, j: int)
    requires
        first_occurrence(m, marker()) == Some(i),
        j == m.len() - (i + 1),
        forall|k: int| i + 1 <= k < m.len() ==> m[k] != '\n',
        once.len() > m.len(),
        once.take(m.len() as int) == m,
        once[m.len() as int] == '\n',
    ensures
        first_occurrence(once, marker()) == Some(i),
        first_occurrence(once.skip(i + 1), line_feed()) == Some(j),
{
    reveal_strlit("\n[replace]");
    lemma_first_occurrence(m, marker());
    let n = m.len() as int;
    assert forall|q: int| 0 <= q <= i implies occurs_at(once, marker(), q) == occurs_at(
        m,
        marker(),
        q,
    ) by {
        assert(once.subrange(q, q + 10) =~= once.take(n).subrange(q, q + 10));
    }
    lemma_first_occurrence_is(once, marker(), i);
    let b = once.skip(i + 1);
    assert(b.subrange(j, j + 1) =~= line_feed());
    assert forall|k: int| 0 <= k < j implies !occurs_at(b, line_feed(), k) by {
        assert(b[k] == once.take(n)[i + 1 + k]);
        assert(m[i + 1 + k] != '\n');
        if occurs_at(b, line_feed(), k) {
            assert(b.subrange(k, k + 1)[0] == b[k]);
        }
    }
    lemma_first_occurrence_is(b, line_feed(), j);
}

} // verus!
