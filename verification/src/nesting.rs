//! How deep a TOML text is nested, told from its tokens without decoding it.
//!
//! The decoder of a document calls itself for every array and inline table that lies in
//! another, and for every part of a key; so does what takes the document apart again.
//! Here the text is read token by token as the decoder's tokenizer reads it: strings are
//! followed to their end, comments to the end of their line, and what stands in them
//! counts for nothing. What is counted is how many arrays and inline tables are open at
//! once, with the parts of the keys that lead to them.

use crate::text::chars_of;
use vstd::prelude::*;

verus! {

/// What a word or a string is, where the reading stands.
#[derive(Debug, Clone, Copy, PartialEq, Eq)]
pub enum Mode {
    /// A part of a key: at the start of a line, and in an inline table before `=`.
    Key,
    /// A value or a piece of one: after `=`, and in an array.
    Value,
    /// A part of the header of a table: on a line that starts with `[`.
    Header,
}

/// An array or an inline table that is open, with the parts of the key that is being
/// read or was last read in it.
#[derive(Debug, Clone, Copy, PartialEq, Eq)]
pub struct Frame {
    pub table: bool,
    pub parts: usize,
}

/// An open array or inline table in contracts.
pub struct Level {
    pub table: bool,
    pub parts: nat,
}

/// Where a reading stands.
pub struct Reading {
    /// The parts of the header of the table that the lines belong to.
    pub header: nat,
    /// The parts of the key of the line.
    pub line: nat,
    /// The arrays and inline tables that are open, the innermost last.
    pub levels: Seq<Level>,
    pub mode: Mode,
}

/// A character of a bare key or of a number.
pub open spec fn is_word_char(c: char) -> bool {
    ('A' <= c && c <= 'Z') || ('a' <= c && c <= 'z') || ('0' <= c && c <= '9') || c == '-' || c
        == '_'
}

/// Where the word ends that position `p` lies in or behind.
pub open spec fn word_end(text: Seq<char>, p: int) -> int
    decreases text.len() - p,
{
    if 0 <= p < text.len() && is_word_char(text[p]) {
        word_end(text, p + 1)
    } else {
        p
    }
}

/// Where the line ends that position `p` lies in: at its line feed, or at the end of the
/// text.
pub open spec fn line_end(text: Seq<char>, p: int) -> int
    decreases text.len() - p,
{
    if 0 <= p < text.len() && text[p] != '\n' {
        line_end(text, p + 1)
    } else {
        p
    }
}

/// Where a string ends whose inside goes on at position `p`: behind the quote that
/// closes it. A string on one line is closed by its quote, or broken off by a line feed;
/// a string over many lines is closed by three of its quotes in a row. Between double
/// quotes the character after a backslash closes nothing. A string that is not closed
/// ends with the text.
pub open spec fn string_end(text: Seq<char>, p: int, quote: char, long: bool) -> int
    decreases text.len() - p,
{
    if !(0 <= p < text.len()) {
        text.len() as int
    } else if text[p] == quote {
        if !long {
            p + 1
        } else if p + 2 < text.len() && text[p + 1] == quote && text[p + 2] == quote {
            p + 3
        } else if p + 1 < text.len() && text[p + 1] == quote {
            string_end(text, p + 2, quote, long)
        } else {
            string_end(text, p + 1, quote, long)
        }
    } else if text[p] == '\\' && quote == '"' {
        if p + 2 <= text.len() {
            string_end(text, p + 2, quote, long)
        } else {
            text.len() as int
        }
    } else if text[p] == '\n' && !long {
        p
    } else {
        string_end(text, p + 1, quote, long)
    }
}

/// Where the string ends that opens with the quote at position `p`: three quotes in a
/// row open a string over many lines, two are an empty string.
pub open spec fn string_after(text: Seq<char>, p: int) -> int {
    if p + 2 < text.len() && text[p + 1] == text[p] && text[p + 2] == text[p] {
        string_end(text, p + 3, text[p], true)
    } else if p + 1 < text.len() && text[p + 1] == text[p] {
        p + 2
    } else {
        string_end(text, p + 1, text[p], false)
    }
}

/// How deep the open arrays and inline tables lie: one for each, and one for each part
/// of the keys in them.
pub open spec fn levels_depth(levels: Seq<Level>) -> nat
    decreases levels.len(),
{
    if levels.len() == 0 {
        0
    } else {
        levels_depth(levels.drop_last()) + 1 + levels.last().parts
    }
}

/// How deep the reading stands: the parts of the header, the parts of the key of the
/// line, and what is open.
pub open spec fn depth(r: Reading) -> nat {
    r.header + r.line + levels_depth(r.levels)
}

/// The reading at the start of a text.
pub open spec fn start() -> Reading {
    Reading { header: 0, line: 0, levels: Seq::empty(), mode: Mode::Key }
}

/// After a word or a string: one more part of the header or of the key that is being
/// read. A value adds nothing.
pub open spec fn counted(r: Reading) -> Reading {
    match r.mode {
        Mode::Header => Reading { header: r.header + 1, ..r },
        Mode::Value => r,
        Mode::Key => if r.levels.len() == 0 {
            Reading { line: r.line + 1, ..r }
        } else {
            Reading {
                levels: r.levels.drop_last().push(
                    Level { table: r.levels.last().table, parts: r.levels.last().parts + 1 },
                ),
                ..r
            }
        },
    }
}

/// After `[` or `{` that opens an array or an inline table: in an inline table a key
/// comes first, in an array a value.
pub open spec fn opened(r: Reading, table: bool) -> Reading {
    Reading {
        levels: r.levels.push(Level { table, parts: 0 }),
        mode: if table {
            Mode::Key
        } else {
            Mode::Value
        },
        ..r
    }
}

/// After `]` or `}`: the innermost array or inline table is closed, and with it the
/// value that it was.
pub open spec fn closed(r: Reading) -> Reading {
    if r.levels.len() == 0 {
        Reading { mode: Mode::Value, ..r }
    } else {
        Reading { levels: r.levels.drop_last(), mode: Mode::Value, ..r }
    }
}

/// After a comma: in an inline table the next key begins, in an array the next value.
pub open spec fn separated(r: Reading) -> Reading {
    if r.levels.len() > 0 && r.levels.last().table {
        Reading {
            levels: r.levels.drop_last().push(Level { table: true, parts: 0 }),
            mode: Mode::Key,
            ..r
        }
    } else {
        r
    }
}

/// After a line feed: where nothing is open the line is over, and the next begins with
/// a key or a header. In an array the line feed means nothing.
pub open spec fn line_ended(r: Reading) -> Reading {
    if r.levels.len() == 0 {
        Reading { line: 0, mode: Mode::Key, ..r }
    } else {
        r
    }
}

/// The token at position `p`: where the next token begins, and where the reading stands
/// after it.
pub open spec fn step(text: Seq<char>, p: int, r: Reading) -> (int, Reading) {
    let c = text[p];
    if c == '\n' {
        (p + 1, line_ended(r))
    } else if c == '#' {
        (line_end(text, p + 1), r)
    } else if c == '"' || c == '\'' {
        (string_after(text, p), counted(r))
    } else if is_word_char(c) {
        (word_end(text, p + 1), counted(r))
    } else if r.mode is Header {
        if c == '[' {
            (p + 1, counted(r))
        } else {
            (p + 1, r)
        }
    } else if c == '[' {
        if r.mode is Key && r.levels.len() == 0 && r.line == 0 {
            (p + 1, Reading { header: 0, mode: Mode::Header, ..r })
        } else {
            (p + 1, opened(r, false))
        }
    } else if c == '{' {
        (p + 1, opened(r, true))
    } else if c == ']' || c == '}' {
        (p + 1, closed(r))
    } else if c == ',' {
        (p + 1, separated(r))
    } else if c == '=' && r.mode is Key {
        (p + 1, Reading { mode: Mode::Value, ..r })
    } else {
        (p + 1, r)
    }
}

/// The deepest that the reading stands from position `p` on, where it stands at `r`
/// there.
pub open spec fn deepest_from(text: Seq<char>, p: int, r: Reading) -> nat
    decreases text.len() - p,
{
    if !(0 <= p < text.len()) || !(p < step(text, p, r).0 <= text.len()) {
        depth(r)
    } else {
        let rest = deepest_from(text, step(text, p, r).0, step(text, p, r).1);
        if rest > depth(r) {
            rest
        } else {
            depth(r)
        }
    }
}

/// How deep a text is nested: the most arrays and inline tables that are open at once
/// anywhere in it, counted with the parts of the keys that lead to them and of the
/// header that they stand under. A header that opens with `[[` counts one part more.
pub open spec fn nesting_depth(text: Seq<char>) -> nat {
    deepest_from(text, 0, start())
}

/// The deepest nesting that is handed to the decoder. It is set well below what
/// exhausts the stack of a thread: the decoder takes texts some times as deep.
pub const MAX_NESTING: usize = 128;

/// A word ends at or behind the position it is asked for, and within the text.
pub proof fn lemma_word_end(text: Seq<char>, p: int)
    requires
        0 <= p <= text.len(),
    ensures
        p <= word_end(text, p) <= text.len(),
    decreases text.len() - p,
{
    if p < text.len() && is_word_char(text[p]) {
        lemma_word_end(text, p + 1);
    }
}

/// A line ends at or behind the position it is asked for, and within the text.
pub proof fn lemma_line_end(text: Seq<char>, p: int)
    requires
        0 <= p <= text.len(),
    ensures
        p <= line_end(text, p) <= text.len(),
    decreases text.len() - p,
{
    if p < text.len() && text[p] != '\n' {
        lemma_line_end(text, p + 1);
    }
}

/// A string ends at or behind the position it is asked for, and within the text.
pub proof fn lemma_string_end(text: Seq<char>, p: int, quote: char, long: bool)
    requires
        0 <= p,
    ensures
        string_end(text, p, quote, long) <= text.len(),
        p <= text.len() ==> p <= string_end(text, p, quote, long),
    decreases text.len() - p,
{
    if p < text.len() {
        lemma_string_end(text, p + 1, quote, long);
        if p + 2 <= text.len() {
            lemma_string_end(text, p + 2, quote, long);
        }
    }
}

/// A line ends at the first line feed at or behind the position, or with the text.
pub proof fn lemma_line_end_is(text: Seq<char>, p: int, q: int)
    requires
        0 <= p <= q <= text.len(),
        forall|i: int| p <= i < q ==> text[i] != '\n',
        q == text.len() || text[q] == '\n',
    ensures
        line_end(text, p) == q,
    decreases q - p,
{
    if p < q {
        lemma_line_end_is(text, p + 1, q);
    }
}

/// A word ends at the first character at or behind the position that is none of a
/// word, or with the text.
pub proof fn lemma_word_end_is(text: Seq<char>, p: int, q: int)
    requires
        0 <= p <= q <= text.len(),
        forall|i: int| p <= i < q ==> is_word_char(text[i]),
        q == text.len() || !is_word_char(text[q]),
    ensures
        word_end(text, p) == q,
    decreases q - p,
{
    if p < q {
        lemma_word_end_is(text, p + 1, q);
    }
}

/// The deepest that a reading stands from a token on is the deeper of where it stands
/// there and the deepest from the next token on; and a text is nested at least as deep
/// as the reading stands anywhere.
pub proof fn lemma_deepest_step(text: Seq<char>, p: int, r: Reading)
    requires
        0 <= p < text.len(),
    ensures
        deepest_from(text, p, r) >= depth(r),
        deepest_from(text, p, r) >= deepest_from(text, step(text, p, r).0, step(text, p, r).1),
        deepest_from(text, p, r) == depth(r) || deepest_from(text, p, r) == deepest_from(
            text,
            step(text, p, r).0,
            step(text, p, r).1,
        ),
{
    lemma_step_advances(text, p, r);
}

/// Every token is at least one character, and none goes beyond the text.
pub proof fn lemma_step_advances(text: Seq<char>, p: int, r: Reading)
    requires
        0 <= p < text.len(),
    ensures
        p < step(text, p, r).0 <= text.len(),
{
    lemma_word_end(text, p + 1);
    lemma_line_end(text, p + 1);
    lemma_string_end(text, p + 1, text[p], false);
    lemma_string_end(text, p + 3, text[p], true);
}

/// Where the word ends that position `p` lies in or behind.
fn skip_word(v: &Vec<char>, p: usize) -> (q: usize)
    requires
        p <= v.len(),
    ensures
        q == word_end(v@, p as int),
        p <= q <= v.len(),
{
    let mut i: usize = p;
    while i < v.len() && word_char(v[i])
        invariant
            p <= i <= v.len(),
            word_end(v@, p as int) == word_end(v@, i as int),
        decreases v.len() - i,
    {
        i += 1;
    }
    i
}

/// Whether a character is one of a bare key or of a number.
pub fn word_char(c: char) -> (r: bool)
    ensures
        r == is_word_char(c),
{
    ('A' <= c && c <= 'Z') || ('a' <= c && c <= 'z') || ('0' <= c && c <= '9') || c == '-' || c
        == '_'
}

/// Where the line ends that position `p` lies in.
fn skip_line(v: &Vec<char>, p: usize) -> (q: usize)
    requires
        p <= v.len(),
    ensures
        q == line_end(v@, p as int),
        p <= q <= v.len(),
{
    let mut i: usize = p;
    while i < v.len() && v[i] != '\n'
        invariant
            p <= i <= v.len(),
            line_end(v@, p as int) == line_end(v@, i as int),
        decreases v.len() - i,
    {
        i += 1;
    }
    i
}

/// Where a string ends whose inside goes on at position `p`.
fn skip_string(v: &Vec<char>, p: usize, quote: char, long: bool) -> (q: usize)
    requires
        p <= v.len(),
    ensures
        q == string_end(v@, p as int, quote, long),
        p <= q <= v.len(),
{
    let mut i: usize = p;
    loop
        invariant
            p <= i <= v.len(),
            string_end(v@, p as int, quote, long) == string_end(v@, i as int, quote, long),
        decreases v.len() - i,
    {
        if i >= v.len() {
            return v.len();
        }
        let c = v[i];
        if c == quote {
            if !long {
                return i + 1;
            }
            if v.len() - i > 2 && v[i + 1] == quote && v[i + 2] == quote {
                return i + 3;
            }
            if v.len() - i > 1 && v[i + 1] == quote {
                i += 2;
            } else {
                i += 1;
            }
        } else if c == '\\' && quote == '"' {
            if v.len() - i >= 2 {
                i += 2;
            } else {
                return v.len();
            }
        } else if c == '\n' && !long {
            return i;
        } else {
            i += 1;
        }
    }
}

/// Where the string ends that opens with the quote at position `p`.
fn skip_quoted(v: &Vec<char>, p: usize) -> (q: usize)
    requires
        p < v.len(),
    ensures
        q == string_after(v@, p as int),
        p < q <= v.len(),
{
    let quote = v[p];
    if v.len() - p > 2 && v[p + 1] == quote && v[p + 2] == quote {
        skip_string(v, p + 3, quote, true)
    } else if v.len() - p > 1 && v[p + 1] == quote {
        p + 2
    } else {
        skip_string(v, p + 1, quote, false)
    }
}

/// The levels that frames stand for.
pub open spec fn levels_of(frames: Seq<Frame>) -> Seq<Level> {
    Seq::new(frames.len(), |i: int| Level { table: frames[i].table, parts: frames[i].parts as nat })
}

/// One more level lies deeper by one and by its parts.
proof fn lemma_levels_push(levels: Seq<Level>, level: Level)
    ensures
        levels_depth(levels.push(level)) == levels_depth(levels) + 1 + level.parts,
{
    assert(levels.push(level).drop_last() =~= levels);
}

/// How deep a text is nested.
pub fn nesting_of(text: &str) -> (n: usize)
    ensures
        n == nesting_depth(text@),
{
    let v = chars_of(text);
    let mut frames: Vec<Frame> = Vec::new();
    let mut header: usize = 0;
    let mut line: usize = 0;
    let mut mode = Mode::Key;
    let mut now: usize = 0;
    let mut best: usize = 0;
    let mut p: usize = 0;
    let ghost mut r = start();
    proof {
        assert(levels_of(frames@) =~= r.levels);
    }
    while p < v.len()
        invariant
            p <= v.len(),
            v@ == text@,
            r.header == header,
            r.line == line,
            r.mode == mode,
            r.levels == levels_of(frames@),
            now == depth(r),
            now <= p,
            best <= p,
            nesting_depth(v@) == if deepest_from(v@, p as int, r) > best {
                deepest_from(v@, p as int, r)
            } else {
                best as nat
            },
        decreases v.len() - p,
    {
        let c = v[p];
        let ghost before = r;
        let ghost here = p as int;
        proof {
            lemma_step_advances(v@, here, r);
        }
        if now > best {
            best = now;
        }
        if c == '\n' {
            if frames.len() == 0 {
                now = now - line;
                line = 0;
                mode = Mode::Key;
            }
            p += 1;
        } else if c == '#' {
            p = skip_line(&v, p + 1);
        } else if c == '"' || c == '\'' || word_char(c) {
            let q = if c == '"' || c == '\'' {
                skip_quoted(&v, p)
            } else {
                skip_word(&v, p + 1)
            };
            match mode {
                Mode::Header => {
                    header += 1;
                    now += 1;
                },
                Mode::Value => {},
                Mode::Key => {
                    if frames.len() == 0 {
                        line += 1;
                    } else {
                        let f = frames[frames.len() - 1];
                        proof {
                            assert(levels_depth(r.levels) >= 1 + r.levels.last().parts);
                            lemma_levels_push(
                                r.levels.drop_last(),
                                Level { table: f.table, parts: (f.parts + 1) as nat },
                            );
                        }
                        frames.pop();
                        frames.push(Frame { table: f.table, parts: f.parts + 1 });
                    }
                    now += 1;
                },
            }
            p = q;
        } else {
            match mode {
                Mode::Header => {
                    if c == '[' {
                        header += 1;
                        now += 1;
                    }
                },
                _ => {
                    if c == '[' {
                        let heading = match mode {
                            Mode::Key => frames.len() == 0 && line == 0,
                            _ => false,
                        };
                        if heading {
                            now = now - header;
                            header = 0;
                            mode = Mode::Header;
                        } else {
                            proof {
                                lemma_levels_push(r.levels, Level { table: false, parts: 0 });
                            }
                            frames.push(Frame { table: false, parts: 0 });
                            mode = Mode::Value;
                            now += 1;
                        }
                    } else if c == '{' {
                        proof {
                            lemma_levels_push(r.levels, Level { table: true, parts: 0 });
                        }
                        frames.push(Frame { table: true, parts: 0 });
                        mode = Mode::Key;
                        now += 1;
                    } else if c == ']' || c == '}' {
                        if frames.len() > 0 {
                            let f = frames[frames.len() - 1];
                            frames.pop();
                            now = now - 1 - f.parts;
                        }
                        mode = Mode::Value;
                    } else if c == ',' {
                        if frames.len() > 0 && frames[frames.len() - 1].table {
                            let f = frames[frames.len() - 1];
                            proof {
                                lemma_levels_push(
                                    r.levels.drop_last(),
                                    Level { table: true, parts: 0 },
                                );
                            }
                            frames.pop();
                            frames.push(Frame { table: true, parts: 0 });
                            now = now - f.parts;
                            mode = Mode::Key;
                        }
                    } else if c == '=' {
                        mode = match mode {
                            Mode::Key => Mode::Value,
                            other => other,
                        };
                    }
                },
            }
            p += 1;
        }
        proof {
            r = step(v@, here, before).1;
            assert(p == step(v@, here, before).0);
            assert(r.levels =~= levels_of(frames@));
        }
    }
    if now > best {
        best = now;
    }
    best
}

/// Whether a text is nested no deeper than `MAX_NESTING`.
pub fn nesting_within(text: &str) -> (r: bool)
    ensures
        r == (nesting_depth(text@) <= MAX_NESTING),
{
    nesting_of(text) <= MAX_NESTING
}

} // verus!
