//! The two parts of a source document: declarations, then a separator line,
//! then the statements. Either part may be empty, and a document without a
//! separator line holds statements only.
//!
//! A separator line is a line that starts with three dashes and holds
//! nothing but white space after them. The white space that follows the
//! dashes belongs to the separator as far as the last line end in it, or to
//! the end of the document where nothing but white space follows.

use crate::shal::lexer::to_chars;
use vstd::prelude::*;
use vstd::string::StrSliceExecFns;

verus! {

/// White space as Unicode defines it.
pub open spec fn is_white_space(c: char) -> bool {
    ('\u{9}' <= c && c <= '\u{d}') || c == ' ' || c == '\u{85}' || c == '\u{a0}' || c
        == '\u{1680}' || ('\u{2000}' <= c && c <= '\u{200a}') || c == '\u{2028}' || c
        == '\u{2029}' || c == '\u{202f}' || c == '\u{205f}' || c == '\u{3000}'
}

/// Where the white space that starts at `pos` ends.
pub open spec fn space_end(text: Seq<char>, pos: int) -> int
    decreases text.len() - pos,
{
    if 0 <= pos < text.len() && is_white_space(text[pos]) {
        space_end(text, pos + 1)
    } else {
        pos
    }
}

/// The place of the last line end from `from` up to, but not at, `to`; or
/// -1 where there is none.
pub open spec fn last_line_end(text: Seq<char>, from: int, to: int) -> int
    decreases to - from,
{
    if to <= from {
        -1
    } else if text[to - 1] == '\n' {
        to - 1
    } else {
        last_line_end(text, from, to - 1)
    }
}

/// Three dashes stand at the start of a line at `pos`.
pub open spec fn dashes_at(text: Seq<char>, pos: int) -> bool {
    &&& 0 <= pos
    &&& pos + 3 <= text.len()
    &&& (pos == 0 || text[pos - 1] == '\n')
    &&& text[pos] == '-'
    &&& text[pos + 1] == '-'
    &&& text[pos + 2] == '-'
}

/// Where the separator that starts at `pos` ends, if one starts there.
pub open spec fn separator_end(text: Seq<char>, pos: int) -> Option<int> {
    if !dashes_at(text, pos) {
        None
    } else {
        let stop = space_end(text, pos + 3);
        if stop >= text.len() {
            Some(text.len() as int)
        } else {
            let end = last_line_end(text, pos + 3, stop);
            if end >= 0 {
                Some(end)
            } else {
                None
            }
        }
    }
}

/// Where the first separator from `pos` on starts and ends, if there is
/// one.
pub open spec fn separator_from(text: Seq<char>, pos: int) -> Option<(int, int)>
    decreases text.len() - pos,
{
    if pos < 0 || pos >= text.len() {
        None
    } else {
        match separator_end(text, pos) {
            Some(end) => Some((pos, end)),
            None => separator_from(text, pos + 1),
        }
    }
}

/// The text of the declarations, if the document has a separator, and the
/// text of the statements.
pub open spec fn document_parts(text: Seq<char>) -> (Option<Seq<char>>, Seq<char>) {
    match separator_from(text, 0) {
        Some((start, end)) => (Some(text.subrange(0, start)), text.subrange(end, text.len() as int)),
        None => (None, text),
    }
}

/// Tells whether a character is white space.
fn check_white_space(c: char) -> (r: bool)
    ensures
        r == is_white_space(c),
{
    ('\u{9}' <= c && c <= '\u{d}') || c == ' ' || c == '\u{85}' || c == '\u{a0}' || c
        == '\u{1680}' || ('\u{2000}' <= c && c <= '\u{200a}') || c == '\u{2028}' || c
        == '\u{2029}' || c == '\u{202f}' || c == '\u{205f}' || c == '\u{3000}'
}

/// Where the separator that starts at `pos` ends, if one starts there.
fn find_separator_end(chars: &Vec<char>, pos: usize) -> (r: Option<usize>)
    requires
        pos < chars@.len(),
    ensures
        match separator_end(chars@, pos as int) {
            Some(end) => r == Some(end as usize) && pos + 3 <= end <= chars@.len(),
            None => r is None,
        },
{
    let n = chars.len();
    if n - pos < 3 {
        return None;
    }
    if !(pos == 0 || chars[pos - 1] == '\n') {
        return None;
    }
    if chars[pos] != '-' || chars[pos + 1] != '-' || chars[pos + 2] != '-' {
        return None;
    }
    let from = pos + 3;
    let mut stop = from;
    while stop < n && check_white_space(chars[stop])
        invariant
            from <= stop <= n,
            n == chars@.len(),
            space_end(chars@, from as int) == space_end(chars@, stop as int),
        decreases n - stop,
    {
        stop += 1;
    }
    if stop >= n {
        return Some(n);
    }
    let mut end = stop;
    assert(space_end(chars@, from as int) == stop);
    while end > from
        invariant
            from <= end <= stop < n,
            n == chars@.len(),
            from == pos + 3,
            dashes_at(chars@, pos as int),
            space_end(chars@, from as int) == stop,
            last_line_end(chars@, from as int, stop as int) == last_line_end(
                chars@,
                from as int,
                end as int,
            ),
        decreases end - from,
    {
        if chars[end - 1] == '\n' {
            return Some(end - 1);
        }
        end -= 1;
    }
    None
}

/// Cuts a document at its first separator line into the text of the
/// declarations and the text of the statements. A document without a
/// separator line holds statements only.
pub fn split_source<'a>(input: &'a str) -> (r: (Option<&'a str>, &'a str))
    ensures
        match document_parts(input@) {
            (Some(declarations), statements) => r.0 matches Some(d) && d@ == declarations && r.1@
                == statements,
            (None, statements) => r.0 is None && r.1@ == statements,
        },
{
    let chars = to_chars(input);
    let n = chars.len();
    let mut pos: usize = 0;
    while pos < n
        invariant
            pos <= n,
            n == chars@.len(),
            chars@ == input@,
            separator_from(chars@, 0) == separator_from(chars@, pos as int),
        decreases n - pos,
    {
        if let Some(end) = find_separator_end(&chars, pos) {
            let declarations = input.substring_char(0, pos);
            let statements = input.substring_char(end, n);
            return (Some(declarations), statements);
        }
        pos += 1;
    }
    assert(input@.subrange(0, n as int) =~= input@);
    (None, input)
}

} // verus!
