//! Cutting program text into tokens.
//!
//! Tokens are the five marks `; { } ( )` and words: the longest runs of
//! ASCII letters, digits and underscores. A word is a keyword, a number
//! (digits only) or an identifier (a word that starts with a letter). Blanks,
//! tabs and line ends separate tokens and mean nothing else.

use crate::shal::ast::{is_ascii_digit, is_entity_id, is_identifier_char};
use vstd::prelude::*;
use vstd::string::StrSliceExecFns;

verus! {

/// The kinds of token.
#[derive(Copy, Clone, Debug, PartialEq, Eq, Structural)]
pub enum TokenKind {
    Toggle,
    SetTo,
    On,
    If,
    Else,
    Input,
    Output,
    Is,
    Was,
    Low,
    High,
    And,
    Or,
    Xor,
    Not,
    Redge,
    Fedge,
    Number,
    Identifier,
    Semicolon,
    LeftBrace,
    RightBrace,
    LeftParen,
    RightParen,
}

/// A token: its kind, and where it stands in the text. The places count
/// characters; the token ends before `end`.
#[derive(Copy, Clone, Debug, PartialEq, Eq, Structural)]
pub struct Token {
    pub kind: TokenKind,
    pub start: usize,
    pub end: usize,
}

/// Why a text could not be cut into tokens.
#[derive(Copy, Clone, Debug, PartialEq, Eq, Structural)]
pub enum LexError {
    /// The character at this place can stand in no token.
    UnexpectedCharacter { at: usize },
    /// The word at this place is no keyword, no number and no identifier.
    InvalidWord { start: usize, end: usize },
}

/// A character that separates tokens.
pub open spec fn is_space(c: char) -> bool {
    c == ' ' || c == '\t' || c == '\n' || c == '\r'
}

/// The kind of a mark.
pub open spec fn mark_kind(c: char) -> Option<TokenKind> {
    if c == ';' {
        Some(TokenKind::Semicolon)
    } else if c == '{' {
        Some(TokenKind::LeftBrace)
    } else if c == '}' {
        Some(TokenKind::RightBrace)
    } else if c == '(' {
        Some(TokenKind::LeftParen)
    } else if c == ')' {
        Some(TokenKind::RightParen)
    } else {
        None
    }
}

/// The kind of a keyword.
pub open spec fn keyword_kind(word: Seq<char>) -> Option<TokenKind> {
    if word == "toggle"@ {
        Some(TokenKind::Toggle)
    } else if word == "set"@ {
        Some(TokenKind::SetTo)
    } else if word == "on"@ {
        Some(TokenKind::On)
    } else if word == "if"@ {
        Some(TokenKind::If)
    } else if word == "else"@ {
        Some(TokenKind::Else)
    } else if word == "input"@ {
        Some(TokenKind::Input)
    } else if word == "output"@ {
        Some(TokenKind::Output)
    } else if word == "is"@ {
        Some(TokenKind::Is)
    } else if word == "was"@ {
        Some(TokenKind::Was)
    } else if word == "low"@ {
        Some(TokenKind::Low)
    } else if word == "high"@ {
        Some(TokenKind::High)
    } else if word == "and"@ {
        Some(TokenKind::And)
    } else if word == "or"@ {
        Some(TokenKind::Or)
    } else if word == "xor"@ {
        Some(TokenKind::Xor)
    } else if word == "not"@ {
        Some(TokenKind::Not)
    } else if word == "redge"@ {
        Some(TokenKind::Redge)
    } else if word == "fedge"@ {
        Some(TokenKind::Fedge)
    } else {
        None
    }
}

/// The word holds digits only, and at least one.
pub open spec fn is_number(word: Seq<char>) -> bool {
    word.len() > 0 && forall|i: int| 0 <= i < word.len() ==> is_ascii_digit(#[trigger] word[i])
}

/// The kind of a word: a keyword, else a number, else an identifier; a word
/// that is none of these has no kind.
pub open spec fn word_kind(word: Seq<char>) -> Option<TokenKind> {
    if keyword_kind(word) is Some {
        keyword_kind(word)
    } else if is_number(word) {
        Some(TokenKind::Number)
    } else if is_entity_id(word) {
        Some(TokenKind::Identifier)
    } else {
        None
    }
}

/// Where the word that starts at `pos` ends.
pub open spec fn word_end(text: Seq<char>, pos: int) -> int
    decreases text.len() - pos,
{
    if 0 <= pos < text.len() && is_identifier_char(text[pos]) {
        word_end(text, pos + 1)
    } else {
        pos
    }
}

/// The tokens of `first` followed by those of `rest`, unless `rest` failed.
pub open spec fn tokens_then(first: Seq<Token>, rest: Result<Seq<Token>, LexError>) -> Result<
    Seq<Token>,
    LexError,
> {
    match rest {
        Ok(tokens) => Ok(first + tokens),
        Err(e) => Err(e),
    }
}

/// The tokens of the text from `pos` on, or the first thing in it that is
/// no token.
pub open spec fn lex_from(text: Seq<char>, pos: int) -> Result<Seq<Token>, LexError>
    decreases text.len() - pos,
{
    if pos < 0 || pos >= text.len() {
        Ok(Seq::empty())
    } else if is_space(text[pos]) {
        lex_from(text, pos + 1)
    } else if let Some(kind) = mark_kind(text[pos]) {
        tokens_then(
            seq![Token { kind, start: pos as usize, end: (pos + 1) as usize }],
            lex_from(text, pos + 1),
        )
    } else if is_identifier_char(text[pos]) {
        let end = word_end(text, pos);
        if end <= pos || end > text.len() {
            Err(LexError::UnexpectedCharacter { at: pos as usize })
        } else {
            match word_kind(text.subrange(pos, end)) {
                Some(kind) => tokens_then(
                    seq![Token { kind, start: pos as usize, end: end as usize }],
                    lex_from(text, end),
                ),
                None => Err(LexError::InvalidWord { start: pos as usize, end: end as usize }),
            }
        }
    } else {
        Err(LexError::UnexpectedCharacter { at: pos as usize })
    }
}

/// The token stands in the text, and its kind is that of what stands there.
pub open spec fn token_wf(text: Seq<char>, token: Token) -> bool {
    &&& token.start < token.end <= text.len()
    &&& token.kind == TokenKind::Identifier ==> is_entity_id(
        text.subrange(token.start as int, token.end as int),
    ) && keyword_kind(text.subrange(token.start as int, token.end as int)) is None
    &&& token.kind == TokenKind::Number ==> is_number(
        text.subrange(token.start as int, token.end as int),
    )
}

/// Every token stands in the text.
pub open spec fn tokens_wf(text: Seq<char>, tokens: Seq<Token>) -> bool {
    forall|i: int| 0 <= i < tokens.len() ==> token_wf(text, #[trigger] tokens[i])
}

/// The characters of a text.
pub fn to_chars(s: &str) -> (v: Vec<char>)
    ensures
        v@ == s@,
{
    let mut v: Vec<char> = Vec::new();
    for c in it: s.chars()
        invariant
            v@ == it.seq().take(it.index()),
            it.seq() == s@,
    {
        v.push(c);
        assert(v@ =~= it.seq().take(it.index() + 1));
    }
    assert(v@ =~= s@);
    v
}

/// Tells whether a character separates tokens.
fn check_space(c: char) -> (r: bool)
    ensures
        r == is_space(c),
{
    c == ' ' || c == '\t' || c == '\n' || c == '\r'
}

/// Tells whether a character can stand in a word.
fn check_word_char(c: char) -> (r: bool)
    ensures
        r == is_identifier_char(c),
{
    (c >= 'a' && c <= 'z') || (c >= 'A' && c <= 'Z') || (c >= '0' && c <= '9') || c == '_'
}

/// The kind of a mark.
fn check_mark(c: char) -> (r: Option<TokenKind>)
    ensures
        r == mark_kind(c),
{
    if c == ';' {
        Some(TokenKind::Semicolon)
    } else if c == '{' {
        Some(TokenKind::LeftBrace)
    } else if c == '}' {
        Some(TokenKind::RightBrace)
    } else if c == '(' {
        Some(TokenKind::LeftParen)
    } else if c == ')' {
        Some(TokenKind::RightParen)
    } else {
        None
    }
}

/// Tells whether the characters from `start` to `end` are those of `word`.
pub fn matches_word(chars: &Vec<char>, start: usize, end: usize, word: &str) -> (r: bool)
    requires
        start <= end <= chars@.len(),
    ensures
        r == (chars@.subrange(start as int, end as int) == word@),
{
    let n = word.unicode_len();
    if end - start != n {
        return false;
    }
    let ghost part = chars@.subrange(start as int, end as int);
    let mut i: usize = 0;
    while i < n
        invariant
            i <= n,
            n == word@.len(),
            n == end - start,
            start <= end <= chars@.len(),
            part == chars@.subrange(start as int, end as int),
            forall|j: int| 0 <= j < i ==> part[j] == word@[j],
        decreases n - i,
    {
        if chars[start + i] != word.get_char(i) {
            assert(part[i as int] != word@[i as int]);
            return false;
        }
        i += 1;
    }
    assert(part =~= word@);
    true
}

/// The kind of the keyword that stands from `start` to `end`, if one does.
fn check_keyword(chars: &Vec<char>, start: usize, end: usize) -> (r: Option<TokenKind>)
    requires
        start <= end <= chars@.len(),
    ensures
        r == keyword_kind(chars@.subrange(start as int, end as int)),
{
    if matches_word(chars, start, end, "toggle") {
        Some(TokenKind::Toggle)
    } else if matches_word(chars, start, end, "set") {
        Some(TokenKind::SetTo)
    } else if matches_word(chars, start, end, "on") {
        Some(TokenKind::On)
    } else if matches_word(chars, start, end, "if") {
        Some(TokenKind::If)
    } else if matches_word(chars, start, end, "else") {
        Some(TokenKind::Else)
    } else if matches_word(chars, start, end, "input") {
        Some(TokenKind::Input)
    } else if matches_word(chars, start, end, "output") {
        Some(TokenKind::Output)
    } else if matches_word(chars, start, end, "is") {
        Some(TokenKind::Is)
    } else if matches_word(chars, start, end, "was") {
        Some(TokenKind::Was)
    } else if matches_word(chars, start, end, "low") {
        Some(TokenKind::Low)
    } else if matches_word(chars, start, end, "high") {
        Some(TokenKind::High)
    } else if matches_word(chars, start, end, "and") {
        Some(TokenKind::And)
    } else if matches_word(chars, start, end, "or") {
        Some(TokenKind::Or)
    } else if matches_word(chars, start, end, "xor") {
        Some(TokenKind::Xor)
    } else if matches_word(chars, start, end, "not") {
        Some(TokenKind::Not)
    } else if matches_word(chars, start, end, "redge") {
        Some(TokenKind::Redge)
    } else if matches_word(chars, start, end, "fedge") {
        Some(TokenKind::Fedge)
    } else {
        None
    }
}

/// The kind of the word that stands from `start` to `end`, if it has one.
fn check_word(chars: &Vec<char>, start: usize, end: usize) -> (r: Option<TokenKind>)
    requires
        start < end <= chars@.len(),
        forall|i: int| start <= i < end ==> is_identifier_char(#[trigger] chars@[i]),
    ensures
        r == word_kind(chars@.subrange(start as int, end as int)),
{
    let ghost word = chars@.subrange(start as int, end as int);
    let keyword = check_keyword(chars, start, end);
    if keyword.is_some() {
        return keyword;
    }
    let mut digits = true;
    let mut i: usize = start;
    while i < end
        invariant
            start <= i <= end <= chars@.len(),
            word == chars@.subrange(start as int, end as int),
            digits == (forall|j: int| 0 <= j < i - start ==> is_ascii_digit(#[trigger] word[j])),
        decreases end - i,
    {
        let c = chars[i];
        if !(c >= '0' && c <= '9') {
            assert(!is_ascii_digit(word[i - start]));
            digits = false;
        }
        i += 1;
    }
    if digits {
        return Some(TokenKind::Number);
    }
    let first = chars[start];
    assert(word[0] == first);
    assert forall|j: int| 0 <= j < word.len() implies is_identifier_char(#[trigger] word[j]) by {
        assert(word[j] == chars@[start + j]);
    }
    if (first >= 'a' && first <= 'z') || (first >= 'A' && first <= 'Z') {
        Some(TokenKind::Identifier)
    } else {
        None
    }
}

/// Cuts a text into its tokens; the first thing in the text that is no token
/// is the error.
pub fn tokenize(chars: &Vec<char>) -> (r: Result<Vec<Token>, LexError>)
    ensures
        match lex_from(chars@, 0) {
            Ok(tokens) => r matches Ok(v) && v@ == tokens && tokens_wf(chars@, tokens),
            Err(e) => r == Err::<Vec<Token>, LexError>(e),
        },
{
    let n = chars.len();
    let ghost text = chars@;
    let mut tokens: Vec<Token> = Vec::new();
    let mut pos: usize = 0;
    proof {
        if let Ok(rest) = lex_from(text, 0) {
            assert(tokens@ + rest =~= rest);
        }
    }
    while pos < n
        invariant
            pos <= n,
            n == text.len(),
            text == chars@,
            tokens_wf(text, tokens@),
            lex_from(text, 0) == tokens_then(tokens@, lex_from(text, pos as int)),
        decreases n - pos,
    {
        let ghost before = tokens@;
        let c = chars[pos];
        if check_space(c) {
            pos += 1;
        } else if let Some(kind) = check_mark(c) {
            let token = Token { kind, start: pos, end: pos + 1 };
            tokens.push(token);
            proof {
                if let Ok(rest) = lex_from(text, pos + 1) {
                    assert(before + (seq![token] + rest) =~= tokens@ + rest);
                }
            }
            pos += 1;
        } else if check_word_char(c) {
            let start = pos;
            let mut end = pos + 1;
            while end < n && check_word_char(chars[end])
                invariant
                    start < end <= n,
                    n == text.len(),
                    text == chars@,
                    word_end(text, start as int) == word_end(text, end as int),
                    forall|i: int| start <= i < end ==> is_identifier_char(#[trigger] text[i]),
                decreases n - end,
            {
                end += 1;
            }
            match check_word(chars, start, end) {
                Some(kind) => {
                    let token = Token { kind, start, end };
                    tokens.push(token);
                    proof {
                        if let Ok(rest) = lex_from(text, end as int) {
                            assert(before + (seq![token] + rest) =~= tokens@ + rest);
                        }
                    }
                    pos = end;
                },
                None => {
                    return Err(LexError::InvalidWord { start, end });
                },
            }
        } else {
            return Err(LexError::UnexpectedCharacter { at: pos });
        }
    }
    assert(tokens@ + Seq::<Token>::empty() =~= tokens@);
    Ok(tokens)
}

} // verus!
