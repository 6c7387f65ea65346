//! The grammar of the rule language, and the parser that reads a program
//! by it.
//!
//! ```text
//! program     := statement*
//! statement   := action | conditional | event
//! action      := ( "toggle" output | "set" output level ) ";"
//! conditional := "if" condition block [ "else" ( conditional | block ) ]
//! event       := "on" edge input ( action | block )
//! block       := "{" statement* "}"
//! condition   := operand [ ( "and" | "or" | "xor" ) condition ]
//! operand     := "(" condition ")" | "not" operand
//!              | "input" number tense level | "output" number tense level
//!              | identifier tense level
//! output      := "output" number | identifier
//! input       := "input" number | identifier
//! edge        := "redge" | "fedge"
//! tense       := "is" | "was"
//! level       := "low" | "high"
//! ```
//!
//! Operators have no precedence: a condition is its first operand, combined
//! with all that follows the operator. An `else` followed by `if` holds that
//! conditional as its only statement. An event with a single action holds
//! that action as its only statement.

use crate::shal::ast::{
    block_view, condition_view, entry_pins, has_key, is_ascii_digit, statement_view, Action,
    Condition, ConditionView, EntityID, Entries, IODeclarations, Input, InvalidEntityIDError,
    InvalidPinIDError, Output, PinID, PinRef, Program, SourceLoc, Statement, StatementView,
    PIN_COUNT,
};
use crate::shal::common::{Edge, IsWas, Value};
use crate::shal::lexer::{
    is_number, lex_from, to_chars, token_wf, tokenize, tokens_wf, LexError, Token, TokenKind,
};
use vstd::prelude::*;
use vstd::string::{StrSliceExecFns, StringExecFns};

verus! {

broadcast use {
    vstd::std_specs::vec::group_vec_axioms,
    vstd::seq::group_seq_axioms,
    PinID::lemma_wf,
    PinID::lemma_view_injective,
    PinID::lemma_of,
};

/// A text with its tokens.
pub struct Source {
    pub text: Seq<char>,
    pub tokens: Seq<Token>,
}

/// Why tokens are no program.
#[derive(Copy, Clone, Debug, PartialEq, Eq, Structural)]
pub enum Failure {
    /// The token with this index is not what the grammar asks for there; the
    /// number of tokens stands for the end of the text.
    Syntax(usize),
    /// A pin has this number, which is none of the controller's.
    InvalidPin(u8),
}

/// What was read, and the index of the token after it; or why nothing was.
pub type Parsed<T> = Result<(T, int), Failure>;

/// The kind of the token with an index, if there is such a token.
pub open spec fn kind_at(source: Source, pos: int) -> Option<TokenKind> {
    if 0 <= pos < source.tokens.len() {
        Some(source.tokens[pos].kind)
    } else {
        None
    }
}

/// The characters of the token with an index.
pub open spec fn word_at(source: Source, pos: int) -> Seq<char> {
    source.text.subrange(source.tokens[pos].start as int, source.tokens[pos].end as int)
}

/// The number that a digit stands for.
pub open spec fn digit_value(c: char) -> nat {
    (c as int - '0' as int) as nat
}

/// The number that digits stand for.
pub open spec fn number_value(digits: Seq<char>) -> nat
    decreases digits.len(),
{
    if digits.len() == 0 {
        0
    } else {
        number_value(digits.drop_last()) * 10 + digit_value(digits.last())
    }
}

/// What was read, unless nothing was read after `pos`.
pub open spec fn advancing<T>(parsed: Parsed<T>, source: Source, pos: int) -> Parsed<T> {
    match parsed {
        Ok((value, next)) => if pos < next <= source.tokens.len() {
            Ok((value, next))
        } else {
            Err(Failure::Syntax(pos as usize))
        },
        Err(e) => Err(e),
    }
}

/// Reads the token of a kind.
pub open spec fn expect(source: Source, pos: int, kind: TokenKind) -> Parsed<()> {
    if kind_at(source, pos) == Some(kind) {
        Ok(((), pos + 1))
    } else {
        Err(Failure::Syntax(pos as usize))
    }
}

/// Reads the number of a pin. A number from 32 to 255 is an invalid pin; a
/// larger one is a syntax error.
pub open spec fn parse_pin(source: Source, pos: int) -> Parsed<PinID> {
    if kind_at(source, pos) == Some(TokenKind::Number) {
        let value = number_value(word_at(source, pos));
        if value < PIN_COUNT {
            Ok((PinID::of(value as u8), pos + 1))
        } else if value <= 255 {
            Err(Failure::InvalidPin(value as u8))
        } else {
            Err(Failure::Syntax(pos as usize))
        }
    } else {
        Err(Failure::Syntax(pos as usize))
    }
}

/// Reads `low` or `high`.
pub open spec fn parse_level(source: Source, pos: int) -> Parsed<Value> {
    match kind_at(source, pos) {
        Some(TokenKind::Low) => Ok((Value::Low, pos + 1)),
        Some(TokenKind::High) => Ok((Value::High, pos + 1)),
        _ => Err(Failure::Syntax(pos as usize)),
    }
}

/// Reads `is` or `was`.
pub open spec fn parse_tense(source: Source, pos: int) -> Parsed<IsWas> {
    match kind_at(source, pos) {
        Some(TokenKind::Is) => Ok((IsWas::Is, pos + 1)),
        Some(TokenKind::Was) => Ok((IsWas::Was, pos + 1)),
        _ => Err(Failure::Syntax(pos as usize)),
    }
}

/// Reads `redge` or `fedge`.
pub open spec fn parse_edge(source: Source, pos: int) -> Parsed<Edge> {
    match kind_at(source, pos) {
        Some(TokenKind::Redge) => Ok((Edge::Rising, pos + 1)),
        Some(TokenKind::Fedge) => Ok((Edge::Falling, pos + 1)),
        _ => Err(Failure::Syntax(pos as usize)),
    }
}

/// Reads a tense and a level.
pub open spec fn parse_test(source: Source, pos: int) -> Parsed<(IsWas, Value)> {
    match parse_tense(source, pos) {
        Err(e) => Err(e),
        Ok((tense, p)) => match parse_level(source, p) {
            Err(e) => Err(e),
            Ok((level, q)) => Ok(((tense, level), q)),
        },
    }
}

/// Reads a reference to a pin: the keyword `keyword` and a number, or an
/// identifier.
pub open spec fn parse_reference(source: Source, pos: int, keyword: TokenKind) -> Parsed<PinRef> {
    if kind_at(source, pos) == Some(keyword) {
        match parse_pin(source, pos + 1) {
            Err(e) => Err(e),
            Ok((pin, p)) => Ok((PinRef::Number(pin), p)),
        }
    } else if kind_at(source, pos) == Some(TokenKind::Identifier) {
        Ok((PinRef::Entity(word_at(source, pos)), pos + 1))
    } else {
        Err(Failure::Syntax(pos as usize))
    }
}

/// Reads an operand of a condition.
pub open spec fn parse_operand(source: Source, pos: int) -> Parsed<ConditionView>
    decreases source.tokens.len() - pos, 0int,
{
    if pos < 0 || pos >= source.tokens.len() {
        Err(Failure::Syntax(pos as usize))
    } else {
        match source.tokens[pos].kind {
            TokenKind::LeftParen => match parse_condition(source, pos + 1) {
                Err(e) => Err(e),
                Ok((condition, p)) => match expect(source, p, TokenKind::RightParen) {
                    Err(e) => Err(e),
                    Ok((_, q)) => Ok((condition, q)),
                },
            },
            TokenKind::Not => match parse_operand(source, pos + 1) {
                Err(e) => Err(e),
                Ok((operand, p)) => Ok((ConditionView::Not(Box::new(operand)), p)),
            },
            TokenKind::Input => match parse_pin(source, pos + 1) {
                Err(e) => Err(e),
                Ok((pin, p)) => match parse_test(source, p) {
                    Err(e) => Err(e),
                    Ok(((tense, level), q)) => Ok(
                        (ConditionView::Input(PinRef::Number(pin), tense, level), q),
                    ),
                },
            },
            TokenKind::Output => match parse_pin(source, pos + 1) {
                Err(e) => Err(e),
                Ok((pin, p)) => match parse_test(source, p) {
                    Err(e) => Err(e),
                    Ok(((tense, level), q)) => Ok(
                        (ConditionView::Output(PinRef::Number(pin), tense, level), q),
                    ),
                },
            },
            TokenKind::Identifier => match parse_test(source, pos + 1) {
                Err(e) => Err(e),
                Ok(((tense, level), q)) => Ok(
                    (ConditionView::Entity(word_at(source, pos), tense, level), q),
                ),
            },
            _ => Err(Failure::Syntax(pos as usize)),
        }
    }
}

/// Reads a condition.
pub open spec fn parse_condition(source: Source, pos: int) -> Parsed<ConditionView>
    decreases source.tokens.len() - pos, 1int,
{
    match advancing(parse_operand(source, pos), source, pos) {
        Err(e) => Err(e),
        Ok((left, p)) => match kind_at(source, p) {
            Some(TokenKind::And) => match parse_condition(source, p + 1) {
                Err(e) => Err(e),
                Ok((right, q)) => Ok((ConditionView::And(Box::new(left), Box::new(right)), q)),
            },
            Some(TokenKind::Or) => match parse_condition(source, p + 1) {
                Err(e) => Err(e),
                Ok((right, q)) => Ok((ConditionView::Or(Box::new(left), Box::new(right)), q)),
            },
            Some(TokenKind::Xor) => match parse_condition(source, p + 1) {
                Err(e) => Err(e),
                Ok((right, q)) => Ok((ConditionView::Xor(Box::new(left), Box::new(right)), q)),
            },
            _ => Ok((left, p)),
        },
    }
}

/// Reads an action with its semicolon.
pub open spec fn parse_action(source: Source, pos: int) -> Parsed<StatementView> {
    match kind_at(source, pos) {
        Some(TokenKind::Toggle) => match parse_reference(source, pos + 1, TokenKind::Output) {
            Err(e) => Err(e),
            Ok((output, p)) => match expect(source, p, TokenKind::Semicolon) {
                Err(e) => Err(e),
                Ok((_, q)) => Ok((StatementView::Toggle(output), q)),
            },
        },
        Some(TokenKind::SetTo) => match parse_reference(source, pos + 1, TokenKind::Output) {
            Err(e) => Err(e),
            Ok((output, p)) => match parse_level(source, p) {
                Err(e) => Err(e),
                Ok((level, q)) => match expect(source, q, TokenKind::Semicolon) {
                    Err(e) => Err(e),
                    Ok((_, r)) => Ok((StatementView::SetOutput(output, level), r)),
                },
            },
        },
        _ => Err(Failure::Syntax(pos as usize)),
    }
}

/// Tells whether a statement can start with a token of this kind.
pub open spec fn starts_statement(kind: Option<TokenKind>) -> bool {
    kind == Some(TokenKind::Toggle) || kind == Some(TokenKind::SetTo) || kind == Some(
        TokenKind::If,
    ) || kind == Some(TokenKind::On)
}

/// Reads a conditional.
pub open spec fn parse_conditional(source: Source, pos: int) -> Parsed<StatementView>
    decreases source.tokens.len() - pos, 1int,
{
    if kind_at(source, pos) != Some(TokenKind::If) {
        Err(Failure::Syntax(pos as usize))
    } else {
        match advancing(parse_condition(source, pos + 1), source, pos) {
            Err(e) => Err(e),
            Ok((condition, p)) => match advancing(parse_block(source, p), source, p) {
                Err(e) => Err(e),
                Ok((first, q)) => if kind_at(source, q) == Some(TokenKind::Else) {
                    if kind_at(source, q + 1) == Some(TokenKind::If) {
                        match parse_conditional(source, q + 1) {
                            Err(e) => Err(e),
                            Ok((nested, r)) => Ok(
                                (StatementView::IfElse(condition, first, seq![nested]), r),
                            ),
                        }
                    } else {
                        match parse_block(source, q + 1) {
                            Err(e) => Err(e),
                            Ok((second, r)) => Ok(
                                (StatementView::IfElse(condition, first, second), r),
                            ),
                        }
                    }
                } else {
                    Ok((StatementView::IfElse(condition, first, Seq::empty()), q))
                },
            },
        }
    }
}

/// Reads an event block.
pub open spec fn parse_event(source: Source, pos: int) -> Parsed<StatementView>
    decreases source.tokens.len() - pos, 1int,
{
    if kind_at(source, pos) != Some(TokenKind::On) {
        Err(Failure::Syntax(pos as usize))
    } else {
        match parse_edge(source, pos + 1) {
            Err(e) => Err(e),
            Ok((edge, p)) => match advancing(
                parse_reference(source, p, TokenKind::Input),
                source,
                pos,
            ) {
                Err(e) => Err(e),
                Ok((input, q)) => if kind_at(source, q) == Some(TokenKind::LeftBrace) {
                    match parse_block(source, q) {
                        Err(e) => Err(e),
                        Ok((statements, r)) => Ok((StatementView::Event(edge, input, statements), r)),
                    }
                } else {
                    match parse_action(source, q) {
                        Err(e) => Err(e),
                        Ok((action, r)) => Ok(
                            (StatementView::Event(edge, input, seq![action]), r),
                        ),
                    }
                },
            },
        }
    }
}

/// Reads a statement.
pub open spec fn parse_statement(source: Source, pos: int) -> Parsed<StatementView>
    decreases source.tokens.len() - pos, 2int,
{
    match kind_at(source, pos) {
        Some(TokenKind::If) => parse_conditional(source, pos),
        Some(TokenKind::On) => parse_event(source, pos),
        _ => parse_action(source, pos),
    }
}

/// Reads statements as long as one starts.
pub open spec fn parse_statements(source: Source, pos: int) -> Parsed<Seq<StatementView>>
    decreases source.tokens.len() - pos, 3int,
{
    if starts_statement(kind_at(source, pos)) {
        match advancing(parse_statement(source, pos), source, pos) {
            Err(e) => Err(e),
            Ok((statement, p)) => match parse_statements(source, p) {
                Err(e) => Err(e),
                Ok((rest, q)) => Ok((seq![statement] + rest, q)),
            },
        }
    } else {
        Ok((Seq::empty(), pos))
    }
}

/// Reads statements between braces.
pub open spec fn parse_block(source: Source, pos: int) -> Parsed<Seq<StatementView>>
    decreases source.tokens.len() - pos, 4int,
{
    if kind_at(source, pos) != Some(TokenKind::LeftBrace) {
        Err(Failure::Syntax(pos as usize))
    } else {
        match parse_statements(source, pos + 1) {
            Err(e) => Err(e),
            Ok((statements, p)) => match expect(source, p, TokenKind::RightBrace) {
                Err(e) => Err(e),
                Ok((_, q)) => Ok((statements, q)),
            },
        }
    }
}

/// Reads a program: statements up to the end of the tokens.
pub open spec fn parse_tokens(source: Source) -> Result<Seq<StatementView>, Failure> {
    match parse_statements(source, 0) {
        Err(e) => Err(e),
        Ok((statements, p)) => if p == source.tokens.len() {
            Ok(statements)
        } else {
            Err(Failure::Syntax(p as usize))
        },
    }
}

/// A text with its characters and tokens, ready to be read.
pub struct Reader<'a> {
    pub src: &'a str,
    pub chars: &'a Vec<char>,
    pub tokens: &'a Vec<Token>,
}

/// The statements followed by what was read after them.
pub open spec fn statements_then(first: Seq<StatementView>, rest: Parsed<Seq<StatementView>>)
    -> Parsed<Seq<StatementView>> {
    match rest {
        Ok((statements, next)) => Ok((first + statements, next)),
        Err(e) => Err(e),
    }
}

/// Appending a statement to a list appends its view to the list's view.
pub proof fn lemma_block_view_push(statements: Seq<Statement>, statement: Statement)
    ensures
        block_view(statements.push(statement)) == block_view(statements).push(
            statement_view(statement),
        ),
{
    assert(statements.push(statement).drop_last() =~= statements);
}

impl<'a> Reader<'a> {
    /// The text and tokens as specifications see them.
    pub open spec fn source(&self) -> Source {
        Source { text: self.chars@, tokens: self.tokens@ }
    }

    /// The characters are those of the text, and the tokens stand in it.
    pub open spec fn wf(&self) -> bool {
        self.chars@ == self.src@ && tokens_wf(self.chars@, self.tokens@) && self.tokens@.len()
            <= usize::MAX
    }

    /// The kind of the token with an index, if there is such a token.
    fn kind(&self, pos: usize) -> (r: Option<TokenKind>)
        ensures
            r == kind_at(self.source(), pos as int),
            self.tokens@.len() <= usize::MAX,
    {
        if pos < self.tokens.len() {
            Some(self.tokens[pos].kind)
        } else {
            None
        }
    }

    /// Reads the token of a kind.
    fn read_expected(&self, pos: usize, kind: TokenKind) -> (r: Result<usize, Failure>)
        requires
            self.wf(),
        ensures
            match expect(self.source(), pos as int, kind) {
                Ok((_, next)) => r == Ok::<usize, Failure>(next as usize) && pos < next
                    <= self.tokens@.len(),
                Err(e) => r == Err::<usize, Failure>(e),
            },
    {
        if pos < self.tokens.len() && self.tokens[pos].kind == kind {
            Ok(pos + 1)
        } else {
            Err(Failure::Syntax(pos))
        }
    }

    /// The identifier that stands at a token.
    fn read_identifier(&self, pos: usize) -> (r: Result<EntityID, Failure>)
        requires
            self.wf(),
            kind_at(self.source(), pos as int) == Some(TokenKind::Identifier),
        ensures
            r matches Ok(id) && id@ == word_at(self.source(), pos as int),
    {
        let token = self.tokens[pos];
        assert(token_wf(self.chars@, token));
        let word = self.src.substring_char(token.start, token.end);
        match EntityID::try_from(word) {
            Ok(id) => Ok(id),
            Err(_) => Err(Failure::Syntax(pos)),
        }
    }

    /// The number that stands at a token, or 256 where it is larger than
    /// 255.
    fn read_number(&self, pos: usize) -> (r: u16)
        requires
            self.wf(),
            kind_at(self.source(), pos as int) == Some(TokenKind::Number),
        ensures
            r == if number_value(word_at(self.source(), pos as int)) <= 255 {
                number_value(word_at(self.source(), pos as int))
            } else {
                256
            },
    {
        let token = self.tokens[pos];
        assert(token_wf(self.chars@, token));
        let ghost word = word_at(self.source(), pos as int);
        let mut value: u16 = 0;
        let mut i: usize = token.start;
        assert(word.take(0) =~= Seq::<char>::empty());
        while i < token.end
            invariant
                token.start <= i <= token.end <= self.chars@.len(),
                word == self.chars@.subrange(token.start as int, token.end as int),
                is_number(word),
                value <= 256,
                value == if number_value(word.take(i - token.start)) <= 255 {
                    number_value(word.take(i - token.start))
                } else {
                    256
                },
            decreases token.end - i,
        {
            let ghost part = word.take(i - token.start + 1);
            let c = self.chars[i];
            proof {
                assert(part.drop_last() =~= word.take(i - token.start));
                assert(part.last() == c);
                assert(word[i - token.start] == c);
                assert(is_ascii_digit(c));
            }
            if value <= 255 {
                let digit: u16 = (c as u32 - '0' as u32) as u16;
                value = value * 10 + digit;
                if value > 255 {
                    value = 256;
                }
            }
            i += 1;
        }
        assert(word.take(token.end - token.start) =~= word);
        value
    }

    /// Reads the number of a pin.
    fn read_pin(&self, pos: usize) -> (r: Result<(PinID, usize), Failure>)
        requires
            self.wf(),
        ensures
            match parse_pin(self.source(), pos as int) {
                Ok((pin, next)) => r == Ok::<(PinID, usize), Failure>((pin, next as usize))
                    && pos < next <= self.tokens@.len() && pin.wf(),
                Err(e) => r == Err::<(PinID, usize), Failure>(e),
            },
    {
        if self.kind(pos) != Some(TokenKind::Number) {
            return Err(Failure::Syntax(pos));
        }
        let value = self.read_number(pos);
        if value > 255 {
            return Err(Failure::Syntax(pos));
        }
        match PinID::try_from(value as u8) {
            Ok(pin) => Ok((pin, pos + 1)),
            Err(e) => Err(Failure::InvalidPin(e.id)),
        }
    }

    /// Reads `low` or `high`.
    fn read_level(&self, pos: usize) -> (r: Result<(Value, usize), Failure>)
        requires
            self.wf(),
        ensures
            match parse_level(self.source(), pos as int) {
                Ok((level, next)) => r == Ok::<(Value, usize), Failure>((level, next as usize))
                    && pos < next <= self.tokens@.len(),
                Err(e) => r == Err::<(Value, usize), Failure>(e),
            },
    {
        match self.kind(pos) {
            Some(TokenKind::Low) => Ok((Value::Low, pos + 1)),
            Some(TokenKind::High) => Ok((Value::High, pos + 1)),
            _ => Err(Failure::Syntax(pos)),
        }
    }

    /// Reads `is` or `was`.
    fn read_tense(&self, pos: usize) -> (r: Result<(IsWas, usize), Failure>)
        requires
            self.wf(),
        ensures
            match parse_tense(self.source(), pos as int) {
                Ok((tense, next)) => r == Ok::<(IsWas, usize), Failure>((tense, next as usize))
                    && pos < next <= self.tokens@.len(),
                Err(e) => r == Err::<(IsWas, usize), Failure>(e),
            },
    {
        match self.kind(pos) {
            Some(TokenKind::Is) => Ok((IsWas::Is, pos + 1)),
            Some(TokenKind::Was) => Ok((IsWas::Was, pos + 1)),
            _ => Err(Failure::Syntax(pos)),
        }
    }

    /// Reads `redge` or `fedge`.
    fn read_edge(&self, pos: usize) -> (r: Result<(Edge, usize), Failure>)
        requires
            self.wf(),
        ensures
            match parse_edge(self.source(), pos as int) {
                Ok((edge, next)) => r == Ok::<(Edge, usize), Failure>((edge, next as usize))
                    && pos < next <= self.tokens@.len(),
                Err(e) => r == Err::<(Edge, usize), Failure>(e),
            },
    {
        match self.kind(pos) {
            Some(TokenKind::Redge) => Ok((Edge::Rising, pos + 1)),
            Some(TokenKind::Fedge) => Ok((Edge::Falling, pos + 1)),
            _ => Err(Failure::Syntax(pos)),
        }
    }

    /// Reads a tense and a level.
    fn read_test(&self, pos: usize) -> (r: Result<(IsWas, Value, usize), Failure>)
        requires
            self.wf(),
        ensures
            match parse_test(self.source(), pos as int) {
                Ok(((tense, level), next)) => r == Ok::<(IsWas, Value, usize), Failure>(
                    (tense, level, next as usize),
                ) && pos < next <= self.tokens@.len(),
                Err(e) => r == Err::<(IsWas, Value, usize), Failure>(e),
            },
    {
        let (tense, p) = self.read_tense(pos)?;
        let (level, q) = self.read_level(p)?;
        Ok((tense, level, q))
    }

    /// Reads a reference to an output.
    fn read_output(&self, pos: usize) -> (r: Result<(Output, usize), Failure>)
        requires
            self.wf(),
        ensures
            match parse_reference(self.source(), pos as int, TokenKind::Output) {
                Ok((reference, next)) => r matches Ok((output, p)) && output@ == reference && p
                    == next && pos < next <= self.tokens@.len(),
                Err(e) => r matches Err(f) && f == e,
            },
    {
        match self.kind(pos) {
            Some(TokenKind::Output) => {
                let (pin, p) = self.read_pin(pos + 1)?;
                Ok((Output::Number(pin), p))
            },
            Some(TokenKind::Identifier) => {
                let id = self.read_identifier(pos)?;
                Ok((Output::Entity(id), pos + 1))
            },
            _ => Err(Failure::Syntax(pos)),
        }
    }

    /// Reads a reference to an input.
    fn read_input(&self, pos: usize) -> (r: Result<(Input, usize), Failure>)
        requires
            self.wf(),
        ensures
            match parse_reference(self.source(), pos as int, TokenKind::Input) {
                Ok((reference, next)) => r matches Ok((input, p)) && input@ == reference && p
                    == next && pos < next <= self.tokens@.len(),
                Err(e) => r matches Err(f) && f == e,
            },
    {
        match self.kind(pos) {
            Some(TokenKind::Input) => {
                let (pin, p) = self.read_pin(pos + 1)?;
                Ok((Input::Number(pin), p))
            },
            Some(TokenKind::Identifier) => {
                let id = self.read_identifier(pos)?;
                Ok((Input::Entity(id), pos + 1))
            },
            _ => Err(Failure::Syntax(pos)),
        }
    }

    /// Reads an operand of a condition.
    fn read_operand(&self, pos: usize) -> (r: Result<(Condition, usize), Failure>)
        requires
            self.wf(),
        ensures
            match parse_operand(self.source(), pos as int) {
                Ok((view, next)) => r matches Ok((condition, p)) && condition_view(condition)
                    == view && p == next && pos < next <= self.tokens@.len(),
                Err(e) => r matches Err(f) && f == e,
            },
        decreases self.tokens@.len() - pos, 0int,
    {
        match self.kind(pos) {
            Some(TokenKind::LeftParen) => {
                let (condition, p) = self.read_condition(pos + 1)?;
                let q = self.read_expected(p, TokenKind::RightParen)?;
                Ok((condition, q))
            },
            Some(TokenKind::Not) => {
                let (operand, p) = self.read_operand(pos + 1)?;
                Ok((Condition::Not(Box::new(operand)), p))
            },
            Some(TokenKind::Input) => {
                let (pin, p) = self.read_pin(pos + 1)?;
                let (tense, level, q) = self.read_test(p)?;
                Ok((Condition::Input(Input::Number(pin), tense, level), q))
            },
            Some(TokenKind::Output) => {
                let (pin, p) = self.read_pin(pos + 1)?;
                let (tense, level, q) = self.read_test(p)?;
                Ok((Condition::Output(Output::Number(pin), tense, level), q))
            },
            Some(TokenKind::Identifier) => {
                let (tense, level, q) = self.read_test(pos + 1)?;
                let id = self.read_identifier(pos)?;
                Ok((Condition::Entity(id, tense, level), q))
            },
            _ => Err(Failure::Syntax(pos)),
        }
    }

    /// Reads a condition.
    fn read_condition(&self, pos: usize) -> (r: Result<(Condition, usize), Failure>)
        requires
            self.wf(),
        ensures
            match parse_condition(self.source(), pos as int) {
                Ok((view, next)) => r matches Ok((condition, p)) && condition_view(condition)
                    == view && p == next && pos < next <= self.tokens@.len(),
                Err(e) => r matches Err(f) && f == e,
            },
        decreases self.tokens@.len() - pos, 1int,
    {
        let (left, p) = self.read_operand(pos)?;
        match self.kind(p) {
            Some(TokenKind::And) => {
                let (right, q) = self.read_condition(p + 1)?;
                Ok((Condition::And(Box::new(left), Box::new(right)), q))
            },
            Some(TokenKind::Or) => {
                let (right, q) = self.read_condition(p + 1)?;
                Ok((Condition::Or(Box::new(left), Box::new(right)), q))
            },
            Some(TokenKind::Xor) => {
                let (right, q) = self.read_condition(p + 1)?;
                Ok((Condition::Xor(Box::new(left), Box::new(right)), q))
            },
            _ => Ok((left, p)),
        }
    }

    /// Reads an action with its semicolon.
    fn read_action(&self, pos: usize) -> (r: Result<(Statement, usize), Failure>)
        requires
            self.wf(),
        ensures
            match parse_action(self.source(), pos as int) {
                Ok((view, next)) => r matches Ok((statement, p)) && statement_view(statement)
                    == view && p == next && pos < next <= self.tokens@.len(),
                Err(e) => r matches Err(f) && f == e,
            },
    {
        match self.kind(pos) {
            Some(TokenKind::Toggle) => {
                let (output, p) = self.read_output(pos + 1)?;
                let q = self.read_expected(p, TokenKind::Semicolon)?;
                Ok((Statement::Action(Action::Toggle(output)), q))
            },
            Some(TokenKind::SetTo) => {
                let (output, p) = self.read_output(pos + 1)?;
                let (level, q) = self.read_level(p)?;
                let r = self.read_expected(q, TokenKind::Semicolon)?;
                Ok((Statement::Action(Action::SetOutput(output, level)), r))
            },
            _ => Err(Failure::Syntax(pos)),
        }
    }

    /// Reads a conditional.
    fn read_conditional(&self, pos: usize) -> (r: Result<(Statement, usize), Failure>)
        requires
            self.wf(),
        ensures
            match parse_conditional(self.source(), pos as int) {
                Ok((view, next)) => r matches Ok((statement, p)) && statement_view(statement)
                    == view && p == next && pos < next <= self.tokens@.len(),
                Err(e) => r matches Err(f) && f == e,
            },
        decreases self.tokens@.len() - pos, 1int,
    {
        if self.kind(pos) != Some(TokenKind::If) {
            return Err(Failure::Syntax(pos));
        }
        let (condition, p) = self.read_condition(pos + 1)?;
        let (first, q) = self.read_block(p)?;
        if self.kind(q) == Some(TokenKind::Else) {
            if self.kind(q + 1) == Some(TokenKind::If) {
                let (nested, r) = self.read_conditional(q + 1)?;
                let ghost view = statement_view(nested);
                let mut second: Vec<Statement> = Vec::new();
                second.push(nested);
                proof {
                    lemma_block_view_push(Seq::<Statement>::empty(), nested);
                    assert(second@ =~= Seq::<Statement>::empty().push(nested));
                    assert(block_view(second@) =~= seq![view]);
                }
                Ok((Statement::IfElse(condition, first, second), r))
            } else {
                let (second, r) = self.read_block(q + 1)?;
                Ok((Statement::IfElse(condition, first, second), r))
            }
        } else {
            let second: Vec<Statement> = Vec::new();
            assert(block_view(second@) =~= Seq::<StatementView>::empty());
            Ok((Statement::IfElse(condition, first, second), q))
        }
    }

    /// Reads an event block.
    fn read_event(&self, pos: usize) -> (r: Result<(Statement, usize), Failure>)
        requires
            self.wf(),
        ensures
            match parse_event(self.source(), pos as int) {
                Ok((view, next)) => r matches Ok((statement, p)) && statement_view(statement)
                    == view && p == next && pos < next <= self.tokens@.len(),
                Err(e) => r matches Err(f) && f == e,
            },
        decreases self.tokens@.len() - pos, 1int,
    {
        if self.kind(pos) != Some(TokenKind::On) {
            return Err(Failure::Syntax(pos));
        }
        let (edge, p) = self.read_edge(pos + 1)?;
        let (input, q) = self.read_input(p)?;
        if self.kind(q) == Some(TokenKind::LeftBrace) {
            let (statements, r) = self.read_block(q)?;
            Ok((Statement::Event { edge, input, statements }, r))
        } else {
            let (action, r) = self.read_action(q)?;
            let ghost view = statement_view(action);
            let mut statements: Vec<Statement> = Vec::new();
            statements.push(action);
            proof {
                lemma_block_view_push(Seq::<Statement>::empty(), action);
                assert(statements@ =~= Seq::<Statement>::empty().push(action));
                assert(block_view(statements@) =~= seq![view]);
            }
            Ok((Statement::Event { edge, input, statements }, r))
        }
    }

    /// Reads a statement.
    fn read_statement(&self, pos: usize) -> (r: Result<(Statement, usize), Failure>)
        requires
            self.wf(),
        ensures
            match parse_statement(self.source(), pos as int) {
                Ok((view, next)) => r matches Ok((statement, p)) && statement_view(statement)
                    == view && p == next && pos < next <= self.tokens@.len(),
                Err(e) => r matches Err(f) && f == e,
            },
        decreases self.tokens@.len() - pos, 2int,
    {
        match self.kind(pos) {
            Some(TokenKind::If) => self.read_conditional(pos),
            Some(TokenKind::On) => self.read_event(pos),
            _ => self.read_action(pos),
        }
    }

    /// Tells whether a statement can start with the token at `pos`.
    fn statement_starts(&self, pos: usize) -> (r: bool)
        requires
            self.wf(),
        ensures
            r == starts_statement(kind_at(self.source(), pos as int)),
            r ==> pos < self.tokens@.len(),
    {
        match self.kind(pos) {
            Some(TokenKind::Toggle) | Some(TokenKind::SetTo) | Some(TokenKind::If) | Some(
                TokenKind::On,
            ) => true,
            _ => false,
        }
    }

    /// Reads statements as long as one starts.
    fn read_statements(&self, pos: usize) -> (r: Result<(Vec<Statement>, usize), Failure>)
        requires
            self.wf(),
            pos <= self.tokens@.len(),
        ensures
            match parse_statements(self.source(), pos as int) {
                Ok((view, next)) => r matches Ok((statements, p)) && block_view(statements@)
                    == view && p == next && pos <= next <= self.tokens@.len(),
                Err(e) => r matches Err(f) && f == e,
            },
        decreases self.tokens@.len() - pos, 3int,
    {
        let mut statements: Vec<Statement> = Vec::new();
        let mut at = pos;
        proof {
            assert(block_view(statements@) =~= Seq::<StatementView>::empty());
            if let Ok((rest, next)) = parse_statements(self.source(), pos as int) {
                assert(block_view(statements@) + rest =~= rest);
            }
        }
        while self.statement_starts(at)
            invariant
                self.wf(),
                pos <= at <= self.tokens@.len(),
                parse_statements(self.source(), pos as int) == statements_then(
                    block_view(statements@),
                    parse_statements(self.source(), at as int),
                ),
            decreases self.tokens@.len() - at,
        {
            let ghost before = statements@;
            let (statement, next) = self.read_statement(at)?;
            statements.push(statement);
            proof {
                lemma_block_view_push(before, statement);
                if let Ok((rest, end)) = parse_statements(self.source(), next as int) {
                    assert(block_view(before) + (seq![statement_view(statement)] + rest)
                        =~= block_view(statements@) + rest);
                }
            }
            at = next;
        }
        assert(block_view(statements@) + Seq::<StatementView>::empty() =~= block_view(
            statements@,
        ));
        Ok((statements, at))
    }

    /// Reads statements between braces.
    fn read_block(&self, pos: usize) -> (r: Result<(Vec<Statement>, usize), Failure>)
        requires
            self.wf(),
        ensures
            match parse_block(self.source(), pos as int) {
                Ok((view, next)) => r matches Ok((statements, p)) && block_view(statements@)
                    == view && p == next && pos < next <= self.tokens@.len(),
                Err(e) => r matches Err(f) && f == e,
            },
        decreases self.tokens@.len() - pos, 4int,
    {
        if self.kind(pos) != Some(TokenKind::LeftBrace) {
            return Err(Failure::Syntax(pos));
        }
        let (statements, p) = self.read_statements(pos + 1)?;
        let q = self.read_expected(p, TokenKind::RightBrace)?;
        Ok((statements, q))
    }

    /// Reads a program: statements up to the end of the tokens.
    pub fn read_program(&self) -> (r: Result<Vec<Statement>, Failure>)
        requires
            self.wf(),
        ensures
            match parse_tokens(self.source()) {
                Ok(view) => r matches Ok(statements) && block_view(statements@) == view,
                Err(e) => r matches Err(f) && f == e,
            },
    {
        let (statements, p) = self.read_statements(0)?;
        if p == self.tokens.len() {
            Ok(statements)
        } else {
            Err(Failure::Syntax(p))
        }
    }
}

/// Why a text is no program, or why its declarations cannot stand.
#[derive(Debug, PartialEq, Eq)]
pub enum ParseError {
    /// The text does not follow the grammar at this place.
    SyntaxError { location: SourceLoc },
    /// The identifier is declared both as an input and as an output.
    DuplicateEntityIDError { id: EntityID },
    /// Two inputs are declared with this pin.
    DoubleInputPinError { pin: PinID },
    /// Two outputs are declared with this pin.
    DoubleOutputPinError { pin: PinID },
    /// A pin in the text is none of the controller's.
    InvalidPinIDError(InvalidPinIDError),
    /// A word in the text is no keyword, no number and no identifier.
    InvalidEntityIDError(InvalidEntityIDError),
}

impl ParseError {
    /// The message of the error.
    pub open spec fn message(self) -> Seq<char> {
        match self {
            ParseError::SyntaxError { location } => "Failed to parse program at "@
                + crate::shal::compiler::location_text(Some(location)),
            ParseError::DuplicateEntityIDError { id } => "Duplicate entity id: "@ + id@
                + ", all entity ids must be unique"@,
            ParseError::DoubleInputPinError { pin } => "Double use of input pin "@
                + crate::text::decimal(pin@ as nat) + " for two different inputs"@,
            ParseError::DoubleOutputPinError { pin } => "Double use of output pin "@
                + crate::text::decimal(pin@ as nat) + " for two different outputs"@,
            ParseError::InvalidPinIDError(e) => e.message(),
            ParseError::InvalidEntityIDError(e) => e.message(),
        }
    }

    /// The message of the error.
    pub fn to_string(&self) -> (text: String)
        ensures
            text@ == self.message(),
    {
        match self {
            ParseError::SyntaxError { location } => {
                let mut text = String::from_str("Failed to parse program at ");
                text.append(crate::shal::compiler::loc_to_string(&Some(*location)).as_str());
                text
            },
            ParseError::DuplicateEntityIDError { id } => {
                let mut text = String::from_str("Duplicate entity id: ");
                text.append(id.as_str());
                text.append(", all entity ids must be unique");
                text
            },
            ParseError::DoubleInputPinError { pin } => {
                let mut text = String::from_str("Double use of input pin ");
                text.append(pin.to_string().as_str());
                text.append(" for two different inputs");
                text
            },
            ParseError::DoubleOutputPinError { pin } => {
                let mut text = String::from_str("Double use of output pin ");
                text.append(pin.to_string().as_str());
                text.append(" for two different outputs");
                text
            },
            ParseError::InvalidPinIDError(e) => e.to_string(),
            ParseError::InvalidEntityIDError(e) => e.to_string(),
        }
    }
}

/// A number as a `usize`, or the largest `usize` where it is larger.
pub open spec fn clamped(n: nat) -> usize {
    if n > usize::MAX {
        usize::MAX
    } else {
        n as usize
    }
}

/// The number of the line in which the character at `offset` stands,
/// counted from 1.
pub open spec fn line_of(text: Seq<char>, offset: int) -> nat
    decreases offset,
{
    if offset <= 0 {
        1
    } else if text[offset - 1] == '\n' {
        line_of(text, offset - 1) + 1
    } else {
        line_of(text, offset - 1)
    }
}

/// The number of the column in which the character at `offset` stands,
/// counted from 1.
pub open spec fn column_of(text: Seq<char>, offset: int) -> nat
    decreases offset,
{
    if offset <= 0 || text[offset - 1] == '\n' {
        1
    } else {
        column_of(text, offset - 1) + 1
    }
}

/// The line and column of the character at `offset`.
pub open spec fn location_of(text: Seq<char>, offset: int) -> SourceLoc {
    SourceLoc(clamped(line_of(text, offset)), clamped(column_of(text, offset)))
}

/// Where the token with an index starts; the end of the text for the index
/// after the last token.
pub open spec fn token_offset(source: Source, index: int) -> int {
    if 0 <= index < source.tokens.len() {
        source.tokens[index].start as int
    } else {
        source.text.len() as int
    }
}

/// The result is the statements that the text holds, or the error is why
/// it holds none. The text is cut into tokens first, so a character or word
/// that is no token is reported before any fault of grammar.
pub open spec fn is_parse_of(result: Result<Vec<Statement>, ParseError>, text: Seq<char>) -> bool {
    match lex_from(text, 0) {
        Err(LexError::UnexpectedCharacter { at }) => result matches Err(
            ParseError::SyntaxError { location },
        ) && location == location_of(text, at as int),
        Err(LexError::InvalidWord { start, end }) => result matches Err(
            ParseError::InvalidEntityIDError(e),
        ) && e.id@ == text.subrange(start as int, end as int),
        Ok(tokens) => match parse_tokens(Source { text, tokens }) {
            Ok(view) => result matches Ok(statements) && block_view(statements@) == view,
            Err(Failure::Syntax(index)) => result matches Err(
                ParseError::SyntaxError { location },
            ) && location == location_of(
                text,
                token_offset(Source { text, tokens }, index as int),
            ),
            Err(Failure::InvalidPin(id)) => result matches Err(
                ParseError::InvalidPinIDError(e),
            ) && e.id == id,
        },
    }
}

/// The text holds statements and nothing else.
pub open spec fn parses(text: Seq<char>) -> bool {
    lex_from(text, 0) matches Ok(tokens) && parse_tokens(Source { text, tokens }) is Ok
}

/// The line and column of the character at `offset`.
pub fn source_location(chars: &Vec<char>, offset: usize) -> (r: SourceLoc)
    requires
        offset <= chars@.len(),
    ensures
        r == location_of(chars@, offset as int),
{
    let mut line: usize = 1;
    let mut column: usize = 1;
    let mut i: usize = 0;
    while i < offset
        invariant
            i <= offset <= chars@.len(),
            line == clamped(line_of(chars@, i as int)),
            column == clamped(column_of(chars@, i as int)),
        decreases offset - i,
    {
        if chars[i] == '\n' {
            if line < usize::MAX {
                line += 1;
            }
            column = 1;
        } else if column < usize::MAX {
            column += 1;
        }
        i += 1;
    }
    SourceLoc(line, column)
}

/// Reads the statements of a program text.
pub fn parse_text(input: &str) -> (r: Result<Vec<Statement>, ParseError>)
    ensures
        is_parse_of(r, input@),
        r is Ok <==> parses(input@),
{
    let chars = to_chars(input);
    let length = chars.len();
    let tokens = match tokenize(&chars) {
        Ok(tokens) => tokens,
        Err(LexError::UnexpectedCharacter { at }) => {
            proof {
                lemma_lex_error_place(chars@, 0);
            }
            return Err(ParseError::SyntaxError { location: source_location(&chars, at) });
        },
        Err(LexError::InvalidWord { start, end }) => {
            proof {
                lemma_lex_error_place(chars@, 0);
            }
            let word = input.substring_char(start, end);
            return Err(ParseError::InvalidEntityIDError(InvalidEntityIDError { id: word.to_owned() }));
        },
    };
    let n = tokens.len();
    let reader = Reader { src: input, chars: &chars, tokens: &tokens };
    match reader.read_program() {
        Ok(statements) => Ok(statements),
        Err(Failure::Syntax(index)) => {
            let offset = if index < n {
                assert(token_wf(chars@, tokens@[index as int]));
                tokens[index].start
            } else {
                chars.len()
            };
            Err(ParseError::SyntaxError { location: source_location(&chars, offset) })
        },
        Err(Failure::InvalidPin(id)) => Err(
            ParseError::InvalidPinIDError(InvalidPinIDError { id }),
        ),
    }
}

/// What is no token stands in the text.
pub proof fn lemma_lex_error_place(text: Seq<char>, pos: int)
    requires
        0 <= pos,
        text.len() <= usize::MAX,
    ensures
        lex_from(text, pos) matches Err(LexError::UnexpectedCharacter { at }) ==> pos <= at
            < text.len(),
        lex_from(text, pos) matches Err(LexError::InvalidWord { start, end }) ==> pos <= start
            < end <= text.len(),
    decreases text.len() - pos,
{
    if pos < text.len() {
        if crate::shal::lexer::is_space(text[pos]) {
            lemma_lex_error_place(text, pos + 1);
        } else if crate::shal::lexer::mark_kind(text[pos]) is Some {
            lemma_lex_error_place(text, pos + 1);
        } else if crate::shal::ast::is_identifier_char(text[pos]) {
            let end = crate::shal::lexer::word_end(text, pos);
            if pos < end <= text.len() {
                lemma_lex_error_place(text, end);
            }
        }
    }
}

/// The pin at `index` stands earlier in the list too.
pub open spec fn repeats_at(pins: Seq<PinID>, index: int) -> bool {
    0 <= index < pins.len() && exists|i: int| 0 <= i < index && #[trigger] pins[i] == pins[index]
}

/// The pin at `index` is the first that stands earlier in the list too.
pub open spec fn first_repeat(pins: Seq<PinID>, index: int) -> bool {
    repeats_at(pins, index) && forall|k: int| 0 <= k < index ==> !#[trigger] repeats_at(pins, k)
}

/// No pin stands twice in the list.
pub open spec fn distinct_pins(pins: Seq<PinID>) -> bool {
    forall|k: int| !#[trigger] repeats_at(pins, k)
}

/// The output at `index` has the identifier of an input.
pub open spec fn shared_at(inputs: Entries, outputs: Entries, index: int) -> bool {
    0 <= index < outputs.len() && has_key(inputs, outputs[index].0)
}

/// The output at `index` is the first that has the identifier of an input.
pub open spec fn first_shared(inputs: Entries, outputs: Entries, index: int) -> bool {
    shared_at(inputs, outputs, index) && forall|k: int|
        0 <= k < index ==> !#[trigger] shared_at(inputs, outputs, k)
}

/// No identifier is declared both as an input and as an output.
pub open spec fn disjoint_ids(inputs: Entries, outputs: Entries) -> bool {
    forall|k: int| !#[trigger] shared_at(inputs, outputs, k)
}

/// The declarations can stand: no identifier names both an input and an
/// output, no two inputs have one pin, and no two outputs have one pin.
pub open spec fn declarations_valid(declarations: IODeclarations) -> bool {
    &&& disjoint_ids(declarations.inputs@, declarations.outputs@)
    &&& distinct_pins(entry_pins(declarations.inputs@))
    &&& distinct_pins(entry_pins(declarations.outputs@))
}

/// The error tells the first fault of the declarations: an identifier that
/// names both an input and an output; else a pin that two inputs have; else
/// a pin that two outputs have.
pub open spec fn is_declaration_fault(error: ParseError, declarations: IODeclarations) -> bool {
    let inputs = declarations.inputs@;
    let outputs = declarations.outputs@;
    match error {
        ParseError::DuplicateEntityIDError { id } => exists|j: int|
            #[trigger] first_shared(inputs, outputs, j) && id@ == outputs[j].0,
        ParseError::DoubleInputPinError { pin } => disjoint_ids(inputs, outputs) && exists|j: int|
            #[trigger] first_repeat(entry_pins(inputs), j) && pin == entry_pins(inputs)[j],
        ParseError::DoubleOutputPinError { pin } => disjoint_ids(inputs, outputs) && distinct_pins(
            entry_pins(inputs),
        ) && exists|j: int|
            #[trigger] first_repeat(entry_pins(outputs), j) && pin == entry_pins(outputs)[j],
        _ => false,
    }
}

/// Declarations in which two inputs have one pin, or two outputs have one
/// pin, or an identifier names both an input and an output, cannot stand.
pub proof fn lemma_duplicates_refused(declarations: IODeclarations)
    ensures
        (exists|i: int, j: int|
            0 <= i < j < declarations.inputs@.len() && (#[trigger] declarations.inputs@[i]).1.pin
                == (#[trigger] declarations.inputs@[j]).1.pin) ==> !declarations_valid(
            declarations,
        ),
        (exists|i: int, j: int|
            0 <= i < j < declarations.outputs@.len() && (#[trigger] declarations.outputs@[i]).1.pin
                == (#[trigger] declarations.outputs@[j]).1.pin) ==> !declarations_valid(
            declarations,
        ),
        (exists|i: int, j: int|
            0 <= i < declarations.inputs@.len() && 0 <= j < declarations.outputs@.len() && (
            #[trigger] declarations.inputs@[i]).0 == (#[trigger] declarations.outputs@[j]).0)
            ==> !declarations_valid(declarations),
{
    let inputs = declarations.inputs@;
    let outputs = declarations.outputs@;
    if exists|i: int, j: int|
        0 <= i < j < inputs.len() && (#[trigger] inputs[i]).1.pin == (#[trigger] inputs[j]).1.pin {
        let (i, j) = choose|i: int, j: int|
            0 <= i < j < inputs.len() && (#[trigger] inputs[i]).1.pin == (#[trigger] inputs[j]).1.pin;
        assert(entry_pins(inputs)[i] == entry_pins(inputs)[j]);
        assert(repeats_at(entry_pins(inputs), j));
    }
    if exists|i: int, j: int|
        0 <= i < j < outputs.len() && (#[trigger] outputs[i]).1.pin == (#[trigger] outputs[j]).1.pin {
        let (i, j) = choose|i: int, j: int|
            0 <= i < j < outputs.len() && (#[trigger] outputs[i]).1.pin == (
            #[trigger] outputs[j]).1.pin;
        assert(entry_pins(outputs)[i] == entry_pins(outputs)[j]);
        assert(repeats_at(entry_pins(outputs), j));
    }
    if exists|i: int, j: int|
        0 <= i < inputs.len() && 0 <= j < outputs.len() && (#[trigger] inputs[i]).0 == (
        #[trigger] outputs[j]).0 {
        let (i, j) = choose|i: int, j: int|
            0 <= i < inputs.len() && 0 <= j < outputs.len() && (#[trigger] inputs[i]).0 == (
            #[trigger] outputs[j]).0;
        assert(has_key(inputs, outputs[j].0));
        assert(shared_at(inputs, outputs, j));
    }
}

/// The first pin of a list that stands earlier in the list too, if one
/// does.
pub fn find_double(pins: &Vec<PinID>) -> (r: Option<PinID>)
    ensures
        r is None <==> distinct_pins(pins@),
        r matches Some(pin) ==> exists|j: int| #[trigger] first_repeat(pins@, j) && pin == pins@[j],
{
    let n = pins.len();
    let mut j: usize = 0;
    while j < n
        invariant
            j <= n,
            n == pins@.len(),
            forall|k: int| 0 <= k < j ==> !#[trigger] repeats_at(pins@, k),
        decreases n - j,
    {
        let mut i: usize = 0;
        while i < j
            invariant
                i <= j < n,
                n == pins@.len(),
                forall|k: int| 0 <= k < j ==> !#[trigger] repeats_at(pins@, k),
                forall|k: int| 0 <= k < i ==> #[trigger] pins@[k] != pins@[j as int],
            decreases j - i,
        {
            if pins[i] == pins[j] {
                assert(repeats_at(pins@, j as int));
                assert(first_repeat(pins@, j as int));
                return Some(pins[j]);
            }
            i += 1;
        }
        assert(!repeats_at(pins@, j as int));
        j += 1;
    }
    None
}

/// The pins of a list of declarations, in its order.
fn pins_of(entries: &Vec<(EntityID, crate::shal::ast::IODeclaration)>) -> (r: Vec<PinID>)
    ensures
        r@.len() == entries@.len(),
        forall|i: int| 0 <= i < r@.len() ==> #[trigger] r@[i] == entries@[i].1.pin,
{
    let n = entries.len();
    let mut pins: Vec<PinID> = Vec::new();
    let mut i: usize = 0;
    while i < n
        invariant
            i <= n,
            n == entries@.len(),
            pins@.len() == i,
            forall|k: int| 0 <= k < i ==> #[trigger] pins@[k] == entries@[k].1.pin,
        decreases n - i,
    {
        pins.push(entries[i].1.pin);
        i += 1;
    }
    pins
}

/// Checks that declarations can stand. The error tells the first fault.
pub fn validate_declarations(declarations: &IODeclarations) -> (r: Result<(), ParseError>)
    ensures
        r is Ok <==> declarations_valid(*declarations),
        r matches Err(e) ==> is_declaration_fault(e, *declarations),
{
    let inputs = declarations.inputs.entries();
    let outputs = declarations.outputs.entries();
    let n = outputs.len();
    let mut j: usize = 0;
    while j < n
        invariant
            j <= n,
            n == outputs@.len(),
            outputs@.len() == declarations.outputs@.len(),
            forall|i: int|
                0 <= i < outputs@.len() ==> (#[trigger] outputs@[i]).0@
                    == declarations.outputs@[i].0 && outputs@[i].1 == declarations.outputs@[i].1,
            forall|k: int|
                0 <= k < j ==> !#[trigger] shared_at(
                    declarations.inputs@,
                    declarations.outputs@,
                    k,
                ),
        decreases n - j,
    {
        if declarations.inputs.contains_key(&outputs[j].0) {
            assert(first_shared(declarations.inputs@, declarations.outputs@, j as int));
            return Err(ParseError::DuplicateEntityIDError { id: outputs[j].0.clone() });
        }
        assert(!shared_at(declarations.inputs@, declarations.outputs@, j as int));
        j += 1;
    }
    let input_pins = pins_of(inputs);
    assert(input_pins@ =~= entry_pins(declarations.inputs@));
    if let Some(pin) = find_double(&input_pins) {
        return Err(ParseError::DoubleInputPinError { pin });
    }
    let output_pins = pins_of(outputs);
    assert(output_pins@ =~= entry_pins(declarations.outputs@));
    if let Some(pin) = find_double(&output_pins) {
        return Err(ParseError::DoubleOutputPinError { pin });
    }
    Ok(())
}

/// Reads a program: the statements of a text, with declarations that were
/// read before. The text is judged first, then the declarations.
pub fn parse(declarations: IODeclarations, input: &str) -> (r: Result<Program, ParseError>)
    ensures
        r is Ok <==> parses(input@) && declarations_valid(declarations),
        r matches Ok(program) ==> program.declarations == declarations && is_parse_of(
            Ok(program.statements),
            input@,
        ),
        r matches Err(e) ==> if parses(input@) {
            is_declaration_fault(e, declarations)
        } else {
            is_parse_of(Err(e), input@)
        },
{
    let statements = parse_text(input)?;
    validate_declarations(&declarations)?;
    Ok(Program { declarations, statements })
}

} // verus!
