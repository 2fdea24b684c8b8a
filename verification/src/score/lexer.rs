//! The tokenizer of the score notation.

use vstd::prelude::*;
use vstd::string::*;
use crate::lexer::characters;
use crate::pos::{CharPos, Pos};
use crate::score::token::{tokens_view, Operator, Token, TokenPos, TokenPosView, TokenView};

verus! {

#[derive(Debug, PartialEq)]
pub enum LexerError {
    UnexpectedCharacter(char, Pos),
}

/// The class of a character.
#[derive(Clone, Copy, Debug, PartialEq, Eq, Structural)]
pub enum CharType {
    Space,
    /// A digit or a dot: a part of a literal.
    Digit,
    /// A letter or an underscore: a part of a name.
    Alphabetic,
    Operator(Operator),
}

/// The class of the character; `None` for a character that the notation
/// does not have.
pub open spec fn class_of(c: char) -> Option<CharType> {
    if ('0' <= c && c <= '9') || c == '.' {
        Some(CharType::Digit)
    } else if ('A' <= c && c <= 'Z') || ('a' <= c && c <= 'z') || c == '_' {
        Some(CharType::Alphabetic)
    } else if c == ' ' || c == '\t' || c == '\n' || c == '\x0C' || c == '\r' {
        Some(CharType::Space)
    } else if c == '+' {
        Some(CharType::Operator(Operator::Plus))
    } else if c == '-' {
        Some(CharType::Operator(Operator::Minus))
    } else if c == '*' {
        Some(CharType::Operator(Operator::Asterisk))
    } else if c == '/' {
        Some(CharType::Operator(Operator::Slash))
    } else if c == '(' {
        Some(CharType::Operator(Operator::ParenOpen))
    } else if c == ')' {
        Some(CharType::Operator(Operator::ParenClose))
    } else if c == ';' {
        Some(CharType::Operator(Operator::Semicolon))
    } else if c == '|' {
        Some(CharType::Operator(Operator::Bar))
    } else if c == ':' {
        Some(CharType::Operator(Operator::Colon))
    } else if c == '=' {
        Some(CharType::Operator(Operator::Equal))
    } else if c == ',' {
        Some(CharType::Operator(Operator::Comma))
    } else if c == '{' {
        Some(CharType::Operator(Operator::BraceOpen))
    } else if c == '}' {
        Some(CharType::Operator(Operator::BraceClose))
    } else if c == '[' {
        Some(CharType::Operator(Operator::BracketOpen))
    } else if c == ']' {
        Some(CharType::Operator(Operator::BracketClose))
    } else {
        None
    }
}

/// The character of class `next` continues a token that began with a
/// character of class `pending`: a name takes letters and digits, a literal
/// takes digits.
pub open spec fn continues(pending: CharType, next: CharType) -> bool {
    (pending is Alphabetic && (next is Alphabetic || next is Digit)) || (pending is Digit && next is Digit)
}

/// The number of line breaks among the first `i` characters.
pub open spec fn line_of(source: Seq<char>, i: int) -> nat
    decreases i,
{
    if i <= 0 || i > source.len() {
        0
    } else if source[i - 1] == '\n' {
        line_of(source, i - 1) + 1
    } else {
        line_of(source, i - 1)
    }
}

/// The number of characters between the last line break before place `i`
/// and place `i`.
pub open spec fn column_of(source: Seq<char>, i: int) -> nat
    decreases i,
{
    if i <= 0 || i > source.len() || source[i - 1] == '\n' {
        0
    } else {
        column_of(source, i - 1) + 1
    }
}

/// The place of the character at `i`: its line and column, counted from
/// zero, as a range of one character.
pub open spec fn place_of(source: Seq<char>, i: int) -> Pos {
    Pos {
        start: CharPos { line: line_of(source, i) as usize, column: column_of(source, i) as usize },
        end: CharPos { line: line_of(source, i) as usize, column: (column_of(source, i) + 1) as usize },
    }
}

/// The token that began at place `start` with a character of class `class`
/// and ends before place `end`.
pub open spec fn token_of(source: Seq<char>, class: CharType, start: int, end: int) -> Option<TokenPosView> {
    match class {
        CharType::Space => None,
        CharType::Digit => Some(
            TokenPosView { token: TokenView::Literal(source.subrange(start, end)), pos: place_of(source, start) },
        ),
        CharType::Alphabetic => Some(
            TokenPosView { token: TokenView::Identifier(source.subrange(start, end)), pos: place_of(source, start) },
        ),
        CharType::Operator(operator) => Some(
            TokenPosView { token: TokenView::Operator(operator), pos: place_of(source, start) },
        ),
    }
}

/// The tokens of the source from place `i` on, behind the tokens found
/// before, where a token of class `pending` began at place `start`.
///
/// A character either continues the pending token or ends it and begins
/// the next one; white space begins none. A token that the end of the
/// source cuts off is dropped.
pub open spec fn scan(
    source: Seq<char>,
    tokens: Seq<TokenPosView>,
    pending: CharType,
    start: int,
    i: int,
) -> Result<Seq<TokenPosView>, (char, Pos)>
    decreases source.len() - i,
{
    if i < 0 || i >= source.len() {
        Ok(tokens)
    } else {
        match class_of(source[i]) {
            None => Err((source[i], place_of(source, i))),
            Some(next) => if continues(pending, next) {
                scan(source, tokens, pending, start, i + 1)
            } else {
                scan(
                    source,
                    match token_of(source, pending, start, i) {
                        Some(token) => tokens.push(token),
                        None => tokens,
                    },
                    next,
                    i,
                    i + 1,
                )
            },
        }
    }
}

fn class(c: char) -> (result: Option<CharType>)
    ensures
        result == class_of(c),
{
    if ('0' <= c && c <= '9') || c == '.' {
        Some(CharType::Digit)
    } else if ('A' <= c && c <= 'Z') || ('a' <= c && c <= 'z') || c == '_' {
        Some(CharType::Alphabetic)
    } else if c == ' ' || c == '\t' || c == '\n' || c == '\x0C' || c == '\r' {
        Some(CharType::Space)
    } else if c == '+' {
        Some(CharType::Operator(Operator::Plus))
    } else if c == '-' {
        Some(CharType::Operator(Operator::Minus))
    } else if c == '*' {
        Some(CharType::Operator(Operator::Asterisk))
    } else if c == '/' {
        Some(CharType::Operator(Operator::Slash))
    } else if c == '(' {
        Some(CharType::Operator(Operator::ParenOpen))
    } else if c == ')' {
        Some(CharType::Operator(Operator::ParenClose))
    } else if c == ';' {
        Some(CharType::Operator(Operator::Semicolon))
    } else if c == '|' {
        Some(CharType::Operator(Operator::Bar))
    } else if c == ':' {
        Some(CharType::Operator(Operator::Colon))
    } else if c == '=' {
        Some(CharType::Operator(Operator::Equal))
    } else if c == ',' {
        Some(CharType::Operator(Operator::Comma))
    } else if c == '{' {
        Some(CharType::Operator(Operator::BraceOpen))
    } else if c == '}' {
        Some(CharType::Operator(Operator::BraceClose))
    } else if c == '[' {
        Some(CharType::Operator(Operator::BracketOpen))
    } else if c == ']' {
        Some(CharType::Operator(Operator::BracketClose))
    } else {
        None
    }
}

/// Cuts the source into tokens.
pub fn lexer<'s>(source: &'s str) -> (result: Result<Vec<TokenPos<'s>>, LexerError>)
    ensures
        match scan(source@, seq![], CharType::Space, 0, 0) {
            Ok(tokens) => result is Ok && tokens_view(result->Ok_0@) == tokens,
            Err((c, pos)) => result == Err::<Vec<TokenPos<'s>>, LexerError>(LexerError::UnexpectedCharacter(c, pos)),
        },
{
    let chars = characters(source);
    let len = chars.len();
    let mut tokens: Vec<TokenPos<'s>> = Vec::new();
    let mut pending = CharType::Space;
    let mut start: usize = 0;
    let mut start_pos = Pos::new(CharPos::new(0, 0), CharPos::new(0, 0));
    let mut line: usize = 0;
    let mut column: usize = 0;
    let mut i: usize = 0;
    assert(tokens_view(tokens@) =~= seq![]);
    while i < len
        invariant
            chars@ == source@,
            len == chars.len(),
            i <= len,
            start <= i,
            line == line_of(source@, i as int),
            column == column_of(source@, i as int),
            line <= i,
            column <= i,
            !(pending is Space) ==> start < i && start_pos == place_of(source@, start as int),
            scan(source@, seq![], CharType::Space, 0, 0) == scan(
                source@,
                tokens_view(tokens@),
                pending,
                start as int,
                i as int,
            ),
        decreases len - i,
    {
        let c = chars[i];
        let here = Pos::new(CharPos::new(line, column), CharPos::new(line, column + 1));
        let next = match class(c) {
            Some(next) => next,
            None => {
                return Err(LexerError::UnexpectedCharacter(c, here));
            },
        };
        let goes_on = match (pending, next) {
            (CharType::Alphabetic, CharType::Alphabetic) => true,
            (CharType::Alphabetic, CharType::Digit) => true,
            (CharType::Digit, CharType::Digit) => true,
            _ => false,
        };
        if !goes_on {
            let ghost before = tokens_view(tokens@);
            let ghost waiting = tokens@;
            match pending {
                CharType::Space => {},
                CharType::Digit => {
                    let token = TokenPos { token: Token::Literal(source.substring_char(start, i)), pos: start_pos };
                    tokens.push(token);
                    assert(tokens_view(waiting.push(token)) =~= before.push(token@));
                },
                CharType::Alphabetic => {
                    let token = TokenPos {
                        token: Token::Identifier(source.substring_char(start, i)),
                        pos: start_pos,
                    };
                    tokens.push(token);
                    assert(tokens_view(waiting.push(token)) =~= before.push(token@));
                },
                CharType::Operator(operator) => {
                    let token = TokenPos { token: Token::Operator(operator), pos: start_pos };
                    tokens.push(token);
                    assert(tokens_view(waiting.push(token)) =~= before.push(token@));
                },
            }
            pending = next;
            start = i;
            start_pos = here;
        }
        if c == '\n' {
            line += 1;
            column = 0;
        } else {
            column += 1;
        }
        i += 1;
    }
    Ok(tokens)
}

} // verus!
