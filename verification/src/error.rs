//! The errors of the tokenizer, the parser and the evaluator.

use vstd::prelude::*;
use crate::ast::{BinaryOperator, UnaryOperator};
use crate::pos::{CharPos, Pos};
use crate::value::{Value, ValueView};

verus! {

/// What was applied when a type did not fit.
#[derive(Clone, Copy, Debug, PartialEq, Eq, Structural, Hash)]
pub enum Operator {
    Unary(UnaryOperator),
    Binary(BinaryOperator),
    /// Access to a member of a value.
    Member,
    /// A call: the value is an argument that the callee does not take.
    Call,
}

#[derive(Debug, PartialEq)]
pub enum Error {
    UnexpectedCharacter(char, CharPos),
    /// The character found after the exponent mark of a number, then the mark.
    UnexpectedCharacterAfterE(char, char, CharPos),
    UnexpectedEndOfLineAfterE(char, CharPos),
    TokenAtEndOfLine(String),
    /// A block comment that was still open at the end of the input; the
    /// position is where it started.
    UnterminatedComment(CharPos),
    /// The opening bracket and its place, then the token found where its
    /// partner was due.
    UnclosedBraceUntil(String, Pos, String, Pos),
    UnclosedBraceUntilEndOfFile(String, Pos),
    UnexpectedToken(String, Pos),
    UnexpectedEndOfFile,
    /// A number literal that does not denote a number.
    FloatParseError(String, Pos),
    /// An empty expression stood where a value was needed.
    EmptyExpression(Pos),
    /// The operator does not take the operand, or the two operands. The
    /// second operand is absent where the operator has one operand, or where
    /// it was not evaluated.
    TypeMismatch(Operator, Value, Option<Value>, Pos),
    /// The number of parameters of the callee, then the number of arguments.
    ArityMismatch(usize, usize, Pos),
    NotAFunction(Pos),
    UndefinedVariable(String, Pos),
}

/// What an [`Error`] holds, with sequences in place of strings.
pub enum ErrorView {
    UnexpectedCharacter(char, CharPos),
    UnexpectedCharacterAfterE(char, char, CharPos),
    UnexpectedEndOfLineAfterE(char, CharPos),
    TokenAtEndOfLine(Seq<char>),
    UnterminatedComment(CharPos),
    UnclosedBraceUntil(Seq<char>, Pos, Seq<char>, Pos),
    UnclosedBraceUntilEndOfFile(Seq<char>, Pos),
    UnexpectedToken(Seq<char>, Pos),
    UnexpectedEndOfFile,
    FloatParseError(Seq<char>, Pos),
    EmptyExpression(Pos),
    TypeMismatch(Operator, ValueView, Option<ValueView>, Pos),
    ArityMismatch(usize, usize, Pos),
    NotAFunction(Pos),
    UndefinedVariable(Seq<char>, Pos),
}

impl Error {
    pub open spec fn view(&self) -> ErrorView {
        match self {
            Error::UnexpectedCharacter(c, at) => ErrorView::UnexpectedCharacter(*c, *at),
            Error::UnexpectedCharacterAfterE(c, mark, at) => ErrorView::UnexpectedCharacterAfterE(*c, *mark, *at),
            Error::UnexpectedEndOfLineAfterE(mark, at) => ErrorView::UnexpectedEndOfLineAfterE(*mark, *at),
            Error::TokenAtEndOfLine(lexeme) => ErrorView::TokenAtEndOfLine(lexeme@),
            Error::UnterminatedComment(at) => ErrorView::UnterminatedComment(*at),
            Error::UnclosedBraceUntil(open, open_pos, found, found_pos) => ErrorView::UnclosedBraceUntil(
                open@,
                *open_pos,
                found@,
                *found_pos,
            ),
            Error::UnclosedBraceUntilEndOfFile(open, open_pos) => ErrorView::UnclosedBraceUntilEndOfFile(
                open@,
                *open_pos,
            ),
            Error::UnexpectedToken(lexeme, pos) => ErrorView::UnexpectedToken(lexeme@, *pos),
            Error::UnexpectedEndOfFile => ErrorView::UnexpectedEndOfFile,
            Error::FloatParseError(lexeme, pos) => ErrorView::FloatParseError(lexeme@, *pos),
            Error::EmptyExpression(pos) => ErrorView::EmptyExpression(*pos),
            Error::TypeMismatch(operator, first, second, pos) => ErrorView::TypeMismatch(
                *operator,
                first@,
                match second {
                    Some(value) => Some(value@),
                    None => None,
                },
                *pos,
            ),
            Error::ArityMismatch(expected, found, pos) => ErrorView::ArityMismatch(*expected, *found, *pos),
            Error::NotAFunction(pos) => ErrorView::NotAFunction(*pos),
            Error::UndefinedVariable(name, pos) => ErrorView::UndefinedVariable(name@, *pos),
        }
    }
}

} // verus!
