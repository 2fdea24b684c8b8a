//! Scores: a small notation for sequences and stacks of notes.

use vstd::prelude::*;
use crate::number::{serves_all, Operation, Real};
use crate::score::compiler::{compile, compiled, reads_all, CompileError, CompileErrorView, ScoreView};
use crate::score::lexer::{lexer, scan, CharType, LexerError};
use crate::score::parser::{definitions, parse, ParseError, ParseErrorView};

pub use crate::score::compiler::Score;

pub mod token;
pub mod lexer;
pub mod parser;
pub mod compiler;

verus! {

/// What can go wrong between the source of a score and the score.
#[derive(Debug, PartialEq)]
pub enum SourceError<'s> {
    Lexer(LexerError),
    Parser(ParseError<'s>),
    Compiler(CompileError<'s>),
}

/// What a [`SourceError`] holds, with sequences in place of the strings.
pub enum SourceErrorView {
    Lexer(LexerError),
    Parser(ParseErrorView),
    Compiler(CompileErrorView),
}

impl<'s> SourceError<'s> {
    pub open spec fn view(&self) -> SourceErrorView {
        match self {
            SourceError::Lexer(error) => SourceErrorView::Lexer(*error),
            SourceError::Parser(error) => SourceErrorView::Parser(error.view()),
            SourceError::Compiler(error) => SourceErrorView::Compiler(error.view()),
        }
    }
}

/// `out` is a possible score of the source: the source is cut into tokens,
/// the tokens are read as definitions, and the definitions are compiled; the
/// first of these steps that fails gives the error.
pub open spec fn sourced<F: Fn(Operation) -> Real, L: Fn(&str) -> Option<Real>>(
    source: Seq<char>,
    ops: &F,
    literal: &L,
    out: Result<ScoreView, SourceErrorView>,
) -> bool {
    match scan(source, seq![], CharType::Space, 0, 0) {
        Err((c, pos)) => out == Err::<ScoreView, SourceErrorView>(
            SourceErrorView::Lexer(LexerError::UnexpectedCharacter(c, pos)),
        ),
        Ok(tokens) => match definitions(tokens, 0, seq![]) {
            Err(error) => out == Err::<ScoreView, SourceErrorView>(SourceErrorView::Parser(error)),
            Ok(defined) => match out {
                Ok(score) => compiled(defined, ops, literal, Ok(score)),
                Err(SourceErrorView::Compiler(error)) => compiled(defined, ops, literal, Err(error)),
                Err(_) => false,
            },
        },
    }
}

impl<'s> Score<'s> {
    /// The score that the source denotes.
    pub fn from_source<F: Fn(Operation) -> Real, L: Fn(&str) -> Option<Real>>(
        source: &'s str,
        ops: &F,
        literal: &L,
    ) -> (result: Result<Score<'s>, SourceError<'s>>)
        requires
            serves_all(ops),
            reads_all(literal),
        ensures
            sourced(
                source@,
                ops,
                literal,
                match result {
                    Ok(score) => Ok(score.view()),
                    Err(error) => Err(error.view()),
                },
            ),
            result is Ok ==> result->Ok_0.well_formed(),
    {
        let tokens = match lexer(source) {
            Ok(tokens) => tokens,
            Err(error) => {
                return Err(SourceError::Lexer(error));
            },
        };
        let defined = match parse(&tokens) {
            Ok(defined) => defined,
            Err(error) => {
                return Err(SourceError::Parser(error));
            },
        };
        match compile(&defined, ops, literal) {
            Ok(score) => Ok(score),
            Err(error) => Err(SourceError::Compiler(error)),
        }
    }
}

} // verus!
