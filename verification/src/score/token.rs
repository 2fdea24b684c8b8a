//! The tokens of the score notation.

use vstd::prelude::*;
use crate::pos::Pos;

verus! {

#[derive(Debug, PartialEq)]
pub enum Token<'s> {
    Identifier(&'s str),
    Literal(&'s str),
    Operator(Operator),
}

/// A token with the place of its first character.
#[derive(Debug, PartialEq)]
pub struct TokenPos<'s> {
    pub token: Token<'s>,
    pub pos: Pos,
}

#[derive(Clone, Copy, Debug, PartialEq, Eq, Structural, Hash)]
pub enum Operator {
    Plus,
    Minus,
    Asterisk,
    Slash,
    ParenOpen,
    ParenClose,
    Semicolon,
    Bar,
    Colon,
    Equal,
    Comma,
    BraceOpen,
    BraceClose,
    BracketOpen,
    BracketClose,
}

/// What a [`Token`] holds, with sequences in place of the strings.
pub enum TokenView {
    Identifier(Seq<char>),
    Literal(Seq<char>),
    Operator(Operator),
}

/// What a [`TokenPos`] holds.
pub struct TokenPosView {
    pub token: TokenView,
    pub pos: Pos,
}

impl<'s> Token<'s> {
    pub open spec fn view(&self) -> TokenView {
        match self {
            Token::Identifier(name) => TokenView::Identifier(name@),
            Token::Literal(text) => TokenView::Literal(text@),
            Token::Operator(operator) => TokenView::Operator(*operator),
        }
    }
}

impl<'s> TokenPos<'s> {
    pub open spec fn view(&self) -> TokenPosView {
        TokenPosView { token: self.token@, pos: self.pos }
    }
}

/// The tokens, each by what it holds.
pub open spec fn tokens_view<'s>(tokens: Seq<TokenPos<'s>>) -> Seq<TokenPosView> {
    Seq::new(tokens.len(), |i: int| tokens[i]@)
}

} // verus!
