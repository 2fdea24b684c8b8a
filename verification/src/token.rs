//! The tokens that the tokenizer hands to the parser.

use vstd::prelude::*;
use crate::pos::Pos;

verus! {

/// A token: its kind, its text as it stands in the source, and its place.
#[derive(Debug, PartialEq)]
pub struct Token {
    pub name: TokenName,
    pub lexeme: String,
    pub pos: Pos,
}

#[derive(Clone, Copy, Debug, PartialEq, Eq, Structural, Hash)]
pub enum TokenName {
    Identifier { dollar: bool },
    /// A number; `scientific` tells whether it has an exponent part.
    Number { scientific: bool },
    String,
    Plus,
    Minus,
    Asterisk,
    Slash,
    Circumflex,
    Equal,
    DoubleEqual,
    Exclamation,
    ExclamationEqual,
    Less,
    DoubleLess,
    Greater,
    DoubleGreater,
    Ampersand,
    DoubleAmpersand,
    Bar,
    DoubleBar,
    Colon,
    Semicolon,
    Comma,
    Dot,
    OpeningParen,
    ClosingParen,
    OpeningBracket,
    ClosingBracket,
    OpeningBrace,
    ClosingBrace,
}

/// What a [`Token`] holds, with a sequence in place of the string.
pub struct TokenView {
    pub name: TokenName,
    pub lexeme: Seq<char>,
    pub pos: Pos,
}

impl Token {
    pub open spec fn view(&self) -> TokenView {
        TokenView { name: self.name, lexeme: self.lexeme@, pos: self.pos }
    }
}

/// The tokens, each by what it holds.
pub open spec fn tokens_view(tokens: Seq<Token>) -> Seq<TokenView> {
    Seq::new(tokens.len(), |i: int| tokens[i]@)
}

} // verus!
