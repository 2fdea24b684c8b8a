//! The parser of the score notation.
//!
//! A score is a list of definitions `name = notes;`. Notes are separated by
//! commas; a note is a ratio of two literals, a name, a row in braces or a
//! column in brackets, and may be followed by functions, each introduced by
//! a bar: conditions, a colon, and assignments.

use vstd::prelude::*;
use crate::pos::Pos;
use crate::score::token::{tokens_view, Operator, Token, TokenPos, TokenPosView, TokenView};

verus! {

#[derive(Debug, PartialEq)]
pub enum Term<'s> {
    Identifier(&'s str, Pos),
    Literal(&'s str, Pos),
    Prefix(Prefix, Box<Term<'s>>),
    Group(Expression<'s>),
}

#[derive(Clone, Copy, Debug, PartialEq, Eq, Structural, Hash)]
pub enum Prefix {
    Add,
    Sub,
    Mul,
    Div,
}

/// How a term joins the terms behind it: a sum ends a product.
#[derive(Clone, Copy, Debug, PartialEq, Eq, Structural, Hash)]
pub enum Arithmetic {
    Add,
    Mul,
}

/// A sum of products of terms.
#[derive(Debug, PartialEq)]
pub struct Expression<'s> {
    pub terms: Vec<(Term<'s>, Arithmetic)>,
}

#[derive(Debug, PartialEq)]
pub enum ParseError<'s> {
    UnexpectedToken(&'s str, Pos),
    UnexpectedOperator(Operator, Pos),
    /// The place of the opening parenthesis, then the operator found where
    /// the closing one was due, and its place.
    ParenthesisDoesNotMatch(Pos, Operator, Pos),
    NoClosingParenthesis(Pos),
    UnexpectedEndOfFile,
}

#[derive(Debug, PartialEq)]
pub enum Notes<'s> {
    /// A note by the numerator and the denominator of its frequency ratio,
    /// each of which may be absent.
    Note(Option<(&'s str, Pos)>, Option<(&'s str, Pos)>),
    Identifier(&'s str, Pos),
    Row(Vec<Mapping<'s>>),
    Column(Vec<Mapping<'s>>),
}

/// A function on notes: where a note meets all conditions, the assignments
/// are made.
#[derive(Debug, PartialEq)]
pub struct Function<'s> {
    pub conditions: Vec<(&'s str, Expression<'s>)>,
    pub assignments: Vec<(&'s str, Expression<'s>)>,
}

/// Notes with the functions that are applied to them, in order.
#[derive(Debug, PartialEq)]
pub struct Mapping<'s> {
    pub notes: Notes<'s>,
    pub functions: Vec<Function<'s>>,
}

pub enum TermView {
    Identifier(Seq<char>, Pos),
    Literal(Seq<char>, Pos),
    Prefix(Prefix, Box<TermView>),
    Group(ExpressionView),
}

pub struct ExpressionView {
    pub terms: Seq<(TermView, Arithmetic)>,
}

pub enum ParseErrorView {
    UnexpectedToken(Seq<char>, Pos),
    UnexpectedOperator(Operator, Pos),
    ParenthesisDoesNotMatch(Pos, Operator, Pos),
    NoClosingParenthesis(Pos),
    UnexpectedEndOfFile,
}

pub enum NotesView {
    Note(Option<(Seq<char>, Pos)>, Option<(Seq<char>, Pos)>),
    Identifier(Seq<char>, Pos),
    Row(Seq<MappingView>),
    Column(Seq<MappingView>),
}

pub struct FunctionView {
    pub conditions: Seq<(Seq<char>, ExpressionView)>,
    pub assignments: Seq<(Seq<char>, ExpressionView)>,
}

pub struct MappingView {
    pub notes: NotesView,
    pub functions: Seq<FunctionView>,
}

impl<'s> Term<'s> {
    pub open spec fn view(&self) -> TermView
        decreases self,
    {
        match self {
            Term::Identifier(name, pos) => TermView::Identifier(name@, *pos),
            Term::Literal(text, pos) => TermView::Literal(text@, *pos),
            Term::Prefix(prefix, term) => TermView::Prefix(*prefix, Box::new(term.view())),
            Term::Group(expression) => TermView::Group(expression.view()),
        }
    }
}

impl<'s> Expression<'s> {
    pub open spec fn view(&self) -> ExpressionView
        decreases self,
    {
        ExpressionView {
            terms: Seq::new(
                self.terms.len() as nat,
                |i: int|
                    if 0 <= i < self.terms.len() {
                        (self.terms[i].0.view(), self.terms[i].1)
                    } else {
                        (TermView::Literal(Seq::empty(), arbitrary()), Arithmetic::Add)
                    },
            ),
        }
    }
}

impl<'s> ParseError<'s> {
    pub open spec fn view(&self) -> ParseErrorView {
        match self {
            ParseError::UnexpectedToken(text, pos) => ParseErrorView::UnexpectedToken(text@, *pos),
            ParseError::UnexpectedOperator(operator, pos) => ParseErrorView::UnexpectedOperator(*operator, *pos),
            ParseError::ParenthesisDoesNotMatch(open, operator, found) => ParseErrorView::ParenthesisDoesNotMatch(
                *open,
                *operator,
                *found,
            ),
            ParseError::NoClosingParenthesis(open) => ParseErrorView::NoClosingParenthesis(*open),
            ParseError::UnexpectedEndOfFile => ParseErrorView::UnexpectedEndOfFile,
        }
    }
}

/// A literal with its place, by what it holds.
pub open spec fn part_view(part: Option<(&str, Pos)>) -> Option<(Seq<char>, Pos)> {
    match part {
        Some((text, pos)) => Some((text@, pos)),
        None => None,
    }
}

impl<'s> Notes<'s> {
    pub open spec fn view(&self) -> NotesView
        decreases self,
    {
        match self {
            Notes::Note(numerator, denominator) => NotesView::Note(part_view(*numerator), part_view(*denominator)),
            Notes::Identifier(name, pos) => NotesView::Identifier(name@, *pos),
            Notes::Row(items) => NotesView::Row(
                Seq::new(
                    items.len() as nat,
                    |i: int|
                        if 0 <= i < items.len() {
                            items[i].view()
                        } else {
                            arbitrary()
                        },
                ),
            ),
            Notes::Column(items) => NotesView::Column(
                Seq::new(
                    items.len() as nat,
                    |i: int|
                        if 0 <= i < items.len() {
                            items[i].view()
                        } else {
                            arbitrary()
                        },
                ),
            ),
        }
    }
}

/// The pairs of a name and an expression, each by what it holds.
pub open spec fn rules_view<'s>(rules: Seq<(&'s str, Expression<'s>)>) -> Seq<(Seq<char>, ExpressionView)> {
    Seq::new(rules.len(), |i: int| (rules[i].0@, rules[i].1.view()))
}

impl<'s> Function<'s> {
    pub open spec fn view(&self) -> FunctionView {
        FunctionView { conditions: rules_view(self.conditions@), assignments: rules_view(self.assignments@) }
    }
}

/// The functions, each by what it holds.
pub open spec fn functions_view<'s>(functions: Seq<Function<'s>>) -> Seq<FunctionView> {
    Seq::new(functions.len(), |i: int| functions[i].view())
}

impl<'s> Mapping<'s> {
    pub open spec fn view(&self) -> MappingView
        decreases self,
    {
        MappingView { notes: self.notes.view(), functions: functions_view(self.functions@) }
    }
}

/// The mappings, each by what it holds.
pub open spec fn mappings_view<'s>(mappings: Seq<Mapping<'s>>) -> Seq<MappingView> {
    Seq::new(mappings.len(), |i: int| mappings[i].view())
}

/// What the operator between two terms asks of the term behind it.
#[derive(Clone, Copy, Debug, PartialEq, Eq, Structural)]
pub enum Pending {
    Nothing,
    /// The term is to be divided by.
    Division,
    /// The term is to be subtracted.
    Subtraction,
}

/// The term as the operator before it asks: negated behind a minus,
/// inverted behind a slash.
pub open spec fn wrapped(pending: Pending, term: TermView) -> TermView {
    match pending {
        Pending::Subtraction => TermView::Prefix(Prefix::Sub, Box::new(term)),
        Pending::Division => TermView::Prefix(Prefix::Div, Box::new(term)),
        Pending::Nothing => term,
    }
}

/// The prefix that the operator stands for in front of a term.
pub open spec fn prefix_of(operator: Operator) -> Option<Prefix> {
    match operator {
        Operator::Plus => Some(Prefix::Add),
        Operator::Minus => Some(Prefix::Sub),
        Operator::Asterisk => Some(Prefix::Mul),
        Operator::Slash => Some(Prefix::Div),
        _ => None,
    }
}

/// How the operator joins two terms, and what it asks of the second one.
pub open spec fn joint_of(operator: Operator) -> Option<(Pending, Arithmetic)> {
    match operator {
        Operator::Plus => Some((Pending::Nothing, Arithmetic::Add)),
        Operator::Minus => Some((Pending::Subtraction, Arithmetic::Add)),
        Operator::Asterisk => Some((Pending::Nothing, Arithmetic::Mul)),
        Operator::Slash => Some((Pending::Division, Arithmetic::Mul)),
        _ => None,
    }
}

/// The term read from place `at` on, and the place behind it: a name, a
/// literal, a prefix operator with its term, or an expression in
/// parentheses.
pub open spec fn term(tokens: Seq<TokenPosView>, at: int) -> Result<(TermView, int), ParseErrorView>
    decreases tokens.len() - at, 0nat,
{
    if at < 0 || at >= tokens.len() {
        Err(ParseErrorView::UnexpectedEndOfFile)
    } else {
        let pos = tokens[at].pos;
        match tokens[at].token {
            TokenView::Identifier(name) => Ok((TermView::Identifier(name, pos), at + 1)),
            TokenView::Literal(text) => Ok((TermView::Literal(text, pos), at + 1)),
            TokenView::Operator(operator) => if operator == Operator::ParenOpen {
                match expression_rest(tokens, at + 1, seq![], Pending::Nothing) {
                    Err(error) => Err(error),
                    Ok((delimiter, inner, next)) => match delimiter {
                        Some((found, end)) => if found == Operator::ParenClose {
                            Ok((TermView::Group(inner), next))
                        } else {
                            Err(ParseErrorView::ParenthesisDoesNotMatch(pos, found, end))
                        },
                        None => Err(ParseErrorView::NoClosingParenthesis(pos)),
                    },
                }
            } else {
                match prefix_of(operator) {
                    Some(prefix) => match term(tokens, at + 1) {
                        Err(error) => Err(error),
                        Ok((inner, next)) => Ok((TermView::Prefix(prefix, Box::new(inner)), next)),
                    },
                    None => Err(ParseErrorView::UnexpectedOperator(operator, pos)),
                }
            },
        }
    }
}

/// The expression whose terms `terms` were read, continued from place `at`
/// on; with it the operator that ends it, if one does, and the place behind
/// that operator.
pub open spec fn expression_rest(
    tokens: Seq<TokenPosView>,
    at: int,
    terms: Seq<(TermView, Arithmetic)>,
    pending: Pending,
) -> Result<(Option<(Operator, Pos)>, ExpressionView, int), ParseErrorView>
    decreases tokens.len() - at, 1nat,
{
    match term(tokens, at) {
        Err(error) => Err(error),
        Ok((read, next)) => {
            let last = wrapped(pending, read);
            if next <= at || next >= tokens.len() {
                Ok((None, ExpressionView { terms: terms.push((last, Arithmetic::Add)) }, tokens.len() as int))
            } else {
                match tokens[next].token {
                    TokenView::Operator(operator) => match joint_of(operator) {
                        Some((asked, arithmetic)) => expression_rest(
                            tokens,
                            next + 1,
                            terms.push((last, arithmetic)),
                            asked,
                        ),
                        None => Ok(
                            (
                                Some((operator, tokens[next].pos)),
                                ExpressionView { terms: terms.push((last, Arithmetic::Add)) },
                                next + 1,
                            ),
                        ),
                    },
                    TokenView::Identifier(text) => Err(ParseErrorView::UnexpectedToken(text, tokens[next].pos)),
                    TokenView::Literal(text) => Err(ParseErrorView::UnexpectedToken(text, tokens[next].pos)),
                }
            }
        },
    }
}

/// The outcome of reading a list of notes: the operator that ends the list,
/// if one does, the notes, and the place behind that operator.
pub struct Listed {
    pub delimiter: Option<(Operator, Pos)>,
    pub items: Seq<MappingView>,
    pub next: int,
}

/// The notes read from place `at` on, behind the notes `items` already
/// read.
pub open spec fn maps(tokens: Seq<TokenPosView>, at: int, items: Seq<MappingView>) -> Result<Listed, ParseErrorView>
    decreases tokens.len() - at, 2nat,
{
    if at < 0 || at >= tokens.len() {
        Ok(Listed { delimiter: None, items, next: tokens.len() as int })
    } else {
        let pos = tokens[at].pos;
        match tokens[at].token {
            TokenView::Operator(operator) => if operator == Operator::BraceOpen || operator
                == Operator::BracketOpen {
                match maps(tokens, at + 1, seq![]) {
                    Err(error) => Err(error),
                    Ok(inner) => match inner.delimiter {
                        Some((found, end)) => if at < inner.next <= tokens.len() && ((operator
                            == Operator::BraceOpen && found == Operator::BraceClose) || (operator
                            == Operator::BracketOpen && found == Operator::BracketClose)) {
                            after_notes(
                                tokens,
                                inner.next,
                                if operator == Operator::BraceOpen {
                                    NotesView::Row(inner.items)
                                } else {
                                    NotesView::Column(inner.items)
                                },
                                items,
                            )
                        } else {
                            Err(ParseErrorView::UnexpectedOperator(found, end))
                        },
                        None => Err(ParseErrorView::UnexpectedEndOfFile),
                    },
                }
            } else if operator == Operator::Slash {
                note(tokens, at + 1, None, true, None, items)
            } else {
                Err(ParseErrorView::UnexpectedOperator(operator, pos))
            },
            TokenView::Literal(text) => note(tokens, at + 1, Some((text, pos)), false, None, items),
            TokenView::Identifier(name) => after_notes(tokens, at + 1, NotesView::Identifier(name, pos), items),
        }
    }
}

/// A note of which the numerator, perhaps the slash and perhaps the
/// denominator were read, continued from place `at` on.
pub open spec fn note(
    tokens: Seq<TokenPosView>,
    at: int,
    first: Option<(Seq<char>, Pos)>,
    slash: bool,
    second: Option<(Seq<char>, Pos)>,
    items: Seq<MappingView>,
) -> Result<Listed, ParseErrorView>
    decreases tokens.len() - at, 8nat,
{
    if 0 <= at < tokens.len() && tokens[at].token is Literal {
        if slash && second is None {
            note(tokens, at + 1, first, slash, Some((tokens[at].token->Literal_0, tokens[at].pos)), items)
        } else {
            Err(ParseErrorView::UnexpectedToken(tokens[at].token->Literal_0, tokens[at].pos))
        }
    } else if 0 <= at < tokens.len() && tokens[at].token == TokenView::Operator(Operator::Slash) {
        if !slash {
            note(tokens, at + 1, first, true, second, items)
        } else {
            Err(ParseErrorView::UnexpectedOperator(Operator::Slash, tokens[at].pos))
        }
    } else {
        after_notes(tokens, at, NotesView::Note(first, second), items)
    }
}

/// The notes `notes` were read up to place `at`, where the token that ends
/// them stands: it must be an operator, unless the tokens have run out.
pub open spec fn after_notes(
    tokens: Seq<TokenPosView>,
    at: int,
    notes: NotesView,
    items: Seq<MappingView>,
) -> Result<Listed, ParseErrorView>
    decreases tokens.len() - at, 7nat,
{
    if at < 0 || at > tokens.len() {
        Err(ParseErrorView::UnexpectedEndOfFile)
    } else if at == tokens.len() {
        functions(tokens, at, None, notes, seq![], items)
    } else {
        match tokens[at].token {
            TokenView::Identifier(text) => Err(ParseErrorView::UnexpectedToken(text, tokens[at].pos)),
            TokenView::Literal(text) => Err(ParseErrorView::UnexpectedToken(text, tokens[at].pos)),
            TokenView::Operator(operator) => functions(
                tokens,
                at + 1,
                Some((operator, tokens[at].pos)),
                notes,
                seq![],
                items,
            ),
        }
    }
}

/// The functions `read` of the notes `notes` were read, and `end` is the
/// operator behind them: a bar begins another function, a comma the next
/// notes, and anything else ends the list.
pub open spec fn functions(
    tokens: Seq<TokenPosView>,
    at: int,
    end: Option<(Operator, Pos)>,
    notes: NotesView,
    read: Seq<FunctionView>,
    items: Seq<MappingView>,
) -> Result<Listed, ParseErrorView>
    decreases tokens.len() - at, 6nat,
{
    if end is Some && end->Some_0.0 == Operator::Bar {
        conditions(tokens, at, notes, read, seq![], items)
    } else {
        let listed = items.push(MappingView { notes, functions: read });
        if end is Some && end->Some_0.0 == Operator::Comma && 0 <= at <= tokens.len() {
            maps(tokens, at, listed)
        } else {
            Ok(Listed { delimiter: end, items: listed, next: at })
        }
    }
}

/// The name at place `at` and the equals sign behind it, which begin a
/// condition or an assignment.
pub open spec fn binding(tokens: Seq<TokenPosView>, at: int) -> Result<Seq<char>, ParseErrorView> {
    if at < 0 || at >= tokens.len() {
        Err(ParseErrorView::UnexpectedEndOfFile)
    } else {
        match tokens[at].token {
            TokenView::Literal(text) => Err(ParseErrorView::UnexpectedToken(text, tokens[at].pos)),
            TokenView::Operator(operator) => Err(ParseErrorView::UnexpectedOperator(operator, tokens[at].pos)),
            TokenView::Identifier(name) => if at + 1 >= tokens.len() {
                Err(ParseErrorView::UnexpectedEndOfFile)
            } else {
                match tokens[at + 1].token {
                    TokenView::Identifier(text) => Err(ParseErrorView::UnexpectedToken(text, tokens[at + 1].pos)),
                    TokenView::Literal(text) => Err(ParseErrorView::UnexpectedToken(text, tokens[at + 1].pos)),
                    TokenView::Operator(operator) => if operator == Operator::Equal {
                        Ok(name)
                    } else {
                        Err(ParseErrorView::UnexpectedOperator(operator, tokens[at + 1].pos))
                    },
                }
            },
        }
    }
}

/// The conditions of a function, of which `read` were read, continued from
/// place `at` on: conditions are separated by commas and end with a colon.
pub open spec fn conditions(
    tokens: Seq<TokenPosView>,
    at: int,
    notes: NotesView,
    earlier: Seq<FunctionView>,
    read: Seq<(Seq<char>, ExpressionView)>,
    items: Seq<MappingView>,
) -> Result<Listed, ParseErrorView>
    decreases tokens.len() - at, 5nat,
{
    if 0 <= at < tokens.len() && tokens[at].token == TokenView::Operator(Operator::Colon) {
        assignments(tokens, at + 1, notes, earlier, read, seq![], items)
    } else {
        match binding(tokens, at) {
            Err(error) => Err(error),
            Ok(name) => match expression_rest(tokens, at + 2, seq![], Pending::Nothing) {
                Err(error) => Err(error),
                Ok((delimiter, value, next)) => match delimiter {
                    None => Err(ParseErrorView::UnexpectedEndOfFile),
                    Some((operator, pos)) => if !(at < next <= tokens.len()) {
                        Err(ParseErrorView::UnexpectedEndOfFile)
                    } else if operator == Operator::Colon {
                        assignments(tokens, next, notes, earlier, read.push((name, value)), seq![], items)
                    } else if operator == Operator::Comma {
                        conditions(tokens, next, notes, earlier, read.push((name, value)), items)
                    } else {
                        Err(ParseErrorView::UnexpectedOperator(operator, pos))
                    },
                },
            },
        }
    }
}

/// The assignments of a function, of which `read` were read, continued
/// from place `at` on: assignments are separated by colons, and any other
/// operator ends the function.
pub open spec fn assignments(
    tokens: Seq<TokenPosView>,
    at: int,
    notes: NotesView,
    earlier: Seq<FunctionView>,
    wanted: Seq<(Seq<char>, ExpressionView)>,
    read: Seq<(Seq<char>, ExpressionView)>,
    items: Seq<MappingView>,
) -> Result<Listed, ParseErrorView>
    decreases tokens.len() - at, 5nat,
{
    match binding(tokens, at) {
        Err(error) => Err(error),
        Ok(name) => match expression_rest(tokens, at + 2, seq![], Pending::Nothing) {
            Err(error) => Err(error),
            Ok((delimiter, value, next)) => if !(at < next <= tokens.len()) {
                Err(ParseErrorView::UnexpectedEndOfFile)
            } else if delimiter is Some && delimiter->Some_0.0 == Operator::Colon {
                assignments(tokens, next, notes, earlier, wanted, read.push((name, value)), items)
            } else {
                functions(
                    tokens,
                    next,
                    delimiter,
                    notes,
                    earlier.push(FunctionView { conditions: wanted, assignments: read.push((name, value)) }),
                    items,
                )
            },
        },
    }
}

/// The definitions read from place `at` on, behind the definitions `read`:
/// each is a name, an equals sign and a list of notes, which make a row;
/// definitions are separated by semicolons.
pub open spec fn definitions(
    tokens: Seq<TokenPosView>,
    at: int,
    read: Seq<(Seq<char>, MappingView)>,
) -> Result<Seq<(Seq<char>, MappingView)>, ParseErrorView>
    decreases tokens.len() - at,
{
    match binding(tokens, at) {
        Err(error) => Err(error),
        Ok(name) => match maps(tokens, at + 2, seq![]) {
            Err(error) => Err(error),
            Ok(listed) => {
                let defined = read.push(
                    (name, MappingView { notes: NotesView::Row(listed.items), functions: seq![] }),
                );
                match listed.delimiter {
                    None => Ok(defined),
                    Some((operator, pos)) => if operator == Operator::Semicolon {
                        if at < listed.next <= tokens.len() {
                            definitions(tokens, listed.next, defined)
                        } else {
                            Ok(defined)
                        }
                    } else {
                        Err(ParseErrorView::UnexpectedOperator(operator, pos))
                    },
                }
            },
        },
    }
}

/// The terms with their joints, each by what it holds.
pub open spec fn terms_view<'s>(terms: Seq<(Term<'s>, Arithmetic)>) -> Seq<(TermView, Arithmetic)> {
    Seq::new(terms.len(), |i: int| (terms[i].0.view(), terms[i].1))
}

/// The definitions, each by what it holds.
pub open spec fn definitions_view<'s>(definitions: Seq<(&'s str, Mapping<'s>)>) -> Seq<(Seq<char>, MappingView)> {
    Seq::new(definitions.len(), |i: int| (definitions[i].0@, definitions[i].1.view()))
}

/// The outcome of reading a term agrees with what the grammar gives.
pub open spec fn term_agrees<'s>(
    result: Result<(Term<'s>, usize), ParseError<'s>>,
    expected: Result<(TermView, int), ParseErrorView>,
) -> bool {
    match expected {
        Ok((read, next)) => result is Ok && result->Ok_0.0.view() == read && result->Ok_0.1 == next,
        Err(error) => result is Err && result->Err_0.view() == error,
    }
}

/// The outcome of reading an expression agrees with what the grammar
/// gives.
pub open spec fn expression_agrees<'s>(
    result: Result<(Option<(Operator, Pos)>, Expression<'s>, usize), ParseError<'s>>,
    expected: Result<(Option<(Operator, Pos)>, ExpressionView, int), ParseErrorView>,
) -> bool {
    match expected {
        Ok((delimiter, read, next)) => result is Ok && result->Ok_0.0 == delimiter && result->Ok_0.1.view() == read
            && result->Ok_0.2 == next,
        Err(error) => result is Err && result->Err_0.view() == error,
    }
}

/// The outcome of reading a list of notes agrees with what the grammar
/// gives.
pub open spec fn listed_agrees<'s>(
    result: Result<(Option<(Operator, Pos)>, Vec<Mapping<'s>>, usize), ParseError<'s>>,
    expected: Result<Listed, ParseErrorView>,
) -> bool {
    match expected {
        Ok(listed) => result is Ok && result->Ok_0.0 == listed.delimiter && mappings_view(result->Ok_0.1@)
            == listed.items && result->Ok_0.2 == listed.next,
        Err(error) => result is Err && result->Err_0.view() == error,
    }
}

fn prefix_for(operator: Operator) -> (result: Option<Prefix>)
    ensures
        result == prefix_of(operator),
{
    match operator {
        Operator::Plus => Some(Prefix::Add),
        Operator::Minus => Some(Prefix::Sub),
        Operator::Asterisk => Some(Prefix::Mul),
        Operator::Slash => Some(Prefix::Div),
        _ => None,
    }
}

fn joint_for(operator: Operator) -> (result: Option<(Pending, Arithmetic)>)
    ensures
        result == joint_of(operator),
{
    match operator {
        Operator::Plus => Some((Pending::Nothing, Arithmetic::Add)),
        Operator::Minus => Some((Pending::Subtraction, Arithmetic::Add)),
        Operator::Asterisk => Some((Pending::Nothing, Arithmetic::Mul)),
        Operator::Slash => Some((Pending::Division, Arithmetic::Mul)),
        _ => None,
    }
}

fn wrap<'s>(pending: Pending, term: Term<'s>) -> (result: Term<'s>)
    ensures
        result.view() == wrapped(pending, term.view()),
{
    match pending {
        Pending::Subtraction => Term::Prefix(Prefix::Sub, Box::new(term)),
        Pending::Division => Term::Prefix(Prefix::Div, Box::new(term)),
        Pending::Nothing => term,
    }
}

/// Reads a term from place `at` on.
pub fn parse_term<'s>(tokens: &Vec<TokenPos<'s>>, at: usize) -> (result: Result<(Term<'s>, usize), ParseError<'s>>)
    requires
        at <= tokens.len(),
    ensures
        term_agrees(result, term(tokens_view(tokens@), at as int)),
        result is Ok ==> at < result->Ok_0.1 <= tokens.len(),
    decreases tokens.len() - at, 0nat,
{
    if at >= tokens.len() {
        return Err(ParseError::UnexpectedEndOfFile);
    }
    assert(tokens_view(tokens@)[at as int] == tokens[at as int]@);
    let pos = tokens[at].pos;
    match tokens[at].token {
        Token::Identifier(name) => Ok((Term::Identifier(name, pos), at + 1)),
        Token::Literal(text) => Ok((Term::Literal(text, pos), at + 1)),
        Token::Operator(operator) => match operator {
            Operator::ParenOpen => {
                let none: Vec<(Term<'s>, Arithmetic)> = Vec::new();
                assert(terms_view(none@) =~= Seq::<(TermView, Arithmetic)>::empty());
                let (delimiter, inner, next) = match parse_expression(tokens, at + 1, none, Pending::Nothing) {
                    Ok(read) => read,
                    Err(error) => {
                        return Err(error);
                    },
                };
                match delimiter {
                    Some((Operator::ParenClose, _)) => Ok((Term::Group(inner), next)),
                    Some((found, end)) => Err(ParseError::ParenthesisDoesNotMatch(pos, found, end)),
                    None => Err(ParseError::NoClosingParenthesis(pos)),
                }
            },
            operator => match prefix_for(operator) {
                Some(prefix) => {
                    let (inner, next) = match parse_term(tokens, at + 1) {
                        Ok(read) => read,
                        Err(error) => {
                            return Err(error);
                        },
                    };
                    Ok((Term::Prefix(prefix, Box::new(inner)), next))
                },
                None => Err(ParseError::UnexpectedOperator(operator, pos)),
            },
        },
    }
}

/// Reads an expression from place `at` on, behind the terms already read.
pub fn parse_expression<'s>(
    tokens: &Vec<TokenPos<'s>>,
    at: usize,
    terms: Vec<(Term<'s>, Arithmetic)>,
    pending: Pending,
) -> (result: Result<(Option<(Operator, Pos)>, Expression<'s>, usize), ParseError<'s>>)
    requires
        at <= tokens.len(),
    ensures
        expression_agrees(result, expression_rest(tokens_view(tokens@), at as int, terms_view(terms@), pending)),
        result is Ok ==> at < result->Ok_0.2 <= tokens.len(),
    decreases tokens.len() - at, 1nat,
{
    let mut terms = terms;
    let ghost earlier = terms_view(terms@);
    let ghost waiting = terms@;
    let (read, next) = match parse_term(tokens, at) {
        Ok(read) => read,
        Err(error) => {
            return Err(error);
        },
    };
    let last = wrap(pending, read);
    if next >= tokens.len() {
        terms.push((last, Arithmetic::Add));
        assert(terms_view(terms@) =~= earlier.push((last.view(), Arithmetic::Add)));
        let expression = Expression { terms };
        assert(expression.view().terms =~= terms_view(expression.terms@));
        return Ok((None, expression, tokens.len()));
    }
    assert(tokens_view(tokens@)[next as int] == tokens[next as int]@);
    let pos = tokens[next].pos;
    match tokens[next].token {
        Token::Operator(operator) => match joint_for(operator) {
            Some((asked, arithmetic)) => {
                terms.push((last, arithmetic));
                assert(terms_view(terms@) =~= earlier.push((last.view(), arithmetic)));
                parse_expression(tokens, next + 1, terms, asked)
            },
            None => {
                terms.push((last, Arithmetic::Add));
                assert(terms_view(terms@) =~= earlier.push((last.view(), Arithmetic::Add)));
                let expression = Expression { terms };
                assert(expression.view().terms =~= terms_view(expression.terms@));
                Ok((Some((operator, pos)), expression, next + 1))
            },
        },
        Token::Identifier(text) => Err(ParseError::UnexpectedToken(text, pos)),
        Token::Literal(text) => Err(ParseError::UnexpectedToken(text, pos)),
    }
}

/// Reads a list of notes from place `at` on, behind the notes already
/// read.
pub fn parse_maps<'s>(tokens: &Vec<TokenPos<'s>>, at: usize, items: Vec<Mapping<'s>>) -> (result: Result<
    (Option<(Operator, Pos)>, Vec<Mapping<'s>>, usize),
    ParseError<'s>,
>)
    requires
        at <= tokens.len(),
    ensures
        listed_agrees(result, maps(tokens_view(tokens@), at as int, mappings_view(items@))),
        result is Ok ==> at <= result->Ok_0.2 <= tokens.len(),
    decreases tokens.len() - at, 2nat,
{
    if at >= tokens.len() {
        return Ok((None, items, tokens.len()));
    }
    assert(tokens_view(tokens@)[at as int] == tokens[at as int]@);
    let pos = tokens[at].pos;
    match tokens[at].token {
        Token::Operator(operator) => match operator {
            Operator::BraceOpen | Operator::BracketOpen => {
                let none: Vec<Mapping<'s>> = Vec::new();
                assert(mappings_view(none@) =~= Seq::<MappingView>::empty());
                let (delimiter, inner, next) = match parse_maps(tokens, at + 1, none) {
                    Ok(read) => read,
                    Err(error) => {
                        return Err(error);
                    },
                };
                match delimiter {
                    Some((found, end)) => {
                        let row = match operator {
                            Operator::BraceOpen => true,
                            _ => false,
                        };
                        let closes = match (operator, found) {
                            (Operator::BraceOpen, Operator::BraceClose) => true,
                            (Operator::BracketOpen, Operator::BracketClose) => true,
                            _ => false,
                        };
                        if closes {
                            let notes = if row {
                                Notes::Row(inner)
                            } else {
                                Notes::Column(inner)
                            };
                            assert(notes.view() == if row {
                                NotesView::Row(mappings_view(inner@))
                            } else {
                                NotesView::Column(mappings_view(inner@))
                            }) by {
                                if row {
                                    assert(notes.view()->Row_0 =~= mappings_view(inner@));
                                } else {
                                    assert(notes.view()->Column_0 =~= mappings_view(inner@));
                                }
                            }
                            parse_after_notes(tokens, next, notes, items)
                        } else {
                            Err(ParseError::UnexpectedOperator(found, end))
                        }
                    },
                    None => Err(ParseError::UnexpectedEndOfFile),
                }
            },
            Operator::Slash => parse_note(tokens, at + 1, None, true, None, items),
            operator => Err(ParseError::UnexpectedOperator(operator, pos)),
        },
        Token::Literal(text) => parse_note(tokens, at + 1, Some((text, pos)), false, None, items),
        Token::Identifier(name) => parse_after_notes(tokens, at + 1, Notes::Identifier(name, pos), items),
    }
}

/// Continues a note from place `at` on.
fn parse_note<'s>(
    tokens: &Vec<TokenPos<'s>>,
    at: usize,
    first: Option<(&'s str, Pos)>,
    slash: bool,
    second: Option<(&'s str, Pos)>,
    items: Vec<Mapping<'s>>,
) -> (result: Result<(Option<(Operator, Pos)>, Vec<Mapping<'s>>, usize), ParseError<'s>>)
    requires
        at <= tokens.len(),
    ensures
        listed_agrees(
            result,
            note(tokens_view(tokens@), at as int, part_view(first), slash, part_view(second), mappings_view(items@)),
        ),
        result is Ok ==> at <= result->Ok_0.2 <= tokens.len(),
    decreases tokens.len() - at, 8nat,
{
    if at < tokens.len() {
        assert(tokens_view(tokens@)[at as int] == tokens[at as int]@);
        let pos = tokens[at].pos;
        match tokens[at].token {
            Token::Literal(text) => {
                if slash && second.is_none() {
                    return parse_note(tokens, at + 1, first, slash, Some((text, pos)), items);
                } else {
                    return Err(ParseError::UnexpectedToken(text, pos));
                }
            },
            Token::Operator(Operator::Slash) => {
                if !slash {
                    return parse_note(tokens, at + 1, first, true, second, items);
                } else {
                    return Err(ParseError::UnexpectedOperator(Operator::Slash, pos));
                }
            },
            _ => {},
        }
    }
    parse_after_notes(tokens, at, Notes::Note(first, second), items)
}

/// Reads the token that ends the notes, and then their functions.
fn parse_after_notes<'s>(tokens: &Vec<TokenPos<'s>>, at: usize, notes: Notes<'s>, items: Vec<Mapping<'s>>) -> (result:
    Result<(Option<(Operator, Pos)>, Vec<Mapping<'s>>, usize), ParseError<'s>>)
    requires
        at <= tokens.len(),
    ensures
        listed_agrees(result, after_notes(tokens_view(tokens@), at as int, notes.view(), mappings_view(items@))),
        result is Ok ==> at <= result->Ok_0.2 <= tokens.len(),
    decreases tokens.len() - at, 7nat,
{
    let none: Vec<Function<'s>> = Vec::new();
    assert(functions_view(none@) =~= Seq::<FunctionView>::empty());
    if at >= tokens.len() {
        return parse_functions(tokens, at, None, notes, none, items);
    }
    assert(tokens_view(tokens@)[at as int] == tokens[at as int]@);
    let pos = tokens[at].pos;
    match tokens[at].token {
        Token::Identifier(text) => Err(ParseError::UnexpectedToken(text, pos)),
        Token::Literal(text) => Err(ParseError::UnexpectedToken(text, pos)),
        Token::Operator(operator) => parse_functions(tokens, at + 1, Some((operator, pos)), notes, none, items),
    }
}

/// Reads the functions of the notes, and goes on with the list.
fn parse_functions<'s>(
    tokens: &Vec<TokenPos<'s>>,
    at: usize,
    end: Option<(Operator, Pos)>,
    notes: Notes<'s>,
    read: Vec<Function<'s>>,
    items: Vec<Mapping<'s>>,
) -> (result: Result<(Option<(Operator, Pos)>, Vec<Mapping<'s>>, usize), ParseError<'s>>)
    requires
        at <= tokens.len(),
    ensures
        listed_agrees(
            result,
            functions(
                tokens_view(tokens@),
                at as int,
                end,
                notes.view(),
                functions_view(read@),
                mappings_view(items@),
            ),
        ),
        result is Ok ==> at <= result->Ok_0.2 <= tokens.len(),
    decreases tokens.len() - at, 6nat,
{
    match end {
        Some((Operator::Bar, _)) => {
            let none: Vec<(&'s str, Expression<'s>)> = Vec::new();
            assert(rules_view(none@) =~= Seq::<(Seq<char>, ExpressionView)>::empty());
            parse_conditions(tokens, at, notes, read, none, items)
        },
        _ => {
            let mut items = items;
            let ghost earlier = mappings_view(items@);
            let mapping = Mapping { notes, functions: read };
            items.push(mapping);
            assert(mappings_view(items@) =~= earlier.push(mapping.view()));
            match end {
                Some((Operator::Comma, _)) => parse_maps(tokens, at, items),
                _ => Ok((end, items, at)),
            }
        },
    }
}

/// Reads the name and the equals sign that begin a condition or an
/// assignment.
fn parse_binding<'s>(tokens: &Vec<TokenPos<'s>>, at: usize) -> (result: Result<&'s str, ParseError<'s>>)
    requires
        at <= tokens.len(),
    ensures
        match binding(tokens_view(tokens@), at as int) {
            Ok(name) => result is Ok && result->Ok_0@ == name && at + 2 <= tokens.len(),
            Err(error) => result is Err && result->Err_0.view() == error,
        },
{
    if at >= tokens.len() {
        return Err(ParseError::UnexpectedEndOfFile);
    }
    assert(tokens_view(tokens@)[at as int] == tokens[at as int]@);
    let pos = tokens[at].pos;
    let name = match tokens[at].token {
        Token::Identifier(name) => name,
        Token::Literal(text) => {
            return Err(ParseError::UnexpectedToken(text, pos));
        },
        Token::Operator(operator) => {
            return Err(ParseError::UnexpectedOperator(operator, pos));
        },
    };
    if at + 1 >= tokens.len() {
        return Err(ParseError::UnexpectedEndOfFile);
    }
    assert(tokens_view(tokens@)[at + 1] == tokens[at + 1]@);
    let pos = tokens[at + 1].pos;
    match tokens[at + 1].token {
        Token::Operator(Operator::Equal) => Ok(name),
        Token::Operator(operator) => Err(ParseError::UnexpectedOperator(operator, pos)),
        Token::Identifier(text) => Err(ParseError::UnexpectedToken(text, pos)),
        Token::Literal(text) => Err(ParseError::UnexpectedToken(text, pos)),
    }
}

/// Reads the conditions of a function from place `at` on.
fn parse_conditions<'s>(
    tokens: &Vec<TokenPos<'s>>,
    at: usize,
    notes: Notes<'s>,
    earlier: Vec<Function<'s>>,
    read: Vec<(&'s str, Expression<'s>)>,
    items: Vec<Mapping<'s>>,
) -> (result: Result<(Option<(Operator, Pos)>, Vec<Mapping<'s>>, usize), ParseError<'s>>)
    requires
        at <= tokens.len(),
    ensures
        listed_agrees(
            result,
            conditions(
                tokens_view(tokens@),
                at as int,
                notes.view(),
                functions_view(earlier@),
                rules_view(read@),
                mappings_view(items@),
            ),
        ),
        result is Ok ==> at <= result->Ok_0.2 <= tokens.len(),
    decreases tokens.len() - at, 5nat,
{
    let none: Vec<(&'s str, Expression<'s>)> = Vec::new();
    assert(rules_view(none@) =~= Seq::<(Seq<char>, ExpressionView)>::empty());
    if at < tokens.len() {
        assert(tokens_view(tokens@)[at as int] == tokens[at as int]@);
        match tokens[at].token {
            Token::Operator(Operator::Colon) => {
                return parse_assignments(tokens, at + 1, notes, earlier, read, none, items);
            },
            _ => {},
        }
    }
    let name = match parse_binding(tokens, at) {
        Ok(name) => name,
        Err(error) => {
            return Err(error);
        },
    };
    let no_terms: Vec<(Term<'s>, Arithmetic)> = Vec::new();
    assert(terms_view(no_terms@) =~= Seq::<(TermView, Arithmetic)>::empty());
    let (delimiter, value, next) = match parse_expression(tokens, at + 2, no_terms, Pending::Nothing) {
        Ok(parsed) => parsed,
        Err(error) => {
            return Err(error);
        },
    };
    let mut read = read;
    let ghost before = rules_view(read@);
    read.push((name, value));
    assert(rules_view(read@) =~= before.push((name@, value.view())));
    match delimiter {
        None => Err(ParseError::UnexpectedEndOfFile),
        Some((Operator::Colon, _)) => parse_assignments(tokens, next, notes, earlier, read, none, items),
        Some((Operator::Comma, _)) => parse_conditions(tokens, next, notes, earlier, read, items),
        Some((operator, pos)) => Err(ParseError::UnexpectedOperator(operator, pos)),
    }
}

/// Reads the assignments of a function from place `at` on.
fn parse_assignments<'s>(
    tokens: &Vec<TokenPos<'s>>,
    at: usize,
    notes: Notes<'s>,
    earlier: Vec<Function<'s>>,
    wanted: Vec<(&'s str, Expression<'s>)>,
    read: Vec<(&'s str, Expression<'s>)>,
    items: Vec<Mapping<'s>>,
) -> (result: Result<(Option<(Operator, Pos)>, Vec<Mapping<'s>>, usize), ParseError<'s>>)
    requires
        at <= tokens.len(),
    ensures
        listed_agrees(
            result,
            assignments(
                tokens_view(tokens@),
                at as int,
                notes.view(),
                functions_view(earlier@),
                rules_view(wanted@),
                rules_view(read@),
                mappings_view(items@),
            ),
        ),
        result is Ok ==> at <= result->Ok_0.2 <= tokens.len(),
    decreases tokens.len() - at, 5nat,
{
    let name = match parse_binding(tokens, at) {
        Ok(name) => name,
        Err(error) => {
            return Err(error);
        },
    };
    let no_terms: Vec<(Term<'s>, Arithmetic)> = Vec::new();
    assert(terms_view(no_terms@) =~= Seq::<(TermView, Arithmetic)>::empty());
    let (delimiter, value, next) = match parse_expression(tokens, at + 2, no_terms, Pending::Nothing) {
        Ok(parsed) => parsed,
        Err(error) => {
            return Err(error);
        },
    };
    let mut read = read;
    let ghost before = rules_view(read@);
    read.push((name, value));
    assert(rules_view(read@) =~= before.push((name@, value.view())));
    match delimiter {
        Some((Operator::Colon, _)) => parse_assignments(tokens, next, notes, earlier, wanted, read, items),
        _ => {
            let mut earlier = earlier;
            let ghost functions_before = functions_view(earlier@);
            let function = Function { conditions: wanted, assignments: read };
            earlier.push(function);
            assert(functions_view(earlier@) =~= functions_before.push(function.view()));
            parse_functions(tokens, next, delimiter, notes, earlier, items)
        },
    }
}

/// Reads the definitions of a score.
pub fn parse<'s>(tokens: &Vec<TokenPos<'s>>) -> (result: Result<Vec<(&'s str, Mapping<'s>)>, ParseError<'s>>)
    ensures
        match definitions(tokens_view(tokens@), 0, seq![]) {
            Ok(defined) => result is Ok && definitions_view(result->Ok_0@) == defined,
            Err(error) => result is Err && result->Err_0.view() == error,
        },
{
    let mut defined: Vec<(&'s str, Mapping<'s>)> = Vec::new();
    let mut at: usize = 0;
    assert(definitions_view(defined@) =~= Seq::<(Seq<char>, MappingView)>::empty());
    loop
        invariant
            at <= tokens.len(),
            definitions(tokens_view(tokens@), 0, seq![]) == definitions(
                tokens_view(tokens@),
                at as int,
                definitions_view(defined@),
            ),
        decreases tokens.len() - at,
    {
        let name = match parse_binding(tokens, at) {
            Ok(name) => name,
            Err(error) => {
                return Err(error);
            },
        };
        let none: Vec<Mapping<'s>> = Vec::new();
        assert(mappings_view(none@) =~= Seq::<MappingView>::empty());
        let (delimiter, items, next) = match parse_maps(tokens, at + 2, none) {
            Ok(listed) => listed,
            Err(error) => {
                return Err(error);
            },
        };
        let ghost before = definitions_view(defined@);
        let mapping = Mapping { notes: Notes::Row(items), functions: Vec::new() };
        assert(mapping.view() == (MappingView { notes: NotesView::Row(mappings_view(items@)), functions: seq![] }))
            by {
            assert(mapping.notes.view()->Row_0 =~= mappings_view(items@));
            assert(functions_view(mapping.functions@) =~= Seq::<FunctionView>::empty());
        }
        defined.push((name, mapping));
        assert(definitions_view(defined@) =~= before.push((name@, mapping.view())));
        match delimiter {
            None => {
                return Ok(defined);
            },
            Some((Operator::Semicolon, _)) => {
                at = next;
            },
            Some((operator, pos)) => {
                return Err(ParseError::UnexpectedOperator(operator, pos));
            },
        }
    }
}

} // verus!
