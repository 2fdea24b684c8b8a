//! The parser: from the tokens of a statement to its syntax tree, by
//! recursive descent with one level per class of binary operators.
//!
//! The value of each number token is given beside the tokens, so that the
//! parser itself reads no digits.

use vstd::prelude::*;
use vstd::string::*;
use crate::ast::{BinaryOperator, Expression, ExpressionView, Node, NodeView, PosNodeView, UnaryOperator};
use crate::error::{Error, ErrorView};
use crate::number::Real;
use crate::pos::Pos;
use crate::token::{tokens_view, Token, TokenName, TokenView};

verus! {

/// The number of levels of binary operators; the last one binds least.
pub const LEVELS: u8 = 7;

/// The value of the number token at place `i`; `None` where the token does
/// not denote a number, or where no value was given.
pub open spec fn literal_at(literals: Seq<Option<Real>>, i: int) -> Option<Real> {
    if 0 <= i < literals.len() {
        literals[i]
    } else {
        None
    }
}

/// The prefix operator that the token stands for.
pub open spec fn unary_of(name: TokenName) -> Option<UnaryOperator> {
    match name {
        TokenName::Plus => Some(UnaryOperator::Nop),
        TokenName::Asterisk => Some(UnaryOperator::Nop),
        TokenName::Minus => Some(UnaryOperator::Minus),
        TokenName::Slash => Some(UnaryOperator::Reciprocal),
        TokenName::Exclamation => Some(UnaryOperator::Not),
        _ => None,
    }
}

/// The binary operator of the given level that the token stands for. The
/// levels, from the one that binds most: power; product and quotient; sum
/// and difference; the shifts; the comparisons; the equalities; and, or.
pub open spec fn binary_of(name: TokenName, level: u8) -> Option<BinaryOperator> {
    match (level, name) {
        (1, TokenName::Circumflex) => Some(BinaryOperator::Pow),
        (2, TokenName::Asterisk) => Some(BinaryOperator::Mul),
        (2, TokenName::Slash) => Some(BinaryOperator::Div),
        (3, TokenName::Plus) => Some(BinaryOperator::Add),
        (3, TokenName::Minus) => Some(BinaryOperator::Sub),
        (4, TokenName::DoubleLess) => Some(BinaryOperator::LeftShift),
        (4, TokenName::DoubleGreater) => Some(BinaryOperator::RightShift),
        (5, TokenName::Less) => Some(BinaryOperator::Less),
        (5, TokenName::Greater) => Some(BinaryOperator::Greater),
        (6, TokenName::DoubleEqual) => Some(BinaryOperator::Equal),
        (6, TokenName::ExclamationEqual) => Some(BinaryOperator::NotEqual),
        (7, TokenName::DoubleAmpersand) => Some(BinaryOperator::And),
        (7, TokenName::DoubleBar) => Some(BinaryOperator::Or),
        _ => None,
    }
}

/// The character that stands behind a backslash in a string literal.
pub open spec fn escaped(c: char) -> char {
    if c == 'n' {
        '\n'
    } else if c == 'r' {
        '\r'
    } else if c == 't' {
        '\t'
    } else if c == '0' {
        '\0'
    } else {
        c
    }
}

/// The text of a string literal from place `i` of its lexeme on, up to the
/// closing quote, with the escapes resolved.
pub open spec fn unescaped(lexeme: Seq<char>, i: int) -> Seq<char>
    decreases lexeme.len() - i,
{
    if i < 0 || i >= lexeme.len() || lexeme[i] == '"' {
        seq![]
    } else if lexeme[i] == '\\' {
        if i + 1 >= lexeme.len() {
            seq![]
        } else {
            seq![escaped(lexeme[i + 1])] + unescaped(lexeme, i + 2)
        }
    } else {
        seq![lexeme[i]] + unescaped(lexeme, i + 1)
    }
}

/// The range of an optional range followed by a range.
pub open spec fn after(left: Option<Pos>, right: Pos) -> Pos {
    match left {
        Some(left) => left.join(right),
        None => right,
    }
}

/// The range of a range followed by an optional range.
pub open spec fn before(left: Pos, right: Option<Pos>) -> Pos {
    match right {
        Some(right) => left.join(right),
        None => left,
    }
}

impl ExpressionView {
    /// The range of the expression in the source; the empty expression has
    /// none.
    pub open spec fn pos(self) -> Option<Pos> {
        match self.0 {
            Some(inner) => Some(inner.pos),
            None => None,
        }
    }

    /// The expression of this node at this place.
    pub open spec fn of(pos: Pos, node: NodeView) -> ExpressionView {
        ExpressionView(Some(PosNodeView { pos, node }))
    }
}

/// The operand read from place `at` on, and the place of the token that
/// ends it (the number of tokens where the tokens run out).
///
/// An operand is a name, a number, a string, a prefix operator with its
/// operand, or an expression in parentheses, followed by any number of
/// argument lists and member accesses. Where no operand starts, the operand
/// is the empty expression and the token at `at` ends it.
pub open spec fn factor(tokens: Seq<TokenView>, literals: Seq<Option<Real>>, at: int) -> Result<
    (ExpressionView, int),
    ErrorView,
>
    decreases tokens.len() - at, 0nat,
{
    if at < 0 || at >= tokens.len() {
        Ok((ExpressionView(None), tokens.len() as int))
    } else {
        let token = tokens[at];
        match token.name {
            TokenName::Identifier { dollar } => postfix(
                tokens,
                literals,
                token.pos,
                NodeView::Identifier(token.lexeme, dollar),
                at + 1,
            ),
            TokenName::Number { .. } => match literal_at(literals, at) {
                Some(value) => postfix(tokens, literals, token.pos, NodeView::Number(value), at + 1),
                None => Err(ErrorView::FloatParseError(token.lexeme, token.pos)),
            },
            TokenName::String => postfix(
                tokens,
                literals,
                token.pos,
                NodeView::String(unescaped(token.lexeme, 1)),
                at + 1,
            ),
            TokenName::OpeningParen => match level(tokens, literals, at + 1, LEVELS) {
                Err(error) => Err(error),
                Ok((inner, end)) => if at < end < tokens.len() {
                    if tokens[end].name is ClosingParen {
                        postfix(
                            tokens,
                            literals,
                            token.pos.join(tokens[end].pos),
                            NodeView::Group(Box::new(inner)),
                            end + 1,
                        )
                    } else {
                        Err(
                            ErrorView::UnclosedBraceUntil(
                                token.lexeme,
                                token.pos,
                                tokens[end].lexeme,
                                tokens[end].pos,
                            ),
                        )
                    }
                } else {
                    Err(ErrorView::UnclosedBraceUntilEndOfFile(token.lexeme, token.pos))
                },
            },
            _ => match unary_of(token.name) {
                Some(operator) => match factor(tokens, literals, at + 1) {
                    Err(error) => Err(error),
                    Ok((operand, end)) => Ok(
                        (
                            ExpressionView::of(
                                before(token.pos, operand.pos()),
                                NodeView::Unary(operator, Box::new(operand)),
                            ),
                            end,
                        ),
                    ),
                },
                None => Ok((ExpressionView(None), at)),
            },
        }
    }
}

/// The operand that starts with the node read so far, continued from place
/// `at` by argument lists and member accesses.
pub open spec fn postfix(
    tokens: Seq<TokenView>,
    literals: Seq<Option<Real>>,
    pos: Pos,
    node: NodeView,
    at: int,
) -> Result<(ExpressionView, int), ErrorView>
    decreases tokens.len() - at, 0nat,
{
    if at < 0 || at >= tokens.len() {
        Ok((ExpressionView::of(pos, node), tokens.len() as int))
    } else {
        let token = tokens[at];
        match token.name {
            TokenName::OpeningParen => match arguments(tokens, literals, at + 1, seq![]) {
                Err(error) => Err(error),
                Ok((items, end)) => if at < end < tokens.len() {
                    if tokens[end].name is ClosingParen {
                        postfix(
                            tokens,
                            literals,
                            pos.join(tokens[end].pos),
                            NodeView::Invocation(Box::new(ExpressionView::of(pos, node)), items),
                            end + 1,
                        )
                    } else {
                        Err(
                            ErrorView::UnclosedBraceUntil(
                                token.lexeme,
                                token.pos,
                                tokens[end].lexeme,
                                tokens[end].pos,
                            ),
                        )
                    }
                } else {
                    Err(ErrorView::UnclosedBraceUntilEndOfFile(token.lexeme, token.pos))
                },
            },
            TokenName::Dot => if at + 1 < tokens.len() {
                let member = tokens[at + 1];
                if member.name is Identifier {
                    postfix(
                        tokens,
                        literals,
                        pos.join(member.pos),
                        NodeView::Member(Box::new(ExpressionView::of(pos, node)), member.lexeme),
                        at + 2,
                    )
                } else {
                    Err(ErrorView::UnexpectedToken(member.lexeme, member.pos))
                }
            } else {
                Err(ErrorView::UnexpectedEndOfFile)
            },
            _ => Ok((ExpressionView::of(pos, node), at)),
        }
    }
}

/// The arguments of a call read from place `at` on, behind the arguments
/// `items` already read, and the place of the token that ends them. The
/// arguments are separated by commas; an argument may be empty.
pub open spec fn arguments(
    tokens: Seq<TokenView>,
    literals: Seq<Option<Real>>,
    at: int,
    items: Seq<ExpressionView>,
) -> Result<(Seq<ExpressionView>, int), ErrorView>
    decreases tokens.len() - at, 2 * LEVELS + 2,
{
    match level(tokens, literals, at, LEVELS) {
        Err(error) => Err(error),
        Ok((item, end)) => if at <= end < tokens.len() && tokens[end].name is Comma {
            arguments(tokens, literals, end + 1, items.push(item))
        } else {
            Ok((items.push(item), end))
        },
    }
}

/// The expression of the given level read from place `at` on, and the
/// place of the token that ends it: operands of the level below, joined
/// from left to right by the operators of the level.
pub open spec fn level(tokens: Seq<TokenView>, literals: Seq<Option<Real>>, at: int, n: u8) -> Result<
    (ExpressionView, int),
    ErrorView,
>
    decreases tokens.len() - at, 2 * n + 1,
{
    if n == 0 {
        factor(tokens, literals, at)
    } else {
        match level(tokens, literals, at, (n - 1) as u8) {
            Err(error) => Err(error),
            Ok((left, end)) => if at <= end <= tokens.len() {
                level_rest(tokens, literals, left, end, n)
            } else {
                Ok((left, end))
            },
        }
    }
}

/// The expression of the given level whose left part `left` was read up to
/// the token at place `at`.
pub open spec fn level_rest(
    tokens: Seq<TokenView>,
    literals: Seq<Option<Real>>,
    left: ExpressionView,
    at: int,
    n: u8,
) -> Result<(ExpressionView, int), ErrorView>
    decreases tokens.len() - at, 2 * n,
{
    if n >= 1 && 0 <= at < tokens.len() && binary_of(tokens[at].name, n) is Some {
        match level(tokens, literals, at + 1, (n - 1) as u8) {
            Err(error) => Err(error),
            Ok((right, end)) => if at < end <= tokens.len() {
                level_rest(
                    tokens,
                    literals,
                    ExpressionView::of(
                        before(after(left.pos(), tokens[at].pos), right.pos()),
                        NodeView::Binary(binary_of(tokens[at].name, n)->Some_0, Box::new(left), Box::new(right)),
                    ),
                    end,
                    n,
                )
            } else {
                Ok((left, at))
            },
        }
    } else {
        Ok((left, at))
    }
}

/// The statement read from place `at` on, and the place behind it.
///
/// A statement is an expression followed by a semicolon. Where the tokens
/// run out there is no statement if nothing was read, and an error if an
/// expression was begun.
pub open spec fn statement(tokens: Seq<TokenView>, literals: Seq<Option<Real>>, at: int) -> Result<
    (Option<ExpressionView>, int),
    ErrorView,
> {
    match level(tokens, literals, at, LEVELS) {
        Err(error) => Err(error),
        Ok((expression, end)) => if 0 <= end < tokens.len() {
            if tokens[end].name is Semicolon {
                Ok((Some(expression), end + 1))
            } else {
                Err(ErrorView::UnexpectedToken(tokens[end].lexeme, tokens[end].pos))
            }
        } else if expression.0 is None {
            Ok((None, tokens.len() as int))
        } else {
            Err(ErrorView::UnexpectedEndOfFile)
        },
    }
}

/// The outcome of a parsing function agrees with the outcome that the
/// grammar gives.
pub open spec fn agrees(
    result: Result<(Expression, usize), Error>,
    expected: Result<(ExpressionView, int), ErrorView>,
) -> bool {
    match expected {
        Ok((expression, end)) => result is Ok && result->Ok_0.0@ == expression && result->Ok_0.1 == end,
        Err(error) => result is Err && result->Err_0@ == error,
    }
}

/// The expressions, each by what it holds.
pub open spec fn items_view(items: Seq<Expression>) -> Seq<ExpressionView> {
    Seq::new(items.len(), |i: int| items[i]@)
}

fn unary_operator(name: TokenName) -> (result: Option<UnaryOperator>)
    ensures
        result == unary_of(name),
{
    match name {
        TokenName::Plus => Some(UnaryOperator::Nop),
        TokenName::Asterisk => Some(UnaryOperator::Nop),
        TokenName::Minus => Some(UnaryOperator::Minus),
        TokenName::Slash => Some(UnaryOperator::Reciprocal),
        TokenName::Exclamation => Some(UnaryOperator::Not),
        _ => None,
    }
}

fn binary_operator(name: TokenName, level: u8) -> (result: Option<BinaryOperator>)
    ensures
        result == binary_of(name, level),
{
    match (level, name) {
        (1, TokenName::Circumflex) => Some(BinaryOperator::Pow),
        (2, TokenName::Asterisk) => Some(BinaryOperator::Mul),
        (2, TokenName::Slash) => Some(BinaryOperator::Div),
        (3, TokenName::Plus) => Some(BinaryOperator::Add),
        (3, TokenName::Minus) => Some(BinaryOperator::Sub),
        (4, TokenName::DoubleLess) => Some(BinaryOperator::LeftShift),
        (4, TokenName::DoubleGreater) => Some(BinaryOperator::RightShift),
        (5, TokenName::Less) => Some(BinaryOperator::Less),
        (5, TokenName::Greater) => Some(BinaryOperator::Greater),
        (6, TokenName::DoubleEqual) => Some(BinaryOperator::Equal),
        (6, TokenName::ExclamationEqual) => Some(BinaryOperator::NotEqual),
        (7, TokenName::DoubleAmpersand) => Some(BinaryOperator::And),
        (7, TokenName::DoubleBar) => Some(BinaryOperator::Or),
        _ => None,
    }
}

/// The text of a string literal, without its quotes and with the escapes
/// resolved.
pub fn unescape(lexeme: &str) -> (result: String)
    ensures
        result@ == unescaped(lexeme@, 1),
{
    let len = lexeme.unicode_len();
    let mut result = String::new();
    let mut i: usize = 1;
    while i < len
        invariant
            len == lexeme@.len(),
            1 <= i,
            unescaped(lexeme@, 1) == result@ + unescaped(lexeme@, i as int),
        decreases len - i,
    {
        let c = lexeme.get_char(i);
        if c == '"' {
            assert(result@ + Seq::<char>::empty() =~= result@);
            return result;
        }
        if c == '\\' {
            if i + 1 >= len {
                assert(result@ + Seq::<char>::empty() =~= result@);
                return result;
            }
            let e = lexeme.get_char(i + 1);
            let ghost old_text = result@;
            if e == 'n' {
                proof {
                    reveal_strlit("\n");
                }
                result.append("\n");
            } else if e == 'r' {
                proof {
                    reveal_strlit("\r");
                }
                result.append("\r");
            } else if e == 't' {
                proof {
                    reveal_strlit("\t");
                }
                result.append("\t");
            } else if e == '0' {
                proof {
                    reveal_strlit("\0");
                }
                result.append("\0");
            } else {
                result.append(lexeme.substring_char(i + 1, i + 2));
            }
            assert(result@ =~= old_text + seq![escaped(e)]);
            assert(old_text + (seq![escaped(e)] + unescaped(lexeme@, i + 2)) =~= result@ + unescaped(
                lexeme@,
                i + 2,
            ));
            i += 2;
        } else {
            let ghost old_text = result@;
            result.append(lexeme.substring_char(i, i + 1));
            assert(result@ =~= old_text + seq![c]);
            assert(old_text + (seq![c] + unescaped(lexeme@, i + 1)) =~= result@ + unescaped(lexeme@, i + 1));
            i += 1;
        }
    }
    assert(result@ + Seq::<char>::empty() =~= result@);
    result
}

/// Reads an operand from place `at` on.
pub fn parse_factor(tokens: &Vec<Token>, literals: &Vec<Option<Real>>, at: usize) -> (result: Result<
    (Expression, usize),
    Error,
>)
    requires
        at <= tokens.len(),
    ensures
        agrees(result, factor(tokens_view(tokens@), literals@, at as int)),
        result is Ok ==> at <= result->Ok_0.1 <= tokens.len(),
    decreases tokens.len() - at, 0nat,
{
    if at >= tokens.len() {
        return Ok((Expression::empty(), tokens.len()));
    }
    let ghost views = tokens_view(tokens@);
    assert(views[at as int] == tokens[at as int]@);
    let token = &tokens[at];
    match token.name {
        TokenName::Identifier { dollar } => parse_postfix(
            tokens,
            literals,
            token.pos,
            Node::Identifier(token.lexeme.clone(), dollar),
            at + 1,
        ),
        TokenName::Number { .. } => {
            let value = if at < literals.len() {
                literals[at]
            } else {
                None
            };
            match value {
                Some(value) => parse_postfix(tokens, literals, token.pos, Node::Number(value), at + 1),
                None => Err(Error::FloatParseError(token.lexeme.clone(), token.pos)),
            }
        },
        TokenName::String => parse_postfix(
            tokens,
            literals,
            token.pos,
            Node::String(unescape(token.lexeme.as_str())),
            at + 1,
        ),
        TokenName::OpeningParen => {
            let (inner, end) = match parse_operator(tokens, literals, at + 1, LEVELS) {
                Ok(pair) => pair,
                Err(error) => {
                    return Err(error);
                },
            };
            if end < tokens.len() {
                assert(views[end as int] == tokens[end as int]@);
                let closing = &tokens[end];
                match closing.name {
                    TokenName::ClosingParen => parse_postfix(
                        tokens,
                        literals,
                        token.pos + closing.pos,
                        Node::Group(Box::new(inner)),
                        end + 1,
                    ),
                    _ => Err(
                        Error::UnclosedBraceUntil(
                            token.lexeme.clone(),
                            token.pos,
                            closing.lexeme.clone(),
                            closing.pos,
                        ),
                    ),
                }
            } else {
                Err(Error::UnclosedBraceUntilEndOfFile(token.lexeme.clone(), token.pos))
            }
        },
        name => match unary_operator(name) {
            Some(operator) => {
                let (operand, end) = match parse_factor(tokens, literals, at + 1) {
                    Ok(pair) => pair,
                    Err(error) => {
                        return Err(error);
                    },
                };
                let pos = token.pos + operand.pos();
                Ok((Expression::new(pos, Node::Unary(operator, Box::new(operand))), end))
            },
            None => Ok((Expression::empty(), at)),
        },
    }
}

/// Continues an operand by the argument lists and member accesses that
/// follow it.
fn parse_postfix(tokens: &Vec<Token>, literals: &Vec<Option<Real>>, pos: Pos, node: Node, at: usize) -> (result:
    Result<(Expression, usize), Error>)
    requires
        at <= tokens.len(),
    ensures
        agrees(result, postfix(tokens_view(tokens@), literals@, pos, node@, at as int)),
        result is Ok ==> at <= result->Ok_0.1 <= tokens.len(),
    decreases tokens.len() - at, 0nat,
{
    if at >= tokens.len() {
        return Ok((Expression::new(pos, node), tokens.len()));
    }
    let ghost views = tokens_view(tokens@);
    assert(views[at as int] == tokens[at as int]@);
    let token = &tokens[at];
    match token.name {
        TokenName::OpeningParen => {
            let none: Vec<Expression> = Vec::new();
            assert(items_view(none@) =~= Seq::<ExpressionView>::empty());
            let (items, end) = match parse_args(tokens, literals, at + 1, none) {
                Ok(pair) => pair,
                Err(error) => {
                    return Err(error);
                },
            };
            if end < tokens.len() {
                assert(views[end as int] == tokens[end as int]@);
                let closing = &tokens[end];
                match closing.name {
                    TokenName::ClosingParen => {
                        let call = Node::Invocation(Box::new(Expression::new(pos, node)), items);
                        assert(call@->Invocation_1 =~= items_view(items@));
                        parse_postfix(tokens, literals, pos + closing.pos, call, end + 1)
                    },
                    _ => Err(
                        Error::UnclosedBraceUntil(
                            token.lexeme.clone(),
                            token.pos,
                            closing.lexeme.clone(),
                            closing.pos,
                        ),
                    ),
                }
            } else {
                Err(Error::UnclosedBraceUntilEndOfFile(token.lexeme.clone(), token.pos))
            }
        },
        TokenName::Dot => {
            if at + 1 < tokens.len() {
                assert(views[at + 1] == tokens[at + 1]@);
                let member = &tokens[at + 1];
                match member.name {
                    TokenName::Identifier { .. } => parse_postfix(
                        tokens,
                        literals,
                        pos + member.pos,
                        Node::Member(Box::new(Expression::new(pos, node)), member.lexeme.clone()),
                        at + 2,
                    ),
                    _ => Err(Error::UnexpectedToken(member.lexeme.clone(), member.pos)),
                }
            } else {
                Err(Error::UnexpectedEndOfFile)
            }
        },
        _ => Ok((Expression::new(pos, node), at)),
    }
}

/// Reads the arguments of a call from place `at` on, behind the arguments
/// already read.
fn parse_args(tokens: &Vec<Token>, literals: &Vec<Option<Real>>, at: usize, items: Vec<Expression>) -> (result:
    Result<(Vec<Expression>, usize), Error>)
    requires
        at <= tokens.len(),
    ensures
        match arguments(tokens_view(tokens@), literals@, at as int, items_view(items@)) {
            Ok((expected, end)) => result is Ok && items_view(result->Ok_0.0@) == expected && result->Ok_0.1
                == end,
            Err(error) => result is Err && result->Err_0@ == error,
        },
        result is Ok ==> at <= result->Ok_0.1 <= tokens.len(),
    decreases tokens.len() - at, 2 * LEVELS + 2,
{
    let mut items = items;
    let ghost views = tokens_view(tokens@);
    let ghost before_views = items_view(items@);
    let (item, end) = match parse_operator(tokens, literals, at, LEVELS) {
        Ok(pair) => pair,
        Err(error) => {
            return Err(error);
        },
    };
    items.push(item);
    assert(items_view(items@) =~= before_views.push(item@));
    if end < tokens.len() {
        assert(views[end as int] == tokens[end as int]@);
        match tokens[end].name {
            TokenName::Comma => {
                return parse_args(tokens, literals, end + 1, items);
            },
            _ => {},
        }
    }
    Ok((items, end))
}

/// Reads an expression of the given level from place `at` on.
fn parse_operator(tokens: &Vec<Token>, literals: &Vec<Option<Real>>, at: usize, n: u8) -> (result: Result<
    (Expression, usize),
    Error,
>)
    requires
        at <= tokens.len(),
        n <= LEVELS,
    ensures
        agrees(result, level(tokens_view(tokens@), literals@, at as int, n)),
        result is Ok ==> at <= result->Ok_0.1 <= tokens.len(),
    decreases tokens.len() - at, 2 * n + 1,
{
    if n == 0 {
        return parse_factor(tokens, literals, at);
    }
    let (left, end) = match parse_operator(tokens, literals, at, n - 1) {
        Ok(pair) => pair,
        Err(error) => {
            return Err(error);
        },
    };
    parse_operator_rest(tokens, literals, left, end, n)
}

/// Continues an expression of the given level whose left part was read up
/// to the token at place `at`.
fn parse_operator_rest(
    tokens: &Vec<Token>,
    literals: &Vec<Option<Real>>,
    left: Expression,
    at: usize,
    n: u8,
) -> (result: Result<(Expression, usize), Error>)
    requires
        at <= tokens.len(),
        n <= LEVELS,
    ensures
        agrees(result, level_rest(tokens_view(tokens@), literals@, left@, at as int, n)),
        result is Ok ==> at <= result->Ok_0.1 <= tokens.len(),
    decreases tokens.len() - at, 2 * n,
{
    if n == 0 || at >= tokens.len() {
        return Ok((left, at));
    }
    let ghost views = tokens_view(tokens@);
    assert(views[at as int] == tokens[at as int]@);
    let token = &tokens[at];
    match binary_operator(token.name, n) {
        Some(operator) => {
            let (right, end) = match parse_operator(tokens, literals, at + 1, n - 1) {
                Ok(pair) => pair,
                Err(error) => {
                    return Err(error);
                },
            };
            let pos = left.pos() + token.pos + right.pos();
            let joined = Expression::new(pos, Node::Binary(operator, Box::new(left), Box::new(right)));
            parse_operator_rest(tokens, literals, joined, end, n)
        },
        None => Ok((left, at)),
    }
}

/// Reads one statement from place `at` on: the expression of the statement
/// and the place behind its semicolon, or no expression where the tokens
/// have run out.
pub fn parse_expression(tokens: &Vec<Token>, literals: &Vec<Option<Real>>, at: usize) -> (result: Result<
    (Option<Expression>, usize),
    Error,
>)
    requires
        at <= tokens.len(),
    ensures
        match statement(tokens_view(tokens@), literals@, at as int) {
            Ok((expected, next)) => result is Ok && result->Ok_0.1 == next && match expected {
                Some(expression) => result->Ok_0.0 is Some && result->Ok_0.0->Some_0@ == expression,
                None => result->Ok_0.0 is None,
            },
            Err(error) => result is Err && result->Err_0@ == error,
        },
        result is Ok ==> at <= result->Ok_0.1 <= tokens.len(),
{
    let ghost views = tokens_view(tokens@);
    let (expression, end) = match parse_operator(tokens, literals, at, LEVELS) {
        Ok(pair) => pair,
        Err(error) => {
            return Err(error);
        },
    };
    if end < tokens.len() {
        assert(views[end as int] == tokens[end as int]@);
        let token = &tokens[end];
        match token.name {
            TokenName::Semicolon => Ok((Some(expression), end + 1)),
            _ => Err(Error::UnexpectedToken(token.lexeme.clone(), token.pos)),
        }
    } else if expression.is_empty() {
        Ok((None, tokens.len()))
    } else {
        Err(Error::UnexpectedEndOfFile)
    }
}

} // verus!
