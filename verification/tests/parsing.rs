use soundcalc::ast::{BinaryOperator, Expression, Node, UnaryOperator};
use soundcalc::error::Error;
use soundcalc::lexer::Lexer;
use soundcalc::number::Real;
use soundcalc::parser::{parse_expression, parse_factor, unescape};
use soundcalc::pos::{CharPos, Pos};
use soundcalc::token::{Token, TokenName};

fn lex(source: &str) -> (Vec<Token>, Vec<Option<Real>>) {
    let mut lexer = Lexer::new(false);
    for line in source.split_inclusive('\n') {
        lexer.read_line(line).unwrap();
    }
    let mut tokens = Vec::new();
    while let Some(token) = lexer.next() {
        tokens.push(token);
    }
    let literals = tokens
        .iter()
        .map(|token| match token.name {
            TokenName::Number { .. } => token.lexeme.parse::<f64>().ok().map(|x| Real::from_bits(x.to_bits())),
            _ => None,
        })
        .collect();
    (tokens, literals)
}

fn parse(source: &str) -> Result<(Option<Expression>, usize), Error> {
    let (tokens, literals) = lex(source);
    parse_expression(&tokens, &literals, 0)
}

fn tree(source: &str) -> Expression {
    parse(source).unwrap().0.unwrap()
}

fn at(start: usize, end: usize) -> Pos {
    Pos::new(CharPos::new(1, start), CharPos::new(1, end))
}

fn lit(x: f64, start: usize, end: usize) -> Expression {
    Expression::new(at(start, end), Node::Number(Real::from_bits(x.to_bits())))
}

fn name(s: &str, start: usize, end: usize) -> Expression {
    Expression::new(at(start, end), Node::Identifier(s.to_string(), false))
}

fn bin(operator: BinaryOperator, left: Expression, right: Expression, start: usize, end: usize) -> Expression {
    Expression::new(at(start, end), Node::Binary(operator, Box::new(left), Box::new(right)))
}

#[test]
fn a_number_is_a_statement() {
    assert_eq!(parse("12;\n"), Ok((Some(lit(12.0, 0, 2)), 2)));
}

#[test]
fn no_tokens_are_no_statement() {
    assert_eq!(parse(""), Ok((None, 0)));
    assert_eq!(parse("\n\n"), Ok((None, 0)));
}

#[test]
fn a_lone_semicolon_is_an_empty_statement() {
    assert_eq!(parse(";\n"), Ok((Some(Expression::empty()), 1)));
}

#[test]
fn statements_are_read_one_after_the_other() {
    let (tokens, literals) = lex("1; 2;\n");
    let (first, next) = parse_expression(&tokens, &literals, 0).unwrap();
    assert_eq!(first, Some(lit(1.0, 0, 1)));
    assert_eq!(next, 2);
    let (second, next) = parse_expression(&tokens, &literals, next).unwrap();
    assert_eq!(second, Some(lit(2.0, 3, 4)));
    assert_eq!(next, 4);
    assert_eq!(parse_expression(&tokens, &literals, next), Ok((None, 4)));
}

#[test]
fn product_binds_tighter_than_sum() {
    assert_eq!(
        tree("1 + 2 * 3;\n"),
        bin(
            BinaryOperator::Add,
            lit(1.0, 0, 1),
            bin(BinaryOperator::Mul, lit(2.0, 4, 5), lit(3.0, 8, 9), 4, 9),
            0,
            9
        )
    );
}

#[test]
fn operators_of_one_level_join_from_the_left() {
    assert_eq!(
        tree("1 - 2 - 3;\n"),
        bin(
            BinaryOperator::Sub,
            bin(BinaryOperator::Sub, lit(1.0, 0, 1), lit(2.0, 4, 5), 0, 5),
            lit(3.0, 8, 9),
            0,
            9
        )
    );
    assert_eq!(
        tree("2 ^ 3 ^ 4;\n"),
        bin(
            BinaryOperator::Pow,
            bin(BinaryOperator::Pow, lit(2.0, 0, 1), lit(3.0, 4, 5), 0, 5),
            lit(4.0, 8, 9),
            0,
            9
        )
    );
}

#[test]
fn the_levels_are_ordered() {
    // a && b == c < d << e + f * g ^ h
    let expected = bin(
        BinaryOperator::And,
        name("a", 0, 1),
        bin(
            BinaryOperator::Equal,
            name("b", 5, 6),
            bin(
                BinaryOperator::Less,
                name("c", 10, 11),
                bin(
                    BinaryOperator::LeftShift,
                    name("d", 14, 15),
                    bin(
                        BinaryOperator::Add,
                        name("e", 19, 20),
                        bin(
                            BinaryOperator::Mul,
                            name("f", 23, 24),
                            bin(BinaryOperator::Pow, name("g", 27, 28), name("h", 31, 32), 27, 32),
                            23,
                            32,
                        ),
                        19,
                        32,
                    ),
                    14,
                    32,
                ),
                10,
                32,
            ),
            5,
            32,
        ),
        0,
        32,
    );
    assert_eq!(tree("a && b == c < d << e + f * g ^ h;\n"), expected);
}

#[test]
fn every_binary_operator_has_its_token() {
    for (text, operator) in [
        ("+", BinaryOperator::Add),
        ("-", BinaryOperator::Sub),
        ("*", BinaryOperator::Mul),
        ("/", BinaryOperator::Div),
        ("^", BinaryOperator::Pow),
        ("<", BinaryOperator::Less),
        (">", BinaryOperator::Greater),
        ("<<", BinaryOperator::LeftShift),
        (">>", BinaryOperator::RightShift),
        ("==", BinaryOperator::Equal),
        ("!=", BinaryOperator::NotEqual),
        ("&&", BinaryOperator::And),
        ("||", BinaryOperator::Or),
    ] {
        let source = format!("a {} b;\n", text);
        let end = 4 + text.len();
        assert_eq!(
            tree(&source),
            bin(operator, name("a", 0, 1), name("b", end - 1, end), 0, end),
            "{}",
            text
        );
    }
}

#[test]
fn prefix_operators_bind_less_than_calls() {
    let call = Expression::new(
        at(1, 5),
        Node::Invocation(Box::new(name("f", 1, 2)), vec![lit(1.0, 3, 4)]),
    );
    assert_eq!(
        tree("-f(1);\n"),
        Expression::new(at(0, 5), Node::Unary(UnaryOperator::Minus, Box::new(call)))
    );
}

#[test]
fn every_prefix_operator_has_its_token() {
    for (text, operator) in [
        ("+", UnaryOperator::Nop),
        ("*", UnaryOperator::Nop),
        ("-", UnaryOperator::Minus),
        ("/", UnaryOperator::Reciprocal),
        ("!", UnaryOperator::Not),
    ] {
        let source = format!("{}a;\n", text);
        assert_eq!(
            tree(&source),
            Expression::new(at(0, 2), Node::Unary(operator, Box::new(name("a", 1, 2)))),
            "{}",
            text
        );
    }
}

#[test]
fn a_prefix_operator_without_operand_holds_the_empty_expression() {
    assert_eq!(
        tree("-;\n"),
        Expression::new(at(0, 1), Node::Unary(UnaryOperator::Minus, Box::new(Expression::empty())))
    );
}

#[test]
fn parentheses_group() {
    let sum = bin(BinaryOperator::Add, lit(1.0, 1, 2), lit(2.0, 5, 6), 1, 6);
    let group = Expression::new(at(0, 7), Node::Group(Box::new(sum)));
    assert_eq!(tree("(1 + 2) * 3;\n"), bin(BinaryOperator::Mul, group, lit(3.0, 10, 11), 0, 11));
}

#[test]
fn calls_take_arguments_separated_by_commas() {
    assert_eq!(
        tree("f(1, a);\n"),
        Expression::new(
            at(0, 7),
            Node::Invocation(Box::new(name("f", 0, 1)), vec![lit(1.0, 2, 3), name("a", 5, 6)])
        )
    );
}

#[test]
fn a_call_without_arguments_has_one_empty_argument() {
    assert_eq!(
        tree("f();\n"),
        Expression::new(at(0, 3), Node::Invocation(Box::new(name("f", 0, 1)), vec![Expression::empty()]))
    );
}

#[test]
fn calls_and_members_chain() {
    let call = Expression::new(at(0, 3), Node::Invocation(Box::new(name("f", 0, 1)), vec![Expression::empty()]));
    let member = Expression::new(at(0, 5), Node::Member(Box::new(call), "m".to_string()));
    assert_eq!(
        tree("f().m(2);\n"),
        Expression::new(at(0, 8), Node::Invocation(Box::new(member), vec![lit(2.0, 6, 7)]))
    );
}

#[test]
fn a_dollar_name_is_marked() {
    assert_eq!(tree("$x;\n"), Expression::new(at(0, 2), Node::Identifier("$x".to_string(), true)));
}

#[test]
fn a_string_literal_loses_its_quotes() {
    assert_eq!(
        tree("\"a\\nb\";\n"),
        Expression::new(at(0, 6), Node::String("a\nb".to_string()))
    );
}

#[test]
fn unescape_resolves_the_escapes() {
    assert_eq!(unescape("\"abc\""), "abc");
    assert_eq!(unescape("\"a\\nb\\rc\\td\\0e\""), "a\nb\rc\td\0e");
    assert_eq!(unescape("\"a\\\"b\\\\c\""), "a\"b\\c");
    assert_eq!(unescape("\"open"), "open");
    assert_eq!(unescape("\"cut\\"), "cut");
    assert_eq!(unescape("\"野\\家\""), "野家");
    assert_eq!(unescape("\"\""), "");
    assert_eq!(unescape(""), "");
}

#[test]
fn an_expression_spans_lines() {
    assert_eq!(
        parse("1 +\n2;\n"),
        Ok((
            Some(Expression::new(
                Pos::new(CharPos::new(1, 0), CharPos::new(2, 1)),
                Node::Binary(
                    BinaryOperator::Add,
                    Box::new(lit(1.0, 0, 1)),
                    Box::new(Expression::new(
                        Pos::new(CharPos::new(2, 0), CharPos::new(2, 1)),
                        Node::Number(Real::from_bits(2.0f64.to_bits()))
                    ))
                )
            )),
            4
        ))
    );
}

#[test]
fn a_missing_semicolon_is_an_error() {
    assert_eq!(parse("1 2;\n"), Err(Error::UnexpectedToken("2".to_string(), at(2, 3))));
    assert_eq!(parse("1 )\n"), Err(Error::UnexpectedToken(")".to_string(), at(2, 3))));
}

#[test]
fn the_end_of_the_tokens_inside_a_statement_is_an_error() {
    assert_eq!(parse("1 + 2\n"), Err(Error::UnexpectedEndOfFile));
    assert_eq!(parse("a. \n"), Err(Error::UnexpectedEndOfFile));
}

#[test]
fn an_unclosed_parenthesis_is_an_error() {
    assert_eq!(
        parse("(1;\n"),
        Err(Error::UnclosedBraceUntil("(".to_string(), at(0, 1), ";".to_string(), at(2, 3)))
    );
    assert_eq!(parse("(1 \n"), Err(Error::UnclosedBraceUntilEndOfFile("(".to_string(), at(0, 1))));
    assert_eq!(
        parse("f(1;\n"),
        Err(Error::UnclosedBraceUntil("(".to_string(), at(1, 2), ";".to_string(), at(3, 4)))
    );
    assert_eq!(parse("f(1, \n"), Err(Error::UnclosedBraceUntilEndOfFile("(".to_string(), at(1, 2))));
}

#[test]
fn a_member_wants_a_name() {
    assert_eq!(parse("a.(1);\n"), Err(Error::UnexpectedToken("(".to_string(), at(2, 3))));
}

#[test]
fn a_number_without_value_is_an_error() {
    let (tokens, _) = lex("1.2.3;\n");
    assert_eq!(
        parse_expression(&tokens, &vec![None, None], 0),
        Err(Error::FloatParseError("1.2.3".to_string(), at(0, 5)))
    );
    assert_eq!(
        parse_expression(&tokens, &vec![], 0),
        Err(Error::FloatParseError("1.2.3".to_string(), at(0, 5)))
    );
    assert_eq!(parse("1.2.3;\n"), Err(Error::FloatParseError("1.2.3".to_string(), at(0, 5))));
}

#[test]
fn a_factor_ends_at_the_first_token_it_does_not_take() {
    let (tokens, literals) = lex("a + b;\n");
    assert_eq!(parse_factor(&tokens, &literals, 0), Ok((name("a", 0, 1), 1)));
    assert_eq!(parse_factor(&tokens, &literals, 3), Ok((Expression::empty(), 3)));
    assert_eq!(parse_factor(&tokens, &literals, 4), Ok((Expression::empty(), 4)));
}
