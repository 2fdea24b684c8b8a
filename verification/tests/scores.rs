use soundcalc::number::{BinaryFunction, Operation, Real, UnaryFunction};
use soundcalc::pos::{CharPos, Pos};
use soundcalc::score::compiler::{compile, same_text, CompileError, Parameters, Score};
use soundcalc::score::lexer::{lexer, LexerError};
use soundcalc::score::SourceError;
use soundcalc::score::parser::{
    parse, parse_expression, parse_maps, parse_term, Arithmetic, Expression, Function, Mapping, Notes, ParseError,
    Pending, Prefix, Term,
};
use soundcalc::score::token::{Operator, Token, TokenPos};

fn at(line: usize, column: usize) -> Pos {
    Pos::new(CharPos::new(line, column), CharPos::new(line, column + 1))
}

fn tokens(source: &str) -> Vec<TokenPos> {
    lexer(source).unwrap()
}

fn sum(terms: Vec<Term>) -> Expression {
    Expression { terms: terms.into_iter().map(|term| (term, Arithmetic::Add)).collect() }
}

fn plain(notes: Notes) -> Mapping {
    Mapping { notes, functions: Vec::new() }
}

#[test]
fn the_score_lexer_cuts_names_literals_and_operators() {
    assert_eq!(
        lexer("ab1 = 3/2;\n"),
        Ok(vec![
            TokenPos { token: Token::Identifier("ab1"), pos: at(0, 0) },
            TokenPos { token: Token::Operator(Operator::Equal), pos: at(0, 4) },
            TokenPos { token: Token::Literal("3"), pos: at(0, 6) },
            TokenPos { token: Token::Operator(Operator::Slash), pos: at(0, 7) },
            TokenPos { token: Token::Literal("2"), pos: at(0, 8) },
            TokenPos { token: Token::Operator(Operator::Semicolon), pos: at(0, 9) },
        ])
    );
}

#[test]
fn the_score_lexer_knows_every_operator() {
    let found: Vec<Token> = tokens("+-*/();|:=,{}[] ").into_iter().map(|token| token.token).collect();
    assert_eq!(
        found,
        vec![
            Token::Operator(Operator::Plus),
            Token::Operator(Operator::Minus),
            Token::Operator(Operator::Asterisk),
            Token::Operator(Operator::Slash),
            Token::Operator(Operator::ParenOpen),
            Token::Operator(Operator::ParenClose),
            Token::Operator(Operator::Semicolon),
            Token::Operator(Operator::Bar),
            Token::Operator(Operator::Colon),
            Token::Operator(Operator::Equal),
            Token::Operator(Operator::Comma),
            Token::Operator(Operator::BraceOpen),
            Token::Operator(Operator::BraceClose),
            Token::Operator(Operator::BracketOpen),
            Token::Operator(Operator::BracketClose),
        ]
    );
}

#[test]
fn the_score_lexer_counts_lines_and_columns() {
    assert_eq!(
        lexer("a\n  b.5 1.5x\n"),
        Ok(vec![
            TokenPos { token: Token::Identifier("a"), pos: at(0, 0) },
            TokenPos { token: Token::Identifier("b.5"), pos: at(1, 2) },
            TokenPos { token: Token::Literal("1.5"), pos: at(1, 6) },
            TokenPos { token: Token::Identifier("x"), pos: at(1, 9) },
        ])
    );
}

#[test]
fn the_score_lexer_drops_a_token_that_the_end_cuts_off() {
    assert_eq!(lexer("a b"), Ok(vec![TokenPos { token: Token::Identifier("a"), pos: at(0, 0) }]));
    assert_eq!(lexer(""), Ok(vec![]));
}

#[test]
fn the_score_lexer_rejects_other_characters() {
    assert_eq!(lexer("a\nb ? c"), Err(LexerError::UnexpectedCharacter('?', at(1, 2))));
    assert_eq!(lexer("野"), Err(LexerError::UnexpectedCharacter('野', at(0, 0))));
}

#[test]
fn a_term_is_a_name_a_literal_a_prefix_or_a_group() {
    let source = tokens("x 1 -y (2) ");
    assert_eq!(parse_term(&source, 0), Ok((Term::Identifier("x", at(0, 0)), 1)));
    assert_eq!(parse_term(&source, 1), Ok((Term::Literal("1", at(0, 2)), 2)));
    assert_eq!(
        parse_term(&source, 2),
        Ok((Term::Prefix(Prefix::Sub, Box::new(Term::Identifier("y", at(0, 5)))), 4))
    );
    assert_eq!(parse_term(&source, 4), Ok((Term::Group(sum(vec![Term::Literal("2", at(0, 8))])), 7)));
    assert_eq!(parse_term(&source, 7), Err(ParseError::UnexpectedEndOfFile));
}

#[test]
fn every_prefix_has_its_operator() {
    for (text, prefix) in [("+", Prefix::Add), ("-", Prefix::Sub), ("*", Prefix::Mul), ("/", Prefix::Div)] {
        let source = format!("{}x ", text);
        assert_eq!(
            parse_term(&tokens(&source), 0),
            Ok((Term::Prefix(prefix, Box::new(Term::Identifier("x", at(0, 1)))), 2))
        );
    }
}

#[test]
fn a_term_cannot_start_with_another_operator() {
    assert_eq!(
        parse_term(&tokens(", "), 0),
        Err(ParseError::UnexpectedOperator(Operator::Comma, at(0, 0)))
    );
}

#[test]
fn a_group_wants_its_closing_parenthesis() {
    assert_eq!(
        parse_term(&tokens("(1, "), 0),
        Err(ParseError::ParenthesisDoesNotMatch(at(0, 0), Operator::Comma, at(0, 2)))
    );
    assert_eq!(parse_term(&tokens("(1 "), 0), Err(ParseError::NoClosingParenthesis(at(0, 0))));
}

#[test]
fn an_expression_is_a_sum_of_products() {
    let source = tokens("a - b * c / d + e, ");
    assert_eq!(
        parse_expression(&source, 0, Vec::new(), Pending::Nothing),
        Ok((
            Some((Operator::Comma, at(0, 17))),
            Expression {
                terms: vec![
                    (Term::Identifier("a", at(0, 0)), Arithmetic::Add),
                    (Term::Prefix(Prefix::Sub, Box::new(Term::Identifier("b", at(0, 4)))), Arithmetic::Mul),
                    (Term::Identifier("c", at(0, 8)), Arithmetic::Mul),
                    (Term::Prefix(Prefix::Div, Box::new(Term::Identifier("d", at(0, 12)))), Arithmetic::Add),
                    (Term::Identifier("e", at(0, 16)), Arithmetic::Add),
                ],
            },
            10
        ))
    );
}

#[test]
fn an_expression_ends_with_the_tokens() {
    assert_eq!(
        parse_expression(&tokens("a "), 0, Vec::new(), Pending::Nothing),
        Ok((None, sum(vec![Term::Identifier("a", at(0, 0))]), 1))
    );
    assert_eq!(
        parse_expression(&tokens("a b "), 0, Vec::new(), Pending::Nothing),
        Err(ParseError::UnexpectedToken("b", at(0, 2)))
    );
    assert_eq!(
        parse_expression(&tokens("a + "), 0, Vec::new(), Pending::Nothing),
        Err(ParseError::UnexpectedEndOfFile)
    );
}

#[test]
fn notes_are_ratios_names_rows_and_columns() {
    let source = tokens("3/2, /2, 3, 3/, /, x, {1, y}, [2]; ");
    let (delimiter, notes, next) = parse_maps(&source, 0, Vec::new()).unwrap();
    assert_eq!(delimiter, Some((Operator::Semicolon, at(0, 33))));
    assert_eq!(next, source.len());
    assert_eq!(
        notes,
        vec![
            plain(Notes::Note(Some(("3", at(0, 0))), Some(("2", at(0, 2))))),
            plain(Notes::Note(None, Some(("2", at(0, 6))))),
            plain(Notes::Note(Some(("3", at(0, 9))), None)),
            plain(Notes::Note(Some(("3", at(0, 12))), None)),
            plain(Notes::Note(None, None)),
            plain(Notes::Identifier("x", at(0, 19))),
            plain(Notes::Row(vec![
                plain(Notes::Note(Some(("1", at(0, 23))), None)),
                plain(Notes::Identifier("y", at(0, 26))),
            ])),
            plain(Notes::Column(vec![plain(Notes::Note(Some(("2", at(0, 31))), None))])),
        ]
    );
}

#[test]
fn no_tokens_are_no_notes() {
    assert_eq!(parse_maps(&tokens(""), 0, Vec::new()), Ok((None, Vec::new(), 0)));
}

#[test]
fn notes_take_functions() {
    let source = tokens("x | f = 1, g = 2 : f = 3 : h = f | : k = 1; ");
    let (delimiter, notes, _) = parse_maps(&source, 0, Vec::new()).unwrap();
    assert_eq!(delimiter, Some((Operator::Semicolon, at(0, 42))));
    assert_eq!(
        notes,
        vec![Mapping {
            notes: Notes::Identifier("x", at(0, 0)),
            functions: vec![
                Function {
                    conditions: vec![
                        ("f", sum(vec![Term::Literal("1", at(0, 8))])),
                        ("g", sum(vec![Term::Literal("2", at(0, 15))])),
                    ],
                    assignments: vec![
                        ("f", sum(vec![Term::Literal("3", at(0, 23))])),
                        ("h", sum(vec![Term::Identifier("f", at(0, 31))])),
                    ],
                },
                Function {
                    conditions: Vec::new(),
                    assignments: vec![("k", sum(vec![Term::Literal("1", at(0, 41))]))],
                },
            ],
        }]
    );
}

#[test]
fn malformed_notes_are_errors() {
    fn error(source: &str) -> ParseError<'_> {
        parse_maps(&tokens(source), 0, Vec::new()).unwrap_err()
    }
    assert_eq!(error("1 2 "), ParseError::UnexpectedToken("2", at(0, 2)));
    assert_eq!(error("1/2 3 "), ParseError::UnexpectedToken("3", at(0, 4)));
    assert_eq!(error("1//2 "), ParseError::UnexpectedOperator(Operator::Slash, at(0, 2)));
    assert_eq!(error("1 x "), ParseError::UnexpectedToken("x", at(0, 2)));
    assert_eq!(error("x y "), ParseError::UnexpectedToken("y", at(0, 2)));
    assert_eq!(error("+ "), ParseError::UnexpectedOperator(Operator::Plus, at(0, 0)));
    assert_eq!(error("{1] "), ParseError::UnexpectedOperator(Operator::BracketClose, at(0, 2)));
    assert_eq!(error("[1} "), ParseError::UnexpectedOperator(Operator::BraceClose, at(0, 2)));
    assert_eq!(error("{1 "), ParseError::UnexpectedEndOfFile);
    assert_eq!(error("x | 1 "), ParseError::UnexpectedToken("1", at(0, 4)));
    assert_eq!(error("x | f 1 "), ParseError::UnexpectedToken("1", at(0, 6)));
    assert_eq!(error("x | f : "), ParseError::UnexpectedOperator(Operator::Colon, at(0, 6)));
    assert_eq!(error("x | f = 1; "), ParseError::UnexpectedOperator(Operator::Semicolon, at(0, 9)));
    assert_eq!(error("x | f = 1 "), ParseError::UnexpectedEndOfFile);
    assert_eq!(error("x | f = 1 : "), ParseError::UnexpectedEndOfFile);
    assert_eq!(error("x | : = "), ParseError::UnexpectedOperator(Operator::Equal, at(0, 6)));
    assert_eq!(error("x | : g g "), ParseError::UnexpectedToken("g", at(0, 8)));
    assert_eq!(error("x | "), ParseError::UnexpectedEndOfFile);
}

#[test]
fn a_score_is_a_list_of_definitions() {
    assert_eq!(
        parse(&tokens("a = 1, 2;\nmain = a ")),
        Ok(vec![
            (
                "a",
                plain(Notes::Row(vec![
                    plain(Notes::Note(Some(("1", at(0, 4))), None)),
                    plain(Notes::Note(Some(("2", at(0, 7))), None)),
                ]))
            ),
            ("main", plain(Notes::Row(vec![plain(Notes::Identifier("a", at(1, 7)))]))),
        ])
    );
}

#[test]
fn malformed_definitions_are_errors() {
    assert_eq!(parse(&tokens("")), Err(ParseError::UnexpectedEndOfFile));
    assert_eq!(parse(&tokens("a = 1; ")), Err(ParseError::UnexpectedEndOfFile));
    assert_eq!(parse(&tokens("1 = 1 ")), Err(ParseError::UnexpectedToken("1", at(0, 0))));
    assert_eq!(parse(&tokens("= 1 ")), Err(ParseError::UnexpectedOperator(Operator::Equal, at(0, 0))));
    assert_eq!(parse(&tokens("a 1 ")), Err(ParseError::UnexpectedToken("1", at(0, 2))));
    assert_eq!(parse(&tokens("a b ")), Err(ParseError::UnexpectedToken("b", at(0, 2))));
    assert_eq!(parse(&tokens("a ; ")), Err(ParseError::UnexpectedOperator(Operator::Semicolon, at(0, 2))));
    assert_eq!(parse(&tokens("a ")), Err(ParseError::UnexpectedEndOfFile));
    assert_eq!(parse(&tokens("a = 1 } ")), Err(ParseError::UnexpectedOperator(Operator::BraceClose, at(0, 6))));
}

fn number(x: f64) -> Real {
    Real::from_bits(x.to_bits())
}

fn float(x: Real) -> f64 {
    f64::from_bits(x.to_bits())
}

fn arithmetic(operation: Operation) -> Real {
    number(match operation {
        Operation::Unary(function, x) => {
            let x = float(x);
            match function {
                UnaryFunction::Sin => x.sin(),
                UnaryFunction::Cos => x.cos(),
                UnaryFunction::Tan => x.tan(),
                UnaryFunction::Ln => x.ln(),
                UnaryFunction::Log10 => x.log10(),
                UnaryFunction::Exp => x.exp(),
            }
        }
        Operation::Binary(function, x, y) => {
            let (x, y) = (float(x), float(y));
            match function {
                BinaryFunction::Add => x + y,
                BinaryFunction::Sub => x - y,
                BinaryFunction::Mul => x * y,
                BinaryFunction::Div => x / y,
                BinaryFunction::Pow => x.powf(y),
                BinaryFunction::Max => x.max(y),
                BinaryFunction::Min => x.min(y),
            }
        }
        Operation::Random(_) => 0.5,
    })
}

fn literal(text: &str) -> Option<Real> {
    text.parse::<f64>().ok().map(number)
}

fn note(entries: &[(&'static str, f64)]) -> Score<'static> {
    Score::Note(Parameters { entries: entries.iter().map(|&(name, value)| (name, number(value))).collect() })
}

fn score(source: &str) -> Result<Score<'_>, SourceError<'_>> {
    Score::from_source(source, &arithmetic, &literal)
}

fn value(source: &str, variables: &[(&'static str, f64)]) -> Option<f64> {
    let padded = format!("{} ", source);
    let source = tokens(&padded);
    let (_, expression, _) = parse_expression(&source, 0, Vec::new(), Pending::Nothing).unwrap();
    let parameters = Parameters { entries: variables.iter().map(|&(name, x)| (name, number(x))).collect() };
    expression.value(&parameters, &arithmetic, &literal).unwrap().map(float)
}

#[test]
fn parameters_bind_numbers_to_names() {
    let mut parameters = Parameters::new();
    assert_eq!(parameters.get("f"), None);
    parameters.insert("f", number(1.0));
    parameters.insert("g", number(2.0));
    parameters.insert("f", number(3.0));
    assert_eq!(parameters.get("f"), Some(number(3.0)));
    assert_eq!(parameters.get("g"), Some(number(2.0)));
    assert_eq!(parameters.entries.len(), 2);
    parameters.remove("f");
    parameters.remove("h");
    assert_eq!(parameters.get("f"), None);
    assert_eq!(parameters.get("g"), Some(number(2.0)));
    assert_eq!(parameters.duplicate(), parameters);
}

#[test]
fn same_text_compares_characters() {
    assert!(same_text("main", "main"));
    assert!(!same_text("main", "mai"));
    assert!(!same_text("", "a"));
    assert!(same_text("", ""));
}

#[test]
fn an_expression_is_evaluated_as_a_sum_of_products() {
    assert_eq!(value("1 + 2 * 3", &[]), Some(7.0));
    assert_eq!(value("2 * 3 + 4 * 5", &[]), Some(26.0));
    assert_eq!(value("10 - 4 - 3", &[]), Some(3.0));
    assert_eq!(value("8 / 4 / 2", &[]), Some(1.0));
    assert_eq!(value("2 * (3 + 4)", &[]), Some(14.0));
    assert_eq!(value("-2 * -3", &[]), Some(6.0));
    assert_eq!(value("/4", &[]), Some(0.25));
    assert_eq!(value("+4 * *2", &[]), Some(8.0));
    assert_eq!(value("f * 2", &[("f", 1.5)]), Some(3.0));
    assert_eq!(value("0.1 + 0.2", &[]), Some(0.0 + 1.0 * 0.1 + 1.0 * 0.2));
}

#[test]
fn a_name_without_binding_has_no_value() {
    assert_eq!(value("g", &[("f", 1.0)]), None);
    assert_eq!(value("1 + g * 2", &[("f", 1.0)]), None);
    assert_eq!(value("null", &[("null", 1.0)]), None);
    assert_eq!(value("-(null)", &[]), None);
}

#[test]
fn a_literal_that_denotes_no_number_is_an_error() {
    let source = tokens("1 + 1.2.3 ");
    let (_, expression, _) = parse_expression(&source, 0, Vec::new(), Pending::Nothing).unwrap();
    assert_eq!(
        expression.value(&Parameters::new(), &arithmetic, &literal),
        Err(CompileError::IllegalLiteral("1.2.3", at(0, 4)))
    );
    assert_eq!(
        Term::Prefix(Prefix::Sub, Box::new(Term::Literal("x", at(0, 0)))).value(
            &Parameters::new(),
            &arithmetic,
            &literal
        ),
        Err(CompileError::IllegalLiteral("x", at(0, 0)))
    );
}

#[test]
fn a_note_has_its_ratio_as_frequency() {
    assert_eq!(score("main = 3/2 "), Ok(Score::Row(vec![note(&[("f", 1.5)])])));
    assert_eq!(
        score("main = 3, /4, / "),
        Ok(Score::Row(vec![note(&[("f", 3.0)]), note(&[("f", 0.25)]), note(&[("f", 1.0)])]))
    );
}

#[test]
fn names_stand_for_the_scores_defined_before() {
    let a = || Score::Row(vec![note(&[("f", 2.0)])]);
    let b = || Score::Row(vec![a(), Score::Column(vec![note(&[("f", 3.0)]), a()])]);
    assert_eq!(
        score("a = 2;\nb = a, [3, a];\nmain = b, {a} "),
        Ok(Score::Row(vec![b(), Score::Row(vec![a()])]))
    );
    assert_eq!(
        score("a = 2, a;\nmain = a "),
        Err(SourceError::Compiler(CompileError::UndefinedVariable("a", at(0, 7))))
    );
}

#[test]
fn the_last_definition_of_a_name_counts() {
    assert_eq!(score("main = 1;\nmain = 2 "), Ok(Score::Row(vec![note(&[("f", 2.0)])])));
    assert_eq!(
        score("a = 1;\na = a, 2;\nmain = a "),
        Ok(Score::Row(vec![Score::Row(vec![Score::Row(vec![note(&[("f", 1.0)])]), note(&[("f", 2.0)])])]))
    );
}

#[test]
fn functions_change_the_notes_that_meet_their_conditions() {
    assert_eq!(
        score("main = {1, 2, 3} | f = 2 : f = f * 10 : g = 1 "),
        Ok(Score::Row(vec![Score::Row(vec![
            note(&[("f", 1.0)]),
            note(&[("f", 20.0), ("g", 1.0)]),
            note(&[("f", 3.0)]),
        ])]))
    );
}

#[test]
fn a_function_without_conditions_changes_every_note() {
    assert_eq!(
        score("main = [1, 2] | : g = f + 1 : f = null "),
        Ok(Score::Row(vec![Score::Column(vec![note(&[("g", 2.0)]), note(&[("g", 3.0)])])]))
    );
}

#[test]
fn functions_are_applied_in_order() {
    assert_eq!(
        score("main = 1 | : f = f + 1 | f = 2 : f = f * 5 | f = 2 : f = 0 "),
        Ok(Score::Row(vec![note(&[("f", 10.0)])]))
    );
}

#[test]
fn a_condition_on_an_unbound_name_is_met_by_no_value() {
    assert_eq!(
        score("main = 1 | g = null : g = 7 | g = null : g = 8 | h = 1 : g = 9 "),
        Ok(Score::Row(vec![note(&[("f", 1.0), ("g", 7.0)])]))
    );
}

#[test]
fn conditions_have_a_tolerance() {
    assert_eq!(
        score("main = 1 | f = 1.000001 : g = 1 | f = 1.0001 : g = 2 "),
        Ok(Score::Row(vec![note(&[("f", 1.0), ("g", 1.0)])]))
    );
}

#[test]
fn map_applies_a_function_to_every_note() {
    let function = Function {
        conditions: Vec::new(),
        assignments: vec![("f", Expression {
            terms: vec![
                (Term::Identifier("f", at(0, 0)), Arithmetic::Mul),
                (Term::Literal("2", at(0, 0)), Arithmetic::Add),
            ],
        })],
    };
    let mut notes = Score::Row(vec![note(&[("f", 1.0)]), Score::Column(vec![note(&[("f", 2.0)])])]);
    assert_eq!(notes.map(&function, &arithmetic, &literal), Ok(()));
    assert_eq!(notes, Score::Row(vec![note(&[("f", 2.0)]), Score::Column(vec![note(&[("f", 4.0)])])]));
    assert_eq!(notes.duplicate(), notes);
}

#[test]
fn map_stops_at_the_first_error() {
    let function = Function {
        conditions: Vec::new(),
        assignments: vec![
            ("f", Expression { terms: vec![(Term::Literal("5", at(0, 0)), Arithmetic::Add)] }),
            ("g", Expression { terms: vec![(Term::Literal("x", at(0, 1)), Arithmetic::Add)] }),
        ],
    };
    let mut notes = Score::Row(vec![note(&[("f", 1.0)]), note(&[("f", 2.0)])]);
    assert_eq!(
        notes.map(&function, &arithmetic, &literal),
        Err(CompileError::IllegalLiteral("x", at(0, 1)))
    );
    assert_eq!(notes, Score::Row(vec![note(&[("f", 5.0)]), note(&[("f", 2.0)])]));
}

#[test]
fn a_score_needs_a_main_definition() {
    assert_eq!(score("a = 1 "), Err(SourceError::Compiler(CompileError::NoMainScore)));
    assert_eq!(compile(&Vec::new(), &arithmetic, &literal), Err(CompileError::NoMainScore));
}

#[test]
fn an_undefined_name_is_an_error() {
    assert_eq!(
        score("main = a "),
        Err(SourceError::Compiler(CompileError::UndefinedVariable("a", at(0, 7))))
    );
    assert_eq!(
        score("a = main;\nmain = 1 "),
        Err(SourceError::Compiler(CompileError::UndefinedVariable("main", at(0, 4))))
    );
}

#[test]
fn an_illegal_literal_in_a_note_is_an_error() {
    assert_eq!(
        score("main = 1.2.3/2 "),
        Err(SourceError::Compiler(CompileError::IllegalLiteral("1.2.3", at(0, 7))))
    );
    assert_eq!(
        score("main = 1/.. "),
        Err(SourceError::Compiler(CompileError::IllegalLiteral("..", at(0, 9))))
    );
    assert_eq!(
        score("main = ../.. "),
        Err(SourceError::Compiler(CompileError::IllegalLiteral("..", at(0, 7))))
    );
}

#[test]
fn the_first_step_that_fails_gives_the_error() {
    assert_eq!(
        score("main = ?"),
        Err(SourceError::Lexer(LexerError::UnexpectedCharacter('?', at(0, 7))))
    );
    assert_eq!(
        score("main 1 "),
        Err(SourceError::Parser(ParseError::UnexpectedToken("1", at(0, 5))))
    );
}
