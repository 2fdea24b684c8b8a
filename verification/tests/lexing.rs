use soundcalc::error::Error;
use soundcalc::lexer::{characters, Lexer};
use soundcalc::pos::{CharPos, Pos};
use soundcalc::token::{Token, TokenName};

fn tokens_of(lexer: &mut Lexer) -> Vec<Token> {
    let mut tokens = Vec::new();
    while let Some(token) = lexer.next() {
        tokens.push(token);
    }
    tokens
}

fn kinds(line: &str) -> Vec<(TokenName, String)> {
    let mut lexer = Lexer::new(false);
    lexer.read_line(line).unwrap();
    tokens_of(&mut lexer).into_iter().map(|token| (token.name, token.lexeme)).collect()
}

fn word(name: TokenName, lexeme: &str) -> (TokenName, String) {
    (name, lexeme.to_string())
}

#[test]
fn a_new_lexer_has_no_token() {
    let mut lexer = Lexer::new(true);
    assert!(lexer.prompt());
    assert_eq!(lexer.next(), None);
    assert_eq!(lexer.end_of_input(), Ok(()));
    assert!(!Lexer::new(false).prompt());
}

#[test]
fn characters_are_those_of_the_text() {
    assert_eq!(characters("a𠮷b"), vec!['a', '𠮷', 'b']);
    assert_eq!(characters(""), Vec::<char>::new());
}

#[test]
fn a_line_is_cut_into_tokens_with_their_places() {
    let mut lexer = Lexer::new(false);
    lexer.read_line("ab + 12;\n").unwrap();
    let tokens = tokens_of(&mut lexer);
    assert_eq!(
        tokens,
        vec![
            Token {
                name: TokenName::Identifier { dollar: false },
                lexeme: "ab".to_string(),
                pos: Pos::new(CharPos::new(1, 0), CharPos::new(1, 2)),
            },
            Token {
                name: TokenName::Plus,
                lexeme: "+".to_string(),
                pos: Pos::new(CharPos::new(1, 3), CharPos::new(1, 4)),
            },
            Token {
                name: TokenName::Number { scientific: false },
                lexeme: "12".to_string(),
                pos: Pos::new(CharPos::new(1, 5), CharPos::new(1, 7)),
            },
            Token {
                name: TokenName::Semicolon,
                lexeme: ";".to_string(),
                pos: Pos::new(CharPos::new(1, 7), CharPos::new(1, 8)),
            },
        ]
    );
}

#[test]
fn lines_are_counted() {
    let mut lexer = Lexer::new(false);
    lexer.read_line("a\n").unwrap();
    lexer.read_line("\n").unwrap();
    lexer.read_line("b\n").unwrap();
    let tokens = tokens_of(&mut lexer);
    assert_eq!(tokens.len(), 2);
    assert_eq!(tokens[0].pos.into_inner(), ((1, 0), (1, 1)));
    assert_eq!(tokens[1].pos.into_inner(), ((3, 0), (3, 1)));
}

#[test]
fn tokens_are_handed_out_first_in_first_out() {
    let mut lexer = Lexer::new(false);
    lexer.read_line("a b\n").unwrap();
    lexer.read_line("c\n").unwrap();
    assert_eq!(lexer.next().unwrap().lexeme, "a");
    assert_eq!(lexer.next().unwrap().lexeme, "b");
    assert_eq!(lexer.next().unwrap().lexeme, "c");
    assert_eq!(lexer.next(), None);
}

#[test]
fn double_operators_are_one_token() {
    assert_eq!(
        kinds("== != && || << >> = ! & | < >\n"),
        vec![
            word(TokenName::DoubleEqual, "=="),
            word(TokenName::ExclamationEqual, "!="),
            word(TokenName::DoubleAmpersand, "&&"),
            word(TokenName::DoubleBar, "||"),
            word(TokenName::DoubleLess, "<<"),
            word(TokenName::DoubleGreater, ">>"),
            word(TokenName::Equal, "="),
            word(TokenName::Exclamation, "!"),
            word(TokenName::Ampersand, "&"),
            word(TokenName::Bar, "|"),
            word(TokenName::Less, "<"),
            word(TokenName::Greater, ">"),
        ]
    );
}

#[test]
fn single_characters_are_tokens() {
    assert_eq!(
        kinds("+-*^/:;,.(){}[]\n"),
        vec![
            word(TokenName::Plus, "+"),
            word(TokenName::Minus, "-"),
            word(TokenName::Asterisk, "*"),
            word(TokenName::Circumflex, "^"),
            word(TokenName::Slash, "/"),
            word(TokenName::Colon, ":"),
            word(TokenName::Semicolon, ";"),
            word(TokenName::Comma, ","),
            word(TokenName::Dot, "."),
            word(TokenName::OpeningParen, "("),
            word(TokenName::ClosingParen, ")"),
            word(TokenName::OpeningBrace, "{"),
            word(TokenName::ClosingBrace, "}"),
            word(TokenName::OpeningBracket, "["),
            word(TokenName::ClosingBracket, "]"),
        ]
    );
}

#[test]
fn identifiers_take_letters_digits_and_underscores() {
    assert_eq!(
        kinds("_a1 $x9 B_\n"),
        vec![
            word(TokenName::Identifier { dollar: false }, "_a1"),
            word(TokenName::Identifier { dollar: true }, "$x9"),
            word(TokenName::Identifier { dollar: false }, "B_"),
        ]
    );
}

#[test]
fn numbers_take_digits_dots_and_exponents() {
    assert_eq!(
        kinds("1 2.5 .5 1e5 2E-3 3e+4 1a\n"),
        vec![
            word(TokenName::Number { scientific: false }, "1"),
            word(TokenName::Number { scientific: false }, "2.5"),
            word(TokenName::Number { scientific: false }, ".5"),
            word(TokenName::Number { scientific: true }, "1e5"),
            word(TokenName::Number { scientific: true }, "2E-3"),
            word(TokenName::Number { scientific: true }, "3e+4"),
            word(TokenName::Number { scientific: false }, "1"),
            word(TokenName::Identifier { dollar: false }, "a"),
        ]
    );
}

#[test]
fn a_string_keeps_its_quotes_and_escapes() {
    assert_eq!(
        kinds("\"a b\" \"x\\\"y\" \"\"\n"),
        vec![
            word(TokenName::String, "\"a b\""),
            word(TokenName::String, "\"x\\\"y\""),
            word(TokenName::String, "\"\""),
        ]
    );
}

#[test]
fn a_token_cut_off_by_the_end_of_the_line_is_dropped() {
    assert_eq!(kinds("a b"), vec![word(TokenName::Identifier { dollar: false }, "a")]);
    assert_eq!(kinds(""), vec![]);
}

#[test]
fn a_line_comment_ends_the_line() {
    assert_eq!(
        kinds("a // b c\n"),
        vec![word(TokenName::Identifier { dollar: false }, "a")]
    );
}

#[test]
fn block_comments_nest_and_span_lines() {
    let mut lexer = Lexer::new(false);
    lexer.read_line("a /* b /* c\n").unwrap();
    lexer.read_line("d */ e\n").unwrap();
    lexer.read_line("f */ g\n").unwrap();
    let tokens: Vec<String> = tokens_of(&mut lexer).into_iter().map(|token| token.lexeme).collect();
    assert_eq!(tokens, vec!["a".to_string(), "g".to_string()]);
    assert_eq!(lexer.end_of_input(), Ok(()));
}

#[test]
fn a_line_comment_inside_a_block_comment_ends_the_line() {
    let mut lexer = Lexer::new(false);
    lexer.read_line("/* a // */ b\n").unwrap();
    lexer.read_line("*/ c\n").unwrap();
    let tokens: Vec<String> = tokens_of(&mut lexer).into_iter().map(|token| token.lexeme).collect();
    assert_eq!(tokens, vec!["c".to_string()]);
}

#[test]
fn an_open_comment_at_the_end_of_the_input_is_an_error() {
    let mut lexer = Lexer::new(false);
    lexer.read_line("ab /* c\n").unwrap();
    assert_eq!(lexer.end_of_input(), Err(Error::UnterminatedComment(CharPos::new(1, 3))));
    assert_eq!(lexer.end_of_input(), Ok(()));
}

#[test]
fn an_unknown_character_is_an_error() {
    let mut lexer = Lexer::new(false);
    assert_eq!(lexer.read_line("a # b\n"), Err(Error::UnexpectedCharacter('#', CharPos::new(1, 2))));
    assert_eq!(lexer.next().unwrap().lexeme, "a");
    assert_eq!(lexer.next(), None);
}

#[test]
fn an_exponent_mark_wants_a_sign_or_a_digit() {
    let mut lexer = Lexer::new(false);
    assert_eq!(
        lexer.read_line("1ex\n"),
        Err(Error::UnexpectedCharacterAfterE('x', 'e', CharPos::new(1, 1)))
    );
    let mut lexer = Lexer::new(false);
    assert_eq!(lexer.read_line("1E"), Err(Error::UnexpectedEndOfLineAfterE('E', CharPos::new(1, 1))));
}
