use loxrs::scanner::Lexer;
use loxrs::token::{LiteralValue, Token, TokenType};

fn read(text: String) -> u64 {
    text.parse::<f64>().unwrap().to_bits()
}

fn scan(source: &str) -> Lexer {
    let mut lexer = Lexer::new(source.to_string());
    lexer.scan_tokens(&read);
    lexer
}

fn kinds(source: &str) -> Vec<TokenType> {
    scan(source).tokens.iter().map(|t| t.token_type).collect()
}

fn lexemes(source: &str) -> Vec<String> {
    scan(source).tokens.iter().map(|t| t.lexeme.clone()).collect()
}

#[test]
fn an_empty_program_is_the_end_token() {
    let lexer = scan("");
    assert_eq!(
        lexer.tokens,
        vec![Token::new(TokenType::Eof, String::new(), LiteralValue::Nil, 1)]
    );
    assert!(!lexer.had_error());
}

#[test]
fn single_characters_are_tokens() {
    assert_eq!(
        kinds("(){},.-+;*/"),
        vec![
            TokenType::LeftParen,
            TokenType::RightParen,
            TokenType::LeftBrace,
            TokenType::RightBrace,
            TokenType::Comma,
            TokenType::Dot,
            TokenType::Minus,
            TokenType::Plus,
            TokenType::SemiColon,
            TokenType::Star,
            TokenType::Slash,
            TokenType::Eof,
        ]
    );
}

#[test]
fn operators_of_one_and_two_characters() {
    assert_eq!(
        kinds("! != = == < <= > >="),
        vec![
            TokenType::Bang,
            TokenType::BangEqual,
            TokenType::Equal,
            TokenType::EqualEqual,
            TokenType::Less,
            TokenType::LessEqual,
            TokenType::Greater,
            TokenType::GreaterEqual,
            TokenType::Eof,
        ]
    );
    assert_eq!(lexemes("!===<"), vec!["!=", "==", "<", ""]);
    assert_eq!(lexemes("=!"), vec!["=", "!", ""]);
}

#[test]
fn comments_run_to_the_end_of_the_line() {
    assert_eq!(kinds("1 // two three\n4"), vec![TokenType::Number, TokenType::Number, TokenType::Eof]);
    assert_eq!(kinds("// only a comment"), vec![TokenType::Eof]);
    assert_eq!(kinds("/ /"), vec![TokenType::Slash, TokenType::Slash, TokenType::Eof]);
    let lexer = scan("// one\n// two\nx");
    assert_eq!(lexer.tokens[0].line, 3);
}

#[test]
fn blanks_separate_and_lines_are_counted() {
    let lexer = scan("a \t\r\n b\n\n c");
    let lines: Vec<i32> = lexer.tokens.iter().map(|t| t.line).collect();
    assert_eq!(lines, vec![1, 2, 4, 4]);
    assert_eq!(kinds("a\0b"), vec![TokenType::Identifier, TokenType::Identifier, TokenType::Eof]);
}

#[test]
fn strings_keep_their_text_without_the_quotes() {
    let lexer = scan("\"hi there\"");
    assert_eq!(
        lexer.tokens[0],
        Token::new(
            TokenType::StringToken,
            "\"hi there\"".to_string(),
            LiteralValue::StringValue("hi there".to_string()),
            1
        )
    );
    let lexer = scan("\"\"");
    assert_eq!(lexer.tokens[0].literal, LiteralValue::StringValue(String::new()));
    let lexer = scan("\"h\u{e9}\u{4e16}\" x");
    assert_eq!(lexer.tokens[0].literal, LiteralValue::StringValue("h\u{e9}\u{4e16}".to_string()));
    assert_eq!(lexer.tokens[1].lexeme, "x");
}

#[test]
fn a_string_may_span_lines() {
    let lexer = scan("\"a\nb\" c");
    assert_eq!(lexer.tokens[0].literal, LiteralValue::StringValue("a\nb".to_string()));
    assert_eq!(lexer.tokens[0].line, 2);
    assert_eq!(lexer.tokens[1].line, 2);
}

#[test]
fn an_open_string_is_reported_and_gives_no_token() {
    let lexer = scan("1 \"open\nstill");
    assert_eq!(kinds("1 \"open\nstill"), vec![TokenType::Number, TokenType::Eof]);
    assert!(lexer.had_error());
    assert_eq!(lexer.errors, vec!["[ 2] Error : Unterminated string.".to_string()]);
}

#[test]
fn numbers_have_a_whole_part_and_may_have_a_fraction() {
    let lexer = scan("12 3.25 7. .5 1.2.3");
    let expected = vec![
        (TokenType::Number, "12"),
        (TokenType::Number, "3.25"),
        (TokenType::Number, "7"),
        (TokenType::Dot, "."),
        (TokenType::Dot, "."),
        (TokenType::Number, "5"),
        (TokenType::Number, "1.2"),
        (TokenType::Dot, "."),
        (TokenType::Number, "3"),
        (TokenType::Eof, ""),
    ];
    let found: Vec<(TokenType, &str)> =
        lexer.tokens.iter().map(|t| (t.token_type, t.lexeme.as_str())).collect();
    assert_eq!(found, expected);
    assert_eq!(lexer.tokens[0].literal, LiteralValue::NumValue(12.0f64.to_bits()));
    assert_eq!(lexer.tokens[1].literal, LiteralValue::NumValue(3.25f64.to_bits()));
    assert_eq!(lexer.tokens[6].literal, LiteralValue::NumValue(1.2f64.to_bits()));
}

#[test]
fn a_number_literal_is_what_the_reader_makes_of_its_text() {
    let mut lexer = Lexer::new("10 2.5".to_string());
    lexer.scan_tokens(&|text: String| text.len() as u64);
    assert_eq!(lexer.tokens[0].literal, LiteralValue::NumValue(2));
    assert_eq!(lexer.tokens[1].literal, LiteralValue::NumValue(3));
}

#[test]
fn words_are_names_or_reserved() {
    assert_eq!(
        kinds("and class else false for fun if nil or print return super this true var while"),
        vec![
            TokenType::And,
            TokenType::Class,
            TokenType::Else,
            TokenType::False,
            TokenType::For,
            TokenType::Fun,
            TokenType::If,
            TokenType::Nil,
            TokenType::Or,
            TokenType::Print,
            TokenType::Return,
            TokenType::Super,
            TokenType::This,
            TokenType::True,
            TokenType::Var,
            TokenType::While,
            TokenType::Eof,
        ]
    );
    assert_eq!(
        kinds("_a a1 And orchid nil_ x_y2"),
        vec![
            TokenType::Identifier,
            TokenType::Identifier,
            TokenType::Identifier,
            TokenType::Identifier,
            TokenType::Identifier,
            TokenType::Identifier,
            TokenType::Eof,
        ]
    );
    assert_eq!(lexemes("foo_1+bar"), vec!["foo_1", "+", "bar", ""]);
    assert_eq!(scan("foo").tokens[0].literal, LiteralValue::Nil);
}

#[test]
fn an_unknown_character_is_reported_and_scanning_goes_on() {
    let lexer = scan("a # b\n$ c");
    assert_eq!(
        lexer.errors,
        vec![
            "[ 1] Error : Unexpected character.".to_string(),
            "[ 2] Error : Unexpected character.".to_string(),
        ]
    );
    assert_eq!(lexemes("a # b\n$ c"), vec!["a", "b", "c", ""]);
}

#[test]
fn the_end_token_stands_on_the_last_line() {
    let lexer = scan("a\nb\n");
    assert_eq!(lexer.tokens[2], Token::new(TokenType::Eof, String::new(), LiteralValue::Nil, 3));
}

#[test]
fn the_character_tests() {
    assert!(Lexer::is_digit('0') && Lexer::is_digit('9') && !Lexer::is_digit('a'));
    assert!(!Lexer::is_digit('/') && !Lexer::is_digit(':'));
    assert!(Lexer::is_alpha('a') && Lexer::is_alpha('Z') && Lexer::is_alpha('_'));
    assert!(!Lexer::is_alpha('1') && !Lexer::is_alpha('[') && !Lexer::is_alpha('\u{e9}'));
    assert!(Lexer::is_alphanumeric('q') && Lexer::is_alphanumeric('7'));
    assert!(!Lexer::is_alphanumeric('-'));
}

#[test]
fn scanning_the_joined_lexemes_gives_the_same_tokens() {
    let source = "var a1 = (b + 2.5) * \"s // t\nu\"; // note\nif (a1 >= 3 and !c) { print a1 / 2; } x.y";
    let first = scan(source);
    assert!(!first.had_error());
    let mut joined = String::new();
    for token in first.tokens.iter() {
        joined.push_str(&token.lexeme);
        joined.push(' ');
    }
    let second = scan(&joined);
    assert!(!second.had_error());
    let strip = |lexer: &Lexer| -> Vec<(TokenType, String, LiteralValue)> {
        lexer.tokens.iter().map(|t| (t.token_type, t.lexeme.clone(), t.literal.clone())).collect()
    };
    assert_eq!(strip(&first), strip(&second));
}
