use loxrs::ast::{Expr, Stmt};
use loxrs::parser::{ParseError, Parser};
use loxrs::scanner::Lexer;
use loxrs::token::{LiteralValue, Token, TokenType};

fn read(text: String) -> u64 {
    text.parse::<f64>().unwrap().to_bits()
}

fn tokens(source: &str) -> Vec<Token> {
    let mut lexer = Lexer::new(source.to_string());
    lexer.scan_tokens(&read);
    assert!(!lexer.had_error());
    lexer.tokens
}

fn parse(source: &str) -> (Vec<Stmt>, Vec<ParseError>) {
    let mut parser = Parser::new(tokens(source));
    let statements = parser.parse().unwrap();
    (statements, parser.errors)
}

fn clean(source: &str) -> Vec<Stmt> {
    let (statements, errors) = parse(source);
    assert_eq!(errors, vec![]);
    statements
}

fn messages(source: &str) -> Vec<(String, String)> {
    parse(source).1.into_iter().map(|e| (e.token.lexeme, e.message)).collect()
}

fn expression(source: &str) -> Expr {
    let mut statements = clean(source);
    assert_eq!(statements.len(), 1);
    match statements.remove(0) {
        Stmt::Expression { expression } => expression,
        other => panic!("no expression statement: {:?}", other),
    }
}

fn lit(x: f64) -> Expr {
    Expr::new_literal(LiteralValue::NumValue(x.to_bits()))
}

fn tok(kind: TokenType, lexeme: &str) -> Token {
    Token::new(kind, lexeme.to_string(), LiteralValue::Nil, 1)
}

fn var(name: &str) -> Expr {
    Expr::new_variable(tok(TokenType::Identifier, name))
}

#[test]
fn a_factor_binds_tighter_than_a_term() {
    assert_eq!(
        expression("1 + 2 * 3;"),
        Expr::new_binary(
            lit(1.0),
            tok(TokenType::Plus, "+"),
            Expr::new_binary(lit(2.0), tok(TokenType::Star, "*"), lit(3.0)),
        )
    );
    assert_eq!(
        expression("1 * 2 + 3;"),
        Expr::new_binary(
            Expr::new_binary(lit(1.0), tok(TokenType::Star, "*"), lit(2.0)),
            tok(TokenType::Plus, "+"),
            lit(3.0),
        )
    );
}

#[test]
fn operators_of_one_level_group_to_the_left() {
    assert_eq!(
        expression("10 - 2 - 3;"),
        Expr::new_binary(
            Expr::new_binary(lit(10.0), tok(TokenType::Minus, "-"), lit(2.0)),
            tok(TokenType::Minus, "-"),
            lit(3.0),
        )
    );
    assert_eq!(
        expression("8 / 4 * 2;"),
        Expr::new_binary(
            Expr::new_binary(lit(8.0), tok(TokenType::Slash, "/"), lit(4.0)),
            tok(TokenType::Star, "*"),
            lit(2.0),
        )
    );
}

#[test]
fn the_levels_from_comparison_to_or() {
    assert_eq!(
        expression("a or b and c == d < e;"),
        Expr::new_logical(
            var("a"),
            tok(TokenType::Or, "or"),
            Expr::new_logical(
                var("b"),
                tok(TokenType::And, "and"),
                Expr::new_binary(
                    var("c"),
                    tok(TokenType::EqualEqual, "=="),
                    Expr::new_binary(var("d"), tok(TokenType::Less, "<"), var("e")),
                ),
            ),
        )
    );
}

#[test]
fn parentheses_group() {
    assert_eq!(
        expression("(1 + 2) * 3;"),
        Expr::new_binary(
            Expr::new_grouing(Expr::new_binary(lit(1.0), tok(TokenType::Plus, "+"), lit(2.0))),
            tok(TokenType::Star, "*"),
            lit(3.0),
        )
    );
}

#[test]
fn unary_operators_nest() {
    assert_eq!(
        expression("!-a;"),
        Expr::new_unary(
            tok(TokenType::Bang, "!"),
            Expr::new_unary(tok(TokenType::Minus, "-"), var("a")),
        )
    );
}

#[test]
fn literals() {
    assert_eq!(expression("true;"), Expr::new_literal(LiteralValue::Boolean(true)));
    assert_eq!(expression("false;"), Expr::new_literal(LiteralValue::Boolean(false)));
    assert_eq!(expression("nil;"), Expr::new_literal(LiteralValue::Nil));
    assert_eq!(
        expression("\"s\";"),
        Expr::new_literal(LiteralValue::StringValue("s".to_string()))
    );
    assert_eq!(expression("1.5;"), lit(1.5));
}

#[test]
fn assignment_groups_to_the_right() {
    assert_eq!(
        expression("a = b = 1;"),
        Expr::new_assign(
            tok(TokenType::Identifier, "a"),
            Expr::new_assign(tok(TokenType::Identifier, "b"), lit(1.0)),
        )
    );
}

#[test]
fn only_a_name_can_be_assigned() {
    assert_eq!(
        messages("1 = 2;"),
        vec![("=".to_string(), "Invalid assignment target.".to_string())]
    );
    assert_eq!(
        messages("(a) = 2;"),
        vec![("=".to_string(), "Invalid assignment target.".to_string())]
    );
    assert_eq!(
        messages("a + b = 2;"),
        vec![("=".to_string(), "Invalid assignment target.".to_string())]
    );
}

#[test]
fn statements_of_each_kind() {
    assert_eq!(clean("print 1;"), vec![Stmt::new_print(lit(1.0))]);
    assert_eq!(
        clean("var a;"),
        vec![Stmt::new_variable(tok(TokenType::Identifier, "a"), None)]
    );
    assert_eq!(
        clean("var a = 1;"),
        vec![Stmt::new_variable(tok(TokenType::Identifier, "a"), Some(lit(1.0)))]
    );
    assert_eq!(
        clean("{ print 1; { } }"),
        vec![Stmt::new_block(vec![Stmt::new_print(lit(1.0)), Stmt::new_block(vec![])])]
    );
    assert_eq!(
        clean("while (a) print 1;"),
        vec![Stmt::new_while(var("a"), Stmt::new_print(lit(1.0)))]
    );
    assert_eq!(
        clean("if (a) print 1;"),
        vec![Stmt::new_if(var("a"), Stmt::new_print(lit(1.0)), None)]
    );
    assert_eq!(
        clean("if (a) print 1; else print 2;"),
        vec![Stmt::new_if(var("a"), Stmt::new_print(lit(1.0)), Some(Stmt::new_print(lit(2.0))))]
    );
    assert_eq!(clean(""), vec![]);
}

#[test]
fn an_else_belongs_to_the_nearest_if() {
    assert_eq!(
        clean("if (a) if (b) print 1; else print 2;"),
        vec![Stmt::new_if(
            var("a"),
            Stmt::new_if(var("b"), Stmt::new_print(lit(1.0)), Some(Stmt::new_print(lit(2.0)))),
            None,
        )]
    );
}

#[test]
fn a_for_loop_is_a_block_of_initializer_and_while() {
    let increment = Expr::new_assign(
        tok(TokenType::Identifier, "i"),
        Expr::new_binary(var("i"), tok(TokenType::Plus, "+"), lit(1.0)),
    );
    assert_eq!(
        clean("for (var i = 0; i < 3; i = i + 1) print i;"),
        vec![Stmt::new_block(vec![
            Stmt::new_variable(tok(TokenType::Identifier, "i"), Some(lit(0.0))),
            Stmt::new_while(
                Expr::new_binary(var("i"), tok(TokenType::Less, "<"), lit(3.0)),
                Stmt::new_block(vec![
                    Stmt::new_print(var("i")),
                    Stmt::new_expression(increment),
                ]),
            ),
        ])]
    );
}

#[test]
fn a_for_loop_without_condition_and_increment() {
    assert_eq!(
        clean("for (i = 0;;) print i;"),
        vec![Stmt::new_block(vec![
            Stmt::new_expression(Expr::new_assign(tok(TokenType::Identifier, "i"), lit(0.0))),
            Stmt::new_while(
                Expr::new_literal(LiteralValue::Boolean(true)),
                Stmt::new_print(var("i")),
            ),
        ])]
    );
    assert_eq!(
        clean("for (i = 0; a;) print i;"),
        vec![Stmt::new_block(vec![
            Stmt::new_expression(Expr::new_assign(tok(TokenType::Identifier, "i"), lit(0.0))),
            Stmt::new_while(var("a"), Stmt::new_print(var("i"))),
        ])]
    );
    let (statements, errors) = parse("for (;;) print 1;");
    assert_eq!(statements, vec![Stmt::new_print(lit(1.0))]);
    let found: Vec<(String, String)> =
        errors.into_iter().map(|e| (e.token.lexeme, e.message)).collect();
    assert_eq!(
        found,
        vec![
            (";".to_string(), "Expect expression.".to_string()),
            (";".to_string(), "Expect expression.".to_string()),
            (")".to_string(), "Expect expression.".to_string()),
        ]
    );
}

#[test]
fn missing_punctuation_is_an_error_with_its_message() {
    let at_end = |source: &str| -> Vec<(TokenType, String)> {
        parse(source).1.into_iter().map(|e| (e.token.token_type, e.message)).collect()
    };
    assert_eq!(at_end("print 1"), vec![(TokenType::Eof, "Expect ';' after value.".to_string())]);
    assert_eq!(at_end("1"), vec![(TokenType::Eof, "Expect ';' after expression.".to_string())]);
    assert_eq!(
        at_end("var a = 1"),
        vec![(TokenType::Eof, "Expect ';' after variable declaration.".to_string())]
    );
    assert_eq!(
        at_end("var a"),
        vec![(TokenType::Eof, "Expect ';' after variable declaration.".to_string())]
    );
    assert_eq!(at_end("var"), vec![(TokenType::Eof, "Expect variable name.".to_string())]);
    assert_eq!(at_end("(1"), vec![(TokenType::Eof, "Expect ')' after expression.".to_string())]);
    assert_eq!(at_end("{ print 1;"), vec![(TokenType::Eof, "Expect '}' after block.".to_string())]);
    assert_eq!(
        messages("if a) print 1;"),
        vec![("a".to_string(), "Expect '(' after 'if'".to_string())]
    );
    assert_eq!(
        messages("if (a print 1;"),
        vec![("print".to_string(), "Expect ')' after if condition.".to_string())]
    );
    assert_eq!(
        messages("while a) print 1;"),
        vec![("a".to_string(), "Expect '(' after 'while'.".to_string())]
    );
    assert_eq!(
        messages("while (a print 1;"),
        vec![("print".to_string(), "Expect ')' after condition. ".to_string())]
    );
    assert_eq!(
        messages("for var i = 0; print 1;"),
        vec![("var".to_string(), "Expect '(' after 'for'.".to_string())]
    );
    assert_eq!(
        messages("for (var i = 0; a b) print 1;"),
        vec![("b".to_string(), "Expect ';' after loop condition.".to_string())]
    );
    assert_eq!(
        messages("for (var i = 0; a; b c) print 1;"),
        vec![("c".to_string(), "Expect ')' after for clauses.".to_string())]
    );
    assert_eq!(messages("+;"), vec![("+".to_string(), "Expect expression.".to_string())]);
}

#[test]
fn after_an_error_parsing_goes_on_at_the_next_statement() {
    let (statements, errors) = parse("var = 1; print 2; 3 +; var b; * print 4;");
    assert_eq!(
        statements,
        vec![
            Stmt::new_print(lit(2.0)),
            Stmt::new_variable(tok(TokenType::Identifier, "b"), None),
            Stmt::new_print(lit(4.0)),
        ]
    );
    let found: Vec<(String, String)> =
        errors.into_iter().map(|e| (e.token.lexeme, e.message)).collect();
    assert_eq!(
        found,
        vec![
            ("=".to_string(), "Expect variable name.".to_string()),
            (";".to_string(), "Expect expression.".to_string()),
            ("*".to_string(), "Expect expression.".to_string()),
        ]
    );
}

#[test]
fn a_declaration_given_up_inside_a_block_leaves_the_block_standing() {
    let (statements, errors) = parse("{ var = 1; print 2; } print 3;");
    assert_eq!(
        statements,
        vec![Stmt::new_block(vec![Stmt::new_print(lit(2.0))]), Stmt::new_print(lit(3.0))]
    );
    assert_eq!(errors.len(), 1);
    assert_eq!(errors[0].message, "Expect variable name.");
}

#[test]
fn words_without_a_rule_are_no_expression() {
    assert_eq!(
        messages("fun f() {}"),
        vec![("fun".to_string(), "Expect expression.".to_string())]
    );
    assert_eq!(messages("return 1;"), vec![("return".to_string(), "Expect expression.".to_string())]);
}

#[test]
fn tokens_without_the_end_token_are_refused() {
    let mut parser = Parser::new(vec![]);
    let error = parser.parse().unwrap_err();
    assert_eq!(error.message, "Expect end of input.");
    assert_eq!(error.token, Token::new(TokenType::Eof, String::new(), LiteralValue::Nil, 0));
    let mut parser = Parser::new(vec![tok(TokenType::Nil, "nil"), tok(TokenType::SemiColon, ";")]);
    assert!(parser.parse().is_err());
    assert!(!parser.had_error());
    assert_eq!(parser.current, 0);
}

#[test]
fn the_parser_stops_at_the_first_end_token() {
    let mut all = tokens("print 1;");
    all.extend(tokens("print 2;"));
    let mut parser = Parser::new(all);
    assert_eq!(parser.parse().unwrap(), vec![Stmt::new_print(lit(1.0))]);
    assert_eq!(parser.current, 3);
}
