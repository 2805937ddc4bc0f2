use loxrs::ast::{Expr, Stmt};
use loxrs::interpreter::{Interpreter, InterpreterError};
use loxrs::lox::{Lox, Outcome};
use loxrs::number::ArithOp;
use loxrs::token::{
    FunctionEnum, LiteralValue, NativeFunctions, Token, TokenType, UserDefinedFunction,
};

fn read(text: String) -> u64 {
    text.parse::<f64>().unwrap().to_bits()
}

fn arith(op: ArithOp, a: u64, b: u64) -> u64 {
    let (x, y) = (f64::from_bits(a), f64::from_bits(b));
    let r = match op {
        ArithOp::Add => x + y,
        ArithOp::Sub => x - y,
        ArithOp::Mul => x * y,
        ArithOp::Div => x / y,
    };
    r.to_bits()
}

fn num(x: f64) -> LiteralValue {
    LiteralValue::NumValue(x.to_bits())
}

fn text(s: &str) -> LiteralValue {
    LiteralValue::StringValue(s.to_string())
}

fn run(source: &str) -> Outcome {
    Lox::new().run(source.to_string(), &read, &arith)
}

fn value(source: &str) -> LiteralValue {
    let outcome = run(source);
    assert_eq!(outcome.reports, Vec::<String>::new());
    outcome.result.unwrap()
}

fn failure(source: &str) -> String {
    let outcome = run(source);
    assert_eq!(outcome.reports, Vec::<String>::new());
    outcome.result.unwrap_err().msg
}

fn token(kind: TokenType, lexeme: &str) -> Token {
    Token::new(kind, lexeme.to_string(), LiteralValue::Nil, 1)
}

fn name(lexeme: &str) -> Token {
    token(TokenType::Identifier, lexeme)
}

fn var(lexeme: &str) -> Expr {
    Expr::new_variable(name(lexeme))
}

fn lit(x: f64) -> Expr {
    Expr::new_literal(num(x))
}

fn binary(left: Expr, kind: TokenType, lexeme: &str, right: Expr) -> Expr {
    Expr::new_binary(left, token(kind, lexeme), right)
}

fn call(callee: Expr, arguments: Vec<Expr>) -> Expr {
    Expr::new_call(callee, token(TokenType::RightParen, ")"), arguments)
}

fn ret(value: Expr) -> Stmt {
    Stmt::new_return(token(TokenType::Return, "return"), Some(value))
}

fn interpret(statements: Vec<Stmt>) -> (Result<LiteralValue, InterpreterError>, Interpreter) {
    let mut interpreter = Interpreter::new();
    let result = interpreter.interpret(&statements, &arith);
    (result, interpreter)
}

#[test]
fn multiplication_binds_tighter_than_addition() {
    assert_eq!(value("1 + 2 * 3;"), num(7.0));
    assert_eq!(value("(1 + 2) * 3;"), num(9.0));
}

#[test]
fn subtraction_associates_to_the_left() {
    assert_eq!(value("10 - 2 - 3;"), num(5.0));
}

#[test]
fn division_and_comparison() {
    assert_eq!(value("7 / 2;"), num(3.5));
    assert_eq!(value("1 < 2;"), LiteralValue::Boolean(true));
    assert_eq!(value("2 <= 2;"), LiteralValue::Boolean(true));
    assert_eq!(value("1 > 2;"), LiteralValue::Boolean(false));
    assert_eq!(value("3 >= 4;"), LiteralValue::Boolean(false));
    assert_eq!(value("1 == 1;"), LiteralValue::Boolean(true));
    assert_eq!(value("1 != 1;"), LiteralValue::Boolean(false));
    assert_eq!(value("true == 1;"), LiteralValue::Boolean(true));
}

#[test]
fn strings_are_joined_and_repeated() {
    assert_eq!(value("\"a\" + \"b\";"), text("ab"));
    assert_eq!(value("\"ab\" * 3;"), text("ababab"));
    assert_eq!(value("\"ab\" * 2.9;"), text("abab"));
    assert_eq!(value("\"ab\" * 0;"), text(""));
    assert_eq!(value("\"ab\" * true;"), text("ab"));
}

#[test]
fn booleans_count_as_numbers_in_arithmetic() {
    assert_eq!(value("true + 1;"), num(2.0));
    assert_eq!(value("1 + true;"), num(2.0));
    assert_eq!(value("false * 5;"), num(0.0));
    assert_eq!(value("3 - true;"), num(2.0));
}

#[test]
fn mixed_operands_are_refused() {
    assert_eq!(failure("1 + \"a\";"), "Invalid Addition");
    assert_eq!(failure("\"a\" - 1;"), "Invalid Subtraction");
    assert_eq!(failure("nil * 2;"), "Invalid Multiplication");
    assert_eq!(failure("2 * \"ab\";"), "Invalid Multiplication");
    assert_eq!(failure("\"a\" / 2;"), "Invalid Division");
    assert_eq!(failure("\"a\" < \"b\";"), "Invalid Less Comparison");
    assert_eq!(failure("nil == nil;"), "Invalid Equality Comparison");
    assert_eq!(failure("nil != 1;"), "Invalid Inequality Comparison");
    assert_eq!(failure("\"a\" > 1;"), "Invalid Greater Comparison");
    assert_eq!(failure("\"a\" >= 1;"), "Invalid Greater/Equal Comparison");
    assert_eq!(failure("\"a\" <= 1;"), "Invalid Less/Equal Comparison");
    assert_eq!(failure("-\"a\";"), "Invalid Negative Operation");
    assert_eq!(failure("-true;"), "Invalid Negative Operation");
}

#[test]
fn unary_operators() {
    assert_eq!(value("-3;"), num(-3.0));
    assert_eq!(value("--3;"), num(3.0));
    assert_eq!(value("!true;"), LiteralValue::Boolean(false));
    assert_eq!(value("!nil;"), LiteralValue::Boolean(true));
    assert_eq!(value("!0;"), LiteralValue::Boolean(false));
    assert_eq!(value("!\"\";"), LiteralValue::Boolean(false));
}

#[test]
fn division_by_zero_is_no_error() {
    assert_eq!(value("1 / 0;"), num(f64::INFINITY));
    assert_eq!(failure("0 / 0 < 1;"), "Invalid Less Comparison");
}

#[test]
fn logical_operators_do_not_evaluate_a_decided_right_side() {
    assert_eq!(value("false and (1 / 0);"), LiteralValue::Boolean(false));
    assert_eq!(value("true or (1 / 0);"), LiteralValue::Boolean(true));
    assert_eq!(value("false and missing;"), LiteralValue::Boolean(false));
    assert_eq!(value("true or missing;"), LiteralValue::Boolean(true));
    assert_eq!(value("nil or \"x\";"), text("x"));
    assert_eq!(value("1 and 2;"), num(2.0));
    assert_eq!(failure("true and missing;"), "missing not defined");
}

#[test]
fn a_variable_of_a_block_ends_with_the_block() {
    assert_eq!(failure("var a = 1; { var b = 2; } b;"), "b not defined");
    assert_eq!(value("var a = 1; { var b = 2; } a;"), num(1.0));
}

#[test]
fn a_block_shadows_only_inside_itself() {
    let outcome = run("var a = 1; { var a = 2; print a; } print a;");
    assert_eq!(outcome.printed, vec![num(2.0), num(1.0)]);
    let outcome = run("var a = 1; { a = 2; } print a;");
    assert_eq!(outcome.printed, vec![num(2.0)]);
}

#[test]
fn variables_are_declared_assigned_and_redeclared() {
    assert_eq!(value("var a; a;"), LiteralValue::Nil);
    assert_eq!(value("var a = 1; a = a + 1;"), num(2.0));
    assert_eq!(value("var a = 1; var a = \"x\"; a;"), text("x"));
    assert_eq!(value("var a = 1; var b = a = 3; a + b;"), num(6.0));
    assert_eq!(failure("a = 1;"), "Variable a not yet declared");
    assert_eq!(failure("a;"), "a not defined");
}

#[test]
fn conditionals_take_one_branch() {
    assert_eq!(run("if (1 < 2) print 1; else print 2;").printed, vec![num(1.0)]);
    assert_eq!(run("if (1 > 2) print 1; else print 2;").printed, vec![num(2.0)]);
    assert_eq!(run("if (nil) print 1;").printed, vec![]);
    assert_eq!(run("if (0) print 1;").printed, vec![num(1.0)]);
    assert_eq!(run("if (\"\") print 1;").printed, vec![num(1.0)]);
}

#[test]
fn loops_run_while_the_condition_holds() {
    let outcome = run("var i = 0; while (i < 3) { print i; i = i + 1; }");
    assert_eq!(outcome.printed, vec![num(0.0), num(1.0), num(2.0)]);
    let outcome = run("for (var i = 0; i < 3; i = i + 1) print i * 2;");
    assert_eq!(outcome.printed, vec![num(0.0), num(2.0), num(4.0)]);
    let outcome = run("var s = 0; for (var i = 1; i <= 100; i = i + 1) s = s + i; print s;");
    assert_eq!(outcome.printed, vec![num(5050.0)]);
}

#[test]
fn the_value_of_a_run_is_that_of_its_last_statement() {
    assert_eq!(value("1; 2;"), num(2.0));
    assert_eq!(value("print 1;"), LiteralValue::Nil);
    assert_eq!(value(""), LiteralValue::Nil);
    assert_eq!(value("{ 1; }"), LiteralValue::Nil);
}

#[test]
fn a_failure_stops_the_run_and_keeps_what_was_done() {
    let outcome = run("print 1; print nil + 1; print 2;");
    assert_eq!(outcome.printed, vec![num(1.0)]);
    assert_eq!(outcome.result.unwrap_err().msg, "Invalid Addition");
}

#[test]
fn a_run_keeps_what_an_earlier_run_declared() {
    let mut lox = Lox::new();
    let first = lox.run("var a = 41;".to_string(), &read, &arith);
    assert!(first.result.is_ok());
    assert!(!lox.had_error);
    let second = lox.run("a + 1;".to_string(), &read, &arith);
    assert_eq!(second.result.unwrap(), num(42.0));
    let third = lox.run("b;".to_string(), &read, &arith);
    assert!(third.result.is_err());
    assert!(lox.had_error);
}

fn counter_program() -> Vec<Stmt> {
    // fun make() { var count = 0; fun next() { count = count + 1; return count; } return next; }
    let next = Stmt::new_function(
        name("next"),
        vec![],
        vec![
            Stmt::new_expression(Expr::new_assign(
                name("count"),
                binary(var("count"), TokenType::Plus, "+", lit(1.0)),
            )),
            ret(var("count")),
        ],
    );
    let make = Stmt::new_function(
        name("make"),
        vec![],
        vec![Stmt::new_variable(name("count"), Some(lit(0.0))), next, ret(var("next"))],
    );
    vec![
        make,
        Stmt::new_variable(name("a"), Some(call(var("make"), vec![]))),
        Stmt::new_variable(name("b"), Some(call(var("make"), vec![]))),
        Stmt::new_print(call(var("a"), vec![])),
        Stmt::new_print(call(var("a"), vec![])),
        Stmt::new_print(call(var("b"), vec![])),
        Stmt::new_print(call(var("a"), vec![])),
    ]
}

#[test]
fn closures_keep_their_scope_and_do_not_share_it() {
    let (result, interpreter) = interpret(counter_program());
    assert!(result.is_ok());
    assert_eq!(interpreter.output, vec![num(1.0), num(2.0), num(1.0), num(3.0)]);
}

#[test]
fn a_function_sees_the_scope_of_its_declaration_not_of_its_call() {
    // var x = 1; fun get() { return x; } { var x = 2; print get(); }
    let program = vec![
        Stmt::new_variable(name("x"), Some(lit(1.0))),
        Stmt::new_function(name("get"), vec![], vec![ret(var("x"))]),
        Stmt::new_block(vec![
            Stmt::new_variable(name("x"), Some(lit(2.0))),
            Stmt::new_print(call(var("get"), vec![])),
        ]),
    ];
    let (result, interpreter) = interpret(program);
    assert!(result.is_ok());
    assert_eq!(interpreter.output, vec![num(1.0)]);
}

fn factorial() -> Stmt {
    // fun fact(n) { if (n <= 1) return 1; return n * fact(n - 1); }
    Stmt::new_function(
        name("fact"),
        vec![name("n")],
        vec![
            Stmt::new_if(
                binary(var("n"), TokenType::LessEqual, "<=", lit(1.0)),
                ret(lit(1.0)),
                None,
            ),
            ret(binary(
                var("n"),
                TokenType::Star,
                "*",
                call(var("fact"), vec![binary(var("n"), TokenType::Minus, "-", lit(1.0))]),
            )),
        ],
    )
}

#[test]
fn recursion_returns_the_right_value() {
    let program =
        vec![factorial(), Stmt::new_expression(call(var("fact"), vec![lit(10.0)]))];
    let (result, _) = interpret(program);
    assert_eq!(result.unwrap(), num(3628800.0));
}

#[test]
fn fibonacci_by_recursion() {
    // fun fib(n) { if (n < 2) return n; return fib(n - 1) + fib(n - 2); }
    let fib = Stmt::new_function(
        name("fib"),
        vec![name("n")],
        vec![
            Stmt::new_if(binary(var("n"), TokenType::Less, "<", lit(2.0)), ret(var("n")), None),
            ret(binary(
                call(var("fib"), vec![binary(var("n"), TokenType::Minus, "-", lit(1.0))]),
                TokenType::Plus,
                "+",
                call(var("fib"), vec![binary(var("n"), TokenType::Minus, "-", lit(2.0))]),
            )),
        ],
    );
    let (result, _) = interpret(vec![fib, Stmt::new_expression(call(var("fib"), vec![lit(15.0)]))]);
    assert_eq!(result.unwrap(), num(610.0));
}

#[test]
fn return_unwinds_through_blocks_and_loops() {
    // fun find() { var i = 0; while (true) { { if (i == 3) { return i; } } i = i + 1; print i; } print 99; }
    let body = Stmt::new_block(vec![
        Stmt::new_block(vec![Stmt::new_if(
            binary(var("i"), TokenType::EqualEqual, "==", lit(3.0)),
            Stmt::new_block(vec![ret(var("i"))]),
            None,
        )]),
        Stmt::new_expression(Expr::new_assign(
            name("i"),
            binary(var("i"), TokenType::Plus, "+", lit(1.0)),
        )),
        Stmt::new_print(var("i")),
    ]);
    let find = Stmt::new_function(
        name("find"),
        vec![],
        vec![
            Stmt::new_variable(name("i"), Some(lit(0.0))),
            Stmt::new_while(Expr::new_literal(LiteralValue::Boolean(true)), body),
            Stmt::new_print(lit(99.0)),
        ],
    );
    let program = vec![
        find,
        Stmt::new_variable(name("r"), Some(call(var("find"), vec![]))),
        Stmt::new_print(var("r")),
    ];
    let (result, interpreter) = interpret(program);
    assert!(result.is_ok());
    assert_eq!(interpreter.output, vec![num(1.0), num(2.0), num(3.0), num(3.0)]);
    assert_eq!(interpreter.environment, 0);
}

#[test]
fn a_function_without_return_gives_nil() {
    let program = vec![
        Stmt::new_function(name("f"), vec![], vec![Stmt::new_print(lit(1.0))]),
        Stmt::new_expression(call(var("f"), vec![])),
    ];
    let (result, interpreter) = interpret(program);
    assert_eq!(result.unwrap(), LiteralValue::Nil);
    assert_eq!(interpreter.output, vec![num(1.0)]);
    let program = vec![
        Stmt::new_function(
            name("g"),
            vec![],
            vec![Stmt::new_return(token(TokenType::Return, "return"), None)],
        ),
        Stmt::new_expression(call(var("g"), vec![])),
    ];
    assert_eq!(interpret(program).0.unwrap(), LiteralValue::Nil);
}

#[test]
fn a_call_with_the_wrong_number_of_arguments_fails() {
    let program =
        vec![factorial(), Stmt::new_expression(call(var("fact"), vec![lit(1.0), lit(2.0)]))];
    let (result, interpreter) = interpret(program);
    assert_eq!(result.unwrap_err().msg, "Incorrect number of arguments");
    assert_eq!(interpreter.output, vec![]);
    let program = vec![factorial(), Stmt::new_expression(call(var("fact"), vec![]))];
    assert_eq!(interpret(program).0.unwrap_err().msg, "Incorrect number of arguments");
    let program = vec![Stmt::new_expression(call(var("clock"), vec![lit(1.0)]))];
    assert_eq!(interpret(program).0.unwrap_err().msg, "Incorrect number of arguments");
}

#[test]
fn arguments_are_evaluated_from_left_to_right() {
    // fun f(a, b) { return a - b; } var x = 0; f(x = 5, x = x + 1);
    let program = vec![
        Stmt::new_function(
            name("f"),
            vec![name("a"), name("b")],
            vec![ret(binary(var("a"), TokenType::Minus, "-", var("b")))],
        ),
        Stmt::new_variable(name("x"), Some(lit(0.0))),
        Stmt::new_expression(call(
            var("f"),
            vec![
                Expr::new_assign(name("x"), lit(5.0)),
                Expr::new_assign(name("x"), binary(var("x"), TokenType::Plus, "+", lit(1.0))),
            ],
        )),
    ];
    assert_eq!(interpret(program).0.unwrap(), num(-1.0));
}

#[test]
fn only_functions_can_be_called() {
    let program = vec![Stmt::new_expression(call(lit(1.0), vec![]))];
    assert_eq!(interpret(program).0.unwrap_err().msg, "Tried to call non-callable");
}

#[test]
fn the_clock_is_a_function_of_no_arguments() {
    let mut interpreter = Interpreter::new();
    interpreter.clock = 1234.0f64.to_bits();
    let program = vec![Stmt::new_expression(call(var("clock"), vec![]))];
    assert_eq!(interpreter.interpret(&program, &arith).unwrap(), num(1234.0));
}

#[test]
fn a_return_outside_a_function_stops_the_program() {
    let program = vec![ret(lit(1.0)), Stmt::new_print(lit(2.0))];
    let (result, interpreter) = interpret(program);
    let error = result.unwrap_err();
    assert!(error.returning);
    assert_eq!(error.value, Some(num(1.0)));
    assert_eq!(interpreter.output, vec![]);
}

#[test]
fn plain_and_or_operators_look_at_both_sides() {
    let and = Expr::new_binary(
        Expr::new_literal(LiteralValue::Boolean(true)),
        token(TokenType::And, "and"),
        var("missing"),
    );
    assert_eq!(
        interpret(vec![Stmt::new_expression(and)]).0.unwrap_err().msg,
        "missing not defined"
    );
    let and = Expr::new_binary(lit(1.0), token(TokenType::And, "and"), lit(0.0));
    assert_eq!(interpret(vec![Stmt::new_expression(and)]).0.unwrap(), LiteralValue::Boolean(true));
    let or = Expr::new_binary(
        Expr::new_literal(LiteralValue::Nil),
        token(TokenType::Or, "or"),
        Expr::new_literal(LiteralValue::Boolean(false)),
    );
    assert_eq!(interpret(vec![Stmt::new_expression(or)]).0.unwrap(), LiteralValue::Boolean(false));
    let odd = Expr::new_binary(lit(1.0), token(TokenType::Comma, ","), lit(0.0));
    assert_eq!(
        interpret(vec![Stmt::new_expression(odd)]).0.unwrap_err().msg,
        "Invalid Binary Operator"
    );
    let odd = Expr::new_unary(token(TokenType::Plus, "+"), lit(0.0));
    assert_eq!(
        interpret(vec![Stmt::new_expression(odd)]).0.unwrap_err().msg,
        "Invalid Unary Operator"
    );
}

#[test]
fn runaway_recursion_is_a_failure() {
    // fun f() { return f(); } f();
    let program = vec![
        Stmt::new_function(name("f"), vec![], vec![ret(call(var("f"), vec![]))]),
        Stmt::new_expression(call(var("f"), vec![])),
    ];
    let (result, interpreter) = interpret(program);
    assert_eq!(result.unwrap_err().msg, "Stack overflow.");
    assert_eq!(interpreter.environment, 0);
}

#[test]
fn a_loop_is_given_up_at_the_limit() {
    let mut lox = Lox::new();
    lox.interpreter.loop_limit = 10;
    let outcome = lox.run(
        "var i = 0; while (true) { i = i + 1; print i; }".to_string(),
        &read,
        &arith,
    );
    assert_eq!(outcome.result.unwrap_err().msg, "Loop limit exceeded.");
    assert_eq!(outcome.printed.len(), 10);
    let outcome = lox.run("var j = 0; while (j < 10) j = j + 1; j;".to_string(), &read, &arith);
    assert_eq!(outcome.result.unwrap(), num(10.0));
}

#[test]
fn two_malformed_statements_give_two_reports() {
    let outcome = run("var = 1; print 2 +; print 3;");
    assert_eq!(
        outcome.reports,
        vec![
            "[ 1] Error  at '=': Expect variable name.".to_string(),
            "[ 1] Error  at ';': Expect expression.".to_string(),
        ]
    );
    assert_eq!(outcome.printed, vec![]);
    assert_eq!(outcome.result.unwrap(), LiteralValue::Nil);
}

#[test]
fn errors_of_the_scanner_are_reported_with_their_line() {
    let outcome = run("print 1;\n@\nprint 2;");
    assert_eq!(outcome.reports, vec!["[ 2] Error : Unexpected character.".to_string()]);
    assert_eq!(outcome.printed, vec![num(1.0), num(2.0)]);
    let mut lox = Lox::new();
    let outcome = lox.run("\"open".to_string(), &read, &arith);
    assert_eq!(outcome.reports, vec!["[ 1] Error : Unterminated string.".to_string()]);
    assert!(lox.had_error);
}

#[test]
fn a_function_value_without_a_declaration_cannot_be_called() {
    let stray = LiteralValue::Function(FunctionEnum::User(UserDefinedFunction {
        declaration: 99,
        closure: 0,
    }));
    let program = vec![Stmt::new_expression(call(Expr::new_literal(stray), vec![]))];
    assert_eq!(interpret(program).0.unwrap_err().msg, "Invalid Function Definition");
}

#[test]
fn the_interpreter_starts_with_the_clock_alone() {
    let interpreter = Interpreter::new();
    assert_eq!(interpreter.environment, 0);
    assert_eq!(interpreter.globals, 0);
    assert_eq!(interpreter.scopes.len(), 1);
    assert_eq!(
        interpreter.scopes.get(0, &name("clock")),
        Ok(LiteralValue::Function(FunctionEnum::Native(NativeFunctions::Clock)))
    );
    assert_eq!(
        interpreter.arity(&FunctionEnum::Native(NativeFunctions::Clock)).unwrap(),
        0
    );
    assert_eq!(interpreter.output, vec![]);
}

#[test]
fn the_arity_of_a_declared_function_is_the_number_of_its_parameters() {
    let (_, interpreter) = interpret(vec![factorial()]);
    let declared = match interpreter.scopes.get(0, &name("fact")).unwrap() {
        LiteralValue::Function(f) => f,
        other => panic!("no function: {:?}", other),
    };
    assert_eq!(interpreter.arity(&declared).unwrap(), 1);
    assert_eq!(
        declared,
        FunctionEnum::User(UserDefinedFunction { declaration: 0, closure: 0 })
    );
}

#[test]
fn a_block_runs_in_its_scope_and_restores_the_current_one() {
    let mut interpreter = Interpreter::new();
    let scope = interpreter.scopes.new_local(0);
    let body = vec![
        Stmt::new_variable(name("x"), Some(lit(5.0))),
        Stmt::new_print(var("x")),
        Stmt::new_expression(var("missing")),
        Stmt::new_print(lit(6.0)),
    ];
    let result = interpreter.execute_block(&body, scope, &arith, 100);
    assert_eq!(result.unwrap_err().msg, "missing not defined");
    assert_eq!(interpreter.environment, 0);
    assert_eq!(interpreter.output, vec![num(5.0)]);
    assert_eq!(interpreter.scopes.get(scope, &name("x")), Ok(num(5.0)));
    assert!(interpreter.scopes.get(0, &name("x")).is_err());
}

#[test]
fn what_a_call_returns_from_what_its_body_gave() {
    let returned = InterpreterError { msg: String::new(), returning: true, value: Some(num(3.0)) };
    assert_eq!(Interpreter::unwrap_interpreter_result(Err(returned)), Ok(num(3.0)));
    let bare = InterpreterError { msg: String::new(), returning: true, value: None };
    assert_eq!(Interpreter::unwrap_interpreter_result(Err(bare)), Ok(LiteralValue::Nil));
    let failed = InterpreterError { msg: "m".to_string(), returning: false, value: None };
    assert_eq!(
        Interpreter::unwrap_interpreter_result(Err(failed)).unwrap_err().msg,
        "m"
    );
    assert_eq!(Interpreter::unwrap_interpreter_result(Ok(num(1.0))), Ok(num(1.0)));
    assert!(Interpreter::is_truthy(&num(0.0)));
    assert!(!Interpreter::is_truthy(&LiteralValue::Nil));
}

#[test]
fn an_evaluation_nested_too_deep_fails() {
    let mut interpreter = Interpreter::new();
    let nested = Expr::new_grouing(Expr::new_grouing(lit(1.0)));
    assert_eq!(interpreter.visit_expr(&nested, &arith, 3).unwrap(), num(1.0));
    assert_eq!(interpreter.visit_expr(&nested, &arith, 2).unwrap_err().msg, "Stack overflow.");
    assert_eq!(interpreter.visit_expr(&nested, &arith, 0).unwrap_err().msg, "Stack overflow.");
    let statement = Stmt::new_expression(lit(1.0));
    assert_eq!(interpreter.visit_stmt(&statement, &arith, 2).unwrap(), num(1.0));
    assert_eq!(interpreter.visit_stmt(&statement, &arith, 1).unwrap_err().msg, "Stack overflow.");
}

#[test]
fn a_copy_of_a_tree_is_the_same_tree() {
    let program = counter_program();
    let copy: Vec<Stmt> = program.iter().map(|s| s.clone()).collect();
    assert_eq!(copy, program);
    assert_eq!(loxrs::ast::copy_stmts(&program), program);
    let expression = binary(var("a"), TokenType::Plus, "+", call(var("f"), vec![lit(1.0)]));
    assert_eq!(expression.clone(), expression);
}
