use loxrs::environment::Environment;
use loxrs::lox::Lox;
use loxrs::number::{
    compare, from_bool, negate, number_is_nan, truncate, ArithOp, ONE, ZERO,
};
use loxrs::text::{characters, slice};
use loxrs::token::{
    repeat, FunctionEnum, LiteralValue, NativeFunctions, Token, TokenError, TokenType,
    UserDefinedFunction,
};
use std::cmp::Ordering;

fn arith(op: ArithOp, a: u64, b: u64) -> u64 {
    let (x, y) = (f64::from_bits(a), f64::from_bits(b));
    let r = match op {
        ArithOp::Add => x + y,
        ArithOp::Sub => x - y,
        ArithOp::Mul => x * y,
        ArithOp::Div => x / y,
    };
    r.to_bits()
}

fn format(bits: u64) -> String {
    format!("{}", f64::from_bits(bits))
}

fn num(x: f64) -> LiteralValue {
    LiteralValue::NumValue(x.to_bits())
}

fn text(s: &str) -> LiteralValue {
    LiteralValue::StringValue(s.to_string())
}

fn user() -> LiteralValue {
    LiteralValue::Function(FunctionEnum::User(UserDefinedFunction { declaration: 0, closure: 0 }))
}

#[test]
fn the_bits_of_one_and_zero() {
    assert_eq!(ONE, 1.0f64.to_bits());
    assert_eq!(ZERO, 0.0f64.to_bits());
    assert_eq!(from_bool(true), 1.0f64.to_bits());
    assert_eq!(from_bool(false), 0.0f64.to_bits());
}

#[test]
fn negation_flips_the_sign() {
    for x in [0.0, -0.0, 1.5, -2.25, f64::INFINITY, f64::MIN_POSITIVE, 1e300] {
        assert_eq!(negate(f64::to_bits(x)), (-x).to_bits());
    }
    assert!(number_is_nan(negate(f64::NAN.to_bits())));
}

#[test]
fn nan_is_told_from_the_bits() {
    assert!(number_is_nan(f64::NAN.to_bits()));
    assert!(number_is_nan((-f64::NAN).to_bits()));
    assert!(!number_is_nan(f64::INFINITY.to_bits()));
    assert!(!number_is_nan(f64::NEG_INFINITY.to_bits()));
    assert!(!number_is_nan(f64::MAX.to_bits()));
}

#[test]
fn the_order_of_doubles_is_that_of_the_machine() {
    let samples = [
        f64::NEG_INFINITY,
        -1e300,
        -2.5,
        -1.0,
        -5e-324,
        -0.0,
        0.0,
        5e-324,
        f64::MIN_POSITIVE,
        0.5,
        1.0,
        1.0000000000000002,
        2.5,
        1e300,
        f64::MAX,
        f64::INFINITY,
        f64::NAN,
    ];
    for a in samples {
        for b in samples {
            assert_eq!(compare(a.to_bits(), b.to_bits()), a.partial_cmp(&b), "{} and {}", a, b);
        }
    }
}

#[test]
fn truncation_is_the_saturating_cast() {
    let samples = [
        0.0,
        -0.0,
        0.4,
        0.99999,
        1.0,
        1.5,
        2.9,
        3.0,
        255.999,
        4503599627370495.5,
        4503599627370496.0,
        9007199254740992.0,
        9007199254740993.0,
        1e15,
        1e18,
        1.8446744073709552e19,
        1.8446744073709550e19,
        1e19,
        1e30,
        f64::MAX,
        f64::INFINITY,
        -1.0,
        -1e30,
        f64::NEG_INFINITY,
        f64::NAN,
        5e-324,
    ];
    for x in samples {
        assert_eq!(truncate(f64::to_bits(x)), x as usize, "{}", x);
    }
    assert_eq!(truncate(2.9f64.to_bits()), 2);
    assert_eq!(truncate(1e30f64.to_bits()), usize::MAX);
}

#[test]
fn truthiness() {
    assert!(!LiteralValue::Nil.is_truthy());
    assert!(!LiteralValue::Boolean(false).is_truthy());
    assert!(LiteralValue::Boolean(true).is_truthy());
    assert!(num(0.0).is_truthy());
    assert!(num(f64::NAN).is_truthy());
    assert!(text("").is_truthy());
    assert!(text("a").is_truthy());
    assert!(user().is_truthy());
}

#[test]
fn addition_of_values() {
    assert_eq!(num(1.5).add(num(2.0), &arith), Ok(num(3.5)));
    assert_eq!(text("ab").add(text("cd"), &arith), Ok(text("abcd")));
    assert_eq!(text("").add(text(""), &arith), Ok(text("")));
    assert_eq!(LiteralValue::Boolean(true).add(LiteralValue::Boolean(true), &arith), Ok(num(2.0)));
    assert_eq!(num(1.0).add(LiteralValue::Boolean(false), &arith), Ok(num(1.0)));
    assert_eq!(text("a").add(num(1.0), &arith), Err(TokenError));
    assert_eq!(num(1.0).add(text("a"), &arith), Err(TokenError));
    assert_eq!(LiteralValue::Nil.add(num(1.0), &arith), Err(TokenError));
    assert_eq!(num(1.0).add(LiteralValue::Nil, &arith), Err(TokenError));
    assert_eq!(text("a").add(LiteralValue::Boolean(true), &arith), Err(TokenError));
    assert_eq!(user().add(num(1.0), &arith), Err(TokenError));
}

#[test]
fn the_other_arithmetic_of_values() {
    assert_eq!(num(1.5).sub(num(2.0), &arith), Ok(num(-0.5)));
    assert_eq!(num(1.5).mul(num(2.0), &arith), Ok(num(3.0)));
    assert_eq!(num(1.0).div(num(4.0), &arith), Ok(num(0.25)));
    assert_eq!(num(1.0).div(num(0.0), &arith), Ok(num(f64::INFINITY)));
    assert_eq!(LiteralValue::Boolean(true).sub(num(3.0), &arith), Ok(num(-2.0)));
    assert_eq!(num(3.0).mul(LiteralValue::Boolean(false), &arith), Ok(num(0.0)));
    assert_eq!(num(3.0).div(LiteralValue::Boolean(true), &arith), Ok(num(3.0)));
    assert_eq!(text("a").sub(text("a"), &arith), Err(TokenError));
    assert_eq!(text("a").div(num(1.0), &arith), Err(TokenError));
    assert_eq!(LiteralValue::Nil.mul(num(1.0), &arith), Err(TokenError));
    assert_eq!(num(1.0).sub(LiteralValue::Nil, &arith), Err(TokenError));
    assert_eq!(num(1.0).div(user(), &arith), Err(TokenError));
}

#[test]
fn a_string_times_a_number_is_the_string_repeated() {
    assert_eq!(text("ab").mul(num(3.0), &arith), Ok(text("ababab")));
    assert_eq!(text("ab").mul(num(3.99), &arith), Ok(text("ababab")));
    assert_eq!(text("ab").mul(num(0.5), &arith), Ok(text("")));
    assert_eq!(text("ab").mul(num(-2.0), &arith), Ok(text("")));
    assert_eq!(text("ab").mul(num(f64::NAN), &arith), Ok(text("")));
    assert_eq!(text("ab").mul(LiteralValue::Boolean(true), &arith), Ok(text("ab")));
    assert_eq!(text("ab").mul(LiteralValue::Boolean(false), &arith), Ok(text("")));
    assert_eq!(text("").mul(num(5.0), &arith), Ok(text("")));
    assert_eq!(text("ab").mul(text("ab"), &arith), Err(TokenError));
    assert_eq!(text("ab").mul(LiteralValue::Nil, &arith), Err(TokenError));
    assert_eq!(num(3.0).mul(text("ab"), &arith), Err(TokenError));
    assert_eq!(repeat(&"xy".to_string(), 4), "xyxyxyxy");
    assert_eq!(repeat(&"xy".to_string(), 0), "");
}

#[test]
fn arithmetic_is_what_the_caller_supplies() {
    let odd = |op: ArithOp, a: u64, b: u64| match op {
        ArithOp::Add => 1,
        ArithOp::Sub => 2,
        ArithOp::Mul => 3,
        ArithOp::Div => a + b,
    };
    assert_eq!(
        LiteralValue::NumValue(10).add(LiteralValue::NumValue(20), &odd),
        Ok(LiteralValue::NumValue(1))
    );
    assert_eq!(
        LiteralValue::NumValue(10).sub(LiteralValue::NumValue(20), &odd),
        Ok(LiteralValue::NumValue(2))
    );
    assert_eq!(
        LiteralValue::NumValue(10).mul(LiteralValue::NumValue(20), &odd),
        Ok(LiteralValue::NumValue(3))
    );
    assert_eq!(
        LiteralValue::NumValue(10).div(LiteralValue::NumValue(20), &odd),
        Ok(LiteralValue::NumValue(30))
    );
}

#[test]
fn negation_and_not_of_values() {
    assert_eq!(num(2.0).neg(), Ok(num(-2.0)));
    assert_eq!(num(0.0).neg(), Ok(num(-0.0)));
    assert_eq!(LiteralValue::Boolean(true).neg(), Err(TokenError));
    assert_eq!(text("a").neg(), Err(TokenError));
    assert_eq!(LiteralValue::Nil.neg(), Err(TokenError));
    assert_eq!(user().neg(), Err(TokenError));
    assert_eq!(LiteralValue::Nil.not(), Ok(LiteralValue::Boolean(true)));
    assert_eq!(LiteralValue::Boolean(false).not(), Ok(LiteralValue::Boolean(true)));
    assert_eq!(LiteralValue::Boolean(true).not(), Ok(LiteralValue::Boolean(false)));
    assert_eq!(num(0.0).not(), Ok(LiteralValue::Boolean(false)));
    assert_eq!(text("").not(), Ok(LiteralValue::Boolean(false)));
    assert_eq!(user().not(), Ok(LiteralValue::Boolean(false)));
}

#[test]
fn and_and_or_of_values() {
    let t = || LiteralValue::Boolean(true);
    let f = || LiteralValue::Boolean(false);
    assert_eq!(t().bitand(t()), Ok(t()));
    assert_eq!(t().bitand(f()), Ok(f()));
    assert_eq!(f().bitand(t()), Ok(f()));
    assert_eq!(f().bitand(f()), Ok(f()));
    assert_eq!(t().bitor(t()), Ok(t()));
    assert_eq!(t().bitor(f()), Ok(t()));
    assert_eq!(f().bitor(t()), Ok(t()));
    assert_eq!(f().bitor(f()), Ok(f()));
    assert_eq!(num(0.0).bitand(text("")), Ok(t()));
    assert_eq!(LiteralValue::Nil.bitand(t()), Ok(f()));
    assert_eq!(LiteralValue::Nil.bitor(num(1.0)), Ok(t()));
    assert_eq!(LiteralValue::Nil.bitor(LiteralValue::Nil), Ok(f()));
}

#[test]
fn the_order_of_values() {
    assert_eq!(num(1.0).partial_cmp(&num(2.0)), Some(Ordering::Less));
    assert_eq!(num(2.0).partial_cmp(&num(2.0)), Some(Ordering::Equal));
    assert_eq!(num(3.0).partial_cmp(&num(2.0)), Some(Ordering::Greater));
    assert_eq!(LiteralValue::Boolean(true).partial_cmp(&num(1.0)), Some(Ordering::Equal));
    assert_eq!(num(0.5).partial_cmp(&LiteralValue::Boolean(false)), Some(Ordering::Greater));
    assert_eq!(
        LiteralValue::Boolean(false).partial_cmp(&LiteralValue::Boolean(true)),
        Some(Ordering::Less)
    );
    assert_eq!(num(f64::NAN).partial_cmp(&num(1.0)), None);
    assert_eq!(text("a").partial_cmp(&text("a")), None);
    assert_eq!(LiteralValue::Nil.partial_cmp(&LiteralValue::Nil), None);
    assert_eq!(num(1.0).partial_cmp(&text("a")), None);
    assert_eq!(user().partial_cmp(&num(1.0)), None);
}

#[test]
fn comparison_operators() {
    let check = |op: TokenType, a: f64, b: f64| LiteralValue::compare(op, &num(a), &num(b));
    let yes = Ok(LiteralValue::Boolean(true));
    let no = Ok(LiteralValue::Boolean(false));
    assert_eq!(check(TokenType::Less, 1.0, 2.0), yes);
    assert_eq!(check(TokenType::Less, 2.0, 2.0), no);
    assert_eq!(check(TokenType::LessEqual, 2.0, 2.0), yes);
    assert_eq!(check(TokenType::LessEqual, 3.0, 2.0), no);
    assert_eq!(check(TokenType::Greater, 3.0, 2.0), yes);
    assert_eq!(check(TokenType::Greater, 2.0, 2.0), no);
    assert_eq!(check(TokenType::GreaterEqual, 2.0, 2.0), yes);
    assert_eq!(check(TokenType::GreaterEqual, 1.0, 2.0), no);
    assert_eq!(check(TokenType::EqualEqual, 2.0, 2.0), yes);
    assert_eq!(check(TokenType::EqualEqual, 0.0, -0.0), yes);
    assert_eq!(check(TokenType::EqualEqual, 1.0, 2.0), no);
    assert_eq!(check(TokenType::BangEqual, 1.0, 2.0), yes);
    assert_eq!(check(TokenType::BangEqual, 2.0, 2.0), no);
    assert_eq!(check(TokenType::Plus, 1.0, 2.0), no);
    assert_eq!(check(TokenType::Less, f64::NAN, 2.0), Err(TokenError));
    assert_eq!(LiteralValue::compare(TokenType::Less, &text("a"), &num(1.0)), Err(TokenError));
}

#[test]
fn values_as_text() {
    assert_eq!(LiteralValue::Nil.to_string(&format), "nil");
    assert_eq!(LiteralValue::Boolean(true).to_string(&format), "true");
    assert_eq!(LiteralValue::Boolean(false).to_string(&format), "false");
    assert_eq!(text("a b").to_string(&format), "a b");
    assert_eq!(num(7.0).to_string(&format), "7");
    assert_eq!(num(0.5).to_string(&format), "0.5");
    assert_eq!(user().to_string(&format), "<fn>");
    assert_eq!(
        LiteralValue::Function(FunctionEnum::Native(NativeFunctions::Clock)).to_string(&format),
        "<native fn>"
    );
}

#[test]
fn token_kinds_as_text() {
    assert_eq!(TokenType::LeftParen.to_string(), "(");
    assert_eq!(TokenType::RightBrace.to_string(), "}");
    assert_eq!(TokenType::BangEqual.to_string(), "!=");
    assert_eq!(TokenType::Identifier.to_string(), "Identifier");
    assert_eq!(TokenType::StringToken.to_string(), "String");
    assert_eq!(TokenType::Number.to_string(), "Number");
    assert_eq!(TokenType::And.to_string(), "&");
    assert_eq!(TokenType::Or.to_string(), "OR");
    assert_eq!(TokenType::While.to_string(), "WHILE");
    assert_eq!(TokenType::Eof.to_string(), "EOF");
}

#[test]
fn tokens_as_text() {
    let token = Token::new(TokenType::Number, "1.50".to_string(), num(1.5), 3);
    assert_eq!(token.to_string(&format), "Number 1.50 1.5");
    let token = Token::new(TokenType::Plus, "+".to_string(), LiteralValue::Nil, 1);
    assert_eq!(token.to_string(&format), "+ + nil");
    let copy = token.clone();
    assert_eq!(copy, token);
}

#[test]
fn reports_of_errors() {
    assert_eq!(
        Lox::error(3, "Unexpected character."),
        "[ 3] Error : Unexpected character."
    );
    assert_eq!(Lox::error(0, ""), "[ 0] Error : ");
    assert_eq!(Lox::error(-12, "m"), "[ -12] Error : m");
    assert_eq!(Lox::error(i32::MAX, "m"), "[ 2147483647] Error : m");
    assert_eq!(Lox::error(i32::MIN, "m"), "[ -2147483648] Error : m");
    assert_eq!(Lox::report(10, "here", "what"), "[ 10] Error here: what");
    let end = Token::new(TokenType::Eof, String::new(), LiteralValue::Nil, 7);
    assert_eq!(Lox::error_token(&end, "Expect expression."), "[ 7] Error at end: Expect expression.");
    let plus = Token::new(TokenType::Plus, "+".to_string(), LiteralValue::Nil, 105);
    assert_eq!(
        Lox::error_token(&plus, "Expect expression."),
        "[ 105] Error  at '+': Expect expression."
    );
    assert!(!Lox::new().had_error);
}

#[test]
fn text_taken_apart_and_put_together() {
    let chars = characters("a\u{e9}z\"");
    assert_eq!(chars, vec!['a', '\u{e9}', 'z', '"']);
    assert_eq!(slice(&chars, 1, 3), "\u{e9}z");
    assert_eq!(slice(&chars, 2, 2), "");
    assert_eq!(slice(&chars, 0, 4), "a\u{e9}z\"");
    assert_eq!(characters(""), Vec::<char>::new());
}

fn name(lexeme: &str) -> Token {
    Token::new(TokenType::Identifier, lexeme.to_string(), LiteralValue::Nil, 1)
}

#[test]
fn a_scope_binds_and_rebinds() {
    let mut scopes = Environment::new_global();
    assert_eq!(scopes.len(), 1);
    scopes.define(0, "a".to_string(), num(1.0));
    assert_eq!(scopes.get(0, &name("a")), Ok(num(1.0)));
    scopes.define(0, "a".to_string(), text("x"));
    assert_eq!(scopes.get(0, &name("a")), Ok(text("x")));
    scopes.define(0, "b".to_string(), LiteralValue::Nil);
    assert_eq!(scopes.get(0, &name("b")), Ok(LiteralValue::Nil));
    assert_eq!(scopes.get(0, &name("a")), Ok(text("x")));
    assert_eq!(scopes.scopes[0].values.len(), 2);
}

#[test]
fn a_name_is_looked_up_from_the_inside_out() {
    let mut scopes = Environment::new_global();
    scopes.define(0, "a".to_string(), num(1.0));
    scopes.define(0, "b".to_string(), num(2.0));
    let inner = scopes.new_local(0);
    assert_eq!(inner, 1);
    let innermost = scopes.new_local(inner);
    assert_eq!(innermost, 2);
    scopes.define(inner, "a".to_string(), num(10.0));
    assert_eq!(scopes.get(innermost, &name("a")), Ok(num(10.0)));
    assert_eq!(scopes.get(inner, &name("a")), Ok(num(10.0)));
    assert_eq!(scopes.get(0, &name("a")), Ok(num(1.0)));
    assert_eq!(scopes.get(innermost, &name("b")), Ok(num(2.0)));
    assert_eq!(scopes.owner(innermost, &"a".to_string()), Some(1));
    assert_eq!(scopes.owner(innermost, &"b".to_string()), Some(0));
    assert_eq!(scopes.owner(innermost, &"c".to_string()), None);
    let sibling = scopes.new_local(0);
    assert_eq!(scopes.get(sibling, &name("a")), Ok(num(1.0)));
}

#[test]
fn a_missing_name_is_an_error() {
    let mut scopes = Environment::new_global();
    let inner = scopes.new_local(0);
    scopes.define(inner, "a".to_string(), num(1.0));
    assert_eq!(
        scopes.get(0, &name("a")).unwrap_err().msg,
        "Couldn't Find Variable: a"
    );
    assert_eq!(scopes.get(7, &name("a")).unwrap_err().msg, "Couldn't Find Variable: a");
    assert_eq!(
        scopes.assign(0, &name("zz"), num(1.0)).unwrap().msg,
        "Variable zz not yet declared"
    );
    assert_eq!(scopes.get(inner, &name("zz")).unwrap_err().msg, "Couldn't Find Variable: zz");
}

#[test]
fn assignment_changes_the_scope_that_binds_the_name() {
    let mut scopes = Environment::new_global();
    scopes.define(0, "a".to_string(), num(1.0));
    let inner = scopes.new_local(0);
    assert_eq!(scopes.assign(inner, &name("a"), num(5.0)), None);
    assert_eq!(scopes.get(0, &name("a")), Ok(num(5.0)));
    assert_eq!(scopes.scopes[inner].values.len(), 0);
    scopes.define(inner, "a".to_string(), num(7.0));
    assert_eq!(scopes.assign(inner, &name("a"), num(8.0)), None);
    assert_eq!(scopes.get(inner, &name("a")), Ok(num(8.0)));
    assert_eq!(scopes.get(0, &name("a")), Ok(num(5.0)));
}

#[test]
fn a_handle_of_no_scope_binds_nothing() {
    let mut scopes = Environment::new_global();
    scopes.define(3, "a".to_string(), num(1.0));
    assert_eq!(scopes.len(), 1);
    assert!(scopes.get(0, &name("a")).is_err());
    let odd = scopes.new_local(9);
    scopes.define(odd, "b".to_string(), num(2.0));
    assert_eq!(scopes.get(odd, &name("b")), Ok(num(2.0)));
    assert!(scopes.get(odd, &name("a")).is_err());
}

#[test]
fn a_flat_copy_binds_all_that_is_seen() {
    let mut scopes = Environment::new_global();
    scopes.define(0, "a".to_string(), num(1.0));
    scopes.define(0, "b".to_string(), num(2.0));
    let inner = scopes.new_local(0);
    scopes.define(inner, "b".to_string(), num(20.0));
    scopes.define(inner, "c".to_string(), num(30.0));
    let other = scopes.new_local(0);
    scopes.define(other, "d".to_string(), num(40.0));
    let flat = scopes.full_clone(inner);
    assert_eq!(flat.len(), 1);
    assert_eq!(flat.get(0, &name("a")), Ok(num(1.0)));
    assert_eq!(flat.get(0, &name("b")), Ok(num(2.0)));
    assert_eq!(flat.get(0, &name("c")), Ok(num(30.0)));
    assert!(flat.get(0, &name("d")).is_err());
    let none = scopes.full_clone(17);
    assert_eq!(none.len(), 1);
    assert!(none.get(0, &name("a")).is_err());
    assert_eq!(scopes.get(inner, &name("b")), Ok(num(20.0)));
}
