//! Token kinds, tokens and runtime values with their operators.

use crate::number::{
    apply, compare, from_bool, negate, negated, oracle, order, count, functional, truncate, ArithOp,
    ONE, ZERO,
};
use std::cmp::Ordering;
use vstd::prelude::*;
use vstd::string::*;

verus! {

/// An operator was applied to values it is not defined on.
#[derive(Debug, PartialEq)]
pub struct TokenError;

/// The built-in functions.
#[derive(Clone, Copy, Debug, PartialEq, Eq, Structural)]
pub enum NativeFunctions {
    Clock,
}

/// A declared function: handles of its declaration and of the scope it was
/// declared in.
#[derive(Clone, Copy, Debug, PartialEq, Eq, Structural)]
pub struct UserDefinedFunction {
    pub declaration: usize,
    pub closure: usize,
}

/// A callable value.
#[derive(Clone, Copy, Debug, PartialEq, Eq, Structural)]
pub enum FunctionEnum {
    Native(NativeFunctions),
    User(UserDefinedFunction),
}

/// A runtime value. A number is the bit pattern of a double.
#[derive(Debug, PartialEq)]
pub enum LiteralValue {
    Nil,
    Boolean(bool),
    StringValue(String),
    NumValue(u64),
    Function(FunctionEnum),
}

/// The mathematical value that a `LiteralValue` stands for.
pub enum ValueV {
    Nil,
    Boolean(bool),
    StringValue(Seq<char>),
    NumValue(u64),
    Function(FunctionEnum),
}

impl View for LiteralValue {
    type V = ValueV;

    open spec fn view(&self) -> ValueV {
        match self {
            LiteralValue::Nil => ValueV::Nil,
            LiteralValue::Boolean(b) => ValueV::Boolean(*b),
            LiteralValue::StringValue(s) => ValueV::StringValue(s@),
            LiteralValue::NumValue(n) => ValueV::NumValue(*n),
            LiteralValue::Function(f) => ValueV::Function(*f),
        }
    }
}

impl Clone for LiteralValue {
    fn clone(&self) -> (r: LiteralValue)
        ensures
            r == *self,
    {
        match self {
            LiteralValue::Nil => LiteralValue::Nil,
            LiteralValue::Boolean(b) => LiteralValue::Boolean(*b),
            LiteralValue::StringValue(s) => LiteralValue::StringValue(s.clone()),
            LiteralValue::NumValue(n) => LiteralValue::NumValue(*n),
            LiteralValue::Function(f) => LiteralValue::Function(*f),
        }
    }
}

/// What an operator gives: a value, or no value at all.
pub open spec fn outcome(r: Result<LiteralValue, TokenError>) -> Option<ValueV> {
    match r {
        Ok(v) => Some(v@),
        Err(_) => None,
    }
}

/// `s` written `n` times in a row.
pub open spec fn repeated(s: Seq<char>, n: nat) -> Seq<char>
    decreases n,
{
    if n == 0 {
        Seq::empty()
    } else {
        repeated(s, (n - 1) as nat) + s
    }
}

/// Only `nil` and `false` count as false.
pub open spec fn truthy(v: ValueV) -> bool {
    match v {
        ValueV::Nil => false,
        ValueV::Boolean(b) => b,
        _ => true,
    }
}

/// The number a value counts as in arithmetic: itself, or 1 and 0 for the
/// booleans.
pub open spec fn numeric(v: ValueV) -> Option<u64> {
    match v {
        ValueV::NumValue(n) => Some(n),
        ValueV::Boolean(b) => Some(if b { ONE } else { ZERO }),
        _ => None,
    }
}

/// Unary minus: defined on numbers only.
pub open spec fn negation(v: ValueV) -> Option<ValueV> {
    match v {
        ValueV::NumValue(n) => Some(ValueV::NumValue(negated(n))),
        _ => None,
    }
}

/// Logical not, by truthiness.
pub open spec fn inversion(v: ValueV) -> Option<ValueV> {
    Some(ValueV::Boolean(!truthy(v)))
}

/// An operation on two values that count as numbers.
pub open spec fn arithmetic(
    sem: spec_fn(ArithOp, u64, u64) -> u64,
    op: ArithOp,
    l: ValueV,
    r: ValueV,
) -> Option<ValueV> {
    match (numeric(l), numeric(r)) {
        (Some(a), Some(b)) => Some(ValueV::NumValue(sem(op, a, b))),
        _ => None,
    }
}

/// `+`: two strings are joined, two numbers added.
pub open spec fn sum(sem: spec_fn(ArithOp, u64, u64) -> u64, l: ValueV, r: ValueV) -> Option<
    ValueV,
> {
    match (l, r) {
        (ValueV::StringValue(a), ValueV::StringValue(b)) => Some(ValueV::StringValue(a + b)),
        _ => arithmetic(sem, ArithOp::Add, l, r),
    }
}

/// `-` on two numbers.
pub open spec fn difference(
    sem: spec_fn(ArithOp, u64, u64) -> u64,
    l: ValueV,
    r: ValueV,
) -> Option<ValueV> {
    arithmetic(sem, ArithOp::Sub, l, r)
}

/// `*`: a string times a number is the string repeated, two numbers are
/// multiplied.
pub open spec fn product(sem: spec_fn(ArithOp, u64, u64) -> u64, l: ValueV, r: ValueV) -> Option<
    ValueV,
> {
    match l {
        ValueV::StringValue(s) => match numeric(r) {
            Some(n) => Some(ValueV::StringValue(repeated(s, count(n) as nat))),
            None => None,
        },
        _ => arithmetic(sem, ArithOp::Mul, l, r),
    }
}

/// `/` on two numbers.
pub open spec fn quotient(sem: spec_fn(ArithOp, u64, u64) -> u64, l: ValueV, r: ValueV) -> Option<
    ValueV,
> {
    arithmetic(sem, ArithOp::Div, l, r)
}

/// `and` as a plain operator: both operands count as true.
pub open spec fn conjunction(l: ValueV, r: ValueV) -> Option<ValueV> {
    Some(ValueV::Boolean(truthy(l) && truthy(r)))
}

/// `or` as a plain operator: one of the operands counts as true.
pub open spec fn disjunction(l: ValueV, r: ValueV) -> Option<ValueV> {
    Some(ValueV::Boolean(truthy(l) || truthy(r)))
}

/// The order of two values: that of the numbers they count as. Strings,
/// `nil` and functions are ordered with nothing.
pub open spec fn ordering(l: ValueV, r: ValueV) -> Option<Ordering> {
    match (numeric(l), numeric(r)) {
        (Some(a), Some(b)) => order(a, b),
        _ => None,
    }
}

/// Whether a comparison operator holds of two operands in the given order.
/// A token kind that is no comparison operator holds of nothing.
pub open spec fn holds(op: TokenType, o: Ordering) -> bool {
    match op {
        TokenType::BangEqual => o != Ordering::Equal,
        TokenType::EqualEqual => o == Ordering::Equal,
        TokenType::Greater => o == Ordering::Greater,
        TokenType::GreaterEqual => o != Ordering::Less,
        TokenType::Less => o == Ordering::Less,
        TokenType::LessEqual => o != Ordering::Greater,
        _ => false,
    }
}

/// A comparison of two values: a boolean where they are ordered.
pub open spec fn comparison(op: TokenType, l: ValueV, r: ValueV) -> Option<ValueV> {
    match ordering(l, r) {
        Some(o) => Some(ValueV::Boolean(holds(op, o))),
        None => None,
    }
}

/// Writes `s` `n` times in a row.
pub fn repeat(s: &String, n: usize) -> (r: String)
    ensures
        r@ == repeated(s@, n as nat),
{
    let mut out = String::new();
    let mut i: usize = 0;
    while i < n
        invariant
            i <= n,
            out@ == repeated(s@, i as nat),
        decreases n - i,
    {
        out.append(s.as_str());
        i = i + 1;
    }
    out
}

impl LiteralValue {
    pub fn is_truthy(&self) -> (r: bool)
        ensures
            r == truthy(self@),
    {
        match self {
            LiteralValue::Nil => false,
            LiteralValue::Boolean(b) => *b,
            _ => true,
        }
    }

    /// The number this value counts as in arithmetic.
    pub fn as_number(&self) -> (r: Option<u64>)
        ensures
            r == numeric(self@),
    {
        match self {
            LiteralValue::NumValue(n) => Some(*n),
            LiteralValue::Boolean(b) => Some(from_bool(*b)),
            _ => None,
        }
    }

    pub fn neg(self) -> (r: Result<LiteralValue, TokenError>)
        ensures
            outcome(r) == negation(self@),
    {
        match self {
            LiteralValue::NumValue(n) => Ok(LiteralValue::NumValue(negate(n))),
            _ => Err(TokenError),
        }
    }

    pub fn not(self) -> (r: Result<LiteralValue, TokenError>)
        ensures
            outcome(r) == inversion(self@),
    {
        Ok(LiteralValue::Boolean(!self.is_truthy()))
    }

    fn numbers<A: Fn(ArithOp, u64, u64) -> u64>(
        self,
        rhs: LiteralValue,
        op: ArithOp,
        arith: &A,
    ) -> (r: Result<LiteralValue, TokenError>)
        requires
            functional(arith),
        ensures
            outcome(r) == arithmetic(oracle(arith), op, self@, rhs@),
    {
        match (self.as_number(), rhs.as_number()) {
            (Some(a), Some(b)) => Ok(LiteralValue::NumValue(apply(arith, op, a, b))),
            _ => Err(TokenError),
        }
    }

    pub fn add<A: Fn(ArithOp, u64, u64) -> u64>(self, rhs: LiteralValue, arith: &A) -> (r: Result<
        LiteralValue,
        TokenError,
    >)
        requires
            functional(arith),
        ensures
            outcome(r) == sum(oracle(arith), self@, rhs@),
    {
        match (self, rhs) {
            (LiteralValue::StringValue(a), LiteralValue::StringValue(b)) => Ok(
                LiteralValue::StringValue(a.concat(b.as_str())),
            ),
            (l, r) => l.numbers(r, ArithOp::Add, arith),
        }
    }

    pub fn sub<A: Fn(ArithOp, u64, u64) -> u64>(self, rhs: LiteralValue, arith: &A) -> (r: Result<
        LiteralValue,
        TokenError,
    >)
        requires
            functional(arith),
        ensures
            outcome(r) == difference(oracle(arith), self@, rhs@),
    {
        self.numbers(rhs, ArithOp::Sub, arith)
    }

    pub fn mul<A: Fn(ArithOp, u64, u64) -> u64>(self, rhs: LiteralValue, arith: &A) -> (r: Result<
        LiteralValue,
        TokenError,
    >)
        requires
            functional(arith),
        ensures
            outcome(r) == product(oracle(arith), self@, rhs@),
    {
        match self {
            LiteralValue::StringValue(s) => match rhs.as_number() {
                Some(n) => Ok(LiteralValue::StringValue(repeat(&s, truncate(n)))),
                None => Err(TokenError),
            },
            l => l.numbers(rhs, ArithOp::Mul, arith),
        }
    }

    pub fn div<A: Fn(ArithOp, u64, u64) -> u64>(self, rhs: LiteralValue, arith: &A) -> (r: Result<
        LiteralValue,
        TokenError,
    >)
        requires
            functional(arith),
        ensures
            outcome(r) == quotient(oracle(arith), self@, rhs@),
    {
        self.numbers(rhs, ArithOp::Div, arith)
    }

    pub fn bitand(self, rhs: LiteralValue) -> (r: Result<LiteralValue, TokenError>)
        ensures
            outcome(r) == conjunction(self@, rhs@),
    {
        Ok(LiteralValue::Boolean(self.is_truthy() && rhs.is_truthy()))
    }

    pub fn bitor(self, rhs: LiteralValue) -> (r: Result<LiteralValue, TokenError>)
        ensures
            outcome(r) == disjunction(self@, rhs@),
    {
        Ok(LiteralValue::Boolean(self.is_truthy() || rhs.is_truthy()))
    }

    /// Applies a comparison operator.
    pub fn compare(op: TokenType, lhs: &LiteralValue, rhs: &LiteralValue) -> (r: Result<
        LiteralValue,
        TokenError,
    >)
        ensures
            outcome(r) == comparison(op, lhs@, rhs@),
    {
        match lhs.partial_cmp(rhs) {
            Some(o) => {
                let less = match o {
                    Ordering::Less => true,
                    _ => false,
                };
                let equal = match o {
                    Ordering::Equal => true,
                    _ => false,
                };
                let greater = match o {
                    Ordering::Greater => true,
                    _ => false,
                };
                let b = match op {
                    TokenType::BangEqual => !equal,
                    TokenType::EqualEqual => equal,
                    TokenType::Greater => greater,
                    TokenType::GreaterEqual => !less,
                    TokenType::Less => less,
                    TokenType::LessEqual => !greater,
                    _ => false,
                };
                Ok(LiteralValue::Boolean(b))
            },
            None => Err(TokenError),
        }
    }

    pub fn partial_cmp(&self, other: &LiteralValue) -> (r: Option<Ordering>)
        ensures
            r == ordering(self@, other@),
    {
        match (self.as_number(), other.as_number()) {
            (Some(a), Some(b)) => compare(a, b),
            _ => None,
        }
    }
}

/// The kinds of token.
#[derive(Clone, Copy, Debug, PartialEq, Eq, Structural)]
pub enum TokenType {
    LeftParen,
    RightParen,
    LeftBrace,
    RightBrace,
    Comma,
    Dot,
    Minus,
    Plus,
    SemiColon,
    Slash,
    Star,
    Bang,
    BangEqual,
    Equal,
    EqualEqual,
    Greater,
    GreaterEqual,
    Less,
    LessEqual,
    Identifier,
    StringToken,
    Number,
    And,
    Class,
    Else,
    False,
    Fun,
    For,
    If,
    Nil,
    Or,
    Print,
    Return,
    Super,
    This,
    True,
    Var,
    While,
    Eof,
}

impl TokenType {
    /// The name under which a kind is printed.
    pub open spec fn text(self) -> Seq<char> {
        match self {
            TokenType::LeftParen => "("@,
            TokenType::RightParen => ")"@,
            TokenType::LeftBrace => "{"@,
            TokenType::RightBrace => "}"@,
            TokenType::Comma => ","@,
            TokenType::Dot => "."@,
            TokenType::Minus => "-"@,
            TokenType::Plus => "+"@,
            TokenType::SemiColon => ";"@,
            TokenType::Slash => "/"@,
            TokenType::Star => "*"@,
            TokenType::Bang => "!"@,
            TokenType::BangEqual => "!="@,
            TokenType::Equal => "="@,
            TokenType::EqualEqual => "=="@,
            TokenType::Greater => ">"@,
            TokenType::GreaterEqual => ">="@,
            TokenType::Less => "<"@,
            TokenType::LessEqual => "<="@,
            TokenType::Identifier => "Identifier"@,
            TokenType::StringToken => "String"@,
            TokenType::Number => "Number"@,
            TokenType::And => "&"@,
            TokenType::Class => "CLASS"@,
            TokenType::Else => "ELSE"@,
            TokenType::False => "FALSE"@,
            TokenType::Fun => "FUN"@,
            TokenType::For => "FOR"@,
            TokenType::If => "IF"@,
            TokenType::Nil => "NIL"@,
            TokenType::Or => "OR"@,
            TokenType::Print => "PRINT"@,
            TokenType::Return => "RETURN"@,
            TokenType::Super => "SUPER"@,
            TokenType::This => "THIS"@,
            TokenType::True => "TRUE"@,
            TokenType::Var => "VAR"@,
            TokenType::While => "WHILE"@,
            TokenType::Eof => "EOF"@,
        }
    }

    pub fn to_string(&self) -> (r: String)
        ensures
            r@ == self.text(),
    {
        match self {
            TokenType::LeftParen => "(".to_owned(),
            TokenType::RightParen => ")".to_owned(),
            TokenType::LeftBrace => "{".to_owned(),
            TokenType::RightBrace => "}".to_owned(),
            TokenType::Comma => ",".to_owned(),
            TokenType::Dot => ".".to_owned(),
            TokenType::Minus => "-".to_owned(),
            TokenType::Plus => "+".to_owned(),
            TokenType::SemiColon => ";".to_owned(),
            TokenType::Slash => "/".to_owned(),
            TokenType::Star => "*".to_owned(),
            TokenType::Bang => "!".to_owned(),
            TokenType::BangEqual => "!=".to_owned(),
            TokenType::Equal => "=".to_owned(),
            TokenType::EqualEqual => "==".to_owned(),
            TokenType::Greater => ">".to_owned(),
            TokenType::GreaterEqual => ">=".to_owned(),
            TokenType::Less => "<".to_owned(),
            TokenType::LessEqual => "<=".to_owned(),
            TokenType::Identifier => "Identifier".to_owned(),
            TokenType::StringToken => "String".to_owned(),
            TokenType::Number => "Number".to_owned(),
            TokenType::And => "&".to_owned(),
            TokenType::Class => "CLASS".to_owned(),
            TokenType::Else => "ELSE".to_owned(),
            TokenType::False => "FALSE".to_owned(),
            TokenType::Fun => "FUN".to_owned(),
            TokenType::For => "FOR".to_owned(),
            TokenType::If => "IF".to_owned(),
            TokenType::Nil => "NIL".to_owned(),
            TokenType::Or => "OR".to_owned(),
            TokenType::Print => "PRINT".to_owned(),
            TokenType::Return => "RETURN".to_owned(),
            TokenType::Super => "SUPER".to_owned(),
            TokenType::This => "THIS".to_owned(),
            TokenType::True => "TRUE".to_owned(),
            TokenType::Var => "VAR".to_owned(),
            TokenType::While => "WHILE".to_owned(),
            TokenType::Eof => "EOF".to_owned(),
        }
    }
}

/// A token: its kind, the text it was read from, its literal value and the
/// line it stands on.
#[derive(Debug, PartialEq)]
pub struct Token {
    pub token_type: TokenType,
    pub lexeme: String,
    pub literal: LiteralValue,
    pub line: i32,
}

/// The mathematical value that a `Token` stands for.
pub struct TokenV {
    pub token_type: TokenType,
    pub lexeme: Seq<char>,
    pub literal: ValueV,
    pub line: int,
}

impl View for Token {
    type V = TokenV;

    open spec fn view(&self) -> TokenV {
        TokenV {
            token_type: self.token_type,
            lexeme: self.lexeme@,
            literal: self.literal@,
            line: self.line as int,
        }
    }
}

impl Clone for Token {
    fn clone(&self) -> (r: Token)
        ensures
            r == *self,
    {
        Token {
            token_type: self.token_type,
            lexeme: self.lexeme.clone(),
            literal: self.literal.clone(),
            line: self.line,
        }
    }
}

impl Token {
    pub fn new(token_type: TokenType, lexeme: String, literal: LiteralValue, line: i32) -> (r: Token)
        ensures
            r.token_type == token_type,
            r.lexeme == lexeme,
            r.literal == literal,
            r.line == line,
    {
        Token { token_type, lexeme, literal, line }
    }
}

/// Whether `r` is a text under which the value is shown. A number is shown
/// as `number` writes it; every other value has one text.
pub open spec fn shown<F: Fn(u64) -> String>(v: ValueV, number: &F, r: String) -> bool {
    match v {
        ValueV::Nil => r@ == "nil"@,
        ValueV::Boolean(b) => r@ == if b {
            "true"@
        } else {
            "false"@
        },
        ValueV::StringValue(s) => r@ == s,
        ValueV::NumValue(n) => number.ensures((n,), r),
        ValueV::Function(FunctionEnum::Native(_)) => r@ == "<native fn>"@,
        ValueV::Function(FunctionEnum::User(_)) => r@ == "<fn>"@,
    }
}

impl LiteralValue {
    /// The text under which the value is shown. `number` writes a double.
    pub fn to_string<F: Fn(u64) -> String>(&self, number: &F) -> (r: String)
        requires
            forall|n: u64| number.requires((n,)),
        ensures
            shown(self@, number, r),
    {
        match self {
            LiteralValue::Nil => "nil".to_owned(),
            LiteralValue::Boolean(b) => if *b {
                "true".to_owned()
            } else {
                "false".to_owned()
            },
            LiteralValue::StringValue(s) => s.clone(),
            LiteralValue::NumValue(n) => number(*n),
            LiteralValue::Function(FunctionEnum::Native(_)) => "<native fn>".to_owned(),
            LiteralValue::Function(FunctionEnum::User(_)) => "<fn>".to_owned(),
        }
    }
}

impl Token {
    /// The token in one line: the name of its kind, its text and its
    /// literal value, with a space between them.
    pub fn to_string<F: Fn(u64) -> String>(&self, number: &F) -> (r: String)
        requires
            forall|n: u64| number.requires((n,)),
        ensures
            exists|literal: String| #[trigger]
                shown(self.literal@, number, literal) && r@ == self.token_type.text() + " "@
                    + self.lexeme@ + " "@ + literal@,
    {
        let literal = self.literal.to_string(number);
        let mut out = self.token_type.to_string();
        out.append(" ");
        out.append(self.lexeme.as_str());
        out.append(" ");
        out.append(literal.as_str());
        assert(shown(self.literal@, number, literal) && out@ == self.token_type.text() + " "@
            + self.lexeme@ + " "@ + literal@);
        out
    }
}

} // verus!
