//! The parser: from tokens to statements, by recursive descent.

use crate::ast::{optional_expr_view, stmts_view, tokens_view, Expr, ExprV, Stmt, StmtV};
use crate::scanner::end_token;
use crate::token::{LiteralValue, Token, TokenType, TokenV, ValueV};
use vstd::prelude::*;
use vstd::string::*;

verus! {

/// A violation of the grammar: the token at which it was found, and what
/// was expected there.
#[derive(Debug, PartialEq)]
pub struct ParseError {
    pub token: Token,
    pub message: String,
}

/// The mathematical value that a `ParseError` stands for.
pub struct ParseErrorV {
    pub token: TokenV,
    pub message: Seq<char>,
}

impl View for ParseError {
    type V = ParseErrorV;

    open spec fn view(&self) -> ParseErrorV {
        ParseErrorV { token: self.token@, message: self.message@ }
    }
}

/// What parsing an expression gives, and the number of tokens read.
pub type ParsedExpr = (Result<ExprV, ParseErrorV>, nat);

/// What parsing a statement gives, the number of tokens read, and the
/// errors of the declarations that were given up inside it.
pub type ParsedStmt = (Result<StmtV, ParseErrorV>, nat, Seq<ParseErrorV>);

/// The tokens end with the end token.
pub open spec fn well_ended(ts: Seq<TokenV>) -> bool {
    ts.len() > 0 && ts.last().token_type == TokenType::Eof
}

/// The kind of the token at `pos`; beyond the tokens stands the end.
pub open spec fn kind_at(ts: Seq<TokenV>, pos: int) -> TokenType {
    if 0 <= pos < ts.len() {
        ts[pos].token_type
    } else {
        TokenType::Eof
    }
}

/// The token at `pos` is the end token.
pub open spec fn at_end(ts: Seq<TokenV>, pos: int) -> bool {
    kind_at(ts, pos) == TokenType::Eof
}

/// The token at `pos` is of the given kind, and not the end token.
pub open spec fn check(ts: Seq<TokenV>, pos: int, kind: TokenType) -> bool {
    kind != TokenType::Eof && kind_at(ts, pos) == kind
}

/// The number of tokens from `pos` on.
pub open spec fn left(ts: Seq<TokenV>, pos: int) -> nat {
    if pos < ts.len() {
        (ts.len() - pos) as nat
    } else {
        0
    }
}

/// The error of a token that was expected at `pos` and does not stand
/// there.
pub open spec fn expected(ts: Seq<TokenV>, pos: int, message: Seq<char>) -> ParseErrorV {
    ParseErrorV { token: ts[pos], message }
}

/// Whether a kind of token is an operator of a level of precedence:
/// 1 for `/ *`, 2 for `- +`, 3 for `> >= < <=`, 4 for `!= ==`, 5 for `and`,
/// 6 for `or`.
pub open spec fn operator_of(level: nat, kind: TokenType) -> bool {
    if level == 1 {
        kind == TokenType::Slash || kind == TokenType::Star
    } else if level == 2 {
        kind == TokenType::Minus || kind == TokenType::Plus
    } else if level == 3 {
        kind == TokenType::Greater || kind == TokenType::GreaterEqual || kind == TokenType::Less
            || kind == TokenType::LessEqual
    } else if level == 4 {
        kind == TokenType::BangEqual || kind == TokenType::EqualEqual
    } else if level == 5 {
        kind == TokenType::And
    } else if level == 6 {
        kind == TokenType::Or
    } else {
        false
    }
}

/// The node of two operands and an operator of a level: `and` and `or`
/// make a logical node, all others a binary one.
pub open spec fn combine(level: nat, left: ExprV, operator: TokenV, right: ExprV) -> ExprV {
    if level >= 5 {
        ExprV::Logical { left: Box::new(left), operator, right: Box::new(right) }
    } else {
        ExprV::Binary { left: Box::new(left), operator, right: Box::new(right) }
    }
}

/// `primary`: a literal, a name, or an expression in parentheses.
pub open spec fn primary(ts: Seq<TokenV>, pos: int) -> ParsedExpr
    decreases left(ts, pos), 0nat,
{
    let kind = kind_at(ts, pos);
    if kind == TokenType::False {
        (Ok(ExprV::Literal { value: ValueV::Boolean(false) }), 1)
    } else if kind == TokenType::True {
        (Ok(ExprV::Literal { value: ValueV::Boolean(true) }), 1)
    } else if kind == TokenType::Nil {
        (Ok(ExprV::Literal { value: ValueV::Nil }), 1)
    } else if kind == TokenType::Number || kind == TokenType::StringToken {
        (Ok(ExprV::Literal { value: ts[pos].literal }), 1)
    } else if kind == TokenType::Identifier {
        (Ok(ExprV::Variable { name: ts[pos] }), 1)
    } else if kind == TokenType::LeftParen {
        let (inner, used) = expression(ts, pos + 1);
        match inner {
            Err(e) => (Err(e), 1 + used),
            Ok(e) => if check(ts, pos + 1 + used, TokenType::RightParen) {
                (Ok(ExprV::Grouping { expression: Box::new(e) }), 2 + used)
            } else {
                (Err(expected(ts, pos + 1 + used, "Expect ')' after expression."@)), 1 + used)
            },
        }
    } else {
        (Err(expected(ts, pos, "Expect expression."@)), 0)
    }
}

/// `unary`: `!` or `-` before a unary, or a primary.
pub open spec fn unary(ts: Seq<TokenV>, pos: int) -> ParsedExpr
    decreases left(ts, pos), 1nat,
{
    if check(ts, pos, TokenType::Bang) || check(ts, pos, TokenType::Minus) {
        let (operand, used) = unary(ts, pos + 1);
        match operand {
            Err(e) => (Err(e), 1 + used),
            Ok(right) => (Ok(ExprV::Unary { operator: ts[pos], right: Box::new(right) }), 1 + used),
        }
    } else {
        primary(ts, pos)
    }
}

/// The expressions of a level of precedence: operands of the level below,
/// joined from left to right by operators of the level. Level 0 is `unary`.
pub open spec fn binary(ts: Seq<TokenV>, pos: int, level: nat) -> ParsedExpr
    decreases left(ts, pos), 2 * level + 3,
{
    if level == 0 {
        unary(ts, pos)
    } else {
        let (first, used) = binary(ts, pos, (level - 1) as nat);
        match first {
            Err(e) => (Err(e), used),
            Ok(operand) => {
                let (all, more) = binary_rest(ts, pos + used, level, operand);
                (all, used + more)
            },
        }
    }
}

/// What follows a left operand on its level.
pub open spec fn binary_rest(ts: Seq<TokenV>, pos: int, level: nat, operand: ExprV) -> ParsedExpr
    decreases left(ts, pos), 2 * level + 2,
{
    if level > 0 && operator_of(level, kind_at(ts, pos)) {
        let (second, used) = binary(ts, pos + 1, (level - 1) as nat);
        match second {
            Err(e) => (Err(e), 1 + used),
            Ok(right) => {
                let (all, more) = binary_rest(
                    ts,
                    pos + 1 + used,
                    level,
                    combine(level, operand, ts[pos], right),
                );
                (all, 1 + used + more)
            },
        }
    } else {
        (Ok(operand), 0)
    }
}

/// `assignment`: an `or` expression, or a name, `=` and an assignment.
pub open spec fn assignment(ts: Seq<TokenV>, pos: int) -> ParsedExpr
    decreases left(ts, pos), 20nat,
{
    let (target, used) = binary(ts, pos, 6);
    match target {
        Err(e) => (Err(e), used),
        Ok(expr) => if check(ts, pos + used, TokenType::Equal) {
            let (value, more) = assignment(ts, pos + used + 1);
            match value {
                Err(e) => (Err(e), used + 1 + more),
                Ok(v) => match expr {
                    ExprV::Variable { name } => (
                        Ok(ExprV::Assign { name, value: Box::new(v) }),
                        used + 1 + more,
                    ),
                    _ => (
                        Err(
                            ParseErrorV {
                                token: ts[pos + used],
                                message: "Invalid assignment target."@,
                            },
                        ),
                        used + 1 + more,
                    ),
                },
            }
        } else {
            (Ok(expr), used)
        },
    }
}

/// `expression`: an assignment.
#[verifier::opaque]
pub open spec fn expression(ts: Seq<TokenV>, pos: int) -> ParsedExpr
    decreases left(ts, pos), 21nat,
{
    assignment(ts, pos)
}

/// The token of the given kind that must stand at `pos`: one token read, or
/// the error with the given message.
pub open spec fn consume(ts: Seq<TokenV>, pos: int, kind: TokenType, message: Seq<char>) -> Option<
    ParseErrorV,
> {
    if check(ts, pos, kind) {
        None
    } else {
        Some(expected(ts, pos, message))
    }
}

/// An expression and the `;` after it. `message` is the error for a
/// missing `;`.
pub open spec fn terminated(ts: Seq<TokenV>, pos: int, message: Seq<char>) -> ParsedExpr {
    let (value, used) = expression(ts, pos);
    match value {
        Err(e) => (Err(e), used),
        Ok(v) => match consume(ts, pos + used, TokenType::SemiColon, message) {
            Some(e) => (Err(e), used),
            None => (Ok(v), used + 1),
        },
    }
}

/// An expression statement.
pub open spec fn expression_statement(ts: Seq<TokenV>, pos: int) -> ParsedStmt {
    let (r, used) = terminated(ts, pos, "Expect ';' after expression."@);
    (
        match r {
            Ok(e) => Ok(StmtV::Expression { expression: e }),
            Err(e) => Err(e),
        },
        used,
        Seq::empty(),
    )
}

/// What follows `print`.
pub open spec fn print_statement(ts: Seq<TokenV>, pos: int) -> ParsedStmt {
    let (r, used) = terminated(ts, pos, "Expect ';' after value."@);
    (
        match r {
            Ok(e) => Ok(StmtV::Print { expression: e }),
            Err(e) => Err(e),
        },
        used,
        Seq::empty(),
    )
}

/// What follows `var`.
pub open spec fn var_declaration(ts: Seq<TokenV>, pos: int) -> ParsedStmt {
    match consume(ts, pos, TokenType::Identifier, "Expect variable name."@) {
        Some(e) => (Err(e), 0, Seq::empty()),
        None => if check(ts, pos + 1, TokenType::Equal) {
            let (r, used) = terminated(ts, pos + 2, "Expect ';' after variable declaration."@);
            (
                match r {
                    Ok(e) => Ok(StmtV::Variable { name: ts[pos], initializer: Some(e) }),
                    Err(e) => Err(e),
                },
                2 + used,
                Seq::empty(),
            )
        } else {
            match consume(
                ts,
                pos + 1,
                TokenType::SemiColon,
                "Expect ';' after variable declaration."@,
            ) {
                Some(e) => (Err(e), 1, Seq::empty()),
                None => (Ok(StmtV::Variable { name: ts[pos], initializer: None }), 2, Seq::empty()),
            }
        },
    }
}

/// Whether a statement or a declaration begins with a token of this kind.
pub open spec fn begins_statement(kind: TokenType) -> bool {
    kind == TokenType::Class || kind == TokenType::Fun || kind == TokenType::Var || kind
        == TokenType::For || kind == TokenType::If || kind == TokenType::While || kind
        == TokenType::Print || kind == TokenType::Return
}

/// The number of tokens given up from `pos` on, the token before `pos`
/// being given up already: up to the token after a `;`, to a token that
/// begins a statement, or to the end.
pub open spec fn synchronize_rest(ts: Seq<TokenV>, pos: int) -> nat
    decreases left(ts, pos),
{
    if at_end(ts, pos) || kind_at(ts, pos - 1) == TokenType::SemiColon || begins_statement(
        kind_at(ts, pos),
    ) {
        0
    } else {
        1 + synchronize_rest(ts, pos + 1)
    }
}

/// The number of tokens given up after an error at `pos`: the token at
/// `pos`, and those after it up to a place where a statement can begin.
pub open spec fn synchronize(ts: Seq<TokenV>, pos: int) -> nat {
    if at_end(ts, pos) {
        0
    } else {
        1 + synchronize_rest(ts, pos + 1)
    }
}

/// One error, or none, as a sequence.
pub open spec fn failed<T>(r: Result<T, ParseErrorV>) -> Seq<ParseErrorV> {
    match r {
        Ok(_) => Seq::empty(),
        Err(e) => seq![e],
    }
}

/// One statement, or none, as a sequence.
pub open spec fn parsed(r: Result<StmtV, ParseErrorV>) -> Seq<StmtV> {
    match r {
        Ok(s) => seq![s],
        Err(_) => Seq::empty(),
    }
}

/// The number of tokens that a declaration in a list is counted for: at
/// least one. A declaration that does not begin at the end takes at least
/// one token by itself (`lemma_declaration_progress`); counting this way
/// makes it plain that a list comes to its end.
pub open spec fn step(used: nat) -> nat {
    if used == 0 {
        1
    } else {
        used
    }
}

/// The loop that `for` stands for: a block of the initializer and a
/// `while`, whose condition is `true` where none is given and whose body is
/// followed by the increment, in a block of the two, where one is given.
pub open spec fn desugar(
    initializer: StmtV,
    condition: Option<ExprV>,
    increment: Option<ExprV>,
    body: StmtV,
) -> StmtV {
    let stepped = match increment {
        Some(inc) => StmtV::Block { statements: seq![body, StmtV::Expression { expression: inc }] },
        None => body,
    };
    let looped = StmtV::While {
        condition: match condition {
            Some(c) => c,
            None => ExprV::Literal { value: ValueV::Boolean(true) },
        },
        body: Box::new(stepped),
    };
    StmtV::Block { statements: seq![initializer, looped] }
}

/// `declaration`: `var` and a variable declaration, or a statement. After
/// an error the tokens up to the next statement are given up.
#[verifier::opaque]
pub open spec fn declaration(ts: Seq<TokenV>, pos: int) -> ParsedStmt
    decreases left(ts, pos), 60nat,
{
    let (r, used, errors) = if check(ts, pos, TokenType::Var) {
        let (r, used, errors) = var_declaration(ts, pos + 1);
        (r, 1 + used, errors)
    } else {
        statement(ts, pos)
    };
    match r {
        Ok(s) => (Ok(s), used, errors),
        Err(e) => (Err(e), used + synchronize(ts, pos + used), errors),
    }
}

/// `statement`: a loop, a conditional, a `print`, a block, or an
/// expression statement.
#[verifier::opaque]
pub open spec fn statement(ts: Seq<TokenV>, pos: int) -> ParsedStmt
    decreases left(ts, pos), 50nat,
{
    if check(ts, pos, TokenType::For) {
        let (r, used, errors) = for_statement(ts, pos + 1);
        (r, 1 + used, errors)
    } else if check(ts, pos, TokenType::If) {
        let (r, used, errors) = if_statement(ts, pos + 1);
        (r, 1 + used, errors)
    } else if check(ts, pos, TokenType::Print) {
        let (r, used, errors) = print_statement(ts, pos + 1);
        (r, 1 + used, errors)
    } else if check(ts, pos, TokenType::While) {
        let (r, used, errors) = while_statement(ts, pos + 1);
        (r, 1 + used, errors)
    } else if check(ts, pos, TokenType::LeftBrace) {
        let (r, used, errors) = block(ts, pos + 1);
        (
            match r {
                Ok(statements) => Ok(StmtV::Block { statements }),
                Err(e) => Err(e),
            },
            1 + used,
            errors,
        )
    } else {
        expression_statement(ts, pos)
    }
}

/// What follows `{`: a name for the rule below, which the other rules go
/// through.
#[verifier::opaque]
pub open spec fn block(ts: Seq<TokenV>, pos: int) -> (
    Result<Seq<StmtV>, ParseErrorV>,
    nat,
    Seq<ParseErrorV>,
)
    decreases left(ts, pos), 71nat,
{
    block_rule(ts, pos)
}

/// What follows `{`: declarations up to `}`. A declaration that fails is
/// left out, and its error noted.
#[verifier::opaque]
pub open spec fn block_rule(ts: Seq<TokenV>, pos: int) -> (
    Result<Seq<StmtV>, ParseErrorV>,
    nat,
    Seq<ParseErrorV>,
)
    decreases left(ts, pos), 70nat,
{
    if check(ts, pos, TokenType::RightBrace) {
        (Ok(Seq::empty()), 1, Seq::empty())
    } else if at_end(ts, pos) {
        (Err(expected(ts, pos, "Expect '}' after block."@)), 0, Seq::empty())
    } else {
        let (r, used, errors) = declaration(ts, pos);
        let (rest, more, later) = block(ts, pos + step(used));
        (
            match rest {
                Ok(statements) => Ok(parsed(r) + statements),
                Err(e) => Err(e),
            },
            step(used) + more,
            errors + failed(r) + later,
        )
    }
}

/// What follows `while`: a name for the rule below, which the other rules go
/// through.
#[verifier::opaque]
pub open spec fn while_statement(ts: Seq<TokenV>, pos: int) -> ParsedStmt
    decreases left(ts, pos), 32nat,
{
    while_rule(ts, pos)
}

/// What follows `while`.
#[verifier::opaque]
pub open spec fn while_rule(ts: Seq<TokenV>, pos: int) -> ParsedStmt
    decreases left(ts, pos), 31nat,
{
    match consume(ts, pos, TokenType::LeftParen, "Expect '(' after 'while'."@) {
        Some(e) => (Err(e), 0, Seq::empty()),
        None => {
            let (c, used) = expression(ts, pos + 1);
            match c {
                Err(e) => (Err(e), 1 + used, Seq::empty()),
                Ok(condition) => match consume(
                    ts,
                    pos + 1 + used,
                    TokenType::RightParen,
                    "Expect ')' after condition. "@,
                ) {
                    Some(e) => (Err(e), 1 + used, Seq::empty()),
                    None => {
                        let (b, more, errors) = statement(ts, pos + 2 + used);
                        (
                            match b {
                                Ok(body) => Ok(StmtV::While { condition, body: Box::new(body) }),
                                Err(e) => Err(e),
                            },
                            2 + used + more,
                            errors,
                        )
                    },
                },
            }
        },
    }
}

/// What follows `if`: a name for the rule below, which the other rules go
/// through.
#[verifier::opaque]
pub open spec fn if_statement(ts: Seq<TokenV>, pos: int) -> ParsedStmt
    decreases left(ts, pos), 32nat,
{
    if_rule(ts, pos)
}

/// What follows `if`. Where the first branch fails, an `else` branch is
/// still read before the failure is passed on.
#[verifier::opaque]
pub open spec fn if_rule(ts: Seq<TokenV>, pos: int) -> ParsedStmt
    decreases left(ts, pos), 31nat,
{
    match consume(ts, pos, TokenType::LeftParen, "Expect '(' after 'if'"@) {
        Some(e) => (Err(e), 0, Seq::empty()),
        None => {
            let (c, used) = expression(ts, pos + 1);
            match c {
                Err(e) => (Err(e), 1 + used, Seq::empty()),
                Ok(condition) => match consume(
                    ts,
                    pos + 1 + used,
                    TokenType::RightParen,
                    "Expect ')' after if condition."@,
                ) {
                    Some(e) => (Err(e), 1 + used, Seq::empty()),
                    None => {
                        let (t, more, errors) = statement(ts, pos + 2 + used);
                        let next = pos + 2 + used + more;
                        if check(ts, next, TokenType::Else) {
                            let (o, last, later) = statement(ts, next + 1);
                            (
                                match o {
                                    Err(e) => Err(e),
                                    Ok(other) => match t {
                                        Err(e) => Err(e),
                                        Ok(then_branch) => Ok(
                                            StmtV::If {
                                                condition,
                                                then_branch: Box::new(then_branch),
                                                else_branch: Some(Box::new(other)),
                                            },
                                        ),
                                    },
                                },
                                3 + used + more + last,
                                errors + later,
                            )
                        } else {
                            (
                                match t {
                                    Err(e) => Err(e),
                                    Ok(then_branch) => Ok(
                                        StmtV::If {
                                            condition,
                                            then_branch: Box::new(then_branch),
                                            else_branch: None,
                                        },
                                    ),
                                },
                                2 + used + more,
                                errors,
                            )
                        }
                    },
                },
            }
        },
    }
}

/// An expression that may be left out before a token of the kind `end`,
/// and that token.
pub open spec fn clause(ts: Seq<TokenV>, pos: int, end: TokenType, message: Seq<char>) -> (
    Result<Option<ExprV>, ParseErrorV>,
    nat,
) {
    if check(ts, pos, end) {
        (Ok(None), 1)
    } else {
        let (r, used) = expression(ts, pos);
        match r {
            Err(e) => (Err(e), used),
            Ok(e) => match consume(ts, pos + used, end, message) {
                Some(error) => (Err(error), used),
                None => (Ok(Some(e)), used + 1),
            },
        }
    }
}

/// What follows `for`: a name for the rule below, which the other rules go
/// through.
#[verifier::opaque]
pub open spec fn for_statement(ts: Seq<TokenV>, pos: int) -> ParsedStmt
    decreases left(ts, pos), 32nat,
{
    for_rule(ts, pos)
}

/// What follows `for`: `(`, an initializer, a condition and `;`, an
/// increment and `)`, of which the last two may be left out, and a body.
#[verifier::opaque]
pub open spec fn for_rule(ts: Seq<TokenV>, pos: int) -> ParsedStmt
    decreases left(ts, pos), 31nat,
{
    match consume(ts, pos, TokenType::LeftParen, "Expect '(' after 'for'."@) {
        Some(e) => (Err(e), 0, Seq::empty()),
        None => {
            let (i, used, _none) = if check(ts, pos + 1, TokenType::Var) {
                let (r, used, errors) = var_declaration(ts, pos + 2);
                (r, 1 + used, errors)
            } else {
                expression_statement(ts, pos + 1)
            };
            match i {
                Err(e) => (Err(e), 1 + used, Seq::empty()),
                Ok(initializer) => {
                    let (c, second) = clause(
                        ts,
                        pos + 1 + used,
                        TokenType::SemiColon,
                        "Expect ';' after loop condition."@,
                    );
                    match c {
                        Err(e) => (Err(e), 1 + used + second, Seq::empty()),
                        Ok(condition) => {
                            let (n, third) = clause(
                                ts,
                                pos + 1 + used + second,
                                TokenType::RightParen,
                                "Expect ')' after for clauses."@,
                            );
                            match n {
                                Err(e) => (Err(e), 1 + used + second + third, Seq::empty()),
                                Ok(increment) => {
                                    let (b, more, errors) = statement(
                                        ts,
                                        pos + 1 + used + second + third,
                                    );
                                    (
                                        match b {
                                            Err(e) => Err(e),
                                            Ok(body) => Ok(
                                                desugar(initializer, condition, increment, body),
                                            ),
                                        },
                                        1 + used + second + third + more,
                                        errors,
                                    )
                                },
                            }
                        },
                    }
                },
            }
        },
    }
}

/// The declarations from `pos` up to the end. A declaration that fails is
/// left out, and its error noted.
#[verifier::opaque]
pub open spec fn program(ts: Seq<TokenV>, pos: int) -> (Seq<StmtV>, Seq<ParseErrorV>)
    decreases left(ts, pos), 80nat,
{
    if at_end(ts, pos) {
        (Seq::empty(), Seq::empty())
    } else {
        let (r, used, errors) = declaration(ts, pos);
        let (statements, later) = program(ts, pos + step(used));
        (parsed(r) + statements, errors + failed(r) + later)
    }
}

/// The views of a sequence of errors.
pub open spec fn errors_view(errors: Seq<ParseError>) -> Seq<ParseErrorV> {
    Seq::new(errors.len(), |i: int| errors[i]@)
}

/// The view of what parsing an expression returns.
pub open spec fn expr_result_view(r: Result<Expr, ParseError>) -> Result<ExprV, ParseErrorV> {
    match r {
        Ok(e) => Ok(e@),
        Err(e) => Err(e@),
    }
}

/// The view of what parsing a statement returns.
pub open spec fn stmt_result_view(r: Result<Stmt, ParseError>) -> Result<StmtV, ParseErrorV> {
    match r {
        Ok(s) => Ok(s@),
        Err(e) => Err(e@),
    }
}

/// The parser: the tokens, the place reached in them, and the errors of
/// the declarations given up so far.
#[derive(Debug)]
pub struct Parser {
    pub tokens: Vec<Token>,
    pub current: usize,
    pub errors: Vec<ParseError>,
}

impl Parser {
    /// The tokens as mathematical values.
    pub open spec fn ts(&self) -> Seq<TokenV> {
        tokens_view(self.tokens@)
    }

    /// The tokens end with the end token, and the parser stands at one of
    /// them.
    pub open spec fn ready(&self) -> bool {
        well_ended(self.ts()) && self.current < self.tokens@.len()
    }

    /// The parser has gone on by `used` tokens and is otherwise as it was.
    pub open spec fn moved(&self, before: &Parser, used: nat) -> bool {
        &&& self.tokens == before.tokens
        &&& self.errors == before.errors
        &&& self.current == before.current + used
        &&& self.ready()
    }

    /// The parser has gone on by `used` tokens and has noted `errors`.
    pub open spec fn noted(&self, before: &Parser, used: nat, errors: Seq<ParseErrorV>) -> bool {
        &&& self.tokens == before.tokens
        &&& errors_view(self.errors@) == errors_view(before.errors@) + errors
        &&& self.current == before.current + used
        &&& self.ready()
    }

    /// A parser at the first of the tokens.
    pub fn new(tokens: Vec<Token>) -> (r: Parser)
        ensures
            r.tokens == tokens,
            r.current == 0,
            r.errors@.len() == 0,
    {
        Parser { tokens, current: 0, errors: Vec::new() }
    }

    /// Whether a declaration was given up.
    pub fn had_error(&self) -> (r: bool)
        ensures
            r == (self.errors@.len() > 0),
    {
        self.errors.len() > 0
    }

    fn kind(&self) -> (r: TokenType)
        ensures
            r == kind_at(self.ts(), self.current as int),
    {
        if self.current < self.tokens.len() {
            self.tokens[self.current].token_type
        } else {
            TokenType::Eof
        }
    }

    fn is_at_end(&self) -> (r: bool)
        ensures
            r == at_end(self.ts(), self.current as int),
    {
        self.kind() == TokenType::Eof
    }

    fn check(&self, token_type: TokenType) -> (r: bool)
        ensures
            r == check(self.ts(), self.current as int, token_type),
    {
        token_type != TokenType::Eof && self.kind() == token_type
    }

    fn peek(&self) -> (r: Token)
        requires
            self.current < self.tokens@.len(),
        ensures
            r@ == self.ts()[self.current as int],
    {
        self.tokens[self.current].clone()
    }

    fn previous(&self) -> (r: Token)
        requires
            0 < self.current <= self.tokens@.len(),
        ensures
            r@ == self.ts()[self.current - 1],
    {
        self.tokens[self.current - 1].clone()
    }

    /// Goes on by one token, unless the parser stands at the end.
    fn advance(&mut self)
        requires
            old(self).ready(),
        ensures
            final(self).moved(
                old(self),
                if at_end(old(self).ts(), old(self).current as int) {
                    0
                } else {
                    1
                },
            ),
    {
        if !self.is_at_end() {
            proof {
                vstd::std_specs::vec::axiom_spec_len(&self.tokens);
            }
            self.current = self.current + 1;
        }
    }

    fn match_token(&mut self, token_type: TokenType) -> (r: bool)
        requires
            old(self).ready(),
        ensures
            r == check(old(self).ts(), old(self).current as int, token_type),
            final(self).moved(
                old(self),
                if r {
                    1
                } else {
                    0
                },
            ),
    {
        if self.check(token_type) {
            self.advance();
            true
        } else {
            false
        }
    }

    /// The error of something that was expected at `token`.
    fn error(token: Token, message: &str) -> (r: ParseError)
        ensures
            r@ == (ParseErrorV { token: token@, message: message@ }),
    {
        ParseError { token, message: message.to_owned() }
    }

    fn consume(&mut self, token_type: TokenType, message: &str) -> (r: Result<Token, ParseError>)
        requires
            old(self).ready(),
        ensures
            match r {
                Ok(t) => consume(old(self).ts(), old(self).current as int, token_type, message@)
                    is None && t@ == old(self).ts()[old(self).current as int] && final(self).moved(
                    old(self),
                    1,
                ),
                Err(e) => consume(old(self).ts(), old(self).current as int, token_type, message@)
                    == Some(e@) && final(self).moved(old(self), 0),
            },
    {
        if self.check(token_type) {
            let token = self.peek();
            self.advance();
            Ok(token)
        } else {
            Err(Parser::error(self.peek(), message))
        }
    }

    fn synchronize(&mut self)
        requires
            old(self).ready(),
        ensures
            final(self).moved(old(self), synchronize(old(self).ts(), old(self).current as int)),
    {
        if self.is_at_end() {
            return ;
        }
        self.advance();
        let ghost first = self.current as int;
        while !self.is_at_end()
            invariant
                self.ready(),
                self.tokens == old(self).tokens,
                self.errors == old(self).errors,
                first <= self.current,
                first == old(self).current + 1,
                !at_end(old(self).ts(), old(self).current as int),
                self.current - first + synchronize_rest(self.ts(), self.current as int)
                    == synchronize_rest(self.ts(), first),
            decreases self.tokens@.len() - self.current,
        {
            if self.tokens[self.current - 1].token_type == TokenType::SemiColon {
                return ;
            }
            match self.kind() {
                TokenType::Class => {
                    return ;
                },
                TokenType::Fun => {
                    return ;
                },
                TokenType::Var => {
                    return ;
                },
                TokenType::For => {
                    return ;
                },
                TokenType::If => {
                    return ;
                },
                TokenType::While => {
                    return ;
                },
                TokenType::Print => {
                    return ;
                },
                TokenType::Return => {
                    return ;
                },
                _ => {},
            }
            self.advance();
        }
    }

    fn primary(&mut self) -> (r: Result<Expr, ParseError>)
        requires
            old(self).ready(),
        ensures
            expr_result_view(r) == primary(old(self).ts(), old(self).current as int).0,
            final(self).moved(old(self), primary(old(self).ts(), old(self).current as int).1),
        decreases left(old(self).ts(), old(self).current as int), 0nat,
    {
        reveal(expression);
        if self.match_token(TokenType::False) {
            return Ok(Expr::Literal { value: LiteralValue::Boolean(false) });
        }
        if self.match_token(TokenType::True) {
            return Ok(Expr::Literal { value: LiteralValue::Boolean(true) });
        }
        if self.match_token(TokenType::Nil) {
            return Ok(Expr::Literal { value: LiteralValue::Nil });
        }
        if self.match_token(TokenType::Number) || self.match_token(TokenType::StringToken) {
            return Ok(Expr::Literal { value: self.previous().literal });
        }
        if self.match_token(TokenType::Identifier) {
            return Ok(Expr::Variable { name: self.previous() });
        }
        if self.match_token(TokenType::LeftParen) {
            let expr = match self.expression() {
                Ok(e) => e,
                Err(e) => {
                    return Err(e);
                },
            };
            return match self.consume(TokenType::RightParen, "Expect ')' after expression.") {
                Ok(_) => Ok(Expr::Grouping { expression: Box::new(expr) }),
                Err(e) => Err(e),
            };
        }
        Err(Parser::error(self.peek(), "Expect expression."))
    }

    fn unary(&mut self) -> (r: Result<Expr, ParseError>)
        requires
            old(self).ready(),
        ensures
            expr_result_view(r) == unary(old(self).ts(), old(self).current as int).0,
            final(self).moved(old(self), unary(old(self).ts(), old(self).current as int).1),
        decreases left(old(self).ts(), old(self).current as int), 1nat,
    {
        if self.check(TokenType::Bang) || self.check(TokenType::Minus) {
            let operator = self.peek();
            self.advance();
            return match self.unary() {
                Ok(right) => Ok(Expr::Unary { operator, right: Box::new(right) }),
                Err(e) => Err(e),
            };
        }
        self.primary()
    }

    /// Whether the token at which the parser stands is an operator of the
    /// level.
    fn at_operator(&self, level: u8) -> (r: bool)
        ensures
            r == operator_of(level as nat, kind_at(self.ts(), self.current as int)),
    {
        let kind = self.kind();
        if level == 1 {
            kind == TokenType::Slash || kind == TokenType::Star
        } else if level == 2 {
            kind == TokenType::Minus || kind == TokenType::Plus
        } else if level == 3 {
            kind == TokenType::Greater || kind == TokenType::GreaterEqual || kind
                == TokenType::Less || kind == TokenType::LessEqual
        } else if level == 4 {
            kind == TokenType::BangEqual || kind == TokenType::EqualEqual
        } else if level == 5 {
            kind == TokenType::And
        } else if level == 6 {
            kind == TokenType::Or
        } else {
            false
        }
    }

    /// The expressions of a level of precedence.
    fn binary(&mut self, level: u8) -> (r: Result<Expr, ParseError>)
        requires
            old(self).ready(),
        ensures
            expr_result_view(r) == binary(old(self).ts(), old(self).current as int, level as nat).0,
            final(self).moved(
                old(self),
                binary(old(self).ts(), old(self).current as int, level as nat).1,
            ),
        decreases left(old(self).ts(), old(self).current as int), 2 * level + 3,
    {
        if level == 0 {
            return self.unary();
        }
        let mut expr = match self.binary(level - 1) {
            Ok(e) => e,
            Err(e) => {
                return Err(e);
            },
        };
        let ghost ts = self.ts();
        let ghost first = old(self).current as int;
        let ghost whole = binary(ts, first, level as nat);
        loop
            invariant
                self.ready(),
                level > 0,
                ts == self.ts(),
                self.tokens == old(self).tokens,
                self.errors == old(self).errors,
                first == old(self).current,
                first <= self.current,
                whole == binary(ts, first, level as nat),
                whole.0 == binary_rest(ts, self.current as int, level as nat, expr@).0,
                whole.1 == self.current - first + binary_rest(
                    ts,
                    self.current as int,
                    level as nat,
                    expr@,
                ).1,
            decreases left(ts, self.current as int),
        {
            if !self.at_operator(level) {
                return Ok(expr);
            }
            let operator = self.peek();
            self.advance();
            let right = match self.binary(level - 1) {
                Ok(e) => e,
                Err(e) => {
                    return Err(e);
                },
            };
            expr =
            if level >= 5 {
                Expr::Logical { left: Box::new(expr), operator, right: Box::new(right) }
            } else {
                Expr::Binary { left: Box::new(expr), operator, right: Box::new(right) }
            };
        }
    }

    fn assignment(&mut self) -> (r: Result<Expr, ParseError>)
        requires
            old(self).ready(),
        ensures
            expr_result_view(r) == assignment(old(self).ts(), old(self).current as int).0,
            final(self).moved(old(self), assignment(old(self).ts(), old(self).current as int).1),
        decreases left(old(self).ts(), old(self).current as int), 20nat,
    {
        let expr = match self.binary(6) {
            Ok(e) => e,
            Err(e) => {
                return Err(e);
            },
        };
        if self.check(TokenType::Equal) {
            let equals = self.peek();
            self.advance();
            let value = match self.assignment() {
                Ok(e) => e,
                Err(e) => {
                    return Err(e);
                },
            };
            return match expr {
                Expr::Variable { name } => Ok(Expr::Assign { name, value: Box::new(value) }),
                _ => Err(Parser::error(equals, "Invalid assignment target.")),
            };
        }
        Ok(expr)
    }

    fn expression(&mut self) -> (r: Result<Expr, ParseError>)
        requires
            old(self).ready(),
        ensures
            expr_result_view(r) == expression(old(self).ts(), old(self).current as int).0,
            final(self).moved(old(self), expression(old(self).ts(), old(self).current as int).1),
        decreases left(old(self).ts(), old(self).current as int), 21nat,
    {
        reveal(expression);
        self.assignment()
    }
}

/// An expression that was parsed took at least one token.
pub proof fn lemma_binary_progress(ts: Seq<TokenV>, pos: int, level: nat)
    ensures
        binary(ts, pos, level).0 is Ok ==> binary(ts, pos, level).1 >= 1,
    decreases level,
{
    if level > 0 {
        lemma_binary_progress(ts, pos, (level - 1) as nat);
    } else {
        assert(unary(ts, pos).0 is Ok ==> unary(ts, pos).1 >= 1) by {
            if !(check(ts, pos, TokenType::Bang) || check(ts, pos, TokenType::Minus)) {
                assert(primary(ts, pos).0 is Ok ==> primary(ts, pos).1 >= 1);
            }
        }
    }
}

/// A declaration that does not begin at the end takes at least one token,
/// whether it is parsed or given up.
pub proof fn lemma_declaration_progress(ts: Seq<TokenV>, pos: int)
    requires
        !at_end(ts, pos),
    ensures
        declaration(ts, pos).1 >= 1,
{
    reveal(declaration);
    reveal(statement);
    reveal(expression);
    lemma_binary_progress(ts, pos, 6);
}

/// Parsing goes on after an error. Where a declaration fails, its error is
/// noted once, after the errors noted inside it, and the declarations that
/// follow the tokens given up are parsed as if the program began there.
pub proof fn law_recovery(ts: Seq<TokenV>, pos: int)
    requires
        !at_end(ts, pos),
        declaration(ts, pos).0 is Err,
    ensures
        ({
            let (r, used, errors) = declaration(ts, pos);
            let (statements, later) = program(ts, pos + used);
            &&& used >= 1
            &&& program(ts, pos) == (statements, errors + seq![r->Err_0] + later)
        }),
{
    reveal(program);
    lemma_declaration_progress(ts, pos);
    let (r, used, errors) = declaration(ts, pos);
    let (statements, later) = program(ts, pos + used);
    assert(parsed(r) + statements =~= statements);
}

/// A declaration that is parsed stands in the program, before those that
/// follow it.
pub proof fn law_progress(ts: Seq<TokenV>, pos: int)
    requires
        !at_end(ts, pos),
        declaration(ts, pos).0 is Ok,
    ensures
        ({
            let (r, used, errors) = declaration(ts, pos);
            let (statements, later) = program(ts, pos + used);
            &&& used >= 1
            &&& program(ts, pos) == (seq![r->Ok_0] + statements, errors + later)
        }),
{
    reveal(program);
    lemma_declaration_progress(ts, pos);
    let (r, used, errors) = declaration(ts, pos);
    let (statements, later) = program(ts, pos + used);
    assert(errors + failed(r) + later =~= errors + later);
}

impl Parser {
    /// An expression and the `;` after it.
    fn terminated(&mut self, message: &str) -> (r: Result<Expr, ParseError>)
        requires
            old(self).ready(),
        ensures
            expr_result_view(r) == terminated(old(self).ts(), old(self).current as int, message@).0,
            final(self).moved(
                old(self),
                terminated(old(self).ts(), old(self).current as int, message@).1,
            ),
    {
        let expr = match self.expression() {
            Ok(e) => e,
            Err(e) => {
                return Err(e);
            },
        };
        match self.consume(TokenType::SemiColon, message) {
            Ok(_) => Ok(expr),
            Err(e) => Err(e),
        }
    }

    fn expression_statement(&mut self) -> (r: Result<Stmt, ParseError>)
        requires
            old(self).ready(),
        ensures
            stmt_result_view(r) == expression_statement(
                old(self).ts(),
                old(self).current as int,
            ).0,
            final(self).moved(
                old(self),
                expression_statement(old(self).ts(), old(self).current as int).1,
            ),
    {
        match self.terminated("Expect ';' after expression.") {
            Ok(expression) => Ok(Stmt::Expression { expression }),
            Err(e) => Err(e),
        }
    }

    fn print_statement(&mut self) -> (r: Result<Stmt, ParseError>)
        requires
            old(self).ready(),
        ensures
            stmt_result_view(r) == print_statement(old(self).ts(), old(self).current as int).0,
            final(self).moved(
                old(self),
                print_statement(old(self).ts(), old(self).current as int).1,
            ),
    {
        match self.terminated("Expect ';' after value.") {
            Ok(expression) => Ok(Stmt::Print { expression }),
            Err(e) => Err(e),
        }
    }

    fn var_declaration(&mut self) -> (r: Result<Stmt, ParseError>)
        requires
            old(self).ready(),
        ensures
            stmt_result_view(r) == var_declaration(old(self).ts(), old(self).current as int).0,
            final(self).moved(
                old(self),
                var_declaration(old(self).ts(), old(self).current as int).1,
            ),
    {
        let name = match self.consume(TokenType::Identifier, "Expect variable name.") {
            Ok(t) => t,
            Err(e) => {
                return Err(e);
            },
        };
        if self.match_token(TokenType::Equal) {
            return match self.terminated("Expect ';' after variable declaration.") {
                Ok(initializer) => Ok(Stmt::Variable { name, initializer: Some(initializer) }),
                Err(e) => Err(e),
            };
        }
        match self.consume(TokenType::SemiColon, "Expect ';' after variable declaration.") {
            Ok(_) => Ok(Stmt::Variable { name, initializer: None }),
            Err(e) => Err(e),
        }
    }

    /// An expression that may be left out before a token of the kind `end`,
    /// and that token.
    fn clause(&mut self, end: TokenType, message: &str) -> (r: Result<Option<Expr>, ParseError>)
        requires
            old(self).ready(),
        ensures
            match r {
                Ok(e) => clause(old(self).ts(), old(self).current as int, end, message@).0 == Ok::<
                    Option<ExprV>,
                    ParseErrorV,
                >(optional_expr_view(e)),
                Err(e) => clause(old(self).ts(), old(self).current as int, end, message@).0
                    == Err::<Option<ExprV>, ParseErrorV>(e@),
            },
            final(self).moved(
                old(self),
                clause(old(self).ts(), old(self).current as int, end, message@).1,
            ),
    {
        if self.match_token(end) {
            return Ok(None);
        }
        let expr = match self.expression() {
            Ok(e) => e,
            Err(e) => {
                return Err(e);
            },
        };
        match self.consume(end, message) {
            Ok(_) => Ok(Some(expr)),
            Err(e) => Err(e),
        }
    }

    fn declaration(&mut self) -> (r: Result<Stmt, ParseError>)
        requires
            old(self).ready(),
        ensures
            stmt_result_view(r) == declaration(old(self).ts(), old(self).current as int).0,
            final(self).noted(
                old(self),
                declaration(old(self).ts(), old(self).current as int).1,
                declaration(old(self).ts(), old(self).current as int).2,
            ),
        decreases left(old(self).ts(), old(self).current as int), 60nat,
    {
        reveal(declaration);
        reveal(statement);
        let r = if self.match_token(TokenType::Var) {
            let r = self.var_declaration();
            assert(errors_view(self.errors@) + Seq::<ParseErrorV>::empty() =~= errors_view(
                self.errors@,
            ));
            r
        } else {
            self.statement()
        };
        match r {
            Ok(s) => Ok(s),
            Err(e) => {
                self.synchronize();
                Err(e)
            },
        }
    }

    fn statement(&mut self) -> (r: Result<Stmt, ParseError>)
        requires
            old(self).ready(),
        ensures
            stmt_result_view(r) == statement(old(self).ts(), old(self).current as int).0,
            final(self).noted(
                old(self),
                statement(old(self).ts(), old(self).current as int).1,
                statement(old(self).ts(), old(self).current as int).2,
            ),
        decreases left(old(self).ts(), old(self).current as int), 50nat,
    {
        reveal(statement);
        reveal(for_statement);
        reveal(if_statement);
        reveal(while_statement);
        reveal(block);
        assert(errors_view(self.errors@) + Seq::<ParseErrorV>::empty() =~= errors_view(
            self.errors@,
        ));
        if self.match_token(TokenType::For) {
            return self.for_statement();
        }
        if self.match_token(TokenType::If) {
            return self.if_statement();
        }
        if self.match_token(TokenType::Print) {
            return self.print_statement();
        }
        if self.match_token(TokenType::While) {
            return self.while_statement();
        }
        if self.match_token(TokenType::LeftBrace) {
            return match self.block() {
                Ok(statements) => Ok(Stmt::Block { statements }),
                Err(e) => Err(e),
            };
        }
        self.expression_statement()
    }

    fn block(&mut self) -> (r: Result<Vec<Stmt>, ParseError>)
        requires
            old(self).ready(),
        ensures
            match r {
                Ok(v) => block(old(self).ts(), old(self).current as int).0 == Ok::<
                    Seq<StmtV>,
                    ParseErrorV,
                >(stmts_view(v@)),
                Err(e) => block(old(self).ts(), old(self).current as int).0 == Err::<
                    Seq<StmtV>,
                    ParseErrorV,
                >(e@),
            },
            final(self).noted(
                old(self),
                block(old(self).ts(), old(self).current as int).1,
                block(old(self).ts(), old(self).current as int).2,
            ),
        decreases left(old(self).ts(), old(self).current as int), 70nat,
    {
        reveal(block);
        reveal(block_rule);
        reveal(declaration);
        let mut statements: Vec<Stmt> = Vec::new();
        let ghost ts = self.ts();
        let ghost first = self.current as int;
        let ghost whole = block(ts, first);
        let ghost noted = errors_view(self.errors@);
        assert(stmts_view(statements@) + whole.0->Ok_0 =~= whole.0->Ok_0);
        assert(noted + whole.2 =~= errors_view(self.errors@) + whole.2);
        loop
            invariant
                self.ready(),
                ts == self.ts(),
                self.tokens == old(self).tokens,
                first == old(self).current,
                first <= self.current,
                whole == block(ts, first),
                noted == errors_view(old(self).errors@),
                whole.0 == (match block(ts, self.current as int).0 {
                    Ok(s) => Ok::<Seq<StmtV>, ParseErrorV>(stmts_view(statements@) + s),
                    Err(e) => Err::<Seq<StmtV>, ParseErrorV>(e),
                }),
                whole.1 == self.current - first + block(ts, self.current as int).1,
                noted + whole.2 == errors_view(self.errors@) + block(ts, self.current as int).2,
            decreases left(ts, self.current as int),
        {
            reveal(block);
            reveal(block_rule);
            reveal(declaration);
            if self.check(TokenType::RightBrace) {
                self.advance();
                assert(stmts_view(statements@) + Seq::<StmtV>::empty()
                    =~= stmts_view(statements@));
                assert(errors_view(self.errors@) + Seq::<ParseErrorV>::empty() =~= errors_view(
                    self.errors@,
                ));
                return Ok(statements);
            }
            if self.is_at_end() {
                assert(errors_view(self.errors@) + Seq::<ParseErrorV>::empty() =~= errors_view(
                    self.errors@,
                ));
                return Err(Parser::error(self.peek(), "Expect '}' after block."));
            }
            let ghost at = self.current as int;
            let ghost before = errors_view(self.errors@);
            let ghost done = stmts_view(statements@);
            let ghost one = declaration(ts, at);
            let ghost rest = block(ts, at + step(one.1));
            proof {
                lemma_declaration_progress(ts, at);
            }
            match self.declaration() {
                Ok(s) => {
                    statements.push(s);
                    assert(stmts_view(statements@) =~= done + seq![s@]);
                    assert(errors_view(self.errors@) + rest.2 =~= before + (one.2 + failed(one.0)
                        + rest.2));
                    assert forall|tail: Seq<StmtV>|
                        stmts_view(statements@) + tail =~= done + (parsed(one.0)
                            + tail) by {}
                },
                Err(e) => {
                    let ghost inner = errors_view(self.errors@);
                    self.errors.push(e);
                    assert(errors_view(self.errors@) =~= inner + seq![e@]);
                    assert(errors_view(self.errors@) + rest.2 =~= before + (one.2 + failed(one.0)
                        + rest.2));
                    assert forall|tail: Seq<StmtV>|
                        stmts_view(statements@) + tail =~= done + (parsed(one.0)
                            + tail) by {}
                },
            }
        }
    }

    fn while_statement(&mut self) -> (r: Result<Stmt, ParseError>)
        requires
            old(self).ready(),
        ensures
            stmt_result_view(r) == while_statement(old(self).ts(), old(self).current as int).0,
            final(self).noted(
                old(self),
                while_statement(old(self).ts(), old(self).current as int).1,
                while_statement(old(self).ts(), old(self).current as int).2,
            ),
        decreases left(old(self).ts(), old(self).current as int), 31nat,
    {
        reveal(while_statement);
        reveal(while_rule);
        reveal(statement);
        assert(errors_view(self.errors@) + Seq::<ParseErrorV>::empty() =~= errors_view(
            self.errors@,
        ));
        match self.consume(TokenType::LeftParen, "Expect '(' after 'while'.") {
            Ok(_) => {},
            Err(e) => {
                return Err(e);
            },
        }
        let condition = match self.expression() {
            Ok(e) => e,
            Err(e) => {
                return Err(e);
            },
        };
        match self.consume(TokenType::RightParen, "Expect ')' after condition. ") {
            Ok(_) => {},
            Err(e) => {
                return Err(e);
            },
        }
        match self.statement() {
            Ok(body) => Ok(Stmt::While { condition, body: Box::new(body) }),
            Err(e) => Err(e),
        }
    }

    fn if_statement(&mut self) -> (r: Result<Stmt, ParseError>)
        requires
            old(self).ready(),
        ensures
            stmt_result_view(r) == if_statement(old(self).ts(), old(self).current as int).0,
            final(self).noted(
                old(self),
                if_statement(old(self).ts(), old(self).current as int).1,
                if_statement(old(self).ts(), old(self).current as int).2,
            ),
        decreases left(old(self).ts(), old(self).current as int), 31nat,
    {
        reveal(if_statement);
        reveal(if_rule);
        reveal(statement);
        assert(errors_view(self.errors@) + Seq::<ParseErrorV>::empty() =~= errors_view(
            self.errors@,
        ));
        match self.consume(TokenType::LeftParen, "Expect '(' after 'if'") {
            Ok(_) => {},
            Err(e) => {
                return Err(e);
            },
        }
        let condition = match self.expression() {
            Ok(e) => e,
            Err(e) => {
                return Err(e);
            },
        };
        match self.consume(TokenType::RightParen, "Expect ')' after if condition.") {
            Ok(_) => {},
            Err(e) => {
                return Err(e);
            },
        }
        let ghost before = errors_view(self.errors@);
        let ghost ts = self.ts();
        let ghost at = self.current as int;
        let then_branch = self.statement();
        let mut else_branch: Option<Box<Stmt>> = None;
        if self.match_token(TokenType::Else) {
            let ghost next = self.current as int;
            match self.statement() {
                Ok(other) => {
                    else_branch = Some(Box::new(other));
                },
                Err(e) => {
                    assert(errors_view(self.errors@) =~= before + (statement(ts, at).2 + statement(
                        ts,
                        next,
                    ).2));
                    return Err(e);
                },
            }
            assert(errors_view(self.errors@) =~= before + (statement(ts, at).2 + statement(
                ts,
                next,
            ).2));
        }
        match then_branch {
            Ok(first) => Ok(Stmt::If { condition, then_branch: Box::new(first), else_branch }),
            Err(e) => Err(e),
        }
    }

    fn for_statement(&mut self) -> (r: Result<Stmt, ParseError>)
        requires
            old(self).ready(),
        ensures
            stmt_result_view(r) == for_statement(old(self).ts(), old(self).current as int).0,
            final(self).noted(
                old(self),
                for_statement(old(self).ts(), old(self).current as int).1,
                for_statement(old(self).ts(), old(self).current as int).2,
            ),
        decreases left(old(self).ts(), old(self).current as int), 31nat,
    {
        reveal(for_statement);
        reveal(for_rule);
        reveal(statement);
        assert(errors_view(self.errors@) + Seq::<ParseErrorV>::empty() =~= errors_view(
            self.errors@,
        ));
        match self.consume(TokenType::LeftParen, "Expect '(' after 'for'.") {
            Ok(_) => {},
            Err(e) => {
                return Err(e);
            },
        }
        let first = if self.match_token(TokenType::Var) {
            self.var_declaration()
        } else {
            self.expression_statement()
        };
        let initializer = match first {
            Ok(s) => s,
            Err(e) => {
                return Err(e);
            },
        };
        let condition = match self.clause(
            TokenType::SemiColon,
            "Expect ';' after loop condition.",
        ) {
            Ok(c) => c,
            Err(e) => {
                return Err(e);
            },
        };
        let increment = match self.clause(TokenType::RightParen, "Expect ')' after for clauses.") {
            Ok(c) => c,
            Err(e) => {
                return Err(e);
            },
        };
        let mut body = match self.statement() {
            Ok(s) => s,
            Err(e) => {
                return Err(e);
            },
        };
        let ghost plain = body@;
        let ghost step_view = optional_expr_view(increment);
        let ghost test_view = optional_expr_view(condition);
        match increment {
            Some(inc) => {
                let ghost inc_view = inc@;
                let mut both: Vec<Stmt> = Vec::new();
                both.push(body);
                both.push(Stmt::Expression { expression: inc });
                assert(stmts_view(both@) =~= seq![
                    plain,
                    StmtV::Expression { expression: inc_view },
                ]);
                body = Stmt::Block { statements: both };
                assert(body@ == (StmtV::Block {
                    statements: seq![plain, StmtV::Expression { expression: inc_view }],
                }));
            },
            None => {},
        }
        let ghost stepped = body@;
        let test = match condition {
            Some(c) => c,
            None => Expr::Literal { value: LiteralValue::Boolean(true) },
        };
        let ghost checked = test@;
        let looped = Stmt::While { condition: test, body: Box::new(body) };
        assert(looped@ == (StmtV::While { condition: checked, body: Box::new(stepped) }));
        let ghost looped_view = looped@;
        let mut outer: Vec<Stmt> = Vec::new();
        let ghost first_view = initializer@;
        outer.push(initializer);
        outer.push(looped);
        assert(stmts_view(outer@) =~= seq![first_view, looped_view]);
        let whole = Stmt::Block { statements: outer };
        assert(whole@ == desugar(first_view, test_view, step_view, plain));
        return Ok(whole);
    }

    /// Parses the tokens from the current place up to the end. The result
    /// holds the declarations that could be parsed; the errors of the others
    /// are added to `errors`. Tokens that do not end with the end token are
    /// refused.
    pub fn parse(&mut self) -> (r: Result<Vec<Stmt>, ParseError>)
        ensures
            final(self).tokens == old(self).tokens,
            match r {
                Ok(v) => old(self).ready() && stmts_view(v@) == program(
                    old(self).ts(),
                    old(self).current as int,
                ).0 && errors_view(final(self).errors@) == errors_view(old(self).errors@)
                    + program(old(self).ts(), old(self).current as int).1,
                Err(e) => !old(self).ready() && final(self).errors == old(self).errors
                    && final(self).current == old(self).current && e@ == (ParseErrorV {
                    token: end_token(0),
                    message: "Expect end of input."@,
                }),
            },
    {
        let n = self.tokens.len();
        if n == 0 || self.current >= n || self.tokens[n - 1].token_type != TokenType::Eof {
            return Err(
                Parser::error(
                    Token::new(TokenType::Eof, String::new(), LiteralValue::Nil, 0),
                    "Expect end of input.",
                ),
            );
        }
        Ok(self.declarations())
    }

    /// Parses the declarations from the current place up to the end.
    pub(crate) fn declarations(&mut self) -> (statements: Vec<Stmt>)
        requires
            old(self).ready(),
        ensures
            final(self).tokens == old(self).tokens,
            stmts_view(statements@) == program(old(self).ts(), old(self).current as int).0,
            errors_view(final(self).errors@) == errors_view(old(self).errors@) + program(
                old(self).ts(),
                old(self).current as int,
            ).1,
    {
        reveal(program);
        reveal(declaration);
        let mut statements: Vec<Stmt> = Vec::new();
        let ghost ts = self.ts();
        let ghost first = self.current as int;
        let ghost whole = program(ts, first);
        let ghost noted = errors_view(self.errors@);
        assert(stmts_view(statements@) + whole.0 =~= whole.0);
        while !self.is_at_end()
            invariant
                self.ready(),
                ts == self.ts(),
                self.tokens == old(self).tokens,
                whole == program(ts, first),
                noted == errors_view(old(self).errors@),
                whole.0 == stmts_view(statements@) + program(ts, self.current as int).0,
                noted + whole.1 == errors_view(self.errors@) + program(ts, self.current as int).1,
            decreases left(ts, self.current as int),
        {
            let ghost at = self.current as int;
            let ghost before = errors_view(self.errors@);
            let ghost done = stmts_view(statements@);
            let ghost one = declaration(ts, at);
            let ghost rest = program(ts, at + step(one.1));
            reveal(program);
            reveal(declaration);
            proof {
                lemma_declaration_progress(ts, at);
            }
            match self.declaration() {
                Ok(s) => {
                    statements.push(s);
                    assert(stmts_view(statements@) =~= done + seq![s@]);
                    assert(errors_view(self.errors@) + rest.1 =~= before + (one.2 + failed(one.0)
                        + rest.1));
                    assert(stmts_view(statements@) + rest.0 =~= done + (parsed(one.0)
                        + rest.0));
                },
                Err(e) => {
                    let ghost inner = errors_view(self.errors@);
                    self.errors.push(e);
                    assert(errors_view(self.errors@) =~= inner + seq![e@]);
                    assert(errors_view(self.errors@) + rest.1 =~= before + (one.2 + failed(one.0)
                        + rest.1));
                    assert(stmts_view(statements@) + rest.0 =~= done + (parsed(one.0)
                        + rest.0));
                },
            }
        }
        assert(stmts_view(statements@) + Seq::<StmtV>::empty()
            =~= stmts_view(statements@));
        assert(errors_view(self.errors@) + Seq::<ParseErrorV>::empty() =~= errors_view(
            self.errors@,
        ));
        statements
    }
}

} // verus!
