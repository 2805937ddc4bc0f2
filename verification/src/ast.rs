//! The syntax tree: expressions and statements.

use crate::token::{LiteralValue, Token, TokenV, ValueV};
use vstd::prelude::*;

verus! {

/// An expression. Each node owns its children.
#[derive(Debug, PartialEq)]
#[allow(inconsistent_fields)]
pub enum Expr {
    Assign { name: Token, value: Box<Expr> },
    Binary { left: Box<Expr>, operator: Token, right: Box<Expr> },
    Call { callee: Box<Expr>, paren: Token, arguments: Vec<Expr> },
    Grouping { expression: Box<Expr> },
    Literal { value: LiteralValue },
    Logical { left: Box<Expr>, operator: Token, right: Box<Expr> },
    Unary { operator: Token, right: Box<Expr> },
    Variable { name: Token },
}

/// A statement. Each node owns its children.
#[derive(Debug, PartialEq)]
#[allow(inconsistent_fields)]
pub enum Stmt {
    Block { statements: Vec<Stmt> },
    Expression { expression: Expr },
    Function { name: Token, params: Vec<Token>, body: Vec<Stmt> },
    If { condition: Expr, then_branch: Box<Stmt>, else_branch: Option<Box<Stmt>> },
    Print { expression: Expr },
    Return { keyword: Token, value: Option<Expr> },
    Variable { name: Token, initializer: Option<Expr> },
    While { condition: Expr, body: Box<Stmt> },
}

/// The mathematical tree that an `Expr` stands for.
#[allow(inconsistent_fields)]
pub enum ExprV {
    Assign { name: TokenV, value: Box<ExprV> },
    Binary { left: Box<ExprV>, operator: TokenV, right: Box<ExprV> },
    Call { callee: Box<ExprV>, paren: TokenV, arguments: Seq<ExprV> },
    Grouping { expression: Box<ExprV> },
    Literal { value: ValueV },
    Logical { left: Box<ExprV>, operator: TokenV, right: Box<ExprV> },
    Unary { operator: TokenV, right: Box<ExprV> },
    Variable { name: TokenV },
}

/// The mathematical tree that a `Stmt` stands for.
#[allow(inconsistent_fields)]
pub enum StmtV {
    Block { statements: Seq<StmtV> },
    Expression { expression: ExprV },
    Function { name: TokenV, params: Seq<TokenV>, body: Seq<StmtV> },
    If { condition: ExprV, then_branch: Box<StmtV>, else_branch: Option<Box<StmtV>> },
    Print { expression: ExprV },
    Return { keyword: TokenV, value: Option<ExprV> },
    Variable { name: TokenV, initializer: Option<ExprV> },
    While { condition: ExprV, body: Box<StmtV> },
}

/// The views of a sequence of tokens.
pub open spec fn tokens_view(tokens: Seq<Token>) -> Seq<TokenV> {
    Seq::new(tokens.len(), |i: int| tokens[i]@)
}

/// The views of a sequence of expressions.
pub open spec fn exprs_view(exprs: Seq<Expr>) -> Seq<ExprV>
    decreases exprs,
{
    Seq::new(
        exprs.len(),
        |i: int|
            if 0 <= i < exprs.len() {
                expr_view(exprs[i])
            } else {
                arbitrary()
            },
    )
}

/// The views of a sequence of statements.
pub open spec fn stmts_view(stmts: Seq<Stmt>) -> Seq<StmtV>
    decreases stmts,
{
    Seq::new(
        stmts.len(),
        |i: int|
            if 0 <= i < stmts.len() {
                stmt_view(stmts[i])
            } else {
                arbitrary()
            },
    )
}

/// The view of an expression.
pub open spec fn expr_view(expr: Expr) -> ExprV
    decreases expr,
{
        match expr {
            Expr::Assign { name, value } => ExprV::Assign {
                name: name@,
                value: Box::new(expr_view(*value)),
            },
            Expr::Binary { left, operator, right } => ExprV::Binary {
                left: Box::new(expr_view(*left)),
                operator: operator@,
                right: Box::new(expr_view(*right)),
            },
            Expr::Call { callee, paren, arguments } => ExprV::Call {
                callee: Box::new(expr_view(*callee)),
                paren: paren@,
                arguments: exprs_view(arguments@),
            },
            Expr::Grouping { expression } => ExprV::Grouping {
                expression: Box::new(expr_view(*expression)),
            },
            Expr::Literal { value } => ExprV::Literal { value: value@ },
            Expr::Logical { left, operator, right } => ExprV::Logical {
                left: Box::new(expr_view(*left)),
                operator: operator@,
                right: Box::new(expr_view(*right)),
            },
            Expr::Unary { operator, right } => ExprV::Unary {
                operator: operator@,
                right: Box::new(expr_view(*right)),
            },
            Expr::Variable { name } => ExprV::Variable { name: name@ },
        }
}

impl View for Expr {
    type V = ExprV;

    open spec fn view(&self) -> ExprV {
        expr_view(*self)
    }
}

/// The view of an expression that may be absent.
pub open spec fn optional_expr_view(expr: Option<Expr>) -> Option<ExprV> {
    match expr {
        Some(e) => Some(e@),
        None => None,
    }
}

/// The view of a statement.
pub open spec fn stmt_view(stmt: Stmt) -> StmtV
    decreases stmt,
{
        match stmt {
            Stmt::Block { statements } => StmtV::Block { statements: stmts_view(statements@) },
            Stmt::Expression { expression } => StmtV::Expression { expression: expression@ },
            Stmt::Function { name, params, body } => StmtV::Function {
                name: name@,
                params: tokens_view(params@),
                body: stmts_view(body@),
            },
            Stmt::If { condition, then_branch, else_branch } => StmtV::If {
                condition: condition@,
                then_branch: Box::new(stmt_view(*then_branch)),
                else_branch: match else_branch {
                    Some(s) => Some(Box::new(stmt_view(*s))),
                    None => None,
                },
            },
            Stmt::Print { expression } => StmtV::Print { expression: expression@ },
            Stmt::Return { keyword, value } => StmtV::Return {
                keyword: keyword@,
                value: optional_expr_view(value),
            },
            Stmt::Variable { name, initializer } => StmtV::Variable {
                name: name@,
                initializer: optional_expr_view(initializer),
            },
            Stmt::While { condition, body } => StmtV::While {
                condition: condition@,
                body: Box::new(stmt_view(*body)),
            },
        }
}

impl View for Stmt {
    type V = StmtV;

    open spec fn view(&self) -> StmtV {
        stmt_view(*self)
    }
}

/// Copies a list of tokens.
pub fn copy_tokens(tokens: &Vec<Token>) -> (r: Vec<Token>)
    ensures
        r@ == tokens@,
{
    let mut out: Vec<Token> = Vec::new();
    let mut i: usize = 0;
    while i < tokens.len()
        invariant
            i <= tokens.len(),
            out@ == tokens@.take(i as int),
        decreases tokens.len() - i,
    {
        out.push(tokens[i].clone());
        assert(tokens@.take(i + 1) == tokens@.take(i as int).push(tokens@[i as int]));
        i = i + 1;
    }
    assert(tokens@.take(i as int) == tokens@);
    out
}

/// Copies an expression with everything below it.
pub fn copy_expr(expr: &Expr) -> (r: Expr)
    ensures
        r@ == expr@,
    decreases expr,
{
    match expr {
        Expr::Assign { name, value } => Expr::Assign {
            name: name.clone(),
            value: Box::new(copy_expr(value)),
        },
        Expr::Binary { left, operator, right } => Expr::Binary {
            left: Box::new(copy_expr(left)),
            operator: operator.clone(),
            right: Box::new(copy_expr(right)),
        },
        Expr::Call { callee, paren, arguments } => Expr::Call {
            callee: Box::new(copy_expr(callee)),
            paren: paren.clone(),
            arguments: copy_exprs(arguments),
        },
        Expr::Grouping { expression } => Expr::Grouping {
            expression: Box::new(copy_expr(expression)),
        },
        Expr::Literal { value } => Expr::Literal { value: value.clone() },
        Expr::Logical { left, operator, right } => Expr::Logical {
            left: Box::new(copy_expr(left)),
            operator: operator.clone(),
            right: Box::new(copy_expr(right)),
        },
        Expr::Unary { operator, right } => Expr::Unary {
            operator: operator.clone(),
            right: Box::new(copy_expr(right)),
        },
        Expr::Variable { name } => Expr::Variable { name: name.clone() },
    }
}

/// Copies a list of expressions.
pub fn copy_exprs(exprs: &Vec<Expr>) -> (r: Vec<Expr>)
    ensures
        exprs_view(r@) == exprs_view(exprs@),
    decreases exprs,
{
    let mut out: Vec<Expr> = Vec::new();
    let mut i: usize = 0;
    while i < exprs.len()
        invariant
            i <= exprs.len(),
            out@.len() == i,
            forall|j: int| 0 <= j < i ==> (#[trigger] out@[j])@ == exprs@[j]@,
        decreases exprs.len() - i,
    {
        out.push(copy_expr(&exprs[i]));
        i = i + 1;
    }
    assert(exprs_view(out@) =~= exprs_view(exprs@));
    out
}

/// Copies a statement with everything below it.
pub fn copy_stmt(stmt: &Stmt) -> (r: Stmt)
    ensures
        r@ == stmt@,
    decreases stmt,
{
    match stmt {
        Stmt::Block { statements } => Stmt::Block { statements: copy_stmts(statements) },
        Stmt::Expression { expression } => Stmt::Expression { expression: copy_expr(expression) },
        Stmt::Function { name, params, body } => {
            let params = copy_tokens(params);
            Stmt::Function { name: name.clone(), params, body: copy_stmts(body) }
        },
        Stmt::If { condition, then_branch, else_branch } => Stmt::If {
            condition: copy_expr(condition),
            then_branch: Box::new(copy_stmt(then_branch)),
            else_branch: match else_branch {
                Some(s) => Some(Box::new(copy_stmt(s))),
                None => None,
            },
        },
        Stmt::Print { expression } => Stmt::Print { expression: copy_expr(expression) },
        Stmt::Return { keyword, value } => Stmt::Return {
            keyword: keyword.clone(),
            value: match value {
                Some(e) => Some(copy_expr(e)),
                None => None,
            },
        },
        Stmt::Variable { name, initializer } => Stmt::Variable {
            name: name.clone(),
            initializer: match initializer {
                Some(e) => Some(copy_expr(e)),
                None => None,
            },
        },
        Stmt::While { condition, body } => Stmt::While {
            condition: copy_expr(condition),
            body: Box::new(copy_stmt(body)),
        },
    }
}

/// Copies a list of statements.
pub fn copy_stmts(stmts: &Vec<Stmt>) -> (r: Vec<Stmt>)
    ensures
        stmts_view(r@) == stmts_view(stmts@),
    decreases stmts,
{
    let mut out: Vec<Stmt> = Vec::new();
    let mut i: usize = 0;
    while i < stmts.len()
        invariant
            i <= stmts.len(),
            out@.len() == i,
            forall|j: int| 0 <= j < i ==> (#[trigger] out@[j])@ == stmts@[j]@,
        decreases stmts.len() - i,
    {
        out.push(copy_stmt(&stmts[i]));
        i = i + 1;
    }
    assert(stmts_view(out@) =~= stmts_view(stmts@));
    out
}

impl Clone for Expr {
    fn clone(&self) -> (r: Expr)
        ensures
            r@ == self@,
    {
        copy_expr(self)
    }
}

impl Clone for Stmt {
    fn clone(&self) -> (r: Stmt)
        ensures
            r@ == self@,
    {
        copy_stmt(self)
    }
}

impl Expr {
    pub fn new_assign(name: Token, value: Expr) -> (r: Expr)
        ensures
            r@ == (ExprV::Assign { name: name@, value: Box::new(value@) }),
    {
        Expr::Assign { name, value: Box::new(value) }
    }

    pub fn new_binary(left: Expr, operator: Token, right: Expr) -> (r: Expr)
        ensures
            r@ == (ExprV::Binary {
                left: Box::new(left@),
                operator: operator@,
                right: Box::new(right@),
            }),
    {
        Expr::Binary { left: Box::new(left), operator, right: Box::new(right) }
    }

    pub fn new_call(callee: Expr, paren: Token, arguments: Vec<Expr>) -> (r: Expr)
        ensures
            r@ == (ExprV::Call {
                callee: Box::new(callee@),
                paren: paren@,
                arguments: exprs_view(arguments@),
            }),
    {
        Expr::Call { callee: Box::new(callee), paren, arguments }
    }

    pub fn new_grouing(expression: Expr) -> (r: Expr)
        ensures
            r@ == (ExprV::Grouping { expression: Box::new(expression@) }),
    {
        Expr::Grouping { expression: Box::new(expression) }
    }

    pub fn new_literal(value: LiteralValue) -> (r: Expr)
        ensures
            r@ == (ExprV::Literal { value: value@ }),
    {
        Expr::Literal { value }
    }

    pub fn new_logical(left: Expr, operator: Token, right: Expr) -> (r: Expr)
        ensures
            r@ == (ExprV::Logical {
                left: Box::new(left@),
                operator: operator@,
                right: Box::new(right@),
            }),
    {
        Expr::Logical { left: Box::new(left), operator, right: Box::new(right) }
    }

    pub fn new_unary(operator: Token, right: Expr) -> (r: Expr)
        ensures
            r@ == (ExprV::Unary { operator: operator@, right: Box::new(right@) }),
    {
        Expr::Unary { operator, right: Box::new(right) }
    }

    pub fn new_variable(name: Token) -> (r: Expr)
        ensures
            r@ == (ExprV::Variable { name: name@ }),
    {
        Expr::Variable { name }
    }
}

impl Stmt {
    pub fn new_block(statements: Vec<Stmt>) -> (r: Stmt)
        ensures
            r@ == (StmtV::Block { statements: stmts_view(statements@) }),
    {
        Stmt::Block { statements }
    }

    pub fn new_expression(expression: Expr) -> (r: Stmt)
        ensures
            r@ == (StmtV::Expression { expression: expression@ }),
    {
        Stmt::Expression { expression }
    }

    pub fn new_function(name: Token, params: Vec<Token>, body: Vec<Stmt>) -> (r: Stmt)
        ensures
            r@ == (StmtV::Function {
                name: name@,
                params: tokens_view(params@),
                body: stmts_view(body@),
            }),
    {
        Stmt::Function { name, params, body }
    }

    pub fn new_if(condition: Expr, then_branch: Stmt, else_branch: Option<Stmt>) -> (r: Stmt)
        ensures
            r@ == (StmtV::If {
                condition: condition@,
                then_branch: Box::new(then_branch@),
                else_branch: match else_branch {
                    Some(s) => Some(Box::new(s@)),
                    None => None,
                },
            }),
    {
        Stmt::If {
            condition,
            then_branch: Box::new(then_branch),
            else_branch: match else_branch {
                Some(s) => Some(Box::new(s)),
                None => None,
            },
        }
    }

    pub fn new_print(expression: Expr) -> (r: Stmt)
        ensures
            r@ == (StmtV::Print { expression: expression@ }),
    {
        Stmt::Print { expression }
    }

    pub fn new_return(keyword: Token, value: Option<Expr>) -> (r: Stmt)
        ensures
            r@ == (StmtV::Return { keyword: keyword@, value: optional_expr_view(value) }),
    {
        Stmt::Return { keyword, value }
    }

    pub fn new_variable(name: Token, initializer: Option<Expr>) -> (r: Stmt)
        ensures
            r@ == (StmtV::Variable { name: name@, initializer: optional_expr_view(initializer) }),
    {
        Stmt::Variable { name, initializer }
    }

    pub fn new_while(condition: Expr, body: Stmt) -> (r: Stmt)
        ensures
            r@ == (StmtV::While { condition: condition@, body: Box::new(body@) }),
    {
        Stmt::While { condition, body: Box::new(body) }
    }
}

} // verus!
