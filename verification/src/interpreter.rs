//! The evaluator: what a program means, and the code that walks the tree.

use crate::ast::{
    copy_stmts, copy_tokens, exprs_view, stmt_view, stmts_view, tokens_view, Expr, ExprV, Stmt,
    StmtV,
};
use crate::environment::{
    assigned, bound, extended, lookup, undeclared_message, Environment, ScopeV,
};
use crate::number::{functional, oracle, ArithOp, ZERO};
use crate::token::{
    comparison, conjunction, difference, disjunction, inversion, negation, outcome, product,
    quotient, sum,
    truthy, FunctionEnum, LiteralValue, NativeFunctions, Token, TokenError, TokenType, TokenV,
    UserDefinedFunction, ValueV,
};
use vstd::prelude::*;
use vstd::string::*;

verus! {

/// Why evaluation stopped: a failure with its message, or, where
/// `returning` is set, a `return` on its way to the call it ends.
#[derive(Debug, PartialEq)]
pub struct InterpreterError {
    pub msg: String,
    pub returning: bool,
    pub value: Option<LiteralValue>,
}

/// The mathematical value that an `InterpreterError` stands for.
pub struct ErrorV {
    pub msg: Seq<char>,
    pub returning: bool,
    pub value: Option<ValueV>,
}

/// The view of a value that may be absent.
pub open spec fn optional_value_view(value: Option<LiteralValue>) -> Option<ValueV> {
    match value {
        Some(v) => Some(v@),
        None => None,
    }
}

impl View for InterpreterError {
    type V = ErrorV;

    open spec fn view(&self) -> ErrorV {
        ErrorV {
            msg: self.msg@,
            returning: self.returning,
            value: optional_value_view(self.value),
        }
    }
}

/// A function as it was declared: its parameters and its body.
#[derive(Debug)]
pub struct Declaration {
    pub params: Vec<Token>,
    pub body: Vec<Stmt>,
}

/// The mathematical value that a `Declaration` stands for.
pub struct DeclarationV {
    pub params: Seq<TokenV>,
    pub body: Seq<StmtV>,
}

impl View for Declaration {
    type V = DeclarationV;

    open spec fn view(&self) -> DeclarationV {
        DeclarationV { params: tokens_view(self.params@), body: stmts_view(self.body@) }
    }
}

/// The state of a running program.
pub struct StateV {
    /// All scopes made so far.
    pub scopes: Seq<ScopeV>,
    /// The handle of the current scope.
    pub environment: usize,
    /// All functions declared so far.
    pub declarations: Seq<DeclarationV>,
    /// The values printed so far.
    pub output: Seq<ValueV>,
    /// What the built-in `clock` returns.
    pub clock: u64,
    /// The number of nested evaluations that a program is allowed.
    pub depth_limit: usize,
    /// The number of rounds after which a loop is given up.
    pub loop_limit: u64,
}

/// What an evaluation gives: a value or the reason it stopped, and the
/// state it leaves.
pub type Evaluation = (Result<ValueV, ErrorV>, StateV);

/// A failure with the given message.
pub open spec fn failure(msg: Seq<char>) -> ErrorV {
    ErrorV { msg, returning: false, value: None }
}

/// The failure of an evaluation that is nested deeper than allowed.
pub open spec fn overflow() -> ErrorV {
    failure("Stack overflow."@)
}

/// The failure of a program that has made as many scopes, or declared as
/// many functions, as there are handles.
pub open spec fn exhausted() -> ErrorV {
    failure("Out of handles."@)
}

/// The result of an operator, with the message for the case that it is
/// not defined on its operands.
pub open spec fn defined(r: Option<ValueV>, msg: Seq<char>) -> Result<ValueV, ErrorV> {
    match r {
        Some(v) => Ok(v),
        None => Err(failure(msg)),
    }
}

/// A unary operator applied to a value.
pub open spec fn unary(op: TokenType, v: ValueV) -> Result<ValueV, ErrorV> {
    match op {
        TokenType::Minus => defined(negation(v), "Invalid Negative Operation"@),
        TokenType::Bang => defined(inversion(v), "Invalid Not Operation"@),
        _ => Err(failure("Invalid Unary Operator"@)),
    }
}

/// A binary operator applied to two values.
pub open spec fn binary(
    sem: spec_fn(ArithOp, u64, u64) -> u64,
    op: TokenType,
    l: ValueV,
    r: ValueV,
) -> Result<ValueV, ErrorV> {
    match op {
        TokenType::Minus => defined(difference(sem, l, r), "Invalid Subtraction"@),
        TokenType::Plus => defined(sum(sem, l, r), "Invalid Addition"@),
        TokenType::Slash => defined(quotient(sem, l, r), "Invalid Division"@),
        TokenType::Star => defined(product(sem, l, r), "Invalid Multiplication"@),
        TokenType::BangEqual => defined(comparison(op, l, r), "Invalid Inequality Comparison"@),
        TokenType::EqualEqual => defined(comparison(op, l, r), "Invalid Equality Comparison"@),
        TokenType::Greater => defined(comparison(op, l, r), "Invalid Greater Comparison"@),
        TokenType::GreaterEqual => defined(
            comparison(op, l, r),
            "Invalid Greater/Equal Comparison"@,
        ),
        TokenType::Less => defined(comparison(op, l, r), "Invalid Less Comparison"@),
        TokenType::LessEqual => defined(comparison(op, l, r), "Invalid Less/Equal Comparison"@),
        TokenType::And => defined(conjunction(l, r), "Invalid AND Operation"@),
        TokenType::Or => defined(disjunction(l, r), "Invalid OR Operation"@),
        _ => Err(failure("Invalid Binary Operator"@)),
    }
}

/// Whether `and` / `or` is decided by its left operand alone: `or` by a
/// true one, every other operator by a false one.
pub open spec fn decided(op: TokenType, left: ValueV) -> bool {
    if op == TokenType::Or {
        truthy(left)
    } else {
        !truthy(left)
    }
}

/// The scopes after the parameters from `from` on were bound to the
/// arguments at the same places, in `scope`.
pub open spec fn bind_all(
    scopes: Seq<ScopeV>,
    scope: usize,
    params: Seq<TokenV>,
    args: Seq<ValueV>,
    from: nat,
) -> Seq<ScopeV>
    decreases params.len() - from,
{
    if from >= params.len() || from >= args.len() {
        scopes
    } else {
        bind_all(
            bound(scopes, scope, params[from as int].lexeme, args[from as int]),
            scope,
            params,
            args,
            from + 1,
        )
    }
}

/// What a call gives, from what running the body gave: the value that was
/// returned (`nil` where `return` had none), the value of a body that ran
/// to its end, the failure of one that failed.
pub open spec fn unwrap_result(r: Result<ValueV, ErrorV>) -> Result<ValueV, ErrorV> {
    match r {
        Ok(v) => Ok(v),
        Err(e) => if e.returning {
            match e.value {
                Some(v) => Ok(v),
                None => Ok(ValueV::Nil),
            }
        } else {
            Err(e)
        },
    }
}

/// The value of an expression and the state it leaves. `depth` is the
/// number of nested evaluations that are still allowed.
pub open spec fn eval_expr(
    sem: spec_fn(ArithOp, u64, u64) -> u64,
    e: ExprV,
    st: StateV,
    depth: nat,
) -> Evaluation
    decreases depth, 0nat,
{
    if depth == 0 {
        (Err(overflow()), st)
    } else {
        let d = (depth - 1) as nat;
        match e {
            ExprV::Literal { value } => (Ok(value), st),
            ExprV::Grouping { expression } => eval_expr(sem, *expression, st, d),
            ExprV::Variable { name } => match lookup(st.scopes, st.environment, name.lexeme) {
                Some(v) => (Ok(v), st),
                None => (Err(failure(name.lexeme + " not defined"@)), st),
            },
            ExprV::Assign { name, value } => {
                let (r, st1) = eval_expr(sem, *value, st, d);
                match r {
                    Err(e) => (Err(e), st1),
                    Ok(v) => match assigned(st1.scopes, st1.environment, name.lexeme, v) {
                        Some(scopes) => (Ok(v), StateV { scopes, ..st1 }),
                        None => (Err(failure(undeclared_message(name.lexeme))), st1),
                    },
                }
            },
            ExprV::Unary { operator, right } => {
                let (r, st1) = eval_expr(sem, *right, st, d);
                match r {
                    Err(e) => (Err(e), st1),
                    Ok(v) => (unary(operator.token_type, v), st1),
                }
            },
            ExprV::Binary { left, operator, right } => {
                let (l, st1) = eval_expr(sem, *left, st, d);
                match l {
                    Err(e) => (Err(e), st1),
                    Ok(lv) => {
                        let (r, st2) = eval_expr(sem, *right, st1, d);
                        match r {
                            Err(e) => (Err(e), st2),
                            Ok(rv) => (binary(sem, operator.token_type, lv, rv), st2),
                        }
                    },
                }
            },
            ExprV::Logical { left, operator, right } => {
                let (l, st1) = eval_expr(sem, *left, st, d);
                match l {
                    Err(e) => (Err(e), st1),
                    Ok(lv) => if decided(operator.token_type, lv) {
                        (Ok(lv), st1)
                    } else {
                        eval_expr(sem, *right, st1, d)
                    },
                }
            },
            ExprV::Call { callee, paren, arguments } => {
                let (c, st1) = eval_expr(sem, *callee, st, d);
                match c {
                    Err(e) => (Err(e), st1),
                    Ok(cv) => {
                        let (a, st2) = eval_args(sem, arguments, 0, Seq::empty(), st1, d);
                        match a {
                            Err(e) => (Err(e), st2),
                            Ok(args) => match cv {
                                ValueV::Function(f) => call(sem, f, args, st2, d),
                                _ => (Err(failure("Tried to call non-callable"@)), st2),
                            },
                        }
                    },
                }
            },
        }
    }
}

/// The values of the arguments from `from` on, after those in `done`,
/// from left to right.
pub open spec fn eval_args(
    sem: spec_fn(ArithOp, u64, u64) -> u64,
    arguments: Seq<ExprV>,
    from: nat,
    done: Seq<ValueV>,
    st: StateV,
    depth: nat,
) -> (Result<Seq<ValueV>, ErrorV>, StateV)
    decreases depth, arguments.len() - from + 1,
{
    if from >= arguments.len() {
        (Ok(done), st)
    } else {
        let (r, st1) = eval_expr(sem, arguments[from as int], st, depth);
        match r {
            Err(e) => (Err(e), st1),
            Ok(v) => eval_args(sem, arguments, from + 1, done.push(v), st1, depth),
        }
    }
}

/// The number of arguments that a function takes; `None` for a function
/// whose declaration the state does not hold.
pub open spec fn arity_of(f: FunctionEnum, st: StateV) -> Option<nat> {
    match f {
        FunctionEnum::Native(NativeFunctions::Clock) => Some(0),
        FunctionEnum::User(u) => if u.declaration < st.declarations.len() {
            Some(st.declarations[u.declaration as int].params.len())
        } else {
            None
        },
    }
}

/// A call of `f` on arguments that were evaluated. The body of a declared
/// function runs in a new scope inside the scope the function was
/// declared in, with the parameters bound to the arguments.
pub open spec fn call(
    sem: spec_fn(ArithOp, u64, u64) -> u64,
    f: FunctionEnum,
    args: Seq<ValueV>,
    st: StateV,
    depth: nat,
) -> Evaluation
    decreases depth, 0nat,
{
    match arity_of(f, st) {
        None => (Err(failure("Invalid Function Definition"@)), st),
        Some(n) => if n != args.len() {
            (Err(failure("Incorrect number of arguments"@)), st)
        } else {
            match f {
                FunctionEnum::Native(NativeFunctions::Clock) => (Ok(ValueV::NumValue(st.clock)), st),
                FunctionEnum::User(u) => if depth == 0 {
                    (Err(overflow()), st)
                } else if st.scopes.len() >= usize::MAX {
                    (Err(exhausted()), st)
                } else {
                    let decl = st.declarations[u.declaration as int];
                    let scope = st.scopes.len() as usize;
                    let scopes = bind_all(
                        extended(st.scopes, u.closure),
                        scope,
                        decl.params,
                        args,
                        0,
                    );
                    let (r, st1) = execute_block(
                        sem,
                        decl.body,
                        scope,
                        StateV { scopes, ..st },
                        (depth - 1) as nat,
                    );
                    (unwrap_result(r), st1)
                },
            }
        },
    }
}

/// Runs statements in the scope `scope` and goes back to the scope that was
/// current before, however the statements end.
pub open spec fn execute_block(
    sem: spec_fn(ArithOp, u64, u64) -> u64,
    statements: Seq<StmtV>,
    scope: usize,
    st: StateV,
    depth: nat,
) -> Evaluation
    decreases depth, statements.len() + 2,
{
    let (r, st1) = exec_list(
        sem,
        statements,
        0,
        ValueV::Nil,
        StateV { environment: scope, ..st },
        depth,
    );
    let st2 = StateV { environment: st.environment, ..st1 };
    match r {
        Ok(_) => (Ok(ValueV::Nil), st2),
        Err(e) => (Err(e), st2),
    }
}

/// Runs the statements from `from` on, in order, up to the first that does
/// not end normally. `last` is the value of the statement before `from`.
pub open spec fn exec_list(
    sem: spec_fn(ArithOp, u64, u64) -> u64,
    statements: Seq<StmtV>,
    from: nat,
    last: ValueV,
    st: StateV,
    depth: nat,
) -> Evaluation
    decreases depth, statements.len() - from + 1,
{
    if from >= statements.len() {
        (Ok(last), st)
    } else {
        let (r, st1) = exec_stmt(sem, statements[from as int], st, depth);
        match r {
            Err(e) => (Err(e), st1),
            Ok(v) => exec_list(sem, statements, from + 1, v, st1, depth),
        }
    }
}

/// Runs a loop for at most `rounds` rounds.
pub open spec fn exec_while(
    sem: spec_fn(ArithOp, u64, u64) -> u64,
    condition: ExprV,
    body: StmtV,
    st: StateV,
    depth: nat,
    rounds: nat,
) -> Evaluation
    decreases depth, rounds + 1,
{
    let (c, st1) = eval_expr(sem, condition, st, depth);
    match c {
        Err(e) => (Err(e), st1),
        Ok(cv) => if !truthy(cv) {
            (Ok(ValueV::Nil), st1)
        } else if rounds == 0 {
            (Err(failure("Loop limit exceeded."@)), st1)
        } else {
            let (b, st2) = exec_stmt(sem, body, st1, depth);
            match b {
                Err(e) => (Err(e), st2),
                Ok(_) => exec_while(sem, condition, body, st2, depth, (rounds - 1) as nat),
            }
        },
    }
}

/// What a statement does to the state, and its value.
pub open spec fn exec_stmt(
    sem: spec_fn(ArithOp, u64, u64) -> u64,
    s: StmtV,
    st: StateV,
    depth: nat,
) -> Evaluation
    decreases depth, 0nat,
{
    if depth == 0 {
        (Err(overflow()), st)
    } else {
        let d = (depth - 1) as nat;
        match s {
            StmtV::Expression { expression } => eval_expr(sem, expression, st, d),
            StmtV::Print { expression } => {
                let (r, st1) = eval_expr(sem, expression, st, d);
                match r {
                    Err(e) => (Err(e), st1),
                    Ok(v) => (Ok(ValueV::Nil), StateV { output: st1.output.push(v), ..st1 }),
                }
            },
            StmtV::Variable { name, initializer } => match initializer {
                None => (
                    Ok(ValueV::Nil),
                    StateV {
                        scopes: bound(st.scopes, st.environment, name.lexeme, ValueV::Nil),
                        ..st
                    },
                ),
                Some(e) => {
                    let (r, st1) = eval_expr(sem, e, st, d);
                    match r {
                        Err(e) => (Err(e), st1),
                        Ok(v) => (
                            Ok(ValueV::Nil),
                            StateV {
                                scopes: bound(st1.scopes, st1.environment, name.lexeme, v),
                                ..st1
                            },
                        ),
                    }
                },
            },
            StmtV::Block { statements } => if st.scopes.len() >= usize::MAX {
                (Err(exhausted()), st)
            } else {
                execute_block(
                    sem,
                    statements,
                    st.scopes.len() as usize,
                    StateV { scopes: extended(st.scopes, st.environment), ..st },
                    d,
                )
            },
            StmtV::If { condition, then_branch, else_branch } => {
                let (c, st1) = eval_expr(sem, condition, st, d);
                match c {
                    Err(e) => (Err(e), st1),
                    Ok(cv) => if truthy(cv) {
                        exec_stmt(sem, *then_branch, st1, d)
                    } else {
                        match else_branch {
                            Some(other) => exec_stmt(sem, *other, st1, d),
                            None => (Ok(ValueV::Nil), st1),
                        }
                    },
                }
            },
            StmtV::While { condition, body } => exec_while(
                sem,
                condition,
                *body,
                st,
                d,
                st.loop_limit as nat,
            ),
            StmtV::Function { name, params, body } => if st.declarations.len() >= usize::MAX {
                (Err(exhausted()), st)
            } else {
                let f = FunctionEnum::User(
                    UserDefinedFunction {
                        declaration: st.declarations.len() as usize,
                        closure: st.environment,
                    },
                );
                (
                    Ok(ValueV::Nil),
                    StateV {
                        declarations: st.declarations.push(DeclarationV { params, body }),
                        scopes: bound(
                            st.scopes,
                            st.environment,
                            name.lexeme,
                            ValueV::Function(f),
                        ),
                        ..st
                    },
                )
            },
            StmtV::Return { keyword, value } => match value {
                None => (Err(ErrorV { msg: Seq::empty(), returning: true, value: None }), st),
                Some(e) => {
                    let (r, st1) = eval_expr(sem, e, st, d);
                    match r {
                        Err(e) => (Err(e), st1),
                        Ok(v) => (
                            Err(ErrorV { msg: Seq::empty(), returning: true, value: Some(v) }),
                            st1,
                        ),
                    }
                },
            },
        }
    }
}

/// A whole program: its statements in order, in the current scope. The
/// value is that of the last statement.
pub open spec fn run(
    sem: spec_fn(ArithOp, u64, u64) -> u64,
    statements: Seq<StmtV>,
    st: StateV,
) -> Evaluation {
    exec_list(sem, statements, 0, ValueV::Nil, st, st.depth_limit as nat)
}

/// The views of a sequence of values.
pub open spec fn values_view(values: Seq<LiteralValue>) -> Seq<ValueV> {
    Seq::new(values.len(), |i: int| values[i]@)
}

/// The views of a sequence of declarations.
pub open spec fn declarations_view(declarations: Seq<Declaration>) -> Seq<DeclarationV> {
    Seq::new(declarations.len(), |i: int| declarations[i]@)
}

/// The view of what an evaluation returns.
pub open spec fn result_view(r: Result<LiteralValue, InterpreterError>) -> Result<ValueV, ErrorV> {
    match r {
        Ok(v) => Ok(v@),
        Err(e) => Err(e@),
    }
}

/// The interpreter: the scopes, the handle of the current scope, the
/// functions declared and the values printed so far.
#[derive(Debug)]
pub struct Interpreter {
    pub scopes: Environment,
    pub environment: usize,
    pub globals: usize,
    pub declarations: Vec<Declaration>,
    pub output: Vec<LiteralValue>,
    pub clock: u64,
    pub depth_limit: usize,
    pub loop_limit: u64,
}

impl View for Interpreter {
    type V = StateV;

    open spec fn view(&self) -> StateV {
        StateV {
            scopes: self.scopes@,
            environment: self.environment,
            declarations: declarations_view(self.declarations@),
            output: values_view(self.output@),
            clock: self.clock,
            depth_limit: self.depth_limit,
            loop_limit: self.loop_limit,
        }
    }
}

impl InterpreterError {
    /// A failure with the given message.
    pub fn new(msg: String) -> (r: InterpreterError)
        ensures
            r@ == failure(msg@),
    {
        InterpreterError { msg, returning: false, value: None }
    }
}

/// Turns what an operator gave into what the evaluation gives.
fn checked(r: Result<LiteralValue, TokenError>, msg: &str) -> (out: Result<
    LiteralValue,
    InterpreterError,
>)
    ensures
        result_view(out) == defined(outcome(r), msg@),
{
    match r {
        Ok(v) => Ok(v),
        Err(_) => Err(InterpreterError::new(msg.to_owned())),
    }
}

/// Applies a unary operator.
pub fn apply_unary(op: TokenType, v: LiteralValue) -> (r: Result<LiteralValue, InterpreterError>)
    ensures
        result_view(r) == unary(op, v@),
{
    match op {
        TokenType::Minus => checked(v.neg(), "Invalid Negative Operation"),
        TokenType::Bang => checked(v.not(), "Invalid Not Operation"),
        _ => Err(InterpreterError::new("Invalid Unary Operator".to_owned())),
    }
}

/// Applies a binary operator.
pub fn apply_binary<A: Fn(ArithOp, u64, u64) -> u64>(
    op: TokenType,
    l: LiteralValue,
    r: LiteralValue,
    arith: &A,
) -> (out: Result<LiteralValue, InterpreterError>)
    requires
        functional(arith),
    ensures
        result_view(out) == binary(oracle(arith), op, l@, r@),
{
    match op {
        TokenType::Minus => checked(l.sub(r, arith), "Invalid Subtraction"),
        TokenType::Plus => checked(l.add(r, arith), "Invalid Addition"),
        TokenType::Slash => checked(l.div(r, arith), "Invalid Division"),
        TokenType::Star => checked(l.mul(r, arith), "Invalid Multiplication"),
        TokenType::BangEqual => checked(
            LiteralValue::compare(op, &l, &r),
            "Invalid Inequality Comparison",
        ),
        TokenType::EqualEqual => checked(
            LiteralValue::compare(op, &l, &r),
            "Invalid Equality Comparison",
        ),
        TokenType::Greater => checked(
            LiteralValue::compare(op, &l, &r),
            "Invalid Greater Comparison",
        ),
        TokenType::GreaterEqual => checked(
            LiteralValue::compare(op, &l, &r),
            "Invalid Greater/Equal Comparison",
        ),
        TokenType::Less => checked(LiteralValue::compare(op, &l, &r), "Invalid Less Comparison"),
        TokenType::LessEqual => checked(
            LiteralValue::compare(op, &l, &r),
            "Invalid Less/Equal Comparison",
        ),
        TokenType::And => checked(l.bitand(r), "Invalid AND Operation"),
        TokenType::Or => checked(l.bitor(r), "Invalid OR Operation"),
        _ => Err(InterpreterError::new("Invalid Binary Operator".to_owned())),
    }
}

/// The state in which every program starts: the global scope, which binds
/// `clock` to the built-in of that name, is the current scope; nothing
/// was declared or printed.
pub open spec fn initial_state() -> StateV {
    StateV {
        scopes: seq![
            ScopeV {
                values: Map::empty().insert(
                    "clock"@,
                    ValueV::Function(FunctionEnum::Native(NativeFunctions::Clock)),
                ),
                enclosing: None,
            },
        ],
        environment: 0,
        declarations: Seq::empty(),
        output: Seq::empty(),
        clock: ZERO,
        depth_limit: DEPTH_LIMIT,
        loop_limit: u64::MAX,
    }
}

/// The number of nested evaluations that a new interpreter allows.
pub const DEPTH_LIMIT: usize = 1000;

impl Interpreter {
    /// An interpreter in the initial state.
    pub fn new() -> (r: Interpreter)
        ensures
            r@ == initial_state(),
            r.globals == 0,
    {
        let mut scopes = Environment::new_global();
        scopes.define(
            0,
            "clock".to_owned(),
            LiteralValue::Function(FunctionEnum::Native(NativeFunctions::Clock)),
        );
        let r = Interpreter {
            scopes,
            environment: 0,
            globals: 0,
            declarations: Vec::new(),
            output: Vec::new(),
            clock: ZERO,
            depth_limit: DEPTH_LIMIT,
            loop_limit: u64::MAX,
        };
        assert(r@.scopes =~= initial_state().scopes);
        assert(r@.declarations =~= initial_state().declarations);
        assert(r@.output =~= initial_state().output);
        r
    }

    /// Whether a value counts as true.
    pub fn is_truthy(value: &LiteralValue) -> (r: bool)
        ensures
            r == truthy(value@),
    {
        value.is_truthy()
    }

    /// What a call returns, from what running the body returned.
    pub fn unwrap_interpreter_result(result: Result<LiteralValue, InterpreterError>) -> (r: Result<
        LiteralValue,
        InterpreterError,
    >)
        ensures
            result_view(r) == unwrap_result(result_view(result)),
    {
        match result {
            Ok(v) => Ok(v),
            Err(error) => {
                if error.returning {
                    match error.value {
                        Some(v) => Ok(v),
                        None => Ok(LiteralValue::Nil),
                    }
                } else {
                    Err(error)
                }
            },
        }
    }

    /// The number of arguments that `f` takes.
    pub fn arity(&self, f: &FunctionEnum) -> (r: Result<usize, InterpreterError>)
        ensures
            match r {
                Ok(n) => arity_of(*f, self@) == Some(n as nat),
                Err(e) => arity_of(*f, self@) is None && e@ == failure(
                    "Invalid Function Definition"@,
                ),
            },
    {
        match f {
            FunctionEnum::Native(NativeFunctions::Clock) => Ok(0),
            FunctionEnum::User(u) => {
                if u.declaration < self.declarations.len() {
                    Ok(self.declarations[u.declaration].params.len())
                } else {
                    Err(InterpreterError::new("Invalid Function Definition".to_owned()))
                }
            },
        }
    }

    /// Evaluates an expression.
    pub fn visit_expr<A: Fn(ArithOp, u64, u64) -> u64>(
        &mut self,
        expr: &Expr,
        arith: &A,
        depth: usize,
    ) -> (r: Result<LiteralValue, InterpreterError>)
        requires
            functional(arith),
        ensures
            (result_view(r), final(self)@) == eval_expr(
                oracle(arith),
                expr@,
                old(self)@,
                depth as nat,
            ),
        decreases depth, 0nat,
    {
        if depth == 0 {
            return Err(InterpreterError::new("Stack overflow.".to_owned()));
        }
        let d: usize = depth - 1;
        match expr {
            Expr::Literal { value } => Ok(value.clone()),
            Expr::Grouping { expression } => self.visit_expr(expression, arith, d),
            Expr::Variable { name } => {
                match self.scopes.get(self.environment, name) {
                    Ok(v) => Ok(v),
                    Err(_) => Err(
                        InterpreterError::new(name.lexeme.clone().concat(" not defined")),
                    ),
                }
            },
            Expr::Assign { name, value } => {
                let v = match self.visit_expr(value, arith, d) {
                    Ok(v) => v,
                    Err(e) => {
                        return Err(e);
                    },
                };
                match self.scopes.assign(self.environment, name, v.clone()) {
                    None => Ok(v),
                    Some(err) => Err(InterpreterError::new(err.msg)),
                }
            },
            Expr::Unary { operator, right } => {
                match self.visit_expr(right, arith, d) {
                    Ok(v) => apply_unary(operator.token_type, v),
                    Err(e) => Err(e),
                }
            },
            Expr::Binary { left, operator, right } => {
                let lhs = match self.visit_expr(left, arith, d) {
                    Ok(v) => v,
                    Err(e) => {
                        return Err(e);
                    },
                };
                let rhs = match self.visit_expr(right, arith, d) {
                    Ok(v) => v,
                    Err(e) => {
                        return Err(e);
                    },
                };
                apply_binary(operator.token_type, lhs, rhs, arith)
            },
            Expr::Logical { left, operator, right } => {
                let lhs = match self.visit_expr(left, arith, d) {
                    Ok(v) => v,
                    Err(e) => {
                        return Err(e);
                    },
                };
                if operator.token_type == TokenType::Or {
                    if Interpreter::is_truthy(&lhs) {
                        return Ok(lhs);
                    }
                } else {
                    if !Interpreter::is_truthy(&lhs) {
                        return Ok(lhs);
                    }
                }
                self.visit_expr(right, arith, d)
            },
            Expr::Call { callee, paren, arguments } => {
                let target = match self.visit_expr(callee, arith, d) {
                    Ok(v) => v,
                    Err(e) => {
                        return Err(e);
                    },
                };
                let args = match self.evaluate_arguments(arguments, arith, d) {
                    Ok(a) => a,
                    Err(e) => {
                        return Err(e);
                    },
                };
                match target {
                    LiteralValue::Function(f) => self.call(f, args, arith, d),
                    _ => Err(InterpreterError::new("Tried to call non-callable".to_owned())),
                }
            },
        }
    }

    /// Evaluates the arguments of a call from left to right.
    pub fn evaluate_arguments<A: Fn(ArithOp, u64, u64) -> u64>(
        &mut self,
        arguments: &Vec<Expr>,
        arith: &A,
        depth: usize,
    ) -> (r: Result<Vec<LiteralValue>, InterpreterError>)
        requires
            functional(arith),
        ensures
            (
                match r {
                    Ok(a) => Ok(values_view(a@)),
                    Err(e) => Err(e@),
                },
                final(self)@,
            ) == eval_args(
                oracle(arith),
                exprs_view(arguments@),
                0,
                Seq::empty(),
                old(self)@,
                depth as nat,
            ),
        decreases depth, arguments.len() + 1,
    {
        let ghost sem = oracle(arith);
        let ghost items = exprs_view(arguments@);
        let mut done: Vec<LiteralValue> = Vec::new();
        let mut i: usize = 0;
        assert(values_view(done@) =~= Seq::empty());
        while i < arguments.len()
            invariant
                functional(arith),
                sem == oracle(arith),
                items == exprs_view(arguments@),
                i <= arguments.len(),
                eval_args(sem, items, i as nat, values_view(done@), self@, depth as nat)
                    == eval_args(sem, items, 0, Seq::empty(), old(self)@, depth as nat),
            decreases arguments.len() - i,
        {
            let ghost before = values_view(done@);
            match self.visit_expr(&arguments[i], arith, depth) {
                Ok(v) => {
                    done.push(v);
                    assert(values_view(done@) =~= before.push(v@));
                },
                Err(e) => {
                    return Err(e);
                },
            }
            i = i + 1;
        }
        Ok(done)
    }

    /// Calls a function on arguments that were evaluated.
    pub fn call<A: Fn(ArithOp, u64, u64) -> u64>(
        &mut self,
        f: FunctionEnum,
        arguments: Vec<LiteralValue>,
        arith: &A,
        depth: usize,
    ) -> (r: Result<LiteralValue, InterpreterError>)
        requires
            functional(arith),
        ensures
            (result_view(r), final(self)@) == call(
                oracle(arith),
                f,
                values_view(arguments@),
                old(self)@,
                depth as nat,
            ),
        decreases depth, 0nat,
    {
        let n = match self.arity(&f) {
            Ok(n) => n,
            Err(e) => {
                return Err(e);
            },
        };
        if n != arguments.len() {
            return Err(InterpreterError::new("Incorrect number of arguments".to_owned()));
        }
        match f {
            FunctionEnum::Native(NativeFunctions::Clock) => Ok(LiteralValue::NumValue(self.clock)),
            FunctionEnum::User(u) => {
                if depth == 0 {
                    return Err(InterpreterError::new("Stack overflow.".to_owned()));
                }
                if self.scopes.len() >= usize::MAX {
                    return Err(InterpreterError::new("Out of handles.".to_owned()));
                }
                let params = copy_tokens(&self.declarations[u.declaration].params);
                let body = copy_stmts(&self.declarations[u.declaration].body);
                let scope = self.scopes.new_local(u.closure);
                let ghost names = tokens_view(params@);
                let ghost values = values_view(arguments@);
                let ghost start = self.scopes@;
                let mut i: usize = 0;
                while i < params.len()
                    invariant
                        i <= params.len(),
                        params.len() == arguments.len(),
                        names == tokens_view(params@),
                        values == values_view(arguments@),
                        bind_all(self.scopes@, scope, names, values, i as nat) == bind_all(
                            start,
                            scope,
                            names,
                            values,
                            0,
                        ),
                        self.environment == old(self).environment,
                        self.declarations == old(self).declarations,
                        self.output == old(self).output,
                        self.clock == old(self).clock,
                        self.depth_limit == old(self).depth_limit,
                        self.loop_limit == old(self).loop_limit,
                    decreases params.len() - i,
                {
                    self.scopes.define(scope, params[i].lexeme.clone(), arguments[i].clone());
                    i = i + 1;
                }
                let r = self.execute_block(&body, scope, arith, depth - 1);
                Self::unwrap_interpreter_result(r)
            },
        }
    }

    /// Runs statements in the scope `environment`, and makes the scope that
    /// was current before current again, however they end.
    pub fn execute_block<A: Fn(ArithOp, u64, u64) -> u64>(
        &mut self,
        statements: &Vec<Stmt>,
        environment: usize,
        arith: &A,
        depth: usize,
    ) -> (r: Result<LiteralValue, InterpreterError>)
        requires
            functional(arith),
        ensures
            (result_view(r), final(self)@) == execute_block(
                oracle(arith),
                stmts_view(statements@),
                environment,
                old(self)@,
                depth as nat,
            ),
        decreases depth, statements.len() + 2,
    {
        let previous = self.environment;
        self.environment = environment;
        let r = self.execute_all(statements, arith, depth);
        self.environment = previous;
        match r {
            Ok(_) => Ok(LiteralValue::Nil),
            Err(e) => Err(e),
        }
    }

    /// Runs statements in order, up to the first that does not end
    /// normally.
    pub fn execute_all<A: Fn(ArithOp, u64, u64) -> u64>(
        &mut self,
        statements: &Vec<Stmt>,
        arith: &A,
        depth: usize,
    ) -> (r: Result<LiteralValue, InterpreterError>)
        requires
            functional(arith),
        ensures
            (result_view(r), final(self)@) == exec_list(
                oracle(arith),
                stmts_view(statements@),
                0,
                ValueV::Nil,
                old(self)@,
                depth as nat,
            ),
        decreases depth, statements.len() + 1,
    {
        let ghost sem = oracle(arith);
        let ghost items = stmts_view(statements@);
        let mut last = LiteralValue::Nil;
        let mut i: usize = 0;
        while i < statements.len()
            invariant
                functional(arith),
                sem == oracle(arith),
                items == stmts_view(statements@),
                i <= statements.len(),
                exec_list(sem, items, i as nat, last@, self@, depth as nat) == exec_list(
                    sem,
                    items,
                    0,
                    ValueV::Nil,
                    old(self)@,
                    depth as nat,
                ),
            decreases statements.len() - i,
        {
            match self.visit_stmt(&statements[i], arith, depth) {
                Ok(v) => {
                    last = v;
                },
                Err(e) => {
                    return Err(e);
                },
            }
            i = i + 1;
        }
        Ok(last)
    }

    /// Runs a statement.
    pub fn visit_stmt<A: Fn(ArithOp, u64, u64) -> u64>(
        &mut self,
        stmt: &Stmt,
        arith: &A,
        depth: usize,
    ) -> (r: Result<LiteralValue, InterpreterError>)
        requires
            functional(arith),
        ensures
            (result_view(r), final(self)@) == exec_stmt(
                oracle(arith),
                stmt@,
                old(self)@,
                depth as nat,
            ),
        decreases depth, 0nat,
    {
        if depth == 0 {
            return Err(InterpreterError::new("Stack overflow.".to_owned()));
        }
        let d: usize = depth - 1;
        match stmt {
            Stmt::Expression { expression } => self.visit_expr(expression, arith, d),
            Stmt::Print { expression } => {
                match self.visit_expr(expression, arith, d) {
                    Ok(v) => {
                        let ghost before = values_view(self.output@);
                        self.output.push(v);
                        assert(values_view(self.output@) =~= before.push(v@));
                        Ok(LiteralValue::Nil)
                    },
                    Err(e) => Err(e),
                }
            },
            Stmt::Variable { name, initializer } => {
                let v = match initializer {
                    None => LiteralValue::Nil,
                    Some(e) => match self.visit_expr(e, arith, d) {
                        Ok(v) => v,
                        Err(e) => {
                            return Err(e);
                        },
                    },
                };
                self.scopes.define(self.environment, name.lexeme.clone(), v);
                Ok(LiteralValue::Nil)
            },
            Stmt::Block { statements } => {
                if self.scopes.len() >= usize::MAX {
                    return Err(InterpreterError::new("Out of handles.".to_owned()));
                }
                let scope = self.scopes.new_local(self.environment);
                self.execute_block(statements, scope, arith, d)
            },
            Stmt::If { condition, then_branch, else_branch } => {
                let c = match self.visit_expr(condition, arith, d) {
                    Ok(v) => v,
                    Err(e) => {
                        return Err(e);
                    },
                };
                if Interpreter::is_truthy(&c) {
                    self.visit_stmt(then_branch, arith, d)
                } else {
                    match else_branch {
                        Some(other) => self.visit_stmt(other, arith, d),
                        None => Ok(LiteralValue::Nil),
                    }
                }
            },
            Stmt::While { condition, body } => {
                let ghost sem = oracle(arith);
                let mut rounds: u64 = self.loop_limit;
                loop
                    invariant
                        functional(arith),
                        sem == oracle(arith),
                        depth == d + 1,
                        stmt@ == (StmtV::While {
                            condition: condition@,
                            body: Box::new(stmt_view(**body)),
                        }),
                        exec_while(
                            sem,
                            condition@,
                            stmt_view(**body),
                            self@,
                            d as nat,
                            rounds as nat,
                        ) == exec_while(
                            sem,
                            condition@,
                            stmt_view(**body),
                            old(self)@,
                            d as nat,
                            old(self).loop_limit as nat,
                        ),
                    decreases rounds,
                {
                    let c = match self.visit_expr(condition, arith, d) {
                        Ok(v) => v,
                        Err(e) => {
                            return Err(e);
                        },
                    };
                    if !Interpreter::is_truthy(&c) {
                        return Ok(LiteralValue::Nil);
                    }
                    if rounds == 0 {
                        return Err(InterpreterError::new("Loop limit exceeded.".to_owned()));
                    }
                    match self.visit_stmt(body, arith, d) {
                        Ok(_) => {},
                        Err(e) => {
                            return Err(e);
                        },
                    }
                    rounds = rounds - 1;
                }
            },
            Stmt::Function { name, params, body } => {
                if self.declarations.len() >= usize::MAX {
                    return Err(InterpreterError::new("Out of handles.".to_owned()));
                }
                let declaration = self.declarations.len();
                let ghost before = declarations_view(self.declarations@);
                let record = Declaration { params: copy_tokens(params), body: copy_stmts(body) };
                self.declarations.push(record);
                assert(declarations_view(self.declarations@) =~= before.push(record@));
                let f = FunctionEnum::User(
                    UserDefinedFunction { declaration, closure: self.environment },
                );
                self.scopes.define(self.environment, name.lexeme.clone(), LiteralValue::Function(f));
                Ok(LiteralValue::Nil)
            },
            Stmt::Return { keyword, value } => {
                let v = match value {
                    None => None,
                    Some(e) => match self.visit_expr(e, arith, d) {
                        Ok(v) => Some(v),
                        Err(e) => {
                            return Err(e);
                        },
                    },
                };
                Err(InterpreterError { msg: String::new(), returning: true, value: v })
            },
        }
    }

    /// Runs a program: its statements in order, in the current scope. The
    /// value is that of the last statement.
    pub fn interpret<A: Fn(ArithOp, u64, u64) -> u64>(
        &mut self,
        statements: &Vec<Stmt>,
        arith: &A,
    ) -> (r: Result<LiteralValue, InterpreterError>)
        requires
            functional(arith),
        ensures
            (result_view(r), final(self)@) == run(oracle(arith), stmts_view(statements@), old(self)@),
    {
        self.execute_all(statements, arith, self.depth_limit)
    }
}

} // verus!
