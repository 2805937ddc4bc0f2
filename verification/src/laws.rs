//! Laws of the evaluator, proved of every program and every state.

use crate::ast::{ExprV, StmtV};
use crate::environment::{
    assigned, bound, extended, lemma_resolve_owner, lookup, resolve, ScopeV,
};
use crate::interpreter::{
    arity_of, bind_all, call, decided, eval_args, eval_expr, exec_list, exec_stmt, exec_while,
    execute_block, failure, run, unwrap_result, ErrorV, StateV,
};
use crate::number::ArithOp;
use crate::token::{truthy, FunctionEnum, TokenType, TokenV, UserDefinedFunction, ValueV};
use vstd::prelude::*;

verus! {

/// `and` and `or` do not evaluate their right operand where the left one
/// decides: an `and` whose left operand counts as false, and an `or` whose
/// left operand counts as true, has the value of the left operand and leaves
/// the state that the left operand left, whatever stands on the right.
pub proof fn law_short_circuit(
    sem: spec_fn(ArithOp, u64, u64) -> u64,
    left: ExprV,
    operator: TokenV,
    right: ExprV,
    st: StateV,
    depth: nat,
)
    requires
        depth > 0,
        eval_expr(sem, left, st, (depth - 1) as nat).0 matches Ok(v) && decided(
            operator.token_type,
            v,
        ),
    ensures
        eval_expr(
            sem,
            ExprV::Logical { left: Box::new(left), operator, right: Box::new(right) },
            st,
            depth,
        ) == eval_expr(sem, left, st, (depth - 1) as nat),
{
}

/// A function called with another number of arguments than it declares
/// fails, and its body does not run: the state stays as it was.
pub proof fn law_arity(
    sem: spec_fn(ArithOp, u64, u64) -> u64,
    f: FunctionEnum,
    args: Seq<ValueV>,
    st: StateV,
    depth: nat,
)
    requires
        arity_of(f, st) matches Some(n) && n != args.len(),
    ensures
        call(sem, f, args, st, depth) == (
            Err::<ValueV, ErrorV>(failure("Incorrect number of arguments"@)),
            st,
        ),
{
}

/// A statement that does not end normally, be it by a failure or by a
/// `return`, ends the list it stands in: the statements after it do not run.
pub proof fn law_list_stops(
    sem: spec_fn(ArithOp, u64, u64) -> u64,
    statements: Seq<StmtV>,
    from: nat,
    last: ValueV,
    st: StateV,
    depth: nat,
)
    requires
        from < statements.len(),
        exec_stmt(sem, statements[from as int], st, depth).0 is Err,
    ensures
        exec_list(sem, statements, from, last, st, depth) == exec_stmt(
            sem,
            statements[from as int],
            st,
            depth,
        ),
{
}

/// A block passes on what ends its statements early, and makes the scope
/// that was current before it current again.
pub proof fn law_block_passes(
    sem: spec_fn(ArithOp, u64, u64) -> u64,
    statements: Seq<StmtV>,
    scope: usize,
    st: StateV,
    depth: nat,
)
    ensures
        execute_block(sem, statements, scope, st, depth).1.environment == st.environment,
        exec_list(
            sem,
            statements,
            0,
            ValueV::Nil,
            StateV { environment: scope, ..st },
            depth,
        ).0 matches Err(e) ==> execute_block(sem, statements, scope, st, depth).0 == Err::<
            ValueV,
            ErrorV,
        >(e),
{
}

/// A conditional ends as the branch it takes ends, be it normally, by a
/// failure or by a `return`.
pub proof fn law_if_passes(
    sem: spec_fn(ArithOp, u64, u64) -> u64,
    condition: ExprV,
    then_branch: StmtV,
    else_branch: Option<Box<StmtV>>,
    st: StateV,
    depth: nat,
)
    requires
        depth > 0,
        eval_expr(sem, condition, st, (depth - 1) as nat).0 is Ok,
    ensures
        ({
            let d = (depth - 1) as nat;
            let (c, st1) = eval_expr(sem, condition, st, d);
            let whole = exec_stmt(
                sem,
                StmtV::If { condition, then_branch: Box::new(then_branch), else_branch },
                st,
                depth,
            );
            if truthy(c->Ok_0) {
                whole == exec_stmt(sem, then_branch, st1, d)
            } else {
                match else_branch {
                    Some(other) => whole == exec_stmt(sem, *other, st1, d),
                    None => whole == (Ok::<ValueV, ErrorV>(ValueV::Nil), st1),
                }
            }
        }),
{
}

/// A loop passes on what ends its body early: no further round runs.
pub proof fn law_loop_passes(
    sem: spec_fn(ArithOp, u64, u64) -> u64,
    condition: ExprV,
    body: StmtV,
    st: StateV,
    depth: nat,
    rounds: nat,
)
    requires
        rounds > 0,
        eval_expr(sem, condition, st, depth).0 matches Ok(c) && truthy(c),
        exec_stmt(sem, body, eval_expr(sem, condition, st, depth).1, depth).0 is Err,
    ensures
        exec_while(sem, condition, body, st, depth, rounds) == exec_stmt(
            sem,
            body,
            eval_expr(sem, condition, st, depth).1,
            depth,
        ),
{
}

/// A call ends where its body returns, and has the returned value.
pub proof fn law_call_takes_return(v: ValueV)
    ensures
        unwrap_result(Err(ErrorV { msg: Seq::empty(), returning: true, value: Some(v) })) == Ok::<
            ValueV,
            ErrorV,
        >(v),
        unwrap_result(Err(ErrorV { msg: Seq::empty(), returning: true, value: None })) == Ok::<
            ValueV,
            ErrorV,
        >(ValueV::Nil),
{
}

/// What running code with `current` as the current scope leaves of the
/// scopes that were there before: each is still enclosed as it was, each
/// but `current` binds the names it bound, and `current` binds at least
/// those.
pub open spec fn preserves(before: Seq<ScopeV>, after: Seq<ScopeV>, current: usize) -> bool {
    &&& before.len() <= after.len()
    &&& forall|i: int|
        0 <= i < before.len() ==> (#[trigger] after[i]).enclosing == before[i].enclosing
    &&& forall|i: int|
        0 <= i < before.len() && i != current ==> (#[trigger] after[i]).values.dom()
            == before[i].values.dom()
    &&& forall|i: int|
        0 <= i < before.len() ==> before[i].values.dom().subset_of((#[trigger] after[i]).values.dom())
}

/// An evaluation keeps the current scope, and the names of all scopes but
/// the current one.
pub open spec fn framed(st: StateV, out: StateV) -> bool {
    out.environment == st.environment && preserves(st.scopes, out.scopes, st.environment)
}

proof fn lemma_preserves_chain(a: Seq<ScopeV>, b: Seq<ScopeV>, c: Seq<ScopeV>, current: usize)
    requires
        preserves(a, b, current),
        preserves(b, c, current),
    ensures
        preserves(a, c, current),
{
    assert forall|i: int| 0 <= i < a.len() implies (#[trigger] c[i]).enclosing
        == a[i].enclosing by {
        assert(b[i].enclosing == a[i].enclosing);
    }
    assert forall|i: int| 0 <= i < a.len() && i != current implies (#[trigger] c[i]).values.dom()
        == a[i].values.dom() by {
        assert(b[i].values.dom() == a[i].values.dom());
    }
    assert forall|i: int| 0 <= i < a.len() implies a[i].values.dom().subset_of(
        (#[trigger] c[i]).values.dom(),
    ) by {
        assert(a[i].values.dom().subset_of(b[i].values.dom()));
        assert(b[i].values.dom().subset_of(c[i].values.dom()));
    }
}

proof fn lemma_bound_preserves(scopes: Seq<ScopeV>, scope: usize, name: Seq<char>, value: ValueV)
    ensures
        preserves(scopes, bound(scopes, scope, name, value), scope),
        bound(scopes, scope, name, value).len() == scopes.len(),
{
}

/// Assigning binds no name: every scope binds the names it bound.
proof fn lemma_assigned_preserves(
    scopes: Seq<ScopeV>,
    scope: usize,
    name: Seq<char>,
    value: ValueV,
    current: usize,
)
    ensures
        assigned(scopes, scope, name, value) matches Some(after) ==> preserves(
            scopes,
            after,
            current,
        ),
{
    lemma_resolve_owner(scopes, scope, name);
    match assigned(scopes, scope, name, value) {
        Some(after) => {
            let owner = resolve(scopes, scope, name)->0;
            assert(after[owner as int].values.dom() =~= scopes[owner as int].values.dom());
        },
        None => {},
    }
}

proof fn lemma_bind_all_preserves(
    scopes: Seq<ScopeV>,
    scope: usize,
    params: Seq<TokenV>,
    args: Seq<ValueV>,
    from: nat,
)
    ensures
        preserves(scopes, bind_all(scopes, scope, params, args, from), scope),
    decreases params.len() - from,
{
    if from >= params.len() || from >= args.len() {
    } else {
        let next = bound(scopes, scope, params[from as int].lexeme, args[from as int]);
        lemma_bound_preserves(scopes, scope, params[from as int].lexeme, args[from as int]);
        lemma_bind_all_preserves(next, scope, params, args, from + 1);
        lemma_preserves_chain(scopes, next, bind_all(next, scope, params, args, from + 1), scope);
    }
}

/// Whatever an expression does, the current scope is afterwards the one it
/// was, and no scope but the current one has gained a name.
pub proof fn lemma_expr_framed(
    sem: spec_fn(ArithOp, u64, u64) -> u64,
    e: ExprV,
    st: StateV,
    depth: nat,
)
    ensures
        framed(st, eval_expr(sem, e, st, depth).1),
    decreases depth, 0nat,
{
    if depth > 0 {
        let d = (depth - 1) as nat;
        match e {
            ExprV::Literal { value } => {},
            ExprV::Grouping { expression } => {
                lemma_expr_framed(sem, *expression, st, d);
            },
            ExprV::Variable { name } => {},
            ExprV::Assign { name, value } => {
                lemma_expr_framed(sem, *value, st, d);
                let (r, st1) = eval_expr(sem, *value, st, d);
                match r {
                    Ok(v) => {
                        lemma_assigned_preserves(
                            st1.scopes,
                            st1.environment,
                            name.lexeme,
                            v,
                            st.environment,
                        );
                        match assigned(st1.scopes, st1.environment, name.lexeme, v) {
                            Some(scopes) => {
                                lemma_preserves_chain(
                                    st.scopes,
                                    st1.scopes,
                                    scopes,
                                    st.environment,
                                );
                            },
                            None => {},
                        }
                    },
                    Err(_) => {},
                }
            },
            ExprV::Unary { operator, right } => {
                lemma_expr_framed(sem, *right, st, d);
            },
            ExprV::Binary { left, operator, right } => {
                lemma_expr_framed(sem, *left, st, d);
                let (l, st1) = eval_expr(sem, *left, st, d);
                lemma_expr_framed(sem, *right, st1, d);
                let (r, st2) = eval_expr(sem, *right, st1, d);
                lemma_preserves_chain(st.scopes, st1.scopes, st2.scopes, st.environment);
            },
            ExprV::Logical { left, operator, right } => {
                lemma_expr_framed(sem, *left, st, d);
                let (l, st1) = eval_expr(sem, *left, st, d);
                lemma_expr_framed(sem, *right, st1, d);
                let (r, st2) = eval_expr(sem, *right, st1, d);
                lemma_preserves_chain(st.scopes, st1.scopes, st2.scopes, st.environment);
            },
            ExprV::Call { callee, paren, arguments } => {
                lemma_expr_framed(sem, *callee, st, d);
                let (c, st1) = eval_expr(sem, *callee, st, d);
                lemma_args_framed(sem, arguments, 0, Seq::empty(), st1, d);
                let (a, st2) = eval_args(sem, arguments, 0, Seq::empty(), st1, d);
                lemma_preserves_chain(st.scopes, st1.scopes, st2.scopes, st.environment);
                match (c, a) {
                    (Ok(ValueV::Function(f)), Ok(args)) => {
                        lemma_call_framed(sem, f, args, st2, d);
                        lemma_preserves_chain(
                            st.scopes,
                            st2.scopes,
                            call(sem, f, args, st2, d).1.scopes,
                            st.environment,
                        );
                    },
                    _ => {},
                }
            },
        }
    }
}

/// The same of the arguments of a call.
pub proof fn lemma_args_framed(
    sem: spec_fn(ArithOp, u64, u64) -> u64,
    arguments: Seq<ExprV>,
    from: nat,
    done: Seq<ValueV>,
    st: StateV,
    depth: nat,
)
    ensures
        framed(st, eval_args(sem, arguments, from, done, st, depth).1),
    decreases depth, arguments.len() - from + 1,
{
    if from < arguments.len() {
        lemma_expr_framed(sem, arguments[from as int], st, depth);
        let (r, st1) = eval_expr(sem, arguments[from as int], st, depth);
        match r {
            Ok(v) => {
                lemma_args_framed(sem, arguments, from + 1, done.push(v), st1, depth);
                lemma_preserves_chain(
                    st.scopes,
                    st1.scopes,
                    eval_args(sem, arguments, from + 1, done.push(v), st1, depth).1.scopes,
                    st.environment,
                );
            },
            Err(_) => {},
        }
    }
}

/// A call leaves every scope that was there with the names it had: the
/// body runs in a scope of its own.
pub proof fn lemma_call_framed(
    sem: spec_fn(ArithOp, u64, u64) -> u64,
    f: FunctionEnum,
    args: Seq<ValueV>,
    st: StateV,
    depth: nat,
)
    ensures
        framed(st, call(sem, f, args, st, depth).1),
    decreases depth, 0nat,
{
    match arity_of(f, st) {
        Some(n) => {
            if n == args.len() {
                match f {
                    FunctionEnum::User(u) => {
                        if depth > 0 && st.scopes.len() < usize::MAX {
                            let decl = st.declarations[u.declaration as int];
                            let scope = st.scopes.len() as usize;
                            let wider = extended(st.scopes, u.closure);
                            let scopes = bind_all(wider, scope, decl.params, args, 0);
                            lemma_bind_all_preserves(wider, scope, decl.params, args, 0);
                            let st0 = StateV { scopes, ..st };
                            lemma_block_framed(sem, decl.body, scope, st0, (depth - 1) as nat);
                            let out = execute_block(sem, decl.body, scope, st0, (depth - 1) as nat).1;
                            assert(preserves(st.scopes, wider, scope));
                            lemma_preserves_chain(st.scopes, wider, scopes, scope);
                            lemma_preserves_chain(st.scopes, scopes, out.scopes, scope);
                            assert(preserves(st.scopes, out.scopes, st.environment));
                        }
                    },
                    _ => {},
                }
            }
        },
        None => {},
    }
}

/// Statements that run in `scope` leave every other scope with the names
/// it had, and the current scope as it was.
pub proof fn lemma_block_framed(
    sem: spec_fn(ArithOp, u64, u64) -> u64,
    statements: Seq<StmtV>,
    scope: usize,
    st: StateV,
    depth: nat,
)
    ensures
        execute_block(sem, statements, scope, st, depth).1.environment == st.environment,
        preserves(st.scopes, execute_block(sem, statements, scope, st, depth).1.scopes, scope),
    decreases depth, statements.len() + 2,
{
    lemma_list_framed(sem, statements, 0, ValueV::Nil, StateV { environment: scope, ..st }, depth);
}

/// The same of a list of statements.
pub proof fn lemma_list_framed(
    sem: spec_fn(ArithOp, u64, u64) -> u64,
    statements: Seq<StmtV>,
    from: nat,
    last: ValueV,
    st: StateV,
    depth: nat,
)
    ensures
        framed(st, exec_list(sem, statements, from, last, st, depth).1),
    decreases depth, statements.len() - from + 1,
{
    if from < statements.len() {
        lemma_stmt_framed(sem, statements[from as int], st, depth);
        let (r, st1) = exec_stmt(sem, statements[from as int], st, depth);
        match r {
            Ok(v) => {
                lemma_list_framed(sem, statements, from + 1, v, st1, depth);
                lemma_preserves_chain(
                    st.scopes,
                    st1.scopes,
                    exec_list(sem, statements, from + 1, v, st1, depth).1.scopes,
                    st.environment,
                );
            },
            Err(_) => {},
        }
    }
}

/// The same of a loop.
pub proof fn lemma_while_framed(
    sem: spec_fn(ArithOp, u64, u64) -> u64,
    condition: ExprV,
    body: StmtV,
    st: StateV,
    depth: nat,
    rounds: nat,
)
    ensures
        framed(st, exec_while(sem, condition, body, st, depth, rounds).1),
    decreases depth, rounds + 1,
{
    lemma_expr_framed(sem, condition, st, depth);
    let (c, st1) = eval_expr(sem, condition, st, depth);
    match c {
        Ok(cv) => {
            if truthy(cv) && rounds > 0 {
                lemma_stmt_framed(sem, body, st1, depth);
                let (b, st2) = exec_stmt(sem, body, st1, depth);
                lemma_preserves_chain(st.scopes, st1.scopes, st2.scopes, st.environment);
                match b {
                    Ok(_) => {
                        lemma_while_framed(sem, condition, body, st2, depth, (rounds - 1) as nat);
                        lemma_preserves_chain(
                            st.scopes,
                            st2.scopes,
                            exec_while(
                                sem,
                                condition,
                                body,
                                st2,
                                depth,
                                (rounds - 1) as nat,
                            ).1.scopes,
                            st.environment,
                        );
                    },
                    Err(_) => {},
                }
            }
        },
        Err(_) => {},
    }
}

/// Whatever a statement does, the current scope is afterwards the one it
/// was, and no scope but the current one has gained a name.
pub proof fn lemma_stmt_framed(
    sem: spec_fn(ArithOp, u64, u64) -> u64,
    s: StmtV,
    st: StateV,
    depth: nat,
)
    ensures
        framed(st, exec_stmt(sem, s, st, depth).1),
    decreases depth, 0nat,
{
    if depth > 0 {
        let d = (depth - 1) as nat;
        match s {
            StmtV::Expression { expression } => {
                lemma_expr_framed(sem, expression, st, d);
            },
            StmtV::Print { expression } => {
                lemma_expr_framed(sem, expression, st, d);
            },
            StmtV::Variable { name, initializer } => {
                match initializer {
                    None => {
                        lemma_bound_preserves(st.scopes, st.environment, name.lexeme, ValueV::Nil);
                    },
                    Some(e) => {
                        lemma_expr_framed(sem, e, st, d);
                        let (r, st1) = eval_expr(sem, e, st, d);
                        match r {
                            Ok(v) => {
                                lemma_bound_preserves(st1.scopes, st1.environment, name.lexeme, v);
                                lemma_preserves_chain(
                                    st.scopes,
                                    st1.scopes,
                                    bound(st1.scopes, st1.environment, name.lexeme, v),
                                    st.environment,
                                );
                            },
                            Err(_) => {},
                        }
                    },
                }
            },
            StmtV::Block { statements } => {
                if st.scopes.len() < usize::MAX {
                    lemma_block_unchanged(sem, statements, st, d);
                }
            },
            StmtV::If { condition, then_branch, else_branch } => {
                lemma_expr_framed(sem, condition, st, d);
                let (c, st1) = eval_expr(sem, condition, st, d);
                match c {
                    Ok(cv) => {
                        if truthy(cv) {
                            lemma_stmt_framed(sem, *then_branch, st1, d);
                            lemma_preserves_chain(
                                st.scopes,
                                st1.scopes,
                                exec_stmt(sem, *then_branch, st1, d).1.scopes,
                                st.environment,
                            );
                        } else {
                            match else_branch {
                                Some(other) => {
                                    lemma_stmt_framed(sem, *other, st1, d);
                                    lemma_preserves_chain(
                                        st.scopes,
                                        st1.scopes,
                                        exec_stmt(sem, *other, st1, d).1.scopes,
                                        st.environment,
                                    );
                                },
                                None => {},
                            }
                        }
                    },
                    Err(_) => {},
                }
            },
            StmtV::While { condition, body } => {
                lemma_while_framed(sem, condition, *body, st, d, st.loop_limit as nat);
            },
            StmtV::Function { name, params, body } => {
                let f = FunctionEnum::User(
                    UserDefinedFunction {
                        declaration: st.declarations.len() as usize,
                        closure: st.environment,
                    },
                );
                lemma_bound_preserves(st.scopes, st.environment, name.lexeme, ValueV::Function(f));
            },
            StmtV::Return { keyword, value } => {
                match value {
                    Some(e) => {
                        lemma_expr_framed(sem, e, st, d);
                    },
                    None => {},
                }
            },
        }
    }
}

/// The statements of a block run in a scope that is new: every scope that
/// was there before binds afterwards exactly the names it bound.
pub proof fn lemma_block_unchanged(
    sem: spec_fn(ArithOp, u64, u64) -> u64,
    statements: Seq<StmtV>,
    st: StateV,
    depth: nat,
)
    requires
        st.scopes.len() < usize::MAX,
    ensures
        ({
            let out = execute_block(
                sem,
                statements,
                st.scopes.len() as usize,
                StateV { scopes: extended(st.scopes, st.environment), ..st },
                depth,
            ).1;
            &&& out.environment == st.environment
            &&& preserves(st.scopes, out.scopes, st.scopes.len() as usize)
        }),
    decreases depth, statements.len() + 3,
{
    let scope = st.scopes.len() as usize;
    let wider = extended(st.scopes, st.environment);
    let st0 = StateV { scopes: wider, ..st };
    lemma_block_framed(sem, statements, scope, st0, depth);
    let out = execute_block(sem, statements, scope, st0, depth).1;
    assert(preserves(st.scopes, wider, scope));
    lemma_preserves_chain(st.scopes, wider, out.scopes, scope);
}

/// Where a name is bound depends only on which names the scopes bind and
/// on how they are enclosed.
pub proof fn lemma_resolve_same(a: Seq<ScopeV>, b: Seq<ScopeV>, scope: usize, name: Seq<char>)
    requires
        scope < a.len() <= b.len(),
        forall|i: int| 0 <= i < a.len() ==> (#[trigger] b[i]).enclosing == a[i].enclosing,
        forall|i: int| 0 <= i < a.len() ==> (#[trigger] b[i]).values.dom() == a[i].values.dom(),
    ensures
        resolve(b, scope, name) == resolve(a, scope, name),
    decreases scope,
{
    assert(b[scope as int].values.dom() == a[scope as int].values.dom());
    assert(b[scope as int].enclosing == a[scope as int].enclosing);
    if !a[scope as int].values.contains_key(name) {
        match a[scope as int].enclosing {
            Some(outer) => {
                if outer < scope {
                    lemma_resolve_same(a, b, outer, name);
                }
            },
            None => {},
        }
    }
}

/// A variable declared in a block is not visible after the block, and a
/// name that the block declares anew means after the block what it meant
/// before: however the block ends, the current scope is the one it was, and
/// every name is bound in the scope in which it was bound before the block,
/// or in none if it was bound in none.
pub proof fn law_block_scope(
    sem: spec_fn(ArithOp, u64, u64) -> u64,
    statements: Seq<StmtV>,
    st: StateV,
    depth: nat,
    name: Seq<char>,
)
    requires
        st.environment < st.scopes.len(),
    ensures
        ({
            let out = exec_stmt(sem, StmtV::Block { statements }, st, depth).1;
            &&& out.environment == st.environment
            &&& resolve(out.scopes, out.environment, name) == resolve(
                st.scopes,
                st.environment,
                name,
            )
        }),
{
    if depth > 0 && st.scopes.len() < usize::MAX {
        lemma_block_unchanged(sem, statements, st, (depth - 1) as nat);
        let out = exec_stmt(sem, StmtV::Block { statements }, st, depth).1;
        lemma_resolve_same(st.scopes, out.scopes, st.environment, name);
    }
}

/// Inside a block a declaration shadows: a name bound in a scope is found
/// in that scope, whatever the scopes around it bind, and the scopes around
/// it are left as they were.
pub proof fn law_declaration_shadows(
    scopes: Seq<ScopeV>,
    scope: usize,
    name: Seq<char>,
    value: ValueV,
)
    requires
        scope < scopes.len(),
    ensures
        resolve(bound(scopes, scope, name, value), scope, name) == Some(scope),
        lookup(bound(scopes, scope, name, value), scope, name) == Some(value),
        forall|i: int|
            0 <= i < scopes.len() && i != scope ==> bound(scopes, scope, name, value)[i]
                == scopes[i],
{
}

/// What is assigned is read again: after an assignment the name has the
/// new value, seen from the scope of the assignment and from every scope
/// from which the name resolves to the same binding; no other binding has
/// changed.
pub proof fn law_assignment_is_read(
    scopes: Seq<ScopeV>,
    scope: usize,
    name: Seq<char>,
    value: ValueV,
    from: usize,
)
    requires
        assigned(scopes, scope, name, value) is Some,
        from < scopes.len(),
    ensures
        ({
            let after = assigned(scopes, scope, name, value)->0;
            let owner = resolve(scopes, scope, name)->0;
            &&& lookup(after, scope, name) == Some(value)
            &&& resolve(after, from, name) == resolve(scopes, from, name)
            &&& resolve(scopes, from, name) == Some(owner) ==> lookup(after, from, name) == Some(
                value,
            )
            &&& forall|i: int, other: Seq<char>|
                0 <= i < scopes.len() && (i != owner || other != name) ==> (
                #[trigger] after[i].values.contains_key(other)) == scopes[i].values.contains_key(
                    other,
                ) && after[i].values[other] == scopes[i].values[other]
        }),
{
    lemma_resolve_owner(scopes, scope, name);
    let after = assigned(scopes, scope, name, value)->0;
    let owner = resolve(scopes, scope, name)->0;
    assert(after[owner as int].values.dom() =~= scopes[owner as int].values.dom());
    assert forall|i: int| 0 <= i < scopes.len() implies (#[trigger] after[i]).values.dom()
        == scopes[i].values.dom() by {}
    lemma_resolve_same(scopes, after, scope, name);
    lemma_resolve_same(scopes, after, from, name);
}

/// A scope, once made, stays: this is what lets a function that was
/// returned from a call still reach the variables of that call. However a
/// program runs, every scope that was there before is there afterwards,
/// enclosed as it was and binding at least the names it bound, and the
/// current scope is the one it was.
pub proof fn law_scopes_stay(
    sem: spec_fn(ArithOp, u64, u64) -> u64,
    statements: Seq<StmtV>,
    st: StateV,
)
    ensures
        framed(st, run(sem, statements, st).1),
{
    lemma_list_framed(sem, statements, 0, ValueV::Nil, st, st.depth_limit as nat);
}

/// Two calls do not share their variables: the body of a declared function
/// runs in a scope that did not exist before the call, inside the scope in
/// which the function was declared.
pub proof fn law_call_scope(
    sem: spec_fn(ArithOp, u64, u64) -> u64,
    f: UserDefinedFunction,
    args: Seq<ValueV>,
    st: StateV,
    depth: nat,
)
    requires
        arity_of(FunctionEnum::User(f), st) == Some(args.len()),
        depth > 0,
        st.scopes.len() < usize::MAX,
    ensures
        ({
            let declared = st.declarations[f.declaration as int];
            let fresh = st.scopes.len() as usize;
            let entered = StateV {
                scopes: bind_all(extended(st.scopes, f.closure), fresh, declared.params, args, 0),
                ..st
            };
            &&& entered.scopes.len() == st.scopes.len() + 1
            &&& entered.scopes[fresh as int].enclosing == Some(f.closure)
            &&& call(sem, FunctionEnum::User(f), args, st, depth).0 == unwrap_result(
                execute_block(sem, declared.body, fresh, entered, (depth - 1) as nat).0,
            )
        }),
{
    let declared = st.declarations[f.declaration as int];
    let fresh = st.scopes.len() as usize;
    lemma_bind_all_preserves(extended(st.scopes, f.closure), fresh, declared.params, args, 0);
    lemma_bind_all_length(extended(st.scopes, f.closure), fresh, declared.params, args, 0);
}

proof fn lemma_bind_all_length(
    scopes: Seq<ScopeV>,
    scope: usize,
    params: Seq<TokenV>,
    args: Seq<ValueV>,
    from: nat,
)
    ensures
        bind_all(scopes, scope, params, args, from).len() == scopes.len(),
    decreases params.len() - from,
{
    if from >= params.len() || from >= args.len() {
    } else {
        lemma_bind_all_length(
            bound(scopes, scope, params[from as int].lexeme, args[from as int]),
            scope,
            params,
            args,
            from + 1,
        );
    }
}

} // verus!
