//! What programs of the core language mean.
//!
//! Evaluation is a function from an environment and a piece of syntax to the
//! environment afterwards and a result. The environment afterwards is given
//! for failures too: what was bound and printed before a failure stays.
//!
//! Every evaluation ends, because it is bounded: calls nest no deeper than
//! the limits say, and a loop that is entered runs its body no more often
//! than they say. An evaluation that would go beyond fails.

use vstd::prelude::*;
use crate::desugar::{
    desugar_expr, desugar_stmt, desugar_stmts, CoreExpr, CoreProcedure, CoreStatement,
};
use crate::environment::{
    bindings, lemma_bind_and_assign_keep_shape, lemma_resolve, resolve_in, EnvModel, ScopeModel,
};
use crate::error::RuntimeErrorModel;
use crate::interpreter::{ControlFlow, Limits, ValueModel};
use crate::parser::{Builtin, CoreProgram, SurfaceExpr, SurfaceStatement};
use crate::text::{decimal, text_less};
use crate::tokenizer::Operator;

verus! {

/// The environment afterwards, and the result.
pub type Outcome<T> = (EnvModel, Result<T, RuntimeErrorModel>);

/// The text that `print` writes for a value.
pub open spec fn display(v: ValueModel) -> Seq<char> {
    match v {
        ValueModel::Num(n) => decimal(n as int),
        ValueModel::Bool(b) => if b {
            "true"@
        } else {
            "false"@
        },
        ValueModel::Str(s) => s,
        ValueModel::Lambda(_, _, _) => "<lambda>"@,
        ValueModel::Void => "<void>"@,
    }
}

/// The texts of the values with `separator` between neighbours.
pub open spec fn joined(vs: Seq<ValueModel>, separator: Seq<char>) -> Seq<char>
    decreases vs.len(),
{
    if vs.len() == 0 {
        Seq::empty()
    } else if vs.len() == 1 {
        display(vs[0])
    } else {
        joined(vs.drop_last(), separator) + separator + display(vs.last())
    }
}

/// Of two operands that do not fit an operator, the one that is reported:
/// the right one where the left one is a number, the left one otherwise.
pub open spec fn blame(l: ValueModel, r: ValueModel) -> ValueModel {
    if l is Num {
        r
    } else {
        l
    }
}

/// The quotient rounded towards zero.
pub open spec fn quotient(a: int, b: int) -> int {
    if a >= 0 && b > 0 {
        a / b
    } else if a < 0 && b < 0 {
        (-a) / (-b)
    } else if a < 0 {
        -((-a) / b)
    } else {
        -(a / (-b))
    }
}

/// The remainder that goes with [`quotient`]; it has the sign of `a`.
pub open spec fn remainder(a: int, b: int) -> int {
    if a >= 0 && b > 0 {
        a % b
    } else if a < 0 && b < 0 {
        -((-a) % (-b))
    } else if a < 0 {
        -((-a) % b)
    } else {
        a % (-b)
    }
}

/// The exact result of an arithmetic operator, where it is defined.
pub open spec fn exact(op: Operator, a: int, b: int) -> Option<int> {
    match op {
        Operator::Plus => Some(a + b),
        Operator::Minus => Some(a - b),
        Operator::Times => Some(a * b),
        Operator::Div => if b != 0 {
            Some(quotient(a, b))
        } else {
            None
        },
        Operator::Mod => if b != 0 {
            Some(remainder(a, b))
        } else {
            None
        },
        _ => None,
    }
}

/// The result of an arithmetic operator on numbers: the exact result where
/// it is defined and a number of the language, and nothing otherwise. The
/// remainder of the least number by -1 counts as undefined, as its quotient is.
pub open spec fn arithmetic(op: Operator, a: i64, b: i64) -> Option<i64> {
    match exact(op, a as int, b as int) {
        Some(n) => if i64::MIN <= n <= i64::MAX && !(op == Operator::Mod && a == i64::MIN && b
            == -1) {
            Some(n as i64)
        } else {
            None
        },
        None => None,
    }
}

/// Whether the operator is one of `+ - * / %`.
pub open spec fn is_arithmetic(op: Operator) -> bool {
    op == Operator::Plus || op == Operator::Minus || op == Operator::Times || op == Operator::Div
        || op == Operator::Mod
}

/// Whether the operator is one of `== != < > <= >=`.
pub open spec fn is_comparison(op: Operator) -> bool {
    op == Operator::Eq || op == Operator::Ne || op == Operator::LT || op == Operator::GT || op
        == Operator::LTE || op == Operator::GTE
}

/// Whether the operator is `&&` or `||`.
pub open spec fn is_logical(op: Operator) -> bool {
    op == Operator::LogicAnd || op == Operator::LogicOr
}

/// Whether the operator takes two operands. `-` takes one or two.
pub open spec fn is_binary(op: Operator) -> bool {
    is_arithmetic(op) || is_comparison(op) || is_logical(op)
}

/// Whether the operator is an increment or a decrement.
pub open spec fn is_step(op: Operator) -> bool {
    op == Operator::PreIncrement || op == Operator::PostIncrement || op == Operator::PreDecrement
        || op == Operator::PostDecrement
}

/// Whether the operator takes one operand. `-` takes one or two.
pub open spec fn is_unary(op: Operator) -> bool {
    op == Operator::Minus || op == Operator::LogicNot || is_step(op)
}

/// What a comparison gives for operands of which the left is less than the
/// right (`less`), or equal to it (`equal`), or neither. An operator that
/// is no comparison gives `false`.
pub open spec fn compares(op: Operator, less: bool, equal: bool) -> bool {
    match op {
        Operator::Eq => equal,
        Operator::Ne => !equal,
        Operator::LT => less,
        Operator::GT => !less && !equal,
        Operator::LTE => less || equal,
        Operator::GTE => !less,
        _ => false,
    }
}

/// The value of a binary operator applied to two values.
///
/// Arithmetic takes two numbers, and `+` two strings as well, which it joins.
/// A comparison takes two numbers, two strings or two booleans; `false` is
/// less than `true`. Operands of other kinds fail with `BadArg` of the
/// operand that [`blame`] picks, numbers for which [`arithmetic`] gives
/// nothing with `BadArgs`. `&&` and `||` take two booleans, and fail with
/// `ExpectedBool` of the first operand that is none.
pub open spec fn apply_binary(op: Operator, l: ValueModel, r: ValueModel) -> Result<
    ValueModel,
    RuntimeErrorModel,
> {
    if is_arithmetic(op) {
        match (l, r) {
            (ValueModel::Num(a), ValueModel::Num(b)) => match arithmetic(op, a, b) {
                Some(n) => Ok(ValueModel::Num(n)),
                None => Err(RuntimeErrorModel::BadArgs(seq![l, r])),
            },
            (ValueModel::Str(a), ValueModel::Str(b)) => if op == Operator::Plus {
                Ok(ValueModel::Str(a + b))
            } else {
                Err(RuntimeErrorModel::BadArg(l))
            },
            _ => Err(RuntimeErrorModel::BadArg(blame(l, r))),
        }
    } else if is_comparison(op) {
        match (l, r) {
            (ValueModel::Num(a), ValueModel::Num(b)) => Ok(
                ValueModel::Bool(compares(op, a < b, a == b)),
            ),
            (ValueModel::Str(a), ValueModel::Str(b)) => Ok(
                ValueModel::Bool(compares(op, text_less(a, b), a == b)),
            ),
            (ValueModel::Bool(a), ValueModel::Bool(b)) => Ok(
                ValueModel::Bool(compares(op, !a && b, a == b)),
            ),
            _ => Err(RuntimeErrorModel::BadArg(blame(l, r))),
        }
    } else if is_logical(op) {
        match (l, r) {
            (ValueModel::Bool(a), ValueModel::Bool(b)) => Ok(
                ValueModel::Bool(
                    if op == Operator::LogicAnd {
                        a && b
                    } else {
                        a || b
                    },
                ),
            ),
            (ValueModel::Bool(_), _) => Err(RuntimeErrorModel::ExpectedBool(r)),
            _ => Err(RuntimeErrorModel::ExpectedBool(l)),
        }
    } else {
        Err(RuntimeErrorModel::UnaryAsBinary(op))
    }
}

/// The value of `-` or `!` applied to a value: `-` takes a number other
/// than the least, and fails with `BadArg` otherwise; `!` takes a boolean,
/// and fails with `ExpectedBool` otherwise.
pub open spec fn apply_unary(op: Operator, v: ValueModel) -> Result<ValueModel, RuntimeErrorModel> {
    if op == Operator::Minus {
        match v {
            ValueModel::Num(n) => if n != i64::MIN {
                Ok(ValueModel::Num((-n) as i64))
            } else {
                Err(RuntimeErrorModel::BadArg(v))
            },
            _ => Err(RuntimeErrorModel::BadArg(v)),
        }
    } else if op == Operator::LogicNot {
        match v {
            ValueModel::Bool(b) => Ok(ValueModel::Bool(!b)),
            _ => Err(RuntimeErrorModel::ExpectedBool(v)),
        }
    } else if is_step(op) {
        Err(RuntimeErrorModel::InvalidAssignmentTarget)
    } else {
        Err(RuntimeErrorModel::BinaryAsUnary(op))
    }
}

/// The number that an increment or decrement puts in place of `n`, where it
/// is a number of the language.
pub open spec fn stepped(op: Operator, n: i64) -> Option<i64> {
    if op == Operator::PreIncrement || op == Operator::PostIncrement {
        if n < i64::MAX {
            Some((n + 1) as i64)
        } else {
            None
        }
    } else if op == Operator::PreDecrement || op == Operator::PostDecrement {
        if n > i64::MIN {
            Some((n - 1) as i64)
        } else {
            None
        }
    } else {
        None
    }
}

/// An increment or decrement of the variable `name`: the variable must hold
/// a number and gets the number one above or below it. Written before the
/// variable, the expression has the number that the variable held before;
/// written after it, the number that the variable holds afterwards.
pub open spec fn step_variable(env: EnvModel, op: Operator, name: Seq<char>) -> Outcome<
    ValueModel,
> {
    match env.lookup(name) {
        Some(ValueModel::Num(n)) => match stepped(op, n) {
            Some(m) => match env.assign(name, ValueModel::Num(m)) {
                Some(after) => (
                    after,
                    Ok(
                        ValueModel::Num(
                            if op == Operator::PreIncrement || op == Operator::PreDecrement {
                                n
                            } else {
                                m
                            },
                        ),
                    ),
                ),
                None => (env, Err(RuntimeErrorModel::UnknownVariable(name))),
            },
            None => (env, Err(RuntimeErrorModel::BadArg(ValueModel::Num(n)))),
        },
        Some(v) => (env, Err(RuntimeErrorModel::BadArg(v))),
        None => (env, Err(RuntimeErrorModel::UnknownVariable(name))),
    }
}

/// The name by which a failed call reports its callee.
pub open spec fn callee_name(callee: CoreExpr) -> Seq<char> {
    match callee {
        CoreExpr::Var(name) => name,
        _ => "<lambda>"@,
    }
}

/// The value of an expression.
pub open spec fn eval_expr(env: EnvModel, e: CoreExpr, limits: Limits) -> Outcome<ValueModel>
    decreases limits.depth, e, 1nat,
{
    match e {
        CoreExpr::Num(n) => (env, Ok(ValueModel::Num(n))),
        CoreExpr::Bool(b) => (env, Ok(ValueModel::Bool(b))),
        CoreExpr::Str(s) => (env, Ok(ValueModel::Str(s))),
        CoreExpr::Var(name) => (
            env,
            match env.lookup(name) {
                Some(v) => Ok(v),
                None => Err(RuntimeErrorModel::UnknownVariable(name)),
            },
        ),
        CoreExpr::Lambda(params, body) => (env, Ok(ValueModel::Lambda(params, body, env.current))),
        CoreExpr::Binary(op, l, r) => eval_binary(env, op, *l, *r, limits),
        CoreExpr::Unary(op, operand) => eval_unary(env, op, *operand, limits),
        CoreExpr::Call(callee, args) => eval_call(env, *callee, args, limits),
        CoreExpr::PrimitiveCall(Builtin::Print, args) => {
            let (after, values) = eval_args(env, args, Seq::empty(), limits);
            match values {
                Ok(vs) => (after.print(joined(vs, " "@)), Ok(ValueModel::Void)),
                Err(e) => (after, Err(e)),
            }
        },
    }
}

/// The value of a binary expression.
///
/// An operator that takes no two operands fails before anything is
/// evaluated. `&&` and `||` evaluate the left operand, which must be a
/// boolean; where it decides the result, the right operand is not
/// evaluated, and otherwise the right operand, which must be a boolean, is
/// the result. The other operators evaluate the left operand, then the right
/// one, and give what [`apply_binary`] says.
pub open spec fn eval_binary(
    env: EnvModel,
    op: Operator,
    l: CoreExpr,
    r: CoreExpr,
    limits: Limits,
) -> Outcome<ValueModel>
    decreases limits.depth, CoreExpr::Binary(op, Box::new(l), Box::new(r)), 0nat,
{
    proof {
        let e = CoreExpr::Binary(op, Box::new(l), Box::new(r));
        assert(decreases_to!(e => e->Binary_1));
        assert(decreases_to!(e => e->Binary_2));
    }
    if !is_binary(op) {
        (env, Err(RuntimeErrorModel::UnaryAsBinary(op)))
    } else {
        let (env1, left) = eval_expr(env, l, limits);
        match left {
            Ok(lv) => if is_logical(op) && !(lv is Bool) {
                (env1, Err(RuntimeErrorModel::ExpectedBool(lv)))
            } else if is_logical(op) && lv == ValueModel::Bool(op == Operator::LogicOr) {
                (env1, Ok(lv))
            } else {
                let (env2, right) = eval_expr(env1, r, limits);
                match right {
                    Ok(rv) => (env2, apply_binary(op, lv, rv)),
                    Err(e) => (env2, Err(e)),
                }
            },
            Err(e) => (env1, Err(e)),
        }
    }
}

/// The value of a unary expression.
///
/// An operator that takes no single operand fails before anything is
/// evaluated. An increment or decrement needs a variable as its operand,
/// and does what [`step_variable`] says. `-` and `!` evaluate the operand
/// and give what [`apply_unary`] says.
pub open spec fn eval_unary(env: EnvModel, op: Operator, operand: CoreExpr, limits: Limits) -> Outcome<
    ValueModel,
>
    decreases limits.depth, CoreExpr::Unary(op, Box::new(operand)), 0nat,
{
    proof {
        let e = CoreExpr::Unary(op, Box::new(operand));
        assert(decreases_to!(e => e->Unary_1));
    }
    if !is_unary(op) {
        (env, Err(RuntimeErrorModel::BinaryAsUnary(op)))
    } else if is_step(op) {
        match operand {
            CoreExpr::Var(name) => step_variable(env, op, name),
            _ => (env, Err(RuntimeErrorModel::InvalidAssignmentTarget)),
        }
    } else {
        let (env1, value) = eval_expr(env, operand, limits);
        match value {
            Ok(v) => (env1, apply_unary(op, v)),
            Err(e) => (env1, Err(e)),
        }
    }
}

/// The value of a call.
///
/// The callee is evaluated and must be a lambda with as many parameters as
/// there are arguments. The arguments are evaluated from left to right in
/// the caller's scope. The body runs in a new scope under the scope in which
/// the lambda was made, with the parameters bound to the arguments, and not
/// inside any loop. The call has the value of the body, however the body
/// ended, and evaluation is back in the caller's scope afterwards.
pub open spec fn eval_call(
    env: EnvModel,
    callee: CoreExpr,
    args: Seq<CoreExpr>,
    limits: Limits,
) -> Outcome<ValueModel>
    decreases limits.depth, CoreExpr::Call(Box::new(callee), args), 0nat,
{
    proof {
        let e = CoreExpr::Call(Box::new(callee), args);
        assert(decreases_to!(e => e->Call_0));
        assert(decreases_to!(e => e->Call_1));
    }
    let (env1, function) = eval_expr(env, callee, limits);
    match function {
        Ok(ValueModel::Lambda(params, body, captured)) => if args.len() != params.len() {
            (
                env1,
                Err(
                    RuntimeErrorModel::ArgMismatch(
                        callee_name(callee),
                        args.len(),
                        params.len(),
                    ),
                ),
            )
        } else {
            let (env2, values) = eval_args(env1, args, Seq::empty(), limits);
            match values {
                Ok(vs) => if limits.depth == 0 {
                    (env2, Err(RuntimeErrorModel::CallDepthExceeded))
                } else {
                    let inside = env2.child_scope(captured, bindings(params, vs)).enter(
                        env2.scopes.len(),
                    );
                    let (env3, result) = eval_block(
                        inside,
                        body,
                        false,
                        ValueModel::Void,
                        limits.deeper(),
                    );
                    (
                        env3.enter(env2.current),
                        match result {
                            Ok((v, _)) => Ok(v),
                            Err(e) => Err(e),
                        },
                    )
                },
                Err(e) => (env2, Err(e)),
            }
        },
        Ok(v) => (env1, Err(RuntimeErrorModel::BadArg(v))),
        Err(e) => (env1, Err(e)),
    }
}

/// The values of `args` from left to right, after `done`; the first failure ends it.
pub open spec fn eval_args(
    env: EnvModel,
    args: Seq<CoreExpr>,
    done: Seq<ValueModel>,
    limits: Limits,
) -> Outcome<Seq<ValueModel>>
    decreases limits.depth, args, 0nat,
{
    if args.len() == 0 {
        (env, Ok(done))
    } else {
        let (env1, value) = eval_expr(env, args[0], limits);
        match value {
            Ok(v) => eval_args(env1, args.skip(1), done.push(v), limits),
            Err(e) => (env1, Err(e)),
        }
    }
}

/// The effect of a statement: its value, and how it ended.
///
/// `let` binds the name in the current scope, whatever other scopes hold.
/// An assignment changes the nearest binding of the name that can be seen,
/// and fails with `UnknownVariable` where there is none. The condition of
/// an `if` must be a boolean, and exactly one branch runs, or none where
/// the condition is `false` and there is no `else`. A block opens no scope.
pub open spec fn eval_stmt(env: EnvModel, s: CoreStatement, in_loop: bool, limits: Limits) -> Outcome<
    (ValueModel, ControlFlow),
>
    decreases limits.depth, s, limits.iterations + 1,
{
    match s {
        CoreStatement::Expr(e) => {
            let (env1, value) = eval_expr(env, e, limits);
            match value {
                Ok(v) => (env1, Ok((v, ControlFlow::Normal))),
                Err(e) => (env1, Err(e)),
            }
        },
        CoreStatement::Let(name, e) => {
            let (env1, value) = eval_expr(env, e, limits);
            match value {
                Ok(v) => (env1.bind(name, v), Ok((ValueModel::Void, ControlFlow::Normal))),
                Err(e) => (env1, Err(e)),
            }
        },
        CoreStatement::Assign(name, e) => {
            let (env1, value) = eval_expr(env, e, limits);
            match value {
                Ok(v) => match env1.assign(name, v) {
                    Some(env2) => (env2, Ok((ValueModel::Void, ControlFlow::Normal))),
                    None => (env1, Err(RuntimeErrorModel::UnknownVariable(name))),
                },
                Err(e) => (env1, Err(e)),
            }
        },
        CoreStatement::If(cond, then_branch, else_branch) => {
            let (env1, value) = eval_expr(env, cond, limits);
            match value {
                Ok(ValueModel::Bool(true)) => eval_stmt(env1, *then_branch, in_loop, limits),
                Ok(ValueModel::Bool(false)) => match else_branch {
                    Some(other) => eval_stmt(env1, *other, in_loop, limits),
                    None => (env1, Ok((ValueModel::Void, ControlFlow::Normal))),
                },
                Ok(v) => (env1, Err(RuntimeErrorModel::BadArg(v))),
                Err(e) => (env1, Err(e)),
            }
        },
        CoreStatement::While(cond, body) => eval_while(
            env,
            cond,
            *body,
            limits,
            limits.iterations as nat,
        ),
        CoreStatement::Block(stmts) => eval_block(env, stmts, in_loop, ValueModel::Void, limits),
        CoreStatement::Return(None) => (env, Ok((ValueModel::Void, ControlFlow::Return))),
        CoreStatement::Return(Some(e)) => {
            let (env1, value) = eval_expr(env, e, limits);
            match value {
                Ok(v) => (env1, Ok((v, ControlFlow::Return))),
                Err(e) => (env1, Err(e)),
            }
        },
        CoreStatement::Break => (env, Ok((ValueModel::Void, ControlFlow::Break))),
        CoreStatement::Continue => (env, Ok((ValueModel::Void, ControlFlow::Continue))),
    }
}

/// The effect of statements in a row, where the value so far is `last`.
///
/// The value is that of the last statement that ran. A `return` ends the
/// row, and so does a `break` or a `continue`, which are failures outside a loop.
pub open spec fn eval_block(
    env: EnvModel,
    stmts: Seq<CoreStatement>,
    in_loop: bool,
    last: ValueModel,
    limits: Limits,
) -> Outcome<(ValueModel, ControlFlow)>
    decreases limits.depth, stmts, 0nat,
{
    if stmts.len() == 0 {
        (env, Ok((last, ControlFlow::Normal)))
    } else {
        let (env1, result) = eval_stmt(env, stmts[0], in_loop, limits);
        match result {
            Ok((v, ControlFlow::Normal)) => eval_block(env1, stmts.skip(1), in_loop, v, limits),
            Ok((v, ControlFlow::Return)) => (env1, Ok((v, ControlFlow::Return))),
            Ok((v, ControlFlow::Break)) => if in_loop {
                (env1, Ok((v, ControlFlow::Break)))
            } else {
                (env1, Err(RuntimeErrorModel::BreakNotInLoop))
            },
            Ok((v, ControlFlow::Continue)) => if in_loop {
                (env1, Ok((v, ControlFlow::Continue)))
            } else {
                (env1, Err(RuntimeErrorModel::ContinueNotInLoop))
            },
            Err(e) => (env1, Err(e)),
        }
    }
}

/// The effect of a `while` loop that may run its body `left` more times.
///
/// The condition must be a boolean. While it is `true` the body runs, inside
/// a loop. A `return` in the body ends the loop with its value; a `break`
/// ends the loop, which then ended normally and has no value; after a
/// `continue`, or the end of the body, the condition is evaluated again.
pub open spec fn eval_while(
    env: EnvModel,
    cond: CoreExpr,
    body: CoreStatement,
    limits: Limits,
    left: nat,
) -> Outcome<(ValueModel, ControlFlow)>
    decreases limits.depth, CoreStatement::While(cond, Box::new(body)), left,
{
    proof {
        let s = CoreStatement::While(cond, Box::new(body));
        assert(decreases_to!(s => s->While_0));
        assert(decreases_to!(s => s->While_1));
    }
    let (env1, value) = eval_expr(env, cond, limits);
    match value {
        Ok(ValueModel::Bool(true)) => if left == 0 {
            (env1, Err(RuntimeErrorModel::IterationLimitExceeded))
        } else {
            let (env2, result) = eval_stmt(env1, body, true, limits);
            match result {
                Ok((v, ControlFlow::Return)) => (env2, Ok((v, ControlFlow::Return))),
                Ok((_, ControlFlow::Break)) => (env2, Ok((ValueModel::Void, ControlFlow::Normal))),
                Ok(_) => eval_while(env2, cond, body, limits, (left - 1) as nat),
                Err(e) => (env2, Err(e)),
            }
        },
        Ok(ValueModel::Bool(false)) => (env1, Ok((ValueModel::Void, ControlFlow::Normal))),
        Ok(v) => (env1, Err(RuntimeErrorModel::BadArg(v))),
        Err(e) => (env1, Err(e)),
    }
}

/// The environment in which a program starts: an empty scope, in which the
/// procedures are made, and under it the scope of `main`, in which they are bound.
pub open spec fn program_start(procedures: Seq<CoreProcedure>) -> EnvModel
    decreases procedures.len(),
{
    if procedures.len() == 0 {
        EnvModel::initial().child_scope(0, Map::empty()).enter(1)
    } else {
        let p = procedures.last();
        program_start(procedures.drop_last()).bind(p.name, ValueModel::Lambda(p.params, p.body, 0))
    }
}

/// What running a program prints and gives.
///
/// `main` runs in a scope of its own in which every other procedure is
/// bound to a lambda made in an empty scope: a procedure sees its parameters
/// and nothing else. `main` itself is not bound.
pub open spec fn run(p: CoreProgram, limits: Limits) -> (Seq<char>, Result<
    ValueModel,
    RuntimeErrorModel,
>) {
    let (env, result) = eval_block(
        program_start(p.procedures),
        p.main,
        false,
        ValueModel::Void,
        limits,
    );
    (
        env.output,
        match result {
            Ok((v, _)) => Ok(v),
            Err(e) => Err(e),
        },
    )
}

/// Whether `after` can come of `before` by evaluation: it is well formed,
/// evaluation takes place in the same scope, no scope is gone, and what
/// was printed is still there, at the start of the output.
pub open spec fn follows(before: EnvModel, after: EnvModel) -> bool {
    &&& after.wf()
    &&& after.current == before.current
    &&& after.scopes.len() >= before.scopes.len()
    &&& before.output.is_prefix_of(after.output)
}

/// What follows what follows an environment follows that environment.
pub proof fn lemma_follows_is_transitive(a: EnvModel, b: EnvModel, c: EnvModel)
    requires
        follows(a, b),
        follows(b, c),
    ensures
        follows(a, c),
{
    assert(a.output =~= c.output.subrange(0, a.output.len() as int)) by {
        assert(a.output =~= b.output.subrange(0, a.output.len() as int));
        assert(b.output =~= c.output.subrange(0, b.output.len() as int));
    }
}

/// Evaluation of an expression keeps a well-formed environment well
/// formed, ends in the scope in which it began, and only adds: scopes to the
/// scopes, and text to the end of the output.
pub proof fn lemma_expr_follows(env: EnvModel, e: CoreExpr, limits: Limits)
    requires
        env.wf(),
    ensures
        follows(env, eval_expr(env, e, limits).0),
    decreases limits.depth, e, 1nat,
{
    match e {
        CoreExpr::Binary(op, l, r) => lemma_binary_follows(env, op, *l, *r, limits),
        CoreExpr::Unary(op, operand) => lemma_unary_follows(env, op, *operand, limits),
        CoreExpr::Call(callee, args) => lemma_call_follows(env, *callee, args, limits),
        CoreExpr::PrimitiveCall(_, args) => {
            lemma_args_follow(env, args, Seq::empty(), limits);
            let (after, values) = eval_args(env, args, Seq::empty(), limits);
            match values {
                Ok(vs) => {
                    let printed = after.print(joined(vs, " "@));
                    assert(after.output =~= printed.output.subrange(0, after.output.len() as int));
                    lemma_follows_is_transitive(env, after, printed);
                },
                Err(_) => {},
            }
        },
        _ => {
            assert(env.output =~= env.output.subrange(0, env.output.len() as int));
        },
    }
}

/// Evaluation of a binary expression only adds to the environment.
pub proof fn lemma_binary_follows(
    env: EnvModel,
    op: Operator,
    l: CoreExpr,
    r: CoreExpr,
    limits: Limits,
)
    requires
        env.wf(),
    ensures
        follows(env, eval_binary(env, op, l, r, limits).0),
    decreases limits.depth, CoreExpr::Binary(op, Box::new(l), Box::new(r)), 0nat,
{
    let e = CoreExpr::Binary(op, Box::new(l), Box::new(r));
    assert(decreases_to!(e => e->Binary_1));
    assert(decreases_to!(e => e->Binary_2));
    assert(env.output =~= env.output.subrange(0, env.output.len() as int));
    if is_binary(op) {
        lemma_expr_follows(env, l, limits);
        let (env1, left) = eval_expr(env, l, limits);
        if left is Ok {
            lemma_expr_follows(env1, r, limits);
            lemma_follows_is_transitive(env, env1, eval_expr(env1, r, limits).0);
        }
    }
}

/// Evaluation of a unary expression only adds to the environment.
pub proof fn lemma_unary_follows(env: EnvModel, op: Operator, operand: CoreExpr, limits: Limits)
    requires
        env.wf(),
    ensures
        follows(env, eval_unary(env, op, operand, limits).0),
    decreases limits.depth, CoreExpr::Unary(op, Box::new(operand)), 0nat,
{
    let e = CoreExpr::Unary(op, Box::new(operand));
    assert(decreases_to!(e => e->Unary_1));
    assert(env.output =~= env.output.subrange(0, env.output.len() as int));
    if is_unary(op) {
        if is_step(op) {
            match operand {
                CoreExpr::Var(name) => match env.lookup(name) {
                    Some(ValueModel::Num(n)) => match stepped(op, n) {
                        Some(m) => lemma_bind_and_assign_keep_shape(env, name, ValueModel::Num(m)),
                        None => {},
                    },
                    _ => {},
                },
                _ => {},
            }
        } else {
            lemma_expr_follows(env, operand, limits);
        }
    }
}

/// Evaluation of a call only adds to the environment, and is back in the
/// scope of the caller when it ends, however it ends.
pub proof fn lemma_call_follows(
    env: EnvModel,
    callee: CoreExpr,
    args: Seq<CoreExpr>,
    limits: Limits,
)
    requires
        env.wf(),
    ensures
        follows(env, eval_call(env, callee, args, limits).0),
    decreases limits.depth, CoreExpr::Call(Box::new(callee), args), 0nat,
{
    let e = CoreExpr::Call(Box::new(callee), args);
    assert(decreases_to!(e => e->Call_0));
    assert(decreases_to!(e => e->Call_1));
    lemma_expr_follows(env, callee, limits);
    let (env1, function) = eval_expr(env, callee, limits);
    match function {
        Ok(ValueModel::Lambda(params, body, captured)) => if args.len() == params.len() {
            lemma_args_follow(env1, args, Seq::empty(), limits);
            let (env2, values) = eval_args(env1, args, Seq::empty(), limits);
            lemma_follows_is_transitive(env, env1, env2);
            match values {
                Ok(vs) => if limits.depth != 0 {
                    let inside = env2.child_scope(captured, bindings(params, vs)).enter(
                        env2.scopes.len(),
                    );
                    assert(inside.wf());
                    lemma_block_follows(inside, body, false, ValueModel::Void, limits.deeper());
                    let env3 = eval_block(
                        inside,
                        body,
                        false,
                        ValueModel::Void,
                        limits.deeper(),
                    ).0;
                    let back = env3.enter(env2.current);
                    assert(env2.output =~= back.output.subrange(0, env2.output.len() as int)) by {
                        assert(inside.output =~= env3.output.subrange(
                            0,
                            inside.output.len() as int,
                        ));
                    }
                    assert(follows(env2, back));
                    lemma_follows_is_transitive(env, env2, back);
                },
                Err(_) => {},
            }
        },
        _ => {},
    }
}

/// Evaluation of arguments only adds to the environment.
pub proof fn lemma_args_follow(
    env: EnvModel,
    args: Seq<CoreExpr>,
    done: Seq<ValueModel>,
    limits: Limits,
)
    requires
        env.wf(),
    ensures
        follows(env, eval_args(env, args, done, limits).0),
    decreases limits.depth, args, 0nat,
{
    assert(env.output =~= env.output.subrange(0, env.output.len() as int));
    if args.len() != 0 {
        lemma_expr_follows(env, args[0], limits);
        let (env1, value) = eval_expr(env, args[0], limits);
        match value {
            Ok(v) => {
                lemma_args_follow(env1, args.skip(1), done.push(v), limits);
                lemma_follows_is_transitive(
                    env,
                    env1,
                    eval_args(env1, args.skip(1), done.push(v), limits).0,
                );
            },
            Err(_) => {},
        }
    }
}

/// Evaluation of a statement only adds to the environment.
pub proof fn lemma_stmt_follows(env: EnvModel, s: CoreStatement, in_loop: bool, limits: Limits)
    requires
        env.wf(),
    ensures
        follows(env, eval_stmt(env, s, in_loop, limits).0),
    decreases limits.depth, s, limits.iterations + 1,
{
    assert(env.output =~= env.output.subrange(0, env.output.len() as int));
    match s {
        CoreStatement::Expr(e) => lemma_expr_follows(env, e, limits),
        CoreStatement::Let(name, e) => {
            lemma_expr_follows(env, e, limits);
            let (env1, value) = eval_expr(env, e, limits);
            match value {
                Ok(v) => lemma_bind_and_assign_keep_shape(env1, name, v),
                Err(_) => {},
            }
        },
        CoreStatement::Assign(name, e) => {
            lemma_expr_follows(env, e, limits);
            let (env1, value) = eval_expr(env, e, limits);
            match value {
                Ok(v) => lemma_bind_and_assign_keep_shape(env1, name, v),
                Err(_) => {},
            }
        },
        CoreStatement::If(cond, then_branch, else_branch) => {
            lemma_expr_follows(env, cond, limits);
            let (env1, value) = eval_expr(env, cond, limits);
            match value {
                Ok(ValueModel::Bool(true)) => {
                    lemma_stmt_follows(env1, *then_branch, in_loop, limits);
                    lemma_follows_is_transitive(
                        env,
                        env1,
                        eval_stmt(env1, *then_branch, in_loop, limits).0,
                    );
                },
                Ok(ValueModel::Bool(false)) => match else_branch {
                    Some(other) => {
                        lemma_stmt_follows(env1, *other, in_loop, limits);
                        lemma_follows_is_transitive(
                            env,
                            env1,
                            eval_stmt(env1, *other, in_loop, limits).0,
                        );
                    },
                    None => {},
                },
                _ => {},
            }
        },
        CoreStatement::While(cond, body) => lemma_while_follows(
            env,
            cond,
            *body,
            limits,
            limits.iterations as nat,
        ),
        CoreStatement::Block(stmts) => lemma_block_follows(
            env,
            stmts,
            in_loop,
            ValueModel::Void,
            limits,
        ),
        CoreStatement::Return(Some(e)) => lemma_expr_follows(env, e, limits),
        _ => {},
    }
}

/// Evaluation of statements in a row only adds to the environment.
pub proof fn lemma_block_follows(
    env: EnvModel,
    stmts: Seq<CoreStatement>,
    in_loop: bool,
    last: ValueModel,
    limits: Limits,
)
    requires
        env.wf(),
    ensures
        follows(env, eval_block(env, stmts, in_loop, last, limits).0),
    decreases limits.depth, stmts, 0nat,
{
    assert(env.output =~= env.output.subrange(0, env.output.len() as int));
    if stmts.len() != 0 {
        lemma_stmt_follows(env, stmts[0], in_loop, limits);
        let (env1, result) = eval_stmt(env, stmts[0], in_loop, limits);
        match result {
            Ok((v, ControlFlow::Normal)) => {
                lemma_block_follows(env1, stmts.skip(1), in_loop, v, limits);
                lemma_follows_is_transitive(
                    env,
                    env1,
                    eval_block(env1, stmts.skip(1), in_loop, v, limits).0,
                );
            },
            _ => {},
        }
    }
}

/// Evaluation of a loop only adds to the environment.
pub proof fn lemma_while_follows(
    env: EnvModel,
    cond: CoreExpr,
    body: CoreStatement,
    limits: Limits,
    left: nat,
)
    requires
        env.wf(),
    ensures
        follows(env, eval_while(env, cond, body, limits, left).0),
    decreases limits.depth, CoreStatement::While(cond, Box::new(body)), left,
{
    let s = CoreStatement::While(cond, Box::new(body));
    assert(decreases_to!(s => s->While_0));
    assert(decreases_to!(s => s->While_1));
    lemma_expr_follows(env, cond, limits);
    let (env1, value) = eval_expr(env, cond, limits);
    if value == Ok::<ValueModel, RuntimeErrorModel>(ValueModel::Bool(true)) && left != 0 {
        lemma_stmt_follows(env1, body, true, limits);
        let (env2, result) = eval_stmt(env1, body, true, limits);
        lemma_follows_is_transitive(env, env1, env2);
        match result {
            Ok((_, ControlFlow::Normal)) | Ok((_, ControlFlow::Continue)) => {
                lemma_while_follows(env2, cond, body, limits, (left - 1) as nat);
                lemma_follows_is_transitive(
                    env,
                    env2,
                    eval_while(env2, cond, body, limits, (left - 1) as nat).0,
                );
            },
            _ => {},
        }
    }
}

/// A scope that is added changes nothing in the search from a scope that was there.
pub proof fn lemma_resolve_in_more_scopes(
    scopes: Seq<ScopeModel>,
    added: ScopeModel,
    from: nat,
    name: Seq<char>,
)
    requires
        from < scopes.len(),
    ensures
        resolve_in(scopes.push(added), from, name) == resolve_in(scopes, from, name),
    decreases from,
{
    if !scopes[from as int].vars.contains_key(name) {
        match scopes[from as int].parent {
            Some(p) => if p < from {
                lemma_resolve_in_more_scopes(scopes, added, p, name);
            },
            None => {},
        }
    }
}

/// A lambda that gives the value of a variable gives the value that the
/// variable has, seen from the scope in which the lambda was made, when the
/// lambda is called: not the value it had when the lambda was made, and
/// not what the caller sees under that name.
pub proof fn lemma_closure_reads_when_called(
    env: EnvModel,
    callee: CoreExpr,
    name: Seq<char>,
    made_in: nat,
    limits: Limits,
)
    requires
        env.wf(),
        limits.depth > 0,
        made_in < env.scopes.len(),
        eval_expr(env, callee, limits) == (
            env,
            Ok::<ValueModel, RuntimeErrorModel>(
                ValueModel::Lambda(
                    Seq::empty(),
                    seq![CoreStatement::Return(Some(CoreExpr::Var(name)))],
                    made_in,
                ),
            ),
        ),
    ensures
        eval_call(env, callee, Seq::empty(), limits).1 == (match env.enter(made_in).lookup(name) {
            Some(v) => Ok::<ValueModel, RuntimeErrorModel>(v),
            None => Err(RuntimeErrorModel::UnknownVariable(name)),
        }),
{
    let body = seq![CoreStatement::Return(Some(CoreExpr::Var(name)))];
    let vars = bindings(Seq::<Seq<char>>::empty(), Seq::<ValueModel>::empty());
    let inside = env.child_scope(made_in, vars).enter(env.scopes.len());
    let added = inside.scopes[env.scopes.len() as int];
    assert(inside.scopes =~= env.scopes.push(added));
    assert(!added.vars.contains_key(name));
    assert(added.parent == Some(made_in));
    lemma_resolve_in_more_scopes(env.scopes, added, made_in, name);
    assert(inside.resolve(inside.current, name) == env.enter(made_in).resolve(made_in, name));
    lemma_resolve(env, made_in, name);
    assert(inside.lookup(name) == env.enter(made_in).lookup(name));
    assert(eval_expr(inside, CoreExpr::Var(name), limits.deeper()) == (
        inside,
        match inside.lookup(name) {
            Some(v) => Ok::<ValueModel, RuntimeErrorModel>(v),
            None => Err(RuntimeErrorModel::UnknownVariable(name)),
        },
    ));
    assert(body[0] == CoreStatement::Return(Some(CoreExpr::Var(name))));
    assert(eval_stmt(inside, body[0], false, limits.deeper()) == (
        inside,
        match inside.lookup(name) {
            Some(v) => Ok::<(ValueModel, ControlFlow), RuntimeErrorModel>((v, ControlFlow::Return)),
            None => Err(RuntimeErrorModel::UnknownVariable(name)),
        },
    ));
    assert(eval_args(env, Seq::<CoreExpr>::empty(), Seq::empty(), limits) == (
        env,
        Ok::<Seq<ValueModel>, RuntimeErrorModel>(Seq::empty()),
    ));
}

/// Whether the statement ended without a jump that a loop has to take.
pub open spec fn left_no_jump(outcome: Outcome<(ValueModel, ControlFlow)>) -> bool {
    outcome.1 matches Ok((_, flow)) ==> flow == ControlFlow::Normal || flow == ControlFlow::Return
}

/// Whether the statement ended in the way `flow`.
pub open spec fn ended(outcome: Outcome<(ValueModel, ControlFlow)>, flow: ControlFlow) -> bool {
    outcome.1 matches Ok((_, f)) && f == flow
}

/// Whether the statement failed with `e`.
pub open spec fn failed(
    outcome: Outcome<(ValueModel, ControlFlow)>,
    e: RuntimeErrorModel,
) -> bool {
    outcome.1 == Err::<(ValueModel, ControlFlow), RuntimeErrorModel>(e)
}

/// A loop takes every `break` and `continue` of its body: it ends
/// normally or by a `return`, or it fails.
pub proof fn lemma_loop_takes_jumps(
    env: EnvModel,
    cond: CoreExpr,
    body: CoreStatement,
    limits: Limits,
    left: nat,
)
    ensures
        left_no_jump(eval_while(env, cond, body, limits, left)),
    decreases left,
{
    let (env1, value) = eval_expr(env, cond, limits);
    if value == Ok::<ValueModel, RuntimeErrorModel>(ValueModel::Bool(true)) && left > 0 {
        let (env2, result) = eval_stmt(env1, body, true, limits);
        lemma_loop_takes_jumps(env2, cond, body, limits, (left - 1) as nat);
    }
}

/// In a loop, a `break` in the body, however deeply in blocks, ends that
/// loop and nothing more: the loop has ended normally, without a value.
/// A `continue`, like the end of the body, leads to the next test of the condition.
pub proof fn lemma_jump_ends_innermost_loop(
    env: EnvModel,
    cond: CoreExpr,
    body: CoreStatement,
    limits: Limits,
    left: nat,
)
    requires
        left > 0,
        eval_expr(env, cond, limits).1 == Ok::<ValueModel, RuntimeErrorModel>(
            ValueModel::Bool(true),
        ),
    ensures
        ({
            let env1 = eval_expr(env, cond, limits).0;
            let (env2, result) = eval_stmt(env1, body, true, limits);
            &&& ended((env2, result), ControlFlow::Break) ==> eval_while(
                env,
                cond,
                body,
                limits,
                left,
            ) == (
                env2,
                Ok::<(ValueModel, ControlFlow), RuntimeErrorModel>(
                    (ValueModel::Void, ControlFlow::Normal),
                ),
            )
            &&& ended((env2, result), ControlFlow::Continue) ==> eval_while(
                env,
                cond,
                body,
                limits,
                left,
            ) == eval_while(env2, cond, body, limits, (left - 1) as nat)
        }),
{
}

/// A block relays the `break` or `continue` of a statement to the
/// enclosing loop, and does not run the statements after it.
pub proof fn lemma_block_relays_jump(
    env: EnvModel,
    stmts: Seq<CoreStatement>,
    last: ValueModel,
    limits: Limits,
)
    requires
        stmts.len() > 0,
        ended(eval_stmt(env, stmts[0], true, limits), ControlFlow::Break) || ended(
            eval_stmt(env, stmts[0], true, limits),
            ControlFlow::Continue,
        ),
    ensures
        eval_block(env, stmts, true, last, limits) == eval_stmt(env, stmts[0], true, limits),
{
}

/// Where no loop encloses them, statements in a row end normally or by a
/// `return`, or they fail: a `break` fails with `BreakNotInLoop`, a
/// `continue` with `ContinueNotInLoop`. This holds of `main` and of the
/// body of every call.
pub proof fn lemma_no_jump_without_loop(
    env: EnvModel,
    stmts: Seq<CoreStatement>,
    last: ValueModel,
    limits: Limits,
)
    ensures
        left_no_jump(eval_block(env, stmts, false, last, limits)),
        stmts.len() > 0 && ended(eval_stmt(env, stmts[0], false, limits), ControlFlow::Break)
            ==> failed(
            eval_block(env, stmts, false, last, limits),
            RuntimeErrorModel::BreakNotInLoop,
        ),
        stmts.len() > 0 && ended(eval_stmt(env, stmts[0], false, limits), ControlFlow::Continue)
            ==> failed(
            eval_block(env, stmts, false, last, limits),
            RuntimeErrorModel::ContinueNotInLoop,
        ),
    decreases stmts.len(),
{
    if stmts.len() > 0 {
        let (env1, result) = eval_stmt(env, stmts[0], false, limits);
        match result {
            Ok((v, ControlFlow::Normal)) => {
                lemma_no_jump_without_loop(env1, stmts.skip(1), v, limits);
            },
            _ => {},
        }
    }
}

/// A block of two statements, where more statements follow, does what
/// its two statements do where they stand in the row themselves.
pub proof fn lemma_block_of_two(
    env: EnvModel,
    first: CoreStatement,
    second: CoreStatement,
    rest: Seq<CoreStatement>,
    in_loop: bool,
    last: ValueModel,
    limits: Limits,
)
    ensures
        eval_block(
            env,
            seq![CoreStatement::Block(seq![first, second])] + rest,
            in_loop,
            last,
            limits,
        ) == eval_block(env, seq![first, second] + rest, in_loop, last, limits),
{
    reveal_with_fuel(eval_block, 4);
    let nested = seq![CoreStatement::Block(seq![first, second])] + rest;
    let flat = seq![first, second] + rest;
    let pair = seq![first, second];
    assert(nested.skip(1) =~= rest);
    assert(flat.skip(1) =~= seq![second] + rest);
    assert(flat.skip(1).skip(1) =~= rest);
    assert(pair.skip(1) =~= seq![second]);
    assert(pair.skip(1).skip(1) =~= Seq::<CoreStatement>::empty());
    assert(nested[0] == CoreStatement::Block(pair));
    assert(flat[0] == first);
    assert(flat.skip(1)[0] == second);
    assert(pair.skip(1)[0] == second);
    let (env1, result1) = eval_stmt(env, first, in_loop, limits);
    match result1 {
        Ok((v1, ControlFlow::Normal)) => {
            // the block has run its first statement, and so has the row
            let (env2, result2) = eval_stmt(env1, second, in_loop, limits);
            assert(eval_block(env1, pair.skip(1), in_loop, v1, limits) == (match result2 {
                Ok((v2, ControlFlow::Normal)) => eval_block(
                    env2,
                    pair.skip(1).skip(1),
                    in_loop,
                    v2,
                    limits,
                ),
                Ok((v, ControlFlow::Return)) => (env2, Ok((v, ControlFlow::Return))),
                Ok((v, ControlFlow::Break)) => if in_loop {
                    (env2, Ok((v, ControlFlow::Break)))
                } else {
                    (env2, Err(RuntimeErrorModel::BreakNotInLoop))
                },
                Ok((v, ControlFlow::Continue)) => if in_loop {
                    (env2, Ok((v, ControlFlow::Continue)))
                } else {
                    (env2, Err(RuntimeErrorModel::ContinueNotInLoop))
                },
                Err(e) => (env2, Err(e)),
            }));
        },
        _ => {},
    }
}

/// A `for` loop does what its first clause does, followed by a `while`
/// loop with the same condition whose body is the body of the `for` loop
/// and then its step: both leave the same bindings and the same output, and
/// whatever follows them runs alike.
pub proof fn lemma_for_is_while(
    env: EnvModel,
    init: SurfaceStatement,
    cond: SurfaceExpr,
    step: SurfaceStatement,
    body: Seq<SurfaceStatement>,
    rest: Seq<CoreStatement>,
    in_loop: bool,
    last: ValueModel,
    limits: Limits,
)
    ensures
        eval_block(
            env,
            seq![
                desugar_stmt(
                    SurfaceStatement::For(Box::new(init), cond, Box::new(step), body),
                ),
            ] + rest,
            in_loop,
            last,
            limits,
        ) == eval_block(
            env,
            desugar_stmts(
                seq![
                    init,
                    SurfaceStatement::While(
                        cond,
                        Box::new(SurfaceStatement::Block(body.push(step))),
                    ),
                ],
            ) + rest,
            in_loop,
            last,
            limits,
        ),
{
    let written = seq![
        init,
        SurfaceStatement::While(cond, Box::new(SurfaceStatement::Block(body.push(step)))),
    ];
    let first = desugar_stmt(init);
    let second = CoreStatement::While(
        desugar_expr(cond),
        Box::new(CoreStatement::Block(desugar_stmts(body).push(desugar_stmt(step)))),
    );
    assert(desugar_stmts(body.push(step)) =~= desugar_stmts(body).push(desugar_stmt(step)));
    assert(desugar_stmt(SurfaceStatement::Block(body.push(step))) == CoreStatement::Block(
        desugar_stmts(body.push(step)),
    ));
    assert(desugar_stmt(written[1]) == second);
    assert(desugar_stmts(written) =~= seq![first, second]);
    lemma_block_of_two(env, first, second, rest, in_loop, last, limits);
}

/// What an `if` with `else if` clauses does, told of the statement as it is
/// written: the conditions are evaluated in order, each must be a boolean,
/// the block of the first that is `true` runs and no other, and where none
/// is `true` the `else` block runs if there is one.
pub open spec fn first_true(
    env: EnvModel,
    clauses: Seq<(SurfaceExpr, SurfaceStatement)>,
    otherwise: Option<Box<SurfaceStatement>>,
    in_loop: bool,
    limits: Limits,
) -> Outcome<(ValueModel, ControlFlow)>
    decreases clauses.len(),
{
    if clauses.len() == 0 {
        match otherwise {
            Some(s) => eval_stmt(env, desugar_stmt(*s), in_loop, limits),
            None => (env, Ok((ValueModel::Void, ControlFlow::Normal))),
        }
    } else {
        let (env1, value) = eval_expr(env, desugar_expr(clauses[0].0), limits);
        match value {
            Ok(ValueModel::Bool(true)) => eval_stmt(
                env1,
                desugar_stmt(clauses[0].1),
                in_loop,
                limits,
            ),
            Ok(ValueModel::Bool(false)) => first_true(
                env1,
                clauses.skip(1),
                otherwise,
                in_loop,
                limits,
            ),
            Ok(v) => (env1, Err(RuntimeErrorModel::BadArg(v))),
            Err(e) => (env1, Err(e)),
        }
    }
}

/// The alternative that `else if` clauses and an `else` block fold into
/// does what [`first_true`] says of them.
pub proof fn lemma_folded_else_ifs(
    env: EnvModel,
    clauses: Seq<(SurfaceExpr, SurfaceStatement)>,
    otherwise: Option<Box<SurfaceStatement>>,
    in_loop: bool,
    limits: Limits,
)
    ensures
        first_true(env, clauses, otherwise, in_loop, limits) == (match crate::desugar::fold_else_ifs(
            clauses,
            match otherwise {
                Some(b) => Some(desugar_stmt(*b)),
                None => None,
            },
        ) {
            Some(s) => eval_stmt(env, s, in_loop, limits),
            None => (env, Ok((ValueModel::Void, ControlFlow::Normal))),
        }),
    decreases clauses.len(),
{
    if clauses.len() > 0 {
        let (env1, value) = eval_expr(env, desugar_expr(clauses[0].0), limits);
        lemma_folded_else_ifs(env1, clauses.skip(1), otherwise, in_loop, limits);
    }
}

/// An `if` with any number of `else if` clauses runs exactly one of its
/// blocks, that of the first condition that is `true`, and the `else`
/// block only where every condition is `false`.
pub proof fn lemma_if_runs_first_true(
    env: EnvModel,
    cond: SurfaceExpr,
    then_block: SurfaceStatement,
    clauses: Seq<(SurfaceExpr, SurfaceStatement)>,
    otherwise: Option<Box<SurfaceStatement>>,
    in_loop: bool,
    limits: Limits,
)
    ensures
        eval_stmt(
            env,
            desugar_stmt(SurfaceStatement::If(cond, Box::new(then_block), clauses, otherwise)),
            in_loop,
            limits,
        ) == first_true(env, seq![(cond, then_block)] + clauses, otherwise, in_loop, limits),
{
    let all = seq![(cond, then_block)] + clauses;
    assert(all.skip(1) =~= clauses);
    let (env1, value) = eval_expr(env, desugar_expr(cond), limits);
    lemma_folded_else_ifs(env1, clauses, otherwise, in_loop, limits);
}

} // verus!
