//! Values, and the evaluator of the core language.

use vstd::prelude::*;
use vstd::string::StringExecFns;
use crate::desugar::{
    copy_statements, lemma_core_expr_view, lemma_core_statement_view, CoreStatement, Expr,
    Statement,
};
use crate::environment::Environment;
use crate::error::{LingerError, RuntimeError, RuntimeErrorModel};
use crate::lists::{copy_strings, group_views, views};
use crate::parser::{Builtin, Program};
use crate::semantics;
use crate::text::{number_text, string_less};
use crate::tokenizer::Operator;

verus! {

/// What an expression evaluates to.
#[derive(Debug, PartialEq)]
pub enum Value {
    Num(i64),
    Bool(bool),
    Str(String),
    /// Parameters, body, and the scope in which the lambda was made.
    Lambda(Vec<String>, Vec<Statement>, usize),
    /// What a statement gives that computes no value.
    Void,
}

/// Mathematical value of a [`Value`].
pub ghost enum ValueModel {
    Num(i64),
    Bool(bool),
    Str(Seq<char>),
    Lambda(Seq<Seq<char>>, Seq<CoreStatement>, nat),
    Void,
}

impl View for Value {
    type V = ValueModel;

    open spec fn view(&self) -> ValueModel {
        match self {
            Value::Num(n) => ValueModel::Num(*n),
            Value::Bool(b) => ValueModel::Bool(*b),
            Value::Str(s) => ValueModel::Str(s@),
            Value::Lambda(params, body, scope) => ValueModel::Lambda(
                views(params@),
                views(body@),
                *scope as nat,
            ),
            Value::Void => ValueModel::Void,
        }
    }
}

impl Value {
    /// A copy with the same view.
    pub fn duplicate(&self) -> (r: Value)
        ensures
            r@ == self@,
    {
        match self {
            Value::Num(n) => Value::Num(*n),
            Value::Bool(b) => Value::Bool(*b),
            Value::Str(s) => Value::Str(s.clone()),
            Value::Lambda(params, body, scope) => Value::Lambda(
                copy_strings(params),
                copy_statements(body),
                *scope,
            ),
            Value::Void => Value::Void,
        }
    }
}

/// How a statement ended: by running to its end, or by a jump.
#[derive(Clone, Copy, PartialEq, Eq, PartialOrd, Ord, Hash, Debug, Structural)]
pub enum ControlFlow {
    Return,
    Normal,
    Break,
    Continue,
}


/// Bounds on a run, which make every run end.
#[derive(Clone, Copy, Debug, PartialEq, Eq, Structural)]
pub struct Limits {
    /// How deeply calls may be nested.
    pub depth: usize,
    /// How often a loop may run its body each time it is entered.
    pub iterations: u64,
}

impl Limits {
    /// The limits inside a call: one level less is left, if any is.
    pub open spec fn deeper(self) -> Limits {
        Limits {
            depth: if self.depth > 0 {
                (self.depth - 1) as usize
            } else {
                0
            },
            iterations: self.iterations,
        }
    }

    /// The limits inside a call: one level less is left, if any is.
    pub fn inside_call(self) -> (r: Limits)
        ensures
            r == self.deeper(),
    {
        Limits {
            depth: if self.depth > 0 {
                self.depth - 1
            } else {
                0
            },
            iterations: self.iterations,
        }
    }
}

/// The text that `print` writes for a value: the numeral of a number,
/// `true` or `false`, the characters of a string, and a fixed word for a
/// lambda and for the absence of a value.
pub fn display_value(v: &Value) -> (r: String)
    ensures
        r@ == semantics::display(v@),
{
    match v {
        Value::Num(n) => number_text(*n),
        Value::Bool(b) => if *b {
            String::from_str("true")
        } else {
            String::from_str("false")
        },
        Value::Str(s) => s.clone(),
        Value::Lambda(_, _, _) => String::from_str("<lambda>"),
        Value::Void => String::from_str("<void>"),
    }
}

/// The texts of the values with `separator` between neighbours.
#[verifier::loop_isolation(false)]
pub fn join_values(values: &Vec<Value>, separator: &str) -> (r: String)
    ensures
        r@ == semantics::joined(views(values@), separator@),
{
    broadcast use group_views;

    let ghost all = views(values@);
    let mut out = String::new();
    let mut i: usize = 0;
    while i < values.len()
        invariant
            i <= values.len(),
            out@ == semantics::joined(all.take(i as int), separator@),
        decreases values.len() - i,
    {
        if i > 0 {
            out.append(separator);
        }
        let text = display_value(&values[i]);
        out.append(text.as_str());
        proof {
            assert(all.take(i + 1).drop_last() =~= all.take(i as int));
            assert(all.take(i + 1).last() == values[i as int]@);
            if i == 0 {
                assert(out@ =~= semantics::display(values[i as int]@));
            }
        }
        i += 1;
    }
    assert(all.take(i as int) =~= all);
    out
}

/// The result of an arithmetic operator on numbers, where it is a number of the language.
pub fn arithmetic(op: Operator, a: i64, b: i64) -> (r: Option<i64>)
    ensures
        r == semantics::arithmetic(op, a, b),
{
    match op {
        Operator::Plus => a.checked_add(b),
        Operator::Minus => a.checked_sub(b),
        Operator::Times => a.checked_mul(b),
        Operator::Div => {
            let r = a.checked_div(b);
            assert(r == semantics::arithmetic(op, a, b));
            r
        },
        Operator::Mod => {
            let r = a.checked_rem(b);
            assert(r == semantics::arithmetic(op, a, b));
            r
        },
        _ => None,
    }
}

/// What a comparison gives for operands of which the left is less than the
/// right (`less`), or equal to it (`equal`), or neither.
pub fn compares(op: Operator, less: bool, equal: bool) -> (r: bool)
    ensures
        r == semantics::compares(op, less, equal),
{
    match op {
        Operator::Eq => equal,
        Operator::Ne => !equal,
        Operator::LT => less,
        Operator::GT => !less && !equal,
        Operator::LTE => less || equal,
        Operator::GTE => !less,
        _ => false,
    }
}

/// The view of a result of the evaluator, whose failures are failures of the evaluator.
pub open spec fn value_view(r: Result<Value, LingerError>) -> Result<
    ValueModel,
    RuntimeErrorModel,
> {
    match r {
        Ok(v) => Ok(v@),
        Err(e) => Err(e->RuntimeError_0@),
    }
}

/// Whether a result of the evaluator is a value or a failure of the evaluator.
pub open spec fn is_runtime<T>(r: Result<T, LingerError>) -> bool {
    r matches Err(e) ==> e is RuntimeError
}

/// The view of a result of the evaluator that carries several values.
pub open spec fn values_view(r: Result<Vec<Value>, LingerError>) -> Result<
    Seq<ValueModel>,
    RuntimeErrorModel,
> {
    match r {
        Ok(vs) => Ok(views(vs@)),
        Err(e) => Err(e->RuntimeError_0@),
    }
}

/// The view of the result of a statement.
pub open spec fn effect_view(r: Result<(Value, ControlFlow), LingerError>) -> Result<
    (ValueModel, ControlFlow),
    RuntimeErrorModel,
> {
    match r {
        Ok((v, flow)) => Ok((v@, flow)),
        Err(e) => Err(e->RuntimeError_0@),
    }
}

/// The failure for an operand that does not fit its operator.
fn bad_arg<T>(v: Value) -> (r: Result<T, LingerError>)
    ensures
        r == Err::<T, LingerError>(LingerError::RuntimeError(RuntimeError::BadArg(v))),
{
    Err(LingerError::RuntimeError(RuntimeError::BadArg(v)))
}

/// The failure for a value that stands where a boolean is needed.
fn not_bool<T>(v: Value) -> (r: Result<T, LingerError>)
    ensures
        r == Err::<T, LingerError>(LingerError::RuntimeError(RuntimeError::ExpectedBool(v))),
{
    Err(LingerError::RuntimeError(RuntimeError::ExpectedBool(v)))
}

/// The failure for a pair of operands that do not fit each other: the
/// right one is reported where the left one is a number, the left one otherwise.
fn bad_pair(l: Value, r: Value) -> (e: Result<Value, LingerError>)
    ensures
        is_runtime(e),
        value_view(e) == Err::<ValueModel, RuntimeErrorModel>(
            RuntimeErrorModel::BadArg(semantics::blame(l@, r@)),
        ),
{
    match l {
        Value::Num(_) => bad_arg(r),
        _ => bad_arg(l),
    }
}

/// Applies an arithmetic operator, a comparison or a logical operator to two values.
pub fn apply_binary(op: Operator, l: Value, r: Value) -> (v: Result<Value, LingerError>)
    ensures
        is_runtime(v),
        value_view(v) == semantics::apply_binary(op, l@, r@),
{
    broadcast use group_views;

    match op {
        Operator::Plus | Operator::Minus | Operator::Times | Operator::Div | Operator::Mod => {
            match (l, r) {
                (Value::Num(a), Value::Num(b)) => match arithmetic(op, a, b) {
                    Some(n) => Ok(Value::Num(n)),
                    None => {
                        let pair = vec![Value::Num(a), Value::Num(b)];
                        assert(views(pair@) =~= seq![ValueModel::Num(a), ValueModel::Num(b)]);
                        Err(LingerError::RuntimeError(RuntimeError::BadArgs(pair)))
                    },
                },
                (Value::Str(a), Value::Str(b)) => match op {
                    Operator::Plus => Ok(Value::Str(a.concat(b.as_str()))),
                    _ => bad_arg(Value::Str(a)),
                },
                (l, r) => bad_pair(l, r),
            }
        },
        Operator::Eq
        | Operator::Ne
        | Operator::LT
        | Operator::GT
        | Operator::LTE
        | Operator::GTE => {
            match (l, r) {
                (Value::Num(a), Value::Num(b)) => Ok(Value::Bool(compares(op, a < b, a == b))),
                (Value::Str(a), Value::Str(b)) => Ok(
                    Value::Bool(compares(op, string_less(&a, &b), a == b)),
                ),
                (Value::Bool(a), Value::Bool(b)) => Ok(
                    Value::Bool(compares(op, !a && b, a == b)),
                ),
                (l, r) => bad_pair(l, r),
            }
        },
        Operator::LogicAnd => match (l, r) {
            (Value::Bool(a), Value::Bool(b)) => Ok(Value::Bool(a && b)),
            (Value::Bool(_), r) => not_bool(r),
            (l, _) => not_bool(l),
        },
        Operator::LogicOr => match (l, r) {
            (Value::Bool(a), Value::Bool(b)) => Ok(Value::Bool(a || b)),
            (Value::Bool(_), r) => not_bool(r),
            (l, _) => not_bool(l),
        },
        _ => Err(LingerError::RuntimeError(RuntimeError::UnaryAsBinary(op))),
    }
}

/// Applies `-` or `!` to a value.
pub fn apply_unary(op: Operator, v: Value) -> (r: Result<Value, LingerError>)
    ensures
        is_runtime(r),
        value_view(r) == semantics::apply_unary(op, v@),
{
    match op {
        Operator::Minus => match v {
            Value::Num(n) => if n != i64::MIN {
                Ok(Value::Num(-n))
            } else {
                bad_arg(Value::Num(n))
            },
            v => bad_arg(v),
        },
        Operator::LogicNot => match v {
            Value::Bool(b) => Ok(Value::Bool(!b)),
            v => not_bool(v),
        },
        Operator::PreIncrement
        | Operator::PostIncrement
        | Operator::PreDecrement
        | Operator::PostDecrement => Err(
            LingerError::RuntimeError(RuntimeError::InvalidAssignmentTarget),
        ),
        _ => Err(LingerError::RuntimeError(RuntimeError::BinaryAsUnary(op))),
    }
}

/// The name by which a failed call reports its callee: the variable that
/// was called, or a fixed word for any other expression.
pub fn callee_name(callee: &Expr) -> (r: String)
    ensures
        r@ == semantics::callee_name(callee@),
{
    match callee {
        Expr::Var(name) => name.clone(),
        _ => String::from_str("<lambda>"),
    }
}

/// The number that an increment or decrement puts in place of `n`.
pub fn stepped(op: Operator, n: i64) -> (r: Option<i64>)
    ensures
        r == semantics::stepped(op, n),
{
    match op {
        Operator::PreIncrement | Operator::PostIncrement => if n < i64::MAX {
            Some(n + 1)
        } else {
            None
        },
        Operator::PreDecrement | Operator::PostDecrement => if n > i64::MIN {
            Some(n - 1)
        } else {
            None
        },
        _ => None,
    }
}

/// Increments or decrements the variable `name`, which must hold a
/// number. An operator written before the variable gives the number that
/// the variable held, one written after it the number that it holds then.
pub fn step_variable(env: &mut Environment, op: Operator, name: &String) -> (r: Result<
    Value,
    LingerError,
>)
    requires
        old(env).wf(),
    ensures
        final(env).wf(),
        is_runtime(r),
        (final(env)@, value_view(r)) == semantics::step_variable(old(env)@, op, name@),
        final(env)@.current == old(env)@.current,
        final(env)@.scopes.len() == old(env)@.scopes.len(),
{
    match env.lookup(name) {
        Ok(Value::Num(n)) => match stepped(op, n) {
            Some(m) => match env.assign(name, Value::Num(m)) {
                Ok(()) => match op {
                    Operator::PreIncrement | Operator::PreDecrement => Ok(Value::Num(n)),
                    _ => Ok(Value::Num(m)),
                },
                Err(e) => Err(LingerError::RuntimeError(e)),
            },
            None => bad_arg(Value::Num(n)),
        },
        Ok(v) => bad_arg(v),
        Err(e) => Err(LingerError::RuntimeError(e)),
    }
}

/// Evaluates an expression.
pub fn interp_expression(env: &mut Environment, expr: &Expr, limits: Limits) -> (r: Result<
    Value,
    LingerError,
>)
    requires
        old(env).wf(),
    ensures
        final(env).wf(),
        is_runtime(r),
        (final(env)@, value_view(r)) == semantics::eval_expr(old(env)@, expr@, limits),
        final(env)@.current == old(env)@.current,
        final(env)@.scopes.len() >= old(env)@.scopes.len(),
    decreases limits.depth, expr, 1nat,
{
    proof {
        lemma_core_expr_view(*expr);
    }
    match expr {
        Expr::Num(n) => Ok(Value::Num(*n)),
        Expr::Bool(b) => Ok(Value::Bool(*b)),
        Expr::Str(s) => Ok(Value::Str(s.clone())),
        Expr::Lambda(params, body) => Ok(
            Value::Lambda(copy_strings(params), copy_statements(body), env.current()),
        ),
        Expr::Var(id) => match env.lookup(id) {
            Ok(v) => Ok(v),
            Err(e) => Err(LingerError::RuntimeError(e)),
        },
        Expr::Binary(op, left, right) => interp_binary(env, *op, left, right, limits),
        Expr::Unary(op, operand) => interp_unary(env, *op, operand, limits),
        Expr::Call(f_expr, args) => interp_call(env, f_expr, args, limits),
        Expr::PrimitiveCall(builtin, args) => match builtin {
            Builtin::Print => match interp_args(env, args, limits) {
                Ok(values) => {
                    let text = join_values(&values, " ");
                    env.print(text.as_str());
                    Ok(Value::Void)
                },
                Err(e) => Err(e),
            },
        },
    }
}

/// Evaluates a binary expression.
fn interp_binary(env: &mut Environment, op: Operator, left: &Expr, right: &Expr, limits: Limits) -> (r:
    Result<Value, LingerError>)
    requires
        old(env).wf(),
    ensures
        final(env).wf(),
        is_runtime(r),
        (final(env)@, value_view(r)) == semantics::eval_binary(
            old(env)@,
            op,
            left@,
            right@,
            limits,
        ),
        final(env)@.current == old(env)@.current,
        final(env)@.scopes.len() >= old(env)@.scopes.len(),
    decreases limits.depth, Expr::Binary(op, Box::new(*left), Box::new(*right)), 0nat,
{
    proof {
        let e = Expr::Binary(op, Box::new(*left), Box::new(*right));
        assert(decreases_to!(e => e->Binary_1));
        assert(decreases_to!(e => e->Binary_2));
    }
    match op {
        Operator::LogicNot
        | Operator::PreIncrement
        | Operator::PostIncrement
        | Operator::PreDecrement
        | Operator::PostDecrement => {
            return Err(LingerError::RuntimeError(RuntimeError::UnaryAsBinary(op)));
        },
        _ => {},
    }
    let left_value = match interp_expression(env, left, limits) {
        Ok(v) => v,
        Err(e) => return Err(e),
    };
    match op {
        Operator::LogicAnd | Operator::LogicOr => match left_value {
            Value::Bool(b) => {
                if b == (op == Operator::LogicOr) {
                    return Ok(Value::Bool(b));
                }
            },
            v => return not_bool(v),
        },
        _ => {},
    }
    match interp_expression(env, right, limits) {
        Ok(right_value) => apply_binary(op, left_value, right_value),
        Err(e) => Err(e),
    }
}

/// Evaluates a unary expression.
fn interp_unary(env: &mut Environment, op: Operator, operand: &Expr, limits: Limits) -> (r: Result<
    Value,
    LingerError,
>)
    requires
        old(env).wf(),
    ensures
        final(env).wf(),
        is_runtime(r),
        (final(env)@, value_view(r)) == semantics::eval_unary(old(env)@, op, operand@, limits),
        final(env)@.current == old(env)@.current,
        final(env)@.scopes.len() >= old(env)@.scopes.len(),
    decreases limits.depth, Expr::Unary(op, Box::new(*operand)), 0nat,
{
    proof {
        let e = Expr::Unary(op, Box::new(*operand));
        assert(decreases_to!(e => e->Unary_1));
    }
    match op {
        Operator::PreIncrement
        | Operator::PostIncrement
        | Operator::PreDecrement
        | Operator::PostDecrement => match operand {
            Expr::Var(name) => step_variable(env, op, name),
            _ => Err(LingerError::RuntimeError(RuntimeError::InvalidAssignmentTarget)),
        },
        Operator::Minus | Operator::LogicNot => match interp_expression(env, operand, limits) {
            Ok(v) => apply_unary(op, v),
            Err(e) => Err(e),
        },
        _ => Err(LingerError::RuntimeError(RuntimeError::BinaryAsUnary(op))),
    }
}

/// Evaluates a call.
fn interp_call(env: &mut Environment, f_expr: &Expr, args: &Vec<Expr>, limits: Limits) -> (r:
    Result<Value, LingerError>)
    requires
        old(env).wf(),
    ensures
        final(env).wf(),
        is_runtime(r),
        (final(env)@, value_view(r)) == semantics::eval_call(
            old(env)@,
            f_expr@,
            views(args@),
            limits,
        ),
        final(env)@.current == old(env)@.current,
        final(env)@.scopes.len() >= old(env)@.scopes.len(),
    decreases limits.depth, Expr::Call(Box::new(*f_expr), *args), 0nat,
{
    broadcast use group_views;

    proof {
        let e = Expr::Call(Box::new(*f_expr), *args);
        assert(decreases_to!(e => e->Call_0));
        assert(decreases_to!(e => e->Call_1));
    }
    let (f_params, f_body, f_env) = match interp_expression(env, f_expr, limits) {
        Ok(Value::Lambda(params, body, captured)) => (params, body, captured),
        Ok(v) => return bad_arg(v),
        Err(e) => return Err(e),
    };
    if args.len() != f_params.len() {
        return Err(
            LingerError::RuntimeError(
                RuntimeError::ArgMismatch(callee_name(f_expr), args.len(), f_params.len()),
            ),
        );
    }
    let arg_values = match interp_args(env, args, limits) {
        Ok(values) => values,
        Err(e) => return Err(e),
    };
    if limits.depth == 0 {
        return Err(LingerError::RuntimeError(RuntimeError::CallDepthExceeded));
    }
    let caller = env.current();
    let inside = env.child_scope(f_env, &f_params, arg_values);
    env.enter(inside);
    let result = interp_block(env, &f_body, false, limits.inside_call());
    env.enter(caller);
    match result {
        Ok((value, _)) => Ok(value),
        Err(e) => Err(e),
    }
}

/// Evaluates expressions from left to right; the first failure ends it.
#[verifier::loop_isolation(false)]
fn interp_args(env: &mut Environment, args: &Vec<Expr>, limits: Limits) -> (r: Result<
    Vec<Value>,
    LingerError,
>)
    requires
        old(env).wf(),
    ensures
        final(env).wf(),
        is_runtime(r),
        (final(env)@, values_view(r)) == semantics::eval_args(
            old(env)@,
            views(args@),
            Seq::empty(),
            limits,
        ),
        r matches Ok(values) ==> values.len() == args.len(),
        final(env)@.current == old(env)@.current,
        final(env)@.scopes.len() >= old(env)@.scopes.len(),
    decreases limits.depth, args, 0nat,
{
    broadcast use group_views;

    let ghost exprs = views(args@);
    let ghost expected = semantics::eval_args(env@, exprs, Seq::empty(), limits);
    let mut values: Vec<Value> = Vec::new();
    let mut i: usize = 0;
    assert(exprs.skip(0) =~= exprs);
    while i < args.len()
        invariant
            i <= args.len(),
            values.len() == i,
            env.wf(),
            env@.current == old(env)@.current,
            env@.scopes.len() >= old(env)@.scopes.len(),
            expected == semantics::eval_args(env@, exprs.skip(i as int), views(values@), limits),
        decreases args.len() - i,
    {
        assert(exprs.skip(i as int).skip(1) =~= exprs.skip(i + 1));
        match interp_expression(env, &args[i], limits) {
            Ok(v) => values.push(v),
            Err(e) => return Err(e),
        }
        i += 1;
    }
    Ok(values)
}

/// Evaluates a statement: gives its value and how it ended.
///
/// `in_loop` says whether a loop encloses the statement within the body
/// that is being run, so that a `break` or a `continue` has somewhere to go.
#[verifier::loop_isolation(false)]
pub fn interp_statement(
    env: &mut Environment,
    statement: &Statement,
    in_loop: bool,
    limits: Limits,
) -> (r: Result<(Value, ControlFlow), LingerError>)
    requires
        old(env).wf(),
    ensures
        final(env).wf(),
        is_runtime(r),
        (final(env)@, effect_view(r)) == semantics::eval_stmt(
            old(env)@,
            statement@,
            in_loop,
            limits,
        ),
        final(env)@.current == old(env)@.current,
        final(env)@.scopes.len() >= old(env)@.scopes.len(),
    decreases limits.depth, statement, limits.iterations + 1,
{
    proof {
        lemma_core_statement_view(*statement);
    }
    match statement {
        Statement::Expr(expr) => match interp_expression(env, expr, limits) {
            Ok(value) => Ok((value, ControlFlow::Normal)),
            Err(e) => Err(e),
        },
        Statement::Let(id, new_expr) => match interp_expression(env, new_expr, limits) {
            Ok(new_value) => {
                env.bind(id.clone(), new_value);
                Ok((Value::Void, ControlFlow::Normal))
            },
            Err(e) => Err(e),
        },
        Statement::Assign(id, expr) => match interp_expression(env, expr, limits) {
            Ok(value) => match env.assign(id, value) {
                Ok(()) => Ok((Value::Void, ControlFlow::Normal)),
                Err(e) => Err(LingerError::RuntimeError(e)),
            },
            Err(e) => Err(e),
        },
        Statement::If(cond_expr, then_statement, else_statement_option) => {
            let cond_bool = match interp_expression(env, cond_expr, limits) {
                Ok(Value::Bool(b)) => b,
                Ok(v) => return bad_arg(v),
                Err(e) => return Err(e),
            };
            if cond_bool {
                interp_statement(env, then_statement, in_loop, limits)
            } else {
                match else_statement_option {
                    Some(else_statement) => interp_statement(env, else_statement, in_loop, limits),
                    None => Ok((Value::Void, ControlFlow::Normal)),
                }
            }
        },
        Statement::While(cond_expr, while_block) => {
            let ghost expected = semantics::eval_stmt(env@, statement@, in_loop, limits);
            let mut left: u64 = limits.iterations;
            loop
                invariant
                    env.wf(),
                    env@.current == old(env)@.current,
                    env@.scopes.len() >= old(env)@.scopes.len(),
                    expected == semantics::eval_while(
                        env@,
                        cond_expr@,
                        while_block@,
                        limits,
                        left as nat,
                    ),
                decreases left,
            {
                let cond_bool = match interp_expression(env, cond_expr, limits) {
                    Ok(Value::Bool(b)) => b,
                    Ok(v) => return bad_arg(v),
                    Err(e) => return Err(e),
                };
                if !cond_bool {
                    return Ok((Value::Void, ControlFlow::Normal));
                }
                if left == 0 {
                    return Err(LingerError::RuntimeError(RuntimeError::IterationLimitExceeded));
                }
                match interp_statement(env, while_block, true, limits) {
                    Ok((value, ControlFlow::Return)) => return Ok((value, ControlFlow::Return)),
                    Ok((_, ControlFlow::Break)) => return Ok((Value::Void, ControlFlow::Normal)),
                    Ok((_, ControlFlow::Normal)) => {},
                    Ok((_, ControlFlow::Continue)) => {},
                    Err(e) => return Err(e),
                }
                left -= 1;
            }
        },
        Statement::Return(expr_option) => match expr_option {
            Some(expr) => match interp_expression(env, expr, limits) {
                Ok(value) => Ok((value, ControlFlow::Return)),
                Err(e) => Err(e),
            },
            None => Ok((Value::Void, ControlFlow::Return)),
        },
        Statement::Break => Ok((Value::Void, ControlFlow::Break)),
        Statement::Continue => Ok((Value::Void, ControlFlow::Continue)),
        Statement::Block(statements) => interp_block(env, statements, in_loop, limits),
    }
}

/// Evaluates statements in a row: gives the value of the last one that ran,
/// and how the row ended.
#[verifier::loop_isolation(false)]
pub fn interp_block(
    env: &mut Environment,
    statements: &Vec<Statement>,
    in_loop: bool,
    limits: Limits,
) -> (r: Result<(Value, ControlFlow), LingerError>)
    requires
        old(env).wf(),
    ensures
        final(env).wf(),
        is_runtime(r),
        (final(env)@, effect_view(r)) == semantics::eval_block(
            old(env)@,
            views(statements@),
            in_loop,
            ValueModel::Void,
            limits,
        ),
        final(env)@.current == old(env)@.current,
        final(env)@.scopes.len() >= old(env)@.scopes.len(),
    decreases limits.depth, statements, 0nat,
{
    broadcast use group_views;

    let ghost stmts = views(statements@);
    let ghost expected = semantics::eval_block(env@, stmts, in_loop, ValueModel::Void, limits);
    let mut block_value = Value::Void;
    let mut i: usize = 0;
    assert(stmts.skip(0) =~= stmts);
    while i < statements.len()
        invariant
            i <= statements.len(),
            env.wf(),
            env@.current == old(env)@.current,
            env@.scopes.len() >= old(env)@.scopes.len(),
            expected == semantics::eval_block(
                env@,
                stmts.skip(i as int),
                in_loop,
                block_value@,
                limits,
            ),
        decreases statements.len() - i,
    {
        assert(stmts.skip(i as int).skip(1) =~= stmts.skip(i + 1));
        let statement_value = match interp_statement(env, &statements[i], in_loop, limits) {
            Ok((value, ControlFlow::Normal)) => value,
            Ok((value, ControlFlow::Return)) => return Ok((value, ControlFlow::Return)),
            Ok((value, ControlFlow::Break)) => {
                if in_loop {
                    return Ok((value, ControlFlow::Break));
                } else {
                    return Err(LingerError::RuntimeError(RuntimeError::BreakNotInLoop));
                }
            },
            Ok((value, ControlFlow::Continue)) => {
                if in_loop {
                    return Ok((value, ControlFlow::Continue));
                } else {
                    return Err(LingerError::RuntimeError(RuntimeError::ContinueNotInLoop));
                }
            },
            Err(e) => return Err(e),
        };
        block_value = statement_value;
        i += 1;
    }
    Ok((block_value, ControlFlow::Normal))
}

/// Runs a program: gives the value of `main`, or the failure that ended
/// the run, and what the run printed.
#[verifier::loop_isolation(false)]
pub fn interp_program(p: Program, limits: Limits) -> (r: (Result<Value, LingerError>, String))
    ensures
        is_runtime(r.0),
        (r.1@, value_view(r.0)) == semantics::run(p@, limits),
{
    broadcast use group_views;

    let ghost procedures = views(p.procedures@);
    let mut initial_env = Environment::new();
    let main_scope = initial_env.child_scope(0, &Vec::new(), Vec::new());
    initial_env.enter(main_scope);
    assert(procedures.take(0) =~= Seq::empty());
    let mut i: usize = 0;
    while i < p.procedures.len()
        invariant
            i <= p.procedures.len(),
            initial_env.wf(),
            initial_env@ == semantics::program_start(procedures.take(i as int)),
        decreases p.procedures.len() - i,
    {
        let procedure = &p.procedures[i];
        assert(procedures.take(i + 1).drop_last() =~= procedures.take(i as int));
        assert(procedures.take(i + 1).last() == procedure@);
        initial_env.bind(
            procedure.name.clone(),
            Value::Lambda(copy_strings(&procedure.params), copy_statements(&procedure.body), 0),
        );
        i += 1;
    }
    assert(procedures.take(i as int) =~= procedures);
    let result = match interp_block(&mut initial_env, &p.main, false, limits) {
        Ok((value, _)) => Ok(value),
        Err(e) => Err(e),
    };
    (result, initial_env.output().clone())
}

} // verus!
