//! The grammar of the surface language, as functions on token sequences.
//!
//! Each function reads a prefix of its input and gives what it read together
//! with the tokens that are left, or the error at the first place where the
//! input leaves the grammar. A function that reads a list continues on what
//! an element left over only if the element took at least one token
//! ([`progress`]): the test makes the definitions well-founded. Every element
//! does take a token, so the test discards nothing; the lemmas at the end
//! of the module show it.

use vstd::prelude::*;
use crate::error::ParseErrorModel;
use crate::parser::{Builtin, SurfaceExpr, SurfaceProcedure, SurfaceProgram, SurfaceStatement};
use crate::tokenizer::{Keyword, Operator, TokenModel, TokenValueModel};

verus! {

/// What a grammar function gives: the value read and the tokens left, or an error.
pub type Parsed<T> = Result<(T, Seq<TokenModel>), ParseErrorModel>;

/// The binary operators by how loosely they bind, loosest first.
#[derive(Clone, Copy, Debug, PartialEq, Eq, Structural)]
pub enum Tier {
    Or,
    And,
    Equality,
    Relational,
    Additive,
    Multiplicative,
}

impl Tier {
    /// The operators of this tier.
    pub open spec fn operators(self) -> Seq<Operator> {
        match self {
            Tier::Or => seq![Operator::LogicOr],
            Tier::And => seq![Operator::LogicAnd],
            Tier::Equality => seq![Operator::Eq, Operator::Ne],
            Tier::Relational => seq![Operator::LT, Operator::GT, Operator::LTE, Operator::GTE],
            Tier::Additive => seq![Operator::Plus, Operator::Minus],
            Tier::Multiplicative => seq![Operator::Times, Operator::Mod, Operator::Div],
        }
    }

    /// The next tighter tier, if there is one; beyond the last come the unary expressions.
    pub open spec fn tighter(self) -> Option<Tier> {
        match self {
            Tier::Or => Some(Tier::And),
            Tier::And => Some(Tier::Equality),
            Tier::Equality => Some(Tier::Relational),
            Tier::Relational => Some(Tier::Additive),
            Tier::Additive => Some(Tier::Multiplicative),
            Tier::Multiplicative => None,
        }
    }

    /// How many tiers bind more tightly.
    pub open spec fn height(self) -> nat {
        match self {
            Tier::Or => 5,
            Tier::And => 4,
            Tier::Equality => 3,
            Tier::Relational => 2,
            Tier::Additive => 1,
            Tier::Multiplicative => 0,
        }
    }
}

/// Whether token `i` exists and has the value `v`.
pub open spec fn at(ts: Seq<TokenModel>, i: int, v: TokenValueModel) -> bool {
    0 <= i < ts.len() && ts[i].value == v
}

/// The keyword at position `i`, if a keyword stands there.
pub open spec fn keyword_at(ts: Seq<TokenModel>, i: int) -> Option<Keyword> {
    if 0 <= i < ts.len() {
        match ts[i].value {
            TokenValueModel::KW(k) => Some(k),
            _ => None,
        }
    } else {
        None
    }
}

/// The identifier at position `i`, if an identifier stands there.
pub open spec fn name_at(ts: Seq<TokenModel>, i: int) -> Option<Seq<char>> {
    if 0 <= i < ts.len() {
        match ts[i].value {
            TokenValueModel::ID(s) => Some(s),
            _ => None,
        }
    } else {
        None
    }
}

/// The error for input that cannot go on as it does: its first token, or its end.
pub open spec fn unexpected(ts: Seq<TokenModel>) -> ParseErrorModel {
    if ts.len() == 0 {
        ParseErrorModel::UnexpectedEOF
    } else {
        ParseErrorModel::UnexpectedToken(ts[0])
    }
}

/// Takes the token `target` from the front.
pub open spec fn consume(target: TokenValueModel, ts: Seq<TokenModel>) -> Result<
    Seq<TokenModel>,
    ParseErrorModel,
> {
    if ts.len() == 0 {
        Err(ParseErrorModel::UnexpectedEOF)
    } else if ts[0].value == target {
        Ok(ts.skip(1))
    } else {
        Err(ParseErrorModel::Expected(target, ts[0]))
    }
}

/// Takes a semicolon from the front if `should_consume`, and nothing otherwise.
pub open spec fn semicolon(ts: Seq<TokenModel>, should_consume: bool) -> Result<
    Seq<TokenModel>,
    ParseErrorModel,
> {
    if should_consume {
        consume(TokenValueModel::SEMICOLON, ts)
    } else {
        Ok(ts)
    }
}

/// Takes an operator out of `operators` from the front, if one stands there.
pub open spec fn match_operator(operators: Seq<Operator>, ts: Seq<TokenModel>) -> Option<
    (Operator, Seq<TokenModel>),
> {
    if ts.len() == 0 {
        None
    } else {
        match ts[0].value {
            TokenValueModel::OP(o) => if operators.contains(o) {
                Some((o, ts.skip(1)))
            } else {
                None
            },
            _ => None,
        }
    }
}

/// A result counts only if it left fewer tokens than it was given. Every
/// result that this is applied to does.
pub open spec fn progress<T>(r: Parsed<T>, given: Seq<TokenModel>) -> Parsed<T> {
    match r {
        Ok((_, rest)) => if rest.len() < given.len() {
            r
        } else {
            Err(ParseErrorModel::UnexpectedEOF)
        },
        Err(_) => r,
    }
}

/// Parameter names up to the closing parenthesis; the opening one is already read.
pub open spec fn params(ts: Seq<TokenModel>) -> Parsed<Seq<Seq<char>>>
    decreases ts.len(), 1nat,
{
    if ts.len() == 0 {
        Err(ParseErrorModel::UnexpectedEOF)
    } else {
        match ts[0].value {
            TokenValueModel::RPAREN => Ok((Seq::empty(), ts.skip(1))),
            TokenValueModel::KW(kw) => Err(ParseErrorModel::KeywordAsParam(kw.text())),
            TokenValueModel::ID(name) => match rest_params(ts.skip(1)) {
                Ok((more, rest)) => Ok((seq![name] + more, rest)),
                Err(e) => Err(e),
            },
            _ => Err(ParseErrorModel::UnexpectedToken(ts[0])),
        }
    }
}

/// What follows a parameter: the closing parenthesis, or a comma and more parameters.
pub open spec fn rest_params(ts: Seq<TokenModel>) -> Parsed<Seq<Seq<char>>>
    decreases ts.len(), 0nat,
{
    if ts.len() == 0 {
        Err(ParseErrorModel::UnexpectedEOF)
    } else {
        match ts[0].value {
            TokenValueModel::RPAREN => Ok((Seq::empty(), ts.skip(1))),
            TokenValueModel::COMMA => if at(ts, 1, TokenValueModel::RPAREN) {
                Err(ParseErrorModel::UnexpectedToken(ts[0]))
            } else {
                params(ts.skip(1))
            },
            _ => Err(ParseErrorModel::UnexpectedToken(ts[0])),
        }
    }
}

/// A call: of the builtin where the callee is its bare name, of a value otherwise.
pub open spec fn call_of(callee: SurfaceExpr, args: Seq<SurfaceExpr>) -> SurfaceExpr {
    match builtin_named(callee) {
        Some(b) => SurfaceExpr::PrimitiveCall(b, args),
        None => SurfaceExpr::Call(Box::new(callee), args),
    }
}

/// The builtin that the expression names, if it is the bare name of one.
pub open spec fn builtin_named(e: SurfaceExpr) -> Option<Builtin> {
    match e {
        SurfaceExpr::Var(name) => if name == "print"@ {
            Some(Builtin::Print)
        } else {
            None
        },
        _ => None,
    }
}

/// A block, or the error for its absence.
pub open spec fn ensure_block(s: Option<SurfaceStatement>) -> Result<
    SurfaceStatement,
    ParseErrorModel,
> {
    match s {
        Some(SurfaceStatement::Block(stmts)) => Ok(SurfaceStatement::Block(stmts)),
        _ => Err(ParseErrorModel::ExpectedBlock),
    }
}

/// Whether the statement changes a variable that exists: an assignment, or
/// an increment or decrement standing alone.
pub open spec fn is_assignment(s: SurfaceStatement) -> bool {
    match s {
        SurfaceStatement::Assign(_, _) => true,
        SurfaceStatement::Expr(SurfaceExpr::Unary(op, _)) => op == Operator::PreIncrement || op
            == Operator::PostIncrement || op == Operator::PreDecrement || op
            == Operator::PostDecrement,
        _ => false,
    }
}

/// Whether the statement is a `let` or an assignment.
pub open spec fn is_assignment_or_initialization(s: SurfaceStatement) -> bool {
    match s {
        SurfaceStatement::Let(_, _) => true,
        _ => is_assignment(s),
    }
}

/// An expression.
pub open spec fn expr(ts: Seq<TokenModel>) -> Parsed<SurfaceExpr>
    decreases ts.len(), 27nat,
{
    binary(Tier::Or, ts)
}

/// What stands on either side of an operator of `tier`.
pub open spec fn operand(tier: Tier, ts: Seq<TokenModel>) -> Parsed<SurfaceExpr>
    decreases ts.len(), 2 * tier.height() + 10,
{
    match tier.tighter() {
        Some(t) => binary(t, ts),
        None => unary(ts),
    }
}

/// Operands joined by operators of `tier`, grouped to the left.
pub open spec fn binary(tier: Tier, ts: Seq<TokenModel>) -> Parsed<SurfaceExpr>
    decreases ts.len(), 2 * tier.height() + 11,
{
    match progress(operand(tier, ts), ts) {
        Ok((left, rest)) => binary_tail(tier, left, rest),
        Err(e) => Err(e),
    }
}

/// After `left`: any number of operators of `tier`, each with an operand.
pub open spec fn binary_tail(tier: Tier, left: SurfaceExpr, ts: Seq<TokenModel>) -> Parsed<
    SurfaceExpr,
>
    decreases ts.len(), 0nat,
{
    match match_operator(tier.operators(), ts) {
        Some((op, rest)) => match progress(operand(tier, rest), rest) {
            Ok((right, rest)) => binary_tail(
                tier,
                SurfaceExpr::Binary(op, Box::new(left), Box::new(right)),
                rest,
            ),
            Err(e) => Err(e),
        },
        None => Ok((left, ts)),
    }
}

/// A call expression under prefix operators, or with one increment or decrement.
pub open spec fn unary(ts: Seq<TokenModel>) -> Parsed<SurfaceExpr>
    decreases ts.len(), 9nat,
{
    match match_operator(seq![Operator::Minus, Operator::LogicNot], ts) {
        Some((op, rest)) => match unary(rest) {
            Ok((e, rest)) => Ok((SurfaceExpr::Unary(op, Box::new(e)), rest)),
            Err(e) => Err(e),
        },
        None => if at(ts, 0, TokenValueModel::DOUBLE_PLUS) {
            prefixed(Operator::PreIncrement, ts.skip(1))
        } else if at(ts, 0, TokenValueModel::DOUBLE_MINUS) {
            prefixed(Operator::PreDecrement, ts.skip(1))
        } else {
            match call(ts) {
                Ok((e, rest)) => if at(rest, 0, TokenValueModel::DOUBLE_PLUS) {
                    Ok((SurfaceExpr::Unary(Operator::PostIncrement, Box::new(e)), rest.skip(1)))
                } else if at(rest, 0, TokenValueModel::DOUBLE_MINUS) {
                    Ok((SurfaceExpr::Unary(Operator::PostDecrement, Box::new(e)), rest.skip(1)))
                } else {
                    Ok((e, rest))
                },
                Err(e) => Err(e),
            }
        },
    }
}

/// The call expression that a prefix increment or decrement applies to.
pub open spec fn prefixed(op: Operator, ts: Seq<TokenModel>) -> Parsed<SurfaceExpr>
    decreases ts.len(), 9nat,
{
    match call(ts) {
        Ok((e, rest)) => Ok((SurfaceExpr::Unary(op, Box::new(e)), rest)),
        Err(e) => Err(e),
    }
}

/// A terminal followed by any number of argument lists.
pub open spec fn call(ts: Seq<TokenModel>) -> Parsed<SurfaceExpr>
    decreases ts.len(), 8nat,
{
    match progress(terminal(ts), ts) {
        Ok((e, rest)) => call_tail(e, rest),
        Err(e) => Err(e),
    }
}

/// After `callee`: any number of argument lists, each making a call of what stands before it.
pub open spec fn call_tail(callee: SurfaceExpr, ts: Seq<TokenModel>) -> Parsed<SurfaceExpr>
    decreases ts.len(), 0nat,
{
    if at(ts, 0, TokenValueModel::LPAREN) {
        match progress(args(ts.skip(1)), ts) {
            Ok((a, rest)) => call_tail(call_of(callee, a), rest),
            Err(e) => Err(e),
        }
    } else {
        Ok((callee, ts))
    }
}

/// A literal, a variable, a lambda, or an expression in parentheses.
///
/// After an opening parenthesis a parameter list is tried first. If one is
/// there, an arrow and the body of a lambda must follow. If the attempt ends
/// at a token that continues no parameter list, the parenthesis opens an
/// expression. Any other failure of the attempt is the result.
pub open spec fn terminal(ts: Seq<TokenModel>) -> Parsed<SurfaceExpr>
    decreases ts.len(), 7nat,
{
    if ts.len() == 0 {
        Err(ParseErrorModel::UnexpectedEOF)
    } else {
        match ts[0].value {
            TokenValueModel::STR(s) => Ok((SurfaceExpr::Str(s), ts.skip(1))),
            TokenValueModel::KW(Keyword::True) => Ok((SurfaceExpr::Bool(true), ts.skip(1))),
            TokenValueModel::KW(Keyword::False) => Ok((SurfaceExpr::Bool(false), ts.skip(1))),
            TokenValueModel::KW(kw) => Err(ParseErrorModel::KeywordAsVar(kw.text())),
            TokenValueModel::ID(id) => Ok((SurfaceExpr::Var(id), ts.skip(1))),
            TokenValueModel::NUM(n) => Ok((SurfaceExpr::Num(n), ts.skip(1))),
            TokenValueModel::LPAREN => match progress(params(ts.skip(1)), ts) {
                Ok((names, rest)) => match consume(TokenValueModel::THIN_ARROW, rest) {
                    Ok(rest) => match statement(rest, false) {
                        Ok((Some(body), rest)) => Ok(
                            (SurfaceExpr::Lambda(names, Box::new(body)), rest),
                        ),
                        Ok((None, _)) => Err(ParseErrorModel::ExpectedStatement),
                        Err(e) => Err(e),
                    },
                    Err(e) => Err(e),
                },
                Err(ParseErrorModel::UnexpectedToken(_)) => match expr(ts.skip(1)) {
                    Ok((e, rest)) => match consume(TokenValueModel::RPAREN, rest) {
                        Ok(rest) => Ok((e, rest)),
                        Err(e) => Err(e),
                    },
                    Err(e) => Err(e),
                },
                Err(e) => Err(e),
            },
            _ => Err(ParseErrorModel::UnexpectedToken(ts[0])),
        }
    }
}

/// Arguments up to the closing parenthesis; the opening one is already read.
pub open spec fn args(ts: Seq<TokenModel>) -> Parsed<Seq<SurfaceExpr>>
    decreases ts.len(), 28nat,
{
    if at(ts, 0, TokenValueModel::RPAREN) {
        Ok((Seq::empty(), ts.skip(1)))
    } else {
        match progress(expr(ts), ts) {
            Ok((e, rest)) => match rest_args(rest) {
                Ok((more, rest)) => Ok((seq![e] + more, rest)),
                Err(e) => Err(e),
            },
            Err(e) => Err(e),
        }
    }
}

/// What follows an argument: the closing parenthesis, or a comma and more arguments.
pub open spec fn rest_args(ts: Seq<TokenModel>) -> Parsed<Seq<SurfaceExpr>>
    decreases ts.len(), 29nat,
{
    if ts.len() == 0 {
        Err(ParseErrorModel::UnexpectedEOF)
    } else {
        match ts[0].value {
            TokenValueModel::RPAREN => Ok((Seq::empty(), ts.skip(1))),
            TokenValueModel::COMMA => if at(ts, 1, TokenValueModel::RPAREN) {
                Err(ParseErrorModel::UnexpectedToken(ts[0]))
            } else {
                args(ts.skip(1))
            },
            _ => Err(ParseErrorModel::UnexpectedToken(ts[0])),
        }
    }
}

/// Statements up to the closing bracket of their block; the opening one is already read.
pub open spec fn statements(ts: Seq<TokenModel>) -> Parsed<Seq<SurfaceStatement>>
    decreases ts.len(), 41nat,
{
    match progress(statement(ts, true), ts) {
        Ok((Some(s), rest)) => match statements(rest) {
            Ok((more, rest)) => Ok((seq![s] + more, rest)),
            Err(e) => Err(e),
        },
        Ok((None, rest)) => Ok((Seq::empty(), rest)),
        Err(e) => Err(e),
    }
}

/// One statement, or nothing where a closing bracket stands (which is read).
///
/// A simple statement ends in a semicolon, which is read if `parse_semicolon`.
pub open spec fn statement(ts: Seq<TokenModel>, parse_semicolon: bool) -> Parsed<
    Option<SurfaceStatement>,
>
    decreases ts.len(), 40nat,
{
    if at(ts, 0, TokenValueModel::RBRACKET) {
        Ok((None, ts.skip(1)))
    } else if at(ts, 0, TokenValueModel::KW(Keyword::Let)) && keyword_at(ts, 1) is Some {
        Err(ParseErrorModel::KeywordAsVar(keyword_at(ts, 1)->0.text()))
    } else if at(ts, 0, TokenValueModel::KW(Keyword::Let)) && name_at(ts, 1) is Some && at(
        ts,
        2,
        TokenValueModel::ASSIGN,
    ) {
        match expr(ts.skip(3)) {
            Ok((e, rest)) => match semicolon(rest, parse_semicolon) {
                Ok(rest) => Ok((Some(SurfaceStatement::Let(name_at(ts, 1)->0, e)), rest)),
                Err(e) => Err(e),
            },
            Err(e) => Err(e),
        }
    } else if keyword_at(ts, 0) is Some && at(ts, 1, TokenValueModel::ASSIGN) {
        Err(ParseErrorModel::KeywordAsVar(keyword_at(ts, 0)->0.text()))
    } else if name_at(ts, 0) is Some && at(ts, 1, TokenValueModel::ASSIGN) {
        match expr(ts.skip(2)) {
            Ok((e, rest)) => match semicolon(rest, parse_semicolon) {
                Ok(rest) => Ok((Some(SurfaceStatement::Assign(name_at(ts, 0)->0, e)), rest)),
                Err(e) => Err(e),
            },
            Err(e) => Err(e),
        }
    } else if at(ts, 0, TokenValueModel::KW(Keyword::If)) && at(ts, 1, TokenValueModel::LPAREN) {
        if_statement(ts.skip(2))
    } else if at(ts, 0, TokenValueModel::KW(Keyword::While)) && at(
        ts,
        1,
        TokenValueModel::LPAREN,
    ) {
        while_statement(ts.skip(2))
    } else if at(ts, 0, TokenValueModel::KW(Keyword::For)) && at(ts, 1, TokenValueModel::LPAREN) {
        for_statement(ts.skip(2))
    } else if at(ts, 0, TokenValueModel::KW(Keyword::Return)) && at(
        ts,
        1,
        TokenValueModel::SEMICOLON,
    ) {
        Ok((Some(SurfaceStatement::Return(None)), ts.skip(2)))
    } else if at(ts, 0, TokenValueModel::KW(Keyword::Return)) {
        match expr(ts.skip(1)) {
            Ok((e, rest)) => match consume(TokenValueModel::SEMICOLON, rest) {
                Ok(rest) => Ok((Some(SurfaceStatement::Return(Some(e))), rest)),
                Err(e) => Err(e),
            },
            Err(e) => Err(e),
        }
    } else if at(ts, 0, TokenValueModel::KW(Keyword::Break)) {
        match consume(TokenValueModel::SEMICOLON, ts.skip(1)) {
            Ok(rest) => Ok((Some(SurfaceStatement::Break), rest)),
            Err(e) => Err(e),
        }
    } else if at(ts, 0, TokenValueModel::KW(Keyword::Continue)) {
        match consume(TokenValueModel::SEMICOLON, ts.skip(1)) {
            Ok(rest) => Ok((Some(SurfaceStatement::Continue), rest)),
            Err(e) => Err(e),
        }
    } else if at(ts, 0, TokenValueModel::LBRACKET) {
        match statements(ts.skip(1)) {
            Ok((stmts, rest)) => Ok((Some(SurfaceStatement::Block(stmts)), rest)),
            Err(e) => Err(e),
        }
    } else {
        match expr(ts) {
            Ok((e, rest)) => match semicolon(rest, parse_semicolon) {
                Ok(rest) => Ok((Some(SurfaceStatement::Expr(e)), rest)),
                Err(e) => Err(e),
            },
            Err(e) => Err(e),
        }
    }
}

/// A block, which is the only thing that may follow the head of a compound statement.
pub open spec fn block(ts: Seq<TokenModel>) -> Parsed<SurfaceStatement>
    decreases ts.len(), 42nat,
{
    match statement(ts, true) {
        Ok((s, rest)) => match ensure_block(s) {
            Ok(b) => Ok((b, rest)),
            Err(e) => Err(e),
        },
        Err(e) => Err(e),
    }
}

/// A condition with its closing parenthesis, and the block that it guards.
pub open spec fn guarded_block(ts: Seq<TokenModel>) -> Parsed<(SurfaceExpr, SurfaceStatement)>
    decreases ts.len(), 43nat,
{
    match progress(expr(ts), ts) {
        Ok((cond, rest)) => match consume(TokenValueModel::RPAREN, rest) {
            Ok(rest) => match block(rest) {
                Ok((b, rest)) => Ok(((cond, b), rest)),
                Err(e) => Err(e),
            },
            Err(e) => Err(e),
        },
        Err(e) => Err(e),
    }
}

/// An `if` statement after `if (`.
pub open spec fn if_statement(ts: Seq<TokenModel>) -> Parsed<Option<SurfaceStatement>>
    decreases ts.len(), 45nat,
{
    match progress(guarded_block(ts), ts) {
        Ok(((cond, then_block), rest)) => match progress(else_ifs(rest), ts) {
            Ok((clauses, rest)) => if at(rest, 0, TokenValueModel::KW(Keyword::Else)) {
                match block(rest.skip(1)) {
                    Ok((else_block, rest)) => Ok(
                        (
                            Some(
                                SurfaceStatement::If(
                                    cond,
                                    Box::new(then_block),
                                    clauses,
                                    Some(Box::new(else_block)),
                                ),
                            ),
                            rest,
                        ),
                    ),
                    Err(e) => Err(e),
                }
            } else {
                Ok((Some(SurfaceStatement::If(cond, Box::new(then_block), clauses, None)), rest))
            },
            Err(e) => Err(e),
        },
        Err(e) => Err(e),
    }
}

/// Any number of `else if (` clauses.
pub open spec fn else_ifs(ts: Seq<TokenModel>) -> Parsed<Seq<(SurfaceExpr, SurfaceStatement)>>
    decreases ts.len(), 44nat,
{
    if at(ts, 0, TokenValueModel::KW(Keyword::Else)) && at(ts, 1, TokenValueModel::KW(Keyword::If))
        && at(ts, 2, TokenValueModel::LPAREN) {
        match progress(guarded_block(ts.skip(3)), ts) {
            Ok((clause, rest)) => match else_ifs(rest) {
                Ok((more, rest)) => Ok((seq![clause] + more, rest)),
                Err(e) => Err(e),
            },
            Err(e) => Err(e),
        }
    } else {
        Ok((Seq::empty(), ts))
    }
}

/// A `while` statement after `while (`.
pub open spec fn while_statement(ts: Seq<TokenModel>) -> Parsed<Option<SurfaceStatement>>
    decreases ts.len(), 45nat,
{
    match guarded_block(ts) {
        Ok(((cond, body), rest)) => Ok((Some(SurfaceStatement::While(cond, Box::new(body))), rest)),
        Err(e) => Err(e),
    }
}

/// A `for` statement after `for (`.
///
/// The first clause is a `let` or an assignment with its semicolon, the
/// second an expression with its semicolon, the third an assignment without
/// one; after the closing parenthesis comes a block.
pub open spec fn for_statement(ts: Seq<TokenModel>) -> Parsed<Option<SurfaceStatement>>
    decreases ts.len(), 45nat,
{
    match progress(statement(ts, true), ts) {
        Ok((None, _)) => Err(ParseErrorModel::ExpectedStatement),
        Ok((Some(init), rest)) => if !is_assignment_or_initialization(init) {
            Err(ParseErrorModel::ExpectedAssignmentOrInitialization)
        } else {
            match progress(expr(rest), ts) {
                Ok((cond, rest)) => match consume(TokenValueModel::SEMICOLON, rest) {
                    Ok(rest) => match progress(statement(rest, false), ts) {
                        Ok((None, _)) => Err(ParseErrorModel::ExpectedStatement),
                        Ok((Some(step), rest)) => if !is_assignment(step) {
                            Err(ParseErrorModel::ExpectedAssignment)
                        } else {
                            match consume(TokenValueModel::RPAREN, rest) {
                                Ok(rest) => match statement(rest, true) {
                                    Ok((Some(SurfaceStatement::Block(body)), rest)) => Ok(
                                        (
                                            Some(
                                                SurfaceStatement::For(
                                                    Box::new(init),
                                                    cond,
                                                    Box::new(step),
                                                    body,
                                                ),
                                            ),
                                            rest,
                                        ),
                                    ),
                                    Ok(_) => Err(ParseErrorModel::ExpectedBlock),
                                    Err(e) => Err(e),
                                },
                                Err(e) => Err(e),
                            }
                        },
                        Err(e) => Err(e),
                    },
                    Err(e) => Err(e),
                },
                Err(e) => Err(e),
            }
        },
        Err(e) => Err(e),
    }
}

/// A top-level procedure, or nothing where no procedure starts.
pub open spec fn procedure(ts: Seq<TokenModel>) -> Parsed<Option<SurfaceProcedure>> {
    if at(ts, 0, TokenValueModel::KW(Keyword::Proc)) && keyword_at(ts, 1) is Some && at(
        ts,
        2,
        TokenValueModel::LPAREN,
    ) {
        Err(ParseErrorModel::KeywordAsProc(keyword_at(ts, 1)->0.text()))
    } else if at(ts, 0, TokenValueModel::KW(Keyword::Proc)) && name_at(ts, 1) is Some && at(
        ts,
        2,
        TokenValueModel::LPAREN,
    ) {
        match params(ts.skip(3)) {
            Ok((names, rest)) => match block(rest) {
                Ok((body, rest)) => Ok(
                    (Some(SurfaceProcedure { name: name_at(ts, 1)->0, params: names, body }), rest),
                ),
                Err(e) => Err(e),
            },
            Err(e) => Err(e),
        }
    } else {
        Ok((None, ts))
    }
}

/// Whether one of `procs` is named `name`.
pub open spec fn declares(procs: Seq<SurfaceProcedure>, name: Seq<char>) -> bool {
    exists|i: int| 0 <= i < procs.len() && #[trigger] procs[i].name == name
}

/// Procedures as long as one starts, no two of them with the same name.
///
/// A name that occurs twice is reported for its last occurrence but one.
pub open spec fn procedures(ts: Seq<TokenModel>) -> Parsed<Seq<SurfaceProcedure>>
    decreases ts.len(),
{
    match procedure(ts) {
        Ok((Some(p), rest)) => if rest.len() < ts.len() {
            match procedures(rest) {
                Ok((more, rest)) => if declares(more, p.name) {
                    Err(ParseErrorModel::MultipleSameNamedProcs(p.name))
                } else {
                    Ok((seq![p] + more, rest))
                },
                Err(e) => Err(e),
            }
        } else {
            Err(ParseErrorModel::UnexpectedEOF)
        },
        Ok((None, rest)) => Ok((Seq::empty(), rest)),
        Err(e) => Err(e),
    }
}

/// Whether the procedure is the entry point.
pub open spec fn is_main(p: SurfaceProcedure) -> bool {
    p.name == "main"@
}

/// The first of `procs` that is named `main`.
pub open spec fn main_of(procs: Seq<SurfaceProcedure>) -> Option<SurfaceProcedure>
    decreases procs.len(),
{
    if procs.len() == 0 {
        None
    } else {
        match main_of(procs.drop_last()) {
            Some(m) => Some(m),
            None => if is_main(procs.last()) {
                Some(procs.last())
            } else {
                None
            },
        }
    }
}

/// Those of `procs` that are not named `main`, in order.
pub open spec fn others(procs: Seq<SurfaceProcedure>) -> Seq<SurfaceProcedure> {
    procs.filter(|p: SurfaceProcedure| !is_main(p))
}

/// The program that a token sequence is.
///
/// The tokens must be procedures from the first to the last, no two of them
/// with the same name and one of them named `main`.
pub open spec fn program(ts: Seq<TokenModel>) -> Result<SurfaceProgram, ParseErrorModel> {
    match procedures(ts) {
        Ok((procs, rest)) => if rest.len() > 0 {
            Err(unexpected(rest))
        } else {
            match main_of(procs) {
                Some(main) => Ok(SurfaceProgram { procedures: others(procs), main }),
                None => Err(ParseErrorModel::NoMain),
            }
        },
        Err(e) => Err(e),
    }
}

/// Whether `rest` is what is left of `given` after some tokens are taken from its front.
pub open spec fn is_rest(rest: Seq<TokenModel>, given: Seq<TokenModel>) -> bool {
    rest.len() <= given.len() && rest == given.skip(given.len() - rest.len())
}

/// What is left of what is left of a sequence is left of that sequence.
pub broadcast proof fn lemma_rest_of_rest(
    a: Seq<TokenModel>,
    b: Seq<TokenModel>,
    c: Seq<TokenModel>,
)
    requires
        #[trigger] is_rest(a, b),
        #[trigger] is_rest(b, c),
    ensures
        is_rest(a, c),
{
    assert(a =~= c.skip(c.len() - a.len()));
}

/// What is left after the first `n` tokens is left.
pub broadcast proof fn lemma_skip_is_rest(ts: Seq<TokenModel>, n: int)
    requires
        0 <= n <= ts.len(),
    ensures
        is_rest(#[trigger] ts.skip(n), ts),
{
}

/// Whether a result, if it is one, took at least one token from the front
/// of `given` and left the others.
pub open spec fn advances<T>(r: Parsed<T>, given: Seq<TokenModel>) -> bool {
    r matches Ok((_, rest)) ==> rest.len() < given.len() && is_rest(rest, given)
}

/// Whether a result, if it is one, took tokens from the front of `given`,
/// or none, and left the others.
pub open spec fn keeps<T>(r: Parsed<T>, given: Seq<TokenModel>) -> bool {
    r matches Ok((_, rest)) ==> is_rest(rest, given)
}

/// A parameter list takes at least one token.
pub proof fn lemma_params_advance(ts: Seq<TokenModel>)
    ensures
        advances(params(ts), ts),
        advances(rest_params(ts), ts),
    decreases ts.len(),
{
    broadcast use {lemma_rest_of_rest, lemma_skip_is_rest};

    if ts.len() > 0 {
        lemma_params_advance(ts.skip(1));
    }
}

/// An expression takes at least one token, and so does each of its parts.
pub proof fn lemma_expr_advances(ts: Seq<TokenModel>)
    ensures
        advances(expr(ts), ts),
    decreases ts.len(), 27nat,
{
    broadcast use {lemma_rest_of_rest, lemma_skip_is_rest};

    lemma_binary_advances(Tier::Or, ts);
}

/// An operand takes at least one token.
pub proof fn lemma_operand_advances(tier: Tier, ts: Seq<TokenModel>)
    ensures
        advances(operand(tier, ts), ts),
    decreases ts.len(), 2 * tier.height() + 10,
{
    broadcast use {lemma_rest_of_rest, lemma_skip_is_rest};

    match tier.tighter() {
        Some(t) => lemma_binary_advances(t, ts),
        None => lemma_unary_advances(ts),
    }
}

/// Operands joined by operators take at least one token.
pub proof fn lemma_binary_advances(tier: Tier, ts: Seq<TokenModel>)
    ensures
        advances(binary(tier, ts), ts),
        progress(operand(tier, ts), ts) == operand(tier, ts),
    decreases ts.len(), 2 * tier.height() + 11,
{
    broadcast use {lemma_rest_of_rest, lemma_skip_is_rest};

    lemma_operand_advances(tier, ts);
    match operand(tier, ts) {
        Ok((left, rest)) => lemma_binary_tail_keeps(tier, left, rest),
        Err(_) => {},
    }
}

/// What follows an operand may be nothing, and takes no token then.
pub proof fn lemma_binary_tail_keeps(tier: Tier, left: SurfaceExpr, ts: Seq<TokenModel>)
    ensures
        keeps(binary_tail(tier, left, ts), ts),
    decreases ts.len(), 0nat,
{
    broadcast use {lemma_rest_of_rest, lemma_skip_is_rest};

    assert(ts.skip(0) =~= ts);
    match match_operator(tier.operators(), ts) {
        Some((op, rest)) => {
            lemma_operand_advances(tier, rest);
            match operand(tier, rest) {
                Ok((right, rest)) => lemma_binary_tail_keeps(
                    tier,
                    SurfaceExpr::Binary(op, Box::new(left), Box::new(right)),
                    rest,
                ),
                Err(_) => {},
            }
        },
        None => {},
    }
}

/// A unary expression takes at least one token.
pub proof fn lemma_unary_advances(ts: Seq<TokenModel>)
    ensures
        advances(unary(ts), ts),
    decreases ts.len(), 9nat,
{
    broadcast use {lemma_rest_of_rest, lemma_skip_is_rest};

    match match_operator(seq![Operator::Minus, Operator::LogicNot], ts) {
        Some((op, rest)) => lemma_unary_advances(rest),
        None => if at(ts, 0, TokenValueModel::DOUBLE_PLUS) || at(
            ts,
            0,
            TokenValueModel::DOUBLE_MINUS,
        ) {
            lemma_call_advances(ts.skip(1));
            assert(advances(prefixed(Operator::PreIncrement, ts.skip(1)), ts.skip(1)));
            assert(advances(prefixed(Operator::PreDecrement, ts.skip(1)), ts.skip(1)));
        } else {
            lemma_call_advances(ts);
        },
    }
}

/// A call expression takes at least one token.
pub proof fn lemma_call_advances(ts: Seq<TokenModel>)
    ensures
        advances(call(ts), ts),
        progress(terminal(ts), ts) == terminal(ts),
    decreases ts.len(), 8nat,
{
    broadcast use {lemma_rest_of_rest, lemma_skip_is_rest};

    lemma_terminal_advances(ts);
    match terminal(ts) {
        Ok((e, rest)) => lemma_call_tail_keeps(e, rest),
        Err(_) => {},
    }
}

/// What follows a callee may be nothing, and takes no token then.
pub proof fn lemma_call_tail_keeps(callee: SurfaceExpr, ts: Seq<TokenModel>)
    ensures
        keeps(call_tail(callee, ts), ts),
    decreases ts.len(), 0nat,
{
    broadcast use {lemma_rest_of_rest, lemma_skip_is_rest};

    assert(ts.skip(0) =~= ts);
    if at(ts, 0, TokenValueModel::LPAREN) {
        lemma_args_advance(ts.skip(1));
        match args(ts.skip(1)) {
            Ok((a, rest)) => lemma_call_tail_keeps(call_of(callee, a), rest),
            Err(_) => {},
        }
    }
}

/// A terminal takes at least one token.
pub proof fn lemma_terminal_advances(ts: Seq<TokenModel>)
    ensures
        advances(terminal(ts), ts),
    decreases ts.len(), 7nat,
{
    broadcast use {lemma_rest_of_rest, lemma_skip_is_rest};

    if at(ts, 0, TokenValueModel::LPAREN) {
        lemma_params_advance(ts.skip(1));
        match params(ts.skip(1)) {
            Ok((names, rest)) => match consume(TokenValueModel::THIN_ARROW, rest) {
                Ok(rest) => lemma_statement_advances(rest, false),
                Err(_) => {},
            },
            Err(ParseErrorModel::UnexpectedToken(_)) => lemma_expr_advances(ts.skip(1)),
            Err(_) => {},
        }
    }
}

/// An argument list takes at least one token.
pub proof fn lemma_args_advance(ts: Seq<TokenModel>)
    ensures
        advances(args(ts), ts),
        progress(expr(ts), ts) == expr(ts),
    decreases ts.len(), 28nat,
{
    broadcast use {lemma_rest_of_rest, lemma_skip_is_rest};

    lemma_expr_advances(ts);
    if !at(ts, 0, TokenValueModel::RPAREN) {
        match expr(ts) {
            Ok((e, rest)) => lemma_rest_args_advance(rest),
            Err(_) => {},
        }
    }
}

/// What follows an argument takes at least one token.
pub proof fn lemma_rest_args_advance(ts: Seq<TokenModel>)
    ensures
        advances(rest_args(ts), ts),
    decreases ts.len(), 29nat,
{
    broadcast use {lemma_rest_of_rest, lemma_skip_is_rest};

    if at(ts, 0, TokenValueModel::COMMA) && !at(ts, 1, TokenValueModel::RPAREN) {
        lemma_args_advance(ts.skip(1));
    }
}

/// The statements of a block, with its closing bracket, take at least one token.
pub proof fn lemma_statements_advance(ts: Seq<TokenModel>)
    ensures
        advances(statements(ts), ts),
        progress(statement(ts, true), ts) == statement(ts, true),
    decreases ts.len(), 41nat,
{
    broadcast use {lemma_rest_of_rest, lemma_skip_is_rest};

    lemma_statement_advances(ts, true);
    match statement(ts, true) {
        Ok((Some(s), rest)) => lemma_statements_advance(rest),
        _ => {},
    }
}

/// A statement, and a closing bracket in its place, take at least one token.
pub proof fn lemma_statement_advances(ts: Seq<TokenModel>, parse_semicolon: bool)
    ensures
        advances(statement(ts, parse_semicolon), ts),
    decreases ts.len(), 40nat,
{
    broadcast use {lemma_rest_of_rest, lemma_skip_is_rest};

    if at(ts, 0, TokenValueModel::RBRACKET) {
    } else if at(ts, 0, TokenValueModel::KW(Keyword::Let)) && keyword_at(ts, 1) is Some {
    } else if at(ts, 0, TokenValueModel::KW(Keyword::Let)) && name_at(ts, 1) is Some && at(
        ts,
        2,
        TokenValueModel::ASSIGN,
    ) {
        lemma_expr_advances(ts.skip(3));
    } else if keyword_at(ts, 0) is Some && at(ts, 1, TokenValueModel::ASSIGN) {
    } else if name_at(ts, 0) is Some && at(ts, 1, TokenValueModel::ASSIGN) {
        lemma_expr_advances(ts.skip(2));
    } else if at(ts, 0, TokenValueModel::KW(Keyword::If)) && at(ts, 1, TokenValueModel::LPAREN) {
        lemma_if_advances(ts.skip(2));
    } else if at(ts, 0, TokenValueModel::KW(Keyword::While)) && at(
        ts,
        1,
        TokenValueModel::LPAREN,
    ) {
        lemma_guarded_block_advances(ts.skip(2));
    } else if at(ts, 0, TokenValueModel::KW(Keyword::For)) && at(ts, 1, TokenValueModel::LPAREN) {
        lemma_for_advances(ts.skip(2));
    } else if at(ts, 0, TokenValueModel::KW(Keyword::Return)) && at(
        ts,
        1,
        TokenValueModel::SEMICOLON,
    ) {
    } else if at(ts, 0, TokenValueModel::KW(Keyword::Return)) {
        lemma_expr_advances(ts.skip(1));
    } else if at(ts, 0, TokenValueModel::KW(Keyword::Break)) {
    } else if at(ts, 0, TokenValueModel::KW(Keyword::Continue)) {
    } else if at(ts, 0, TokenValueModel::LBRACKET) {
        lemma_statements_advance(ts.skip(1));
    } else {
        lemma_expr_advances(ts);
    }
}

/// A block takes at least one token.
pub proof fn lemma_block_advances(ts: Seq<TokenModel>)
    ensures
        advances(block(ts), ts),
    decreases ts.len(), 42nat,
{
    broadcast use {lemma_rest_of_rest, lemma_skip_is_rest};

    lemma_statement_advances(ts, true);
}

/// A condition with its block takes at least one token.
pub proof fn lemma_guarded_block_advances(ts: Seq<TokenModel>)
    ensures
        advances(guarded_block(ts), ts),
        advances(while_statement(ts), ts),
        progress(expr(ts), ts) == expr(ts),
    decreases ts.len(), 43nat,
{
    broadcast use {lemma_rest_of_rest, lemma_skip_is_rest};

    lemma_expr_advances(ts);
    match expr(ts) {
        Ok((cond, rest)) => match consume(TokenValueModel::RPAREN, rest) {
            Ok(rest) => lemma_block_advances(rest),
            Err(_) => {},
        },
        Err(_) => {},
    }
}

/// The `else if` clauses of an `if` may be none, and take no token then.
pub proof fn lemma_else_ifs_keep(ts: Seq<TokenModel>)
    ensures
        keeps(else_ifs(ts), ts),
    decreases ts.len(), 44nat,
{
    broadcast use {lemma_rest_of_rest, lemma_skip_is_rest};

    assert(ts.skip(0) =~= ts);
    if ts.len() >= 3 {
        lemma_guarded_block_advances(ts.skip(3));
        if at(ts, 0, TokenValueModel::KW(Keyword::Else)) && at(
            ts,
            1,
            TokenValueModel::KW(Keyword::If),
        ) && at(ts, 2, TokenValueModel::LPAREN) {
            match guarded_block(ts.skip(3)) {
                Ok((clause, rest)) => lemma_else_ifs_keep(rest),
                Err(_) => {},
            }
        }
    }
}

/// What follows `if (` takes at least one token.
pub proof fn lemma_if_advances(ts: Seq<TokenModel>)
    ensures
        advances(if_statement(ts), ts),
        progress(guarded_block(ts), ts) == guarded_block(ts),
        guarded_block(ts) matches Ok((_, rest)) ==> progress(else_ifs(rest), ts) == else_ifs(rest),
    decreases ts.len(), 45nat,
{
    broadcast use {lemma_rest_of_rest, lemma_skip_is_rest};

    lemma_guarded_block_advances(ts);
    match guarded_block(ts) {
        Ok((_, rest)) => {
            lemma_else_ifs_keep(rest);
            match else_ifs(rest) {
                Ok((clauses, rest)) => if at(rest, 0, TokenValueModel::KW(Keyword::Else)) {
                    lemma_block_advances(rest.skip(1));
                },
                Err(_) => {},
            }
        },
        Err(_) => {},
    }
}

/// What follows `for (` takes at least one token.
pub proof fn lemma_for_advances(ts: Seq<TokenModel>)
    ensures
        advances(for_statement(ts), ts),
    decreases ts.len(), 45nat,
{
    broadcast use {lemma_rest_of_rest, lemma_skip_is_rest};

    lemma_statement_advances(ts, true);
    match statement(ts, true) {
        Ok((Some(init), rest)) => {
            lemma_expr_advances(rest);
            match expr(rest) {
                Ok((cond, rest)) => match consume(TokenValueModel::SEMICOLON, rest) {
                    Ok(rest) => {
                        lemma_statement_advances(rest, false);
                        match statement(rest, false) {
                            Ok((Some(step), rest)) => match consume(
                                TokenValueModel::RPAREN,
                                rest,
                            ) {
                                Ok(rest) => lemma_statement_advances(rest, true),
                                Err(_) => {},
                            },
                            _ => {},
                        }
                    },
                    Err(_) => {},
                },
                Err(_) => {},
            }
        },
        _ => {},
    }
}

/// A procedure takes at least one token; where none starts, none is taken.
pub proof fn lemma_procedure_advances(ts: Seq<TokenModel>)
    ensures
        procedure(ts) matches Ok((found, rest)) ==> if found is Some {
            rest.len() < ts.len() && is_rest(rest, ts)
        } else {
            rest == ts
        },
{
    broadcast use {lemma_rest_of_rest, lemma_skip_is_rest};

    if ts.len() >= 3 {
        lemma_params_advance(ts.skip(3));
        match params(ts.skip(3)) {
            Ok((names, rest)) => lemma_block_advances(rest),
            Err(_) => {},
        }
    }
}

/// Procedures in a row are taken from the front, and no two of them that
/// are read have the same name.
pub proof fn lemma_procedures_keep(ts: Seq<TokenModel>)
    ensures
        keeps(procedures(ts), ts),
        procedures(ts) matches Ok((procs, _)) ==> forall|i: int, j: int|
            0 <= i < j < procs.len() ==> procs[i].name != procs[j].name,
    decreases ts.len(),
{
    broadcast use {lemma_rest_of_rest, lemma_skip_is_rest};

    assert(ts.skip(0) =~= ts);
    lemma_procedure_advances(ts);
    match procedure(ts) {
        Ok((Some(p), rest)) => {
            lemma_procedures_keep(rest);
            match procedures(rest) {
                Ok((more, _)) => if !declares(more, p.name) {
                    let procs = seq![p] + more;
                    assert forall|i: int, j: int| 0 <= i < j < procs.len() implies procs[i].name
                        != procs[j].name by {
                        if i == 0 {
                            assert(procs[j] == more[j - 1]);
                        } else {
                            assert(procs[i] == more[i - 1]);
                            assert(procs[j] == more[j - 1]);
                        }
                    }
                },
                Err(_) => {},
            }
        },
        _ => {},
    }
}

/// Whether no two of `procs` have the same name.
pub open spec fn distinct_names(procs: Seq<SurfaceProcedure>) -> bool {
    forall|i: int, j: int| 0 <= i < j < procs.len() ==> procs[i].name != procs[j].name
}

/// Whether the program is well formed: `main` is named `main`, no other
/// procedure is, and no two procedures have the same name.
pub open spec fn well_formed(p: SurfaceProgram) -> bool {
    &&& is_main(p.main)
    &&& forall|i: int| 0 <= i < p.procedures.len() ==> !is_main(#[trigger] p.procedures[i])
    &&& distinct_names(p.procedures)
}

/// The procedure that [`main_of`] finds is named `main`.
pub proof fn lemma_main_is_main(procs: Seq<SurfaceProcedure>)
    ensures
        main_of(procs) matches Some(m) ==> is_main(m),
    decreases procs.len(),
{
    if procs.len() != 0 {
        lemma_main_is_main(procs.drop_last());
    }
}

/// Each of [`others`] is one of the procedures and is not named `main`,
/// and they have different names where the procedures have.
pub proof fn lemma_others(procs: Seq<SurfaceProcedure>)
    ensures
        forall|i: int|
            0 <= i < others(procs).len() ==> !is_main(#[trigger] others(procs)[i]) && exists|
                j: int,
            |
                0 <= j < procs.len() && procs[j] == others(procs)[i],
        distinct_names(procs) ==> distinct_names(others(procs)),
    decreases procs.len(),
{
    reveal(Seq::filter);
    if procs.len() != 0 {
        let init = procs.drop_last();
        lemma_others(init);
        assert forall|i: int| 0 <= i < others(procs).len() implies !is_main(
            #[trigger] others(procs)[i],
        ) && exists|j: int| 0 <= j < procs.len() && procs[j] == others(procs)[i] by {
            if i < others(init).len() {
                let j = choose|j: int| 0 <= j < init.len() && init[j] == others(init)[i];
                assert(procs[j] == others(procs)[i]);
            } else {
                assert(procs[procs.len() - 1] == others(procs)[i]);
            }
        }
        if distinct_names(procs) {
            assert(distinct_names(init)) by {
                assert forall|i: int, j: int| 0 <= i < j < init.len() implies init[i].name
                    != init[j].name by {
                    assert(init[i] == procs[i] && init[j] == procs[j]);
                }
            }
            assert forall|i: int, j: int| 0 <= i < j < others(procs).len() implies others(
                procs,
            )[i].name != others(procs)[j].name by {
                if j >= others(init).len() {
                    let k = choose|k: int| 0 <= k < init.len() && init[k] == others(init)[i];
                    assert(procs[k] == others(procs)[i]);
                    assert(procs[procs.len() - 1] == others(procs)[j]);
                }
            }
        }
    }
}

/// A program that is read is well formed.
pub proof fn lemma_program_is_well_formed(ts: Seq<TokenModel>)
    ensures
        program(ts) matches Ok(p) ==> well_formed(p),
{
    lemma_procedures_keep(ts);
    match procedures(ts) {
        Ok((procs, rest)) => {
            lemma_main_is_main(procs);
            lemma_others(procs);
        },
        Err(_) => {},
    }
}

} // verus!
