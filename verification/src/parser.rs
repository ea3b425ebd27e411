//! The surface syntax and its recursive-descent parser.

use vstd::prelude::*;
use vstd::slice::slice_subrange;
use vstd::string::StringExecFns;
use crate::desugar::{
    desugar_prog, desugar_program, CoreProcedure, CoreStatement, Procedure, Statement,
};
use crate::error::{ParseError, ParseErrorModel};
use crate::grammar;
use crate::grammar::{Parsed, Tier};
use crate::lists::{group_views, views};
use crate::tokenizer::{Keyword, Operator, Token, TokenModel, TokenValue};

verus! {

/// A procedure that is built into the language.
#[derive(Clone, Copy, PartialEq, Eq, PartialOrd, Ord, Debug, Structural)]
pub enum Builtin {
    Print,
}

/// A program of the core language, ready to run.
#[derive(Debug, PartialEq)]
pub struct Program {
    /// The top-level procedures, without `main`.
    pub procedures: Vec<Procedure>,
    /// The body of `main`.
    pub main: Vec<Statement>,
}

/// Mathematical value of a [`Program`].
pub ghost struct CoreProgram {
    pub procedures: Seq<CoreProcedure>,
    pub main: Seq<CoreStatement>,
}

impl View for Program {
    type V = CoreProgram;

    open spec fn view(&self) -> CoreProgram {
        CoreProgram { procedures: views(self.procedures@), main: views(self.main@) }
    }
}

/// A program as written: its procedures without `main`, which have
/// different names, and `main`.
#[derive(Debug, PartialEq)]
pub struct SugaredProgram {
    pub procedures: Vec<SugaredProcedure>,
    pub main: SugaredProcedure,
}

/// Mathematical value of a [`SugaredProgram`].
pub ghost struct SurfaceProgram {
    pub procedures: Seq<SurfaceProcedure>,
    pub main: SurfaceProcedure,
}

/// A top-level procedure as written: a name, its parameters and a block.
#[derive(Debug, PartialEq)]
pub struct SugaredProcedure {
    pub name: String,
    pub params: Vec<String>,
    pub body: SugaredStatement,
}

/// A statement as written, with `for` loops and `else if` chains.
#[derive(Debug, PartialEq)]
pub enum SugaredStatement {
    Expr(SugaredExpr),
    Let(String, SugaredExpr),
    Assign(String, SugaredExpr),
    Block(Vec<SugaredStatement>),
    If(
        SugaredExpr,
        Box<SugaredStatement>,
        Vec<(SugaredExpr, SugaredStatement)>,
        Option<Box<SugaredStatement>>,
    ),
    While(SugaredExpr, Box<SugaredStatement>),
    For(Box<SugaredStatement>, SugaredExpr, Box<SugaredStatement>, Vec<SugaredStatement>),
    Break,
    Continue,
    Return(Option<SugaredExpr>),
}

/// An expression as written.
#[derive(Debug, PartialEq)]
pub enum SugaredExpr {
    Num(i64),
    Bool(bool),
    Str(String),
    Var(String),
    Binary(Operator, Box<SugaredExpr>, Box<SugaredExpr>),
    Unary(Operator, Box<SugaredExpr>),
    PrimitiveCall(Builtin, Vec<SugaredExpr>),
    Call(Box<SugaredExpr>, Vec<SugaredExpr>),
    Lambda(Vec<String>, Box<SugaredStatement>),
}

/// Mathematical value of a [`SugaredProcedure`].
pub ghost struct SurfaceProcedure {
    pub name: Seq<char>,
    pub params: Seq<Seq<char>>,
    pub body: SurfaceStatement,
}

/// Mathematical value of a [`SugaredStatement`].
pub ghost enum SurfaceStatement {
    Expr(SurfaceExpr),
    Let(Seq<char>, SurfaceExpr),
    Assign(Seq<char>, SurfaceExpr),
    Block(Seq<SurfaceStatement>),
    If(
        SurfaceExpr,
        Box<SurfaceStatement>,
        Seq<(SurfaceExpr, SurfaceStatement)>,
        Option<Box<SurfaceStatement>>,
    ),
    While(SurfaceExpr, Box<SurfaceStatement>),
    For(Box<SurfaceStatement>, SurfaceExpr, Box<SurfaceStatement>, Seq<SurfaceStatement>),
    Break,
    Continue,
    Return(Option<SurfaceExpr>),
}

/// Mathematical value of a [`SugaredExpr`].
pub ghost enum SurfaceExpr {
    Num(i64),
    Bool(bool),
    Str(Seq<char>),
    Var(Seq<char>),
    Binary(Operator, Box<SurfaceExpr>, Box<SurfaceExpr>),
    Unary(Operator, Box<SurfaceExpr>),
    PrimitiveCall(Builtin, Seq<SurfaceExpr>),
    Call(Box<SurfaceExpr>, Seq<SurfaceExpr>),
    Lambda(Seq<Seq<char>>, Box<SurfaceStatement>),
}

impl SugaredExpr {
    /// The expression with text as character sequences and lists as sequences.
    pub open spec fn model(&self) -> SurfaceExpr
        decreases self,
    {
        match self {
            SugaredExpr::Num(n) => SurfaceExpr::Num(*n),
            SugaredExpr::Bool(b) => SurfaceExpr::Bool(*b),
            SugaredExpr::Str(s) => SurfaceExpr::Str(s@),
            SugaredExpr::Var(s) => SurfaceExpr::Var(s@),
            SugaredExpr::Binary(op, l, r) => SurfaceExpr::Binary(
                *op,
                Box::new(l.model()),
                Box::new(r.model()),
            ),
            SugaredExpr::Unary(op, e) => SurfaceExpr::Unary(*op, Box::new(e.model())),
            SugaredExpr::PrimitiveCall(b, args) => SurfaceExpr::PrimitiveCall(
                *b,
                Seq::new(
                    args.len() as nat,
                    |i: int|
                        if 0 <= i < args.len() {
                            args[i].model()
                        } else {
                            SurfaceExpr::Bool(false)
                        },
                ),
            ),
            SugaredExpr::Call(f, args) => SurfaceExpr::Call(
                Box::new(f.model()),
                Seq::new(
                    args.len() as nat,
                    |i: int|
                        if 0 <= i < args.len() {
                            args[i].model()
                        } else {
                            SurfaceExpr::Bool(false)
                        },
                ),
            ),
            SugaredExpr::Lambda(params, body) => SurfaceExpr::Lambda(
                views(params@),
                Box::new(body.model()),
            ),
        }
    }
}

impl SugaredStatement {
    /// The statement with text as character sequences and lists as sequences.
    pub open spec fn model(&self) -> SurfaceStatement
        decreases self,
    {
        match self {
            SugaredStatement::Expr(e) => SurfaceStatement::Expr(e.model()),
            SugaredStatement::Let(x, e) => SurfaceStatement::Let(x@, e.model()),
            SugaredStatement::Assign(x, e) => SurfaceStatement::Assign(x@, e.model()),
            SugaredStatement::Block(stmts) => SurfaceStatement::Block(
                Seq::new(
                    stmts.len() as nat,
                    |i: int|
                        if 0 <= i < stmts.len() {
                            stmts[i].model()
                        } else {
                            SurfaceStatement::Break
                        },
                ),
            ),
            SugaredStatement::If(c, t, else_ifs, e) => SurfaceStatement::If(
                c.model(),
                Box::new(t.model()),
                Seq::new(
                    else_ifs.len() as nat,
                    |i: int|
                        if 0 <= i < else_ifs.len() {
                            (else_ifs[i].0.model(), else_ifs[i].1.model())
                        } else {
                            (SurfaceExpr::Bool(false), SurfaceStatement::Break)
                        },
                ),
                match e {
                    Some(s) => Some(Box::new(s.model())),
                    None => None,
                },
            ),
            SugaredStatement::While(c, b) => SurfaceStatement::While(
                c.model(),
                Box::new(b.model()),
            ),
            SugaredStatement::For(init, c, step, body) => SurfaceStatement::For(
                Box::new(init.model()),
                c.model(),
                Box::new(step.model()),
                Seq::new(
                    body.len() as nat,
                    |i: int|
                        if 0 <= i < body.len() {
                            body[i].model()
                        } else {
                            SurfaceStatement::Break
                        },
                ),
            ),
            SugaredStatement::Break => SurfaceStatement::Break,
            SugaredStatement::Continue => SurfaceStatement::Continue,
            SugaredStatement::Return(e) => SurfaceStatement::Return(
                match e {
                    Some(e) => Some(e.model()),
                    None => None,
                },
            ),
        }
    }
}

impl View for SugaredExpr {
    type V = SurfaceExpr;

    open spec fn view(&self) -> SurfaceExpr {
        self.model()
    }
}

impl View for SugaredStatement {
    type V = SurfaceStatement;

    open spec fn view(&self) -> SurfaceStatement {
        self.model()
    }
}

impl View for SugaredProgram {
    type V = SurfaceProgram;

    open spec fn view(&self) -> SurfaceProgram {
        SurfaceProgram { procedures: views(self.procedures@), main: self.main@ }
    }
}

impl View for SugaredProcedure {
    type V = SurfaceProcedure;

    open spec fn view(&self) -> SurfaceProcedure {
        SurfaceProcedure { name: self.name@, params: views(self.params@), body: self.body@ }
    }
}

/// The views of the pairs of an `else if` chain.
pub open spec fn clause_views(s: Seq<(SugaredExpr, SugaredStatement)>) -> Seq<
    (SurfaceExpr, SurfaceStatement),
> {
    Seq::new(s.len(), |i: int| (s[i].0@, s[i].1@))
}

/// The view of a node is built from the views of its parts.
pub proof fn lemma_expr_view(e: SugaredExpr)
    ensures
        e matches SugaredExpr::PrimitiveCall(b, args) ==> e@ == SurfaceExpr::PrimitiveCall(
            b,
            views(args@),
        ),
        e matches SugaredExpr::Call(f, args) ==> e@ == SurfaceExpr::Call(
            Box::new(f@),
            views(args@),
        ),
{
    match e {
        SugaredExpr::PrimitiveCall(b, args) => {
            assert(e@->PrimitiveCall_1 =~= views(args@));
        },
        SugaredExpr::Call(f, args) => {
            assert(e@->Call_1 =~= views(args@));
        },
        _ => {},
    }
}

/// The view of a node is built from the views of its parts.
pub proof fn lemma_statement_view(s: SugaredStatement)
    ensures
        s matches SugaredStatement::Block(stmts) ==> s@ == SurfaceStatement::Block(views(stmts@)),
        s matches SugaredStatement::If(c, t, else_ifs, e) ==> s@ == SurfaceStatement::If(
            c@,
            Box::new(t@),
            clause_views(else_ifs@),
            match e {
                Some(x) => Some(Box::new(x@)),
                None => None,
            },
        ),
        s matches SugaredStatement::For(init, c, step, body) ==> s@ == SurfaceStatement::For(
            Box::new(init@),
            c@,
            Box::new(step@),
            views(body@),
        ),
{
    match s {
        SugaredStatement::Block(stmts) => {
            assert(s@->Block_0 =~= views(stmts@));
        },
        SugaredStatement::If(c, t, else_ifs, e) => {
            assert(s@->If_2 =~= clause_views(else_ifs@));
        },
        SugaredStatement::For(init, c, step, body) => {
            assert(s@->For_3 =~= views(body@));
        },
        _ => {},
    }
}

/// The view of an optional value.
pub open spec fn option_view<T: View>(o: Option<T>) -> Option<T::V> {
    match o {
        Some(x) => Some(x@),
        None => None,
    }
}

/// The view of a result that carries the tokens left.
pub open spec fn parsed<T: View>(r: Result<(T, &[Token]), ParseError>) -> Parsed<T::V> {
    match r {
        Ok((x, rest)) => Ok((x@, views(rest@))),
        Err(e) => Err(e@),
    }
}

/// The view of a result that carries a list and the tokens left.
pub open spec fn parsed_list<T: View>(r: Result<(Vec<T>, &[Token]), ParseError>) -> Parsed<
    Seq<T::V>,
> {
    match r {
        Ok((x, rest)) => Ok((views(x@), views(rest@))),
        Err(e) => Err(e@),
    }
}

/// The view of a result that carries an optional value and the tokens left.
pub open spec fn parsed_option<T: View>(r: Result<(Option<T>, &[Token]), ParseError>) -> Parsed<
    Option<T::V>,
> {
    match r {
        Ok((x, rest)) => Ok((option_view(x), views(rest@))),
        Err(e) => Err(e@),
    }
}

/// The view of a result that carries only the tokens left.
pub open spec fn parsed_rest(r: Result<&[Token], ParseError>) -> Result<
    Seq<TokenModel>,
    ParseErrorModel,
> {
    match r {
        Ok(rest) => Ok(views(rest@)),
        Err(e) => Err(e@),
    }
}

/// A successful result leaves fewer tokens than `tokens` has.
pub open spec fn advances<T>(r: Result<(T, &[Token]), ParseError>, tokens: &[Token]) -> bool {
    r matches Ok((_, rest)) ==> rest@.len() < tokens@.len()
}

/// The tokens from position `n` on.
fn skip<'a>(tokens: &'a [Token], n: usize) -> (rest: &'a [Token])
    requires
        n <= tokens@.len(),
    ensures
        rest@ == tokens@.skip(n as int),
        views(rest@) == views(tokens@).skip(n as int),
{
    broadcast use group_views;

    slice_subrange(tokens, n, tokens.len())
}

/// Whether token `i` exists and has the value `v`.
fn is_at(tokens: &[Token], i: usize, v: &TokenValue) -> (r: bool)
    ensures
        r == grammar::at(views(tokens@), i as int, v@),
{
    broadcast use group_views;

    i < tokens.len() && tokens[i].0.same(v)
}

/// The keyword at position `i`, if a keyword stands there.
fn keyword_at(tokens: &[Token], i: usize) -> (r: Option<Keyword>)
    ensures
        r == grammar::keyword_at(views(tokens@), i as int),
{
    broadcast use group_views;

    if i < tokens.len() {
        match &tokens[i].0 {
            TokenValue::KW(k) => Some(*k),
            _ => None,
        }
    } else {
        None
    }
}

/// The identifier at position `i`, if an identifier stands there.
fn name_at(tokens: &[Token], i: usize) -> (r: Option<String>)
    ensures
        option_view(r) == grammar::name_at(views(tokens@), i as int),
{
    broadcast use group_views;

    if i < tokens.len() {
        match &tokens[i].0 {
            TokenValue::ID(s) => Some(s.clone()),
            _ => None,
        }
    } else {
        None
    }
}

/// `x` in front of `v`.
fn prepend<T>(x: T, v: Vec<T>) -> (r: Vec<T>)
    ensures
        r@ == seq![x] + v@,
{
    let mut r = v;
    let ghost before = r@;
    r.insert(0, x);
    assert(r@ =~= seq![x] + before);
    r
}

/// The error for input that cannot go on as it does: its first token, or
/// the end of the input where no token is left.
pub fn unexpected_token(tokens: &[Token]) -> (e: ParseError)
    ensures
        e@ == grammar::unexpected(views(tokens@)),
{
    broadcast use group_views;

    if tokens.len() == 0 {
        ParseError::UnexpectedEOF
    } else {
        ParseError::UnexpectedToken(tokens[0].duplicate())
    }
}

/// The builtin that `expr` names, if it is the bare name of one.
pub fn check_builtin(expr: &SugaredExpr) -> (r: Option<Builtin>)
    ensures
        r == grammar::builtin_named(expr@),
{
    match expr {
        SugaredExpr::Var(name) => {
            let print = String::from_str("print");
            if *name == print {
                Some(Builtin::Print)
            } else {
                None
            }
        },
        _ => None,
    }
}

/// Takes a token with the value `target` from the front of `tokens`.
pub fn consume_token<'a>(target: TokenValue, tokens: &'a [Token]) -> (r: Result<
    &'a [Token],
    ParseError,
>)
    ensures
        parsed_rest(r) == grammar::consume(target@, views(tokens@)),
        r matches Ok(rest) ==> rest@.len() + 1 == tokens@.len(),
{
    broadcast use group_views;

    if tokens.len() == 0 {
        Err(ParseError::UnexpectedEOF)
    } else if tokens[0].0.same(&target) {
        Ok(skip(tokens, 1))
    } else {
        Err(ParseError::Expected(target, tokens[0].duplicate()))
    }
}

/// Takes a semicolon from the front of `tokens` if `should_consume`, and
/// gives `tokens` back as they are otherwise.
pub fn conditionally_consume_semicolon<'a>(tokens: &'a [Token], should_consume: bool) -> (r:
    Result<&'a [Token], ParseError>)
    ensures
        parsed_rest(r) == grammar::semicolon(views(tokens@), should_consume),
        r matches Ok(rest) ==> rest@.len() <= tokens@.len(),
{
    if should_consume {
        consume_token(TokenValue::SEMICOLON, tokens)
    } else {
        Ok(tokens)
    }
}

/// Takes an operator out of `operators` from the front of `tokens`, if one stands there.
#[verifier::loop_isolation(false)]
pub fn match_operator<'a>(operators: &[Operator], tokens: &'a [Token]) -> (r: Option<
    (Operator, &'a [Token]),
>)
    ensures
        match r {
            Some((op, rest)) => grammar::match_operator(operators@, views(tokens@)) == Some(
                (op, views(rest@)),
            ) && rest@.len() + 1 == tokens@.len(),
            None => grammar::match_operator(operators@, views(tokens@)) is None,
        },
{
    broadcast use group_views;

    if tokens.len() == 0 {
        return None;
    }
    match &tokens[0].0 {
        TokenValue::OP(b) => {
            let mut i: usize = 0;
            while i < operators.len()
                invariant
                    i <= operators.len(),
                    forall|j: int| 0 <= j < i ==> operators@[j] != *b,
                decreases operators.len() - i,
            {
                if operators[i] == *b {
                    return Some((*b, skip(tokens, 1)));
                }
                i += 1;
            }
            None
        },
        _ => None,
    }
}

impl Tier {
    /// The operators of this tier.
    pub fn operator_list(self) -> (r: Vec<Operator>)
        ensures
            r@ == self.operators(),
    {
        let r = match self {
            Tier::Or => vec![Operator::LogicOr],
            Tier::And => vec![Operator::LogicAnd],
            Tier::Equality => vec![Operator::Eq, Operator::Ne],
            Tier::Relational => vec![Operator::LT, Operator::GT, Operator::LTE, Operator::GTE],
            Tier::Additive => vec![Operator::Plus, Operator::Minus],
            Tier::Multiplicative => vec![Operator::Times, Operator::Mod, Operator::Div],
        };
        assert(r@ =~= self.operators());
        r
    }

    /// The next tighter tier, if there is one.
    pub fn next_tighter(self) -> (r: Option<Tier>)
        ensures
            r == self.tighter(),
    {
        match self {
            Tier::Or => Some(Tier::And),
            Tier::And => Some(Tier::Equality),
            Tier::Equality => Some(Tier::Relational),
            Tier::Relational => Some(Tier::Additive),
            Tier::Additive => Some(Tier::Multiplicative),
            Tier::Multiplicative => None,
        }
    }
}

/// The binary expression `first_arg op second_arg`.
pub fn binary_expression(op: Operator, first_arg: SugaredExpr, second_arg: SugaredExpr) -> (r:
    SugaredExpr)
    ensures
        r@ == SurfaceExpr::Binary(op, Box::new(first_arg@), Box::new(second_arg@)),
{
    SugaredExpr::Binary(op, Box::new(first_arg), Box::new(second_arg))
}

/// The statement if it is a block, and the error for a missing block otherwise.
pub fn ensure_block(statement_option: Option<SugaredStatement>) -> (r: Result<
    SugaredStatement,
    ParseError,
>)
    ensures
        match r {
            Ok(b) => grammar::ensure_block(option_view(statement_option)) == Ok::<
                SurfaceStatement,
                ParseErrorModel,
            >(b@) && Some(b) == statement_option,
            Err(e) => grammar::ensure_block(option_view(statement_option)) == Err::<
                SurfaceStatement,
                ParseErrorModel,
            >(e@),
        },
{
    match statement_option {
        Some(statement) => match statement {
            SugaredStatement::Block(_) => Ok(statement),
            _ => Err(ParseError::ExpectedBlock),
        },
        None => Err(ParseError::ExpectedBlock),
    }
}

/// Whether the statement changes a variable that exists: an assignment, or
/// an increment or decrement standing alone.
pub fn is_assignment(statement: &SugaredStatement) -> (r: bool)
    ensures
        r == grammar::is_assignment(statement@),
{
    proof {
        reveal_with_fuel(SugaredStatement::model, 2);
        reveal_with_fuel(SugaredExpr::model, 2);
    }
    match statement {
        SugaredStatement::Assign(_, _) => true,
        SugaredStatement::Expr(expr) => match expr {
            SugaredExpr::Unary(op, _) => match op {
                Operator::PreIncrement
                | Operator::PostIncrement
                | Operator::PreDecrement
                | Operator::PostDecrement => true,
                _ => false,
            },
            _ => false,
        },
        _ => false,
    }
}

/// Whether the statement is a `let` or an assignment.
pub fn is_assignment_or_initialization(statement: &SugaredStatement) -> (r: bool)
    ensures
        r == grammar::is_assignment_or_initialization(statement@),
{
    match statement {
        SugaredStatement::Let(_, _) => true,
        statement => is_assignment(statement),
    }
}

/// Parameter names up to the closing parenthesis; the opening one is already read.
pub fn parse_params<'a>(tokens: &'a [Token]) -> (r: Result<(Vec<String>, &'a [Token]), ParseError>)
    ensures
        parsed_list(r) == grammar::params(views(tokens@)),
        advances(r, tokens),
    decreases tokens@.len(), 1nat,
{
    broadcast use group_views;

    if tokens.len() == 0 {
        return Err(ParseError::UnexpectedEOF);
    }
    match &tokens[0].0 {
        TokenValue::RPAREN => Ok((Vec::new(), skip(tokens, 1))),
        TokenValue::KW(kw) => Err(ParseError::KeywordAsParam(kw.name())),
        TokenValue::ID(param_name) => match parse_rest_params(skip(tokens, 1)) {
            Ok((rest_params, rest_toks)) => Ok((prepend(param_name.clone(), rest_params), rest_toks)),
            Err(e) => Err(e),
        },
        _ => Err(ParseError::UnexpectedToken(tokens[0].duplicate())),
    }
}

/// What follows a parameter: the closing parenthesis, or a comma and more parameters.
pub fn parse_rest_params<'a>(tokens: &'a [Token]) -> (r: Result<
    (Vec<String>, &'a [Token]),
    ParseError,
>)
    ensures
        parsed_list(r) == grammar::rest_params(views(tokens@)),
        advances(r, tokens),
    decreases tokens@.len(), 0nat,
{
    broadcast use group_views;

    if tokens.len() == 0 {
        return Err(ParseError::UnexpectedEOF);
    }
    match &tokens[0].0 {
        TokenValue::RPAREN => Ok((Vec::new(), skip(tokens, 1))),
        TokenValue::COMMA => if is_at(tokens, 1, &TokenValue::RPAREN) {
            Err(ParseError::UnexpectedToken(tokens[0].duplicate()))
        } else {
            parse_params(skip(tokens, 1))
        },
        _ => Err(ParseError::UnexpectedToken(tokens[0].duplicate())),
    }
}

/// The view of a result that carries a condition, its block and the tokens left.
pub open spec fn parsed_clause(
    r: Result<((SugaredExpr, SugaredStatement), &[Token]), ParseError>,
) -> Parsed<(SurfaceExpr, SurfaceStatement)> {
    match r {
        Ok((c, rest)) => Ok(((c.0@, c.1@), views(rest@))),
        Err(e) => Err(e@),
    }
}

/// The view of a result that carries the clauses of an `else if` chain and the tokens left.
pub open spec fn parsed_clauses(
    r: Result<(Vec<(SugaredExpr, SugaredStatement)>, &[Token]), ParseError>,
) -> Parsed<Seq<(SurfaceExpr, SurfaceStatement)>> {
    match r {
        Ok((c, rest)) => Ok((clause_views(c@), views(rest@))),
        Err(e) => Err(e@),
    }
}

/// An expression.
pub fn parse_expr<'a>(tokens: &'a [Token]) -> (r: Result<(SugaredExpr, &'a [Token]), ParseError>)
    ensures
        parsed(r) == grammar::expr(views(tokens@)),
        advances(r, tokens),
    decreases tokens@.len(), 27nat,
{
    parse_binary_expr(Tier::Or, tokens)
}

/// Operands joined by `||`.
pub fn parse_logical_or_expr<'a>(tokens: &'a [Token]) -> (r: Result<
    (SugaredExpr, &'a [Token]),
    ParseError,
>)
    ensures
        parsed(r) == grammar::binary(Tier::Or, views(tokens@)),
        advances(r, tokens),
{
    parse_binary_expr(Tier::Or, tokens)
}

/// Operands joined by `&&`.
pub fn parse_logical_and_expr<'a>(tokens: &'a [Token]) -> (r: Result<
    (SugaredExpr, &'a [Token]),
    ParseError,
>)
    ensures
        parsed(r) == grammar::binary(Tier::And, views(tokens@)),
        advances(r, tokens),
{
    parse_binary_expr(Tier::And, tokens)
}

/// Operands joined by `==` and `!=`.
pub fn parse_equality_expr<'a>(tokens: &'a [Token]) -> (r: Result<
    (SugaredExpr, &'a [Token]),
    ParseError,
>)
    ensures
        parsed(r) == grammar::binary(Tier::Equality, views(tokens@)),
        advances(r, tokens),
{
    parse_binary_expr(Tier::Equality, tokens)
}

/// Operands joined by `<`, `>`, `<=` and `>=`.
pub fn parse_relational_expr<'a>(tokens: &'a [Token]) -> (r: Result<
    (SugaredExpr, &'a [Token]),
    ParseError,
>)
    ensures
        parsed(r) == grammar::binary(Tier::Relational, views(tokens@)),
        advances(r, tokens),
{
    parse_binary_expr(Tier::Relational, tokens)
}

/// Operands joined by `+` and `-`.
pub fn parse_additive_expr<'a>(tokens: &'a [Token]) -> (r: Result<
    (SugaredExpr, &'a [Token]),
    ParseError,
>)
    ensures
        parsed(r) == grammar::binary(Tier::Additive, views(tokens@)),
        advances(r, tokens),
{
    parse_binary_expr(Tier::Additive, tokens)
}

/// Operands joined by `*`, `%` and `/`.
pub fn parse_multiplicative_expr<'a>(tokens: &'a [Token]) -> (r: Result<
    (SugaredExpr, &'a [Token]),
    ParseError,
>)
    ensures
        parsed(r) == grammar::binary(Tier::Multiplicative, views(tokens@)),
        advances(r, tokens),
{
    parse_binary_expr(Tier::Multiplicative, tokens)
}

/// What stands on either side of an operator of `tier`.
fn parse_operand<'a>(tier: Tier, tokens: &'a [Token]) -> (r: Result<
    (SugaredExpr, &'a [Token]),
    ParseError,
>)
    ensures
        parsed(r) == grammar::operand(tier, views(tokens@)),
        advances(r, tokens),
    decreases tokens@.len(), 2 * tier.height() + 10,
{
    match tier.next_tighter() {
        Some(t) => parse_binary_expr(t, tokens),
        None => parse_unary_expr(tokens),
    }
}

/// Operands joined by operators of `tier`, grouped to the left.
#[verifier::loop_isolation(false)]
pub fn parse_binary_expr<'a>(tier: Tier, tokens: &'a [Token]) -> (r: Result<
    (SugaredExpr, &'a [Token]),
    ParseError,
>)
    ensures
        parsed(r) == grammar::binary(tier, views(tokens@)),
        advances(r, tokens),
    decreases tokens@.len(), 2 * tier.height() + 11,
{
    let (mut expr, mut rest) = match parse_operand(tier, tokens) {
        Ok(found) => found,
        Err(e) => return Err(e),
    };
    let operators = tier.operator_list();
    loop
        invariant
            operators@ == tier.operators(),
            rest@.len() < tokens@.len(),
            grammar::binary(tier, views(tokens@)) == grammar::binary_tail(
                tier,
                expr@,
                views(rest@),
            ),
        decreases rest@.len(),
    {
        match match_operator(operators.as_slice(), rest) {
            Some((op, after)) => match parse_operand(tier, after) {
                Ok((right, after)) => {
                    expr = binary_expression(op, expr, right);
                    rest = after;
                },
                Err(e) => return Err(e),
            },
            None => return Ok((expr, rest)),
        }
    }
}

/// A call expression under prefix operators, or with one increment or decrement.
pub fn parse_unary_expr<'a>(tokens: &'a [Token]) -> (r: Result<
    (SugaredExpr, &'a [Token]),
    ParseError,
>)
    ensures
        parsed(r) == grammar::unary(views(tokens@)),
        advances(r, tokens),
    decreases tokens@.len(), 9nat,
{
    broadcast use group_views;

    let prefix = vec![Operator::Minus, Operator::LogicNot];
    assert(prefix@ =~= seq![Operator::Minus, Operator::LogicNot]);
    match match_operator(prefix.as_slice(), tokens) {
        Some((operator, rest)) => match parse_unary_expr(rest) {
            Ok((right, rest)) => Ok((SugaredExpr::Unary(operator, Box::new(right)), rest)),
            Err(e) => Err(e),
        },
        None => {
            if is_at(tokens, 0, &TokenValue::DOUBLE_PLUS) {
                parse_prefixed(Operator::PreIncrement, skip(tokens, 1))
            } else if is_at(tokens, 0, &TokenValue::DOUBLE_MINUS) {
                parse_prefixed(Operator::PreDecrement, skip(tokens, 1))
            } else {
                match parse_call_expr(tokens) {
                    Ok((expr, rest)) => if is_at(rest, 0, &TokenValue::DOUBLE_PLUS) {
                        Ok(
                            (
                                SugaredExpr::Unary(Operator::PostIncrement, Box::new(expr)),
                                skip(rest, 1),
                            ),
                        )
                    } else if is_at(rest, 0, &TokenValue::DOUBLE_MINUS) {
                        Ok(
                            (
                                SugaredExpr::Unary(Operator::PostDecrement, Box::new(expr)),
                                skip(rest, 1),
                            ),
                        )
                    } else {
                        Ok((expr, rest))
                    },
                    Err(e) => Err(e),
                }
            }
        },
    }
}

/// The call expression that a prefix increment or decrement applies to.
fn parse_prefixed<'a>(op: Operator, tokens: &'a [Token]) -> (r: Result<
    (SugaredExpr, &'a [Token]),
    ParseError,
>)
    ensures
        parsed(r) == grammar::prefixed(op, views(tokens@)),
        advances(r, tokens),
    decreases tokens@.len(), 9nat,
{
    match parse_call_expr(tokens) {
        Ok((expr, rest)) => Ok((SugaredExpr::Unary(op, Box::new(expr)), rest)),
        Err(e) => Err(e),
    }
}

/// A terminal followed by any number of argument lists.
#[verifier::loop_isolation(false)]
pub fn parse_call_expr<'a>(tokens: &'a [Token]) -> (r: Result<
    (SugaredExpr, &'a [Token]),
    ParseError,
>)
    ensures
        parsed(r) == grammar::call(views(tokens@)),
        advances(r, tokens),
    decreases tokens@.len(), 8nat,
{
    broadcast use group_views;

    let (mut expr, mut rest) = match parse_terminal_expr(tokens) {
        Ok(found) => found,
        Err(e) => return Err(e),
    };
    loop
        invariant
            rest@.len() < tokens@.len(),
            grammar::call(views(tokens@)) == grammar::call_tail(expr@, views(rest@)),
        decreases rest@.len(),
    {
        if is_at(rest, 0, &TokenValue::LPAREN) {
            match parse_args(skip(rest, 1)) {
                Ok((args, after)) => {
                    let ghost callee = expr@;
                    let call_expr = match check_builtin(&expr) {
                        Some(builtin) => SugaredExpr::PrimitiveCall(builtin, args),
                        None => SugaredExpr::Call(Box::new(expr), args),
                    };
                    proof {
                        lemma_expr_view(call_expr);
                        assert(call_expr@ == grammar::call_of(callee, views(args@)));
                    }
                    expr = call_expr;
                    rest = after;
                },
                Err(e) => return Err(e),
            }
        } else {
            return Ok((expr, rest));
        }
    }
}

/// A literal, a variable, a lambda, or an expression in parentheses.
pub fn parse_terminal_expr<'a>(tokens: &'a [Token]) -> (r: Result<
    (SugaredExpr, &'a [Token]),
    ParseError,
>)
    ensures
        parsed(r) == grammar::terminal(views(tokens@)),
        advances(r, tokens),
    decreases tokens@.len(), 7nat,
{
    broadcast use group_views;

    if tokens.len() == 0 {
        return Err(ParseError::UnexpectedEOF);
    }
    match &tokens[0].0 {
        TokenValue::STR(s) => Ok((SugaredExpr::Str(s.clone()), skip(tokens, 1))),
        TokenValue::KW(Keyword::True) => Ok((SugaredExpr::Bool(true), skip(tokens, 1))),
        TokenValue::KW(Keyword::False) => Ok((SugaredExpr::Bool(false), skip(tokens, 1))),
        TokenValue::KW(kw) => Err(ParseError::KeywordAsVar(kw.name())),
        TokenValue::ID(id) => Ok((SugaredExpr::Var(id.clone()), skip(tokens, 1))),
        TokenValue::NUM(n) => Ok((SugaredExpr::Num(*n), skip(tokens, 1))),
        TokenValue::LPAREN => match parse_params(skip(tokens, 1)) {
            // a parameter list: an arrow and the body of a lambda follow
            Ok((params, rest)) => match consume_token(TokenValue::THIN_ARROW, rest) {
                Ok(rest) => match parse_statement(rest, false) {
                    Ok((Some(lambda_body), rest)) => Ok(
                        (SugaredExpr::Lambda(params, Box::new(lambda_body)), rest),
                    ),
                    Ok((None, _)) => Err(ParseError::ExpectedStatement),
                    Err(e) => Err(e),
                },
                Err(e) => Err(e),
            },
            // no parameter list: an expression in parentheses
            Err(ParseError::UnexpectedToken(_)) => match parse_expr(skip(tokens, 1)) {
                Ok((expr, rest)) => match consume_token(TokenValue::RPAREN, rest) {
                    Ok(rest) => Ok((expr, rest)),
                    Err(e) => Err(e),
                },
                Err(e) => Err(e),
            },
            Err(e) => Err(e),
        },
        _ => Err(ParseError::UnexpectedToken(tokens[0].duplicate())),
    }
}

/// Arguments up to the closing parenthesis; the opening one is already read.
pub fn parse_args<'a>(tokens: &'a [Token]) -> (r: Result<
    (Vec<SugaredExpr>, &'a [Token]),
    ParseError,
>)
    ensures
        parsed_list(r) == grammar::args(views(tokens@)),
        advances(r, tokens),
    decreases tokens@.len(), 28nat,
{
    broadcast use group_views;

    if is_at(tokens, 0, &TokenValue::RPAREN) {
        return Ok((Vec::new(), skip(tokens, 1)));
    }
    match parse_expr(tokens) {
        Ok((expr, rest)) => match parse_rest_args(rest) {
            Ok((rest_args, rest)) => Ok((prepend(expr, rest_args), rest)),
            Err(e) => Err(e),
        },
        Err(e) => Err(e),
    }
}

/// What follows an argument: the closing parenthesis, or a comma and more arguments.
pub fn parse_rest_args<'a>(tokens: &'a [Token]) -> (r: Result<
    (Vec<SugaredExpr>, &'a [Token]),
    ParseError,
>)
    ensures
        parsed_list(r) == grammar::rest_args(views(tokens@)),
        advances(r, tokens),
    decreases tokens@.len(), 29nat,
{
    broadcast use group_views;

    if tokens.len() == 0 {
        return Err(ParseError::UnexpectedEOF);
    }
    match &tokens[0].0 {
        TokenValue::RPAREN => Ok((Vec::new(), skip(tokens, 1))),
        TokenValue::COMMA => if is_at(tokens, 1, &TokenValue::RPAREN) {
            Err(ParseError::UnexpectedToken(tokens[0].duplicate()))
        } else {
            parse_args(skip(tokens, 1))
        },
        _ => Err(ParseError::UnexpectedToken(tokens[0].duplicate())),
    }
}

/// Statements up to the closing bracket of their block; the opening one is already read.
pub fn parse_statements<'a>(tokens: &'a [Token]) -> (r: Result<
    (Vec<SugaredStatement>, &'a [Token]),
    ParseError,
>)
    ensures
        parsed_list(r) == grammar::statements(views(tokens@)),
        advances(r, tokens),
    decreases tokens@.len(), 41nat,
{
    broadcast use group_views;

    match parse_statement(tokens, true) {
        Ok((Some(statement), rest)) => match parse_statements(rest) {
            Ok((rest_statements, rest)) => Ok((prepend(statement, rest_statements), rest)),
            Err(e) => Err(e),
        },
        Ok((None, rest)) => Ok((Vec::new(), rest)),
        Err(e) => Err(e),
    }
}

/// One statement, or nothing where a closing bracket stands (which is read).
///
/// A simple statement ends in a semicolon, which is read if `parse_semicolon`.
pub fn parse_statement<'a>(tokens: &'a [Token], parse_semicolon: bool) -> (r: Result<
    (Option<SugaredStatement>, &'a [Token]),
    ParseError,
>)
    ensures
        parsed_option(r) == grammar::statement(views(tokens@), parse_semicolon),
        advances(r, tokens),
    decreases tokens@.len(), 40nat,
{
    broadcast use group_views;

    if is_at(tokens, 0, &TokenValue::RBRACKET) {
        return Ok((None, skip(tokens, 1)));
    }
    let first_keyword = keyword_at(tokens, 0);
    let second_keyword = keyword_at(tokens, 1);
    let is_let = is_at(tokens, 0, &TokenValue::KW(Keyword::Let));
    if is_let {
        if let Some(kw) = second_keyword {
            return Err(ParseError::KeywordAsVar(kw.name()));
        }
        if is_at(tokens, 2, &TokenValue::ASSIGN) {
            if let Some(var_name) = name_at(tokens, 1) {
                return match parse_expr(skip(tokens, 3)) {
                    Ok((var_expr, rest)) => match conditionally_consume_semicolon(
                        rest,
                        parse_semicolon,
                    ) {
                        Ok(rest) => Ok((Some(SugaredStatement::Let(var_name, var_expr)), rest)),
                        Err(e) => Err(e),
                    },
                    Err(e) => Err(e),
                };
            }
        }
    }
    if is_at(tokens, 1, &TokenValue::ASSIGN) {
        if let Some(kw) = first_keyword {
            return Err(ParseError::KeywordAsVar(kw.name()));
        }
        if let Some(var_name) = name_at(tokens, 0) {
            return match parse_expr(skip(tokens, 2)) {
                Ok((var_expr, rest)) => match conditionally_consume_semicolon(
                    rest,
                    parse_semicolon,
                ) {
                    Ok(rest) => Ok((Some(SugaredStatement::Assign(var_name, var_expr)), rest)),
                    Err(e) => Err(e),
                },
                Err(e) => Err(e),
            };
        }
    }
    let opens = is_at(tokens, 1, &TokenValue::LPAREN);
    match first_keyword {
        Some(Keyword::If) if opens => parse_if(skip(tokens, 2)),
        Some(Keyword::While) if opens => parse_while(skip(tokens, 2)),
        Some(Keyword::For) if opens => parse_for(skip(tokens, 2)),
        Some(Keyword::Return) => {
            if is_at(tokens, 1, &TokenValue::SEMICOLON) {
                Ok((Some(SugaredStatement::Return(None)), skip(tokens, 2)))
            } else {
                match parse_expr(skip(tokens, 1)) {
                    Ok((return_expr, rest)) => match consume_token(TokenValue::SEMICOLON, rest) {
                        Ok(rest) => Ok((Some(SugaredStatement::Return(Some(return_expr))), rest)),
                        Err(e) => Err(e),
                    },
                    Err(e) => Err(e),
                }
            }
        },
        Some(Keyword::Break) => match consume_token(TokenValue::SEMICOLON, skip(tokens, 1)) {
            Ok(rest) => Ok((Some(SugaredStatement::Break), rest)),
            Err(e) => Err(e),
        },
        Some(Keyword::Continue) => match consume_token(TokenValue::SEMICOLON, skip(tokens, 1)) {
            Ok(rest) => Ok((Some(SugaredStatement::Continue), rest)),
            Err(e) => Err(e),
        },
        _ => {
            if is_at(tokens, 0, &TokenValue::LBRACKET) {
                match parse_statements(skip(tokens, 1)) {
                    Ok((statements, rest)) => {
                        let block = SugaredStatement::Block(statements);
                        proof {
                            lemma_statement_view(block);
                        }
                        Ok((Some(block), rest))
                    },
                    Err(e) => Err(e),
                }
            } else {
                match parse_expr(tokens) {
                    Ok((expr, rest)) => match conditionally_consume_semicolon(
                        rest,
                        parse_semicolon,
                    ) {
                        Ok(rest) => Ok((Some(SugaredStatement::Expr(expr)), rest)),
                        Err(e) => Err(e),
                    },
                    Err(e) => Err(e),
                }
            }
        },
    }
}

/// A block, which is the only thing that may follow the head of a compound statement.
fn parse_block<'a>(tokens: &'a [Token]) -> (r: Result<(SugaredStatement, &'a [Token]), ParseError>)
    ensures
        parsed(r) == grammar::block(views(tokens@)),
        advances(r, tokens),
    decreases tokens@.len(), 42nat,
{
    match parse_statement(tokens, true) {
        Ok((statement_option, rest)) => match ensure_block(statement_option) {
            Ok(block) => Ok((block, rest)),
            Err(e) => Err(e),
        },
        Err(e) => Err(e),
    }
}

/// A condition with its closing parenthesis, and the block that it guards.
fn parse_guarded_block<'a>(tokens: &'a [Token]) -> (r: Result<
    ((SugaredExpr, SugaredStatement), &'a [Token]),
    ParseError,
>)
    ensures
        parsed_clause(r) == grammar::guarded_block(views(tokens@)),
        advances(r, tokens),
    decreases tokens@.len(), 43nat,
{
    match parse_expr(tokens) {
        Ok((cond_expr, rest)) => match consume_token(TokenValue::RPAREN, rest) {
            Ok(rest) => match parse_block(rest) {
                Ok((block, rest)) => Ok(((cond_expr, block), rest)),
                Err(e) => Err(e),
            },
            Err(e) => Err(e),
        },
        Err(e) => Err(e),
    }
}

/// An `if` statement after `if (`.
fn parse_if<'a>(tokens: &'a [Token]) -> (r: Result<
    (Option<SugaredStatement>, &'a [Token]),
    ParseError,
>)
    ensures
        parsed_option(r) == grammar::if_statement(views(tokens@)),
        advances(r, tokens),
    decreases tokens@.len(), 45nat,
{
    broadcast use group_views;

    let ((cond_expr, then_block), rest) = match parse_guarded_block(tokens) {
        Ok(found) => found,
        Err(e) => return Err(e),
    };
    let (else_ifs, rest) = match parse_else_ifs(rest) {
        Ok(found) => found,
        Err(e) => return Err(e),
    };
    if is_at(rest, 0, &TokenValue::KW(Keyword::Else)) {
        match parse_block(skip(rest, 1)) {
            Ok((else_block, rest)) => {
                let statement = SugaredStatement::If(
                    cond_expr,
                    Box::new(then_block),
                    else_ifs,
                    Some(Box::new(else_block)),
                );
                proof {
                    lemma_statement_view(statement);
                }
                Ok((Some(statement), rest))
            },
            Err(e) => Err(e),
        }
    } else {
        let statement = SugaredStatement::If(cond_expr, Box::new(then_block), else_ifs, None);
        proof {
            lemma_statement_view(statement);
        }
        Ok((Some(statement), rest))
    }
}

/// Any number of `else if (` clauses.
fn parse_else_ifs<'a>(tokens: &'a [Token]) -> (r: Result<
    (Vec<(SugaredExpr, SugaredStatement)>, &'a [Token]),
    ParseError,
>)
    ensures
        parsed_clauses(r) == grammar::else_ifs(views(tokens@)),
        r matches Ok((_, rest)) ==> rest@.len() <= tokens@.len(),
    decreases tokens@.len(), 44nat,
{
    broadcast use group_views;

    if is_at(tokens, 0, &TokenValue::KW(Keyword::Else)) && is_at(
        tokens,
        1,
        &TokenValue::KW(Keyword::If),
    ) && is_at(tokens, 2, &TokenValue::LPAREN) {
        match parse_guarded_block(skip(tokens, 3)) {
            Ok((clause, rest)) => match parse_else_ifs(rest) {
                Ok((more, rest)) => {
                    let ghost first = (clause.0@, clause.1@);
                    let clauses = prepend(clause, more);
                    assert(clause_views(clauses@) =~= seq![first] + clause_views(more@));
                    Ok((clauses, rest))
                },
                Err(e) => Err(e),
            },
            Err(e) => Err(e),
        }
    } else {
        assert(clause_views(Seq::<(SugaredExpr, SugaredStatement)>::empty()) =~= Seq::empty());
        Ok((Vec::new(), tokens))
    }
}

/// A `while` statement after `while (`.
fn parse_while<'a>(tokens: &'a [Token]) -> (r: Result<
    (Option<SugaredStatement>, &'a [Token]),
    ParseError,
>)
    ensures
        parsed_option(r) == grammar::while_statement(views(tokens@)),
        advances(r, tokens),
    decreases tokens@.len(), 45nat,
{
    match parse_guarded_block(tokens) {
        Ok(((while_cond_expr, while_block), rest)) => Ok(
            (Some(SugaredStatement::While(while_cond_expr, Box::new(while_block))), rest),
        ),
        Err(e) => Err(e),
    }
}

/// A `for` statement after `for (`.
fn parse_for<'a>(tokens: &'a [Token]) -> (r: Result<
    (Option<SugaredStatement>, &'a [Token]),
    ParseError,
>)
    ensures
        parsed_option(r) == grammar::for_statement(views(tokens@)),
        advances(r, tokens),
    decreases tokens@.len(), 45nat,
{
    let (var_statement, rest) = match parse_statement(tokens, true) {
        Ok((Some(statement), rest)) => {
            if is_assignment_or_initialization(&statement) {
                (statement, rest)
            } else {
                return Err(ParseError::ExpectedAssignmentOrInitialization);
            }
        },
        Ok((None, _)) => return Err(ParseError::ExpectedStatement),
        Err(e) => return Err(e),
    };
    let (stop_cond_expr, rest) = match parse_expr(rest) {
        Ok(found) => found,
        Err(e) => return Err(e),
    };
    let rest = match consume_token(TokenValue::SEMICOLON, rest) {
        Ok(rest) => rest,
        Err(e) => return Err(e),
    };
    let (reassign_statement, rest) = match parse_statement(rest, false) {
        Ok((Some(statement), rest)) => {
            if is_assignment(&statement) {
                (statement, rest)
            } else {
                return Err(ParseError::ExpectedAssignment);
            }
        },
        Ok((None, _)) => return Err(ParseError::ExpectedStatement),
        Err(e) => return Err(e),
    };
    let rest = match consume_token(TokenValue::RPAREN, rest) {
        Ok(rest) => rest,
        Err(e) => return Err(e),
    };
    match parse_statement(rest, true) {
        Ok((Some(SugaredStatement::Block(for_block_statements)), rest)) => {
            proof {
                lemma_statement_view(SugaredStatement::Block(for_block_statements));
            }
            let statement = SugaredStatement::For(
                Box::new(var_statement),
                stop_cond_expr,
                Box::new(reassign_statement),
                for_block_statements,
            );
            proof {
                lemma_statement_view(statement);
            }
            Ok((Some(statement), rest))
        },
        Ok(_) => Err(ParseError::ExpectedBlock),
        Err(e) => Err(e),
    }
}

/// A top-level procedure, or nothing (and `tokens` as they are) where no procedure starts.
pub fn parse_proc<'a>(tokens: &'a [Token]) -> (r: Result<
    (Option<SugaredProcedure>, &'a [Token]),
    ParseError,
>)
    ensures
        parsed_option(r) == grammar::procedure(views(tokens@)),
        r matches Ok((found, rest)) ==> if found is Some {
            rest@.len() < tokens@.len()
        } else {
            rest@ == tokens@
        },
{
    broadcast use group_views;

    if is_at(tokens, 0, &TokenValue::KW(Keyword::Proc)) && is_at(tokens, 2, &TokenValue::LPAREN) {
        if let Some(kw) = keyword_at(tokens, 1) {
            return Err(ParseError::KeywordAsProc(kw.name()));
        }
        if let Some(name) = name_at(tokens, 1) {
            return match parse_params(skip(tokens, 3)) {
                Ok((params, rest)) => match parse_block(rest) {
                    Ok((body_block, rest)) => Ok(
                        (Some(SugaredProcedure { name, params, body: body_block }), rest),
                    ),
                    Err(e) => Err(e),
                },
                Err(e) => Err(e),
            };
        }
    }
    Ok((None, tokens))
}

/// Whether one of `procs` is named `name`.
#[verifier::loop_isolation(false)]
fn declares(procs: &Vec<SugaredProcedure>, name: &String) -> (r: bool)
    ensures
        r == grammar::declares(views(procs@), name@),
{
    broadcast use group_views;

    let mut i: usize = 0;
    while i < procs.len()
        invariant
            i <= procs.len(),
            forall|j: int| 0 <= j < i ==> procs@[j].name@ != name@,
        decreases procs.len() - i,
    {
        if procs[i].name == *name {
            assert(views(procs@)[i as int].name == name@);
            return true;
        }
        i += 1;
    }
    false
}

/// Procedures as long as one starts, no two of them with the same name.
pub fn parse_procs<'a>(tokens: &'a [Token]) -> (r: Result<
    (Vec<SugaredProcedure>, &'a [Token]),
    ParseError,
>)
    ensures
        parsed_list(r) == grammar::procedures(views(tokens@)),
        r matches Ok((_, rest)) ==> rest@.len() <= tokens@.len(),
    decreases tokens@.len(),
{
    broadcast use group_views;

    match parse_proc(tokens) {
        Ok((Some(proc), rest)) => match parse_procs(rest) {
            Ok((rest_procs, rest)) => {
                if declares(&rest_procs, &proc.name) {
                    Err(ParseError::MultipleSameNamedProcs(proc.name))
                } else {
                    Ok((prepend(proc, rest_procs), rest))
                }
            },
            Err(e) => Err(e),
        },
        Ok((None, rest)) => Ok((Vec::new(), rest)),
        Err(e) => Err(e),
    }
}

/// The program of the core language that a token sequence stands for:
/// the program that the tokens are, rewritten.
pub open spec fn program(ts: Seq<TokenModel>) -> Result<CoreProgram, ParseErrorModel> {
    match grammar::program(ts) {
        Ok(p) => Ok(desugar_prog(p)),
        Err(e) => Err(e),
    }
}

/// The view of the result of parsing a program as it is written.
pub open spec fn sugared_program_view(r: Result<SugaredProgram, ParseError>) -> Result<
    SurfaceProgram,
    ParseErrorModel,
> {
    match r {
        Ok(p) => Ok(p@),
        Err(e) => Err(e@),
    }
}

/// The view of the result of parsing a program.
pub open spec fn program_view(r: Result<Program, ParseError>) -> Result<
    CoreProgram,
    ParseErrorModel,
> {
    match r {
        Ok(p) => Ok(p@),
        Err(e) => Err(e@),
    }
}

/// A procedure that stands for none: it takes the place of one that is moved out of a list.
fn no_procedure() -> (r: SugaredProcedure)
    ensures
        r@ == (SurfaceProcedure {
            name: Seq::empty(),
            params: Seq::empty(),
            body: SurfaceStatement::Break,
        }),
{
    broadcast use group_views;

    SugaredProcedure { name: String::new(), params: Vec::new(), body: SugaredStatement::Break }
}

/// Parses a program from a list of tokens: procedures from the first token
/// to the last, no two with the same name, one of them `main`.
#[verifier::loop_isolation(false)]
pub fn parse_sugared_program(tokens: &[Token]) -> (r: Result<SugaredProgram, ParseError>)
    ensures
        sugared_program_view(r) == grammar::program(views(tokens@)),
        r matches Ok(p) ==> grammar::well_formed(p@),
{
    broadcast use group_views;

    proof {
        grammar::lemma_program_is_well_formed(views(tokens@));
    }

    let (procedures, rest) = match parse_procs(tokens) {
        Ok(found) => found,
        Err(e) => return Err(e),
    };
    if rest.len() > 0 {
        return Err(unexpected_token(rest));  // extra tokens
    }
    let ghost all = views(procedures@);
    let mut procedures = procedures;
    let main_name = String::from_str("main");
    let mut procs: Vec<SugaredProcedure> = Vec::new();
    let mut main: Option<SugaredProcedure> = None;
    let mut i: usize = 0;
    proof {
        reveal(Seq::filter);
        assert(all.take(0) =~= Seq::empty());
    }
    while i < procedures.len()
        invariant
            i <= procedures.len(),
            procedures.len() == all.len(),
            forall|j: int| i <= j < procedures.len() ==> procedures[j]@ == all[j],
            main_name@ == "main"@,
            views(procs@) == grammar::others(all.take(i as int)),
            option_view(main) == grammar::main_of(all.take(i as int)),
        decreases procedures.len() - i,
    {
        let mut proc = no_procedure();
        core::mem::swap(&mut procedures[i], &mut proc);
        proof {
            reveal(Seq::filter);
            assert(all.take(i + 1).drop_last() =~= all.take(i as int));
            assert(all.take(i + 1).last() == proc@);
        }
        if proc.name == main_name {
            if main.is_none() {
                main = Some(proc);
            }
        } else {
            procs.push(proc);
        }
        i += 1;
    }
    assert(all.take(i as int) =~= all);
    match main {
        Some(main) => Ok(SugaredProgram { procedures: procs, main }),
        None => Err(ParseError::NoMain),
    }
}

/// Parses a program from a list of tokens and rewrites it into the core language.
pub fn parse_program(tokens: &[Token]) -> (r: Result<Program, ParseError>)
    ensures
        program_view(r) == program(views(tokens@)),
{
    match parse_sugared_program(tokens) {
        Ok(sugared) => Ok(desugar_program(&sugared)),
        Err(e) => Err(e),
    }
}

/// Parsing is a function of what the tokens say: two runs of
/// [`parse_program`], on the same tokens or on tokens with the same views,
/// give programs with the same view, or failures with the same view. And it
/// is total: every list of tokens may be given to it.
pub proof fn lemma_parse_program_is_a_function(
    first: &[Token],
    second: &[Token],
    first_result: Result<Program, ParseError>,
    second_result: Result<Program, ParseError>,
)
    requires
        views(first@) == views(second@),
        call_ensures(parse_program, (first,), first_result),
        call_ensures(parse_program, (second,), second_result),
    ensures
        program_view(first_result) == program_view(second_result),
        call_requires(parse_program, (first,)),
{
}

} // verus!
