//! The core language and the rewriting of the surface language into it.

use vstd::prelude::*;
use crate::lists::{copy_strings, group_views, views};
use crate::parser::{
    clause_views, lemma_expr_view, lemma_statement_view, Builtin, CoreProgram, Program,
    SugaredExpr, SugaredProcedure, SugaredProgram, SugaredStatement, SurfaceExpr,
    SurfaceProcedure, SurfaceProgram, SurfaceStatement,
};
use crate::tokenizer::Operator;

verus! {

/// A procedure of the core language.
#[derive(Debug, PartialEq, Eq)]
pub struct Procedure {
    pub name: String,
    pub params: Vec<String>,
    pub body: Vec<Statement>,
}

/// A statement of the core language: no `for`, and `if` with at most one alternative.
#[derive(Debug, PartialEq, Eq)]
pub enum Statement {
    Expr(Expr),
    Let(String, Expr),
    Assign(String, Expr),
    If(Expr, Box<Statement>, Option<Box<Statement>>),
    While(Expr, Box<Statement>),
    Block(Vec<Statement>),
    Return(Option<Expr>),
    Break,
    Continue,
}

/// An expression of the core language.
#[derive(Debug, Eq, PartialEq)]
pub enum Expr {
    Num(i64),
    Bool(bool),
    Str(String),
    Var(String),
    Binary(Operator, Box<Expr>, Box<Expr>),
    Unary(Operator, Box<Expr>),
    PrimitiveCall(Builtin, Vec<Expr>),
    Call(Box<Expr>, Vec<Expr>),
    Lambda(Vec<String>, Vec<Statement>),
}

/// Mathematical value of a [`Procedure`].
pub ghost struct CoreProcedure {
    pub name: Seq<char>,
    pub params: Seq<Seq<char>>,
    pub body: Seq<CoreStatement>,
}

/// Mathematical value of a [`Statement`].
pub ghost enum CoreStatement {
    Expr(CoreExpr),
    Let(Seq<char>, CoreExpr),
    Assign(Seq<char>, CoreExpr),
    If(CoreExpr, Box<CoreStatement>, Option<Box<CoreStatement>>),
    While(CoreExpr, Box<CoreStatement>),
    Block(Seq<CoreStatement>),
    Return(Option<CoreExpr>),
    Break,
    Continue,
}

/// Mathematical value of an [`Expr`].
pub ghost enum CoreExpr {
    Num(i64),
    Bool(bool),
    Str(Seq<char>),
    Var(Seq<char>),
    Binary(Operator, Box<CoreExpr>, Box<CoreExpr>),
    Unary(Operator, Box<CoreExpr>),
    PrimitiveCall(Builtin, Seq<CoreExpr>),
    Call(Box<CoreExpr>, Seq<CoreExpr>),
    Lambda(Seq<Seq<char>>, Seq<CoreStatement>),
}

impl Expr {
    /// The expression with text as character sequences and lists as sequences.
    pub open spec fn model(&self) -> CoreExpr
        decreases self,
    {
        match self {
            Expr::Num(n) => CoreExpr::Num(*n),
            Expr::Bool(b) => CoreExpr::Bool(*b),
            Expr::Str(s) => CoreExpr::Str(s@),
            Expr::Var(s) => CoreExpr::Var(s@),
            Expr::Binary(op, l, r) => CoreExpr::Binary(
                *op,
                Box::new(l.model()),
                Box::new(r.model()),
            ),
            Expr::Unary(op, e) => CoreExpr::Unary(*op, Box::new(e.model())),
            Expr::PrimitiveCall(b, args) => CoreExpr::PrimitiveCall(
                *b,
                Seq::new(
                    args.len() as nat,
                    |i: int|
                        if 0 <= i < args.len() {
                            args[i].model()
                        } else {
                            CoreExpr::Bool(false)
                        },
                ),
            ),
            Expr::Call(f, args) => CoreExpr::Call(
                Box::new(f.model()),
                Seq::new(
                    args.len() as nat,
                    |i: int|
                        if 0 <= i < args.len() {
                            args[i].model()
                        } else {
                            CoreExpr::Bool(false)
                        },
                ),
            ),
            Expr::Lambda(params, body) => CoreExpr::Lambda(
                views(params@),
                Seq::new(
                    body.len() as nat,
                    |i: int|
                        if 0 <= i < body.len() {
                            body[i].model()
                        } else {
                            CoreStatement::Break
                        },
                ),
            ),
        }
    }
}

impl Statement {
    /// The statement with text as character sequences and lists as sequences.
    pub open spec fn model(&self) -> CoreStatement
        decreases self,
    {
        match self {
            Statement::Expr(e) => CoreStatement::Expr(e.model()),
            Statement::Let(x, e) => CoreStatement::Let(x@, e.model()),
            Statement::Assign(x, e) => CoreStatement::Assign(x@, e.model()),
            Statement::If(c, t, e) => CoreStatement::If(
                c.model(),
                Box::new(t.model()),
                match e {
                    Some(s) => Some(Box::new(s.model())),
                    None => None,
                },
            ),
            Statement::While(c, b) => CoreStatement::While(c.model(), Box::new(b.model())),
            Statement::Block(stmts) => CoreStatement::Block(
                Seq::new(
                    stmts.len() as nat,
                    |i: int|
                        if 0 <= i < stmts.len() {
                            stmts[i].model()
                        } else {
                            CoreStatement::Break
                        },
                ),
            ),
            Statement::Return(e) => CoreStatement::Return(
                match e {
                    Some(e) => Some(e.model()),
                    None => None,
                },
            ),
            Statement::Break => CoreStatement::Break,
            Statement::Continue => CoreStatement::Continue,
        }
    }
}

impl View for Expr {
    type V = CoreExpr;

    open spec fn view(&self) -> CoreExpr {
        self.model()
    }
}

impl View for Statement {
    type V = CoreStatement;

    open spec fn view(&self) -> CoreStatement {
        self.model()
    }
}

impl View for Procedure {
    type V = CoreProcedure;

    open spec fn view(&self) -> CoreProcedure {
        CoreProcedure { name: self.name@, params: views(self.params@), body: views(self.body@) }
    }
}

/// The view of a node is built from the views of its parts.
pub proof fn lemma_core_expr_view(e: Expr)
    ensures
        e matches Expr::PrimitiveCall(b, args) ==> e@ == CoreExpr::PrimitiveCall(b, views(args@)),
        e matches Expr::Call(f, args) ==> e@ == CoreExpr::Call(Box::new(f@), views(args@)),
        e matches Expr::Lambda(params, body) ==> e@ == CoreExpr::Lambda(
            views(params@),
            views(body@),
        ),
{
    match e {
        Expr::PrimitiveCall(b, args) => {
            assert(e@->PrimitiveCall_1 =~= views(args@));
        },
        Expr::Call(f, args) => {
            assert(e@->Call_1 =~= views(args@));
        },
        Expr::Lambda(params, body) => {
            assert(e@->Lambda_1 =~= views(body@));
        },
        _ => {},
    }
}

/// The view of a node is built from the views of its parts.
pub proof fn lemma_core_statement_view(s: Statement)
    ensures
        s matches Statement::Block(stmts) ==> s@ == CoreStatement::Block(views(stmts@)),
{
    match s {
        Statement::Block(stmts) => {
            assert(s@->Block_0 =~= views(stmts@));
        },
        _ => {},
    }
}

/// The core expression that a surface expression stands for: the same
/// expression, with the body of each lambda rewritten.
pub open spec fn desugar_expr(e: SurfaceExpr) -> CoreExpr
    decreases e,
{
    match e {
        SurfaceExpr::Num(n) => CoreExpr::Num(n),
        SurfaceExpr::Bool(b) => CoreExpr::Bool(b),
        SurfaceExpr::Str(s) => CoreExpr::Str(s),
        SurfaceExpr::Var(x) => CoreExpr::Var(x),
        SurfaceExpr::Binary(op, l, r) => CoreExpr::Binary(
            op,
            Box::new(desugar_expr(*l)),
            Box::new(desugar_expr(*r)),
        ),
        SurfaceExpr::Unary(op, e) => CoreExpr::Unary(op, Box::new(desugar_expr(*e))),
        SurfaceExpr::PrimitiveCall(b, args) => CoreExpr::PrimitiveCall(b, desugar_exprs(args)),
        SurfaceExpr::Call(f, args) => CoreExpr::Call(
            Box::new(desugar_expr(*f)),
            desugar_exprs(args),
        ),
        SurfaceExpr::Lambda(params, body) => CoreExpr::Lambda(params, desugar_body(*body)),
    }
}

/// Each expression rewritten, in order.
pub open spec fn desugar_exprs(es: Seq<SurfaceExpr>) -> Seq<CoreExpr>
    decreases es,
{
    Seq::new(
        es.len(),
        |i: int|
            if 0 <= i < es.len() {
                desugar_expr(es[i])
            } else {
                CoreExpr::Bool(false)
            },
    )
}

/// The statements that the body of a lambda or of a procedure stands for:
/// those of the block if it is one, and the one statement otherwise.
pub open spec fn desugar_body(body: SurfaceStatement) -> Seq<CoreStatement>
    decreases body, 1nat,
{
    match body {
        SurfaceStatement::Block(stmts) => desugar_stmts(stmts),
        _ => seq![desugar_stmt(body)],
    }
}

/// Each statement rewritten, in order.
pub open spec fn desugar_stmts(stmts: Seq<SurfaceStatement>) -> Seq<CoreStatement>
    decreases stmts, 0nat,
{
    Seq::new(
        stmts.len(),
        |i: int|
            if 0 <= i < stmts.len() {
                desugar_stmt(stmts[i])
            } else {
                CoreStatement::Break
            },
    )
}

/// The alternative of an `if` whose `else if` clauses are `clauses` and whose
/// `else` block stands for `last`: the clauses nested from the last one
/// outward, each the alternative of the one before it.
pub open spec fn fold_else_ifs(
    clauses: Seq<(SurfaceExpr, SurfaceStatement)>,
    last: Option<CoreStatement>,
) -> Option<CoreStatement>
    decreases clauses, 0nat,
{
    if clauses.len() == 0 {
        last
    } else {
        Some(
            CoreStatement::If(
                desugar_expr(clauses[0].0),
                Box::new(desugar_stmt(clauses[0].1)),
                match fold_else_ifs(clauses.skip(1), last) {
                    Some(s) => Some(Box::new(s)),
                    None => None,
                },
            ),
        )
    }
}

/// The core statement that a surface statement stands for.
///
/// A `for` loop becomes a block of its first clause and a `while` loop
/// whose body is the loop's body followed by its step. An `if` with
/// `else if` clauses becomes nested two-way `if`s. Every other statement
/// keeps its form, with its parts rewritten.
pub open spec fn desugar_stmt(s: SurfaceStatement) -> CoreStatement
    decreases s, 0nat,
{
    match s {
        SurfaceStatement::Expr(e) => CoreStatement::Expr(desugar_expr(e)),
        SurfaceStatement::Let(x, e) => CoreStatement::Let(x, desugar_expr(e)),
        SurfaceStatement::Assign(x, e) => CoreStatement::Assign(x, desugar_expr(e)),
        SurfaceStatement::Block(stmts) => CoreStatement::Block(desugar_stmts(stmts)),
        SurfaceStatement::If(c, t, clauses, e) => CoreStatement::If(
            desugar_expr(c),
            Box::new(desugar_stmt(*t)),
            match fold_else_ifs(
                clauses,
                match e {
                    Some(b) => Some(desugar_stmt(*b)),
                    None => None,
                },
            ) {
                Some(s) => Some(Box::new(s)),
                None => None,
            },
        ),
        SurfaceStatement::While(c, b) => CoreStatement::While(
            desugar_expr(c),
            Box::new(desugar_stmt(*b)),
        ),
        SurfaceStatement::For(init, c, step, body) => CoreStatement::Block(
            seq![
                desugar_stmt(*init),
                CoreStatement::While(
                    desugar_expr(c),
                    Box::new(CoreStatement::Block(desugar_stmts(body).push(desugar_stmt(*step)))),
                ),
            ],
        ),
        SurfaceStatement::Break => CoreStatement::Break,
        SurfaceStatement::Continue => CoreStatement::Continue,
        SurfaceStatement::Return(e) => CoreStatement::Return(
            match e {
                Some(e) => Some(desugar_expr(e)),
                None => None,
            },
        ),
    }
}

/// The core procedure that a surface procedure stands for.
pub open spec fn desugar_proc(p: SurfaceProcedure) -> CoreProcedure {
    CoreProcedure { name: p.name, params: p.params, body: desugar_body(p.body) }
}

/// The core program that a surface program stands for: its procedures
/// rewritten, in order, and the rewritten body of `main`.
pub open spec fn desugar_prog(p: SurfaceProgram) -> CoreProgram {
    CoreProgram {
        procedures: p.procedures.map_values(|q: SurfaceProcedure| desugar_proc(q)),
        main: desugar_body(p.main.body),
    }
}

/// Rewrites a list of surface statements into core statements, in order.
pub fn desugar_statements(sugared_statements: Vec<SugaredStatement>) -> (r: Vec<Statement>)
    ensures
        views(r@) == desugar_stmts(views(sugared_statements@)),
{
    desugar_statement_list(&sugared_statements)
}

/// Rewrites a list of surface statements into core statements, in order.
#[verifier::loop_isolation(false)]
pub fn desugar_statement_list(sugared_statements: &Vec<SugaredStatement>) -> (r: Vec<Statement>)
    ensures
        views(r@) == desugar_stmts(views(sugared_statements@)),
    decreases sugared_statements, 0nat,
{
    broadcast use group_views;

    let mut out: Vec<Statement> = Vec::new();
    let mut i: usize = 0;
    while i < sugared_statements.len()
        invariant
            i <= sugared_statements.len(),
            out.len() == i,
            forall|j: int| 0 <= j < i ==> out[j]@ == desugar_stmt(sugared_statements[j]@),
        decreases sugared_statements.len() - i,
    {
        out.push(desugar_statement(&sugared_statements[i]));
        i += 1;
    }
    assert(views(out@) =~= desugar_stmts(views(sugared_statements@)));
    out
}

/// Rewrites a list of surface expressions into core expressions, in order.
#[verifier::loop_isolation(false)]
pub fn desugar_expression_list(sugared_exprs: &Vec<SugaredExpr>) -> (r: Vec<Expr>)
    ensures
        views(r@) == desugar_exprs(views(sugared_exprs@)),
    decreases sugared_exprs, 0nat,
{
    broadcast use group_views;

    let mut out: Vec<Expr> = Vec::new();
    let mut i: usize = 0;
    while i < sugared_exprs.len()
        invariant
            i <= sugared_exprs.len(),
            out.len() == i,
            forall|j: int| 0 <= j < i ==> out[j]@ == desugar_expr(sugared_exprs[j]@),
        decreases sugared_exprs.len() - i,
    {
        out.push(desugar_expression(&sugared_exprs[i]));
        i += 1;
    }
    assert(views(out@) =~= desugar_exprs(views(sugared_exprs@)));
    out
}

/// Rewrites the body of a lambda or of a procedure into a list of core statements.
pub fn desugar_body_statement(sugared_body: &SugaredStatement) -> (r: Vec<Statement>)
    ensures
        views(r@) == desugar_body(sugared_body@),
    decreases sugared_body, 1nat,
{
    broadcast use group_views;

    proof {
        lemma_statement_view(*sugared_body);
    }
    match sugared_body {
        SugaredStatement::Block(sugared_statements) => desugar_statement_list(sugared_statements),
        _ => {
            let r = vec![desugar_statement(sugared_body)];
            assert(views(r@) =~= seq![desugar_stmt(sugared_body@)]);
            r
        },
    }
}

/// Rewrites a surface statement into the core statement that it stands for.
#[verifier::loop_isolation(false)]
pub fn desugar_statement(sugared_statement: &SugaredStatement) -> (r: Statement)
    ensures
        r@ == desugar_stmt(sugared_statement@),
    decreases sugared_statement, 0nat,
{
    broadcast use group_views;

    proof {
        lemma_statement_view(*sugared_statement);
    }
    match sugared_statement {
        SugaredStatement::Expr(sugared_expr) => Statement::Expr(desugar_expression(sugared_expr)),
        SugaredStatement::Let(name, sugared_expr) => Statement::Let(
            name.clone(),
            desugar_expression(sugared_expr),
        ),
        SugaredStatement::Assign(name, sugared_expr) => Statement::Assign(
            name.clone(),
            desugar_expression(sugared_expr),
        ),
        SugaredStatement::If(if_cond, then_block, else_ifs, else_option) => {
            let desugared_else_option = match else_option {
                Some(else_block) => Some(desugar_statement(else_block)),
                None => None,
            };
            let ghost clauses = clause_views(else_ifs@);
            let ghost last = option_model(desugared_else_option);
            let mut nested_else_ifs = desugared_else_option;
            let mut i: usize = else_ifs.len();
            while i > 0
                invariant
                    i <= else_ifs.len(),
                    option_model(nested_else_ifs) == fold_else_ifs(clauses.skip(i as int), last),
                decreases i,
            {
                i -= 1;
                let clause = &else_ifs[i];
                let cond = desugar_expression(&clause.0);
                let block = desugar_statement(&clause.1);
                assert(clauses.skip(i as int).skip(1) =~= clauses.skip(i + 1));
                nested_else_ifs =
                Some(
                    Statement::If(
                        cond,
                        Box::new(block),
                        match nested_else_ifs {
                            Some(acc) => Some(Box::new(acc)),
                            None => None,
                        },
                    ),
                );
            }
            assert(clauses.skip(0) =~= clauses);
            Statement::If(
                desugar_expression(if_cond),
                Box::new(desugar_statement(then_block)),
                match nested_else_ifs {
                    Some(statement) => Some(Box::new(statement)),
                    None => None,
                },
            )
        },
        SugaredStatement::Return(sugared_expr_option) => Statement::Return(
            match sugared_expr_option {
                Some(sugared_expr) => Some(desugar_expression(sugared_expr)),
                None => None,
            },
        ),
        SugaredStatement::While(sugared_while_cond, sugared_while_body) => Statement::While(
            desugar_expression(sugared_while_cond),
            Box::new(desugar_statement(sugared_while_body)),
        ),
        SugaredStatement::For(
            sugared_var_statement,
            sugared_stop_cond,
            sugared_reassign_statement,
            sugared_for_block_statements,
        ) => {
            let desugared_var_statement = desugar_statement(sugared_var_statement);
            let desugared_stop_cond = desugar_expression(sugared_stop_cond);
            let desugared_reassign_statement = desugar_statement(sugared_reassign_statement);
            let mut while_block_statements = desugar_statement_list(sugared_for_block_statements);
            while_block_statements.push(desugared_reassign_statement);
            let while_block = Statement::Block(while_block_statements);
            proof {
                lemma_core_statement_view(while_block);
            }
            let while_statement = Statement::While(desugared_stop_cond, Box::new(while_block));
            let statements = vec![desugared_var_statement, while_statement];
            let block = Statement::Block(statements);
            proof {
                lemma_core_statement_view(block);
                assert(views(statements@) =~= seq![statements[0]@, statements[1]@]);
            }
            block
        },
        SugaredStatement::Break => Statement::Break,
        SugaredStatement::Continue => Statement::Continue,
        SugaredStatement::Block(sugared_statements) => {
            let block = Statement::Block(desugar_statement_list(sugared_statements));
            proof {
                lemma_core_statement_view(block);
            }
            block
        },
    }
}

/// The view of an optional statement.
pub open spec fn option_model(s: Option<Statement>) -> Option<CoreStatement> {
    match s {
        Some(s) => Some(s@),
        None => None,
    }
}

/// Rewrites a surface expression into the core expression that it stands for.
pub fn desugar_expression(sugared_expr: &SugaredExpr) -> (r: Expr)
    ensures
        r@ == desugar_expr(sugared_expr@),
    decreases sugared_expr, 0nat,
{
    proof {
        lemma_expr_view(*sugared_expr);
    }
    match sugared_expr {
        SugaredExpr::Num(n) => Expr::Num(*n),
        SugaredExpr::Bool(b) => Expr::Bool(*b),
        SugaredExpr::Str(s) => Expr::Str(s.clone()),
        SugaredExpr::Var(id) => Expr::Var(id.clone()),
        SugaredExpr::Binary(op, left_sugared_expr, right_sugared_expr) => Expr::Binary(
            *op,
            Box::new(desugar_expression(left_sugared_expr)),
            Box::new(desugar_expression(right_sugared_expr)),
        ),
        SugaredExpr::Unary(op, expr) => Expr::Unary(*op, Box::new(desugar_expression(expr))),
        SugaredExpr::PrimitiveCall(name, sugared_args) => {
            let call = Expr::PrimitiveCall(*name, desugar_expression_list(sugared_args));
            proof {
                lemma_core_expr_view(call);
            }
            call
        },
        SugaredExpr::Call(sugared_proc_expr, sugared_args) => {
            let call = Expr::Call(
                Box::new(desugar_expression(sugared_proc_expr)),
                desugar_expression_list(sugared_args),
            );
            proof {
                lemma_core_expr_view(call);
            }
            call
        },
        SugaredExpr::Lambda(params, sugared_body) => {
            let lambda = Expr::Lambda(copy_strings(params), desugar_body_statement(sugared_body));
            proof {
                lemma_core_expr_view(lambda);
            }
            lambda
        },
    }
}

/// Rewrites a surface procedure into the core procedure that it stands for.
pub fn desugar_procedure(proc: &SugaredProcedure) -> (r: Procedure)
    ensures
        r@ == desugar_proc(proc@),
{
    Procedure {
        name: proc.name.clone(),
        params: copy_strings(&proc.params),
        body: desugar_body_statement(&proc.body),
    }
}

/// Rewrites a program as it is written into the core language.
#[verifier::loop_isolation(false)]
pub fn desugar_program(program: &SugaredProgram) -> (r: Program)
    ensures
        r@ == desugar_prog(program@),
{
    broadcast use group_views;

    let mut procedures: Vec<Procedure> = Vec::new();
    let mut i: usize = 0;
    while i < program.procedures.len()
        invariant
            i <= program.procedures.len(),
            procedures.len() == i,
            forall|j: int| 0 <= j < i ==> procedures[j]@ == desugar_proc(program.procedures[j]@),
        decreases program.procedures.len() - i,
    {
        procedures.push(desugar_procedure(&program.procedures[i]));
        i += 1;
    }
    assert(views(procedures@) =~= desugar_prog(program@).procedures);
    Program { procedures, main: desugar_body_statement(&program.main.body) }
}

/// A copy of the statements with the same views.
#[verifier::loop_isolation(false)]
pub fn copy_statements(statements: &Vec<Statement>) -> (r: Vec<Statement>)
    ensures
        views(r@) == views(statements@),
    decreases statements, 0nat,
{
    let mut out: Vec<Statement> = Vec::new();
    let mut i: usize = 0;
    while i < statements.len()
        invariant
            i <= statements.len(),
            out.len() == i,
            forall|j: int| 0 <= j < i ==> out[j]@ == statements[j]@,
        decreases statements.len() - i,
    {
        out.push(copy_statement(&statements[i]));
        i += 1;
    }
    assert(views(out@) =~= views(statements@));
    out
}

/// A copy of the expressions with the same views.
#[verifier::loop_isolation(false)]
pub fn copy_exprs(exprs: &Vec<Expr>) -> (r: Vec<Expr>)
    ensures
        views(r@) == views(exprs@),
    decreases exprs, 0nat,
{
    let mut out: Vec<Expr> = Vec::new();
    let mut i: usize = 0;
    while i < exprs.len()
        invariant
            i <= exprs.len(),
            out.len() == i,
            forall|j: int| 0 <= j < i ==> out[j]@ == exprs[j]@,
        decreases exprs.len() - i,
    {
        out.push(copy_expr(&exprs[i]));
        i += 1;
    }
    assert(views(out@) =~= views(exprs@));
    out
}

/// A copy of the statement with the same view.
pub fn copy_statement(statement: &Statement) -> (r: Statement)
    ensures
        r@ == statement@,
    decreases statement, 0nat,
{
    proof {
        lemma_core_statement_view(*statement);
    }
    match statement {
        Statement::Expr(e) => Statement::Expr(copy_expr(e)),
        Statement::Let(x, e) => Statement::Let(x.clone(), copy_expr(e)),
        Statement::Assign(x, e) => Statement::Assign(x.clone(), copy_expr(e)),
        Statement::If(c, t, e) => Statement::If(
            copy_expr(c),
            Box::new(copy_statement(t)),
            match e {
                Some(s) => Some(Box::new(copy_statement(s))),
                None => None,
            },
        ),
        Statement::While(c, b) => Statement::While(copy_expr(c), Box::new(copy_statement(b))),
        Statement::Block(stmts) => {
            let block = Statement::Block(copy_statements(stmts));
            proof {
                lemma_core_statement_view(block);
            }
            block
        },
        Statement::Return(e) => Statement::Return(
            match e {
                Some(e) => Some(copy_expr(e)),
                None => None,
            },
        ),
        Statement::Break => Statement::Break,
        Statement::Continue => Statement::Continue,
    }
}

/// A copy of the expression with the same view.
pub fn copy_expr(expr: &Expr) -> (r: Expr)
    ensures
        r@ == expr@,
    decreases expr, 0nat,
{
    proof {
        lemma_core_expr_view(*expr);
    }
    match expr {
        Expr::Num(n) => Expr::Num(*n),
        Expr::Bool(b) => Expr::Bool(*b),
        Expr::Str(s) => Expr::Str(s.clone()),
        Expr::Var(x) => Expr::Var(x.clone()),
        Expr::Binary(op, l, r) => Expr::Binary(*op, Box::new(copy_expr(l)), Box::new(copy_expr(r))),
        Expr::Unary(op, e) => Expr::Unary(*op, Box::new(copy_expr(e))),
        Expr::PrimitiveCall(b, args) => {
            let call = Expr::PrimitiveCall(*b, copy_exprs(args));
            proof {
                lemma_core_expr_view(call);
            }
            call
        },
        Expr::Call(f, args) => {
            let call = Expr::Call(Box::new(copy_expr(f)), copy_exprs(args));
            proof {
                lemma_core_expr_view(call);
            }
            call
        },
        Expr::Lambda(params, body) => {
            let lambda = Expr::Lambda(copy_strings(params), copy_statements(body));
            proof {
                lemma_core_expr_view(lambda);
            }
            lambda
        },
    }
}

/// Rewriting into the core language is total, and a function of what the
/// statements say: two runs of [`desugar_statements`] on statements with
/// the same views give statements with the same views.
pub proof fn lemma_desugar_is_a_function(
    first: Vec<SugaredStatement>,
    second: Vec<SugaredStatement>,
    first_result: Vec<Statement>,
    second_result: Vec<Statement>,
)
    requires
        views(first@) == views(second@),
        call_ensures(desugar_statements, (first,), first_result),
        call_ensures(desugar_statements, (second,), second_result),
    ensures
        views(first_result@) == views(second_result@),
        call_requires(desugar_statements, (first,)),
{
}

} // verus!
