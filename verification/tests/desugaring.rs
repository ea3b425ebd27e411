use linger::desugar::{
    copy_expr, copy_exprs, copy_statement, copy_statements, desugar_body_statement,
    desugar_expression, desugar_expression_list, desugar_procedure, desugar_program,
    desugar_statement, desugar_statement_list, desugar_statements, Expr, Procedure, Statement,
};
use linger::error::ParseError;
use linger::lists::copy_strings;
use linger::parser::{
    parse_expr, parse_program, parse_statement, parse_sugared_program, Builtin, Program,
    SugaredExpr, SugaredProcedure, SugaredProgram, SugaredStatement,
};
use linger::tokenizer::{tokenize, Operator, Token, TokenValue};

fn surface_statement(source: &str) -> SugaredStatement {
    let ts = tokenize(source).unwrap();
    let (s, rest) = parse_statement(&ts, true).unwrap();
    assert!(rest.is_empty());
    s.unwrap()
}

fn core_statement(source: &str) -> Statement {
    desugar_statement(&surface_statement(source))
}

fn core_expr(source: &str) -> Expr {
    let ts = tokenize(source).unwrap();
    let (e, rest) = parse_expr(&ts).unwrap();
    assert!(rest.is_empty());
    desugar_expression(&e)
}

fn program_of(source: &str) -> Result<Program, ParseError> {
    parse_program(&tokenize(source).unwrap())
}

fn var(name: &str) -> Expr {
    Expr::Var(name.to_string())
}

fn bin(op: Operator, l: Expr, r: Expr) -> Expr {
    Expr::Binary(op, Box::new(l), Box::new(r))
}

fn assign(name: &str, e: Expr) -> Statement {
    Statement::Assign(name.to_string(), e)
}

fn if_(c: Expr, t: Statement, e: Option<Statement>) -> Statement {
    Statement::If(c, Box::new(t), e.map(Box::new))
}

#[test]
fn a_for_loop_becomes_a_block_with_a_while_loop() {
    assert_eq!(
        core_statement("for (let i = 0; i < 3; i = i + 1) { print(i); f(); }"),
        Statement::Block(vec![
            Statement::Let("i".to_string(), Expr::Num(0)),
            Statement::While(
                bin(Operator::LT, var("i"), Expr::Num(3)),
                Box::new(Statement::Block(vec![
                    Statement::Expr(Expr::PrimitiveCall(Builtin::Print, vec![var("i")])),
                    Statement::Expr(Expr::Call(Box::new(var("f")), vec![])),
                    assign("i", bin(Operator::Plus, var("i"), Expr::Num(1))),
                ]))
            ),
        ])
    );
}

#[test]
fn a_for_loop_without_a_body_keeps_its_step() {
    assert_eq!(
        core_statement("for (i = 0; c; i++) { }"),
        Statement::Block(vec![
            assign("i", Expr::Num(0)),
            Statement::While(
                var("c"),
                Box::new(Statement::Block(vec![Statement::Expr(Expr::Unary(
                    Operator::PostIncrement,
                    Box::new(var("i"))
                ))]))
            ),
        ])
    );
}

#[test]
fn a_for_loop_is_what_the_while_loop_written_out_is() {
    let with_for = core_statement("for (let i = 0; i < n; i = i + 1) { s = s + i; }");
    let init = core_statement("let i = 0;");
    let written = core_statement("while (i < n) { s = s + i; i = i + 1; }");
    assert_eq!(with_for, Statement::Block(vec![init, written]));
}

#[test]
fn nested_for_loops() {
    let inner = Statement::Block(vec![
        Statement::Let("j".to_string(), Expr::Num(0)),
        Statement::While(
            var("b"),
            Box::new(Statement::Block(vec![Statement::Break, assign("j", Expr::Num(1))])),
        ),
    ]);
    assert_eq!(
        core_statement("for (let i = 0; a; i = 1) { for (let j = 0; b; j = 1) { break; } }"),
        Statement::Block(vec![
            Statement::Let("i".to_string(), Expr::Num(0)),
            Statement::While(
                var("a"),
                Box::new(Statement::Block(vec![inner, assign("i", Expr::Num(1))]))
            ),
        ])
    );
}

#[test]
fn an_if_without_else_if_keeps_its_form() {
    assert_eq!(
        core_statement("if (c) { x = 1; }"),
        if_(var("c"), Statement::Block(vec![assign("x", Expr::Num(1))]), None)
    );
    assert_eq!(
        core_statement("if (c) { } else { x = 2; }"),
        if_(
            var("c"),
            Statement::Block(vec![]),
            Some(Statement::Block(vec![assign("x", Expr::Num(2))]))
        )
    );
}

#[test]
fn else_ifs_become_nested_ifs() {
    let a = Statement::Block(vec![assign("x", Expr::Num(1))]);
    let b = Statement::Block(vec![assign("x", Expr::Num(2))]);
    let c = Statement::Block(vec![assign("x", Expr::Num(3))]);
    assert_eq!(
        core_statement("if (c1) { x = 1; } else if (c2) { x = 2; } else { x = 3; }"),
        if_(var("c1"), a, Some(if_(var("c2"), b, Some(c))))
    );
}

#[test]
fn three_else_ifs_without_else() {
    let block = |n: i64| Statement::Block(vec![Statement::Expr(Expr::Num(n))]);
    assert_eq!(
        core_statement("if (a) { 0; } else if (b) { 1; } else if (c) { 2; } else if (d) { 3; }"),
        if_(
            var("a"),
            block(0),
            Some(if_(
                var("b"),
                block(1),
                Some(if_(var("c"), block(2), Some(if_(var("d"), block(3), None))))
            ))
        )
    );
}

#[test]
fn other_statements_keep_their_form() {
    assert_eq!(core_statement("let x = 1;"), Statement::Let("x".to_string(), Expr::Num(1)));
    assert_eq!(core_statement("x = y;"), assign("x", var("y")));
    assert_eq!(core_statement("f;"), Statement::Expr(var("f")));
    assert_eq!(core_statement("return;"), Statement::Return(None));
    assert_eq!(core_statement("return 1;"), Statement::Return(Some(Expr::Num(1))));
    assert_eq!(core_statement("break;"), Statement::Break);
    assert_eq!(core_statement("continue;"), Statement::Continue);
    assert_eq!(
        core_statement("while (c) { break; }"),
        Statement::While(var("c"), Box::new(Statement::Block(vec![Statement::Break])))
    );
    assert_eq!(
        core_statement("{ { } x; }"),
        Statement::Block(vec![Statement::Block(vec![]), Statement::Expr(var("x"))])
    );
}

#[test]
fn expressions_keep_their_form() {
    assert_eq!(core_expr("1"), Expr::Num(1));
    assert_eq!(core_expr("true"), Expr::Bool(true));
    assert_eq!(core_expr("\"s\""), Expr::Str("s".to_string()));
    assert_eq!(core_expr("x"), var("x"));
    assert_eq!(core_expr("-x"), Expr::Unary(Operator::Minus, Box::new(var("x"))));
    assert_eq!(
        core_expr("a * b == c"),
        bin(Operator::Eq, bin(Operator::Times, var("a"), var("b")), var("c"))
    );
    assert_eq!(
        core_expr("f(1, g())"),
        Expr::Call(
            Box::new(var("f")),
            vec![Expr::Num(1), Expr::Call(Box::new(var("g")), vec![])]
        )
    );
    assert_eq!(
        core_expr("print(x, 2)"),
        Expr::PrimitiveCall(Builtin::Print, vec![var("x"), Expr::Num(2)])
    );
}

#[test]
fn the_body_of_a_lambda_becomes_a_list_of_statements() {
    assert_eq!(
        core_expr("(x) -> x + 1"),
        Expr::Lambda(
            vec!["x".to_string()],
            vec![Statement::Expr(bin(Operator::Plus, var("x"), Expr::Num(1)))]
        )
    );
    assert_eq!(
        core_expr("(x, y) -> { let z = x; return z; }"),
        Expr::Lambda(
            vec!["x".to_string(), "y".to_string()],
            vec![Statement::Let("z".to_string(), var("x")), Statement::Return(Some(var("z")))]
        )
    );
    assert_eq!(core_expr("() -> { }"), Expr::Lambda(vec![], vec![]));
}

#[test]
fn sugar_inside_a_lambda_is_rewritten_too() {
    assert_eq!(
        core_expr("() -> { for (i = 0; c; i = 1) { } }"),
        Expr::Lambda(
            vec![],
            vec![Statement::Block(vec![
                assign("i", Expr::Num(0)),
                Statement::While(
                    var("c"),
                    Box::new(Statement::Block(vec![assign("i", Expr::Num(1))]))
                ),
            ])]
        )
    );
}

#[test]
fn lists_are_rewritten_in_order() {
    let statements = vec![surface_statement("a;"), surface_statement("for (i = 0; c; i = 1) { }")];
    let by_reference = desugar_statement_list(&statements);
    assert_eq!(by_reference.len(), 2);
    assert_eq!(by_reference[0], Statement::Expr(var("a")));
    assert_eq!(by_reference[1], core_statement("for (i = 0; c; i = 1) { }"));
    assert_eq!(desugar_statements(statements), by_reference);
    assert_eq!(desugar_statements(vec![]), Vec::<Statement>::new());
    let exprs = vec![SugaredExpr::Num(1), SugaredExpr::Var("x".to_string())];
    assert_eq!(desugar_expression_list(&exprs), vec![Expr::Num(1), var("x")]);
}

#[test]
fn a_body_that_is_no_block_is_one_statement() {
    assert_eq!(
        desugar_body_statement(&SugaredStatement::Break),
        vec![Statement::Break]
    );
    assert_eq!(
        desugar_body_statement(&SugaredStatement::Block(vec![
            SugaredStatement::Break,
            SugaredStatement::Continue
        ])),
        vec![Statement::Break, Statement::Continue]
    );
}

#[test]
fn a_procedure_is_rewritten_with_its_body() {
    let procedure = SugaredProcedure {
        name: "f".to_string(),
        params: vec!["a".to_string()],
        body: surface_statement("{ return a; }"),
    };
    assert_eq!(
        desugar_procedure(&procedure),
        Procedure {
            name: "f".to_string(),
            params: vec!["a".to_string()],
            body: vec![Statement::Return(Some(var("a")))],
        }
    );
}

#[test]
fn a_program_holds_main_apart_from_the_other_procedures() {
    let program =
        program_of("proc a(x) { return x; } proc main() { a(1); } proc b() { }").unwrap();
    assert_eq!(
        program,
        Program {
            procedures: vec![
                Procedure {
                    name: "a".to_string(),
                    params: vec!["x".to_string()],
                    body: vec![Statement::Return(Some(var("x")))],
                },
                Procedure { name: "b".to_string(), params: vec![], body: vec![] },
            ],
            main: vec![Statement::Expr(Expr::Call(Box::new(var("a")), vec![Expr::Num(1)]))],
        }
    );
}

#[test]
fn a_program_of_main_alone() {
    assert_eq!(
        program_of("proc main() { }"),
        Ok(Program { procedures: vec![], main: vec![] })
    );
}

#[test]
fn a_program_needs_a_main() {
    assert_eq!(program_of(""), Err(ParseError::NoMain));
    assert_eq!(program_of("proc a() { } proc Main() { }"), Err(ParseError::NoMain));
}

#[test]
fn two_mains_are_two_procedures_of_one_name() {
    assert_eq!(
        program_of("proc main() { } proc main() { }"),
        Err(ParseError::MultipleSameNamedProcs("main".to_string()))
    );
}

#[test]
fn nothing_may_follow_the_procedures() {
    assert_eq!(
        program_of("proc main() { } let x = 1;"),
        Err(ParseError::UnexpectedToken(Token(
            TokenValue::KW(linger::tokenizer::Keyword::Let),
            1,
            17
        )))
    );
    assert_eq!(
        program_of("proc main() { } }"),
        Err(ParseError::UnexpectedToken(Token(TokenValue::RBRACKET, 1, 17)))
    );
    assert_eq!(
        program_of("x proc main() { }"),
        Err(ParseError::UnexpectedToken(Token(TokenValue::ID("x".to_string()), 1, 1)))
    );
}

#[test]
fn what_follows_the_procedures_is_reported_with_its_place() {
    match program_of("proc main() { }\n  let x = 1;") {
        Err(ParseError::UnexpectedToken(t)) => {
            assert_eq!((t.0, t.1, t.2), (TokenValue::KW(linger::tokenizer::Keyword::Let), 2, 3))
        }
        other => panic!("{:?}", other),
    }
}

#[test]
fn a_failure_in_a_procedure_is_the_failure_of_the_program() {
    assert_eq!(
        program_of("proc main() { let x = ; }"),
        Err(ParseError::UnexpectedToken(Token(TokenValue::SEMICOLON, 1, 23)))
    );
    assert_eq!(program_of("proc main() {"), Err(ParseError::UnexpectedEOF));
    assert_eq!(
        program_of("proc main() { } proc for() { }"),
        Err(ParseError::KeywordAsProc("for".to_string()))
    );
}

#[test]
fn parsing_twice_gives_the_same_program() {
    let source = "proc f(a) { if (a) { return 1; } else if (!a) { return 2; } }
                  proc main() { for (let i = 0; i < 2; i++) { print(f(i == 0)); } }";
    assert_eq!(program_of(source), program_of(source));
    let again = tokenize(&source.to_string()).unwrap();
    assert_eq!(program_of(source), parse_program(&again));
}

#[test]
fn positions_of_tokens_do_not_change_the_program() {
    let spread = "proc main()\n{\n    return 1\n    + 2;\n}\n";
    let tight = "proc main(){return 1+2;}";
    assert_eq!(program_of(spread), program_of(tight));
}

#[test]
fn copies_are_equal_to_what_they_copy() {
    let s = core_statement(
        "if (a) { for (let i = 0; i < f(1, \"s\"); i++) { g = (x) -> { return -x; }; } } else { while (true) { break; } }",
    );
    assert_eq!(copy_statement(&s), s);
    let list = vec![core_statement("return;"), core_statement("continue;"), copy_statement(&s)];
    assert_eq!(copy_statements(&list), list);
    let e = core_expr("print(f(1)(2), (a, b) -> a % b, !c || d)");
    assert_eq!(copy_expr(&e), e);
    let exprs = vec![Expr::Num(1), copy_expr(&e)];
    assert_eq!(copy_exprs(&exprs), exprs);
    let names = vec!["a".to_string(), "".to_string(), "é".to_string()];
    assert_eq!(copy_strings(&names), names);
}

#[test]
fn a_program_as_written_holds_main_apart() {
    let tokens = tokenize("proc a(x) { } proc main(y) { a(1); } proc b() { return; }").unwrap();
    let program = parse_sugared_program(&tokens).unwrap();
    assert_eq!(
        program,
        SugaredProgram {
            procedures: vec![
                SugaredProcedure {
                    name: "a".to_string(),
                    params: vec!["x".to_string()],
                    body: SugaredStatement::Block(vec![]),
                },
                SugaredProcedure {
                    name: "b".to_string(),
                    params: vec![],
                    body: SugaredStatement::Block(vec![SugaredStatement::Return(None)]),
                },
            ],
            main: SugaredProcedure {
                name: "main".to_string(),
                params: vec!["y".to_string()],
                body: SugaredStatement::Block(vec![SugaredStatement::Expr(SugaredExpr::Call(
                    Box::new(SugaredExpr::Var("a".to_string())),
                    vec![SugaredExpr::Num(1)]
                ))]),
            },
        }
    );
    assert_eq!(Ok(desugar_program(&program)), parse_program(&tokens));
}

#[test]
fn a_program_as_written_fails_as_the_rewritten_one_does() {
    for source in ["", "proc a() { }", "proc main() { } proc main() { }", "proc main() { } 1", "proc main( { }"] {
        let tokens = tokenize(source).unwrap();
        assert_eq!(
            parse_sugared_program(&tokens).unwrap_err(),
            parse_program(&tokens).unwrap_err()
        );
    }
    assert_eq!(parse_sugared_program(&[]).unwrap_err(), ParseError::NoMain);
}

#[test]
fn rewriting_a_program_rewrites_every_procedure() {
    let program = SugaredProgram {
        procedures: vec![SugaredProcedure {
            name: "f".to_string(),
            params: vec![],
            body: surface_statement("{ for (i = 0; c; i = 1) { } }"),
        }],
        main: SugaredProcedure {
            name: "main".to_string(),
            params: vec!["ignored".to_string()],
            body: surface_statement("{ if (a) { } else if (b) { } }"),
        },
    };
    assert_eq!(
        desugar_program(&program),
        Program {
            procedures: vec![Procedure {
                name: "f".to_string(),
                params: vec![],
                body: vec![core_statement("for (i = 0; c; i = 1) { }")],
            }],
            main: vec![core_statement("if (a) { } else if (b) { }")],
        }
    );
}
