use linger::error::ParseError;
use linger::grammar::Tier;
use linger::parser::{
    binary_expression, check_builtin, conditionally_consume_semicolon, consume_token,
    ensure_block, is_assignment, is_assignment_or_initialization, match_operator, parse_additive_expr,
    parse_args, parse_binary_expr, parse_call_expr, parse_equality_expr, parse_expr,
    parse_logical_and_expr, parse_logical_or_expr, parse_multiplicative_expr, parse_params,
    parse_proc, parse_procs, parse_relational_expr, parse_rest_args, parse_rest_params,
    parse_statement, parse_statements, parse_terminal_expr, parse_unary_expr, unexpected_token,
    Builtin, SugaredExpr, SugaredProcedure, SugaredStatement,
};
use linger::tokenizer::{tokenize, Keyword, Operator, Token, TokenValue};

fn tokens(source: &str) -> Vec<Token> {
    tokenize(source).unwrap()
}

fn num(n: i64) -> SugaredExpr {
    SugaredExpr::Num(n)
}

fn var(name: &str) -> SugaredExpr {
    SugaredExpr::Var(name.to_string())
}

fn bin(op: Operator, l: SugaredExpr, r: SugaredExpr) -> SugaredExpr {
    SugaredExpr::Binary(op, Box::new(l), Box::new(r))
}

fn un(op: Operator, e: SugaredExpr) -> SugaredExpr {
    SugaredExpr::Unary(op, Box::new(e))
}

fn call(f: SugaredExpr, args: Vec<SugaredExpr>) -> SugaredExpr {
    SugaredExpr::Call(Box::new(f), args)
}

fn lambda(params: &[&str], body: SugaredStatement) -> SugaredExpr {
    SugaredExpr::Lambda(params.iter().map(|p| p.to_string()).collect(), Box::new(body))
}

fn expr_of(source: &str) -> SugaredExpr {
    let ts = tokens(source);
    let (e, rest) = parse_expr(&ts).unwrap();
    assert!(rest.is_empty(), "left over: {:?}", rest);
    e
}

fn expr_error(source: &str) -> ParseError {
    let ts = tokens(source);
    parse_expr(&ts).unwrap_err()
}

fn statement_of(source: &str) -> SugaredStatement {
    let ts = tokens(source);
    let (s, rest) = parse_statement(&ts, true).unwrap();
    assert!(rest.is_empty(), "left over: {:?}", rest);
    s.unwrap()
}

fn statement_error(source: &str) -> ParseError {
    let ts = tokens(source);
    parse_statement(&ts, true).unwrap_err()
}

fn at(value: TokenValue, line: usize, column: usize) -> Token {
    Token(value, line, column)
}

#[test]
fn multiplication_binds_tighter_than_addition() {
    assert_eq!(
        expr_of("1 + 2 * 3"),
        bin(Operator::Plus, num(1), bin(Operator::Times, num(2), num(3)))
    );
}

#[test]
fn and_binds_tighter_than_or() {
    assert_eq!(
        expr_of("a || b && c"),
        bin(Operator::LogicOr, var("a"), bin(Operator::LogicAnd, var("b"), var("c")))
    );
}

#[test]
fn operators_of_one_tier_group_to_the_left() {
    assert_eq!(
        expr_of("1 - 2 + 3"),
        bin(Operator::Plus, bin(Operator::Minus, num(1), num(2)), num(3))
    );
    assert_eq!(
        expr_of("8 / 4 % 3 * 2"),
        bin(
            Operator::Times,
            bin(Operator::Mod, bin(Operator::Div, num(8), num(4)), num(3)),
            num(2)
        )
    );
    assert_eq!(
        expr_of("a < b >= c"),
        bin(Operator::GTE, bin(Operator::LT, var("a"), var("b")), var("c"))
    );
}

#[test]
fn all_tiers_in_one_expression() {
    // a || b && c == d < e + f * -g
    assert_eq!(
        expr_of("a || b && c == d < e + f * -g"),
        bin(
            Operator::LogicOr,
            var("a"),
            bin(
                Operator::LogicAnd,
                var("b"),
                bin(
                    Operator::Eq,
                    var("c"),
                    bin(
                        Operator::LT,
                        var("d"),
                        bin(
                            Operator::Plus,
                            var("e"),
                            bin(Operator::Times, var("f"), un(Operator::Minus, var("g")))
                        )
                    )
                )
            )
        )
    );
}

#[test]
fn parentheses_override_precedence() {
    assert_eq!(
        expr_of("(1 + 2) * 3"),
        bin(Operator::Times, bin(Operator::Plus, num(1), num(2)), num(3))
    );
}

#[test]
fn each_tier_parser_reads_its_own_operators() {
    let ts = tokens("a || b");
    assert_eq!(
        parse_logical_or_expr(&ts).unwrap().0,
        bin(Operator::LogicOr, var("a"), var("b"))
    );
    let (e, rest) = parse_logical_and_expr(&ts).unwrap();
    assert_eq!(e, var("a"));
    assert_eq!(rest.len(), 2);

    let ts = tokens("a == b && c");
    let (e, rest) = parse_equality_expr(&ts).unwrap();
    assert_eq!(e, bin(Operator::Eq, var("a"), var("b")));
    assert_eq!(rest.len(), 2);

    let ts = tokens("a <= b != c");
    let (e, rest) = parse_relational_expr(&ts).unwrap();
    assert_eq!(e, bin(Operator::LTE, var("a"), var("b")));
    assert_eq!(rest.len(), 2);

    let ts = tokens("a - b > c");
    let (e, rest) = parse_additive_expr(&ts).unwrap();
    assert_eq!(e, bin(Operator::Minus, var("a"), var("b")));
    assert_eq!(rest.len(), 2);

    let ts = tokens("a % b + c");
    let (e, rest) = parse_multiplicative_expr(&ts).unwrap();
    assert_eq!(e, bin(Operator::Mod, var("a"), var("b")));
    assert_eq!(rest.len(), 2);

    let ts = tokens("a * b + c");
    let (e, rest) = parse_binary_expr(Tier::Multiplicative, &ts).unwrap();
    assert_eq!(e, bin(Operator::Times, var("a"), var("b")));
    assert_eq!(rest.len(), 2);
    let (e, rest) = parse_binary_expr(Tier::Additive, &ts).unwrap();
    assert_eq!(e, bin(Operator::Plus, bin(Operator::Times, var("a"), var("b")), var("c")));
    assert!(rest.is_empty());
}

#[test]
fn tiers_from_loosest_to_tightest() {
    assert_eq!(Tier::Or.next_tighter(), Some(Tier::And));
    assert_eq!(Tier::And.next_tighter(), Some(Tier::Equality));
    assert_eq!(Tier::Equality.next_tighter(), Some(Tier::Relational));
    assert_eq!(Tier::Relational.next_tighter(), Some(Tier::Additive));
    assert_eq!(Tier::Additive.next_tighter(), Some(Tier::Multiplicative));
    assert_eq!(Tier::Multiplicative.next_tighter(), None);
    assert_eq!(Tier::Or.operator_list(), vec![Operator::LogicOr]);
    assert_eq!(Tier::And.operator_list(), vec![Operator::LogicAnd]);
    assert_eq!(Tier::Equality.operator_list(), vec![Operator::Eq, Operator::Ne]);
    assert_eq!(
        Tier::Relational.operator_list(),
        vec![Operator::LT, Operator::GT, Operator::LTE, Operator::GTE]
    );
    assert_eq!(Tier::Additive.operator_list(), vec![Operator::Plus, Operator::Minus]);
    assert_eq!(
        Tier::Multiplicative.operator_list(),
        vec![Operator::Times, Operator::Mod, Operator::Div]
    );
}

#[test]
fn prefix_operators_nest() {
    assert_eq!(
        expr_of("- ! - x"),
        un(Operator::Minus, un(Operator::LogicNot, un(Operator::Minus, var("x"))))
    );
    let ts = tokens("!x");
    assert_eq!(parse_unary_expr(&ts).unwrap().0, un(Operator::LogicNot, var("x")));
}

#[test]
fn minus_is_binary_between_operands_and_unary_before_one() {
    assert_eq!(
        expr_of("a - -b"),
        bin(Operator::Minus, var("a"), un(Operator::Minus, var("b")))
    );
}

#[test]
fn increments_and_decrements() {
    assert_eq!(expr_of("++x"), un(Operator::PreIncrement, var("x")));
    assert_eq!(expr_of("--x"), un(Operator::PreDecrement, var("x")));
    assert_eq!(expr_of("x++"), un(Operator::PostIncrement, var("x")));
    assert_eq!(expr_of("x--"), un(Operator::PostDecrement, var("x")));
    assert_eq!(expr_of("-x++"), un(Operator::Minus, un(Operator::PostIncrement, var("x"))));
}

#[test]
fn after_a_prefix_increment_no_postfix_is_read() {
    let ts = tokens("++x++");
    let (e, rest) = parse_expr(&ts).unwrap();
    assert_eq!(e, un(Operator::PreIncrement, var("x")));
    assert_eq!(rest.len(), 1);
    assert_eq!(rest[0].0, TokenValue::DOUBLE_PLUS);
}

#[test]
fn literals_and_variables() {
    assert_eq!(expr_of("42"), num(42));
    assert_eq!(expr_of("true"), SugaredExpr::Bool(true));
    assert_eq!(expr_of("false"), SugaredExpr::Bool(false));
    assert_eq!(expr_of("\"hi\""), SugaredExpr::Str("hi".to_string()));
    assert_eq!(expr_of("name"), var("name"));
    let ts = tokens("7 8");
    let (e, rest) = parse_terminal_expr(&ts).unwrap();
    assert_eq!(e, num(7));
    assert_eq!(rest.len(), 1);
}

#[test]
fn calls_and_calls_of_calls() {
    assert_eq!(expr_of("f()"), call(var("f"), vec![]));
    assert_eq!(expr_of("f(1, x)"), call(var("f"), vec![num(1), var("x")]));
    assert_eq!(expr_of("f(1)(2)"), call(call(var("f"), vec![num(1)]), vec![num(2)]));
    assert_eq!(
        expr_of("f(g(1), 2 + 3)"),
        call(var("f"), vec![call(var("g"), vec![num(1)]), bin(Operator::Plus, num(2), num(3))])
    );
    let ts = tokens("f(1) + 2");
    let (e, rest) = parse_call_expr(&ts).unwrap();
    assert_eq!(e, call(var("f"), vec![num(1)]));
    assert_eq!(rest.len(), 2);
}

#[test]
fn print_is_recognised_when_parsing() {
    assert_eq!(
        expr_of("print(1, \"a\")"),
        SugaredExpr::PrimitiveCall(Builtin::Print, vec![num(1), SugaredExpr::Str("a".to_string())])
    );
    assert_eq!(expr_of("print()"), SugaredExpr::PrimitiveCall(Builtin::Print, vec![]));
    // only the bare name is the builtin
    assert_eq!(expr_of("printer(1)"), call(var("printer"), vec![num(1)]));
    assert_eq!(
        expr_of("print(1)(2)"),
        call(SugaredExpr::PrimitiveCall(Builtin::Print, vec![num(1)]), vec![num(2)])
    );
    // without a call it is a variable like any other
    assert_eq!(expr_of("print"), var("print"));
}

#[test]
fn check_builtin_matches_the_bare_name_only() {
    assert_eq!(check_builtin(&var("print")), Some(Builtin::Print));
    assert_eq!(check_builtin(&var("Print")), None);
    assert_eq!(check_builtin(&var("prin")), None);
    assert_eq!(check_builtin(&SugaredExpr::Str("print".to_string())), None);
    assert_eq!(check_builtin(&call(var("print"), vec![])), None);
}

#[test]
fn lambdas() {
    assert_eq!(
        expr_of("() -> 1"),
        lambda(&[], SugaredStatement::Expr(num(1)))
    );
    assert_eq!(
        expr_of("(x) -> x + 1"),
        lambda(&["x"], SugaredStatement::Expr(bin(Operator::Plus, var("x"), num(1))))
    );
    assert_eq!(
        expr_of("(x, y) -> { return x; }"),
        lambda(
            &["x", "y"],
            SugaredStatement::Block(vec![SugaredStatement::Return(Some(var("x")))])
        )
    );
    assert_eq!(
        expr_of("(x) -> (y) -> x"),
        lambda(&["x"], SugaredStatement::Expr(lambda(&["y"], SugaredStatement::Expr(var("x")))))
    );
}

#[test]
fn the_body_of_a_lambda_takes_no_semicolon() {
    let ts = tokens("(x) -> x;");
    let (e, rest) = parse_expr(&ts).unwrap();
    assert_eq!(e, lambda(&["x"], SugaredStatement::Expr(var("x"))));
    assert_eq!(rest.len(), 1);
    assert_eq!(rest[0].0, TokenValue::SEMICOLON);
    // a `let` as a body leaves the semicolon alone too
    let ts = tokens("() -> let y = 1;");
    let (e, rest) = parse_expr(&ts).unwrap();
    assert_eq!(e, lambda(&[], SugaredStatement::Let("y".to_string(), num(1))));
    assert_eq!(rest.len(), 1);
}

#[test]
fn a_lambda_in_parentheses_can_be_called_at_once() {
    assert_eq!(
        expr_of("((x) -> x)(5)"),
        call(lambda(&["x"], SugaredStatement::Expr(var("x"))), vec![num(5)])
    );
}

#[test]
fn a_lambda_body_that_is_an_expression_takes_the_call_that_follows() {
    assert_eq!(
        expr_of("(x) -> x(5)"),
        lambda(&["x"], SugaredStatement::Expr(call(var("x"), vec![num(5)])))
    );
}

#[test]
fn a_closing_bracket_is_no_lambda_body() {
    assert_eq!(expr_error("() -> }"), ParseError::ExpectedStatement);
}

#[test]
fn a_parameter_list_needs_its_arrow() {
    assert_eq!(
        expr_error("(x) + 1"),
        ParseError::Expected(
            TokenValue::THIN_ARROW,
            at(TokenValue::OP(Operator::Plus), 1, 5)
        )
    );
    assert_eq!(expr_error("()"), ParseError::UnexpectedEOF);
    assert_eq!(expr_error("(x)"), ParseError::UnexpectedEOF);
}

#[test]
fn what_is_no_parameter_list_is_an_expression_in_parentheses() {
    assert_eq!(expr_of("(1)"), num(1));
    assert_eq!(expr_of("(x + 1)"), bin(Operator::Plus, var("x"), num(1)));
    assert_eq!(expr_of("((2))"), num(2));
    assert_eq!(expr_of("(f(1))"), call(var("f"), vec![num(1)]));
    assert_eq!(expr_of("(\"s\")"), SugaredExpr::Str("s".to_string()));
    assert_eq!(expr_of("(-x)"), un(Operator::Minus, var("x")));
}

#[test]
fn a_keyword_after_an_opening_parenthesis_is_taken_for_a_parameter() {
    assert_eq!(expr_error("(true)"), ParseError::KeywordAsParam("true".to_string()));
    assert_eq!(expr_error("(x, if) -> x"), ParseError::KeywordAsParam("if".to_string()));
}

#[test]
fn an_unclosed_parenthesis() {
    assert_eq!(expr_error("(1 + 2"), ParseError::UnexpectedEOF);
    assert_eq!(expr_error("(x"), ParseError::UnexpectedEOF);
    assert_eq!(expr_error("(x,"), ParseError::UnexpectedEOF);
    assert_eq!(
        expr_error("(1 2)"),
        ParseError::Expected(TokenValue::RPAREN, at(TokenValue::NUM(2), 1, 4))
    );
    assert_eq!(
        expr_error("(x, 1)"),
        ParseError::Expected(TokenValue::RPAREN, at(TokenValue::COMMA, 1, 3))
    );
}

#[test]
fn keywords_are_no_variables() {
    assert_eq!(expr_error("while"), ParseError::KeywordAsVar("while".to_string()));
    assert_eq!(expr_error("1 + let"), ParseError::KeywordAsVar("let".to_string()));
    assert_eq!(statement_error("let if = 3;"), ParseError::KeywordAsVar("if".to_string()));
    assert_eq!(statement_error("let true;"), ParseError::KeywordAsVar("true".to_string()));
    assert_eq!(statement_error("for = 3;"), ParseError::KeywordAsVar("for".to_string()));
    assert_eq!(statement_error("true = 3;"), ParseError::KeywordAsVar("true".to_string()));
    assert_eq!(statement_error("let x 5;"), ParseError::KeywordAsVar("let".to_string()));
    assert_eq!(statement_error("if x { }"), ParseError::KeywordAsVar("if".to_string()));
    assert_eq!(statement_error("else { }"), ParseError::KeywordAsVar("else".to_string()));
}

#[test]
fn tokens_that_start_no_expression() {
    assert_eq!(expr_error(""), ParseError::UnexpectedEOF);
    assert_eq!(expr_error("1 +"), ParseError::UnexpectedEOF);
    assert_eq!(expr_error(")"), ParseError::UnexpectedToken(at(TokenValue::RPAREN, 1, 1)));
    assert_eq!(
        expr_error("1 + * 2"),
        ParseError::UnexpectedToken(at(TokenValue::OP(Operator::Times), 1, 5))
    );
    assert_eq!(expr_error("= 1"), ParseError::UnexpectedToken(at(TokenValue::ASSIGN, 1, 1)));
    assert_eq!(expr_error("-"), ParseError::UnexpectedEOF);
    assert_eq!(expr_error("++"), ParseError::UnexpectedEOF);
}

#[test]
fn an_expression_ends_where_no_operator_follows() {
    let ts = tokens("1 2");
    let (e, rest) = parse_expr(&ts).unwrap();
    assert_eq!(e, num(1));
    assert_eq!(rest.len(), 1);
    let ts = tokens("a = b");
    let (e, rest) = parse_expr(&ts).unwrap();
    assert_eq!(e, var("a"));
    assert_eq!(rest.len(), 2);
}

#[test]
fn argument_lists() {
    let ts = tokens(")");
    assert_eq!(parse_args(&ts).unwrap().0, vec![]);
    let ts = tokens("1, 2) x");
    let (args, rest) = parse_args(&ts).unwrap();
    assert_eq!(args, vec![num(1), num(2)]);
    assert_eq!(rest.len(), 1);
    let ts = tokens(", 2)");
    let (args, rest) = parse_rest_args(&ts).unwrap();
    assert_eq!(args, vec![num(2)]);
    assert!(rest.is_empty());
    let ts = tokens(")");
    assert_eq!(parse_rest_args(&ts).unwrap().0, vec![]);
}

#[test]
fn malformed_argument_lists() {
    assert_eq!(
        expr_error("f(1,)"),
        ParseError::UnexpectedToken(at(TokenValue::COMMA, 1, 4))
    );
    assert_eq!(
        expr_error("f(,)"),
        ParseError::UnexpectedToken(at(TokenValue::COMMA, 1, 3))
    );
    assert_eq!(
        expr_error("f(1 2)"),
        ParseError::UnexpectedToken(at(TokenValue::NUM(2), 1, 5))
    );
    assert_eq!(expr_error("f(1"), ParseError::UnexpectedEOF);
    assert_eq!(expr_error("f(1,"), ParseError::UnexpectedEOF);
    assert_eq!(expr_error("f("), ParseError::UnexpectedEOF);
    let ts: Vec<Token> = vec![];
    assert_eq!(parse_rest_args(&ts).unwrap_err(), ParseError::UnexpectedEOF);
}

#[test]
fn parameter_lists() {
    let ts = tokens(")");
    let (params, rest) = parse_params(&ts).unwrap();
    assert_eq!(params, Vec::<String>::new());
    assert!(rest.is_empty());
    let ts = tokens("a, b, a) {");
    let (params, rest) = parse_params(&ts).unwrap();
    assert_eq!(params, vec!["a".to_string(), "b".to_string(), "a".to_string()]);
    assert_eq!(rest.len(), 1);
    let ts = tokens(", b)");
    let (params, rest) = parse_rest_params(&ts).unwrap();
    assert_eq!(params, vec!["b".to_string()]);
    assert!(rest.is_empty());
    let ts = tokens(") x");
    let (params, rest) = parse_rest_params(&ts).unwrap();
    assert_eq!(params, Vec::<String>::new());
    assert_eq!(rest.len(), 1);
}

#[test]
fn malformed_parameter_lists() {
    let ts = tokens("a,)");
    assert_eq!(
        parse_params(&ts).unwrap_err(),
        ParseError::UnexpectedToken(at(TokenValue::COMMA, 1, 2))
    );
    let ts = tokens("a b)");
    assert_eq!(
        parse_params(&ts).unwrap_err(),
        ParseError::UnexpectedToken(at(TokenValue::ID("b".to_string()), 1, 3))
    );
    let ts = tokens("1)");
    assert_eq!(
        parse_params(&ts).unwrap_err(),
        ParseError::UnexpectedToken(at(TokenValue::NUM(1), 1, 1))
    );
    let ts = tokens("a, while)");
    assert_eq!(
        parse_params(&ts).unwrap_err(),
        ParseError::KeywordAsParam("while".to_string())
    );
    let ts = tokens("a");
    assert_eq!(parse_params(&ts).unwrap_err(), ParseError::UnexpectedEOF);
    let ts: Vec<Token> = vec![];
    assert_eq!(parse_params(&ts).unwrap_err(), ParseError::UnexpectedEOF);
    assert_eq!(parse_rest_params(&ts).unwrap_err(), ParseError::UnexpectedEOF);
    let ts = tokens("b)");
    assert_eq!(
        parse_rest_params(&ts).unwrap_err(),
        ParseError::UnexpectedToken(at(TokenValue::ID("b".to_string()), 1, 1))
    );
}

#[test]
fn simple_statements() {
    assert_eq!(statement_of("let x = 1 + 2;"), SugaredStatement::Let("x".to_string(), bin(Operator::Plus, num(1), num(2))));
    assert_eq!(statement_of("x = y;"), SugaredStatement::Assign("x".to_string(), var("y")));
    assert_eq!(statement_of("f(x);"), SugaredStatement::Expr(call(var("f"), vec![var("x")])));
    assert_eq!(statement_of("return;"), SugaredStatement::Return(None));
    assert_eq!(statement_of("return x;"), SugaredStatement::Return(Some(var("x"))));
    assert_eq!(statement_of("break;"), SugaredStatement::Break);
    assert_eq!(statement_of("continue;"), SugaredStatement::Continue);
    assert_eq!(statement_of("x++;"), SugaredStatement::Expr(un(Operator::PostIncrement, var("x"))));
}

#[test]
fn blocks() {
    assert_eq!(statement_of("{ }"), SugaredStatement::Block(vec![]));
    assert_eq!(
        statement_of("{ x = 1; { y = 2; } }"),
        SugaredStatement::Block(vec![
            SugaredStatement::Assign("x".to_string(), num(1)),
            SugaredStatement::Block(vec![SugaredStatement::Assign("y".to_string(), num(2))]),
        ])
    );
    let ts = tokens("x = 1; y = 2; } z");
    let (statements, rest) = parse_statements(&ts).unwrap();
    assert_eq!(
        statements,
        vec![
            SugaredStatement::Assign("x".to_string(), num(1)),
            SugaredStatement::Assign("y".to_string(), num(2)),
        ]
    );
    assert_eq!(rest.len(), 1);
}

#[test]
fn a_block_must_be_closed() {
    assert_eq!(statement_error("{ x = 1;"), ParseError::UnexpectedEOF);
    assert_eq!(statement_error("{"), ParseError::UnexpectedEOF);
    let ts: Vec<Token> = vec![];
    assert_eq!(parse_statements(&ts).unwrap_err(), ParseError::UnexpectedEOF);
}

#[test]
fn a_closing_bracket_is_no_statement() {
    let ts = tokens("} x");
    let (statement, rest) = parse_statement(&ts, true).unwrap();
    assert_eq!(statement, None);
    assert_eq!(rest.len(), 1);
}

#[test]
fn the_semicolon_is_read_only_on_demand() {
    let ts = tokens("x = 1;");
    let (statement, rest) = parse_statement(&ts, false).unwrap();
    assert_eq!(statement, Some(SugaredStatement::Assign("x".to_string(), num(1))));
    assert_eq!(rest.len(), 1);
    let ts = tokens("x = 1");
    let (statement, rest) = parse_statement(&ts, false).unwrap();
    assert_eq!(statement, Some(SugaredStatement::Assign("x".to_string(), num(1))));
    assert!(rest.is_empty());
    // `return` takes its semicolon in any case
    let ts = tokens("return 1");
    assert_eq!(parse_statement(&ts, false).unwrap_err(), ParseError::UnexpectedEOF);
}

#[test]
fn a_missing_semicolon_is_reported_with_what_stands_there() {
    assert_eq!(
        statement_error("let x = 1 let y = 2;"),
        ParseError::Expected(TokenValue::SEMICOLON, at(TokenValue::KW(Keyword::Let), 1, 11))
    );
    assert_eq!(statement_error("x = 1"), ParseError::UnexpectedEOF);
    assert_eq!(
        statement_error("break }"),
        ParseError::Expected(TokenValue::SEMICOLON, at(TokenValue::RBRACKET, 1, 7))
    );
    assert_eq!(statement_error("continue"), ParseError::UnexpectedEOF);
    assert_eq!(
        statement_error("f(x) }"),
        ParseError::Expected(TokenValue::SEMICOLON, at(TokenValue::RBRACKET, 1, 6))
    );
}

#[test]
fn if_statements() {
    assert_eq!(
        statement_of("if (c) { x = 1; }"),
        SugaredStatement::If(
            var("c"),
            Box::new(SugaredStatement::Block(vec![SugaredStatement::Assign(
                "x".to_string(),
                num(1)
            )])),
            vec![],
            None
        )
    );
    assert_eq!(
        statement_of("if (a) { } else { y; }"),
        SugaredStatement::If(
            var("a"),
            Box::new(SugaredStatement::Block(vec![])),
            vec![],
            Some(Box::new(SugaredStatement::Block(vec![SugaredStatement::Expr(var("y"))])))
        )
    );
    assert_eq!(
        statement_of("if (a) { } else if (b) { 1; } else if (c) { 2; } else { 3; }"),
        SugaredStatement::If(
            var("a"),
            Box::new(SugaredStatement::Block(vec![])),
            vec![
                (var("b"), SugaredStatement::Block(vec![SugaredStatement::Expr(num(1))])),
                (var("c"), SugaredStatement::Block(vec![SugaredStatement::Expr(num(2))])),
            ],
            Some(Box::new(SugaredStatement::Block(vec![SugaredStatement::Expr(num(3))])))
        )
    );
    assert_eq!(
        statement_of("if (a) { } else if (b) { }"),
        SugaredStatement::If(
            var("a"),
            Box::new(SugaredStatement::Block(vec![])),
            vec![(var("b"), SugaredStatement::Block(vec![]))],
            None
        )
    );
}

#[test]
fn the_branches_of_an_if_are_blocks() {
    assert_eq!(statement_error("if (c) x = 1;"), ParseError::ExpectedBlock);
    assert_eq!(statement_error("if (c) { } else x = 1;"), ParseError::ExpectedBlock);
    assert_eq!(statement_error("if (c) { } else if (d) x;"), ParseError::ExpectedBlock);
    assert_eq!(statement_error("if (c) }"), ParseError::ExpectedBlock);
    assert_eq!(
        statement_error("if (c { }"),
        ParseError::Expected(TokenValue::RPAREN, at(TokenValue::LBRACKET, 1, 7))
    );
    assert_eq!(statement_error("if (c)"), ParseError::UnexpectedEOF);
    assert_eq!(statement_error("if (c) { } else"), ParseError::UnexpectedEOF);
}

#[test]
fn while_statements() {
    assert_eq!(
        statement_of("while (i < 3) { i = i + 1; }"),
        SugaredStatement::While(
            bin(Operator::LT, var("i"), num(3)),
            Box::new(SugaredStatement::Block(vec![SugaredStatement::Assign(
                "i".to_string(),
                bin(Operator::Plus, var("i"), num(1))
            )]))
        )
    );
    assert_eq!(statement_error("while (c) x;"), ParseError::ExpectedBlock);
    assert_eq!(
        statement_error("while (c; { }"),
        ParseError::Expected(TokenValue::RPAREN, at(TokenValue::SEMICOLON, 1, 9))
    );
}

#[test]
fn for_statements() {
    assert_eq!(
        statement_of("for (let i = 0; i < 3; i = i + 1) { print(i); }"),
        SugaredStatement::For(
            Box::new(SugaredStatement::Let("i".to_string(), num(0))),
            bin(Operator::LT, var("i"), num(3)),
            Box::new(SugaredStatement::Assign(
                "i".to_string(),
                bin(Operator::Plus, var("i"), num(1))
            )),
            vec![SugaredStatement::Expr(SugaredExpr::PrimitiveCall(
                Builtin::Print,
                vec![var("i")]
            ))]
        )
    );
    assert_eq!(
        statement_of("for (i = 9; i; i--) { }"),
        SugaredStatement::For(
            Box::new(SugaredStatement::Assign("i".to_string(), num(9))),
            var("i"),
            Box::new(SugaredStatement::Expr(un(Operator::PostDecrement, var("i")))),
            vec![]
        )
    );
    assert_eq!(
        statement_of("for (++i; true; ++i) { }"),
        SugaredStatement::For(
            Box::new(SugaredStatement::Expr(un(Operator::PreIncrement, var("i")))),
            SugaredExpr::Bool(true),
            Box::new(SugaredStatement::Expr(un(Operator::PreIncrement, var("i")))),
            vec![]
        )
    );
}

#[test]
fn malformed_for_headers() {
    assert_eq!(
        statement_error("for (f(); i < 3; i = i + 1) { }"),
        ParseError::ExpectedAssignmentOrInitialization
    );
    assert_eq!(
        statement_error("for (-i; i < 3; i = i + 1) { }"),
        ParseError::ExpectedAssignmentOrInitialization
    );
    assert_eq!(
        statement_error("for (let i = 0; i < 3; let j = 1) { }"),
        ParseError::ExpectedAssignment
    );
    assert_eq!(
        statement_error("for (let i = 0; i < 3; i + 1) { }"),
        ParseError::ExpectedAssignment
    );
    assert_eq!(statement_error("for (} i < 3; i = 1) { }"), ParseError::ExpectedStatement);
    assert_eq!(statement_error("for (let i = 0; i < 3; }) { }"), ParseError::ExpectedStatement);
    assert_eq!(
        statement_error("for (let i = 0; i < 3) { }"),
        ParseError::Expected(TokenValue::SEMICOLON, at(TokenValue::RPAREN, 1, 22))
    );
    assert_eq!(
        statement_error("for (let i = 0; i < 3; i = 1; ) { }"),
        ParseError::Expected(TokenValue::RPAREN, at(TokenValue::SEMICOLON, 1, 29))
    );
    assert_eq!(statement_error("for (let i = 0; i < 3; i = 1) i;"), ParseError::ExpectedBlock);
    assert_eq!(statement_error("for (let i = 0; i < 3; i = 1) }"), ParseError::ExpectedBlock);
    assert_eq!(statement_error("for (let i = 0 i < 3; i = 1) { }"),
        ParseError::Expected(TokenValue::SEMICOLON, at(TokenValue::ID("i".to_string()), 1, 16)));
}

#[test]
fn procedures() {
    let ts = tokens("proc add(a, b) { return a + b; } proc");
    let (proc, rest) = parse_proc(&ts).unwrap();
    assert_eq!(
        proc,
        Some(SugaredProcedure {
            name: "add".to_string(),
            params: vec!["a".to_string(), "b".to_string()],
            body: SugaredStatement::Block(vec![SugaredStatement::Return(Some(bin(
                Operator::Plus,
                var("a"),
                var("b")
            )))]),
        })
    );
    assert_eq!(rest.len(), 1);
}

#[test]
fn where_no_procedure_starts_nothing_is_read() {
    let ts = tokens("let x = 1;");
    let (proc, rest) = parse_proc(&ts).unwrap();
    assert_eq!(proc, None);
    assert_eq!(rest.len(), ts.len());
    let ts = tokens("proc main {");
    let (proc, rest) = parse_proc(&ts).unwrap();
    assert_eq!(proc, None);
    assert_eq!(rest.len(), 3);
    let ts: Vec<Token> = vec![];
    assert_eq!(parse_proc(&ts).unwrap().0, None);
}

#[test]
fn malformed_procedures() {
    let ts = tokens("proc while() { }");
    assert_eq!(parse_proc(&ts).unwrap_err(), ParseError::KeywordAsProc("while".to_string()));
    let ts = tokens("proc f(let) { }");
    assert_eq!(parse_proc(&ts).unwrap_err(), ParseError::KeywordAsParam("let".to_string()));
    let ts = tokens("proc f() return 1;");
    assert_eq!(parse_proc(&ts).unwrap_err(), ParseError::ExpectedBlock);
    let ts = tokens("proc f()");
    assert_eq!(parse_proc(&ts).unwrap_err(), ParseError::UnexpectedEOF);
    let ts = tokens("proc f(a");
    assert_eq!(parse_proc(&ts).unwrap_err(), ParseError::UnexpectedEOF);
}

#[test]
fn procedures_in_a_row() {
    let ts = tokens("proc a() { } proc b(x) { } 7");
    let (procs, rest) = parse_procs(&ts).unwrap();
    assert_eq!(procs.len(), 2);
    assert_eq!(procs[0].name, "a");
    assert_eq!(procs[1].name, "b");
    assert_eq!(procs[1].params, vec!["x".to_string()]);
    assert_eq!(rest.len(), 1);
    let ts: Vec<Token> = vec![];
    let (procs, rest) = parse_procs(&ts).unwrap();
    assert!(procs.is_empty());
    assert!(rest.is_empty());
}

#[test]
fn a_name_used_twice_is_reported_once() {
    let ts = tokens("proc a() { } proc b() { } proc a() { } proc b() { }");
    assert_eq!(
        parse_procs(&ts).unwrap_err(),
        ParseError::MultipleSameNamedProcs("b".to_string())
    );
    let ts = tokens("proc a() { } proc a() { } proc a() { }");
    assert_eq!(
        parse_procs(&ts).unwrap_err(),
        ParseError::MultipleSameNamedProcs("a".to_string())
    );
}

#[test]
fn a_later_failure_comes_before_a_repeated_name() {
    let ts = tokens("proc a() { } proc a() { } proc if() { }");
    assert_eq!(parse_procs(&ts).unwrap_err(), ParseError::KeywordAsProc("if".to_string()));
}

#[test]
fn unexpected_token_or_end() {
    let ts = tokens("; x");
    assert_eq!(unexpected_token(&ts), ParseError::UnexpectedToken(at(TokenValue::SEMICOLON, 1, 1)));
    let ts: Vec<Token> = vec![];
    assert_eq!(unexpected_token(&ts), ParseError::UnexpectedEOF);
}

#[test]
fn consuming_a_token() {
    let ts = tokens("; x");
    let rest = consume_token(TokenValue::SEMICOLON, &ts).unwrap();
    assert_eq!(rest.len(), 1);
    assert_eq!(rest[0].0, TokenValue::ID("x".to_string()));
    assert_eq!(
        consume_token(TokenValue::COMMA, &ts).unwrap_err(),
        ParseError::Expected(TokenValue::COMMA, at(TokenValue::SEMICOLON, 1, 1))
    );
    let none: Vec<Token> = vec![];
    assert_eq!(consume_token(TokenValue::COMMA, &none).unwrap_err(), ParseError::UnexpectedEOF);
    // the position of a token plays no part
    let moved = vec![at(TokenValue::SEMICOLON, 40, 2)];
    assert!(consume_token(TokenValue::SEMICOLON, &moved).unwrap().is_empty());
}

#[test]
fn consuming_a_semicolon_on_demand() {
    let ts = tokens("; x");
    assert_eq!(conditionally_consume_semicolon(&ts, true).unwrap().len(), 1);
    assert_eq!(conditionally_consume_semicolon(&ts, false).unwrap().len(), 2);
    let ts = tokens("x");
    assert_eq!(
        conditionally_consume_semicolon(&ts, true).unwrap_err(),
        ParseError::Expected(TokenValue::SEMICOLON, at(TokenValue::ID("x".to_string()), 1, 1))
    );
    assert_eq!(conditionally_consume_semicolon(&ts, false).unwrap().len(), 1);
    let none: Vec<Token> = vec![];
    assert_eq!(conditionally_consume_semicolon(&none, true).unwrap_err(), ParseError::UnexpectedEOF);
    assert!(conditionally_consume_semicolon(&none, false).unwrap().is_empty());
}

#[test]
fn matching_an_operator() {
    let ts = tokens("+ 1");
    let (op, rest) = match_operator(&[Operator::Minus, Operator::Plus], &ts).unwrap();
    assert_eq!(op, Operator::Plus);
    assert_eq!(rest.len(), 1);
    assert!(match_operator(&[Operator::Minus], &ts).is_none());
    assert!(match_operator(&[], &ts).is_none());
    let ts = tokens("1 +");
    assert!(match_operator(&[Operator::Plus], &ts).is_none());
    let none: Vec<Token> = vec![];
    assert!(match_operator(&[Operator::Plus], &none).is_none());
}

#[test]
fn building_a_binary_expression() {
    assert_eq!(
        binary_expression(Operator::Div, num(1), var("x")),
        SugaredExpr::Binary(Operator::Div, Box::new(num(1)), Box::new(var("x")))
    );
}

#[test]
fn ensuring_a_block() {
    assert_eq!(
        ensure_block(Some(SugaredStatement::Block(vec![SugaredStatement::Break]))),
        Ok(SugaredStatement::Block(vec![SugaredStatement::Break]))
    );
    assert_eq!(ensure_block(Some(SugaredStatement::Break)), Err(ParseError::ExpectedBlock));
    assert_eq!(ensure_block(None), Err(ParseError::ExpectedBlock));
}

#[test]
fn what_counts_as_an_assignment() {
    assert!(is_assignment(&SugaredStatement::Assign("x".to_string(), num(1))));
    assert!(is_assignment(&SugaredStatement::Expr(un(Operator::PreIncrement, var("x")))));
    assert!(is_assignment(&SugaredStatement::Expr(un(Operator::PostIncrement, var("x")))));
    assert!(is_assignment(&SugaredStatement::Expr(un(Operator::PreDecrement, var("x")))));
    assert!(is_assignment(&SugaredStatement::Expr(un(Operator::PostDecrement, var("x")))));
    assert!(!is_assignment(&SugaredStatement::Expr(un(Operator::Minus, var("x")))));
    assert!(!is_assignment(&SugaredStatement::Expr(var("x"))));
    assert!(!is_assignment(&SugaredStatement::Let("x".to_string(), num(1))));
    assert!(!is_assignment(&SugaredStatement::Break));
    assert!(!is_assignment(&SugaredStatement::Block(vec![])));
    assert!(is_assignment_or_initialization(&SugaredStatement::Let("x".to_string(), num(1))));
    assert!(is_assignment_or_initialization(&SugaredStatement::Assign("x".to_string(), num(1))));
    assert!(is_assignment_or_initialization(&SugaredStatement::Expr(un(
        Operator::PostIncrement,
        var("x")
    ))));
    assert!(!is_assignment_or_initialization(&SugaredStatement::Expr(var("x"))));
    assert!(!is_assignment_or_initialization(&SugaredStatement::Return(None)));
}

/// The place of the token that a failure is about.
fn place(e: ParseError) -> Option<(usize, usize)> {
    match e {
        ParseError::UnexpectedToken(t) => Some((t.1, t.2)),
        ParseError::Expected(_, t) => Some((t.1, t.2)),
        _ => None,
    }
}

#[test]
fn failures_name_the_place_of_the_token() {
    assert_eq!(place(expr_error("(x) + 1")), Some((1, 5)));
    assert_eq!(place(expr_error("1 +\n  * 2")), Some((2, 3)));
    assert_eq!(place(expr_error("f(1,\n)")), Some((1, 4)));
    assert_eq!(place(statement_error("let x = 1\nlet y = 2;")), Some((2, 1)));
    assert_eq!(place(statement_error("if (c\n\n   { }")), Some((3, 4)));
    assert_eq!(place(statement_error("for (let i = 0; i < 3) { }")), Some((1, 22)));
    assert_eq!(place(statement_error("{ x = 1;")), None);
    let ts = tokens("a,\n\n  )");
    assert_eq!(place(parse_params(&ts).unwrap_err()), Some((1, 2)));
    let ts = tokens("\n\n; x");
    assert_eq!(place(unexpected_token(&ts)), Some((3, 1)));
    assert_eq!(place(consume_token(TokenValue::COMMA, &ts).unwrap_err()), Some((3, 1)));
}
