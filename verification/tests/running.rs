use treewalk::ast::{Expr, Stmt};
use treewalk::error::RuntimeError;
use treewalk::machine::ArithOp;
use treewalk::parser::Parser;
use treewalk::runner::{Reply, Request, Runner};
use treewalk::scanner::Scanner;
use treewalk::status::Failure;
use treewalk::token::{Token, TokenType};

fn program(source: &str) -> Vec<Stmt> {
    let mut scanner = Scanner::new(source);
    assert_eq!(scanner.tokenize(), Ok(()));
    let tokens = scanner.tokens().clone();
    let mut parser = Parser::new(&tokens);
    assert_eq!(parser.parse(), Ok(()));
    let mut statements = Vec::new();
    let mut parser = parser;
    statements.append(&mut parser.take_statements());
    statements
}

fn serve(request: &Request, lines: &mut Vec<String>) -> Option<Reply> {
    match request {
        Request::Continue => Some(Reply::Done),
        Request::Parse(text) => Some(Reply::Number(text.parse::<f64>().unwrap().to_bits())),
        Request::Arithmetic(op, a, b) => {
            let (x, y) = (f64::from_bits(*a), f64::from_bits(*b));
            let z = match op {
                ArithOp::Add => x + y,
                ArithOp::Subtract => x - y,
                ArithOp::Multiply => x * y,
                ArithOp::Divide => x / y,
            };
            Some(Reply::Number(z.to_bits()))
        }
        Request::Format(bits) => Some(Reply::Text(format!("{}", f64::from_bits(*bits)))),
        Request::Print(line) => {
            lines.push(line.clone());
            Some(Reply::Done)
        }
        Request::Finish | Request::Fail(_) => None,
    }
}

fn drive(runner: &mut Runner, first: Request) -> (Vec<String>, Option<RuntimeError>) {
    let mut lines = Vec::new();
    let mut request = first;
    for _ in 0..1_000_000 {
        match serve(&request, &mut lines) {
            Some(reply) => request = runner.resume(reply),
            None => {
                return match request {
                    Request::Fail(error) => (lines, Some(error)),
                    _ => (lines, None),
                }
            }
        }
    }
    panic!("the program did not end");
}

fn run(source: &str) -> (Vec<String>, Option<RuntimeError>) {
    let statements = program(source);
    let mut runner = Runner::new(&statements);
    let first = runner.run();
    drive(&mut runner, first)
}

fn evaluate(source: &str) -> (Vec<String>, Option<RuntimeError>) {
    let statements = program(source);
    let mut runner = Runner::new(&statements);
    let first = runner.evaluate();
    drive(&mut runner, first)
}

fn prints(source: &str) -> Vec<String> {
    let (lines, error) = run(source);
    assert_eq!(error, None);
    lines
}

fn fails(source: &str) -> (Vec<String>, String, u8) {
    let (lines, error) = run(source);
    let error = error.unwrap();
    (lines, error.message().unwrap(), error.failure().exit_code())
}

#[test]
fn division_prints_its_quotient() {
    assert_eq!(prints("print 7 / 2;"), vec!["3.5"]);
}

#[test]
fn subtracting_from_a_string_is_a_type_error() {
    assert_eq!(
        fails("print \"a\" - 1;"),
        (vec![], "Operand must be a number.".to_string(), 70)
    );
}

#[test]
fn inner_declaration_shadows_and_goes_with_its_block() {
    assert_eq!(prints("var a = 1; { var a = 2; print a; } print a;"), vec!["2", "1"]);
}

#[test]
fn or_with_a_truthy_left_leaves_the_right_alone() {
    assert_eq!(prints("var x = nil; true or (x = 1); print x;"), vec!["nil"]);
}

#[test]
fn reading_an_unbound_name_fails() {
    assert_eq!(fails("print z;"), (vec![], "Undefined variable 'z'.".to_string(), 70));
}

#[test]
fn assigning_an_unbound_name_fails() {
    assert_eq!(
        fails("print 1; z = 2; print 3;"),
        (vec!["1".to_string()], "Undefined variable 'z'.".to_string(), 70)
    );
}

#[test]
fn arithmetic() {
    assert_eq!(prints("print 1 + 2 * 3 - 4 / 8;"), vec!["6.5"]);
    assert_eq!(prints("print -3 - -2;"), vec!["-1"]);
    assert_eq!(prints("print (1 + 2) * 3;"), vec!["9"]);
    assert_eq!(prints("print 0.1 + 0.2;"), vec!["0.30000000000000004"]);
    assert_eq!(prints("print 10 / 4 * 4;"), vec!["10"]);
}

#[test]
fn division_by_zero_does_not_trap() {
    assert_eq!(prints("print 1 / 0; print -1 / 0; print 0 / 0;"), vec!["inf", "-inf", "NaN"]);
    assert_eq!(prints("print 0 / 0 == 0 / 0;"), vec!["false"]);
    assert_eq!(prints("print 0 / 0 != 0 / 0;"), vec!["true"]);
}

#[test]
fn integral_numbers_print_without_a_fraction() {
    assert_eq!(prints("print 3; print 3.0; print 2.50; print 100 * 100;"), vec!["3", "3", "2.5", "10000"]);
}

#[test]
fn strings_concatenate() {
    assert_eq!(prints("print \"foo\" + \"bar\" + \"\";"), vec!["foobar"]);
    assert_eq!(prints("var a = \"x\"; a = a + a; print a + \"!\";"), vec!["xx!"]);
}

#[test]
fn plus_needs_two_numbers_or_two_strings() {
    for source in ["print 1 + \"a\";", "print \"a\" + 1;", "print nil + nil;", "print true + 1;"] {
        assert_eq!(
            fails(source),
            (vec![], "Operands must be two numbers or two strings.".to_string(), 70)
        );
    }
}

#[test]
fn arithmetic_and_comparison_need_numbers() {
    for source in [
        "1 - nil;",
        "\"a\" * \"b\";",
        "true / 2;",
        "1 < \"2\";",
        "nil <= 1;",
        "\"a\" > \"b\";",
        "1 >= false;",
        "-\"a\";",
        "-nil;",
        "-true;",
    ] {
        assert_eq!(fails(source), (vec![], "Operand must be a number.".to_string(), 70));
    }
}

#[test]
fn comparisons() {
    assert_eq!(
        prints("print 1 < 2; print 2 < 1; print 2 <= 2; print 3 > 2; print 2 >= 3; print -1 < 0;"),
        vec!["true", "false", "true", "true", "false", "true"]
    );
    assert_eq!(prints("print 0 / 0 < 1; print 0 / 0 >= 1; print -0 == 0;"), vec!["false", "false", "true"]);
}

#[test]
fn equality_honors_the_kind_of_a_value() {
    assert_eq!(
        prints("print 0 == false; print \"1\" == 1; print nil == nil; print nil == false;"),
        vec!["false", "false", "true", "false"]
    );
    assert_eq!(
        prints("print 1 == 1; print \"a\" == \"a\"; print \"a\" != \"b\"; print true != true;"),
        vec!["true", "true", "true", "false"]
    );
    assert_eq!(prints("print \"\" == nil; print 0 != \"0\";"), vec!["false", "true"]);
}

#[test]
fn truthiness() {
    assert_eq!(
        prints("print !nil; print !false; print !true; print !0; print !\"\"; print !!1;"),
        vec!["true", "true", "false", "false", "false", "true"]
    );
    assert_eq!(
        prints("if (0) print \"zero\"; if (\"\") print \"empty\"; if (nil) print \"nil\"; else print \"not nil\";"),
        vec!["zero", "empty", "not nil"]
    );
}

#[test]
fn and_and_or_give_an_operand_back() {
    assert_eq!(
        prints("print nil or \"a\"; print 1 or 2; print false or nil; print nil and 1; print 1 and 2; print 0 and false;"),
        vec!["a", "1", "nil", "nil", "2", "false"]
    );
}

#[test]
fn and_and_or_skip_the_right_operand() {
    assert_eq!(
        prints("var n = 0; false and (n = 1); true or (n = 2); print n; true and (n = 3); print n; nil or (n = 4); print n;"),
        vec!["0", "3", "4"]
    );
}

#[test]
fn assignment_yields_its_value() {
    assert_eq!(prints("var a; var b; a = b = 2; print a + b; print a = 5;"), vec!["4", "5"]);
}

#[test]
fn declaration_without_initializer_binds_nil() {
    assert_eq!(prints("var a; print a; var a = 1; print a; var a; print a;"), vec!["nil", "1", "nil"]);
}

#[test]
fn block_assigns_outward_and_defines_inward() {
    assert_eq!(
        prints("var a = 1; var b = 1; { a = 2; var b = 3; var c = 4; { a = a + b + c; } } print a; print b;"),
        vec!["9", "1"]
    );
    assert_eq!(
        fails("{ var c = 4; } print c;"),
        (vec![], "Undefined variable 'c'.".to_string(), 70)
    );
}

#[test]
fn if_and_else() {
    assert_eq!(
        prints("if (1 < 2) print \"yes\"; else print \"no\"; if (1 > 2) print \"yes\"; else print \"no\"; if (false) print \"never\";"),
        vec!["yes", "no"]
    );
    assert_eq!(prints("if (true) if (false) print 1; else print 2;"), vec!["2"]);
}

#[test]
fn while_loops() {
    assert_eq!(
        prints("var i = 0; while (i < 3) { print i; i = i + 1; } print \"done\";"),
        vec!["0", "1", "2", "done"]
    );
    assert_eq!(prints("while (false) print 1;"), Vec::<String>::new());
}

#[test]
fn for_loops() {
    assert_eq!(
        prints("for (var i = 0; i < 3; i = i + 1) print i;"),
        vec!["0", "1", "2"]
    );
    assert_eq!(
        prints("var i = 5; for (i = 0; i < 2;) { print i; i = i + 1; } print i;"),
        vec!["0", "1", "2"]
    );
    assert_eq!(
        prints("var n = 0; for (; n < 2; n = n + 1) {} print n;"),
        vec!["2"]
    );
}

#[test]
fn the_variable_of_a_for_loop_goes_with_the_loop() {
    assert_eq!(
        prints("var i = \"outer\"; for (var i = 0; i < 1; i = i + 1) { var j = i; } print i;"),
        vec!["outer"]
    );
    assert_eq!(
        fails("for (var k = 0; k < 1; k = k + 1) {} print k;"),
        (vec![], "Undefined variable 'k'.".to_string(), 70)
    );
}

#[test]
fn a_for_loop_without_condition_runs_until_an_error() {
    assert_eq!(
        fails("var n = 0; for (;;) { print n; n = n + 1; if (n == 3) stop = 1; }"),
        (
            vec!["0".to_string(), "1".to_string(), "2".to_string()],
            "Undefined variable 'stop'.".to_string(),
            70
        )
    );
}

#[test]
fn an_error_ends_the_run_at_once() {
    assert_eq!(
        fails("print 1; print 2 * nil; print 3;"),
        (vec!["1".to_string()], "Operand must be a number.".to_string(), 70)
    );
}

#[test]
fn the_same_program_prints_the_same_lines() {
    let source = "var a = 0.1; for (var i = 0; i < 5; i = i + 1) { a = a * 3 - i / 7; print a; }";
    assert_eq!(run(source), run(source));
    assert_eq!(prints(source).len(), 5);
}

#[test]
fn numbers_with_many_digits() {
    assert_eq!(prints("print 123456789012345678901234567890;"), vec!["123456789012345680000000000000"]);
    assert_eq!(prints("print 0.000001;"), vec!["0.000001"]);
}

#[test]
fn evaluating_prints_each_value() {
    assert_eq!(
        evaluate("1 + 2; \"a\" + \"b\"; !nil; nil; 7 / 2; (3)"),
        (
            vec![
                "3".to_string(),
                "ab".to_string(),
                "true".to_string(),
                "nil".to_string(),
                "3.5".to_string(),
                "3".to_string()
            ],
            None
        )
    );
}

#[test]
fn evaluating_takes_only_expressions() {
    let (lines, error) = evaluate("1; print 2; 3;");
    assert_eq!(lines, vec!["1"]);
    let error = error.unwrap();
    assert_eq!(error, RuntimeError::NotAnExpression);
    assert_eq!(error.message(), None);
    assert_eq!(error.failure(), Failure::Syntax);
    assert_eq!(error.failure().exit_code(), 65);
}

#[test]
fn evaluating_gives_each_expression_a_new_environment() {
    let (lines, error) = evaluate("(a = 1)");
    assert!(lines.is_empty());
    assert_eq!(error, Some(RuntimeError::UndefinedVariable("a".to_string())));
    let (lines, error) = evaluate("1 < 2; 1 - \"x\"; 3");
    assert_eq!(lines, vec!["true"]);
    assert_eq!(error, Some(RuntimeError::OperandMustBeNumber));
}

#[test]
fn a_machine_at_rest_has_finished() {
    let statements = program("print 1;");
    let mut runner = Runner::new(&statements);
    assert_eq!(runner.resume(Reply::Done), Request::Finish);
    assert_eq!(runner.resume(Reply::Number(0)), Request::Finish);
}

#[test]
fn a_finished_machine_stays_finished() {
    let statements = program("print nil; print z;");
    let mut runner = Runner::new(&statements);
    let first = runner.run();
    let (lines, error) = drive(&mut runner, first);
    assert_eq!(lines, vec!["nil"]);
    assert_eq!(error, Some(RuntimeError::UndefinedVariable("z".to_string())));
    assert_eq!(
        runner.resume(Reply::Done),
        Request::Fail(RuntimeError::UndefinedVariable("z".to_string()))
    );
    let first = runner.run();
    assert_eq!(first, Request::Continue);
    let (lines, _) = drive(&mut runner, first);
    assert_eq!(lines, vec!["nil"]);
}

#[test]
fn the_requests_of_a_small_program() {
    let statements = program("print 1 + 2;");
    let mut runner = Runner::new(&statements);
    let mut seen = vec![runner.run()];
    let two = 2f64.to_bits();
    let one = 1f64.to_bits();
    let three = 3f64.to_bits();
    let mut reply = Reply::Done;
    loop {
        let request = runner.resume(reply);
        reply = match &request {
            Request::Parse(text) if text == "1" => Reply::Number(one),
            Request::Parse(_) => Reply::Number(two),
            Request::Arithmetic(_, _, _) => Reply::Number(three),
            Request::Format(_) => Reply::Text("3".to_string()),
            _ => Reply::Done,
        };
        let last = request == Request::Finish;
        if request != Request::Continue {
            seen.push(request);
        }
        if last {
            break;
        }
    }
    assert_eq!(
        seen,
        vec![
            Request::Continue,
            Request::Parse("1".to_string()),
            Request::Parse("2".to_string()),
            Request::Arithmetic(ArithOp::Add, one, two),
            Request::Format(three),
            Request::Print("3".to_string()),
            Request::Finish,
        ]
    );
}

#[test]
fn a_reply_of_the_wrong_kind_ends_the_run() {
    let statements = program("print 1;");
    let mut runner = Runner::new(&statements);
    let mut request = runner.run();
    while request == Request::Continue {
        request = runner.resume(Reply::Done);
    }
    assert_eq!(request, Request::Parse("1".to_string()));
    let request = runner.resume(Reply::Text("one".to_string()));
    assert_eq!(request, Request::Fail(RuntimeError::UnexpectedReply));
    assert_eq!(RuntimeError::UnexpectedReply.message(), Some("Unexpected reply.".to_string()));
    assert_eq!(RuntimeError::UnexpectedReply.failure(), Failure::Runtime);

    let mut runner = Runner::new(&statements);
    runner.run();
    assert_eq!(runner.resume(Reply::Number(1)), Request::Fail(RuntimeError::UnexpectedReply));
}

fn token(kind: TokenType, lexeme: &str) -> Token {
    Token::new(kind, lexeme.to_string(), 1)
}

fn run_tree(statements: &Vec<Stmt>) -> (Vec<String>, Option<RuntimeError>) {
    let mut runner = Runner::new(statements);
    let first = runner.run();
    drive(&mut runner, first)
}

#[test]
fn trees_that_no_source_text_gives() {
    let one = || Box::new(Expr::Literal(token(TokenType::Number, "1")));
    let odd_binary = vec![Stmt::Expr(Expr::Binary(one(), token(TokenType::Comma, ","), one()))];
    let (_, error) = run_tree(&odd_binary);
    let error = error.unwrap();
    assert_eq!(error.message(), Some("Unsupported binary expression.".to_string()));
    assert_eq!(error.failure().exit_code(), 65);

    let odd_unary = vec![Stmt::Expr(Expr::Unary(token(TokenType::Plus, "+"), one()))];
    let (_, error) = run_tree(&odd_unary);
    let error = error.unwrap();
    assert_eq!(error.message(), Some("Unsupported unary expression.".to_string()));
    assert_eq!(error.failure().exit_code(), 65);

    let odd_literal = vec![Stmt::Expr(Expr::Literal(token(TokenType::While, "while")))];
    let (_, error) = run_tree(&odd_literal);
    let error = error.unwrap();
    assert_eq!(error.message(), Some("Unsupported literal expression.".to_string()));
    assert_eq!(error.failure().exit_code(), 65);

    for lexeme in ["", "abc", "1.", ".5", "1..2", "1.2.3", "1e5", "-1"] {
        let no_numeral = vec![Stmt::Expr(Expr::Literal(token(TokenType::Number, lexeme)))];
        let (_, error) = run_tree(&no_numeral);
        assert_eq!(error, Some(RuntimeError::UnsupportedLiteral));
    }
}

#[test]
fn statements_turn_the_machine_to_themselves() {
    let statements = program("print 1;");
    let other = program("print \"other\";");
    let mut runner = Runner::new(&statements);
    assert_eq!(other[0].evaluate(&mut runner), Request::Continue);
    let (lines, error) = drive(&mut runner, Request::Continue);
    assert_eq!(lines, vec!["other"]);
    assert_eq!(error, None);

    let expression = program("\"x\" + \"y\"");
    let mut runner = Runner::new(&expression);
    assert_eq!(expression[0].evaluate_no_run(&mut runner, 1), Request::Continue);
    let (lines, error) = drive(&mut runner, Request::Continue);
    assert_eq!(lines, vec!["xy"]);
    assert_eq!(error, None);

    let mut runner = Runner::new(&statements);
    assert_eq!(
        statements[0].evaluate_no_run(&mut runner, 1),
        Request::Fail(RuntimeError::NotAnExpression)
    );
}

#[test]
fn expressions_turn_the_machine_to_themselves() {
    let nothing: Vec<Stmt> = Vec::new();
    let mut runner = Runner::new(&nothing);
    let expr = Expr::Literal(token(TokenType::Identifier, "missing"));
    assert_eq!(
        expr.evaluate(&mut runner),
        Request::Fail(RuntimeError::UndefinedVariable("missing".to_string()))
    );
}
