use treewalk::ast::{Expr, Stmt};
use treewalk::parser::{ErrorReporter, Parser};
use treewalk::render::Piece;
use treewalk::scanner::Scanner;
use treewalk::status::Failure;
use treewalk::token::{Token, TokenType};

fn tokens_of(source: &str) -> Vec<Token> {
    let mut scanner = Scanner::new(source);
    assert_eq!(scanner.tokenize(), Ok(()));
    scanner.tokens().clone()
}

fn written(pieces: Vec<Piece>) -> String {
    let mut out = String::new();
    for piece in pieces {
        match piece {
            Piece::Text(s) => out.push_str(&s),
            Piece::Number(n) => out.push_str(&format!("{:?}", n.parse::<f64>().unwrap())),
        }
    }
    out
}

fn parse(source: &str) -> (Vec<String>, Vec<String>, Result<(), Failure>) {
    let tokens = tokens_of(source);
    let mut parser = Parser::new(&tokens);
    let result = parser.parse();
    let listing = parser.statements().iter().map(|s| written(s.render())).collect();
    (listing, parser.messages().clone(), result)
}

fn listed(source: &str) -> Vec<String> {
    let (listing, messages, result) = parse(source);
    assert_eq!(messages, Vec::<String>::new());
    assert_eq!(result, Ok(()));
    listing
}

fn rejected(source: &str) -> Vec<String> {
    let (_, messages, result) = parse(source);
    assert_eq!(result, Err(Failure::Syntax));
    messages
}

#[test]
fn multiplication_binds_tighter_than_addition() {
    assert_eq!(listed("1 + 2 * 3;"), vec!["(+ 1.0 (* 2.0 3.0))"]);
}

#[test]
fn binary_operators_associate_to_the_left() {
    assert_eq!(listed("1 - 2 - 3;"), vec!["(- (- 1.0 2.0) 3.0)"]);
    assert_eq!(listed("8 / 4 / 2"), vec!["(/ (/ 8.0 4.0) 2.0)"]);
    assert_eq!(listed("a or b or c;"), vec!["(or (or a b) c)"]);
    assert_eq!(listed("a and b and c;"), vec!["(and (and a b) c)"]);
    assert_eq!(listed("1 == 2 != 3;"), vec!["(!= (== 1.0 2.0) 3.0)"]);
}

#[test]
fn the_levels_of_precedence() {
    assert_eq!(
        listed("a or b and c == d < e + f * -g;"),
        vec!["(or a (and b (== c (< d (+ e (* f (- g)))))))"]
    );
    assert_eq!(listed("1 < 2 == 3 >= 4;"), vec!["(== (< 1.0 2.0) (>= 3.0 4.0))"]);
}

#[test]
fn unary_operators_nest_to_the_right() {
    assert_eq!(listed("!!true;"), vec!["(! (! true))"]);
    assert_eq!(listed("-1 - -2;"), vec!["(- (- 1.0) (- 2.0))"]);
}

#[test]
fn groups_and_literals() {
    assert_eq!(listed("(1 + 2) * 3;"), vec!["(* (group (+ 1.0 2.0)) 3.0)"]);
    assert_eq!(listed("\"hello\";"), vec!["hello"]);
    assert_eq!(listed("nil; true; false; 12.50; foo;"), vec!["nil", "true", "false", "12.5", "foo"]);
    assert_eq!(listed("(\"a b\")"), vec!["(group a b)"]);
}

#[test]
fn assignment_is_right_associative_and_may_stand_in_a_group() {
    assert_eq!(listed("a = b = 3;"), vec!["a = b = 3.0"]);
    assert_eq!(listed("true or (x = 1);"), vec!["(or true (group x = 1.0))"]);
}

#[test]
fn statements_are_listed() {
    assert_eq!(listed("print 1 + 2;"), vec!["print (+ 1.0 2.0)"]);
    assert_eq!(listed("var a = 1; var b;"), vec!["var a = 1.0", "var b"]);
    assert_eq!(listed("if (a) print 1; else print 2;"), vec!["if a print 1.0 else print 2.0"]);
    assert_eq!(listed("if (a) b = 1;"), vec!["if a b = 1.0"]);
    assert_eq!(listed("while (a < 3) a = a + 1;"), vec!["while (< a 3.0) a = (+ a 1.0)"]);
    assert_eq!(listed("{ var a = 1; print a; }"), vec!["{\n   var a = 1.0\n   print a\n}\n"]);
    assert_eq!(listed("{}"), vec!["{\n}\n"]);
    assert_eq!(
        listed("for (var i = 0; i < 3; i = i + 1) print i;"),
        vec!["for var i = 0.0; (< i 3.0); i = (+ i 1.0) print i"]
    );
    assert_eq!(listed("for (;;) print 1;"), vec!["for ; ;  print 1.0"]);
}

#[test]
fn the_tree_of_a_for_statement() {
    let tokens = tokens_of("for (i = 0; ; ) {}");
    let mut parser = Parser::new(&tokens);
    assert_eq!(parser.parse(), Ok(()));
    let zero = Expr::Literal(Token::new(TokenType::Number, "0".to_string(), 1));
    assert_eq!(
        parser.statements(),
        &vec![Stmt::For(
            Some(Box::new(Stmt::Assign("i".to_string(), Box::new(Stmt::Expr(zero))))),
            None,
            None,
            Box::new(Stmt::Block(vec![])),
        )]
    );
}

#[test]
fn the_last_statement_needs_no_semicolon() {
    assert_eq!(listed("print 1"), vec!["print 1.0"]);
    assert_eq!(listed("var a = 2"), vec!["var a = 2.0"]);
    assert_eq!(listed("1 + 2"), vec!["(+ 1.0 2.0)"]);
}

#[test]
fn a_statement_inside_the_program_needs_its_semicolon() {
    assert_eq!(rejected("print 1 print 2;"), vec!["[line 1] Error at 'print': Expect ';' after expression."]);
    assert_eq!(rejected("{ a = 1 }"), vec![
        "[line 1] Error at '}': Expect ';' after expression.",
    ]);
}

#[test]
fn missing_expression() {
    assert_eq!(rejected("1 +;"), vec!["[line 1] Error at ';': Expect expression."]);
    assert_eq!(rejected("print"), vec!["[line 1] Error at end: Expect expression."]);
    assert_eq!(rejected("\n\n(1 +"), vec!["[line 3] Error at end: Expect expression."]);
    assert_eq!(rejected("()"), vec!["[line 1] Error at ')': Expect expression."]);
}

#[test]
fn unmatched_parentheses() {
    assert_eq!(rejected("(1 + 2"), vec!["[line 1] Error at end: Unmatched parentheses."]);
    assert_eq!(rejected("(1 2)"), vec![
        "[line 1] Error at '2': Unmatched parentheses.",
        "[line 1] Error at ')': Expect expression.",
    ]);
}

#[test]
fn missing_parts_of_statements() {
    assert_eq!(rejected("while a) b;"), vec![
        "[line 1] Error at 'a': Expect '(' after 'while'.",
        "[line 1] Error at ')': Expect expression.",
    ]);
    assert_eq!(rejected("while (a b"), vec!["[line 1] Error at 'b': Expect ')' after condition."]);
    assert_eq!(rejected("if a) b;"), vec![
        "[line 1] Error at 'a': Expect '(' after 'if'.",
        "[line 1] Error at ')': Expect expression.",
    ]);
    assert_eq!(rejected("if (a b"), vec!["[line 1] Error at 'b': Expect ')' after if condition."]);
    assert_eq!(rejected("for i"), vec!["[line 1] Error at 'i': Expect '(' after 'for'."]);
    assert_eq!(rejected("for (;a)"), vec![
        "[line 1] Error at ')': Expect ';' after loop condition.",
    ]);
    assert_eq!(rejected("for (;;a;"), vec!["[line 1] Error at ';': Expect ')' after for clauses."]);
    assert_eq!(rejected("for (;;a 1"), vec![
        "[line 1] Error at '1': Expect ')' after for clauses.",
    ]);
    assert_eq!(rejected("{ print 1;"), vec!["[line 1] Error at end: Expect '}' ."]);
    assert_eq!(rejected("var 1;"), vec![
        "[line 1] Error at 'var': Expect expression.",
    ]);
}

#[test]
fn parsing_goes_on_behind_an_error() {
    let (listing, messages, result) = parse("print 1;\n+ 2;\nprint 3;\n* 4;");
    assert_eq!(result, Err(Failure::Syntax));
    assert_eq!(
        messages,
        vec![
            "[line 2] Error at '+': Expect expression.",
            "[line 4] Error at '*': Expect expression.",
        ]
    );
    assert_eq!(listing, vec!["print 1.0", "2.0", "print 3.0", "4.0"]);
}

#[test]
fn reserved_words_are_no_expressions() {
    assert_eq!(rejected("class"), vec!["[line 1] Error at 'class': Expect expression."]);
    assert_eq!(rejected("1 + fun"), vec!["[line 1] Error at 'fun': Expect expression."]);
    assert_eq!(rejected("this;"), vec![
        "[line 1] Error at 'this': Expect expression.",
        "[line 1] Error at ';': Expect expression.",
    ]);
}

#[test]
fn empty_program() {
    let (listing, messages, result) = parse("");
    assert_eq!(result, Ok(()));
    assert!(listing.is_empty());
    assert!(messages.is_empty());
}

#[test]
fn reporter_formats_its_diagnostics() {
    let mut reporter = ErrorReporter::new();
    assert!(!reporter.had_error);
    reporter.error(12, "foo", "Expect expression.");
    reporter.error(3, "", "Expect ';' after expression.");
    assert!(reporter.had_error);
    assert_eq!(
        reporter.messages,
        vec![
            "[line 12] Error at 'foo': Expect expression.",
            "[line 3] Error at end: Expect ';' after expression.",
        ]
    );
}

#[test]
fn the_parser_stops_at_the_end_having_read_every_token() {
    for source in ["", "print 1;", "1 + ;\n2", "{ var a = (1); }", "for (;;) x"] {
        let tokens = tokens_of_any(source);
        let mut parser = Parser::new(&tokens);
        let _ = parser.parse();
        assert_eq!(parser.current(), tokens.len() - 1);
        assert_eq!(tokens[parser.current()].token_type, TokenType::Eof);
    }
}

fn tokens_of_any(source: &str) -> Vec<Token> {
    let mut scanner = Scanner::new(source);
    let _ = scanner.tokenize();
    scanner.take_tokens()
}

#[test]
fn what_is_printed_as_it_is_written_parses_to_what_prints_the_same() {
    for source in ["foo", "true", "nil", "print x", "a = b", "var a = b", "var a", "print a = b"] {
        let first = listed(source);
        assert_eq!(first, vec![source]);
        assert_eq!(listed(&first[0]), first);
    }
    for source in ["1", "12.50", "print 3.0", "x = 0.5"] {
        let first = listed(source);
        assert_eq!(listed(&first[0]), first);
    }
}

#[test]
fn taking_the_statements_leaves_none() {
    let tokens = tokens_of("print 1; print 2;");
    let mut parser = Parser::new(&tokens);
    assert_eq!(parser.parse(), Ok(()));
    assert_eq!(parser.take_statements().len(), 2);
    assert!(parser.statements().is_empty());
    assert!(parser.take_messages().is_empty());
}
