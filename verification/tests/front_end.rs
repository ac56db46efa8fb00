use treewalk::ast::{Expr, Stmt};
use treewalk::interpreter::Interpreter;
use treewalk::status::Failure;
use treewalk::token::{Token, TokenType};

#[test]
fn tokenize_scans() {
    let mut interpreter = Interpreter::new("a = 1 $");
    assert_eq!(interpreter.tokenize(), Err(Failure::Syntax));
    assert_eq!(interpreter.messages(), &vec!["[line 1] Error: Unexpected character: $".to_string()]);
    assert_eq!(
        interpreter.tokens().iter().map(|t| t.token_type).collect::<Vec<_>>(),
        vec![TokenType::Identifier, TokenType::Equal, TokenType::Number, TokenType::Eof]
    );
    assert!(interpreter.statements().is_empty());
}

#[test]
fn parse_scans_and_parses() {
    let mut interpreter = Interpreter::new("print\n1;");
    assert_eq!(interpreter.parse(), Ok(()));
    assert!(interpreter.messages().is_empty());
    assert_eq!(interpreter.tokens().len(), 4);
    assert_eq!(
        interpreter.statements(),
        &vec![Stmt::Print(Box::new(Stmt::Expr(Expr::Literal(Token::new(
            TokenType::Number,
            "1".to_string(),
            2
        )))))]
    );
    assert_eq!(interpreter.take_statements().len(), 1);
    assert!(interpreter.statements().is_empty());
}

#[test]
fn parse_stops_after_a_failed_scan() {
    let mut interpreter = Interpreter::new("print 1; # print");
    assert_eq!(interpreter.parse(), Err(Failure::Syntax));
    assert_eq!(interpreter.messages(), &vec!["[line 1] Error: Unexpected character: #".to_string()]);
    assert!(interpreter.statements().is_empty());
    assert_eq!(interpreter.tokens().len(), 5);
}

#[test]
fn parse_reports_syntax_errors() {
    let mut interpreter = Interpreter::new("print 1;\nprint;");
    assert_eq!(interpreter.parse(), Err(Failure::Syntax));
    assert_eq!(
        interpreter.messages(),
        &vec!["[line 2] Error at ';': Expect expression.".to_string()]
    );
    assert_eq!(interpreter.statements().len(), 1);
}

#[test]
fn parsing_again_starts_over() {
    let mut interpreter = Interpreter::new("1; 2");
    assert_eq!(interpreter.parse(), Ok(()));
    assert_eq!(interpreter.parse(), Ok(()));
    assert_eq!(interpreter.statements().len(), 2);
    assert_eq!(interpreter.tokenize(), Ok(()));
    assert!(interpreter.statements().is_empty());
}
