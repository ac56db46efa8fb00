use treewalk::render::Piece;
use treewalk::scanner::Scanner;
use treewalk::status::Failure;
use treewalk::token::{Literal, Token, TokenType};

fn scan(source: &str) -> (Vec<Token>, Vec<String>, Result<(), Failure>) {
    let mut scanner = Scanner::new(source);
    let result = scanner.tokenize();
    (scanner.tokens().clone(), scanner.messages().clone(), result)
}

fn kinds(source: &str) -> Vec<TokenType> {
    scan(source).0.iter().map(|t| t.token_type).collect()
}

fn line_of(token: &Token) -> String {
    let mut out = String::new();
    for piece in token.describe() {
        match piece {
            Piece::Text(s) => out.push_str(&s),
            Piece::Number(n) => out.push_str(&format!("{:?}", n.parse::<f64>().unwrap())),
        }
    }
    out
}

fn listing(source: &str) -> Vec<String> {
    scan(source).0.iter().map(line_of).collect()
}

#[test]
fn punctuation_is_listed() {
    let (tokens, messages, result) = scan("(){};");
    assert_eq!(result, Ok(()));
    assert!(messages.is_empty());
    assert_eq!(
        tokens.iter().map(line_of).collect::<Vec<_>>(),
        vec![
            "LEFT_PAREN ( null",
            "RIGHT_PAREN ) null",
            "LEFT_BRACE { null",
            "RIGHT_BRACE } null",
            "SEMICOLON ; null",
            "EOF  null",
        ]
    );
}

#[test]
fn string_and_number_are_listed() {
    let (tokens, _, result) = scan("\"foo\" 12.5");
    assert_eq!(result, Ok(()));
    assert_eq!(
        tokens.iter().map(line_of).collect::<Vec<_>>(),
        vec!["STRING \"foo\" foo", "NUMBER 12.5 12.5", "EOF  null"]
    );
}

#[test]
fn integral_number_is_listed_with_a_decimal() {
    assert_eq!(listing("42"), vec!["NUMBER 42 42.0", "EOF  null"]);
}

#[test]
fn empty_source_is_one_eof() {
    let (tokens, messages, result) = scan("");
    assert_eq!(result, Ok(()));
    assert!(messages.is_empty());
    assert_eq!(tokens, vec![Token::new(TokenType::Eof, String::new(), 1)]);
}

#[test]
fn every_scan_ends_in_one_eof_and_lines_never_decrease() {
    for source in ["", "a\nb\n\nc", "\"x\ny\" 1 $ 2\n@", "// only\n", "\"open"] {
        let (tokens, _, _) = scan(source);
        assert_eq!(tokens.last().unwrap().token_type, TokenType::Eof);
        let eofs = tokens.iter().filter(|t| t.token_type == TokenType::Eof).count();
        assert_eq!(eofs, 1);
        for pair in tokens.windows(2) {
            assert!(pair[0].line <= pair[1].line);
        }
    }
}

#[test]
fn single_and_double_character_operators() {
    assert_eq!(
        kinds("= == ! != < <= > >= / ,.-+*"),
        vec![
            TokenType::Equal,
            TokenType::EqualEqual,
            TokenType::Bang,
            TokenType::BangEqual,
            TokenType::Less,
            TokenType::LessEqual,
            TokenType::Greater,
            TokenType::GreaterEqual,
            TokenType::Slash,
            TokenType::Comma,
            TokenType::Dot,
            TokenType::Minus,
            TokenType::Plus,
            TokenType::Star,
            TokenType::Eof,
        ]
    );
}

#[test]
fn operators_pair_greedily() {
    assert_eq!(
        kinds("===!=="),
        vec![
            TokenType::EqualEqual,
            TokenType::Equal,
            TokenType::BangEqual,
            TokenType::Equal,
            TokenType::Eof
        ]
    );
}

#[test]
fn comment_runs_to_the_end_of_the_line() {
    let (tokens, _, result) = scan("1 // two three\n4 // five");
    assert_eq!(result, Ok(()));
    assert_eq!(
        tokens,
        vec![
            Token::new(TokenType::Number, "1".to_string(), 1),
            Token::new(TokenType::Number, "4".to_string(), 2),
            Token::new(TokenType::Eof, String::new(), 2),
        ]
    );
}

#[test]
fn reserved_words_and_identifiers() {
    assert_eq!(
        kinds("and class else false for fun if nil or print return super this true var while"),
        vec![
            TokenType::And,
            TokenType::Class,
            TokenType::Else,
            TokenType::False,
            TokenType::For,
            TokenType::Fun,
            TokenType::If,
            TokenType::Nil,
            TokenType::Or,
            TokenType::Print,
            TokenType::Return,
            TokenType::Super,
            TokenType::This,
            TokenType::True,
            TokenType::Var,
            TokenType::While,
            TokenType::Eof,
        ]
    );
    assert_eq!(
        kinds("android _x x1 fo forth"),
        vec![
            TokenType::Identifier,
            TokenType::Identifier,
            TokenType::Identifier,
            TokenType::Identifier,
            TokenType::Identifier,
            TokenType::Eof,
        ]
    );
}

#[test]
fn identifiers_may_hold_letters_beyond_ascii() {
    let (tokens, _, result) = scan("été = naïve2;");
    assert_eq!(result, Ok(()));
    assert_eq!(tokens[0], Token::new(TokenType::Identifier, "été".to_string(), 1));
    assert_eq!(tokens[2], Token::new(TokenType::Identifier, "naïve2".to_string(), 1));
}

#[test]
fn number_takes_a_fraction_only_with_a_digit_behind_the_dot() {
    let (tokens, _, _) = scan("12.5 7. .5 1.2.3");
    let seen: Vec<(TokenType, &str)> =
        tokens.iter().map(|t| (t.token_type, t.lexeme.as_str())).collect();
    assert_eq!(
        seen,
        vec![
            (TokenType::Number, "12.5"),
            (TokenType::Number, "7"),
            (TokenType::Dot, "."),
            (TokenType::Dot, "."),
            (TokenType::Number, "5"),
            (TokenType::Number, "1.2"),
            (TokenType::Dot, "."),
            (TokenType::Number, "3"),
            (TokenType::Eof, ""),
        ]
    );
}

#[test]
fn string_spanning_lines_ends_on_its_last_line() {
    let (tokens, _, result) = scan("\"a\nb\nc\" x");
    assert_eq!(result, Ok(()));
    assert_eq!(tokens[0], Token::new(TokenType::String, "\"a\nb\nc\"".to_string(), 3));
    assert_eq!(tokens[0].literal(), Some(Literal::String("a\nb\nc".to_string())));
    assert_eq!(tokens[1].line, 3);
}

#[test]
fn literal_of_tokens() {
    assert_eq!(
        Token::new(TokenType::Number, "1.50".to_string(), 1).literal(),
        Some(Literal::Number("1.50".to_string()))
    );
    assert_eq!(
        Token::new(TokenType::String, "\"\"".to_string(), 1).literal(),
        Some(Literal::String(String::new()))
    );
    assert_eq!(Token::new(TokenType::Identifier, "abc".to_string(), 1).literal(), None);
}

#[test]
fn unterminated_string_is_reported_and_ends_the_scan() {
    let (tokens, messages, result) = scan("1 \"abc\ndef");
    assert_eq!(result, Err(Failure::Syntax));
    assert_eq!(messages, vec!["[line 2] Error: Unterminated string."]);
    assert_eq!(
        tokens,
        vec![
            Token::new(TokenType::Number, "1".to_string(), 1),
            Token::new(TokenType::Eof, String::new(), 2),
        ]
    );
}

#[test]
fn unexpected_characters_are_reported_and_scanning_goes_on() {
    let (tokens, messages, result) = scan(",.$(#\n@");
    assert_eq!(result, Err(Failure::Syntax));
    assert_eq!(
        messages,
        vec![
            "[line 1] Error: Unexpected character: $",
            "[line 1] Error: Unexpected character: #",
            "[line 2] Error: Unexpected character: @",
        ]
    );
    assert_eq!(
        tokens.iter().map(|t| t.token_type).collect::<Vec<_>>(),
        vec![TokenType::Comma, TokenType::Dot, TokenType::LeftParen, TokenType::Eof]
    );
}

#[test]
fn only_blank_tab_and_carriage_return_are_skipped() {
    let (_, messages, result) = scan("a \t\r b");
    assert_eq!(result, Ok(()));
    assert!(messages.is_empty());
    let (_, messages, result) = scan("a\u{a0}b");
    assert_eq!(result, Err(Failure::Syntax));
    assert_eq!(messages, vec!["[line 1] Error: Unexpected character: \u{a0}"]);
}

#[test]
fn line_numbers_have_all_their_digits() {
    let source = "\n".repeat(1204) + "?";
    let (_, messages, _) = scan(&source);
    assert_eq!(messages, vec!["[line 1205] Error: Unexpected character: ?"]);
}

#[test]
fn scanning_again_gives_the_same_tokens() {
    let mut scanner = Scanner::new("var a = 1;");
    assert_eq!(scanner.tokenize(), Ok(()));
    let first = scanner.tokens().clone();
    assert_eq!(scanner.tokenize(), Ok(()));
    assert_eq!(&first, scanner.tokens());
}

#[test]
fn kind_names() {
    assert_eq!(TokenType::LeftParen.name(), "LEFT_PAREN");
    assert_eq!(TokenType::GreaterEqual.name(), "GREATER_EQUAL");
    assert_eq!(TokenType::SemiColon.name(), "SEMICOLON");
    assert_eq!(TokenType::Identifier.name(), "IDENTIFIER");
    assert_eq!(TokenType::While.name(), "WHILE");
    assert_eq!(TokenType::Eof.name(), "EOF");
}

#[test]
fn exit_codes() {
    assert_eq!(Failure::Syntax.exit_code(), 65);
    assert_eq!(Failure::Runtime.exit_code(), 70);
}

#[test]
fn report_formats_its_diagnostics() {
    let mut report = treewalk::scanner::ScanReport::new();
    assert!(!report.had_error);
    report.error(7, "Unterminated string.");
    report.report(10, " at 'x'", "odd");
    assert!(report.had_error);
    assert_eq!(
        report.messages,
        vec!["[line 7] Error: Unterminated string.", "[line 10] Error at 'x': odd"]
    );
}

#[test]
fn taking_the_tokens_leaves_none() {
    let mut scanner = Scanner::new("a $");
    assert_eq!(scanner.tokenize(), Err(Failure::Syntax));
    assert_eq!(scanner.take_tokens().len(), 2);
    assert!(scanner.tokens().is_empty());
    assert_eq!(scanner.take_messages().len(), 1);
    assert!(scanner.messages().is_empty());
}

#[test]
fn decimal_numerals_and_diagnostics() {
    let mut text = String::new();
    treewalk::text::push_decimal(&mut text, 0);
    text.push(' ');
    treewalk::text::push_decimal(&mut text, 9);
    text.push(' ');
    treewalk::text::push_decimal(&mut text, 10);
    text.push(' ');
    treewalk::text::push_decimal(&mut text, 4096);
    assert_eq!(text, "0 9 10 4096");
    assert_eq!(treewalk::text::compose(3, " at end", "m"), "[line 3] Error at end: m");
    assert_eq!(treewalk::text::to_chars("aé"), vec!['a', 'é']);
    assert_eq!(treewalk::text::collect(&vec!['a', 'b', 'c', 'd'], 1, 3), "bc");
}
