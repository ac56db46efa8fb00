//! The grammar, as functions from a token sequence and a position to what
//! stands there: the tree of the construct and the number of tokens it
//! spans, or the fault that was found and the number of tokens passed over.
//!
//! ```text
//! program     -> statement* EOF
//! statement   -> "{" statement* "}"
//!              | "print" value end
//!              | "while" "(" value ")" statement
//!              | "for" "(" ( ";" | "var" declaration | value end )
//!                          ( ";" | value ";" ) value? ")" statement
//!              | "if" "(" value ")" statement ( "else" statement )?
//!              | "var" declaration
//!              | value end
//! declaration -> IDENTIFIER ( "=" value )? end
//! end         -> ";" | nothing, before EOF
//! value       -> IDENTIFIER "=" value | binary(0)
//! binary(n)   -> binary(n+1) ( operator(n) binary(n+1) )*      n = 0..5
//! binary(6)   -> unary
//! unary       -> ( "!" | "-" ) unary | primary
//! primary     -> "true" | "false" | "nil" | NUMBER | STRING | IDENTIFIER
//!              | "(" value ")"
//! ```
//!
//! The operators of level 0 to 5 are `or`; `and`; `!=` `==`; `>` `>=` `<`
//! `<=`; `-` `+`; `/` `*`.

use vstd::prelude::*;
use crate::ast::ExprView;
use crate::ast::StmtView;
use crate::token::TokenType;
use crate::token::TokenView;

verus! {

/// What the parser can say of a token it did not expect.
#[derive(Clone, Copy, Debug, PartialEq, Eq, Structural)]
pub enum Message {
    ExpectExpression,
    UnmatchedParentheses,
    ExpectParenAfterWhile,
    ExpectParenAfterCondition,
    ExpectParenAfterFor,
    ExpectSemicolonAfterLoopCondition,
    ExpectParenAfterClauses,
    ExpectParenAfterIf,
    ExpectParenAfterIfCondition,
    ExpectBrace,
    ExpectSemicolon,
}

impl Message {
    /// The wording of the message.
    pub open spec fn spec_text(self) -> Seq<char> {
        match self {
            Message::ExpectExpression => "Expect expression."@,
            Message::UnmatchedParentheses => "Unmatched parentheses."@,
            Message::ExpectParenAfterWhile => "Expect '(' after 'while'."@,
            Message::ExpectParenAfterCondition => "Expect ')' after condition."@,
            Message::ExpectParenAfterFor => "Expect '(' after 'for'."@,
            Message::ExpectSemicolonAfterLoopCondition => "Expect ';' after loop condition."@,
            Message::ExpectParenAfterClauses => "Expect ')' after for clauses."@,
            Message::ExpectParenAfterIf => "Expect '(' after 'if'."@,
            Message::ExpectParenAfterIfCondition => "Expect ')' after if condition."@,
            Message::ExpectBrace => "Expect '}' ."@,
            Message::ExpectSemicolon => "Expect ';' after expression."@,
        }
    }

    /// The wording of the message.
    pub fn text(self) -> (r: &'static str)
        ensures
            r@ == self.spec_text(),
    {
        match self {
            Message::ExpectExpression => "Expect expression.",
            Message::UnmatchedParentheses => "Unmatched parentheses.",
            Message::ExpectParenAfterWhile => "Expect '(' after 'while'.",
            Message::ExpectParenAfterCondition => "Expect ')' after condition.",
            Message::ExpectParenAfterFor => "Expect '(' after 'for'.",
            Message::ExpectSemicolonAfterLoopCondition => "Expect ';' after loop condition.",
            Message::ExpectParenAfterClauses => "Expect ')' after for clauses.",
            Message::ExpectParenAfterIf => "Expect '(' after 'if'.",
            Message::ExpectParenAfterIfCondition => "Expect ')' after if condition.",
            Message::ExpectBrace => "Expect '}' .",
            Message::ExpectSemicolon => "Expect ';' after expression.",
        }
    }
}

/// A syntax error: the index of the token it is reported at, and the message.
pub struct Fault {
    pub at: int,
    pub message: Message,
}

/// What stands at a position: the construct, or the fault found while
/// reading it, and the number of tokens read.
pub struct Parsed<T> {
    pub result: Result<T, Fault>,
    pub used: nat,
}

/// The kind of the token at `pos`; end of file outside the sequence.
pub open spec fn kind_at(tokens: Seq<TokenView>, pos: int) -> TokenType {
    if 0 <= pos < tokens.len() {
        tokens[pos].token_type
    } else {
        TokenType::Eof
    }
}

/// The number of tokens from `pos` on.
pub open spec fn remaining(tokens: Seq<TokenView>, pos: int) -> nat {
    if pos <= tokens.len() {
        (tokens.len() - pos) as nat
    } else {
        0
    }
}

/// The same outcome, with `by` more tokens read before it.
pub open spec fn shift<T>(p: Parsed<T>, by: nat) -> Parsed<T> {
    Parsed { result: p.result, used: p.used + by }
}

/// The construct `value`, spanning `used` tokens.
pub open spec fn found<T>(value: T, used: nat) -> Parsed<T> {
    Parsed { result: Ok(value), used }
}

/// The fault `fault`, found after `used` tokens.
pub open spec fn failed<T>(fault: Fault, used: nat) -> Parsed<T> {
    Parsed { result: Err(fault), used }
}

/// A fault at the token at `pos`, which is passed over unless it is the end
/// of file.
pub open spec fn reject<T>(tokens: Seq<TokenView>, pos: int, message: Message) -> Parsed<T> {
    failed(
        Fault { at: pos, message },
        if kind_at(tokens, pos) == TokenType::Eof {
            0
        } else {
            1
        },
    )
}

/// A token of kind `kind` at `pos`, or else the fault `message`.
pub open spec fn expect(tokens: Seq<TokenView>, pos: int, kind: TokenType, message: Message)
    -> Parsed<()> {
    if kind != TokenType::Eof && kind_at(tokens, pos) == kind {
        found((), 1)
    } else {
        reject(tokens, pos, message)
    }
}

/// The end of a simple statement: a `;`, or nothing where the input ends.
pub open spec fn terminator(tokens: Seq<TokenView>, pos: int) -> Parsed<()> {
    if kind_at(tokens, pos) == TokenType::SemiColon {
        found((), 1)
    } else if kind_at(tokens, pos) == TokenType::Eof {
        found((), 0)
    } else {
        reject(tokens, pos, Message::ExpectSemicolon)
    }
}

/// Whether a token of this kind is a primary expression by itself.
pub open spec fn is_atom(kind: TokenType) -> bool {
    kind == TokenType::False || kind == TokenType::True || kind == TokenType::Nil || kind
        == TokenType::Number || kind == TokenType::String || kind == TokenType::Identifier
}

/// Whether `kind` is a binary operator of precedence level `level`, where 0
/// binds loosest.
pub open spec fn binds(level: nat, kind: TokenType) -> bool {
    if level == 0 {
        kind == TokenType::Or
    } else if level == 1 {
        kind == TokenType::And
    } else if level == 2 {
        kind == TokenType::BangEqual || kind == TokenType::EqualEqual
    } else if level == 3 {
        kind == TokenType::Greater || kind == TokenType::GreaterEqual || kind == TokenType::Less
            || kind == TokenType::LessEqual
    } else if level == 4 {
        kind == TokenType::Minus || kind == TokenType::Plus
    } else if level == 5 {
        kind == TokenType::Slash || kind == TokenType::Star
    } else {
        false
    }
}

/// The rank of `binary(level)` in the order in which the grammar's functions
/// may call one another without reading a token.
pub open spec fn binary_rank(level: nat) -> nat {
    if level >= 6 {
        30
    } else {
        (30 + 2 * (6 - level)) as nat
    }
}

/// A literal, a name, or a value between parentheses.
pub open spec fn primary(tokens: Seq<TokenView>, pos: int) -> Parsed<ExprView>
    decreases remaining(tokens, pos), 10nat,
{
    let kind = kind_at(tokens, pos);
    if is_atom(kind) {
        found(ExprView::Literal(tokens[pos]), 1)
    } else if kind == TokenType::LeftParen {
        let inner = value(tokens, pos + 1);
        match inner.result {
            Err(fault) => failed(fault, inner.used + 1),
            Ok(s) => {
                let close = expect(
                    tokens,
                    pos + 1 + inner.used,
                    TokenType::RightParen,
                    Message::UnmatchedParentheses,
                );
                match close.result {
                    Err(fault) => failed(fault, inner.used + 1 + close.used),
                    Ok(_) => found(ExprView::Group(Box::new(s)), inner.used + 2),
                }
            },
        }
    } else {
        reject(tokens, pos, Message::ExpectExpression)
    }
}

/// Any number of `!` and `-`, and the primary expression they apply to.
pub open spec fn unary(tokens: Seq<TokenView>, pos: int) -> Parsed<ExprView>
    decreases remaining(tokens, pos), 20nat,
{
    let kind = kind_at(tokens, pos);
    if kind == TokenType::Bang || kind == TokenType::Minus {
        let operand = unary(tokens, pos + 1);
        match operand.result {
            Err(fault) => failed(fault, operand.used + 1),
            Ok(e) => found(ExprView::Unary(tokens[pos], Box::new(e)), operand.used + 1),
        }
    } else {
        primary(tokens, pos)
    }
}

/// The operators and right operands of level `level` that follow the
/// operand `left`, folded to the left.
pub open spec fn binary_tail(tokens: Seq<TokenView>, pos: int, level: nat, left: ExprView)
    -> Parsed<ExprView>
    decreases remaining(tokens, pos), (binary_rank(level) - 1) as nat,
{
    if level < 6 && binds(level, kind_at(tokens, pos)) {
        let right = binary(tokens, pos + 1, level + 1);
        match right.result {
            Err(fault) => failed(fault, right.used + 1),
            Ok(e) => shift(
                binary_tail(
                    tokens,
                    pos + 1 + right.used,
                    level,
                    ExprView::Binary(Box::new(left), tokens[pos], Box::new(e)),
                ),
                right.used + 1,
            ),
        }
    } else {
        found(left, 0)
    }
}

/// An expression whose operators are of level `level` or bind tighter:
/// operands of the next level, joined from left to right by operators of
/// this level.
pub open spec fn binary(tokens: Seq<TokenView>, pos: int, level: nat) -> Parsed<ExprView>
    decreases remaining(tokens, pos), binary_rank(level),
{
    if level >= 6 {
        unary(tokens, pos)
    } else {
        let first = binary(tokens, pos, level + 1);
        match first.result {
            Err(fault) => first,
            Ok(left) => shift(binary_tail(tokens, pos + first.used, level, left), first.used),
        }
    }
}

/// An expression or an assignment.
pub open spec fn value(tokens: Seq<TokenView>, pos: int) -> Parsed<StmtView>
    decreases remaining(tokens, pos), 50nat,
{
    if kind_at(tokens, pos) == TokenType::Identifier && kind_at(tokens, pos + 1)
        == TokenType::Equal {
        let operand = value(tokens, pos + 2);
        match operand.result {
            Err(fault) => failed(fault, operand.used + 2),
            Ok(s) => found(
                StmtView::Assign(tokens[pos].lexeme, Box::new(s)),
                operand.used + 2,
            ),
        }
    } else {
        let e = binary(tokens, pos, 0);
        match e.result {
            Err(fault) => failed(fault, e.used),
            Ok(e1) => found(StmtView::Expr(e1), e.used),
        }
    }
}

/// A value and the end of the statement that it makes.
pub open spec fn simple(tokens: Seq<TokenView>, pos: int) -> Parsed<StmtView>
    decreases remaining(tokens, pos), 60nat,
{
    let v = value(tokens, pos);
    match v.result {
        Err(fault) => v,
        Ok(s) => {
            let end = terminator(tokens, pos + v.used);
            match end.result {
                Err(fault) => failed(fault, v.used + end.used),
                Ok(_) => found(s, v.used + end.used),
            }
        },
    }
}

/// What follows `var`. A missing name is reported at the `var` itself.
pub open spec fn declaration(tokens: Seq<TokenView>, pos: int) -> Parsed<StmtView>
    decreases remaining(tokens, pos), 70nat,
{
    if kind_at(tokens, pos) != TokenType::Identifier {
        failed(Fault { at: pos - 1, message: Message::ExpectExpression }, 0)
    } else if kind_at(tokens, pos + 1) == TokenType::Equal {
        let init = simple(tokens, pos + 2);
        match init.result {
            Err(fault) => failed(fault, init.used + 2),
            Ok(s) => found(
                StmtView::Declare(tokens[pos].lexeme, Some(Box::new(s))),
                init.used + 2,
            ),
        }
    } else {
        let end = terminator(tokens, pos + 1);
        match end.result {
            Err(fault) => failed(fault, end.used + 1),
            Ok(_) => found(StmtView::Declare(tokens[pos].lexeme, None), end.used + 1),
        }
    }
}

/// The first clause of a `for`.
pub open spec fn for_initializer(tokens: Seq<TokenView>, pos: int) -> Parsed<
    Option<Box<StmtView>>,
>
    decreases remaining(tokens, pos), 80nat,
{
    if kind_at(tokens, pos) == TokenType::SemiColon {
        found(None, 1)
    } else if kind_at(tokens, pos) == TokenType::Var {
        let d = declaration(tokens, pos + 1);
        match d.result {
            Err(fault) => failed(fault, d.used + 1),
            Ok(s) => found(Some(Box::new(s)), d.used + 1),
        }
    } else {
        let v = simple(tokens, pos);
        match v.result {
            Err(fault) => failed(fault, v.used),
            Ok(s) => found(Some(Box::new(s)), v.used),
        }
    }
}

/// The second clause of a `for`.
pub open spec fn for_condition(tokens: Seq<TokenView>, pos: int) -> Parsed<
    Option<Box<StmtView>>,
>
    decreases remaining(tokens, pos), 80nat,
{
    if kind_at(tokens, pos) == TokenType::SemiColon {
        found(None, 1)
    } else {
        let v = value(tokens, pos);
        match v.result {
            Err(fault) => failed(fault, v.used),
            Ok(s) => {
                let end = expect(
                    tokens,
                    pos + v.used,
                    TokenType::SemiColon,
                    Message::ExpectSemicolonAfterLoopCondition,
                );
                match end.result {
                    Err(fault) => failed(fault, v.used + end.used),
                    Ok(_) => found(Some(Box::new(s)), v.used + 1),
                }
            },
        }
    }
}

/// The third clause of a `for`, with the `)` that closes the clauses.
pub open spec fn for_increment(tokens: Seq<TokenView>, pos: int) -> Parsed<
    Option<Box<StmtView>>,
>
    decreases remaining(tokens, pos), 80nat,
{
    if kind_at(tokens, pos) == TokenType::RightParen {
        found(None, 1)
    } else {
        let v = value(tokens, pos);
        match v.result {
            Err(fault) => failed(fault, v.used),
            Ok(s) => {
                let end = expect(
                    tokens,
                    pos + v.used,
                    TokenType::RightParen,
                    Message::ExpectParenAfterClauses,
                );
                match end.result {
                    Err(fault) => failed(fault, v.used + end.used),
                    Ok(_) => found(Some(Box::new(s)), v.used + 1),
                }
            },
        }
    }
}

/// What follows `for`.
pub open spec fn for_rest(tokens: Seq<TokenView>, pos: int) -> Parsed<StmtView>
    decreases remaining(tokens, pos), 90nat,
{
    let open = expect(tokens, pos, TokenType::LeftParen, Message::ExpectParenAfterFor);
    match open.result {
        Err(fault) => failed(fault, open.used),
        Ok(_) => {
            let init = for_initializer(tokens, pos + 1);
            match init.result {
                Err(fault) => failed(fault, init.used + 1),
                Ok(initializer) => {
                    let p2 = pos + 1 + init.used;
                    let cond = for_condition(tokens, p2);
                    match cond.result {
                        Err(fault) => failed(fault, init.used + 1 + cond.used),
                        Ok(condition) => {
                            let p3 = p2 + cond.used;
                            let incr = for_increment(tokens, p3);
                            match incr.result {
                                Err(fault) => failed(fault, init.used + 1 + cond.used + incr.used),
                                Ok(increment) => {
                                    let p4 = p3 + incr.used;
                                    let body = statement(tokens, p4);
                                    let used = init.used + 1 + cond.used + incr.used + body.used;
                                    match body.result {
                                        Err(fault) => failed(fault, used),
                                        Ok(b) => found(
                                            StmtView::For(
                                                initializer,
                                                condition,
                                                increment,
                                                Box::new(b),
                                            ),
                                            used,
                                        ),
                                    }
                                },
                            }
                        },
                    }
                },
            }
        },
    }
}

/// A condition between parentheses, with the message for each missing
/// parenthesis. On success `used` counts the tokens of the condition
/// without the two parentheses; on failure, every token read.
pub open spec fn condition(tokens: Seq<TokenView>, pos: int, opening: Message, closing: Message)
    -> Parsed<StmtView>
    decreases remaining(tokens, pos), 90nat,
{
    let open = expect(tokens, pos, TokenType::LeftParen, opening);
    match open.result {
        Err(fault) => failed(fault, open.used),
        Ok(_) => {
            let v = value(tokens, pos + 1);
            match v.result {
                Err(fault) => failed(fault, v.used + 1),
                Ok(s) => {
                    let close = expect(tokens, pos + 1 + v.used, TokenType::RightParen, closing);
                    match close.result {
                        Err(fault) => failed(fault, v.used + 1 + close.used),
                        Ok(_) => found(s, v.used),
                    }
                },
            }
        },
    }
}

/// What follows `while`.
pub open spec fn while_rest(tokens: Seq<TokenView>, pos: int) -> Parsed<StmtView>
    decreases remaining(tokens, pos), 95nat,
{
    let c = condition(
        tokens,
        pos,
        Message::ExpectParenAfterWhile,
        Message::ExpectParenAfterCondition,
    );
    match c.result {
        Err(fault) => c,
        Ok(cond) => {
            let body = statement(tokens, pos + c.used + 2);
            match body.result {
                Err(fault) => failed(fault, c.used + 2 + body.used),
                Ok(b) => found(
                    StmtView::While(Box::new(cond), Box::new(b)),
                    c.used + 2 + body.used,
                ),
            }
        },
    }
}

/// What follows `if`.
pub open spec fn if_rest(tokens: Seq<TokenView>, pos: int) -> Parsed<StmtView>
    decreases remaining(tokens, pos), 95nat,
{
    let c = condition(
        tokens,
        pos,
        Message::ExpectParenAfterIf,
        Message::ExpectParenAfterIfCondition,
    );
    match c.result {
        Err(fault) => c,
        Ok(cond) => {
            let p1 = pos + c.used + 2;
            let first = statement(tokens, p1);
            match first.result {
                Err(fault) => failed(fault, c.used + 2 + first.used),
                Ok(consequent) => {
                    let p2 = p1 + first.used;
                    if kind_at(tokens, p2) == TokenType::Else {
                        let second = statement(tokens, p2 + 1);
                        let used = c.used + 2 + first.used + 1 + second.used;
                        match second.result {
                            Err(fault) => failed(fault, used),
                            Ok(alternative) => found(
                                StmtView::If(
                                    Box::new(cond),
                                    Box::new(consequent),
                                    Some(Box::new(alternative)),
                                ),
                                used,
                            ),
                        }
                    } else {
                        found(
                            StmtView::If(Box::new(cond), Box::new(consequent), None),
                            c.used + 2 + first.used,
                        )
                    }
                },
            }
        },
    }
}

/// `n`, or 1 where `n` is 0. After a statement the grammar goes on at least
/// one token further; by [`lemma_statement_advances`] that is the number of
/// tokens that the statement spans.
pub open spec fn at_least_one(n: nat) -> nat {
    if n == 0 {
        1
    } else {
        n
    }
}

/// The statements of a block and its closing brace, after the statements
/// `done`.
pub open spec fn block(tokens: Seq<TokenView>, pos: int, done: Seq<StmtView>) -> Parsed<StmtView>
    decreases remaining(tokens, pos), 110nat,
{
    if kind_at(tokens, pos) == TokenType::RightBrace {
        found(StmtView::Block(done), 1)
    } else if kind_at(tokens, pos) == TokenType::Eof {
        reject(tokens, pos, Message::ExpectBrace)
    } else {
        let s = statement(tokens, pos);
        match s.result {
            Err(fault) => s,
            Ok(st) => shift(
                block(tokens, pos + at_least_one(s.used), done.push(st)),
                at_least_one(s.used),
            ),
        }
    }
}

/// A statement, told by its first token.
pub open spec fn statement(tokens: Seq<TokenView>, pos: int) -> Parsed<StmtView>
    decreases remaining(tokens, pos), 100nat,
{
    let kind = kind_at(tokens, pos);
    if kind == TokenType::LeftBrace {
        shift(block(tokens, pos + 1, Seq::empty()), 1)
    } else if kind == TokenType::Print {
        let v = simple(tokens, pos + 1);
        match v.result {
            Err(fault) => failed(fault, v.used + 1),
            Ok(s) => found(StmtView::Print(Box::new(s)), v.used + 1),
        }
    } else if kind == TokenType::While {
        shift(while_rest(tokens, pos + 1), 1)
    } else if kind == TokenType::For {
        shift(for_rest(tokens, pos + 1), 1)
    } else if kind == TokenType::If {
        shift(if_rest(tokens, pos + 1), 1)
    } else if kind == TokenType::Var {
        shift(declaration(tokens, pos + 1), 1)
    } else {
        simple(tokens, pos)
    }
}

/// A primary expression spans at least one token, unless it stands at the
/// end of file.
pub proof fn lemma_primary_advances(tokens: Seq<TokenView>, pos: int)
    requires
        kind_at(tokens, pos) != TokenType::Eof,
    ensures
        primary(tokens, pos).used >= 1,
{
}

/// A unary expression spans at least one token, unless it stands at the end
/// of file.
pub proof fn lemma_unary_advances(tokens: Seq<TokenView>, pos: int)
    requires
        kind_at(tokens, pos) != TokenType::Eof,
    ensures
        unary(tokens, pos).used >= 1,
{
    lemma_primary_advances(tokens, pos);
}

/// An operand spans at least one token, unless it stands at the end of file.
pub proof fn lemma_binary_advances(tokens: Seq<TokenView>, pos: int, level: nat)
    requires
        kind_at(tokens, pos) != TokenType::Eof,
    ensures
        binary(tokens, pos, level).used >= 1,
    decreases binary_rank(level),
{
    if level < 6 {
        lemma_binary_advances(tokens, pos, level + 1);
    } else {
        lemma_unary_advances(tokens, pos);
    }
}

/// A value spans at least one token, unless it stands at the end of file.
pub proof fn lemma_value_advances(tokens: Seq<TokenView>, pos: int)
    requires
        kind_at(tokens, pos) != TokenType::Eof,
    ensures
        value(tokens, pos).used >= 1,
        simple(tokens, pos).used >= 1,
{
    lemma_binary_advances(tokens, pos, 0);
}

/// A statement spans at least one token, unless it stands at the end of
/// file: so does a fault found in it.
pub proof fn lemma_statement_advances(tokens: Seq<TokenView>, pos: int)
    requires
        kind_at(tokens, pos) != TokenType::Eof,
    ensures
        statement(tokens, pos).used >= 1,
        at_least_one(statement(tokens, pos).used) == statement(tokens, pos).used,
{
    lemma_value_advances(tokens, pos);
}

/// The outcome of parsing a whole token list: the statements that were
/// read, and the faults, each in source order.
pub struct Program {
    pub statements: Seq<StmtView>,
    pub faults: Seq<Fault>,
}

/// The statements and faults from `pos` on. After a fault, reading goes on
/// behind the tokens that the faulty statement took.
pub open spec fn program_from(tokens: Seq<TokenView>, pos: int) -> Program
    decreases remaining(tokens, pos),
{
    if kind_at(tokens, pos) == TokenType::Eof {
        Program { statements: Seq::empty(), faults: Seq::empty() }
    } else {
        let s = statement(tokens, pos);
        let rest = program_from(tokens, pos + at_least_one(s.used));
        match s.result {
            Ok(st) => Program { statements: seq![st] + rest.statements, faults: rest.faults },
            Err(fault) => Program { statements: rest.statements, faults: seq![fault] + rest.faults },
        }
    }
}

/// The outcome of parsing `tokens`.
pub open spec fn program(tokens: Seq<TokenView>) -> Program {
    program_from(tokens, 0)
}

} // verus!
