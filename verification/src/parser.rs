//! The parser: recursive descent over the token list, one function for each
//! rule of the grammar, each proved to read what the grammar says.

use vstd::prelude::*;
use crate::ast::lemma_stmts_view_push;
use crate::ast::stmts_view;
use crate::ast::Expr;
use crate::ast::ExprView;
use crate::ast::Stmt;
use crate::ast::StmtView;
use crate::grammar;
use crate::grammar::binary_rank;
use crate::grammar::binds;
use crate::grammar::kind_at;
use crate::grammar::program;
use crate::grammar::program_from;
use crate::grammar::shift;
use crate::grammar::Fault;
use crate::grammar::Message;
use crate::grammar::Parsed;
use crate::status::Failure;
use crate::text::compose;
use crate::text::diagnostic;
use crate::text::texts;
use crate::token::tokens_view;
use crate::token::Token;
use crate::token::TokenType;
use crate::token::TokenView;

verus! {

/// A syntax error: the index of the token it is reported at, and the message.
#[derive(Clone, Copy, Debug, PartialEq, Eq, Structural)]
pub struct SyntaxError {
    pub at: usize,
    pub message: Message,
}

impl View for SyntaxError {
    type V = Fault;

    open spec fn view(&self) -> Fault {
        Fault { at: self.at as int, message: self.message }
    }
}

/// A token list that the parser accepts: it ends in an end-of-file token.
pub open spec fn well_formed(tokens: Seq<TokenView>) -> bool {
    tokens.len() > 0 && tokens.last().token_type == TokenType::Eof
}

/// Reading from `pos` to `end` stayed inside the list and passed no
/// end-of-file token.
pub open spec fn within(tokens: Seq<TokenView>, pos: int, end: int) -> bool {
    &&& 0 <= pos <= end < tokens.len()
    &&& forall|i: int| pos <= i < end ==> (#[trigger] tokens[i]).token_type != TokenType::Eof
}

/// A fault lies at a token of the list.
pub open spec fn error_inside<T>(tokens: Seq<TokenView>, r: Result<T, SyntaxError>) -> bool {
    match r {
        Ok(_) => true,
        Err(e) => e.at < tokens.len(),
    }
}

/// Whether `r`, read from `pos` on, has no more in it than the grammar's
/// outcome `p`: the same success or fault, and the position behind the
/// tokens read.
pub open spec fn agrees_unit(r: (Result<(), SyntaxError>, usize), pos: usize, p: Parsed<()>)
    -> bool {
    &&& r.1 == pos + p.used
    &&& match r.0 {
        Ok(_) => p.result is Ok,
        Err(e) => p.result == Err::<(), Fault>(e@),
    }
}

/// Whether `r`, read from `pos` on, is the grammar's outcome `p`: the same
/// expression or fault, and the position behind the tokens read.
pub open spec fn agrees_expr(
    r: (Result<Expr, SyntaxError>, usize),
    pos: usize,
    p: Parsed<ExprView>,
) -> bool {
    &&& r.1 == pos + p.used
    &&& match r.0 {
        Ok(e) => p.result == Ok::<ExprView, Fault>(e@),
        Err(e) => p.result == Err::<ExprView, Fault>(e@),
    }
}

/// Whether `r`, read from `pos` on, is the grammar's outcome `p`: the same
/// statement or fault, and the position behind the tokens read.
pub open spec fn agrees_stmt(
    r: (Result<Stmt, SyntaxError>, usize),
    pos: usize,
    p: Parsed<StmtView>,
) -> bool {
    &&& r.1 == pos + p.used
    &&& match r.0 {
        Ok(s) => p.result == Ok::<StmtView, Fault>(s@),
        Err(e) => p.result == Err::<StmtView, Fault>(e@),
    }
}

/// Whether `r`, read from `pos` on, is the grammar's outcome `p`: the same
/// clause or fault, and the position behind the tokens read.
pub open spec fn agrees_clause(
    r: (Result<Option<Box<Stmt>>, SyntaxError>, usize),
    pos: usize,
    p: Parsed<Option<Box<StmtView>>>,
) -> bool {
    &&& r.1 == pos + p.used
    &&& match r.0 {
        Ok(s) => p.result == Ok::<Option<Box<StmtView>>, Fault>(crate::ast::optional_view(s)),
        Err(e) => p.result == Err::<Option<Box<StmtView>>, Fault>(e@),
    }
}

/// Where the diagnostic of a token says it stands: `at end` for a token
/// without a lexeme, as the end of file is, otherwise the quoted lexeme.
pub open spec fn location(lexeme: Seq<char>) -> Seq<char> {
    if lexeme.len() == 0 {
        " at end"@
    } else {
        " at '"@ + lexeme + "'"@
    }
}

/// The diagnostic for a fault in `tokens`.
pub open spec fn fault_text(tokens: Seq<TokenView>, fault: Fault) -> Seq<char> {
    let token = tokens[fault.at];
    diagnostic(token.line, location(token.lexeme), fault.message.spec_text())
}

/// The diagnostics for a sequence of faults.
pub open spec fn fault_texts(tokens: Seq<TokenView>, faults: Seq<Fault>) -> Seq<Seq<char>> {
    faults.map_values(|f: Fault| fault_text(tokens, f))
}

/// Collects what the parser reports.
#[derive(Debug)]
pub struct ErrorReporter {
    pub had_error: bool,
    pub messages: Vec<String>,
}

impl ErrorReporter {
    /// A reporter that has reported nothing.
    pub fn new() -> (r: ErrorReporter)
        ensures
            !r.had_error,
            r.messages@.len() == 0,
    {
        ErrorReporter { had_error: false, messages: Vec::new() }
    }

    /// Records the diagnostic `[line N] Error at '<token>': <message>`, or
    /// `[line N] Error at end: <message>` when `token` is empty.
    pub fn error(&mut self, line: usize, token: &str, message: &str)
        ensures
            final(self).had_error,
            texts(final(self).messages@) == texts(old(self).messages@).push(
                diagnostic(line as nat, location(token@), message@),
            ),
    {
        let text = if token.unicode_len() == 0 {
            compose(line, " at end", message)
        } else {
            let mut place = String::from_str(" at '");
            place.append(token);
            place.append("'");
            compose(line, place.as_str(), message)
        };
        self.messages.push(text);
        self.had_error = true;
        assert(texts(self.messages@) =~= texts(old(self).messages@).push(
            diagnostic(line as nat, location(token@), message@),
        ));
    }
}

/// The kind of the token at `pos`; end of file outside the list.
fn kind_of(tokens: &[Token], pos: usize) -> (k: TokenType)
    ensures
        k == kind_at(tokens_view(tokens@), pos as int),
{
    if pos < tokens.len() {
        tokens[pos].token_type
    } else {
        TokenType::Eof
    }
}

fn reject_at(tokens: &[Token], pos: usize, message: Message) -> (r: (SyntaxError, usize))
    requires
        well_formed(tokens_view(tokens@)),
        pos < tokens.len(),
    ensures
        r.0@ == (Fault { at: pos as int, message }),
        r.1 == pos + grammar::reject::<()>(tokens_view(tokens@), pos as int, message).used,
        within(tokens_view(tokens@), pos as int, r.1 as int),
        r.0.at == pos,
{
    let end = if kind_of(tokens, pos) == TokenType::Eof {
        pos
    } else {
        pos + 1
    };
    (SyntaxError { at: pos, message }, end)
}

fn expect_token(tokens: &[Token], pos: usize, kind: TokenType, message: Message) -> (r: (
    Result<(), SyntaxError>,
    usize,
))
    requires
        well_formed(tokens_view(tokens@)),
        pos < tokens.len(),
    ensures
        agrees_unit(r, pos, grammar::expect(tokens_view(tokens@), pos as int, kind, message)),
        within(tokens_view(tokens@), pos as int, r.1 as int),
        error_inside(tokens_view(tokens@), r.0),
{
    if kind != TokenType::Eof && kind_of(tokens, pos) == kind {
        (Ok(()), pos + 1)
    } else {
        let (e, end) = reject_at(tokens, pos, message);
        (Err(e), end)
    }
}

fn end_of_statement(tokens: &[Token], pos: usize) -> (r: (Result<(), SyntaxError>, usize))
    requires
        well_formed(tokens_view(tokens@)),
        pos < tokens.len(),
    ensures
        agrees_unit(r, pos, grammar::terminator(tokens_view(tokens@), pos as int)),
        within(tokens_view(tokens@), pos as int, r.1 as int),
        error_inside(tokens_view(tokens@), r.0),
{
    let kind = kind_of(tokens, pos);
    if kind == TokenType::SemiColon {
        (Ok(()), pos + 1)
    } else if kind == TokenType::Eof {
        (Ok(()), pos)
    } else {
        let (e, end) = reject_at(tokens, pos, Message::ExpectSemicolon);
        (Err(e), end)
    }
}

fn atom(kind: TokenType) -> (r: bool)
    ensures
        r == grammar::is_atom(kind),
{
    kind == TokenType::False || kind == TokenType::True || kind == TokenType::Nil || kind
        == TokenType::Number || kind == TokenType::String || kind == TokenType::Identifier
}

fn binds_at(level: u8, kind: TokenType) -> (r: bool)
    ensures
        r == binds(level as nat, kind),
{
    if level == 0 {
        kind == TokenType::Or
    } else if level == 1 {
        kind == TokenType::And
    } else if level == 2 {
        kind == TokenType::BangEqual || kind == TokenType::EqualEqual
    } else if level == 3 {
        kind == TokenType::Greater || kind == TokenType::GreaterEqual || kind == TokenType::Less
            || kind == TokenType::LessEqual
    } else if level == 4 {
        kind == TokenType::Minus || kind == TokenType::Plus
    } else if level == 5 {
        kind == TokenType::Slash || kind == TokenType::Star
    } else {
        false
    }
}

fn primary(tokens: &[Token], pos: usize) -> (r: (Result<Expr, SyntaxError>, usize))
    requires
        well_formed(tokens_view(tokens@)),
        pos < tokens.len(),
    ensures
        agrees_expr(r, pos, grammar::primary(tokens_view(tokens@), pos as int)),
        within(tokens_view(tokens@), pos as int, r.1 as int),
        error_inside(tokens_view(tokens@), r.0),
        kind_at(tokens_view(tokens@), pos as int) != TokenType::Eof ==> r.1 > pos,
    decreases tokens.len() - pos, 10nat,
{
    let kind = kind_of(tokens, pos);
    if atom(kind) {
        (Ok(Expr::Literal(tokens[pos].duplicate())), pos + 1)
    } else if kind == TokenType::LeftParen {
        let (inner, at) = value(tokens, pos + 1);
        match inner {
            Err(e) => (Err(e), at),
            Ok(s) => {
                let (close, end) = expect_token(
                    tokens,
                    at,
                    TokenType::RightParen,
                    Message::UnmatchedParentheses,
                );
                match close {
                    Err(e) => (Err(e), end),
                    Ok(_) => (Ok(Expr::Group(Box::new(s))), end),
                }
            },
        }
    } else {
        let (e, end) = reject_at(tokens, pos, Message::ExpectExpression);
        (Err(e), end)
    }
}

fn unary(tokens: &[Token], pos: usize) -> (r: (Result<Expr, SyntaxError>, usize))
    requires
        well_formed(tokens_view(tokens@)),
        pos < tokens.len(),
    ensures
        agrees_expr(r, pos, grammar::unary(tokens_view(tokens@), pos as int)),
        within(tokens_view(tokens@), pos as int, r.1 as int),
        error_inside(tokens_view(tokens@), r.0),
        kind_at(tokens_view(tokens@), pos as int) != TokenType::Eof ==> r.1 > pos,
    decreases tokens.len() - pos, 20nat,
{
    let kind = kind_of(tokens, pos);
    if kind == TokenType::Bang || kind == TokenType::Minus {
        let (operand, end) = unary(tokens, pos + 1);
        match operand {
            Err(e) => (Err(e), end),
            Ok(e) => (Ok(Expr::Unary(tokens[pos].duplicate(), Box::new(e))), end),
        }
    } else {
        primary(tokens, pos)
    }
}

fn binary(tokens: &[Token], pos: usize, level: u8) -> (r: (Result<Expr, SyntaxError>, usize))
    requires
        well_formed(tokens_view(tokens@)),
        pos < tokens.len(),
    ensures
        agrees_expr(r, pos, grammar::binary(tokens_view(tokens@), pos as int, level as nat)),
        within(tokens_view(tokens@), pos as int, r.1 as int),
        error_inside(tokens_view(tokens@), r.0),
        kind_at(tokens_view(tokens@), pos as int) != TokenType::Eof ==> r.1 > pos,
    decreases tokens.len() - pos, binary_rank(level as nat),
{
    if level >= 6 {
        return unary(tokens, pos);
    }
    let ghost ts = tokens_view(tokens@);
    let (first, start) = binary(tokens, pos, level + 1);
    let mut at: usize = start;
    let mut left = match first {
        Err(e) => {
            return (Err(e), at);
        },
        Ok(e) => e,
    };
    while binds_at(level, kind_of(tokens, at))
        invariant
            ts == tokens_view(tokens@),
            well_formed(ts),
            level < 6,
            within(ts, pos as int, at as int),
            grammar::binary(ts, pos as int, level as nat) == shift(
                grammar::binary_tail(ts, at as int, level as nat, left@),
                (at - pos) as nat,
            ),
        decreases tokens.len() - at,
    {
        let op = tokens[at].duplicate();
        let (right, next) = binary(tokens, at + 1, level + 1);
        match right {
            Err(e) => {
                return (Err(e), next);
            },
            Ok(e) => {
                left = Expr::Binary(Box::new(left), op, Box::new(e));
                at = next;
            },
        }
    }
    (Ok(left), at)
}

fn value(tokens: &[Token], pos: usize) -> (r: (Result<Stmt, SyntaxError>, usize))
    requires
        well_formed(tokens_view(tokens@)),
        pos < tokens.len(),
    ensures
        agrees_stmt(r, pos, grammar::value(tokens_view(tokens@), pos as int)),
        within(tokens_view(tokens@), pos as int, r.1 as int),
        error_inside(tokens_view(tokens@), r.0),
        kind_at(tokens_view(tokens@), pos as int) != TokenType::Eof ==> r.1 > pos,
    decreases tokens.len() - pos, 50nat,
{
    if kind_of(tokens, pos) == TokenType::Identifier && kind_of(tokens, pos + 1)
        == TokenType::Equal {
        let (operand, end) = value(tokens, pos + 2);
        match operand {
            Err(e) => (Err(e), end),
            Ok(s) => (Ok(Stmt::Assign(tokens[pos].lexeme.clone(), Box::new(s))), end),
        }
    } else {
        let (e, end) = binary(tokens, pos, 0);
        match e {
            Err(e) => (Err(e), end),
            Ok(e) => (Ok(Stmt::Expr(e)), end),
        }
    }
}

fn simple(tokens: &[Token], pos: usize) -> (r: (Result<Stmt, SyntaxError>, usize))
    requires
        well_formed(tokens_view(tokens@)),
        pos < tokens.len(),
    ensures
        agrees_stmt(r, pos, grammar::simple(tokens_view(tokens@), pos as int)),
        within(tokens_view(tokens@), pos as int, r.1 as int),
        error_inside(tokens_view(tokens@), r.0),
        kind_at(tokens_view(tokens@), pos as int) != TokenType::Eof ==> r.1 > pos,
    decreases tokens.len() - pos, 60nat,
{
    let (v, at) = value(tokens, pos);
    match v {
        Err(e) => (Err(e), at),
        Ok(s) => {
            let (end, next) = end_of_statement(tokens, at);
            match end {
                Err(e) => (Err(e), next),
                Ok(_) => (Ok(s), next),
            }
        },
    }
}

fn declaration(tokens: &[Token], pos: usize) -> (r: (Result<Stmt, SyntaxError>, usize))
    requires
        well_formed(tokens_view(tokens@)),
        1 <= pos < tokens.len(),
    ensures
        agrees_stmt(r, pos, grammar::declaration(tokens_view(tokens@), pos as int)),
        within(tokens_view(tokens@), pos as int, r.1 as int),
        error_inside(tokens_view(tokens@), r.0),
    decreases tokens.len() - pos, 70nat,
{
    proof {
        reveal_with_fuel(crate::ast::stmt_view, 2);
        reveal_with_fuel(crate::ast::optional_view, 2);
    }
    if kind_of(tokens, pos) != TokenType::Identifier {
        (Err(SyntaxError { at: pos - 1, message: Message::ExpectExpression }), pos)
    } else if kind_of(tokens, pos + 1) == TokenType::Equal {
        let (init, end) = simple(tokens, pos + 2);
        match init {
            Err(e) => (Err(e), end),
            Ok(s) => (Ok(Stmt::Declare(tokens[pos].lexeme.clone(), Some(Box::new(s)))), end),
        }
    } else {
        let (end, next) = end_of_statement(tokens, pos + 1);
        match end {
            Err(e) => (Err(e), next),
            Ok(_) => (Ok(Stmt::Declare(tokens[pos].lexeme.clone(), None)), next),
        }
    }
}

fn for_initializer(tokens: &[Token], pos: usize) -> (r: (
    Result<Option<Box<Stmt>>, SyntaxError>,
    usize,
))
    requires
        well_formed(tokens_view(tokens@)),
        pos < tokens.len(),
    ensures
        agrees_clause(r, pos, grammar::for_initializer(tokens_view(tokens@), pos as int)),
        within(tokens_view(tokens@), pos as int, r.1 as int),
        error_inside(tokens_view(tokens@), r.0),
    decreases tokens.len() - pos, 80nat,
{
    proof {
        reveal_with_fuel(crate::ast::stmt_view, 2);
        reveal_with_fuel(crate::ast::optional_view, 2);
    }
    let kind = kind_of(tokens, pos);
    if kind == TokenType::SemiColon {
        (Ok(None), pos + 1)
    } else if kind == TokenType::Var {
        let (d, end) = declaration(tokens, pos + 1);
        match d {
            Err(e) => (Err(e), end),
            Ok(s) => (Ok(Some(Box::new(s))), end),
        }
    } else {
        let (v, end) = simple(tokens, pos);
        match v {
            Err(e) => (Err(e), end),
            Ok(s) => (Ok(Some(Box::new(s))), end),
        }
    }
}

fn for_condition(tokens: &[Token], pos: usize) -> (r: (
    Result<Option<Box<Stmt>>, SyntaxError>,
    usize,
))
    requires
        well_formed(tokens_view(tokens@)),
        pos < tokens.len(),
    ensures
        agrees_clause(r, pos, grammar::for_condition(tokens_view(tokens@), pos as int)),
        within(tokens_view(tokens@), pos as int, r.1 as int),
        error_inside(tokens_view(tokens@), r.0),
    decreases tokens.len() - pos, 80nat,
{
    proof {
        reveal_with_fuel(crate::ast::stmt_view, 2);
        reveal_with_fuel(crate::ast::optional_view, 2);
    }
    if kind_of(tokens, pos) == TokenType::SemiColon {
        (Ok(None), pos + 1)
    } else {
        let (v, at) = value(tokens, pos);
        match v {
            Err(e) => (Err(e), at),
            Ok(s) => {
                let (end, next) = expect_token(
                    tokens,
                    at,
                    TokenType::SemiColon,
                    Message::ExpectSemicolonAfterLoopCondition,
                );
                match end {
                    Err(e) => (Err(e), next),
                    Ok(_) => (Ok(Some(Box::new(s))), next),
                }
            },
        }
    }
}

fn for_increment(tokens: &[Token], pos: usize) -> (r: (
    Result<Option<Box<Stmt>>, SyntaxError>,
    usize,
))
    requires
        well_formed(tokens_view(tokens@)),
        pos < tokens.len(),
    ensures
        agrees_clause(r, pos, grammar::for_increment(tokens_view(tokens@), pos as int)),
        within(tokens_view(tokens@), pos as int, r.1 as int),
        error_inside(tokens_view(tokens@), r.0),
    decreases tokens.len() - pos, 80nat,
{
    proof {
        reveal_with_fuel(crate::ast::stmt_view, 2);
        reveal_with_fuel(crate::ast::optional_view, 2);
    }
    if kind_of(tokens, pos) == TokenType::RightParen {
        (Ok(None), pos + 1)
    } else {
        let (v, at) = value(tokens, pos);
        match v {
            Err(e) => (Err(e), at),
            Ok(s) => {
                let (end, next) = expect_token(
                    tokens,
                    at,
                    TokenType::RightParen,
                    Message::ExpectParenAfterClauses,
                );
                match end {
                    Err(e) => (Err(e), next),
                    Ok(_) => (Ok(Some(Box::new(s))), next),
                }
            },
        }
    }
}

fn for_rest(tokens: &[Token], pos: usize) -> (r: (Result<Stmt, SyntaxError>, usize))
    requires
        well_formed(tokens_view(tokens@)),
        pos < tokens.len(),
    ensures
        agrees_stmt(r, pos, grammar::for_rest(tokens_view(tokens@), pos as int)),
        within(tokens_view(tokens@), pos as int, r.1 as int),
        error_inside(tokens_view(tokens@), r.0),
    decreases tokens.len() - pos, 90nat,
{
    proof {
        reveal_with_fuel(crate::ast::stmt_view, 2);
        reveal_with_fuel(crate::ast::optional_view, 2);
    }
    let (open, p1) = expect_token(
        tokens,
        pos,
        TokenType::LeftParen,
        Message::ExpectParenAfterFor,
    );
    if let Err(e) = open {
        return (Err(e), p1);
    }
    let (init, p2) = for_initializer(tokens, p1);
    let initializer = match init {
        Err(e) => {
            return (Err(e), p2);
        },
        Ok(s) => s,
    };
    let (cond, p3) = for_condition(tokens, p2);
    let condition = match cond {
        Err(e) => {
            return (Err(e), p3);
        },
        Ok(s) => s,
    };
    let (incr, p4) = for_increment(tokens, p3);
    let increment = match incr {
        Err(e) => {
            return (Err(e), p4);
        },
        Ok(s) => s,
    };
    let (body, p5) = statement(tokens, p4);
    match body {
        Err(e) => (Err(e), p5),
        Ok(b) => (Ok(Stmt::For(initializer, condition, increment, Box::new(b))), p5),
    }
}

/// A condition between parentheses. Returns the position behind the closing
/// parenthesis.
fn condition(tokens: &[Token], pos: usize, opening: Message, closing: Message) -> (r: (
    Result<Stmt, SyntaxError>,
    usize,
))
    requires
        well_formed(tokens_view(tokens@)),
        pos < tokens.len(),
    ensures
        ({
            let p = grammar::condition(tokens_view(tokens@), pos as int, opening, closing);
            match r.0 {
                Ok(s) => p.result == Ok::<StmtView, Fault>(s@) && r.1 == pos + p.used + 2,
                Err(e) => p.result == Err::<StmtView, Fault>(e@) && r.1 == pos + p.used,
            }
        }),
        within(tokens_view(tokens@), pos as int, r.1 as int),
        error_inside(tokens_view(tokens@), r.0),
    decreases tokens.len() - pos, 90nat,
{
    let (open, p1) = expect_token(tokens, pos, TokenType::LeftParen, opening);
    if let Err(e) = open {
        return (Err(e), p1);
    }
    let (v, p2) = value(tokens, p1);
    match v {
        Err(e) => (Err(e), p2),
        Ok(s) => {
            let (close, p3) = expect_token(tokens, p2, TokenType::RightParen, closing);
            match close {
                Err(e) => (Err(e), p3),
                Ok(_) => (Ok(s), p3),
            }
        },
    }
}

fn while_rest(tokens: &[Token], pos: usize) -> (r: (Result<Stmt, SyntaxError>, usize))
    requires
        well_formed(tokens_view(tokens@)),
        pos < tokens.len(),
    ensures
        agrees_stmt(r, pos, grammar::while_rest(tokens_view(tokens@), pos as int)),
        within(tokens_view(tokens@), pos as int, r.1 as int),
        error_inside(tokens_view(tokens@), r.0),
    decreases tokens.len() - pos, 95nat,
{
    let (c, p1) = condition(
        tokens,
        pos,
        Message::ExpectParenAfterWhile,
        Message::ExpectParenAfterCondition,
    );
    match c {
        Err(e) => (Err(e), p1),
        Ok(cond) => {
            let (body, p2) = statement(tokens, p1);
            match body {
                Err(e) => (Err(e), p2),
                Ok(b) => (Ok(Stmt::While(Box::new(cond), Box::new(b))), p2),
            }
        },
    }
}

fn if_rest(tokens: &[Token], pos: usize) -> (r: (Result<Stmt, SyntaxError>, usize))
    requires
        well_formed(tokens_view(tokens@)),
        pos < tokens.len(),
    ensures
        agrees_stmt(r, pos, grammar::if_rest(tokens_view(tokens@), pos as int)),
        within(tokens_view(tokens@), pos as int, r.1 as int),
        error_inside(tokens_view(tokens@), r.0),
    decreases tokens.len() - pos, 95nat,
{
    proof {
        reveal_with_fuel(crate::ast::stmt_view, 2);
        reveal_with_fuel(crate::ast::optional_view, 2);
    }
    let (c, p1) = condition(
        tokens,
        pos,
        Message::ExpectParenAfterIf,
        Message::ExpectParenAfterIfCondition,
    );
    let cond = match c {
        Err(e) => {
            return (Err(e), p1);
        },
        Ok(s) => s,
    };
    let (first, p2) = statement(tokens, p1);
    let consequent = match first {
        Err(e) => {
            return (Err(e), p2);
        },
        Ok(s) => s,
    };
    if kind_of(tokens, p2) == TokenType::Else {
        let (second, p3) = statement(tokens, p2 + 1);
        match second {
            Err(e) => (Err(e), p3),
            Ok(alternative) => (
                Ok(Stmt::If(Box::new(cond), Box::new(consequent), Some(Box::new(alternative)))),
                p3,
            ),
        }
    } else {
        (Ok(Stmt::If(Box::new(cond), Box::new(consequent), None)), p2)
    }
}

fn block(tokens: &[Token], pos: usize) -> (r: (Result<Stmt, SyntaxError>, usize))
    requires
        well_formed(tokens_view(tokens@)),
        pos < tokens.len(),
    ensures
        agrees_stmt(r, pos, grammar::block(tokens_view(tokens@), pos as int, Seq::empty())),
        within(tokens_view(tokens@), pos as int, r.1 as int),
        error_inside(tokens_view(tokens@), r.0),
    decreases tokens.len() - pos, 110nat,
{
    let ghost ts = tokens_view(tokens@);
    let mut done: Vec<Stmt> = Vec::new();
    let mut at: usize = pos;
    loop
        invariant
            ts == tokens_view(tokens@),
            well_formed(ts),
            within(ts, pos as int, at as int),
            grammar::block(ts, pos as int, Seq::empty()) == shift(
                grammar::block(ts, at as int, stmts_view(done@)),
                (at - pos) as nat,
            ),
        decreases tokens.len() - at,
    {
        let kind = kind_of(tokens, at);
        if kind == TokenType::RightBrace {
            return (Ok(Stmt::Block(done)), at + 1);
        }
        if kind == TokenType::Eof {
            return (Err(SyntaxError { at, message: Message::ExpectBrace }), at);
        }
        let (s, next) = statement(tokens, at);
        match s {
            Err(e) => {
                return (Err(e), next);
            },
            Ok(st) => {
                proof {
                    lemma_stmts_view_push(done@, st);
                }
                done.push(st);
                at = next;
            },
        }
    }
}

fn statement(tokens: &[Token], pos: usize) -> (r: (Result<Stmt, SyntaxError>, usize))
    requires
        well_formed(tokens_view(tokens@)),
        pos < tokens.len(),
    ensures
        agrees_stmt(r, pos, grammar::statement(tokens_view(tokens@), pos as int)),
        within(tokens_view(tokens@), pos as int, r.1 as int),
        error_inside(tokens_view(tokens@), r.0),
        kind_at(tokens_view(tokens@), pos as int) != TokenType::Eof ==> r.1 > pos,
    decreases tokens.len() - pos, 100nat,
{
    let kind = kind_of(tokens, pos);
    if kind == TokenType::LeftBrace {
        block(tokens, pos + 1)
    } else if kind == TokenType::Print {
        let (v, end) = simple(tokens, pos + 1);
        match v {
            Err(e) => (Err(e), end),
            Ok(s) => (Ok(Stmt::Print(Box::new(s))), end),
        }
    } else if kind == TokenType::While {
        while_rest(tokens, pos + 1)
    } else if kind == TokenType::For {
        for_rest(tokens, pos + 1)
    } else if kind == TokenType::If {
        if_rest(tokens, pos + 1)
    } else if kind == TokenType::Var {
        declaration(tokens, pos + 1)
    } else {
        simple(tokens, pos)
    }
}

/// The parser: holds a token list, and after [`Parser::parse`] the
/// statements read from it and the diagnostics.
pub struct Parser<'a> {
    tokens: &'a [Token],
    stmts: Vec<Stmt>,
    current: usize,
    reporter: ErrorReporter,
}

impl<'a> Parser<'a> {
    /// The token list.
    pub closed spec fn input(&self) -> Seq<TokenView> {
        tokens_view(self.tokens@)
    }

    /// The statements read so far.
    pub closed spec fn read(&self) -> Seq<Stmt> {
        self.stmts@
    }

    /// The diagnostics issued so far.
    pub closed spec fn issued(&self) -> Seq<String> {
        self.reporter.messages@
    }

    /// The index of the token at which the parser stands.
    pub closed spec fn position(&self) -> int {
        self.current as int
    }

    /// A parser for `tokens`, which has not read anything yet.
    pub fn new(tokens: &'a [Token]) -> (r: Parser<'a>)
        ensures
            r.input() == tokens_view(tokens@),
            r.read().len() == 0,
            r.issued().len() == 0,
            r.position() == 0,
    {
        Parser { tokens, stmts: Vec::new(), current: 0, reporter: ErrorReporter::new() }
    }

    /// The statements read by the last call of [`Parser::parse`].
    pub fn statements(&self) -> (r: &Vec<Stmt>)
        ensures
            r@ == self.read(),
    {
        &self.stmts
    }

    /// Hands over the statements read by the last call of
    /// [`Parser::parse`]; the parser keeps none.
    pub fn take_statements(&mut self) -> (r: Vec<Stmt>)
        ensures
            r@ == old(self).read(),
            final(self).read().len() == 0,
            final(self).input() == old(self).input(),
            final(self).issued() == old(self).issued(),
            final(self).position() == old(self).position(),
    {
        let mut taken: Vec<Stmt> = Vec::new();
        core::mem::swap(&mut self.stmts, &mut taken);
        taken
    }

    /// Hands over the diagnostics of the last call of [`Parser::parse`]; the
    /// parser keeps none.
    pub fn take_messages(&mut self) -> (r: Vec<String>)
        ensures
            r@ == old(self).issued(),
            final(self).issued().len() == 0,
            final(self).input() == old(self).input(),
            final(self).read() == old(self).read(),
            final(self).position() == old(self).position(),
    {
        let mut taken: Vec<String> = Vec::new();
        core::mem::swap(&mut self.reporter.messages, &mut taken);
        taken
    }

    /// The index of the token at which the parser stands.
    pub fn current(&self) -> (r: usize)
        ensures
            r == self.position(),
    {
        self.current
    }

    /// The diagnostics of the last call of [`Parser::parse`], in source order.
    pub fn messages(&self) -> (r: &Vec<String>)
        ensures
            r@ == self.issued(),
    {
        &self.reporter.messages
    }

    /// Parses the token list from its start. The statements and the
    /// diagnostics are those of [`program`]; the result is an error exactly
    /// when there are diagnostics. The parser stops at the first end-of-file
    /// token, having read every token before it.
    pub fn parse(&mut self) -> (r: Result<(), Failure>)
        requires
            well_formed(old(self).input()),
        ensures
            final(self).input() == old(self).input(),
            stmts_view(final(self).read()) == program(old(self).input()).statements,
            texts(final(self).issued()) == fault_texts(
                old(self).input(),
                program(old(self).input()).faults,
            ),
            r.is_ok() == (program(old(self).input()).faults.len() == 0),
            r.is_err() ==> r == Err::<(), Failure>(Failure::Syntax),
            kind_at(final(self).input(), final(self).position()) == TokenType::Eof,
            forall|i: int|
                0 <= i < final(self).position() ==> kind_at(final(self).input(), i)
                    != TokenType::Eof,
    {
        self.stmts = Vec::new();
        self.reporter = ErrorReporter::new();
        self.current = 0;
        let ghost ts = tokens_view(self.tokens@);
        let ghost mut faults: Seq<Fault> = Seq::empty();
        while kind_of(self.tokens, self.current) != TokenType::Eof
            invariant
                ts == tokens_view(self.tokens@),
                self.tokens == old(self).tokens,
                well_formed(ts),
                within(ts, 0, self.current as int),
                stmts_view(self.stmts@) + program_from(ts, self.current as int).statements
                    == program(ts).statements,
                faults + program_from(ts, self.current as int).faults == program(ts).faults,
                texts(self.reporter.messages@) == fault_texts(ts, faults),
                self.reporter.had_error == (faults.len() > 0),
            decreases self.tokens.len() - self.current,
        {
            let ghost before = stmts_view(self.stmts@);
            let ghost rest = program_from(ts, self.current as int);
            let (s, next) = statement(self.tokens, self.current);
            let ghost after = program_from(ts, next as int);
            match s {
                Ok(st) => {
                    proof {
                        lemma_stmts_view_push(self.stmts@, st);
                        assert(before.push(st@) + after.statements =~= before + rest.statements);
                    }
                    self.stmts.push(st);
                },
                Err(e) => {
                    let ghost reported = texts(self.reporter.messages@);
                    let token = &self.tokens[e.at];
                    self.reporter.error(token.line, token.lexeme.as_str(), e.message.text());
                    proof {
                        assert(faults.push(e@) + after.faults =~= faults + rest.faults);
                        assert(fault_texts(ts, faults.push(e@)) =~= fault_texts(ts, faults).push(
                            fault_text(ts, e@),
                        ));
                        faults = faults.push(e@);
                    }
                },
            }
            self.current = next;
        }
        proof {
            assert(stmts_view(self.stmts@) =~= program(ts).statements);
            assert(faults =~= program(ts).faults);
        }
        if self.reporter.had_error {
            Err(Failure::Syntax)
        } else {
            Ok(())
        }
    }
}

} // verus!
