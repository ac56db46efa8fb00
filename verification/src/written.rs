//! Reading back what was written.
//!
//! The listing of a tree is no program: `(+ 1.0 2.0)` does not parse. What
//! does parse back is a tree as the grammar writes it, operand, operator,
//! operand. This module says when a stretch of tokens writes a given tree,
//! and proves that the grammar reads such a stretch as that very tree.

use vstd::prelude::*;
use crate::ast::ExprView;
use crate::ast::StmtView;
use crate::grammar::at_least_one;
use crate::grammar::binary;
use crate::grammar::block;
use crate::grammar::condition;
use crate::grammar::declaration;
use crate::grammar::for_condition;
use crate::grammar::for_increment;
use crate::grammar::for_initializer;
use crate::grammar::for_rest;
use crate::grammar::if_rest;
use crate::grammar::program_from;
use crate::grammar::simple;
use crate::grammar::statement;
use crate::grammar::terminator;
use crate::grammar::while_rest;
use crate::grammar::Program;
use crate::grammar::binary_tail;
use crate::grammar::binds;
use crate::grammar::expect;
use crate::grammar::found;
use crate::grammar::is_atom;
use crate::grammar::kind_at;
use crate::grammar::primary;
use crate::grammar::shift;
use crate::grammar::unary;
use crate::grammar::value;
use crate::grammar::Message;
use crate::token::TokenType;
use crate::token::TokenView;

verus! {

/// The precedence level of a binary operator, 0 binding loosest; 6 for
/// every other kind of token.
pub open spec fn level_of(kind: TokenType) -> nat {
    match kind {
        TokenType::Or => 0,
        TokenType::And => 1,
        TokenType::BangEqual | TokenType::EqualEqual => 2,
        TokenType::Greater | TokenType::GreaterEqual | TokenType::Less | TokenType::LessEqual => 3,
        TokenType::Minus | TokenType::Plus => 4,
        TokenType::Slash | TokenType::Star => 5,
        _ => 6,
    }
}

/// An operator binds at its own level and at no other.
pub proof fn lemma_binds_at_level(level: nat, kind: TokenType)
    ensures
        binds(level, kind) <==> (level < 6 && level_of(kind) == level),
{
}

/// The number of tokens that write an expression.
pub open spec fn expr_width(e: ExprView) -> nat
    decreases e,
{
    match e {
        ExprView::Literal(_) => 1,
        ExprView::Group(inner) => value_width(*inner) + 2,
        ExprView::Unary(_, operand) => expr_width(*operand) + 1,
        ExprView::Binary(left, _, right) => expr_width(*left) + 1 + expr_width(*right),
    }
}

/// The number of tokens that write a value: an expression or an assignment.
pub open spec fn value_width(s: StmtView) -> nat
    decreases s,
{
    match s {
        StmtView::Expr(e) => expr_width(e),
        StmtView::Assign(_, operand) => value_width(*operand) + 2,
        _ => 0,
    }
}

/// Whether the expression can stand where an operand of level `level` is
/// read: its operators are operators, each left operand is of the
/// operator's level or binds tighter, each right operand binds tighter, and
/// the expression itself is of level `level` or binds tighter.
pub open spec fn expr_shaped(e: ExprView, level: nat) -> bool
    decreases e,
{
    match e {
        ExprView::Literal(token) => is_atom(token.token_type),
        ExprView::Group(inner) => value_shaped(*inner),
        ExprView::Unary(op, operand) => (op.token_type == TokenType::Bang || op.token_type
            == TokenType::Minus) && expr_shaped(*operand, 6),
        ExprView::Binary(left, op, right) => {
            let own = level_of(op.token_type);
            own < 6 && level <= own && expr_shaped(*left, own) && expr_shaped(*right, own + 1)
        },
    }
}

/// Whether the statement is a value whose expressions are all shaped.
pub open spec fn value_shaped(s: StmtView) -> bool
    decreases s,
{
    match s {
        StmtView::Expr(e) => expr_shaped(e, 0),
        StmtView::Assign(_, operand) => value_shaped(*operand),
        _ => false,
    }
}

/// Whether the tokens from `pos` on write the expression: its own tokens
/// in their places, parentheses around each group.
pub open spec fn writes_expr(tokens: Seq<TokenView>, pos: int, e: ExprView) -> bool
    decreases e,
{
    match e {
        ExprView::Literal(token) => 0 <= pos < tokens.len() && tokens[pos] == token,
        ExprView::Group(inner) => kind_at(tokens, pos) == TokenType::LeftParen && writes_value(
            tokens,
            pos + 1,
            *inner,
        ) && kind_at(tokens, pos + 1 + value_width(*inner)) == TokenType::RightParen,
        ExprView::Unary(op, operand) => 0 <= pos < tokens.len() && tokens[pos] == op
            && writes_expr(tokens, pos + 1, *operand),
        ExprView::Binary(left, op, right) => {
            let at = pos + expr_width(*left);
            writes_expr(tokens, pos, *left) && 0 <= at < tokens.len() && tokens[at] == op
                && writes_expr(tokens, at + 1, *right)
        },
    }
}

/// Whether the tokens from `pos` on write the value.
pub open spec fn writes_value(tokens: Seq<TokenView>, pos: int, s: StmtView) -> bool
    decreases s,
{
    match s {
        StmtView::Expr(e) => writes_expr(tokens, pos, e),
        StmtView::Assign(name, operand) => kind_at(tokens, pos) == TokenType::Identifier
            && tokens[pos].lexeme == name && kind_at(tokens, pos + 1) == TokenType::Equal
            && writes_value(tokens, pos + 2, *operand),
        _ => false,
    }
}

/// Whether the token at `pos` ends an operand of level `level`: it is no
/// operator of that level or of one that binds tighter.
pub open spec fn stops(tokens: Seq<TokenView>, pos: int, level: nat) -> bool {
    let own = level_of(kind_at(tokens, pos));
    own < level || own >= 6
}

/// Where an expression begins with an identifier, it is that identifier
/// alone or an operator follows it: never a `=`.
pub proof fn lemma_no_equal_inside(tokens: Seq<TokenView>, pos: int, e: ExprView, level: nat)
    requires
        expr_shaped(e, level),
        writes_expr(tokens, pos, e),
        kind_at(tokens, pos) == TokenType::Identifier,
    ensures
        expr_width(e) == 1 || kind_at(tokens, pos + 1) != TokenType::Equal,
    decreases e,
{
    match e {
        ExprView::Binary(left, op, right) => {
            lemma_no_equal_inside(tokens, pos, *left, level_of(op.token_type));
        },
        _ => {},
    }
}

/// The grammar reads a written literal or group as itself.
pub proof fn lemma_reads_primary(tokens: Seq<TokenView>, pos: int, e: ExprView)
    requires
        e is Literal || e is Group,
        expr_shaped(e, 6),
        writes_expr(tokens, pos, e),
    ensures
        primary(tokens, pos) == found(e, expr_width(e)),
    decreases e, 0nat, 0nat,
{
    match e {
        ExprView::Group(inner) => {
            lemma_reads_value(tokens, pos + 1, *inner);
            let close = expect(
                tokens,
                pos + 1 + value_width(*inner),
                TokenType::RightParen,
                Message::UnmatchedParentheses,
            );
            assert(close == found((), 1));
        },
        _ => {},
    }
}

/// The grammar reads a written expression that is no binary one as itself.
pub proof fn lemma_reads_unary(tokens: Seq<TokenView>, pos: int, e: ExprView)
    requires
        !(e is Binary),
        expr_shaped(e, 6),
        writes_expr(tokens, pos, e),
    ensures
        unary(tokens, pos) == found(e, expr_width(e)),
    decreases e, 0nat, 1nat,
{
    match e {
        ExprView::Unary(op, operand) => {
            assert(!(*operand is Binary)) by {
                reveal_with_fuel(expr_shaped, 2);
            }
            lemma_reads_unary(tokens, pos + 1, *operand);
        },
        _ => {
            lemma_reads_primary(tokens, pos, e);
        },
    }
}

/// Reading at a level below 6 goes through a written expression as the
/// left operand of what may follow at that level.
pub proof fn lemma_reads_operand(tokens: Seq<TokenView>, pos: int, e: ExprView, level: nat)
    requires
        level < 6,
        expr_shaped(e, level),
        writes_expr(tokens, pos, e),
        stops(tokens, pos + expr_width(e), level + 1),
    ensures
        binary(tokens, pos, level) == shift(
            binary_tail(tokens, pos + expr_width(e), level, e),
            expr_width(e),
        ),
    decreases e, 7 - level, 0nat,
{
    let whole = expr_width(e);
    match e {
        ExprView::Binary(left, op, right) => {
            if level_of(op.token_type) == level {
                let at = pos + expr_width(*left);
                lemma_binds_at_level(level, op.token_type);
                lemma_reads_operand(tokens, pos, *left, level);
                lemma_reads_binary(tokens, at + 1, *right, level + 1);
                let joined = ExprView::Binary(Box::new(*left), tokens[at], Box::new(*right));
                assert(joined == e);
                assert(binary_tail(tokens, at, level, *left) == shift(
                    binary_tail(tokens, pos + whole, level, e),
                    expr_width(*right) + 1,
                ));
            } else {
                lemma_reads_binary(tokens, pos, e, level + 1);
            }
        },
        _ => {
            lemma_reads_binary(tokens, pos, e, level + 1);
        },
    }
}

/// The grammar reads a written expression as itself, where what follows
/// ends it.
pub proof fn lemma_reads_binary(tokens: Seq<TokenView>, pos: int, e: ExprView, level: nat)
    requires
        level <= 6,
        expr_shaped(e, level),
        writes_expr(tokens, pos, e),
        stops(tokens, pos + expr_width(e), level),
    ensures
        binary(tokens, pos, level) == found(e, expr_width(e)),
    decreases e, 7 - level, 1nat,
{
    if level >= 6 {
        lemma_reads_unary(tokens, pos, e);
    } else {
        lemma_reads_operand(tokens, pos, e, level);
        lemma_binds_at_level(level, kind_at(tokens, pos + expr_width(e)));
    }
}

/// The grammar reads a written value as itself, where what follows is
/// neither a binary operator nor a `=`.
pub proof fn lemma_reads_value(tokens: Seq<TokenView>, pos: int, s: StmtView)
    requires
        value_shaped(s),
        writes_value(tokens, pos, s),
        stops(tokens, pos + value_width(s), 0),
        kind_at(tokens, pos + value_width(s)) != TokenType::Equal,
    ensures
        value(tokens, pos) == found(s, value_width(s)),
    decreases s, 0nat, 0nat,
{
    match s {
        StmtView::Expr(e) => {
            if kind_at(tokens, pos) == TokenType::Identifier {
                lemma_no_equal_inside(tokens, pos, e, 0);
            }
            lemma_reads_binary(tokens, pos, e, 0);
        },
        StmtView::Assign(name, operand) => {
            lemma_reads_value(tokens, pos + 2, *operand);
        },
        _ => {},
    }
}

/// The number of tokens that write an optional clause of a `for`, the `;`
/// or `)` behind it included.
pub open spec fn clause_width(clause: Option<Box<StmtView>>) -> nat
    decreases clause,
{
    match clause {
        Some(inner) => match *inner {
            StmtView::Declare(_, _) => stmt_width(*inner),
            _ => value_width(*inner) + 1,
        },
        None => 1,
    }
}

/// The number of tokens that write a sequence of statements.
pub open spec fn items_width(items: Seq<StmtView>) -> nat
    decreases items,
{
    if items.len() == 0 {
        0
    } else {
        stmt_width(items.first()) + items_width(items.drop_first())
    }
}

/// The number of tokens that write a statement, each simple statement with
/// its `;`.
pub open spec fn stmt_width(s: StmtView) -> nat
    decreases s,
{
    match s {
        StmtView::Block(items) => items_width(items) + 2,
        StmtView::Print(operand) => value_width(*operand) + 2,
        StmtView::If(condition, consequent, Some(alternative)) => value_width(*condition)
            + stmt_width(*consequent) + stmt_width(*alternative) + 4,
        StmtView::If(condition, consequent, None) => value_width(*condition) + stmt_width(
            *consequent,
        ) + 3,
        StmtView::While(condition, body) => value_width(*condition) + stmt_width(*body) + 3,
        StmtView::For(initializer, condition, increment, body) => clause_width(initializer)
            + clause_width(condition) + clause_width(increment) + stmt_width(*body) + 2,
        StmtView::Declare(_, Some(init)) => value_width(*init) + 4,
        StmtView::Declare(_, None) => 3,
        _ => value_width(s) + 1,
    }
}

/// Whether the statement ends in an `if` without `else`, so that an `else`
/// behind it would be taken for its own.
pub open spec fn open_if(s: StmtView) -> bool
    decreases s,
{
    match s {
        StmtView::If(_, _, None) => true,
        StmtView::If(_, _, Some(alternative)) => open_if(*alternative),
        StmtView::While(_, body) => open_if(*body),
        StmtView::For(_, _, _, body) => open_if(*body),
        _ => false,
    }
}

/// Whether an optional clause of a `for` can be written: a condition or
/// an increment must be a value.
pub open spec fn clause_shaped(clause: Option<Box<StmtView>>) -> bool
    decreases clause,
{
    match clause {
        Some(inner) => value_shaped(*inner),
        None => true,
    }
}

/// Whether every statement of the sequence can be written.
pub open spec fn items_shaped(items: Seq<StmtView>) -> bool
    decreases items,
{
    if items.len() == 0 {
        true
    } else {
        stmt_shaped(items.first()) && items_shaped(items.drop_first())
    }
}

/// Whether the statement can be written so that it is read back: its
/// values are shaped, an initializer is a declaration or a value, and no
/// `if` without `else` ends what stands before an `else`.
pub open spec fn stmt_shaped(s: StmtView) -> bool
    decreases s,
{
    match s {
        StmtView::Block(items) => items_shaped(items),
        StmtView::Print(operand) => value_shaped(*operand),
        StmtView::If(condition, consequent, Some(alternative)) => value_shaped(*condition)
            && stmt_shaped(*consequent) && !open_if(*consequent) && stmt_shaped(*alternative),
        StmtView::If(condition, consequent, None) => value_shaped(*condition) && stmt_shaped(
            *consequent,
        ),
        StmtView::While(condition, body) => value_shaped(*condition) && stmt_shaped(*body),
        StmtView::For(initializer, condition, increment, body) => (match initializer {
            Some(init) => match *init {
                StmtView::Declare(_, Some(first)) => value_shaped(*first),
                StmtView::Declare(_, None) => true,
                _ => value_shaped(*init),
            },
            None => true,
        }) && clause_shaped(condition) && clause_shaped(increment) && stmt_shaped(*body),
        StmtView::Declare(_, Some(init)) => value_shaped(*init),
        StmtView::Declare(_, None) => true,
        _ => value_shaped(s),
    }
}

/// Whether the tokens from `pos` on write what follows `var`: the name,
/// the initializer if there is one, and a `;`.
pub open spec fn writes_declaration(
    tokens: Seq<TokenView>,
    pos: int,
    name: Seq<char>,
    init: Option<Box<StmtView>>,
) -> bool {
    &&& kind_at(tokens, pos) == TokenType::Identifier
    &&& tokens[pos].lexeme == name
    &&& match init {
        Some(first) => kind_at(tokens, pos + 1) == TokenType::Equal && writes_value(
            tokens,
            pos + 2,
            *first,
        ) && kind_at(tokens, pos + 2 + value_width(*first)) == TokenType::SemiColon,
        None => kind_at(tokens, pos + 1) == TokenType::SemiColon,
    }
}

/// Whether the tokens from `pos` on write a value and the token `end`
/// behind it.
pub open spec fn writes_closed(tokens: Seq<TokenView>, pos: int, s: StmtView, end: TokenType)
    -> bool {
    writes_value(tokens, pos, s) && kind_at(tokens, pos + value_width(s)) == end
}

/// Whether the tokens from `pos` on write the first clause of a `for`.
pub open spec fn writes_initializer(
    tokens: Seq<TokenView>,
    pos: int,
    clause: Option<Box<StmtView>>,
) -> bool {
    match clause {
        Some(inner) => match *inner {
            StmtView::Declare(name, init) => kind_at(tokens, pos) == TokenType::Var
                && writes_declaration(tokens, pos + 1, name, init),
            _ => writes_closed(tokens, pos, *inner, TokenType::SemiColon),
        },
        None => kind_at(tokens, pos) == TokenType::SemiColon,
    }
}

/// Whether the tokens from `pos` on write the second or the third clause of
/// a `for`, with the token `end` behind it.
pub open spec fn writes_clause(
    tokens: Seq<TokenView>,
    pos: int,
    clause: Option<Box<StmtView>>,
    end: TokenType,
) -> bool {
    match clause {
        Some(inner) => writes_closed(tokens, pos, *inner, end),
        None => kind_at(tokens, pos) == end,
    }
}

/// Whether the tokens from `pos` on write the statements, one after the
/// other.
pub open spec fn writes_items(tokens: Seq<TokenView>, pos: int, items: Seq<StmtView>) -> bool
    decreases items,
{
    if items.len() == 0 {
        true
    } else {
        writes_stmt(tokens, pos, items.first()) && writes_items(
            tokens,
            pos + stmt_width(items.first()),
            items.drop_first(),
        )
    }
}

/// Whether the tokens from `pos` on write the statement: its keywords and
/// punctuation in their places, a `;` behind each simple statement.
pub open spec fn writes_stmt(tokens: Seq<TokenView>, pos: int, s: StmtView) -> bool
    decreases s,
{
    match s {
        StmtView::Block(items) => kind_at(tokens, pos) == TokenType::LeftBrace && writes_items(
            tokens,
            pos + 1,
            items,
        ) && kind_at(tokens, pos + 1 + items_width(items)) == TokenType::RightBrace,
        StmtView::Print(operand) => kind_at(tokens, pos) == TokenType::Print && writes_closed(
            tokens,
            pos + 1,
            *operand,
            TokenType::SemiColon,
        ),
        StmtView::If(condition, consequent, alternative) => {
            let body = pos + 3 + value_width(*condition);
            &&& kind_at(tokens, pos) == TokenType::If
            &&& kind_at(tokens, pos + 1) == TokenType::LeftParen
            &&& writes_closed(tokens, pos + 2, *condition, TokenType::RightParen)
            &&& writes_stmt(tokens, body, *consequent)
            &&& match alternative {
                Some(other) => kind_at(tokens, body + stmt_width(*consequent))
                    == TokenType::Else && writes_stmt(
                    tokens,
                    body + stmt_width(*consequent) + 1,
                    *other,
                ),
                None => true,
            }
        },
        StmtView::While(condition, body) => {
            &&& kind_at(tokens, pos) == TokenType::While
            &&& kind_at(tokens, pos + 1) == TokenType::LeftParen
            &&& writes_closed(tokens, pos + 2, *condition, TokenType::RightParen)
            &&& writes_stmt(tokens, pos + 3 + value_width(*condition), *body)
        },
        StmtView::For(initializer, condition, increment, body) => {
            let second = pos + 2 + clause_width(initializer);
            let third = second + clause_width(condition);
            &&& kind_at(tokens, pos) == TokenType::For
            &&& kind_at(tokens, pos + 1) == TokenType::LeftParen
            &&& writes_initializer(tokens, pos + 2, initializer)
            &&& writes_clause(tokens, second, condition, TokenType::SemiColon)
            &&& writes_clause(tokens, third, increment, TokenType::RightParen)
            &&& writes_stmt(tokens, third + clause_width(increment), *body)
        },
        StmtView::Declare(name, init) => kind_at(tokens, pos) == TokenType::Var
            && writes_declaration(tokens, pos + 1, name, init),
        _ => writes_closed(tokens, pos, s, TokenType::SemiColon),
    }
}

/// Whether a value can begin with a token of this kind.
pub open spec fn starts_value(kind: TokenType) -> bool {
    is_atom(kind) || kind == TokenType::LeftParen || kind == TokenType::Bang || kind
        == TokenType::Minus
}

/// Whether a statement can begin with a token of this kind.
pub open spec fn starts_stmt(kind: TokenType) -> bool {
    starts_value(kind) || kind == TokenType::LeftBrace || kind == TokenType::Print || kind
        == TokenType::While || kind == TokenType::For || kind == TokenType::If || kind
        == TokenType::Var
}

/// A written expression begins as a value does, and takes at least one
/// token.
pub proof fn lemma_expr_starts(tokens: Seq<TokenView>, pos: int, e: ExprView, level: nat)
    requires
        expr_shaped(e, level),
        writes_expr(tokens, pos, e),
    ensures
        starts_value(kind_at(tokens, pos)),
        expr_width(e) >= 1,
    decreases e,
{
    match e {
        ExprView::Binary(left, op, right) => {
            lemma_expr_starts(tokens, pos, *left, level_of(op.token_type));
        },
        _ => {},
    }
}

/// A written value begins as a value does, and takes at least one token.
pub proof fn lemma_value_starts(tokens: Seq<TokenView>, pos: int, s: StmtView)
    requires
        value_shaped(s),
        writes_value(tokens, pos, s),
    ensures
        starts_value(kind_at(tokens, pos)),
        value_width(s) >= 1,
{
    match s {
        StmtView::Expr(e) => {
            lemma_expr_starts(tokens, pos, e, 0);
        },
        _ => {},
    }
}

/// A written statement begins as a statement does, and takes at least one
/// token.
pub proof fn lemma_stmt_starts(tokens: Seq<TokenView>, pos: int, s: StmtView)
    requires
        stmt_shaped(s),
        writes_stmt(tokens, pos, s),
    ensures
        starts_stmt(kind_at(tokens, pos)),
        stmt_width(s) >= 1,
{
    match s {
        StmtView::Expr(_) => {
            lemma_value_starts(tokens, pos, s);
        },
        StmtView::Assign(_, _) => {
            lemma_value_starts(tokens, pos, s);
        },
        _ => {},
    }
}

/// The grammar reads a written value as itself where a `;` or a `)`
/// follows it.
pub proof fn lemma_reads_closed(tokens: Seq<TokenView>, pos: int, s: StmtView, end: TokenType)
    requires
        value_shaped(s),
        writes_closed(tokens, pos, s, end),
        end == TokenType::SemiColon || end == TokenType::RightParen,
    ensures
        value(tokens, pos) == found(s, value_width(s)),
{
    lemma_reads_value(tokens, pos, s);
}

/// The grammar reads a written value and its `;` as a simple statement.
pub proof fn lemma_reads_simple(tokens: Seq<TokenView>, pos: int, s: StmtView)
    requires
        value_shaped(s),
        writes_closed(tokens, pos, s, TokenType::SemiColon),
    ensures
        simple(tokens, pos) == found(s, value_width(s) + 1),
{
    lemma_reads_closed(tokens, pos, s, TokenType::SemiColon);
    assert(terminator(tokens, pos + value_width(s)) == found((), 1));
}

/// The grammar reads what is written behind `var` as the declaration.
pub proof fn lemma_reads_declaration(
    tokens: Seq<TokenView>,
    pos: int,
    name: Seq<char>,
    init: Option<Box<StmtView>>,
)
    requires
        stmt_shaped(StmtView::Declare(name, init)),
        writes_declaration(tokens, pos, name, init),
    ensures
        declaration(tokens, pos) == found(
            StmtView::Declare(name, init),
            (stmt_width(StmtView::Declare(name, init)) - 1) as nat,
        ),
{
    match init {
        Some(first) => {
            lemma_reads_simple(tokens, pos + 2, *first);
            assert(Some(Box::new(*first)) == init);
        },
        None => {
            assert(terminator(tokens, pos + 1) == found((), 1));
        },
    }
}

/// The grammar reads a written condition between its parentheses.
pub proof fn lemma_reads_condition(
    tokens: Seq<TokenView>,
    pos: int,
    s: StmtView,
    opening: Message,
    closing: Message,
)
    requires
        value_shaped(s),
        kind_at(tokens, pos) == TokenType::LeftParen,
        writes_closed(tokens, pos + 1, s, TokenType::RightParen),
    ensures
        condition(tokens, pos, opening, closing) == found(s, value_width(s)),
{
    lemma_reads_closed(tokens, pos + 1, s, TokenType::RightParen);
    assert(expect(tokens, pos, TokenType::LeftParen, opening) == found((), 1));
    assert(expect(tokens, pos + 1 + value_width(s), TokenType::RightParen, closing) == found(
        (),
        1,
    ));
}

/// The grammar reads the written first clause of a `for`.
pub proof fn lemma_reads_initializer(
    tokens: Seq<TokenView>,
    pos: int,
    clause: Option<Box<StmtView>>,
)
    requires
        match clause {
            Some(init) => match *init {
                StmtView::Declare(_, _) => stmt_shaped(*init),
                _ => value_shaped(*init),
            },
            None => true,
        },
        writes_initializer(tokens, pos, clause),
    ensures
        for_initializer(tokens, pos) == found(clause, clause_width(clause)),
{
    match clause {
        Some(inner) => {
            match *inner {
                StmtView::Declare(name, init) => {
                    lemma_reads_declaration(tokens, pos + 1, name, init);
                },
                _ => {
                    lemma_value_starts(tokens, pos, *inner);
                    lemma_reads_simple(tokens, pos, *inner);
                },
            }
            assert(Some(Box::new(*inner)) == clause);
        },
        None => {},
    }
}

/// The grammar reads the written second clause of a `for`.
pub proof fn lemma_reads_for_condition(
    tokens: Seq<TokenView>,
    pos: int,
    clause: Option<Box<StmtView>>,
)
    requires
        clause_shaped(clause),
        writes_clause(tokens, pos, clause, TokenType::SemiColon),
    ensures
        for_condition(tokens, pos) == found(clause, clause_width(clause)),
{
    match clause {
        Some(inner) => {
            lemma_value_starts(tokens, pos, *inner);
            lemma_reads_closed(tokens, pos, *inner, TokenType::SemiColon);
            assert(expect(
                tokens,
                pos + value_width(*inner),
                TokenType::SemiColon,
                Message::ExpectSemicolonAfterLoopCondition,
            ) == found((), 1));
            assert(Some(Box::new(*inner)) == clause);
            assert(!(*inner is Declare));
        },
        None => {},
    }
}

/// The grammar reads the written third clause of a `for` and the `)`
/// behind it.
pub proof fn lemma_reads_for_increment(
    tokens: Seq<TokenView>,
    pos: int,
    clause: Option<Box<StmtView>>,
)
    requires
        clause_shaped(clause),
        writes_clause(tokens, pos, clause, TokenType::RightParen),
    ensures
        for_increment(tokens, pos) == found(clause, clause_width(clause)),
{
    match clause {
        Some(inner) => {
            lemma_value_starts(tokens, pos, *inner);
            lemma_reads_closed(tokens, pos, *inner, TokenType::RightParen);
            assert(expect(
                tokens,
                pos + value_width(*inner),
                TokenType::RightParen,
                Message::ExpectParenAfterClauses,
            ) == found((), 1));
            assert(Some(Box::new(*inner)) == clause);
            assert(!(*inner is Declare));
        },
        None => {},
    }
}

/// The grammar reads the written statements of a block, and the `}` behind
/// them, as the block of the statements already read and these.
pub proof fn lemma_reads_block(
    tokens: Seq<TokenView>,
    pos: int,
    done: Seq<StmtView>,
    items: Seq<StmtView>,
)
    requires
        items_shaped(items),
        writes_items(tokens, pos, items),
        kind_at(tokens, pos + items_width(items)) == TokenType::RightBrace,
    ensures
        block(tokens, pos, done) == found(StmtView::Block(done + items), items_width(items) + 1),
    decreases items, 0nat,
{
    if items.len() == 0 {
        assert(done + items =~= done);
    } else {
        let first = items.first();
        let rest = items.drop_first();
        let next = pos + stmt_width(first);
        assert(items_shaped(rest) && writes_items(tokens, next, rest));
        lemma_stmt_starts(tokens, pos, first);
        assert(items_width(items) == stmt_width(first) + items_width(rest));
        if rest.len() > 0 {
            lemma_stmt_starts(tokens, next, rest.first());
        } else {
            assert(items_width(rest) == 0);
        }
        assert(kind_at(tokens, next) != TokenType::Else);
        lemma_reads_statement(tokens, pos, first);
        lemma_reads_block(tokens, next, done.push(first), rest);
        assert(done.push(first) + rest =~= done + items);
        assert(at_least_one(stmt_width(first)) == stmt_width(first));
    }
}

/// The grammar reads a written `while` statement as itself.
pub proof fn lemma_reads_while(tokens: Seq<TokenView>, pos: int, s: StmtView)
    requires
        s is While,
        stmt_shaped(s),
        writes_stmt(tokens, pos, s),
        open_if(s) ==> kind_at(tokens, pos + stmt_width(s)) != TokenType::Else,
    ensures
        while_rest(tokens, pos + 1) == found(s, (stmt_width(s) - 1) as nat),
    decreases s, 0nat,
{
    match s {
        StmtView::While(test, body) => {
            lemma_reads_condition(
                tokens,
                pos + 1,
                *test,
                Message::ExpectParenAfterWhile,
                Message::ExpectParenAfterCondition,
            );
            lemma_reads_statement(tokens, pos + 3 + value_width(*test), *body);
        },
        _ => {},
    }
}

/// The grammar reads a written `if` statement as itself.
pub proof fn lemma_reads_if(tokens: Seq<TokenView>, pos: int, s: StmtView)
    requires
        s is If,
        stmt_shaped(s),
        writes_stmt(tokens, pos, s),
        open_if(s) ==> kind_at(tokens, pos + stmt_width(s)) != TokenType::Else,
    ensures
        if_rest(tokens, pos + 1) == found(s, (stmt_width(s) - 1) as nat),
    decreases s, 0nat,
{
    match s {
        StmtView::If(test, consequent, alternative) => {
            let first = pos + 3 + value_width(*test);
            let second = first + stmt_width(*consequent);
            lemma_reads_condition(
                tokens,
                pos + 1,
                *test,
                Message::ExpectParenAfterIf,
                Message::ExpectParenAfterIfCondition,
            );
            lemma_reads_statement(tokens, first, *consequent);
            match alternative {
                Some(other) => {
                    lemma_reads_statement(tokens, second + 1, *other);
                    assert(Some(Box::new(*other)) == alternative);
                },
                None => {},
            }
        },
        _ => {},
    }
}

/// The grammar reads a written `for` statement as itself.
pub proof fn lemma_reads_for(tokens: Seq<TokenView>, pos: int, s: StmtView)
    requires
        s is For,
        stmt_shaped(s),
        writes_stmt(tokens, pos, s),
        open_if(s) ==> kind_at(tokens, pos + stmt_width(s)) != TokenType::Else,
    ensures
        for_rest(tokens, pos + 1) == found(s, (stmt_width(s) - 1) as nat),
    decreases s, 0nat,
{
    match s {
        StmtView::For(initializer, test, increment, body) => {
            let second = pos + 2 + clause_width(initializer);
            let third = second + clause_width(test);
            let fourth = third + clause_width(increment);
            lemma_reads_initializer(tokens, pos + 2, initializer);
            lemma_reads_for_condition(tokens, second, test);
            lemma_reads_for_increment(tokens, third, increment);
            lemma_reads_statement(tokens, fourth, *body);
            assert(expect(tokens, pos + 1, TokenType::LeftParen, Message::ExpectParenAfterFor)
                == found((), 1));
        },
        _ => {},
    }
}

/// The grammar reads a written statement as itself. Where the statement
/// ends in an `if` without `else`, no `else` may follow it.
pub proof fn lemma_reads_statement(tokens: Seq<TokenView>, pos: int, s: StmtView)
    requires
        stmt_shaped(s),
        writes_stmt(tokens, pos, s),
        open_if(s) ==> kind_at(tokens, pos + stmt_width(s)) != TokenType::Else,
    ensures
        statement(tokens, pos) == found(s, stmt_width(s)),
    decreases s, 1nat,
{
    match s {
        StmtView::Block(items) => {
            lemma_reads_block(tokens, pos + 1, Seq::empty(), items);
            assert(Seq::<StmtView>::empty() + items =~= items);
        },
        StmtView::Print(operand) => {
            lemma_reads_simple(tokens, pos + 1, *operand);
        },
        StmtView::While(_, _) => {
            lemma_reads_while(tokens, pos, s);
        },
        StmtView::If(_, _, _) => {
            lemma_reads_if(tokens, pos, s);
        },
        StmtView::For(_, _, _, _) => {
            lemma_reads_for(tokens, pos, s);
        },
        StmtView::Declare(name, init) => {
            lemma_reads_declaration(tokens, pos + 1, name, init);
        },
        _ => {
            lemma_value_starts(tokens, pos, s);
            lemma_reads_simple(tokens, pos, s);
        },
    }
}

/// Parsing is the inverse of writing: the grammar reads a written program,
/// which ends in the end of file, as its statements, without a fault.
pub proof fn lemma_reads_program(tokens: Seq<TokenView>, pos: int, items: Seq<StmtView>)
    requires
        items_shaped(items),
        writes_items(tokens, pos, items),
        kind_at(tokens, pos + items_width(items)) == TokenType::Eof,
    ensures
        program_from(tokens, pos) == (Program { statements: items, faults: Seq::empty() }),
    decreases items,
{
    if items.len() == 0 {
        assert(program_from(tokens, pos).statements =~= items);
    } else {
        let first = items.first();
        let rest = items.drop_first();
        let next = pos + stmt_width(first);
        assert(items_shaped(rest) && writes_items(tokens, next, rest));
        lemma_stmt_starts(tokens, pos, first);
        assert(items_width(items) == stmt_width(first) + items_width(rest));
        if rest.len() > 0 {
            lemma_stmt_starts(tokens, next, rest.first());
        } else {
            assert(items_width(rest) == 0);
        }
        assert(kind_at(tokens, next) != TokenType::Else);
        lemma_reads_statement(tokens, pos, first);
        lemma_reads_program(tokens, next, rest);
        assert(at_least_one(stmt_width(first)) == stmt_width(first));
        assert(seq![first] + rest =~= items);
    }
}

} // verus!
