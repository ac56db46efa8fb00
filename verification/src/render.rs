//! The listings of tokens and of syntax trees.
//!
//! A listing is made of pieces. A piece is text, or a numeral that stands
//! for a double: whoever writes the listing puts the double in its place,
//! written with at least one decimal. Making that text takes arithmetic on
//! doubles, which this crate leaves to its host.

use vstd::prelude::*;
use crate::ast::optional_view;
use crate::ast::stmt_view;
use crate::ast::stmts_view;
use crate::ast::Expr;
use crate::ast::ExprView;
use crate::ast::Stmt;
use crate::ast::StmtView;
use crate::ast::lemma_stmts_view_push;
use crate::token::unquoted;
use crate::token::Literal;
use crate::token::LiteralView;
use crate::token::Token;
use crate::token::TokenType;
use crate::token::TokenView;

verus! {

/// A piece of a listing.
#[derive(Clone, Debug, PartialEq, Eq)]
pub enum Piece {
    /// Text, written as it is.
    Text(String),
    /// A decimal numeral. In its place stands the double nearest to its
    /// value, written with at least one decimal.
    Number(String),
}

/// What [`Piece`] stands for in contracts.
pub enum PieceView {
    Text(Seq<char>),
    Number(Seq<char>),
}

impl View for Piece {
    type V = PieceView;

    open spec fn view(&self) -> PieceView {
        match self {
            Piece::Text(s) => PieceView::Text(s@),
            Piece::Number(s) => PieceView::Number(s@),
        }
    }
}

/// The views of a sequence of pieces.
pub open spec fn pieces_view(pieces: Seq<Piece>) -> Seq<PieceView> {
    pieces.map_values(|p: Piece| p@)
}

/// One piece of text.
pub open spec fn text(s: Seq<char>) -> Seq<PieceView> {
    seq![PieceView::Text(s)]
}

/// The line of a token in a token listing: the name of its kind, its
/// lexeme, and its literal or `null`.
pub open spec fn token_pieces(token: TokenView) -> Seq<PieceView> {
    let head = token.token_type.spec_name() + " "@ + token.lexeme + " "@;
    match token.literal() {
        Some(LiteralView::String(s)) => text(head + s),
        Some(LiteralView::Number(n)) => text(head).push(PieceView::Number(n)),
        None => text(head + "null"@),
    }
}

/// The pieces of an optional statement: none where there is no statement.
pub open spec fn optional_pieces(s: Option<Box<StmtView>>) -> Seq<PieceView>
    decreases s,
{
    match s {
        Some(inner) => stmt_pieces(*inner),
        None => Seq::empty(),
    }
}

/// The statements of a block, each on a line of its own, indented.
pub open spec fn block_pieces(items: Seq<StmtView>) -> Seq<PieceView>
    decreases items,
{
    if items.len() == 0 {
        Seq::empty()
    } else {
        block_pieces(items.drop_last()) + text("   "@) + stmt_pieces(items.last()) + text("\n"@)
    }
}

/// An expression in prefix form, every operation in parentheses.
pub open spec fn expr_pieces(e: ExprView) -> Seq<PieceView>
    decreases e,
{
    match e {
        ExprView::Binary(left, op, right) => text("("@ + op.lexeme + " "@) + expr_pieces(*left)
            + text(" "@) + expr_pieces(*right) + text(")"@),
        ExprView::Unary(op, operand) => text("("@ + op.lexeme + " "@) + expr_pieces(*operand)
            + text(")"@),
        ExprView::Group(inner) => text("(group "@) + stmt_pieces(*inner) + text(")"@),
        ExprView::Literal(token) => match token.token_type {
            TokenType::Number => seq![PieceView::Number(token.lexeme)],
            TokenType::String => text(unquoted(token.lexeme)),
            _ => text(token.lexeme),
        },
    }
}

/// A statement, its expressions in prefix form.
pub open spec fn stmt_pieces(s: StmtView) -> Seq<PieceView>
    decreases s,
{
    match s {
        StmtView::Expr(e) => expr_pieces(e),
        StmtView::Print(operand) => text("print "@) + stmt_pieces(*operand),
        StmtView::Declare(name, Some(init)) => text("var "@ + name + " = "@) + stmt_pieces(*init),
        StmtView::Declare(name, None) => text("var "@ + name),
        StmtView::Assign(name, operand) => text(name + " = "@) + stmt_pieces(*operand),
        StmtView::If(condition, consequent, Some(alternative)) => text("if "@) + stmt_pieces(
            *condition,
        ) + text(" "@) + stmt_pieces(*consequent) + text(" else "@) + stmt_pieces(*alternative),
        StmtView::If(condition, consequent, None) => text("if "@) + stmt_pieces(*condition)
            + text(" "@) + stmt_pieces(*consequent),
        StmtView::While(condition, body) => text("while "@) + stmt_pieces(*condition) + text(
            " "@,
        ) + stmt_pieces(*body),
        StmtView::For(initializer, condition, increment, body) => text("for "@)
            + optional_pieces(initializer) + text("; "@) + optional_pieces(condition) + text(
            "; "@,
        ) + optional_pieces(increment) + text(" "@) + stmt_pieces(*body),
        StmtView::Block(items) => text("{\n"@) + block_pieces(items) + text("}\n"@),
    }
}

/// Appends one piece of text.
fn put(out: &mut Vec<Piece>, s: String)
    ensures
        pieces_view(final(out)@) == pieces_view(old(out)@) + text(s@),
{
    out.push(Piece::Text(s));
    assert(pieces_view(out@) =~= pieces_view(old(out)@) + text(s@));
}

/// Appends one piece of text.
fn put_str(out: &mut Vec<Piece>, s: &str)
    ensures
        pieces_view(final(out)@) == pieces_view(old(out)@) + text(s@),
{
    put(out, String::from_str(s));
}

impl Token {
    /// The line of the token in a token listing: see [`token_pieces`].
    pub fn describe(&self) -> (r: Vec<Piece>)
        ensures
            pieces_view(r@) == token_pieces(self@),
    {
        let mut head = String::from_str(self.token_type.name());
        head.append(" ");
        head.append(self.lexeme.as_str());
        head.append(" ");
        let mut out: Vec<Piece> = Vec::new();
        match self.literal() {
            Some(Literal::String(s)) => {
                head.append(s.as_str());
                out.push(Piece::Text(head));
            },
            Some(Literal::Number(n)) => {
                out.push(Piece::Text(head));
                out.push(Piece::Number(n));
            },
            None => {
                head.append("null");
                out.push(Piece::Text(head));
            },
        }
        assert(pieces_view(out@) =~= token_pieces(self@));
        out
    }
}

impl Expr {
    /// Appends the expression in prefix form: see [`expr_pieces`].
    pub fn render_into(&self, out: &mut Vec<Piece>)
        ensures
            pieces_view(final(out)@) == pieces_view(old(out)@) + expr_pieces(self@),
        decreases self,
    {
        match self {
            Expr::Binary(left, op, right) => {
                let mut head = String::from_str("(");
                head.append(op.lexeme.as_str());
                head.append(" ");
                put(out, head);
                left.render_into(out);
                put_str(out, " ");
                right.render_into(out);
                put_str(out, ")");
                assert(pieces_view(out@) =~= pieces_view(old(out)@) + (text(
                    "("@ + op.lexeme@ + " "@,
                ) + expr_pieces(left@) + text(" "@) + expr_pieces(right@) + text(")"@)));
            },
            Expr::Unary(op, operand) => {
                let mut head = String::from_str("(");
                head.append(op.lexeme.as_str());
                head.append(" ");
                put(out, head);
                operand.render_into(out);
                put_str(out, ")");
                assert(pieces_view(out@) =~= pieces_view(old(out)@) + (text(
                    "("@ + op.lexeme@ + " "@,
                ) + expr_pieces(operand@) + text(")"@)));
            },
            Expr::Group(inner) => {
                put_str(out, "(group ");
                inner.render_into(out);
                put_str(out, ")");
                assert(pieces_view(out@) =~= pieces_view(old(out)@) + (text("(group "@)
                    + stmt_pieces(inner@) + text(")"@)));
            },
            Expr::Literal(token) => match token.literal() {
                Some(Literal::Number(n)) => {
                    out.push(Piece::Number(n));
                    assert(pieces_view(out@) =~= pieces_view(old(out)@) + expr_pieces(self@));
                },
                Some(Literal::String(s)) => {
                    put(out, s);
                },
                None => {
                    put(out, token.lexeme.clone());
                },
            },
        }
    }

    /// The expression in prefix form: see [`expr_pieces`].
    pub fn render(&self) -> (r: Vec<Piece>)
        ensures
            pieces_view(r@) == expr_pieces(self@),
    {
        let mut out: Vec<Piece> = Vec::new();
        self.render_into(&mut out);
        assert(pieces_view(out@) =~= expr_pieces(self@));
        out
    }
}

/// Appends the pieces of an optional statement.
fn render_optional(s: &Option<Box<Stmt>>, out: &mut Vec<Piece>)
    ensures
        pieces_view(final(out)@) == pieces_view(old(out)@) + optional_pieces(optional_view(*s)),
    decreases s,
{
    match s {
        Some(inner) => {
            inner.render_into(out);
        },
        None => {
            assert(pieces_view(out@) =~= pieces_view(old(out)@) + Seq::empty());
        },
    }
}

/// Appends the statements of a block, each on a line of its own.
fn render_block(items: &Vec<Stmt>, out: &mut Vec<Piece>)
    ensures
        pieces_view(final(out)@) == pieces_view(old(out)@) + block_pieces(stmts_view(items@)),
    decreases items,
{
    let ghost start = pieces_view(out@);
    let mut i: usize = 0;
    assert(pieces_view(out@) =~= start + block_pieces(stmts_view(items@.take(0))));
    while i < items.len()
        invariant
            i <= items@.len(),
            pieces_view(out@) == start + block_pieces(stmts_view(items@.take(i as int))),
        decreases items@.len() - i,
    {
        put_str(out, "   ");
        items[i].render_into(out);
        put_str(out, "\n");
        proof {
            assert(items@.take(i + 1) =~= items@.take(i as int).push(items@[i as int]));
            lemma_stmts_view_push(items@.take(i as int), items@[i as int]);
            let done = stmts_view(items@.take(i + 1));
            assert(done.drop_last() =~= stmts_view(items@.take(i as int)));
            assert(pieces_view(out@) =~= start + block_pieces(done));
        }
        i += 1;
    }
    proof {
        assert(items@.take(i as int) =~= items@);
    }
}

impl Stmt {
    /// Appends the statement, its expressions in prefix form: see
    /// [`stmt_pieces`].
    pub fn render_into(&self, out: &mut Vec<Piece>)
        ensures
            pieces_view(final(out)@) == pieces_view(old(out)@) + stmt_pieces(self@),
        decreases self,
    {
        proof {
            reveal_with_fuel(stmt_view, 2);
            reveal_with_fuel(optional_view, 2);
        }
        match self {
            Stmt::Expr(e) => {
                e.render_into(out);
            },
            Stmt::Print(operand) => {
                put_str(out, "print ");
                operand.render_into(out);
                assert(pieces_view(out@) =~= pieces_view(old(out)@) + (text("print "@)
                    + stmt_pieces(operand@)));
            },
            Stmt::Declare(name, initializer) => {
                let mut head = String::from_str("var ");
                head.append(name.as_str());
                match initializer {
                    Some(init) => {
                        head.append(" = ");
                        put(out, head);
                        init.render_into(out);
                        assert(pieces_view(out@) =~= pieces_view(old(out)@) + (text(
                            "var "@ + name@ + " = "@,
                        ) + stmt_pieces(init@)));
                    },
                    None => {
                        put(out, head);
                    },
                }
            },
            Stmt::Assign(name, operand) => {
                let mut head = name.clone();
                head.append(" = ");
                put(out, head);
                operand.render_into(out);
                assert(pieces_view(out@) =~= pieces_view(old(out)@) + (text(name@ + " = "@)
                    + stmt_pieces(operand@)));
            },
            Stmt::If(condition, consequent, alternative) => {
                put_str(out, "if ");
                condition.render_into(out);
                put_str(out, " ");
                consequent.render_into(out);
                match alternative {
                    Some(other) => {
                        put_str(out, " else ");
                        other.render_into(out);
                        assert(pieces_view(out@) =~= pieces_view(old(out)@) + (text("if "@)
                            + stmt_pieces(condition@) + text(" "@) + stmt_pieces(consequent@)
                            + text(" else "@) + stmt_pieces(other@)));
                    },
                    None => {
                        assert(pieces_view(out@) =~= pieces_view(old(out)@) + (text("if "@)
                            + stmt_pieces(condition@) + text(" "@) + stmt_pieces(consequent@)));
                    },
                }
            },
            Stmt::While(condition, body) => {
                put_str(out, "while ");
                condition.render_into(out);
                put_str(out, " ");
                body.render_into(out);
                assert(pieces_view(out@) =~= pieces_view(old(out)@) + (text("while "@)
                    + stmt_pieces(condition@) + text(" "@) + stmt_pieces(body@)));
            },
            Stmt::For(initializer, condition, increment, body) => {
                put_str(out, "for ");
                render_optional(initializer, out);
                put_str(out, "; ");
                render_optional(condition, out);
                put_str(out, "; ");
                render_optional(increment, out);
                put_str(out, " ");
                body.render_into(out);
                assert(pieces_view(out@) =~= pieces_view(old(out)@) + (text("for "@)
                    + optional_pieces(optional_view(*initializer)) + text("; "@)
                    + optional_pieces(optional_view(*condition)) + text("; "@) + optional_pieces(
                    optional_view(*increment),
                ) + text(" "@) + stmt_pieces(body@)));
            },
            Stmt::Block(items) => {
                put_str(out, "{\n");
                render_block(items, out);
                put_str(out, "}\n");
                assert(pieces_view(out@) =~= pieces_view(old(out)@) + (text("{\n"@)
                    + block_pieces(stmts_view(items@)) + text("}\n"@)));
            },
        }
    }

    /// The statement, its expressions in prefix form: see [`stmt_pieces`].
    pub fn render(&self) -> (r: Vec<Piece>)
        ensures
            pieces_view(r@) == stmt_pieces(self@),
    {
        let mut out: Vec<Piece> = Vec::new();
        self.render_into(&mut out);
        assert(pieces_view(out@) =~= stmt_pieces(self@));
        out
    }
}

} // verus!
