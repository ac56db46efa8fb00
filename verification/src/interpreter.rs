//! The front end in one piece: from source text to statements.

use vstd::prelude::*;
use crate::ast::stmts_view;
use crate::ast::Stmt;
use crate::grammar::program;
use crate::parser::fault_texts;
use crate::parser::Parser;
use crate::scanner::lemma_scan_from_shape;
use crate::scanner::scan;
use crate::scanner::Scanner;
use crate::status::Failure;
use crate::text::texts;
use crate::token::tokens_view;
use crate::token::Token;

verus! {

/// Scans and parses a source text, and keeps what came of it.
pub struct Interpreter<'a> {
    source: &'a str,
    tokens: Vec<Token>,
    statements: Vec<Stmt>,
    messages: Vec<String>,
}

impl<'a> Interpreter<'a> {
    /// The source text.
    pub closed spec fn source(&self) -> Seq<char> {
        self.source@
    }

    /// The tokens of the last scan.
    pub closed spec fn found(&self) -> Seq<Token> {
        self.tokens@
    }

    /// The statements of the last parse.
    pub closed spec fn read(&self) -> Seq<Stmt> {
        self.statements@
    }

    /// The diagnostics of the last scan or parse.
    pub closed spec fn issued(&self) -> Seq<String> {
        self.messages@
    }

    /// An interpreter for `source`, which has done nothing yet.
    pub fn new(source: &'a str) -> (r: Interpreter<'a>)
        ensures
            r.source() == source@,
            r.found().len() == 0,
            r.read().len() == 0,
            r.issued().len() == 0,
    {
        Interpreter { source, tokens: Vec::new(), statements: Vec::new(), messages: Vec::new() }
    }

    /// The tokens of the last scan.
    pub fn tokens(&self) -> (r: &Vec<Token>)
        ensures
            r@ == self.found(),
    {
        &self.tokens
    }

    /// The statements of the last parse.
    pub fn statements(&self) -> (r: &Vec<Stmt>)
        ensures
            r@ == self.read(),
    {
        &self.statements
    }

    /// Hands over the statements of the last parse; the interpreter keeps
    /// none.
    pub fn take_statements(&mut self) -> (r: Vec<Stmt>)
        ensures
            r@ == old(self).read(),
            final(self).read().len() == 0,
            final(self).source() == old(self).source(),
            final(self).found() == old(self).found(),
            final(self).issued() == old(self).issued(),
    {
        let mut taken: Vec<Stmt> = Vec::new();
        core::mem::swap(&mut self.statements, &mut taken);
        taken
    }

    /// The diagnostics of the last scan or parse, in source order.
    pub fn messages(&self) -> (r: &Vec<String>)
        ensures
            r@ == self.issued(),
    {
        &self.messages
    }

    /// Scans the source text: the tokens and the diagnostics are those of
    /// [`scan`], and the result is an error exactly when there are
    /// diagnostics. Statements of an earlier parse are dropped.
    pub fn tokenize(&mut self) -> (r: Result<(), Failure>)
        requires
            old(self).source().len() < usize::MAX,
        ensures
            final(self).source() == old(self).source(),
            tokens_view(final(self).found()) == scan(old(self).source()).tokens,
            texts(final(self).issued()) == scan(old(self).source()).messages,
            final(self).read().len() == 0,
            r.is_ok() == (scan(old(self).source()).messages.len() == 0),
            r.is_err() ==> r == Err::<(), Failure>(Failure::Syntax),
    {
        let mut scanner = Scanner::new(self.source);
        let result = scanner.tokenize();
        self.tokens = scanner.take_tokens();
        self.messages = scanner.take_messages();
        self.statements = Vec::new();
        result
    }

    /// Scans the source text and, if that gives no diagnostic, parses the
    /// tokens. After a failed scan there are no statements, and the
    /// diagnostics are those of the scan; otherwise the statements and the
    /// diagnostics are those of [`program`] on the tokens. The result is an
    /// error exactly when there are diagnostics.
    pub fn parse(&mut self) -> (r: Result<(), Failure>)
        requires
            old(self).source().len() < usize::MAX,
        ensures
            final(self).source() == old(self).source(),
            tokens_view(final(self).found()) == scan(old(self).source()).tokens,
            scan(old(self).source()).messages.len() > 0 ==> {
                &&& r == Err::<(), Failure>(Failure::Syntax)
                &&& final(self).read().len() == 0
                &&& texts(final(self).issued()) == scan(old(self).source()).messages
            },
            scan(old(self).source()).messages.len() == 0 ==> {
                let parsed = program(scan(old(self).source()).tokens);
                &&& stmts_view(final(self).read()) == parsed.statements
                &&& texts(final(self).issued()) == fault_texts(
                    scan(old(self).source()).tokens,
                    parsed.faults,
                )
                &&& r.is_ok() == (parsed.faults.len() == 0)
                &&& r.is_err() ==> r == Err::<(), Failure>(Failure::Syntax)
            },
    {
        let scanned = self.tokenize();
        if scanned.is_err() {
            return scanned;
        }
        proof {
            lemma_scan_from_shape(self.source@, 0, 1);
        }
        let mut parser = Parser::new(self.tokens.as_slice());
        let result = parser.parse();
        let statements = parser.take_statements();
        let messages = parser.take_messages();
        self.statements = statements;
        self.messages = messages;
        result
    }
}

} // verus!
