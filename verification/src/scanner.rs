//! The scanner: one pass over the source text, one character of lookahead
//! (two inside a number), producing the token list and the diagnostics.

use vstd::prelude::*;
use crate::status::Failure;
use crate::text::char_is_alphabetic;
use crate::text::char_is_alphanumeric;
use crate::text::collect;
use crate::text::compose;
use crate::text::diagnostic;
use crate::text::texts;
use crate::text::to_chars;
use crate::token::tokens_view;
use crate::token::Token;
use crate::token::TokenType;
use crate::token::TokenView;

verus! {

/// The classes of characters of which the scanner consumes maximal runs.
#[derive(Clone, Copy, Debug, PartialEq, Eq, Structural)]
pub enum Run {
    /// ASCII digits.
    Digits,
    /// Alphanumeric characters and `_`.
    Word,
    /// Everything up to the end of the line.
    Comment,
    /// Everything up to the next double quote.
    Text,
}

/// What the scanner can object to.
#[derive(Clone, Copy, Debug, PartialEq, Eq, Structural)]
pub enum ScanFault {
    /// A character that starts no token.
    UnexpectedCharacter(char),
    /// A string literal that the end of the input cuts short.
    UnterminatedString,
}

/// Whether `c` is one of the digits `0` to `9`.
pub open spec fn is_digit(c: char) -> bool {
    '0' <= c <= '9'
}

/// Whether `c` belongs to a run of the class `run`.
pub open spec fn in_run(run: Run, c: char) -> bool {
    match run {
        Run::Digits => is_digit(c),
        Run::Word => char_is_alphanumeric(c) || c == '_',
        Run::Comment => c != '\n',
        Run::Text => c != '"',
    }
}

/// The first position at or after `pos` whose character is not in `run`; the
/// length of `src` when there is none.
pub open spec fn run_end(src: Seq<char>, pos: int, run: Run) -> int
    decreases src.len() - pos,
{
    if 0 <= pos < src.len() && in_run(run, src[pos]) {
        run_end(src, pos + 1, run)
    } else {
        pos
    }
}

/// The number of line feeds in `src[from..to]`.
pub open spec fn newlines(src: Seq<char>, from: int, to: int) -> nat
    decreases to - from,
{
    if from >= to {
        0
    } else {
        newlines(src, from, to - 1) + if src[to - 1] == '\n' {
            1nat
        } else {
            0nat
        }
    }
}

/// The token that a single punctuation character makes.
pub open spec fn punctuation(c: char) -> Option<TokenType> {
    if c == '(' {
        Some(TokenType::LeftParen)
    } else if c == ')' {
        Some(TokenType::RightParen)
    } else if c == '{' {
        Some(TokenType::LeftBrace)
    } else if c == '}' {
        Some(TokenType::RightBrace)
    } else if c == ',' {
        Some(TokenType::Comma)
    } else if c == '.' {
        Some(TokenType::Dot)
    } else if c == '-' {
        Some(TokenType::Minus)
    } else if c == '+' {
        Some(TokenType::Plus)
    } else if c == ';' {
        Some(TokenType::SemiColon)
    } else if c == '*' {
        Some(TokenType::Star)
    } else {
        None
    }
}

/// The operator that `c` makes: alone, or, when `wide`, together with a `=`
/// that follows it.
pub open spec fn operator(c: char, wide: bool) -> Option<TokenType> {
    if c == '=' {
        Some(if wide { TokenType::EqualEqual } else { TokenType::Equal })
    } else if c == '!' {
        Some(if wide { TokenType::BangEqual } else { TokenType::Bang })
    } else if c == '<' {
        Some(if wide { TokenType::LessEqual } else { TokenType::Less })
    } else if c == '>' {
        Some(if wide { TokenType::GreaterEqual } else { TokenType::Greater })
    } else {
        None
    }
}

/// The kind of the reserved word `text`, if it is one.
pub open spec fn keyword(text: Seq<char>) -> Option<TokenType> {
    if text == "and"@ {
        Some(TokenType::And)
    } else if text == "class"@ {
        Some(TokenType::Class)
    } else if text == "else"@ {
        Some(TokenType::Else)
    } else if text == "false"@ {
        Some(TokenType::False)
    } else if text == "for"@ {
        Some(TokenType::For)
    } else if text == "fun"@ {
        Some(TokenType::Fun)
    } else if text == "if"@ {
        Some(TokenType::If)
    } else if text == "nil"@ {
        Some(TokenType::Nil)
    } else if text == "or"@ {
        Some(TokenType::Or)
    } else if text == "print"@ {
        Some(TokenType::Print)
    } else if text == "return"@ {
        Some(TokenType::Return)
    } else if text == "super"@ {
        Some(TokenType::Super)
    } else if text == "this"@ {
        Some(TokenType::This)
    } else if text == "true"@ {
        Some(TokenType::True)
    } else if text == "var"@ {
        Some(TokenType::Var)
    } else if text == "while"@ {
        Some(TokenType::While)
    } else {
        None
    }
}

/// Where a number that starts at `pos` ends: after its digits, and after a
/// fraction when a `.` and at least one more digit follow them.
pub open spec fn number_end(src: Seq<char>, pos: int) -> int {
    let whole = run_end(src, pos, Run::Digits);
    if whole + 1 < src.len() && src[whole] == '.' && is_digit(src[whole + 1]) {
        run_end(src, whole + 1, Run::Digits)
    } else {
        whole
    }
}

/// What the scanner does with the character at `pos`: where it goes on, on
/// which line, and the token or the fault that it found, if any.
pub struct ScanStep {
    pub end: int,
    pub line: nat,
    pub kind: Option<TokenType>,
    pub fault: Option<ScanFault>,
}

/// The step that the scanner takes at `pos`, on line `line`: a token of
/// punctuation, an operator of one or two characters, a comment, a string,
/// a number, a word, a line feed, blank space, or a character that starts
/// none of these.
pub open spec fn scan_step(src: Seq<char>, pos: int, line: nat) -> ScanStep
    recommends
        0 <= pos < src.len(),
{
    let c = src[pos];
    if punctuation(c) is Some {
        ScanStep { end: pos + 1, line, kind: punctuation(c), fault: None }
    } else if operator(c, false) is Some {
        if pos + 1 < src.len() && src[pos + 1] == '=' {
            ScanStep { end: pos + 2, line, kind: operator(c, true), fault: None }
        } else {
            ScanStep { end: pos + 1, line, kind: operator(c, false), fault: None }
        }
    } else if c == '/' {
        if pos + 1 < src.len() && src[pos + 1] == '/' {
            ScanStep { end: run_end(src, pos + 1, Run::Comment), line, kind: None, fault: None }
        } else {
            ScanStep { end: pos + 1, line, kind: Some(TokenType::Slash), fault: None }
        }
    } else if c == '"' {
        let close = run_end(src, pos + 1, Run::Text);
        let last = line + newlines(src, pos + 1, close);
        if close < src.len() {
            ScanStep { end: close + 1, line: last, kind: Some(TokenType::String), fault: None }
        } else {
            ScanStep {
                end: close,
                line: last,
                kind: None,
                fault: Some(ScanFault::UnterminatedString),
            }
        }
    } else if is_digit(c) {
        ScanStep { end: number_end(src, pos), line, kind: Some(TokenType::Number), fault: None }
    } else if char_is_alphabetic(c) || c == '_' {
        let end = run_end(src, pos + 1, Run::Word);
        let kind = match keyword(src.subrange(pos, end)) {
            Some(k) => k,
            None => TokenType::Identifier,
        };
        ScanStep { end, line, kind: Some(kind), fault: None }
    } else if c == '\n' {
        ScanStep { end: pos + 1, line: line + 1, kind: None, fault: None }
    } else if c == ' ' || c == '\t' || c == '\r' {
        ScanStep { end: pos + 1, line, kind: None, fault: None }
    } else {
        ScanStep { end: pos + 1, line, kind: None, fault: Some(ScanFault::UnexpectedCharacter(c)) }
    }
}

/// What the scanner says of a fault.
pub open spec fn fault_message(fault: ScanFault) -> Seq<char> {
    match fault {
        ScanFault::UnexpectedCharacter(c) => "Unexpected character: "@.push(c),
        ScanFault::UnterminatedString => "Unterminated string."@,
    }
}

/// The outcome of a scan: the tokens and the diagnostics, each in source order.
pub struct Scan {
    pub tokens: Seq<TokenView>,
    pub messages: Seq<Seq<char>>,
}

/// The end-of-file token: no lexeme, the line on which the input ended.
pub open spec fn end_token(line: nat) -> TokenView {
    TokenView { token_type: TokenType::Eof, lexeme: Seq::empty(), line }
}

/// The scan of `src` from `pos` on, where `pos` lies on line `line`.
pub open spec fn scan_from(src: Seq<char>, pos: int, line: nat) -> Scan
    decreases src.len() - pos,
{
    if pos < 0 || pos >= src.len() {
        Scan { tokens: seq![end_token(line)], messages: Seq::empty() }
    } else {
        let step = scan_step(src, pos, line);
        proof {
            lemma_scan_step_progress(src, pos, line);
        }
        let rest = scan_from(src, step.end, step.line);
        Scan {
            tokens: match step.kind {
                Some(kind) => seq![
                    TokenView {
                        token_type: kind,
                        lexeme: src.subrange(pos, step.end),
                        line: step.line,
                    },
                ] + rest.tokens,
                None => rest.tokens,
            },
            messages: match step.fault {
                Some(fault) => seq![
                    diagnostic(step.line, Seq::empty(), fault_message(fault)),
                ] + rest.messages,
                None => rest.messages,
            },
        }
    }
}

/// The scan of a whole source text. Lines are counted from 1.
pub open spec fn scan(src: Seq<char>) -> Scan {
    scan_from(src, 0, 1)
}

/// A run ends between its start and the end of the text.
pub proof fn lemma_run_end_bounds(src: Seq<char>, pos: int, run: Run)
    requires
        0 <= pos <= src.len(),
    ensures
        pos <= run_end(src, pos, run) <= src.len(),
    decreases src.len() - pos,
{
    if pos < src.len() && in_run(run, src[pos]) {
        lemma_run_end_bounds(src, pos + 1, run);
    }
}

/// A stretch of text holds no more line feeds than characters.
pub proof fn lemma_newlines_bound(src: Seq<char>, from: int, to: int)
    ensures
        from <= to ==> newlines(src, from, to) <= to - from,
        from >= to ==> newlines(src, from, to) == 0,
    decreases to - from,
{
    if from < to {
        lemma_newlines_bound(src, from, to - 1);
    }
}

/// Every step consumes at least one character, stays inside the text, and
/// moves the line count forward by no more than it consumed.
pub proof fn lemma_scan_step_progress(src: Seq<char>, pos: int, line: nat)
    requires
        0 <= pos < src.len(),
    ensures
        pos < scan_step(src, pos, line).end <= src.len(),
        line <= scan_step(src, pos, line).line <= line + (scan_step(src, pos, line).end - pos),
        scan_step(src, pos, line).kind != Some(TokenType::Eof),
{
    lemma_run_end_bounds(src, pos + 1, Run::Comment);
    lemma_run_end_bounds(src, pos + 1, Run::Text);
    lemma_run_end_bounds(src, pos + 1, Run::Word);
    lemma_run_end_bounds(src, pos + 1, Run::Digits);
    lemma_newlines_bound(src, pos + 1, run_end(src, pos + 1, Run::Text));
    let whole = run_end(src, pos, Run::Digits);
    if is_digit(src[pos]) {
        assert(whole == run_end(src, pos + 1, Run::Digits));
        if whole + 1 < src.len() {
            lemma_run_end_bounds(src, whole + 1, Run::Digits);
        }
    }
}

/// The token list of every scan ends in an end-of-file token and holds no
/// other; the lines of its tokens never decrease, and none lies before the
/// line on which the scan began.
pub proof fn lemma_scan_from_shape(src: Seq<char>, pos: int, line: nat)
    ensures
        ({
            let tokens = scan_from(src, pos, line).tokens;
            &&& tokens.len() >= 1
            &&& tokens.last().token_type == TokenType::Eof
            &&& forall|i: int|
                0 <= i < tokens.len() - 1 ==> (#[trigger] tokens[i]).token_type != TokenType::Eof
            &&& forall|i: int| 0 <= i < tokens.len() ==> line <= (#[trigger] tokens[i]).line
            &&& forall|i: int, j: int|
                0 <= i <= j < tokens.len() ==> (#[trigger] tokens[i]).line <= (
                #[trigger] tokens[j]).line
        }),
    decreases src.len() - pos,
{
    if 0 <= pos < src.len() {
        let step = scan_step(src, pos, line);
        lemma_scan_step_progress(src, pos, line);
        lemma_scan_from_shape(src, step.end, step.line);
        let rest = scan_from(src, step.end, step.line).tokens;
        let tokens = scan_from(src, pos, line).tokens;
        if step.kind is Some {
            assert(forall|i: int| 1 <= i < tokens.len() ==> tokens[i] == rest[i - 1]);
        }
    }
}

/// Collects what the scanner reports.
#[derive(Debug)]
pub struct ScanReport {
    pub had_error: bool,
    pub messages: Vec<String>,
}

impl ScanReport {
    /// A report with nothing in it.
    pub fn new() -> (r: ScanReport)
        ensures
            !r.had_error,
            r.messages@.len() == 0,
    {
        ScanReport { had_error: false, messages: Vec::new() }
    }

    /// Records the diagnostic `[line N] Error<location>: <msg>`.
    pub fn report(&mut self, line: usize, location: &str, msg: &str)
        ensures
            final(self).had_error,
            texts(final(self).messages@) == texts(old(self).messages@).push(
                diagnostic(line as nat, location@, msg@),
            ),
    {
        let text = compose(line, location, msg);
        self.messages.push(text);
        self.had_error = true;
        assert(texts(self.messages@) =~= texts(old(self).messages@).push(
            diagnostic(line as nat, location@, msg@),
        ));
    }

    /// Records the diagnostic `[line N] Error: <msg>`.
    pub fn error(&mut self, line: usize, msg: &str)
        ensures
            final(self).had_error,
            texts(final(self).messages@) == texts(old(self).messages@).push(
                diagnostic(line as nat, Seq::empty(), msg@),
            ),
    {
        self.report(line, "", msg);
        proof {
            reveal_strlit("");
            assert(""@ =~= Seq::<char>::empty());
        }
    }
}

fn punctuation_of(c: char) -> (r: Option<TokenType>)
    ensures
        r == punctuation(c),
{
    if c == '(' {
        Some(TokenType::LeftParen)
    } else if c == ')' {
        Some(TokenType::RightParen)
    } else if c == '{' {
        Some(TokenType::LeftBrace)
    } else if c == '}' {
        Some(TokenType::RightBrace)
    } else if c == ',' {
        Some(TokenType::Comma)
    } else if c == '.' {
        Some(TokenType::Dot)
    } else if c == '-' {
        Some(TokenType::Minus)
    } else if c == '+' {
        Some(TokenType::Plus)
    } else if c == ';' {
        Some(TokenType::SemiColon)
    } else if c == '*' {
        Some(TokenType::Star)
    } else {
        None
    }
}

fn operator_of(c: char, wide: bool) -> (r: Option<TokenType>)
    ensures
        r == operator(c, wide),
{
    if c == '=' {
        Some(if wide { TokenType::EqualEqual } else { TokenType::Equal })
    } else if c == '!' {
        Some(if wide { TokenType::BangEqual } else { TokenType::Bang })
    } else if c == '<' {
        Some(if wide { TokenType::LessEqual } else { TokenType::Less })
    } else if c == '>' {
        Some(if wide { TokenType::GreaterEqual } else { TokenType::Greater })
    } else {
        None
    }
}

fn keyword_of(text: &str) -> (r: Option<TokenType>)
    ensures
        r == keyword(text@),
{
    if text.eq("and") {
        Some(TokenType::And)
    } else if text.eq("class") {
        Some(TokenType::Class)
    } else if text.eq("else") {
        Some(TokenType::Else)
    } else if text.eq("false") {
        Some(TokenType::False)
    } else if text.eq("for") {
        Some(TokenType::For)
    } else if text.eq("fun") {
        Some(TokenType::Fun)
    } else if text.eq("if") {
        Some(TokenType::If)
    } else if text.eq("nil") {
        Some(TokenType::Nil)
    } else if text.eq("or") {
        Some(TokenType::Or)
    } else if text.eq("print") {
        Some(TokenType::Print)
    } else if text.eq("return") {
        Some(TokenType::Return)
    } else if text.eq("super") {
        Some(TokenType::Super)
    } else if text.eq("this") {
        Some(TokenType::This)
    } else if text.eq("true") {
        Some(TokenType::True)
    } else if text.eq("var") {
        Some(TokenType::Var)
    } else if text.eq("while") {
        Some(TokenType::While)
    } else {
        None
    }
}

fn digit(c: char) -> (r: bool)
    ensures
        r == is_digit(c),
{
    '0' <= c && c <= '9'
}

fn belongs(run: Run, c: char) -> (r: bool)
    ensures
        r == in_run(run, c),
{
    match run {
        Run::Digits => digit(c),
        Run::Word => c.is_alphanumeric() || c == '_',
        Run::Comment => c != '\n',
        Run::Text => c != '"',
    }
}

/// Walks to the end of the run that starts at `pos`, counting the line feeds
/// it passes.
pub(crate) fn walk(src: &Vec<char>, pos: usize, run: Run) -> (r: (usize, usize))
    requires
        pos <= src@.len(),
    ensures
        r.0 == run_end(src@, pos as int, run),
        r.1 == newlines(src@, pos as int, r.0 as int),
        pos <= r.0 <= src@.len(),
{
    let mut i: usize = pos;
    let mut feeds: usize = 0;
    while i < src.len() && belongs(run, src[i])
        invariant
            pos <= i <= src@.len(),
            run_end(src@, i as int, run) == run_end(src@, pos as int, run),
            feeds == newlines(src@, pos as int, i as int),
            feeds <= i - pos,
        decreases src@.len() - i,
    {
        if src[i] == '\n' {
            feeds += 1;
        }
        i += 1;
    }
    (i, feeds)
}

/// One step of the scanner, as [`scan_step`] describes it.
fn step(src: &Vec<char>, pos: usize, line: usize) -> (r: (usize, usize, Option<TokenType>, Option<ScanFault>))
    requires
        pos < src@.len(),
        src@.len() < usize::MAX,
        line <= pos + 1,
    ensures
        r.0 == scan_step(src@, pos as int, line as nat).end,
        r.1 == scan_step(src@, pos as int, line as nat).line,
        r.2 == scan_step(src@, pos as int, line as nat).kind,
        r.3 == scan_step(src@, pos as int, line as nat).fault,
{
    let c = src[pos];
    let follows = pos + 1 < src.len();
    if let Some(kind) = punctuation_of(c) {
        (pos + 1, line, Some(kind), None)
    } else if operator_of(c, false).is_some() {
        if follows && src[pos + 1] == '=' {
            (pos + 2, line, operator_of(c, true), None)
        } else {
            (pos + 1, line, operator_of(c, false), None)
        }
    } else if c == '/' {
        if follows && src[pos + 1] == '/' {
            let (end, _) = walk(src, pos + 1, Run::Comment);
            (end, line, None, None)
        } else {
            (pos + 1, line, Some(TokenType::Slash), None)
        }
    } else if c == '"' {
        let (close, feeds) = walk(src, pos + 1, Run::Text);
        proof {
            lemma_newlines_bound(src@, pos + 1, close as int);
        }
        if close < src.len() {
            (close + 1, line + feeds, Some(TokenType::String), None)
        } else {
            (close, line + feeds, None, Some(ScanFault::UnterminatedString))
        }
    } else if digit(c) {
        let (whole, _) = walk(src, pos, Run::Digits);
        if whole + 1 < src.len() && src[whole] == '.' && digit(src[whole + 1]) {
            let (end, _) = walk(src, whole + 1, Run::Digits);
            (end, line, Some(TokenType::Number), None)
        } else {
            (whole, line, Some(TokenType::Number), None)
        }
    } else if c.is_alphabetic() || c == '_' {
        let (end, _) = walk(src, pos + 1, Run::Word);
        let word = collect(src, pos, end);
        let kind = match keyword_of(word.as_str()) {
            Some(k) => k,
            None => TokenType::Identifier,
        };
        (end, line, Some(kind), None)
    } else if c == '\n' {
        (pos + 1, line + 1, None, None)
    } else if c == ' ' || c == '\t' || c == '\r' {
        (pos + 1, line, None, None)
    } else {
        (pos + 1, line, None, Some(ScanFault::UnexpectedCharacter(c)))
    }
}

/// The scanner: holds a source text, and after [`Scanner::tokenize`] its
/// tokens and diagnostics.
pub struct Scanner {
    source: Vec<char>,
    tokens: Vec<Token>,
    report: ScanReport,
}

impl Scanner {
    /// The source text.
    pub closed spec fn source(&self) -> Seq<char> {
        self.source@
    }

    /// The tokens found so far.
    pub closed spec fn found(&self) -> Seq<Token> {
        self.tokens@
    }

    /// The diagnostics issued so far.
    pub closed spec fn issued(&self) -> Seq<String> {
        self.report.messages@
    }

    /// Whether a diagnostic was issued.
    pub closed spec fn failed(&self) -> bool {
        self.report.had_error
    }

    /// A scanner for `source`, which has not scanned anything yet.
    pub fn new(source: &str) -> (r: Scanner)
        ensures
            r.source() == source@,
            r.found().len() == 0,
            r.issued().len() == 0,
            !r.failed(),
    {
        Scanner { source: to_chars(source), tokens: Vec::new(), report: ScanReport::new() }
    }

    /// The tokens of the last scan.
    pub fn tokens(&self) -> (r: &Vec<Token>)
        ensures
            r@ == self.found(),
    {
        &self.tokens
    }

    /// The diagnostics of the last scan, in source order.
    pub fn messages(&self) -> (r: &Vec<String>)
        ensures
            r@ == self.issued(),
    {
        &self.report.messages
    }

    /// Hands over the tokens of the last scan; the scanner keeps none.
    pub fn take_tokens(&mut self) -> (r: Vec<Token>)
        ensures
            r@ == old(self).found(),
            final(self).found().len() == 0,
            final(self).source() == old(self).source(),
            final(self).issued() == old(self).issued(),
            final(self).failed() == old(self).failed(),
    {
        let mut taken: Vec<Token> = Vec::new();
        core::mem::swap(&mut self.tokens, &mut taken);
        taken
    }

    /// Hands over the diagnostics of the last scan; the scanner keeps none.
    pub fn take_messages(&mut self) -> (r: Vec<String>)
        ensures
            r@ == old(self).issued(),
            final(self).issued().len() == 0,
            final(self).source() == old(self).source(),
            final(self).found() == old(self).found(),
            final(self).failed() == old(self).failed(),
    {
        let mut taken: Vec<String> = Vec::new();
        core::mem::swap(&mut self.report.messages, &mut taken);
        taken
    }

    /// Scans the source text. The tokens and diagnostics are those of
    /// [`scan`]; the result is an error exactly when there are diagnostics.
    pub fn tokenize(&mut self) -> (r: Result<(), Failure>)
        requires
            old(self).source().len() < usize::MAX,
        ensures
            final(self).source() == old(self).source(),
            tokens_view(final(self).found()) == scan(old(self).source()).tokens,
            texts(final(self).issued()) == scan(old(self).source()).messages,
            final(self).failed() == (scan(old(self).source()).messages.len() > 0),
            r.is_ok() == !final(self).failed(),
            r.is_err() ==> r == Err::<(), Failure>(Failure::Syntax),
            final(self).found().len() >= 1,
            final(self).found().last().token_type == TokenType::Eof,
            forall|i: int|
                0 <= i < final(self).found().len() - 1 ==> (
                #[trigger] final(self).found()[i]).token_type != TokenType::Eof,
            forall|i: int, j: int|
                0 <= i <= j < final(self).found().len() ==> (
                #[trigger] final(self).found()[i]).line <= (#[trigger] final(self).found()[j]).line,
    {
        self.tokens = Vec::new();
        self.report = ScanReport::new();
        let mut pos: usize = 0;
        let mut line: usize = 1;
        let ghost src = self.source@;
        while pos < self.source.len()
            invariant
                self.source@ == src,
                src.len() < usize::MAX,
                pos <= src.len(),
                1 <= line <= pos + 1,
                tokens_view(self.tokens@) + scan_from(src, pos as int, line as nat).tokens == scan(
                    src,
                ).tokens,
                texts(self.report.messages@) + scan_from(src, pos as int, line as nat).messages
                    == scan(src).messages,
                self.report.had_error == (self.report.messages@.len() > 0),
            decreases src.len() - pos,
        {
            proof {
                lemma_scan_step_progress(src, pos as int, line as nat);
            }
            let ghost before_tokens = tokens_view(self.tokens@);
            let ghost before_messages = texts(self.report.messages@);
            let ghost rest = scan_from(src, pos as int, line as nat);
            let (end, last, kind, fault) = step(&self.source, pos, line);
            let ghost after = scan_from(src, end as int, last as nat);
            if let Some(token_type) = kind {
                let lexeme = collect(&self.source, pos, end);
                self.tokens.push(Token { token_type, lexeme, line: last });
                assert(tokens_view(self.tokens@) =~= before_tokens + seq![
                    TokenView {
                        token_type,
                        lexeme: src.subrange(pos as int, end as int),
                        line: last as nat,
                    },
                ]);
            }
            assert(tokens_view(self.tokens@) + after.tokens =~= before_tokens + rest.tokens);
            match fault {
                Some(ScanFault::UnexpectedCharacter(c)) => {
                    let mut msg = String::from_str("Unexpected character: ");
                    msg.push(c);
                    self.report.error(last, msg.as_str());
                },
                Some(ScanFault::UnterminatedString) => {
                    self.report.error(last, "Unterminated string.");
                },
                None => {},
            }
            assert(texts(self.report.messages@) + after.messages =~= before_messages
                + rest.messages);
            pos = end;
            line = last;
        }
        let ghost before_tokens = tokens_view(self.tokens@);
        self.tokens.push(Token { token_type: TokenType::Eof, lexeme: String::new(), line });
        proof {
            assert(scan_from(src, pos as int, line as nat).tokens =~= seq![
                end_token(line as nat),
            ]);
            assert(tokens_view(self.tokens@) =~= before_tokens + seq![end_token(line as nat)]);
            assert(texts(self.report.messages@) =~= scan(src).messages);
            lemma_scan_from_shape(src, 0, 1);
            assert(forall|i: int|
                0 <= i < self.tokens@.len() ==> (#[trigger] self.tokens@[i])@ == scan(
                    src,
                ).tokens[i]);
        }
        if self.report.had_error {
            Err(Failure::Syntax)
        } else {
            Ok(())
        }
    }
}

} // verus!
