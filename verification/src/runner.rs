//! The machine that runs a program, one step at a time.
//!
//! The host creates a [`Runner`] over the parsed statements, starts it with
//! [`Runner::run`] or [`Runner::evaluate`], and then calls
//! [`Runner::resume`] again and again: each call makes one step and returns
//! what the host is to do before the next one.

use vstd::prelude::*;
use crate::ast::optional_view;
use crate::ast::stmt_view;
use crate::ast::stmts_view;
use crate::ast::Expr;
use crate::ast::Stmt;
use crate::ast::StmtView;
use crate::env::Env;
use crate::error::RuntimeError;
use crate::machine;
use crate::machine::consistent;
use crate::machine::is_numeral;
use crate::machine::lemma_scopes_open_push;
use crate::machine::start_evaluate;
use crate::machine::start_run;
use crate::machine::step;
use crate::machine::unboxed;
use crate::machine::ArithOp;
use crate::machine::FocusView;
use crate::machine::FrameView;
use crate::machine::MachineView;
use crate::machine::Outcome;
use crate::machine::ReplyView;
use crate::machine::RequestView;
use crate::machine::Stage;
use crate::ast::lemma_stmts_view_index;
use crate::scanner::walk;
use crate::scanner::Run;
use crate::text::to_chars;
use crate::token::Literal;
use crate::token::Token;
use crate::token::TokenType;
use crate::value::negated;
use crate::value::numbers_at_most;
use crate::value::numbers_less;
use crate::value::Value;

verus! {

/// What the machine asks of its host.
#[derive(Debug, PartialEq, Eq)]
pub enum Request {
    /// Nothing: call again, with [`Reply::Done`].
    Continue,
    /// The double nearest to the value of this decimal numeral; the answer
    /// is a [`Reply::Number`].
    Parse(String),
    /// The result of the operation on the two doubles; the answer is a
    /// [`Reply::Number`].
    Arithmetic(ArithOp, u64, u64),
    /// The text of this double, as short as identifies it, without a
    /// fraction where it has none; the answer is a [`Reply::Text`].
    Format(u64),
    /// Write this line to the standard output, then answer [`Reply::Done`].
    Print(String),
    /// The program has ended.
    Finish,
    /// The program has failed.
    Fail(RuntimeError),
}

impl View for Request {
    type V = RequestView;

    open spec fn view(&self) -> RequestView {
        match self {
            Request::Continue => RequestView::Continue,
            Request::Parse(text) => RequestView::Parse(text@),
            Request::Arithmetic(op, a, b) => RequestView::Arithmetic(*op, *a, *b),
            Request::Format(bits) => RequestView::Format(*bits),
            Request::Print(line) => RequestView::Print(line@),
            Request::Finish => RequestView::Finish,
            Request::Fail(error) => RequestView::Fail(error@),
        }
    }
}

/// What the host answers.
#[derive(Debug, PartialEq, Eq)]
pub enum Reply {
    /// The request was carried out, and has no result.
    Done,
    /// A double, by its bits.
    Number(u64),
    /// A text.
    Text(String),
}

impl View for Reply {
    type V = ReplyView;

    open spec fn view(&self) -> ReplyView {
        match self {
            Reply::Done => ReplyView::Done,
            Reply::Number(bits) => ReplyView::Number(*bits),
            Reply::Text(text) => ReplyView::Text(text@),
        }
    }
}

/// What the machine looks at: see [`FocusView`].
pub enum Focus<'a> {
    Run(&'a Stmt),
    Eval(&'a Expr),
    Return(Value),
    AwaitNumber,
    AwaitText,
    AwaitPrinted,
    Finished(Option<RuntimeError>),
}

impl<'a> View for Focus<'a> {
    type V = FocusView;

    open spec fn view(&self) -> FocusView {
        match self {
            Focus::Run(s) => FocusView::Run(s@),
            Focus::Eval(e) => FocusView::Eval(e@),
            Focus::Return(v) => FocusView::Return(v@),
            Focus::AwaitNumber => FocusView::AwaitNumber,
            Focus::AwaitText => FocusView::AwaitText,
            Focus::AwaitPrinted => FocusView::AwaitPrinted,
            Focus::Finished(None) => FocusView::Finished(None),
            Focus::Finished(Some(error)) => FocusView::Finished(Some(error@)),
        }
    }
}

/// The view of a statement that may be absent.
pub open spec fn absent_or(s: Option<&Stmt>) -> Option<StmtView> {
    match s {
        Some(inner) => Some(inner@),
        None => None,
    }
}

/// Work that waits for a value: see [`FrameView`].
pub enum Frame<'a> {
    Program(usize),
    Evaluate(usize),
    Show(usize),
    Block(&'a Vec<Stmt>, usize),
    Print,
    Declare(&'a String),
    Assign(&'a String),
    Branch(&'a Stmt, Option<&'a Stmt>),
    WhileTest(&'a Stmt, &'a Stmt),
    WhileBody(&'a Stmt, &'a Stmt),
    For(Stage, Option<&'a Stmt>, Option<&'a Stmt>, &'a Stmt),
    Unary(&'a Token),
    Right(&'a Token, &'a Expr),
    Apply(&'a Token, Value),
}

impl<'a> View for Frame<'a> {
    type V = FrameView;

    open spec fn view(&self) -> FrameView {
        match self {
            Frame::Program(i) => FrameView::Program(*i as nat),
            Frame::Evaluate(i) => FrameView::Evaluate(*i as nat),
            Frame::Show(i) => FrameView::Show(*i as nat),
            Frame::Block(items, i) => FrameView::Block(stmts_view(items@), *i as nat),
            Frame::Print => FrameView::Print,
            Frame::Declare(name) => FrameView::Declare(name@),
            Frame::Assign(name) => FrameView::Assign(name@),
            Frame::Branch(consequent, alternative) => FrameView::Branch(
                consequent@,
                absent_or(*alternative),
            ),
            Frame::WhileTest(condition, body) => FrameView::WhileTest(condition@, body@),
            Frame::WhileBody(condition, body) => FrameView::WhileBody(condition@, body@),
            Frame::For(stage, condition, increment, body) => FrameView::For(
                *stage,
                absent_or(*condition),
                absent_or(*increment),
                body@,
            ),
            Frame::Unary(op) => FrameView::Unary(op@),
            Frame::Right(op, right) => FrameView::Right(op@, right@),
            Frame::Apply(op, left) => FrameView::Apply(op@, left@),
        }
    }
}

/// The views of a stack of frames.
pub open spec fn frames_view<'a>(frames: Seq<Frame<'a>>) -> Seq<FrameView> {
    frames.map_values(|f: Frame<'a>| f@)
}

/// The machine that runs a program.
pub struct Runner<'a> {
    stmts: &'a [Stmt],
    focus: Focus<'a>,
    frames: Vec<Frame<'a>>,
    env: Env,
}

impl<'a> View for Runner<'a> {
    type V = MachineView;

    closed spec fn view(&self) -> MachineView {
        MachineView {
            program: stmts_view(self.stmts@),
            focus: self.focus@,
            frames: frames_view(self.frames@),
            env: self.env@,
        }
    }
}

/// The statement in the box, if there is one.
fn borrow<'a>(s: &'a Option<Box<Stmt>>) -> (r: Option<&'a Stmt>)
    ensures
        absent_or(r) == unboxed(optional_view(*s)),
{
    match s {
        Some(inner) => Some(&**inner),
        None => None,
    }
}

/// Whether `text` is a decimal numeral.
fn numeral(text: &str) -> (r: bool)
    ensures
        r == is_numeral(text@),
{
    let chars = to_chars(text);
    let (whole, _) = walk(&chars, 0, Run::Digits);
    if whole == 0 {
        false
    } else if whole == chars.len() {
        true
    } else if whole + 1 < chars.len() && chars[whole] == '.' {
        let (end, _) = walk(&chars, whole + 1, Run::Digits);
        end == chars.len()
    } else {
        false
    }
}

impl<'a> Runner<'a> {
    /// The invariant of the machine: see [`consistent`].
    pub closed spec fn wf(&self) -> bool {
        &&& self.env.wf()
        &&& consistent(self@)
    }

    /// A machine for the statements `stmts`, at rest.
    pub fn new(stmts: &'a [Stmt]) -> (r: Runner<'a>)
        ensures
            r.wf(),
            r@ == (MachineView {
                program: stmts_view(stmts@),
                focus: FocusView::Finished(None),
                frames: Seq::empty(),
                env: seq![Map::empty()],
            }),
    {
        let r = Runner { stmts, focus: Focus::Finished(None), frames: Vec::new(), env: Env::new() };
        assert(frames_view(r.frames@) =~= Seq::empty());
        r
    }

    /// Sets the machine to run the program from its first statement, in a
    /// new environment.
    pub fn run(&mut self) -> (r: Request)
        ensures
            final(self).wf(),
            final(self)@ == start_run(old(self)@.program),
            r@ == RequestView::Continue,
    {
        self.env = Env::new();
        self.frames = Vec::new();
        self.frames.push(Frame::Program(0));
        self.focus = Focus::Return(Value::Nil);
        proof {
            assert(frames_view(self.frames@) =~= seq![FrameView::Program(0)]);
            lemma_scopes_open_push(Seq::empty(), FrameView::Program(0));
            assert(Seq::<FrameView>::empty().push(FrameView::Program(0)) =~= seq![
                FrameView::Program(0),
            ]);
        }
        Request::Continue
    }

    /// Sets the machine to evaluate the program's statements one by one,
    /// each an expression and each in a new environment, and to print the
    /// value of each.
    pub fn evaluate(&mut self) -> (r: Request)
        ensures
            final(self).wf(),
            final(self)@ == start_evaluate(old(self)@.program),
            r@ == RequestView::Continue,
    {
        self.env = Env::new();
        self.frames = Vec::new();
        self.frames.push(Frame::Evaluate(0));
        self.focus = Focus::Return(Value::Nil);
        proof {
            assert(frames_view(self.frames@) =~= seq![FrameView::Evaluate(0)]);
            lemma_scopes_open_push(Seq::empty(), FrameView::Evaluate(0));
            assert(Seq::<FrameView>::empty().push(FrameView::Evaluate(0)) =~= seq![
                FrameView::Evaluate(0),
            ]);
        }
        Request::Continue
    }
}

/// The state and the request, as one value.
pub open spec fn outcome(state: MachineView, request: RequestView) -> Outcome {
    Outcome { state, request }
}

/// Pushing a frame pushes its view.
proof fn lemma_frames_push<'a>(frames: Seq<Frame<'a>>, frame: Frame<'a>)
    ensures
        frames_view(frames.push(frame)) == frames_view(frames).push(frame@),
{
    assert(frames_view(frames.push(frame)) =~= frames_view(frames).push(frame@));
}

/// Popping a frame pops its view.
proof fn lemma_frames_pop<'a>(frames: Seq<Frame<'a>>)
    requires
        frames.len() > 0,
    ensures
        frames_view(frames.drop_last()) == frames_view(frames).drop_last(),
        frames_view(frames).last() == frames.last()@,
{
    assert(frames_view(frames.drop_last()) =~= frames_view(frames).drop_last());
}

impl<'a> Runner<'a> {
    fn push(&mut self, frame: Frame<'a>)
        ensures
            final(self).stmts == old(self).stmts,
            final(self).env == old(self).env,
            final(self).focus == old(self).focus,
            final(self)@.frames == old(self)@.frames.push(frame@),
            final(self)@.program == old(self)@.program,
            final(self)@.env == old(self)@.env,
            final(self)@.focus == old(self)@.focus,
    {
        proof {
            lemma_frames_push(self.frames@, frame);
        }
        self.frames.push(frame);
    }

    fn fail(&mut self, error: RuntimeError) -> (r: Request)
        ensures
            final(self).env == old(self).env,
            outcome(final(self)@, r@) == machine::fail(old(self)@, error@),
    {
        self.focus = Focus::Finished(Some(error.duplicate()));
        Request::Fail(error)
    }

    fn finish(&mut self) -> (r: Request)
        ensures
            final(self).env == old(self).env,
            outcome(final(self)@, r@) == machine::finish(old(self)@),
    {
        self.focus = Focus::Finished(None);
        Request::Finish
    }

    fn emit(&mut self, value: Value) -> (r: Request)
        ensures
            final(self).env == old(self).env,
            outcome(final(self)@, r@) == machine::emit(old(self)@, value@),
    {
        match value {
            Value::Number(bits) => {
                self.focus = Focus::AwaitText;
                Request::Format(bits)
            },
            other => {
                self.focus = Focus::AwaitPrinted;
                Request::Print(other.plain())
            },
        }
    }

    fn for_test(
        &mut self,
        condition: Option<&'a Stmt>,
        increment: Option<&'a Stmt>,
        body: &'a Stmt,
    ) -> (r: Request)
        ensures
            final(self).env == old(self).env,
            outcome(final(self)@, r@) == machine::for_test(
                old(self)@,
                absent_or(condition),
                absent_or(increment),
                body@,
            ),
    {
        match condition {
            Some(c) => {
                self.push(Frame::For(Stage::Test, condition, increment, body));
                self.focus = Focus::Run(c);
            },
            None => {
                self.push(Frame::For(Stage::Body, condition, increment, body));
                self.focus = Focus::Run(body);
            },
        }
        Request::Continue
    }

    fn apply_unary(&mut self, op: TokenType, value: Value) -> (r: Request)
        ensures
            final(self).env == old(self).env,
            outcome(final(self)@, r@) == machine::apply_unary(old(self)@, op, value@),
    {
        match op {
            TokenType::Minus => match value {
                Value::Number(bits) => {
                    self.focus = Focus::Return(Value::Number(negated(bits)));
                    Request::Continue
                },
                _ => self.fail(RuntimeError::OperandMustBeNumber),
            },
            TokenType::Bang => {
                self.focus = Focus::Return(Value::Boolean(!value.is_truthy()));
                Request::Continue
            },
            _ => self.fail(RuntimeError::UnsupportedUnary),
        }
    }

    fn apply_binary(&mut self, op: TokenType, a: Value, b: Value) -> (r: Request)
        ensures
            final(self).env == old(self).env,
            outcome(final(self)@, r@) == machine::apply_binary(old(self)@, op, a@, b@),
    {
        match op {
            TokenType::EqualEqual => {
                self.focus = Focus::Return(Value::Boolean(a.equals(&b)));
                Request::Continue
            },
            TokenType::BangEqual => {
                self.focus = Focus::Return(Value::Boolean(!a.equals(&b)));
                Request::Continue
            },
            TokenType::Plus => match (a, b) {
                (Value::Number(x), Value::Number(y)) => {
                    self.focus = Focus::AwaitNumber;
                    Request::Arithmetic(ArithOp::Add, x, y)
                },
                (Value::String(x), Value::String(y)) => {
                    let mut joined = x;
                    joined.append(y.as_str());
                    self.focus = Focus::Return(Value::String(joined));
                    Request::Continue
                },
                _ => self.fail(RuntimeError::OperandsMustMatch),
            },
            TokenType::Minus | TokenType::Star | TokenType::Slash => match (a, b) {
                (Value::Number(x), Value::Number(y)) => {
                    let operation = match op {
                        TokenType::Minus => ArithOp::Subtract,
                        TokenType::Star => ArithOp::Multiply,
                        _ => ArithOp::Divide,
                    };
                    self.focus = Focus::AwaitNumber;
                    Request::Arithmetic(operation, x, y)
                },
                _ => self.fail(RuntimeError::OperandMustBeNumber),
            },
            TokenType::Greater | TokenType::GreaterEqual | TokenType::Less | TokenType::LessEqual => match (
                a,
                b,
            ) {
                (Value::Number(x), Value::Number(y)) => {
                    let holds = match op {
                        TokenType::Greater => numbers_less(y, x),
                        TokenType::GreaterEqual => numbers_at_most(y, x),
                        TokenType::Less => numbers_less(x, y),
                        _ => numbers_at_most(x, y),
                    };
                    self.focus = Focus::Return(Value::Boolean(holds));
                    Request::Continue
                },
                _ => self.fail(RuntimeError::OperandMustBeNumber),
            },
            _ => self.fail(RuntimeError::UnsupportedBinary),
        }
    }
}

impl Stmt {
    /// The machine turns to this statement: see [`machine::begin_stmt`].
    pub fn evaluate<'a>(&'a self, runner: &mut Runner<'a>) -> (r: Request)
        requires
            old(runner).wf(),
        ensures
            final(runner).wf(),
            outcome(final(runner)@, r@) == machine::begin_stmt(old(runner)@, self@),
    {
        proof {
            reveal_with_fuel(stmt_view, 2);
            reveal_with_fuel(optional_view, 2);
            machine::lemma_begin_stmt_consistent(runner@, self@);
        }
        match self {
            Stmt::Expr(e) => {
                runner.focus = Focus::Eval(e);
            },
            Stmt::Print(operand) => {
                runner.push(Frame::Print);
                runner.focus = Focus::Run(&**operand);
            },
            Stmt::Declare(name, Some(init)) => {
                runner.push(Frame::Declare(name));
                runner.focus = Focus::Run(&**init);
            },
            Stmt::Declare(name, None) => {
                runner.env.define(name.clone(), Value::Nil);
                runner.focus = Focus::Return(Value::Nil);
            },
            Stmt::Assign(name, operand) => {
                runner.push(Frame::Assign(name));
                runner.focus = Focus::Run(&**operand);
            },
            Stmt::Block(items) => {
                runner.env.enter_scope();
                runner.push(Frame::Block(items, 0));
                runner.focus = Focus::Return(Value::Nil);
            },
            Stmt::If(condition, consequent, alternative) => {
                runner.push(Frame::Branch(&**consequent, borrow(alternative)));
                runner.focus = Focus::Run(&**condition);
            },
            Stmt::While(condition, body) => {
                runner.push(Frame::WhileTest(&**condition, &**body));
                runner.focus = Focus::Run(&**condition);
            },
            Stmt::For(initializer, condition, increment, body) => {
                runner.env.enter_scope();
                match initializer {
                    Some(init) => {
                        runner.push(
                            Frame::For(Stage::Init, borrow(condition), borrow(increment), &**body),
                        );
                        runner.focus = Focus::Run(&**init);
                    },
                    None => {
                        return runner.for_test(borrow(condition), borrow(increment), &**body);
                    },
                }
            },
        }
        Request::Continue
    }

    /// The machine turns to this statement as one of a program whose
    /// expressions are evaluated each for itself: see
    /// [`machine::begin_listed`]. The frame stack must be empty.
    pub fn evaluate_no_run<'a>(&'a self, runner: &mut Runner<'a>, next: usize) -> (r: Request)
        requires
            old(runner).wf(),
            old(runner)@.frames.len() == 0,
        ensures
            final(runner).wf(),
            outcome(final(runner)@, r@) == machine::begin_listed(
                old(runner)@,
                self@,
                next as nat,
            ),
    {
        match self {
            Stmt::Expr(e) => {
                runner.env = Env::new();
                runner.push(Frame::Show(next));
                runner.focus = Focus::Eval(e);
                proof {
                    lemma_scopes_open_push(old(runner)@.frames, FrameView::Show(next as nat));
                }
                Request::Continue
            },
            _ => runner.fail(RuntimeError::NotAnExpression),
        }
    }
}

impl Expr {
    /// The machine turns to this expression: see [`machine::begin_expr`].
    pub fn evaluate<'a>(&'a self, runner: &mut Runner<'a>) -> (r: Request)
        requires
            old(runner).wf(),
        ensures
            final(runner).wf(),
            outcome(final(runner)@, r@) == machine::begin_expr(old(runner)@, self@),
    {
        proof {
            machine::lemma_begin_expr_consistent(runner@, self@);
        }
        match self {
            Expr::Literal(token) => match token.token_type {
                TokenType::Number => {
                    if numeral(token.lexeme.as_str()) {
                        runner.focus = Focus::AwaitNumber;
                        Request::Parse(token.lexeme.clone())
                    } else {
                        runner.fail(RuntimeError::UnsupportedLiteral)
                    }
                },
                TokenType::String => match token.literal() {
                    Some(Literal::String(text)) => {
                        runner.focus = Focus::Return(Value::String(text));
                        Request::Continue
                    },
                    _ => runner.fail(RuntimeError::UnsupportedLiteral),
                },
                TokenType::True => {
                    runner.focus = Focus::Return(Value::Boolean(true));
                    Request::Continue
                },
                TokenType::False => {
                    runner.focus = Focus::Return(Value::Boolean(false));
                    Request::Continue
                },
                TokenType::Nil => {
                    runner.focus = Focus::Return(Value::Nil);
                    Request::Continue
                },
                TokenType::Identifier => match runner.env.get(token.lexeme.as_str()) {
                    Ok(value) => {
                        runner.focus = Focus::Return(value);
                        Request::Continue
                    },
                    Err(error) => runner.fail(error),
                },
                _ => runner.fail(RuntimeError::UnsupportedLiteral),
            },
            Expr::Group(inner) => {
                runner.focus = Focus::Run(&**inner);
                Request::Continue
            },
            Expr::Unary(op, operand) => {
                runner.push(Frame::Unary(op));
                runner.focus = Focus::Eval(&**operand);
                Request::Continue
            },
            Expr::Binary(left, op, right) => {
                runner.push(Frame::Right(op, &**right));
                runner.focus = Focus::Eval(&**left);
                Request::Continue
            },
        }
    }
}

impl<'a> Runner<'a> {
    /// The frame `frame`, just taken from the stack, receives `value`.
    fn deliver(&mut self, frame: Frame<'a>, value: Value) -> (r: Request)
        requires
            old(self).env.wf(),
            consistent(machine::restored(old(self)@, frame@)),
        ensures
            final(self).wf(),
            outcome(final(self)@, r@) == machine::deliver(old(self)@, frame@, value@),
    {
        proof {
            machine::lemma_deliver_consistent(self@, frame@, value@);
            lemma_scopes_open_push(self@.frames, frame@);
        }
        let stmts: &'a [Stmt] = self.stmts;
        match frame {
            Frame::Program(i) => {
                proof {
                    lemma_stmts_view_index(stmts@);
                }
                if i < stmts.len() {
                    self.push(Frame::Program(i + 1));
                    self.focus = Focus::Run(&stmts[i]);
                    Request::Continue
                } else {
                    self.finish()
                }
            },
            Frame::Evaluate(i) => {
                proof {
                    lemma_stmts_view_index(stmts@);
                }
                if i < stmts.len() {
                    proof {
                        assert(self@.frames.len() == 0) by {
                            assert(machine::restored(self@, frame@).frames[self@.frames.len() as int]
                                == frame@);
                        }
                    }
                    (&stmts[i]).evaluate_no_run(self, i + 1)
                } else {
                    self.finish()
                }
            },
            Frame::Show(i) => {
                self.push(Frame::Evaluate(i));
                self.emit(value)
            },
            Frame::Print => self.emit(value),
            Frame::Block(items, i) => {
                proof {
                    lemma_stmts_view_index(items@);
                }
                if i < items.len() {
                    self.push(Frame::Block(items, i + 1));
                    self.focus = Focus::Run(&items[i]);
                } else {
                    self.env.exit_scope();
                    self.focus = Focus::Return(Value::Nil);
                }
                Request::Continue
            },
            Frame::Declare(name) => {
                self.env.define(name.clone(), value);
                self.focus = Focus::Return(Value::Nil);
                Request::Continue
            },
            Frame::Assign(name) => {
                match self.env.assign(name.as_str(), value.duplicate()) {
                    Ok(_) => {
                        self.focus = Focus::Return(value);
                        Request::Continue
                    },
                    Err(error) => self.fail(error),
                }
            },
            Frame::Branch(consequent, alternative) => {
                if value.is_truthy() {
                    self.focus = Focus::Run(consequent);
                } else {
                    match alternative {
                        Some(s) => {
                            self.focus = Focus::Run(s);
                        },
                        None => {
                            self.focus = Focus::Return(Value::Nil);
                        },
                    }
                }
                Request::Continue
            },
            Frame::WhileTest(condition, body) => {
                if value.is_truthy() {
                    self.push(Frame::WhileBody(condition, body));
                    self.focus = Focus::Run(body);
                } else {
                    self.focus = Focus::Return(Value::Nil);
                }
                Request::Continue
            },
            Frame::WhileBody(condition, body) => {
                self.push(Frame::WhileTest(condition, body));
                self.focus = Focus::Run(condition);
                Request::Continue
            },
            Frame::For(stage, condition, increment, body) => match stage {
                Stage::Init => self.for_test(condition, increment, body),
                Stage::Test => {
                    if value.is_truthy() {
                        self.push(Frame::For(Stage::Body, condition, increment, body));
                        self.focus = Focus::Run(body);
                    } else {
                        self.env.exit_scope();
                        self.focus = Focus::Return(Value::Nil);
                    }
                    Request::Continue
                },
                Stage::Body => match increment {
                    Some(s) => {
                        self.push(Frame::For(Stage::Step, condition, increment, body));
                        self.focus = Focus::Run(s);
                        Request::Continue
                    },
                    None => self.for_test(condition, increment, body),
                },
                Stage::Step => self.for_test(condition, increment, body),
            },
            Frame::Unary(op) => self.apply_unary(op.token_type, value),
            Frame::Right(op, right) => {
                if op.token_type == TokenType::Or {
                    if value.is_truthy() {
                        self.focus = Focus::Return(value);
                    } else {
                        self.focus = Focus::Eval(right);
                    }
                } else if op.token_type == TokenType::And {
                    if value.is_truthy() {
                        self.focus = Focus::Eval(right);
                    } else {
                        self.focus = Focus::Return(value);
                    }
                } else {
                    self.push(Frame::Apply(op, value));
                    self.focus = Focus::Eval(right);
                }
                Request::Continue
            },
            Frame::Apply(op, left) => self.apply_binary(op.token_type, left, value),
        }
    }

    /// One step of the machine: see [`step`]. `reply` answers the request
    /// that the last call returned.
    pub fn resume(&mut self, reply: Reply) -> (r: Request)
        requires
            old(self).wf(),
        ensures
            final(self).wf(),
            outcome(final(self)@, r@) == step(old(self)@, reply@),
    {
        proof {
            machine::lemma_step_consistent(self@, reply@);
        }
        let mut focus = Focus::AwaitPrinted;
        core::mem::swap(&mut self.focus, &mut focus);
        match (focus, reply) {
            (Focus::Finished(None), _) => {
                self.focus = Focus::Finished(None);
                Request::Finish
            },
            (Focus::Finished(Some(error)), _) => {
                let again = error.duplicate();
                self.focus = Focus::Finished(Some(error));
                Request::Fail(again)
            },
            (Focus::AwaitNumber, Reply::Number(bits)) => {
                self.focus = Focus::Return(Value::Number(bits));
                Request::Continue
            },
            (Focus::AwaitText, Reply::Text(text)) => {
                self.focus = Focus::AwaitPrinted;
                Request::Print(text)
            },
            (Focus::AwaitPrinted, Reply::Done) => {
                self.focus = Focus::Return(Value::Nil);
                Request::Continue
            },
            (Focus::Run(s), Reply::Done) => s.evaluate(self),
            (Focus::Eval(e), Reply::Done) => e.evaluate(self),
            (Focus::Return(value), Reply::Done) => {
                proof {
                    if self.frames@.len() > 0 {
                        lemma_frames_pop(self.frames@);
                    }
                }
                match self.frames.pop() {
                    Some(frame) => {
                        proof {
                            assert(machine::restored(self@, frame@).frames =~= old(self)@.frames);
                        }
                        self.deliver(frame, value)
                    },
                    None => self.finish(),
                }
            },
            _ => self.fail(RuntimeError::UnexpectedReply),
        }
    }
}

} // verus!
