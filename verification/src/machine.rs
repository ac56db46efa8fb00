//! What running a program means: a machine that takes one small step at a
//! time and asks its host for everything it cannot do itself.
//!
//! The machine holds the statement or expression in focus, or the value just
//! computed; a stack of frames, each of which stands for work that waits for
//! a value; and the environment. A step either moves the focus into a part
//! of the tree, pushing a frame for what remains to do, or hands a value to
//! the frame on top.
//!
//! The host writes lines, converts numerals to doubles and doubles to text,
//! and does arithmetic on doubles. What the machine requests next depends
//! only on its state and on the reply to its last request.

use vstd::prelude::*;
use crate::ast::ExprView;
use crate::ast::StmtView;
use crate::env::assigned;
use crate::env::defined;
use crate::env::lookup;
use crate::env::Scope;
use crate::error::RuntimeErrorView;
use crate::scanner::run_end;
use crate::scanner::Run;
use crate::token::unquoted;
use crate::token::TokenType;
use crate::token::TokenView;
use crate::value::number_at_most;
use crate::value::number_less;
use crate::value::number_negated;
use crate::value::plain_text;
use crate::value::truthy;
use crate::value::values_equal;
use crate::value::ValueView;

verus! {

/// The arithmetic that the host does on doubles.
#[derive(Clone, Copy, Debug, PartialEq, Eq, Structural)]
pub enum ArithOp {
    Add,
    Subtract,
    Multiply,
    Divide,
}

/// Where a `for` loop stands.
#[derive(Clone, Copy, Debug, PartialEq, Eq, Structural)]
pub enum Stage {
    /// The initializer runs.
    Init,
    /// The condition is evaluated.
    Test,
    /// The body runs.
    Body,
    /// The increment runs.
    Step,
}

/// What the machine asks of its host.
pub enum RequestView {
    /// Nothing: call again.
    Continue,
    /// The double nearest to the value of this decimal numeral.
    Parse(Seq<char>),
    /// The result of the operation on the two doubles.
    Arithmetic(ArithOp, u64, u64),
    /// The text of this double, as short as identifies it, without a
    /// fraction where it has none.
    Format(u64),
    /// Write this line to the standard output.
    Print(Seq<char>),
    /// The program has ended.
    Finish,
    /// The program has failed.
    Fail(RuntimeErrorView),
}

/// What the host answers.
pub enum ReplyView {
    /// The request was carried out, and has no result.
    Done,
    /// A double, by its bits.
    Number(u64),
    /// A text.
    Text(Seq<char>),
}

/// What the machine looks at.
pub enum FocusView {
    /// A statement to run.
    Run(StmtView),
    /// An expression to evaluate.
    Eval(ExprView),
    /// A value, for the frame on top.
    Return(ValueView),
    /// The host owes a number.
    AwaitNumber,
    /// The host owes the text of a number that is to be printed.
    AwaitText,
    /// The host owes the word that a line was written.
    AwaitPrinted,
    /// The run is over, with an error or without.
    Finished(Option<RuntimeErrorView>),
}

/// Work that waits for a value.
pub enum FrameView {
    /// Run the program from this statement on.
    Program(nat),
    /// Evaluate the program's expressions from this statement on.
    Evaluate(nat),
    /// Print the value of an expression, then evaluate from this statement on.
    Show(nat),
    /// Run the block's statements from this one on, then leave its scope.
    Block(Seq<StmtView>, nat),
    /// Print the value.
    Print,
    /// Define this name as the value.
    Declare(Seq<char>),
    /// Assign the value to this name.
    Assign(Seq<char>),
    /// Run the first statement if the value is truthy, else the second.
    Branch(StmtView, Option<StmtView>),
    /// The value is that of a `while` condition: run the body if it is truthy.
    WhileTest(StmtView, StmtView),
    /// The body of a `while` has run: evaluate the condition again.
    WhileBody(StmtView, StmtView),
    /// A `for` loop, by the stage that has just ended, with its condition,
    /// increment and body.
    For(Stage, Option<StmtView>, Option<StmtView>, StmtView),
    /// Apply this unary operator to the value.
    Unary(TokenView),
    /// The value is the left operand of this operator: go on with the right one.
    Right(TokenView, ExprView),
    /// The value is the right operand: apply the operator to this left one and it.
    Apply(TokenView, ValueView),
}

/// The state of the machine. The top of the frame stack is its last element.
pub struct MachineView {
    pub program: Seq<StmtView>,
    pub focus: FocusView,
    pub frames: Seq<FrameView>,
    pub env: Seq<Scope>,
}

/// A state and the request that a step left it with.
pub struct Outcome {
    pub state: MachineView,
    pub request: RequestView,
}

/// Whether `text` is a decimal numeral: digits, and optionally a `.` and
/// more digits.
pub open spec fn is_numeral(text: Seq<char>) -> bool {
    let whole = run_end(text, 0, Run::Digits);
    whole > 0 && (whole == text.len() || (whole + 1 < text.len() && text[whole] == '.' && run_end(
        text,
        whole + 1,
        Run::Digits,
    ) == text.len()))
}

/// The state with another focus.
pub open spec fn focused(m: MachineView, focus: FocusView) -> MachineView {
    MachineView { focus, ..m }
}

/// The state with a frame pushed and another focus.
pub open spec fn pushed(m: MachineView, frame: FrameView, focus: FocusView) -> MachineView {
    MachineView { focus, frames: m.frames.push(frame), ..m }
}

/// Going on without the host.
pub open spec fn proceed(state: MachineView) -> Outcome {
    Outcome { state, request: RequestView::Continue }
}

/// The run fails.
pub open spec fn fail(m: MachineView, error: RuntimeErrorView) -> Outcome {
    Outcome { state: focused(m, FocusView::Finished(Some(error))), request: RequestView::Fail(error) }
}

/// The run ends.
pub open spec fn finish(m: MachineView) -> Outcome {
    Outcome { state: focused(m, FocusView::Finished(None)), request: RequestView::Finish }
}

/// The environment without its innermost scope; the global scope stays.
pub open spec fn left(env: Seq<Scope>) -> Seq<Scope> {
    if env.len() >= 2 {
        env.drop_last()
    } else {
        env
    }
}

/// The statement in the box, if there is one.
pub open spec fn unboxed(s: Option<Box<StmtView>>) -> Option<StmtView> {
    match s {
        Some(b) => Some(*b),
        None => None,
    }
}

/// Printing the value: a number goes to the host for its text first.
pub open spec fn emit(m: MachineView, v: ValueView) -> Outcome {
    match v {
        ValueView::Number(bits) => Outcome {
            state: focused(m, FocusView::AwaitText),
            request: RequestView::Format(bits),
        },
        _ => Outcome {
            state: focused(m, FocusView::AwaitPrinted),
            request: RequestView::Print(plain_text(v)),
        },
    }
}

/// A `for` loop goes to its condition, or straight to its body where it
/// has none.
pub open spec fn for_test(
    m: MachineView,
    condition: Option<StmtView>,
    increment: Option<StmtView>,
    body: StmtView,
) -> Outcome {
    match condition {
        Some(c) => proceed(
            pushed(m, FrameView::For(Stage::Test, condition, increment, body), FocusView::Run(c)),
        ),
        None => proceed(
            pushed(
                m,
                FrameView::For(Stage::Body, condition, increment, body),
                FocusView::Run(body),
            ),
        ),
    }
}

/// The machine turns to the statement `s`.
pub open spec fn begin_stmt(m: MachineView, s: StmtView) -> Outcome {
    match s {
        StmtView::Expr(e) => proceed(focused(m, FocusView::Eval(e))),
        StmtView::Print(operand) => proceed(pushed(m, FrameView::Print, FocusView::Run(*operand))),
        StmtView::Declare(name, Some(init)) => proceed(
            pushed(m, FrameView::Declare(name), FocusView::Run(*init)),
        ),
        StmtView::Declare(name, None) => proceed(
            MachineView {
                env: defined(m.env, name, ValueView::Nil),
                focus: FocusView::Return(ValueView::Nil),
                ..m
            },
        ),
        StmtView::Assign(name, operand) => proceed(
            pushed(m, FrameView::Assign(name), FocusView::Run(*operand)),
        ),
        StmtView::Block(items) => proceed(
            MachineView {
                env: m.env.push(Map::empty()),
                frames: m.frames.push(FrameView::Block(items, 0)),
                focus: FocusView::Return(ValueView::Nil),
                ..m
            },
        ),
        StmtView::If(condition, consequent, alternative) => proceed(
            pushed(
                m,
                FrameView::Branch(*consequent, unboxed(alternative)),
                FocusView::Run(*condition),
            ),
        ),
        StmtView::While(condition, body) => proceed(
            pushed(m, FrameView::WhileTest(*condition, *body), FocusView::Run(*condition)),
        ),
        StmtView::For(initializer, condition, increment, body) => {
            let inside = MachineView { env: m.env.push(Map::empty()), ..m };
            match initializer {
                Some(init) => proceed(
                    pushed(
                        inside,
                        FrameView::For(
                            Stage::Init,
                            unboxed(condition),
                            unboxed(increment),
                            *body,
                        ),
                        FocusView::Run(*init),
                    ),
                ),
                None => for_test(inside, unboxed(condition), unboxed(increment), *body),
            }
        },
    }
}

/// The machine turns to the statement `s` of a program whose expressions
/// are evaluated each for itself: the statement must be an expression, it
/// is evaluated in a new environment, and its value is printed before the
/// statement at `next` has its turn.
pub open spec fn begin_listed(m: MachineView, s: StmtView, next: nat) -> Outcome {
    match s {
        StmtView::Expr(e) => proceed(
            MachineView {
                env: seq![Map::empty()],
                frames: m.frames.push(FrameView::Show(next)),
                focus: FocusView::Eval(e),
                ..m
            },
        ),
        _ => fail(m, RuntimeErrorView::NotAnExpression),
    }
}

/// The machine turns to the expression `e`.
pub open spec fn begin_expr(m: MachineView, e: ExprView) -> Outcome {
    match e {
        ExprView::Literal(token) => match token.token_type {
            TokenType::Number => if is_numeral(token.lexeme) {
                Outcome {
                    state: focused(m, FocusView::AwaitNumber),
                    request: RequestView::Parse(token.lexeme),
                }
            } else {
                fail(m, RuntimeErrorView::UnsupportedLiteral)
            },
            TokenType::String => proceed(
                focused(m, FocusView::Return(ValueView::String(unquoted(token.lexeme)))),
            ),
            TokenType::True => proceed(focused(m, FocusView::Return(ValueView::Boolean(true)))),
            TokenType::False => proceed(focused(m, FocusView::Return(ValueView::Boolean(false)))),
            TokenType::Nil => proceed(focused(m, FocusView::Return(ValueView::Nil))),
            TokenType::Identifier => match lookup(m.env, token.lexeme) {
                Some(v) => proceed(focused(m, FocusView::Return(v))),
                None => fail(m, RuntimeErrorView::UndefinedVariable(token.lexeme)),
            },
            _ => fail(m, RuntimeErrorView::UnsupportedLiteral),
        },
        ExprView::Group(inner) => proceed(focused(m, FocusView::Run(*inner))),
        ExprView::Unary(op, operand) => proceed(
            pushed(m, FrameView::Unary(op), FocusView::Eval(*operand)),
        ),
        ExprView::Binary(left, op, right) => proceed(
            pushed(m, FrameView::Right(op, *right), FocusView::Eval(*left)),
        ),
    }
}

/// A unary operator meets its operand.
pub open spec fn apply_unary(m: MachineView, op: TokenType, v: ValueView) -> Outcome {
    match op {
        TokenType::Minus => match v {
            ValueView::Number(bits) => proceed(
                focused(m, FocusView::Return(ValueView::Number(number_negated(bits)))),
            ),
            _ => fail(m, RuntimeErrorView::OperandMustBeNumber),
        },
        TokenType::Bang => proceed(focused(m, FocusView::Return(ValueView::Boolean(!truthy(v))))),
        _ => fail(m, RuntimeErrorView::UnsupportedUnary),
    }
}

/// The arithmetic that an arithmetic operator asks for.
pub open spec fn arithmetic(op: TokenType) -> ArithOp {
    match op {
        TokenType::Plus => ArithOp::Add,
        TokenType::Minus => ArithOp::Subtract,
        TokenType::Star => ArithOp::Multiply,
        _ => ArithOp::Divide,
    }
}

/// What a comparison operator says of two doubles.
pub open spec fn compare(op: TokenType, a: u64, b: u64) -> bool {
    match op {
        TokenType::Greater => number_less(b, a),
        TokenType::GreaterEqual => number_at_most(b, a),
        TokenType::Less => number_less(a, b),
        _ => number_at_most(a, b),
    }
}

/// A binary operator other than `and` and `or` meets its two operands.
pub open spec fn apply_binary(m: MachineView, op: TokenType, a: ValueView, b: ValueView)
    -> Outcome {
    match op {
        TokenType::EqualEqual => proceed(
            focused(m, FocusView::Return(ValueView::Boolean(values_equal(a, b)))),
        ),
        TokenType::BangEqual => proceed(
            focused(m, FocusView::Return(ValueView::Boolean(!values_equal(a, b)))),
        ),
        TokenType::Plus => match (a, b) {
            (ValueView::Number(x), ValueView::Number(y)) => Outcome {
                state: focused(m, FocusView::AwaitNumber),
                request: RequestView::Arithmetic(ArithOp::Add, x, y),
            },
            (ValueView::String(x), ValueView::String(y)) => proceed(
                focused(m, FocusView::Return(ValueView::String(x + y))),
            ),
            _ => fail(m, RuntimeErrorView::OperandsMustMatch),
        },
        TokenType::Minus | TokenType::Star | TokenType::Slash => match (a, b) {
            (ValueView::Number(x), ValueView::Number(y)) => Outcome {
                state: focused(m, FocusView::AwaitNumber),
                request: RequestView::Arithmetic(arithmetic(op), x, y),
            },
            _ => fail(m, RuntimeErrorView::OperandMustBeNumber),
        },
        TokenType::Greater | TokenType::GreaterEqual | TokenType::Less | TokenType::LessEqual => match (
            a,
            b,
        ) {
            (ValueView::Number(x), ValueView::Number(y)) => proceed(
                focused(m, FocusView::Return(ValueView::Boolean(compare(op, x, y)))),
            ),
            _ => fail(m, RuntimeErrorView::OperandMustBeNumber),
        },
        _ => fail(m, RuntimeErrorView::UnsupportedBinary),
    }
}

/// The frame `frame`, just taken from the stack of `m`, receives the value `v`.
pub open spec fn deliver(m: MachineView, frame: FrameView, v: ValueView) -> Outcome {
    match frame {
        FrameView::Program(i) => if i < m.program.len() {
            proceed(pushed(m, FrameView::Program(i + 1), FocusView::Run(m.program[i as int])))
        } else {
            finish(m)
        },
        FrameView::Evaluate(i) => if i < m.program.len() {
            begin_listed(m, m.program[i as int], i + 1)
        } else {
            finish(m)
        },
        FrameView::Show(i) => emit(
            MachineView { frames: m.frames.push(FrameView::Evaluate(i)), ..m },
            v,
        ),
        FrameView::Print => emit(m, v),
        FrameView::Block(items, i) => if i < items.len() {
            proceed(pushed(m, FrameView::Block(items, i + 1), FocusView::Run(items[i as int])))
        } else {
            proceed(MachineView { env: left(m.env), focus: FocusView::Return(ValueView::Nil), ..m })
        },
        FrameView::Declare(name) => proceed(
            MachineView {
                env: defined(m.env, name, v),
                focus: FocusView::Return(ValueView::Nil),
                ..m
            },
        ),
        FrameView::Assign(name) => match assigned(m.env, name, v) {
            Some(env) => proceed(MachineView { env, focus: FocusView::Return(v), ..m }),
            None => fail(m, RuntimeErrorView::UndefinedVariable(name)),
        },
        FrameView::Branch(consequent, alternative) => if truthy(v) {
            proceed(focused(m, FocusView::Run(consequent)))
        } else {
            match alternative {
                Some(s) => proceed(focused(m, FocusView::Run(s))),
                None => proceed(focused(m, FocusView::Return(ValueView::Nil))),
            }
        },
        FrameView::WhileTest(condition, body) => if truthy(v) {
            proceed(pushed(m, FrameView::WhileBody(condition, body), FocusView::Run(body)))
        } else {
            proceed(focused(m, FocusView::Return(ValueView::Nil)))
        },
        FrameView::WhileBody(condition, body) => proceed(
            pushed(m, FrameView::WhileTest(condition, body), FocusView::Run(condition)),
        ),
        FrameView::For(stage, condition, increment, body) => match stage {
            Stage::Init => for_test(m, condition, increment, body),
            Stage::Test => if truthy(v) {
                proceed(
                    pushed(
                        m,
                        FrameView::For(Stage::Body, condition, increment, body),
                        FocusView::Run(body),
                    ),
                )
            } else {
                proceed(
                    MachineView { env: left(m.env), focus: FocusView::Return(ValueView::Nil), ..m },
                )
            },
            Stage::Body => match increment {
                Some(s) => proceed(
                    pushed(
                        m,
                        FrameView::For(Stage::Step, condition, increment, body),
                        FocusView::Run(s),
                    ),
                ),
                None => for_test(m, condition, increment, body),
            },
            Stage::Step => for_test(m, condition, increment, body),
        },
        FrameView::Unary(op) => apply_unary(m, op.token_type, v),
        FrameView::Right(op, right) => if op.token_type == TokenType::Or {
            if truthy(v) {
                proceed(focused(m, FocusView::Return(v)))
            } else {
                proceed(focused(m, FocusView::Eval(right)))
            }
        } else if op.token_type == TokenType::And {
            if truthy(v) {
                proceed(focused(m, FocusView::Eval(right)))
            } else {
                proceed(focused(m, FocusView::Return(v)))
            }
        } else {
            proceed(pushed(m, FrameView::Apply(op, v), FocusView::Eval(right)))
        },
        FrameView::Apply(op, a) => apply_binary(m, op.token_type, a, v),
    }
}

/// Whether `reply` answers what the machine was waiting for.
pub open spec fn answers(focus: FocusView, reply: ReplyView) -> bool {
    match focus {
        FocusView::AwaitNumber => reply is Number,
        FocusView::AwaitText => reply is Text,
        FocusView::Finished(_) => true,
        _ => reply is Done,
    }
}

/// One step of the machine: from a state and the reply to the last request
/// to the next state and the next request. A reply of the wrong kind ends
/// the run.
pub open spec fn step(m: MachineView, reply: ReplyView) -> Outcome {
    if !answers(m.focus, reply) {
        fail(m, RuntimeErrorView::UnexpectedReply)
    } else {
        match m.focus {
            FocusView::Finished(None) => Outcome { state: m, request: RequestView::Finish },
            FocusView::Finished(Some(error)) => Outcome {
                state: m,
                request: RequestView::Fail(error),
            },
            FocusView::AwaitNumber => proceed(
                focused(m, FocusView::Return(ValueView::Number(reply->Number_0))),
            ),
            FocusView::AwaitText => Outcome {
                state: focused(m, FocusView::AwaitPrinted),
                request: RequestView::Print(reply->Text_0),
            },
            FocusView::AwaitPrinted => proceed(focused(m, FocusView::Return(ValueView::Nil))),
            FocusView::Run(s) => begin_stmt(m, s),
            FocusView::Eval(e) => begin_expr(m, e),
            FocusView::Return(v) => if m.frames.len() == 0 {
                finish(m)
            } else {
                deliver(MachineView { frames: m.frames.drop_last(), ..m }, m.frames.last(), v)
            },
        }
    }
}

/// Whether the frame holds a scope of its own open: a block's, or that of a
/// `for` loop.
pub open spec fn owns_scope(frame: FrameView) -> bool {
    frame is Block || frame is For
}

/// The number of frames that hold a scope open.
pub open spec fn scopes_open(frames: Seq<FrameView>) -> nat
    decreases frames.len(),
{
    if frames.len() == 0 {
        0
    } else {
        scopes_open(frames.drop_last()) + if owns_scope(frames.last()) {
            1nat
        } else {
            0nat
        }
    }
}

/// Whether the frame belongs at the bottom of the stack: it runs the
/// program's statements one after the other.
pub open spec fn is_root(frame: FrameView) -> bool {
    frame is Program || frame is Evaluate || frame is Show
}

/// What holds of every state that a run reaches: the environment has the
/// global scope and one scope for each frame that holds one open, and only
/// the bottom frame runs the program's statements.
pub open spec fn consistent(m: MachineView) -> bool {
    &&& m.env.len() == 1 + scopes_open(m.frames)
    &&& forall|i: int| 1 <= i < m.frames.len() ==> !is_root(#[trigger] m.frames[i])
}

/// Pushing a frame opens a scope exactly when the frame holds one.
pub proof fn lemma_scopes_open_push(frames: Seq<FrameView>, frame: FrameView)
    ensures
        scopes_open(frames.push(frame)) == scopes_open(frames) + if owns_scope(frame) {
            1nat
        } else {
            0nat
        },
{
    assert(frames.push(frame).drop_last() =~= frames);
}

/// The state from which `frame` was taken for a delivery.
pub open spec fn restored(m: MachineView, frame: FrameView) -> MachineView {
    MachineView { frames: m.frames.push(frame), ..m }
}

/// Turning to a statement keeps the state consistent.
pub proof fn lemma_begin_stmt_consistent(m: MachineView, s: StmtView)
    requires
        consistent(m),
    ensures
        consistent(begin_stmt(m, s).state),
{
    let after = begin_stmt(m, s).state;
    if after.frames != m.frames {
        let top = after.frames.last();
        assert(after.frames =~= m.frames.push(top));
        lemma_scopes_open_push(m.frames, top);
    }
}

/// Turning to an expression keeps the state consistent.
pub proof fn lemma_begin_expr_consistent(m: MachineView, e: ExprView)
    requires
        consistent(m),
    ensures
        consistent(begin_expr(m, e).state),
{
    let after = begin_expr(m, e).state;
    if after.frames != m.frames {
        let top = after.frames.last();
        assert(after.frames =~= m.frames.push(top));
        lemma_scopes_open_push(m.frames, top);
    }
}

/// Handing a value to the top frame keeps the state consistent.
pub proof fn lemma_deliver_consistent(m: MachineView, frame: FrameView, v: ValueView)
    requires
        consistent(restored(m, frame)),
    ensures
        consistent(deliver(m, frame, v).state),
{
    let before = restored(m, frame);
    let after = deliver(m, frame, v).state;
    lemma_scopes_open_push(m.frames, frame);
    assert(before.frames[m.frames.len() as int] == frame);
    assert(forall|i: int| 0 <= i < m.frames.len() ==> before.frames[i] == m.frames[i]);
    if is_root(frame) {
        assert(m.frames.len() == 0);
    }
    if after.frames != m.frames {
        let top = after.frames.last();
        assert(after.frames =~= m.frames.push(top));
        lemma_scopes_open_push(m.frames, top);
    }
    if let FrameView::Assign(name) = frame {
        crate::env::lemma_holder(m.env, name);
    }
    assert(after.env.len() == 1 + scopes_open(after.frames));
    assert forall|i: int| 1 <= i < after.frames.len() implies !is_root(
        #[trigger] after.frames[i],
    ) by {
        if i < m.frames.len() {
            assert(after.frames[i] == before.frames[i]);
        }
    }
}

/// Every step keeps the state consistent.
pub proof fn lemma_step_consistent(m: MachineView, reply: ReplyView)
    requires
        consistent(m),
    ensures
        consistent(step(m, reply).state),
{
    match m.focus {
        FocusView::Run(s) => {
            lemma_begin_stmt_consistent(m, s);
        },
        FocusView::Eval(e) => {
            lemma_begin_expr_consistent(m, e);
        },
        FocusView::Return(v) => {
            if m.frames.len() > 0 {
                let below = MachineView { frames: m.frames.drop_last(), ..m };
                assert(restored(below, m.frames.last()).frames =~= m.frames);
                assert(restored(below, m.frames.last()) == m);
                lemma_deliver_consistent(below, m.frames.last(), v);
            }
        },
        _ => {},
    }
}

/// The state in which the program `program` starts to run.
pub open spec fn start_run(program: Seq<StmtView>) -> MachineView {
    MachineView {
        program,
        focus: FocusView::Return(ValueView::Nil),
        frames: seq![FrameView::Program(0)],
        env: seq![Map::empty()],
    }
}

/// The state in which the expressions of `program` start to be evaluated,
/// each for itself, and their values printed.
pub open spec fn start_evaluate(program: Seq<StmtView>) -> MachineView {
    MachineView {
        program,
        focus: FocusView::Return(ValueView::Nil),
        frames: seq![FrameView::Evaluate(0)],
        env: seq![Map::empty()],
    }
}

} // verus!
