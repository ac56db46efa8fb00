//! The machine arrives where the meaning of the program says.
//!
//! A host that answers every request as [`Host`] says drives the machine
//! from a statement or an expression in focus to its value in focus, in the
//! number of steps and with the lines and the environment that
//! [`crate::meaning`] gives, or to the failure that it gives.

use vstd::prelude::*;
use crate::ast::ExprView;
use crate::ast::StmtView;
use crate::env::lemma_holder;
use crate::env::Scope;
use crate::machine::proceed;
use crate::machine::step;
use crate::machine::unboxed;
use crate::machine::FocusView;
use crate::machine::FrameView;
use crate::machine::MachineView;
use crate::machine::Outcome;
use crate::machine::ReplyView;
use crate::machine::RequestView;
use crate::machine::Stage;
use crate::meaning::eval_expr;
use crate::meaning::eval_for;
use crate::meaning::eval_items;
use crate::meaning::eval_listing;
use crate::meaning::eval_program;
use crate::meaning::eval_round;
use crate::meaning::eval_stmt;
use crate::meaning::eval_while;
use crate::meaning::Effect;
use crate::meaning::Ending;
use crate::meaning::Host;
use crate::token::TokenType;
use crate::value::truthy;
use crate::value::ValueView;

verus! {

/// The reply of the host to a request.
pub open spec fn serve(host: Host, request: RequestView) -> ReplyView {
    match request {
        RequestView::Parse(numeral) => ReplyView::Number((host.parse)(numeral)),
        RequestView::Arithmetic(op, a, b) => ReplyView::Number((host.arithmetic)(op, a, b)),
        RequestView::Format(bits) => ReplyView::Text((host.format)(bits)),
        _ => ReplyView::Done,
    }
}

/// The line that a request has the host print, if it is one.
pub open spec fn line_of(request: RequestView) -> Seq<Seq<char>> {
    match request {
        RequestView::Print(line) => seq![line],
        _ => Seq::empty(),
    }
}

/// Where a stretch of a run ends, and the lines printed in it.
pub struct Trace {
    pub end: Outcome,
    pub lines: Seq<Seq<char>>,
}

/// The next state and request, when the host has served the last request.
pub open spec fn served(host: Host, o: Outcome) -> Outcome {
    step(o.state, serve(host, o.request))
}

/// The `n` steps that the machine takes from `o` when the host serves
/// every request.
pub open spec fn trace(host: Host, o: Outcome, n: nat) -> Trace
    decreases n,
{
    if n == 0 {
        Trace { end: o, lines: Seq::empty() }
    } else {
        let next = served(host, o);
        let rest = trace(host, next, (n - 1) as nat);
        Trace { end: rest.end, lines: line_of(next.request) + rest.lines }
    }
}

/// Whether `n` steps lead from `o` to `end`, printing `lines`.
pub open spec fn reaches(host: Host, o: Outcome, n: nat, end: Outcome, lines: Seq<Seq<char>>)
    -> bool {
    trace(host, o, n) == (Trace { end, lines })
}

/// No step leads nowhere.
pub proof fn lemma_stay(host: Host, o: Outcome)
    ensures
        reaches(host, o, 0, o, Seq::empty()),
{
}

/// One step leads to the served outcome.
pub proof fn lemma_one(host: Host, o: Outcome)
    ensures
        reaches(host, o, 1, served(host, o), line_of(served(host, o).request)),
{
    reveal_with_fuel(trace, 2);
    assert(line_of(served(host, o).request) + Seq::<Seq<char>>::empty() =~= line_of(
        served(host, o).request,
    ));
}

/// Stretches of a run follow one another.
pub proof fn lemma_join(
    host: Host,
    o: Outcome,
    a: nat,
    mid: Outcome,
    first: Seq<Seq<char>>,
    b: nat,
    end: Outcome,
    second: Seq<Seq<char>>,
)
    requires
        reaches(host, o, a, mid, first),
        reaches(host, mid, b, end, second),
    ensures
        reaches(host, o, a + b, end, first + second),
    decreases a,
{
    if a == 0 {
        assert(first + second =~= second);
    } else {
        let next = served(host, o);
        let rest = trace(host, next, (a - 1) as nat);
        lemma_join(host, next, (a - 1) as nat, mid, rest.lines, b, end, second);
        assert((line_of(next.request) + rest.lines) + second =~= line_of(next.request) + (
        rest.lines + second));
    }
}

/// A stretch of a run and one more step.
pub proof fn lemma_and_one(
    host: Host,
    o: Outcome,
    a: nat,
    mid: Outcome,
    first: Seq<Seq<char>>,
)
    requires
        reaches(host, o, a, mid, first),
    ensures
        reaches(host, o, a + 1, served(host, mid), first + line_of(served(host, mid).request)),
{
    lemma_one(host, mid);
    lemma_join(
        host,
        o,
        a,
        mid,
        first,
        1,
        served(host, mid),
        line_of(served(host, mid).request),
    );
}

/// The state of `m` when `value` has come back to the frames `frames`, in
/// the environment `env`.
pub open spec fn returned(m: MachineView, frames: Seq<FrameView>, env: Seq<Scope>, value: ValueView)
    -> Outcome {
    proceed(MachineView { focus: FocusView::Return(value), frames, env, program: m.program })
}

/// Whether the machine, when the host serves it from the state `m` on,
/// does what `effect` says: it takes that many steps and prints those
/// lines, and then either the value is in focus, the frames are `frames`
/// and the environment is that of the effect, or the run has failed with
/// the error of the effect. Nothing is said of an effect that is
/// unfinished.
pub open spec fn arrives(host: Host, m: MachineView, frames: Seq<FrameView>, effect: Effect)
    -> bool {
    let t = trace(host, proceed(m), effect.steps);
    match effect.ending {
        Ending::Value(v) => t.end == returned(m, frames, effect.env, v) && t.lines == effect.lines,
        Ending::Error(e) => t.end.state.focus == FocusView::Finished(Some(e)) && t.end.request
            == RequestView::Fail(e) && t.lines == effect.lines,
        Ending::Unfinished => true,
    }
}

/// Whether an effect that ends with a value leaves as many scopes as `m`
/// has, less `dropped`.
pub open spec fn keeps(m: MachineView, effect: Effect, dropped: nat) -> bool {
    effect.ending is Value ==> effect.env.len() + dropped == m.env.len()
}

/// A stretch of a run, and then what the machine does from where the
/// stretch has led.
pub proof fn lemma_extend(
    host: Host,
    o: Outcome,
    a: nat,
    first: Seq<Seq<char>>,
    m: MachineView,
    frames: Seq<FrameView>,
    effect: Effect,
)
    requires
        reaches(host, o, a, proceed(m), first),
        arrives(host, m, frames, effect),
    ensures
        match effect.ending {
            Ending::Value(v) => reaches(
                host,
                o,
                a + effect.steps,
                returned(m, frames, effect.env, v),
                first + effect.lines,
            ),
            Ending::Error(e) => {
                let t = trace(host, o, a + effect.steps);
                t.end.state.focus == FocusView::Finished(Some(e)) && t.end.request
                    == RequestView::Fail(e) && t.lines == first + effect.lines
            },
            Ending::Unfinished => true,
        },
{
    let t = trace(host, proceed(m), effect.steps);
    lemma_join(host, o, a, proceed(m), first, effect.steps, t.end, t.lines);
}

/// The machine evaluates a literal or a name as its meaning says.
pub proof fn lemma_literal(host: Host, e: ExprView, m: MachineView, rounds: nat)
    requires
        e is Literal,
        m.focus == FocusView::Eval(e),
    ensures
        arrives(host, m, m.frames, eval_expr(host, e, m.env, rounds)),
        keeps(m, eval_expr(host, e, m.env, rounds), 0),
{
    let o0 = proceed(m);
    let o1 = served(host, o0);
    lemma_one(host, o0);
    lemma_and_one(host, o0, 1, o1, line_of(o1.request));
    assert(Seq::<Seq<char>>::empty() + Seq::<Seq<char>>::empty() =~= Seq::<Seq<char>>::empty());
}

/// The machine evaluates a group as its meaning says.
pub proof fn lemma_group(host: Host, e: ExprView, m: MachineView, rounds: nat)
    requires
        e is Group,
        m.focus == FocusView::Eval(e),
        m.env.len() >= 1,
    ensures
        arrives(host, m, m.frames, eval_expr(host, e, m.env, rounds)),
        keeps(m, eval_expr(host, e, m.env, rounds), 0),
    decreases rounds, e, 0nat,
{
    match e {
        ExprView::Group(inner) => {
            let o0 = proceed(m);
            let m1 = MachineView { focus: FocusView::Run(*inner), ..m };
            lemma_one(host, o0);
            assert(served(host, o0) == proceed(m1));
            lemma_stmt(host, *inner, m1, rounds);
            let x = eval_stmt(host, *inner, m.env, rounds);
            lemma_extend(host, o0, 1, Seq::empty(), m1, m1.frames, x);
            assert(Seq::<Seq<char>>::empty() + x.lines =~= x.lines);
        },
        _ => {},
    }
}

/// The machine evaluates a unary expression as its meaning says.
pub proof fn lemma_unary(host: Host, e: ExprView, m: MachineView, rounds: nat)
    requires
        e is Unary,
        m.focus == FocusView::Eval(e),
        m.env.len() >= 1,
    ensures
        arrives(host, m, m.frames, eval_expr(host, e, m.env, rounds)),
        keeps(m, eval_expr(host, e, m.env, rounds), 0),
    decreases rounds, e, 0nat,
{
    match e {
        ExprView::Unary(op, operand) => {
            let o0 = proceed(m);
            let m1 = MachineView {
                focus: FocusView::Eval(*operand),
                frames: m.frames.push(FrameView::Unary(op)),
                ..m
            };
            lemma_one(host, o0);
            assert(served(host, o0) == proceed(m1));
            lemma_expr(host, *operand, m1, rounds);
            let x = eval_expr(host, *operand, m.env, rounds);
            lemma_extend(host, o0, 1, Seq::empty(), m1, m1.frames, x);
            assert(Seq::<Seq<char>>::empty() + x.lines =~= x.lines);
            match x.ending {
                Ending::Value(v) => {
                    let o2 = returned(m1, m1.frames, x.env, v);
                    assert(m1.frames.drop_last() =~= m.frames);
                    lemma_and_one(host, o0, 1 + x.steps, o2, x.lines);
                    assert(x.lines + Seq::<Seq<char>>::empty() =~= x.lines);
                },
                _ => {},
            }
        },
        _ => {},
    }
}

/// The machine evaluates a binary expression as its meaning says.
pub proof fn lemma_binary(host: Host, e: ExprView, m: MachineView, rounds: nat)
    requires
        e is Binary,
        m.focus == FocusView::Eval(e),
        m.env.len() >= 1,
    ensures
        arrives(host, m, m.frames, eval_expr(host, e, m.env, rounds)),
        keeps(m, eval_expr(host, e, m.env, rounds), 0),
    decreases rounds, e, 0nat,
{
    match e {
        ExprView::Binary(left, op, right) => {
            let none = Seq::<Seq<char>>::empty();
            let o0 = proceed(m);
            let m1 = MachineView {
                focus: FocusView::Eval(*left),
                frames: m.frames.push(FrameView::Right(op, *right)),
                ..m
            };
            lemma_one(host, o0);
            assert(served(host, o0) == proceed(m1));
            lemma_expr(host, *left, m1, rounds);
            let l = eval_expr(host, *left, m.env, rounds);
            lemma_extend(host, o0, 1, none, m1, m1.frames, l);
            assert(none + l.lines =~= l.lines);
            match l.ending {
                Ending::Value(a) => {
                    let o2 = returned(m1, m1.frames, l.env, a);
                    assert(m1.frames.drop_last() =~= m.frames);
                    lemma_and_one(host, o0, 1 + l.steps, o2, l.lines);
                    assert(l.lines + none =~= l.lines);
                    let o3 = served(host, o2);
                    let kind = op.token_type;
                    if (kind == TokenType::Or && truthy(a)) || (kind == TokenType::And && !truthy(
                        a,
                    )) {
                    } else {
                        let r = eval_expr(host, *right, l.env, rounds);
                        if kind == TokenType::Or || kind == TokenType::And {
                            let m3 = MachineView {
                                focus: FocusView::Eval(*right),
                                frames: m.frames,
                                env: l.env,
                                program: m.program,
                            };
                            assert(o3 == proceed(m3));
                            lemma_expr(host, *right, m3, rounds);
                            lemma_extend(host, o0, 2 + l.steps, l.lines, m3, m3.frames, r);
                        } else {
                            let m3 = MachineView {
                                focus: FocusView::Eval(*right),
                                frames: m.frames.push(FrameView::Apply(op, a)),
                                env: l.env,
                                program: m.program,
                            };
                            assert(o3 == proceed(m3));
                            lemma_expr(host, *right, m3, rounds);
                            lemma_extend(host, o0, 2 + l.steps, l.lines, m3, m3.frames, r);
                            match r.ending {
                                Ending::Value(b) => {
                                    let o4 = returned(m3, m3.frames, r.env, b);
                                    let o5 = served(host, o4);
                                    assert(m3.frames.drop_last() =~= m.frames);
                                    lemma_and_one(
                                        host,
                                        o0,
                                        2 + l.steps + r.steps,
                                        o4,
                                        l.lines + r.lines,
                                    );
                                    lemma_and_one(
                                        host,
                                        o0,
                                        3 + l.steps + r.steps,
                                        o5,
                                        l.lines + r.lines + line_of(o5.request),
                                    );
                                    assert(l.lines + r.lines + none =~= l.lines + r.lines);
                                    assert(l.lines + r.lines + none + none =~= l.lines + r.lines);
                                },
                                _ => {},
                            }
                        }
                    }
                },
                _ => {},
            }
        },
        _ => {},
    }
}

/// The machine evaluates an expression as its meaning says: from the
/// expression in focus it comes, in the steps that the meaning counts, to
/// the value in focus over the same frames, having printed the same lines
/// and changed the environment in the same way; or it fails with the same
/// error.
pub proof fn lemma_expr(host: Host, e: ExprView, m: MachineView, rounds: nat)
    requires
        m.focus == FocusView::Eval(e),
        m.env.len() >= 1,
    ensures
        arrives(host, m, m.frames, eval_expr(host, e, m.env, rounds)),
        keeps(m, eval_expr(host, e, m.env, rounds), 0),
    decreases rounds, e, 1nat,
{
    match e {
        ExprView::Literal(_) => lemma_literal(host, e, m, rounds),
        ExprView::Group(_) => lemma_group(host, e, m, rounds),
        ExprView::Unary(_, _) => lemma_unary(host, e, m, rounds),
        ExprView::Binary(_, _, _) => lemma_binary(host, e, m, rounds),
    }
}

/// The machine runs an expression statement as its meaning says.
pub proof fn lemma_expression(host: Host, s: StmtView, m: MachineView, rounds: nat)
    requires
        s is Expr,
        m.focus == FocusView::Run(s),
        m.env.len() >= 1,
    ensures
        arrives(host, m, m.frames, eval_stmt(host, s, m.env, rounds)),
        keeps(m, eval_stmt(host, s, m.env, rounds), 0),
    decreases rounds, s, 0nat,
{
    match s {
        StmtView::Expr(e) => {
            let o0 = proceed(m);
            let m1 = MachineView { focus: FocusView::Eval(e), ..m };
            lemma_one(host, o0);
            assert(served(host, o0) == proceed(m1));
            lemma_expr(host, e, m1, rounds);
            let x = eval_expr(host, e, m.env, rounds);
            lemma_extend(host, o0, 1, Seq::empty(), m1, m1.frames, x);
            assert(Seq::<Seq<char>>::empty() + x.lines =~= x.lines);
        },
        _ => {},
    }
}

/// The machine runs a `print` statement as its meaning says.
pub proof fn lemma_print(host: Host, s: StmtView, m: MachineView, rounds: nat)
    requires
        s is Print,
        m.focus == FocusView::Run(s),
        m.env.len() >= 1,
    ensures
        arrives(host, m, m.frames, eval_stmt(host, s, m.env, rounds)),
        keeps(m, eval_stmt(host, s, m.env, rounds), 0),
    decreases rounds, s, 0nat,
{
    match s {
        StmtView::Print(operand) => {
            let none = Seq::<Seq<char>>::empty();
            let o0 = proceed(m);
            let m1 = MachineView {
                focus: FocusView::Run(*operand),
                frames: m.frames.push(FrameView::Print),
                ..m
            };
            lemma_one(host, o0);
            assert(served(host, o0) == proceed(m1));
            lemma_stmt(host, *operand, m1, rounds);
            let x = eval_stmt(host, *operand, m.env, rounds);
            lemma_extend(host, o0, 1, none, m1, m1.frames, x);
            assert(none + x.lines =~= x.lines);
            match x.ending {
                Ending::Value(v) => {
                    let o2 = returned(m1, m1.frames, x.env, v);
                    let o3 = served(host, o2);
                    let o4 = served(host, o3);
                    assert(m1.frames.drop_last() =~= m.frames);
                    lemma_and_one(host, o0, 1 + x.steps, o2, x.lines);
                    lemma_and_one(host, o0, 2 + x.steps, o3, x.lines + line_of(o3.request));
                    match v {
                        ValueView::Number(bits) => {
                            let o5 = served(host, o4);
                            lemma_and_one(
                                host,
                                o0,
                                3 + x.steps,
                                o4,
                                x.lines + line_of(o3.request) + line_of(o4.request),
                            );
                            assert(x.lines + line_of(o3.request) + line_of(o4.request) + line_of(
                                o5.request,
                            ) =~= x.lines.push((host.format)(bits)));
                        },
                        _ => {
                            assert(x.lines + line_of(o3.request) + line_of(o4.request)
                                =~= x.lines.push(crate::value::plain_text(v)));
                        },
                    }
                },
                _ => {},
            }
        },
        _ => {},
    }
}

/// The machine runs a declaration as its meaning says.
pub proof fn lemma_declare(host: Host, s: StmtView, m: MachineView, rounds: nat)
    requires
        s is Declare,
        m.focus == FocusView::Run(s),
        m.env.len() >= 1,
    ensures
        arrives(host, m, m.frames, eval_stmt(host, s, m.env, rounds)),
        keeps(m, eval_stmt(host, s, m.env, rounds), 0),
    decreases rounds, s, 0nat,
{
    let none = Seq::<Seq<char>>::empty();
    let o0 = proceed(m);
    lemma_one(host, o0);
    match s {
        StmtView::Declare(name, Some(init)) => {
            let m1 = MachineView {
                focus: FocusView::Run(*init),
                frames: m.frames.push(FrameView::Declare(name)),
                ..m
            };
            assert(served(host, o0) == proceed(m1));
            lemma_stmt(host, *init, m1, rounds);
            let x = eval_stmt(host, *init, m.env, rounds);
            lemma_extend(host, o0, 1, none, m1, m1.frames, x);
            assert(none + x.lines =~= x.lines);
            match x.ending {
                Ending::Value(v) => {
                    let o2 = returned(m1, m1.frames, x.env, v);
                    assert(m1.frames.drop_last() =~= m.frames);
                    lemma_and_one(host, o0, 1 + x.steps, o2, x.lines);
                    assert(x.lines + none =~= x.lines);
                },
                _ => {},
            }
        },
        _ => {},
    }
}

/// The machine runs an assignment as its meaning says.
pub proof fn lemma_assign(host: Host, s: StmtView, m: MachineView, rounds: nat)
    requires
        s is Assign,
        m.focus == FocusView::Run(s),
        m.env.len() >= 1,
    ensures
        arrives(host, m, m.frames, eval_stmt(host, s, m.env, rounds)),
        keeps(m, eval_stmt(host, s, m.env, rounds), 0),
    decreases rounds, s, 0nat,
{
    match s {
        StmtView::Assign(name, operand) => {
            let none = Seq::<Seq<char>>::empty();
            let o0 = proceed(m);
            let m1 = MachineView {
                focus: FocusView::Run(*operand),
                frames: m.frames.push(FrameView::Assign(name)),
                ..m
            };
            lemma_one(host, o0);
            assert(served(host, o0) == proceed(m1));
            lemma_stmt(host, *operand, m1, rounds);
            let x = eval_stmt(host, *operand, m.env, rounds);
            lemma_extend(host, o0, 1, none, m1, m1.frames, x);
            assert(none + x.lines =~= x.lines);
            match x.ending {
                Ending::Value(v) => {
                    let o2 = returned(m1, m1.frames, x.env, v);
                    assert(m1.frames.drop_last() =~= m.frames);
                    lemma_and_one(host, o0, 1 + x.steps, o2, x.lines);
                    assert(x.lines + none =~= x.lines);
                    lemma_holder(x.env, name);
                },
                _ => {},
            }
        },
        _ => {},
    }
}

/// The machine runs the statements of a block from the one at `from` on,
/// and leaves the block's scope, as their meaning says.
pub proof fn lemma_items(
    host: Host,
    items: Seq<StmtView>,
    from: nat,
    m: MachineView,
    rounds: nat,
)
    requires
        m.focus is Return,
        m.frames.len() > 0,
        m.frames.last() == FrameView::Block(items, from),
        m.env.len() >= 2,
    ensures
        arrives(host, m, m.frames.drop_last(), eval_items(host, items, from, m.env, rounds)),
        keeps(m, eval_items(host, items, from, m.env, rounds), 1),
    decreases rounds, items, items.len() - from,
{
    let none = Seq::<Seq<char>>::empty();
    let below = m.frames.drop_last();
    let o0 = proceed(m);
    lemma_one(host, o0);
    if from < items.len() {
        let item = items[from as int];
        let m1 = MachineView {
            focus: FocusView::Run(item),
            frames: below.push(FrameView::Block(items, from + 1)),
            ..m
        };
        assert(served(host, o0) == proceed(m1));
        lemma_stmt(host, item, m1, rounds);
        let first = eval_stmt(host, item, m.env, rounds);
        lemma_extend(host, o0, 1, none, m1, m1.frames, first);
        assert(none + first.lines =~= first.lines);
        match first.ending {
            Ending::Value(v) => {
                let m2 = returned(m1, m1.frames, first.env, v).state;
                assert(m1.frames.drop_last() =~= below);
                lemma_items(host, items, from + 1, m2, rounds);
                let rest = eval_items(host, items, from + 1, first.env, rounds);
                lemma_extend(host, o0, 1 + first.steps, first.lines, m2, below, rest);
            },
            _ => {},
        }
    }
}

/// The machine runs a block as its meaning says.
pub proof fn lemma_block(host: Host, s: StmtView, m: MachineView, rounds: nat)
    requires
        s is Block,
        m.focus == FocusView::Run(s),
        m.env.len() >= 1,
    ensures
        arrives(host, m, m.frames, eval_stmt(host, s, m.env, rounds)),
        keeps(m, eval_stmt(host, s, m.env, rounds), 0),
    decreases rounds, s, 0nat,
{
    match s {
        StmtView::Block(items) => {
            let o0 = proceed(m);
            let m1 = MachineView {
                focus: FocusView::Return(ValueView::Nil),
                frames: m.frames.push(FrameView::Block(items, 0)),
                env: m.env.push(Map::empty()),
                ..m
            };
            lemma_one(host, o0);
            assert(served(host, o0) == proceed(m1));
            assert(m1.frames.drop_last() =~= m.frames);
            lemma_items(host, items, 0, m1, rounds);
            let x = eval_items(host, items, 0, m1.env, rounds);
            lemma_extend(host, o0, 1, Seq::empty(), m1, m.frames, x);
            assert(Seq::<Seq<char>>::empty() + x.lines =~= x.lines);
        },
        _ => {},
    }
}

/// The machine runs an `if` statement as its meaning says.
pub proof fn lemma_if(host: Host, s: StmtView, m: MachineView, rounds: nat)
    requires
        s is If,
        m.focus == FocusView::Run(s),
        m.env.len() >= 1,
    ensures
        arrives(host, m, m.frames, eval_stmt(host, s, m.env, rounds)),
        keeps(m, eval_stmt(host, s, m.env, rounds), 0),
    decreases rounds, s, 0nat,
{
    match s {
        StmtView::If(condition, consequent, alternative) => {
            let none = Seq::<Seq<char>>::empty();
            let o0 = proceed(m);
            let m1 = MachineView {
                focus: FocusView::Run(*condition),
                frames: m.frames.push(FrameView::Branch(*consequent, unboxed(alternative))),
                ..m
            };
            lemma_one(host, o0);
            assert(served(host, o0) == proceed(m1));
            lemma_stmt(host, *condition, m1, rounds);
            let test = eval_stmt(host, *condition, m.env, rounds);
            lemma_extend(host, o0, 1, none, m1, m1.frames, test);
            assert(none + test.lines =~= test.lines);
            match test.ending {
                Ending::Value(v) => {
                    let o2 = returned(m1, m1.frames, test.env, v);
                    assert(m1.frames.drop_last() =~= m.frames);
                    lemma_and_one(host, o0, 1 + test.steps, o2, test.lines);
                    assert(test.lines + none =~= test.lines);
                    let taken = if truthy(v) {
                        Some(*consequent)
                    } else {
                        unboxed(alternative)
                    };
                    match taken {
                        Some(branch) => {
                            let m3 = MachineView {
                                focus: FocusView::Run(branch),
                                frames: m.frames,
                                env: test.env,
                                program: m.program,
                            };
                            assert(served(host, o2) == proceed(m3));
                            lemma_stmt(host, branch, m3, rounds);
                            let rest = eval_stmt(host, branch, test.env, rounds);
                            lemma_extend(host, o0, 2 + test.steps, test.lines, m3, m3.frames, rest);
                        },
                        None => {},
                    }
                },
                _ => {},
            }
        },
        _ => {},
    }
}

/// The machine runs the rounds of a `while` loop as their meaning says.
pub proof fn lemma_while_rounds(host: Host, s: StmtView, m: MachineView, rounds: nat)
    requires
        s is While,
        m.focus == FocusView::Run(*s->While_0),
        m.frames.len() > 0,
        m.frames.last() == FrameView::WhileTest(*s->While_0, *s->While_1),
        m.env.len() >= 1,
    ensures
        arrives(host, m, m.frames.drop_last(), eval_while(host, s, m.env, rounds)),
        keeps(m, eval_while(host, s, m.env, rounds), 0),
    decreases rounds, s, 1nat,
{
    match s {
        StmtView::While(condition, body) => {
            let none = Seq::<Seq<char>>::empty();
            let below = m.frames.drop_last();
            let o0 = proceed(m);
            lemma_stmt(host, *condition, m, rounds);
            let test = eval_stmt(host, *condition, m.env, rounds);
            lemma_stay(host, o0);
            lemma_extend(host, o0, 0, none, m, m.frames, test);
            assert(none + test.lines =~= test.lines);
            match test.ending {
                Ending::Value(v) => {
                    let o1 = returned(m, m.frames, test.env, v);
                    lemma_and_one(host, o0, test.steps, o1, test.lines);
                    assert(test.lines + none =~= test.lines);
                    if truthy(v) {
                        let m2 = MachineView {
                            focus: FocusView::Run(*body),
                            frames: below.push(FrameView::WhileBody(*condition, *body)),
                            env: test.env,
                            program: m.program,
                        };
                        assert(served(host, o1) == proceed(m2));
                        lemma_stmt(host, *body, m2, rounds);
                        let round = eval_stmt(host, *body, test.env, rounds);
                        lemma_extend(host, o0, test.steps + 1, test.lines, m2, m2.frames, round);
                        match round.ending {
                            Ending::Value(w) => {
                                if rounds > 0 {
                                    let o3 = returned(m2, m2.frames, round.env, w);
                                    let m4 = MachineView {
                                        focus: FocusView::Run(*condition),
                                        frames: below.push(
                                            FrameView::WhileTest(*condition, *body),
                                        ),
                                        env: round.env,
                                        program: m.program,
                                    };
                                    assert(m2.frames.drop_last() =~= below);
                                    assert(served(host, o3) == proceed(m4));
                                    lemma_and_one(
                                        host,
                                        o0,
                                        test.steps + 1 + round.steps,
                                        o3,
                                        test.lines + round.lines,
                                    );
                                    assert(test.lines + round.lines + none =~= test.lines
                                        + round.lines);
                                    assert(m4.frames.drop_last() =~= below);
                                    lemma_while_rounds(host, s, m4, (rounds - 1) as nat);
                                    let rest = eval_while(
                                        host,
                                        s,
                                        round.env,
                                        (rounds - 1) as nat,
                                    );
                                    lemma_extend(
                                        host,
                                        o0,
                                        test.steps + 1 + round.steps + 1,
                                        test.lines + round.lines,
                                        m4,
                                        below,
                                        rest,
                                    );
                                }
                            },
                            _ => {},
                        }
                    }
                },
                _ => {},
            }
        },
        _ => {},
    }
}

/// The machine runs a `while` statement as its meaning says.
pub proof fn lemma_while(host: Host, s: StmtView, m: MachineView, rounds: nat)
    requires
        s is While,
        m.focus == FocusView::Run(s),
        m.env.len() >= 1,
    ensures
        arrives(host, m, m.frames, eval_stmt(host, s, m.env, rounds)),
        keeps(m, eval_stmt(host, s, m.env, rounds), 0),
    decreases rounds, s, 2nat,
{
    match s {
        StmtView::While(condition, body) => {
            let o0 = proceed(m);
            let m1 = MachineView {
                focus: FocusView::Run(*condition),
                frames: m.frames.push(FrameView::WhileTest(*condition, *body)),
                ..m
            };
            lemma_one(host, o0);
            assert(served(host, o0) == proceed(m1));
            assert(m1.frames.drop_last() =~= m.frames);
            lemma_while_rounds(host, s, m1, rounds);
            let x = eval_while(host, s, m.env, rounds);
            lemma_extend(host, o0, 1, Seq::empty(), m1, m.frames, x);
            assert(Seq::<Seq<char>>::empty() + x.lines =~= x.lines);
        },
        _ => {},
    }
}

/// The state in which a `for` loop turns to its condition, or to its body
/// where it has none, over the frames `below`.
pub open spec fn for_turn(m: MachineView, below: Seq<FrameView>, env: Seq<Scope>, s: StmtView)
    -> MachineView {
    let condition = unboxed(s->For_1);
    let increment = unboxed(s->For_2);
    let body = *s->For_3;
    match condition {
        Some(c) => MachineView {
            focus: FocusView::Run(c),
            frames: below.push(FrameView::For(Stage::Test, condition, increment, body)),
            env,
            program: m.program,
        },
        None => MachineView {
            focus: FocusView::Run(body),
            frames: below.push(FrameView::For(Stage::Body, condition, increment, body)),
            env,
            program: m.program,
        },
    }
}

/// The machine runs a round of a `for` loop from its body on, and the
/// rounds that follow, as their meaning says.
pub proof fn lemma_for_round(
    host: Host,
    s: StmtView,
    m: MachineView,
    below: Seq<FrameView>,
    rounds: nat,
)
    requires
        s is For,
        m.focus == FocusView::Run(*s->For_3),
        m.frames == below.push(
            FrameView::For(Stage::Body, unboxed(s->For_1), unboxed(s->For_2), *s->For_3),
        ),
        m.env.len() >= 2,
    ensures
        arrives(host, m, below, eval_round(host, s, m.env, rounds)),
        keeps(m, eval_round(host, s, m.env, rounds), 1),
    decreases rounds, s, 1nat,
{
    match s {
        StmtView::For(_, condition, increment, body) => {
            let none = Seq::<Seq<char>>::empty();
            let o0 = proceed(m);
            lemma_stmt(host, *body, m, rounds);
            let round = eval_stmt(host, *body, m.env, rounds);
            lemma_stay(host, o0);
            lemma_extend(host, o0, 0, none, m, m.frames, round);
            assert(none + round.lines =~= round.lines);
            assert(m.frames.drop_last() =~= below);
            match round.ending {
                Ending::Value(w) => {
                    let o1 = returned(m, m.frames, round.env, w);
                    lemma_and_one(host, o0, round.steps, o1, round.lines);
                    assert(round.lines + none =~= round.lines);
                    match increment {
                        Some(i) => {
                            let m2 = MachineView {
                                focus: FocusView::Run(*i),
                                frames: below.push(
                                    FrameView::For(
                                        Stage::Step,
                                        unboxed(condition),
                                        unboxed(increment),
                                        *body,
                                    ),
                                ),
                                env: round.env,
                                program: m.program,
                            };
                            assert(served(host, o1) == proceed(m2));
                            lemma_stmt(host, *i, m2, rounds);
                            let inc = eval_stmt(host, *i, round.env, rounds);
                            lemma_extend(host, o0, round.steps + 1, round.lines, m2, m2.frames, inc);
                            match inc.ending {
                                Ending::Value(u) => {
                                    if rounds > 0 {
                                        let o3 = returned(m2, m2.frames, inc.env, u);
                                        let m4 = for_turn(m, below, inc.env, s);
                                        assert(m2.frames.drop_last() =~= below);
                                        assert(served(host, o3) == proceed(m4));
                                        lemma_and_one(
                                            host,
                                            o0,
                                            round.steps + 1 + inc.steps,
                                            o3,
                                            round.lines + inc.lines,
                                        );
                                        assert(round.lines + inc.lines + none =~= round.lines
                                            + inc.lines);
                                        lemma_for_rounds(
                                            host,
                                            s,
                                            m4,
                                            below,
                                            (rounds - 1) as nat,
                                        );
                                        let rest = eval_for(
                                            host,
                                            s,
                                            inc.env,
                                            (rounds - 1) as nat,
                                        );
                                        lemma_extend(
                                            host,
                                            o0,
                                            round.steps + 1 + inc.steps + 1,
                                            round.lines + inc.lines,
                                            m4,
                                            below,
                                            rest,
                                        );
                                    }
                                },
                                _ => {},
                            }
                        },
                        None => {
                            if rounds > 0 {
                                let m4 = for_turn(m, below, round.env, s);
                                assert(served(host, o1) == proceed(m4));
                                lemma_for_rounds(host, s, m4, below, (rounds - 1) as nat);
                                let rest = eval_for(host, s, round.env, (rounds - 1) as nat);
                                lemma_extend(
                                    host,
                                    o0,
                                    round.steps + 1,
                                    round.lines,
                                    m4,
                                    below,
                                    rest,
                                );
                            }
                        },
                    }
                },
                _ => {},
            }
        },
        _ => {},
    }
}

/// The machine runs the rounds of a `for` loop as their meaning says, and
/// leaves the loop's scope.
pub proof fn lemma_for_rounds(
    host: Host,
    s: StmtView,
    m: MachineView,
    below: Seq<FrameView>,
    rounds: nat,
)
    requires
        s is For,
        m == for_turn(m, below, m.env, s),
        m.env.len() >= 2,
    ensures
        arrives(host, m, below, eval_for(host, s, m.env, rounds)),
        keeps(m, eval_for(host, s, m.env, rounds), 1),
    decreases rounds, s, 2nat,
{
    match s {
        StmtView::For(_, condition, increment, body) => {
            let none = Seq::<Seq<char>>::empty();
            let o0 = proceed(m);
            match condition {
                Some(c) => {
                    lemma_stmt(host, *c, m, rounds);
                    let test = eval_stmt(host, *c, m.env, rounds);
                    lemma_stay(host, o0);
                    lemma_extend(host, o0, 0, none, m, m.frames, test);
                    assert(none + test.lines =~= test.lines);
                    assert(m.frames.drop_last() =~= below);
                    match test.ending {
                        Ending::Value(v) => {
                            let o1 = returned(m, m.frames, test.env, v);
                            lemma_and_one(host, o0, test.steps, o1, test.lines);
                            assert(test.lines + none =~= test.lines);
                            if truthy(v) {
                                let m2 = MachineView {
                                    focus: FocusView::Run(*body),
                                    frames: below.push(
                                        FrameView::For(
                                            Stage::Body,
                                            unboxed(condition),
                                            unboxed(increment),
                                            *body,
                                        ),
                                    ),
                                    env: test.env,
                                    program: m.program,
                                };
                                assert(served(host, o1) == proceed(m2));
                                lemma_for_round(host, s, m2, below, rounds);
                                let rest = eval_round(host, s, test.env, rounds);
                                lemma_extend(host, o0, test.steps + 1, test.lines, m2, below, rest);
                            }
                        },
                        _ => {},
                    }
                },
                None => {
                    lemma_for_round(host, s, m, below, rounds);
                },
            }
        },
        _ => {},
    }
}

/// The machine runs a `for` statement as its meaning says.
pub proof fn lemma_for(host: Host, s: StmtView, m: MachineView, rounds: nat)
    requires
        s is For,
        m.focus == FocusView::Run(s),
        m.env.len() >= 1,
    ensures
        arrives(host, m, m.frames, eval_stmt(host, s, m.env, rounds)),
        keeps(m, eval_stmt(host, s, m.env, rounds), 0),
    decreases rounds, s, 3nat,
{
    match s {
        StmtView::For(initializer, condition, increment, body) => {
            let none = Seq::<Seq<char>>::empty();
            let o0 = proceed(m);
            let inside = m.env.push(Map::empty());
            lemma_one(host, o0);
            match initializer {
                Some(init) => {
                    let m1 = MachineView {
                        focus: FocusView::Run(*init),
                        frames: m.frames.push(
                            FrameView::For(
                                Stage::Init,
                                unboxed(condition),
                                unboxed(increment),
                                *body,
                            ),
                        ),
                        env: inside,
                        program: m.program,
                    };
                    assert(served(host, o0) == proceed(m1));
                    lemma_stmt(host, *init, m1, rounds);
                    let first = eval_stmt(host, *init, inside, rounds);
                    lemma_extend(host, o0, 1, none, m1, m1.frames, first);
                    assert(none + first.lines =~= first.lines);
                    match first.ending {
                        Ending::Value(v) => {
                            let o2 = returned(m1, m1.frames, first.env, v);
                            let m3 = for_turn(m, m.frames, first.env, s);
                            assert(m1.frames.drop_last() =~= m.frames);
                            assert(served(host, o2) == proceed(m3));
                            lemma_and_one(host, o0, 1 + first.steps, o2, first.lines);
                            assert(first.lines + none =~= first.lines);
                            lemma_for_rounds(host, s, m3, m.frames, rounds);
                            let rest = eval_for(host, s, first.env, rounds);
                            lemma_extend(
                                host,
                                o0,
                                2 + first.steps,
                                first.lines,
                                m3,
                                m.frames,
                                rest,
                            );
                        },
                        _ => {},
                    }
                },
                None => {
                    let m1 = for_turn(m, m.frames, inside, s);
                    assert(served(host, o0) == proceed(m1));
                    lemma_for_rounds(host, s, m1, m.frames, rounds);
                    let x = eval_for(host, s, inside, rounds);
                    lemma_extend(host, o0, 1, none, m1, m.frames, x);
                    assert(none + x.lines =~= x.lines);
                },
            }
        },
        _ => {},
    }
}

/// The machine runs a statement as its meaning says: from the statement in
/// focus it comes, in the steps that the meaning counts, to the statement's
/// value in focus over the same frames, having printed the same lines and
/// changed the environment in the same way; or it fails with the same
/// error.
pub proof fn lemma_stmt(host: Host, s: StmtView, m: MachineView, rounds: nat)
    requires
        m.focus == FocusView::Run(s),
        m.env.len() >= 1,
    ensures
        arrives(host, m, m.frames, eval_stmt(host, s, m.env, rounds)),
        keeps(m, eval_stmt(host, s, m.env, rounds), 0),
    decreases rounds, s, 10nat,
{
    match s {
        StmtView::Expr(_) => lemma_expression(host, s, m, rounds),
        StmtView::Print(_) => lemma_print(host, s, m, rounds),
        StmtView::Declare(_, _) => lemma_declare(host, s, m, rounds),
        StmtView::Assign(_, _) => lemma_assign(host, s, m, rounds),
        StmtView::Block(_) => lemma_block(host, s, m, rounds),
        StmtView::If(_, _, _) => lemma_if(host, s, m, rounds),
        StmtView::While(_, _) => lemma_while(host, s, m, rounds),
        StmtView::For(_, _, _, _) => lemma_for(host, s, m, rounds),
    }
}

/// Whether the machine, when the host serves it from the state `m` on,
/// runs the program to the end that `effect` says: it takes that many steps
/// and prints those lines, and then either reports that the program has
/// ended, or has failed with the error of the effect. Nothing is said of an
/// effect that is unfinished.
pub open spec fn ends(host: Host, m: MachineView, effect: Effect) -> bool {
    let t = trace(host, proceed(m), effect.steps);
    match effect.ending {
        Ending::Value(_) => t.end.state.focus == FocusView::Finished(None) && t.end.request
            == RequestView::Finish && t.lines == effect.lines,
        Ending::Error(e) => t.end.state.focus == FocusView::Finished(Some(e)) && t.end.request
            == RequestView::Fail(e) && t.lines == effect.lines,
        Ending::Unfinished => true,
    }
}

/// The machine runs the statements of a program from the one at `from` on
/// as their meaning says.
pub proof fn lemma_program(host: Host, m: MachineView, from: nat, rounds: nat)
    requires
        m.focus is Return,
        m.frames == seq![FrameView::Program(from)],
        m.env.len() >= 1,
    ensures
        ends(host, m, eval_program(host, m.program, from, m.env, rounds)),
    decreases m.program.len() - from,
{
    let none = Seq::<Seq<char>>::empty();
    let o0 = proceed(m);
    lemma_one(host, o0);
    assert(m.frames.drop_last() =~= Seq::<FrameView>::empty());
    if from < m.program.len() {
        let item = m.program[from as int];
        let m1 = MachineView {
            focus: FocusView::Run(item),
            frames: seq![FrameView::Program(from + 1)],
            ..m
        };
        assert(Seq::<FrameView>::empty().push(FrameView::Program(from + 1)) =~= m1.frames);
        assert(served(host, o0) == proceed(m1));
        lemma_stmt(host, item, m1, rounds);
        let first = eval_stmt(host, item, m.env, rounds);
        lemma_extend(host, o0, 1, none, m1, m1.frames, first);
        assert(none + first.lines =~= first.lines);
        match first.ending {
            Ending::Value(v) => {
                let o2 = returned(m1, m1.frames, first.env, v);
                lemma_program(host, o2.state, from + 1, rounds);
                let rest = eval_program(host, m.program, from + 1, first.env, rounds);
                let t = trace(host, o2, rest.steps);
                lemma_join(host, o0, 1 + first.steps, o2, first.lines, rest.steps, t.end, t.lines);
            },
            _ => {},
        }
    }
}

/// Running a program: from its start the machine, served by the host,
/// prints the lines that the meaning of the program gives, and then reports
/// the end of the program, or the error with which its meaning fails.
pub proof fn lemma_run(host: Host, program: Seq<StmtView>, rounds: nat)
    ensures
        ends(
            host,
            crate::machine::start_run(program),
            eval_program(host, program, 0, seq![Map::empty()], rounds),
        ),
{
    lemma_program(host, crate::machine::start_run(program), 0, rounds);
}

/// The machine evaluates the statements of a program from the one at
/// `from` on, each for itself, as their meaning says.
pub proof fn lemma_listing(host: Host, m: MachineView, from: nat, rounds: nat)
    requires
        m.focus is Return,
        m.frames == seq![FrameView::Evaluate(from)],
    ensures
        ends(host, m, eval_listing(host, m.program, from, rounds)),
    decreases m.program.len() - from,
{
    let none = Seq::<Seq<char>>::empty();
    let fresh = seq![Map::<Seq<char>, ValueView>::empty()];
    let o0 = proceed(m);
    lemma_one(host, o0);
    assert(m.frames.drop_last() =~= Seq::<FrameView>::empty());
    if from < m.program.len() {
        match m.program[from as int] {
            StmtView::Expr(e) => {
                let m1 = MachineView {
                    focus: FocusView::Eval(e),
                    frames: seq![FrameView::Show(from + 1)],
                    env: fresh,
                    program: m.program,
                };
                assert(Seq::<FrameView>::empty().push(FrameView::Show(from + 1)) =~= m1.frames);
                assert(served(host, o0) == proceed(m1));
                lemma_expr(host, e, m1, rounds);
                let x = eval_expr(host, e, fresh, rounds);
                lemma_extend(host, o0, 1, none, m1, m1.frames, x);
                assert(none + x.lines =~= x.lines);
                match x.ending {
                    Ending::Value(v) => {
                        let o2 = returned(m1, m1.frames, x.env, v);
                        let o3 = served(host, o2);
                        let o4 = served(host, o3);
                        let o5 = served(host, o4);
                        let turn = seq![FrameView::Evaluate(from + 1)];
                        assert(m1.frames.drop_last().push(FrameView::Evaluate(from + 1)) =~= turn);
                        lemma_and_one(host, o0, 1 + x.steps, o2, x.lines);
                        lemma_and_one(host, o0, 2 + x.steps, o3, x.lines + line_of(o3.request));
                        lemma_and_one(
                            host,
                            o0,
                            3 + x.steps,
                            o4,
                            x.lines + line_of(o3.request) + line_of(o4.request),
                        );
                        let rest = eval_listing(host, m.program, from + 1, rounds);
                        match v {
                            ValueView::Number(bits) => {
                                let shown = x.lines.push((host.format)(bits));
                                assert(x.lines + line_of(o3.request) + line_of(o4.request)
                                    + line_of(o5.request) =~= shown);
                                lemma_listing(host, o5.state, from + 1, rounds);
                                let t = trace(host, o5, rest.steps);
                                lemma_join(
                                    host,
                                    o0,
                                    4 + x.steps,
                                    o5,
                                    shown,
                                    rest.steps,
                                    t.end,
                                    t.lines,
                                );
                            },
                            _ => {
                                let shown = x.lines.push(crate::value::plain_text(v));
                                assert(x.lines + line_of(o3.request) + line_of(o4.request)
                                    =~= shown);
                                lemma_listing(host, o4.state, from + 1, rounds);
                                let t = trace(host, o4, rest.steps);
                                lemma_join(
                                    host,
                                    o0,
                                    3 + x.steps,
                                    o4,
                                    shown,
                                    rest.steps,
                                    t.end,
                                    t.lines,
                                );
                            },
                        }
                    },
                    _ => {},
                }
            },
            _ => {},
        }
    }
}

/// Evaluating a program: from its start the machine, served by the host,
/// prints the value of each expression as their meaning gives it, and then
/// reports the end of the program, or the error with which its meaning
/// fails.
pub proof fn lemma_evaluate(host: Host, program: Seq<StmtView>, rounds: nat)
    ensures
        ends(
            host,
            crate::machine::start_evaluate(program),
            eval_listing(host, program, 0, rounds),
        ),
{
    lemma_listing(host, crate::machine::start_evaluate(program), 0, rounds);
}

} // verus!
