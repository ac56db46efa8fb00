//! What holds of every program: of its meaning, and of every run of the
//! machine.

use vstd::prelude::*;
use crate::ast::ExprView;
use crate::ast::StmtView;
use crate::env::assigned;
use crate::env::defined;
use crate::env::holder;
use crate::env::lemma_holder;
use crate::env::Scope;
use crate::grammar::program;
use crate::machine::consistent;
use crate::meaning::eval_expr;
use crate::meaning::eval_for;
use crate::meaning::eval_items;
use crate::meaning::eval_round;
use crate::meaning::eval_stmt;
use crate::meaning::eval_while;
use crate::meaning::Effect;
use crate::meaning::Ending;
use crate::meaning::Host;
use crate::machine::deliver;
use crate::machine::focused;
use crate::machine::is_root;
use crate::machine::lemma_scopes_open_push;
use crate::machine::lemma_step_consistent;
use crate::machine::owns_scope;
use crate::machine::scopes_open;
use crate::machine::start_run;
use crate::machine::step;
use crate::machine::FocusView;
use crate::machine::FrameView;
use crate::machine::MachineView;
use crate::machine::ReplyView;
use crate::machine::RequestView;
use crate::scanner::scan;
use crate::token::TokenType;
use crate::token::TokenView;
use crate::value::truthy;
use crate::value::ValueView;

verus! {

/// The state after the machine has made one step for each of `replies`.
pub open spec fn run(m: MachineView, replies: Seq<ReplyView>) -> MachineView
    decreases replies.len(),
{
    if replies.len() == 0 {
        m
    } else {
        step(run(m, replies.drop_last()), replies.last()).state
    }
}

/// The requests that the machine has made, one for each of `replies`.
pub open spec fn requests(m: MachineView, replies: Seq<ReplyView>) -> Seq<RequestView>
    decreases replies.len(),
{
    if replies.len() == 0 {
        Seq::empty()
    } else {
        requests(m, replies.drop_last()).push(
            step(run(m, replies.drop_last()), replies.last()).request,
        )
    }
}

/// The lines among the requests.
pub open spec fn lines(requests: Seq<RequestView>) -> Seq<Seq<char>>
    decreases requests.len(),
{
    if requests.len() == 0 {
        Seq::empty()
    } else {
        match requests.last() {
            RequestView::Print(line) => lines(requests.drop_last()).push(line),
            _ => lines(requests.drop_last()),
        }
    }
}

/// The lines that the program with the source text `source` prints while
/// the host gives `replies`, provided the text scans and parses.
pub open spec fn output(source: Seq<char>, replies: Seq<ReplyView>) -> Seq<Seq<char>> {
    lines(requests(start_run(program(scan(source).tokens).statements), replies))
}

/// Running is deterministic: the same source text and the same replies of
/// the host give the same requests, and so the same lines of output.
pub proof fn lemma_output_is_determined(
    a: Seq<char>,
    b: Seq<char>,
    replies_a: Seq<ReplyView>,
    replies_b: Seq<ReplyView>,
)
    requires
        a == b,
        replies_a == replies_b,
    ensures
        requests(start_run(program(scan(a).tokens).statements), replies_a) == requests(
            start_run(program(scan(b).tokens).statements),
            replies_b,
        ),
        output(a, replies_a) == output(b, replies_b),
{
}

/// Every state of a run from a consistent state is consistent.
pub proof fn lemma_run_consistent(m: MachineView, replies: Seq<ReplyView>)
    requires
        consistent(m),
    ensures
        consistent(run(m, replies)),
    decreases replies.len(),
{
    if replies.len() > 0 {
        lemma_run_consistent(m, replies.drop_last());
        lemma_step_consistent(run(m, replies.drop_last()), replies.last());
    }
}

/// `or` hands a truthy left operand on and drops its right operand
/// unevaluated; `and` does so with a falsy left operand.
pub proof fn lemma_short_circuit(m: MachineView, v: ValueView, op: TokenView, right: ExprView)
    requires
        m.focus == FocusView::Return(v),
        m.frames.len() > 0,
        m.frames.last() == FrameView::Right(op, right),
        (op.token_type == TokenType::Or && truthy(v)) || (op.token_type == TokenType::And
            && !truthy(v)),
    ensures
        step(m, ReplyView::Done).request == RequestView::Continue,
        step(m, ReplyView::Done).state == (MachineView {
            frames: m.frames.drop_last(),
            focus: FocusView::Return(v),
            ..m
        }),
{
}

/// `false and e` is `false` after three steps that ask nothing of the host
/// and never have `e` in focus: `e` is not evaluated.
pub proof fn lemma_false_and(m: MachineView, left: TokenView, op: TokenView, right: ExprView)
    requires
        left.token_type == TokenType::False,
        op.token_type == TokenType::And,
        m.focus == FocusView::Eval(
            ExprView::Binary(Box::new(ExprView::Literal(left)), op, Box::new(right)),
        ),
    ensures
        ({
            let first = step(m, ReplyView::Done);
            let second = step(first.state, ReplyView::Done);
            let third = step(second.state, ReplyView::Done);
            &&& first.request == RequestView::Continue
            &&& second.request == RequestView::Continue
            &&& third.request == RequestView::Continue
            &&& first.state.focus == FocusView::Eval(ExprView::Literal(left))
            &&& second.state.focus == FocusView::Return(ValueView::Boolean(false))
            &&& third.state == focused(m, FocusView::Return(ValueView::Boolean(false)))
        }),
{
    let first = step(m, ReplyView::Done);
    let second = step(first.state, ReplyView::Done);
    assert(first.state.frames.drop_last() =~= m.frames);
}

/// `true or e` is `true` after three steps that ask nothing of the host and
/// never have `e` in focus: `e` is not evaluated.
pub proof fn lemma_true_or(m: MachineView, left: TokenView, op: TokenView, right: ExprView)
    requires
        left.token_type == TokenType::True,
        op.token_type == TokenType::Or,
        m.focus == FocusView::Eval(
            ExprView::Binary(Box::new(ExprView::Literal(left)), op, Box::new(right)),
        ),
    ensures
        ({
            let first = step(m, ReplyView::Done);
            let second = step(first.state, ReplyView::Done);
            let third = step(second.state, ReplyView::Done);
            &&& first.request == RequestView::Continue
            &&& second.request == RequestView::Continue
            &&& third.request == RequestView::Continue
            &&& first.state.focus == FocusView::Eval(ExprView::Literal(left))
            &&& second.state.focus == FocusView::Return(ValueView::Boolean(true))
            &&& third.state == focused(m, FocusView::Return(ValueView::Boolean(true)))
        }),
{
    let first = step(m, ReplyView::Done);
    let second = step(first.state, ReplyView::Done);
    assert(first.state.frames.drop_last() =~= m.frames);
}

/// The names that each scope binds.
pub open spec fn names(env: Seq<Scope>) -> Seq<Set<Seq<char>>> {
    env.map_values(|scope: Scope| scope.dom())
}

/// Defining a name changes the innermost scope only.
pub proof fn lemma_define_is_local(env: Seq<Scope>, name: Seq<char>, value: ValueView)
    requires
        env.len() > 0,
    ensures
        defined(env, name, value).len() == env.len(),
        defined(env, name, value).drop_last() == env.drop_last(),
        defined(env, name, value).last() == env.last().insert(name, value),
{
    assert(defined(env, name, value).drop_last() =~= env.drop_last());
}

/// Assigning to a name adds no name to any scope and takes none away.
pub proof fn lemma_assign_keeps_names(env: Seq<Scope>, name: Seq<char>, value: ValueView)
    ensures
        match assigned(env, name, value) {
            Some(after) => names(after) == names(env),
            None => true,
        },
{
    lemma_holder(env, name);
    match assigned(env, name, value) {
        Some(after) => {
            let i = holder(env, name)->0;
            assert(after[i].dom() =~= env[i].dom());
            assert(names(after) =~= names(env));
        },
        None => {},
    }
}

/// The frames below a position hold no more scopes open than all frames
/// do, and one fewer where the frame at the position holds one open.
pub proof fn lemma_scopes_open_take(frames: Seq<FrameView>, n: int)
    requires
        0 <= n <= frames.len(),
    ensures
        scopes_open(frames.take(n)) <= scopes_open(frames),
        n < frames.len() && owns_scope(frames[n]) ==> scopes_open(frames.take(n)) + 1
            <= scopes_open(frames),
    decreases frames.len() - n,
{
    if n < frames.len() {
        let front = frames.drop_last();
        if n == frames.len() - 1 {
            assert(frames.take(n) =~= front);
        } else {
            lemma_scopes_open_take(front, n);
            assert(front.take(n) =~= frames.take(n));
            assert(front[n] == frames[n]);
        }
    } else {
        assert(frames.take(n) =~= frames);
    }
}

/// What one step does while a frame that holds a scope open stands at
/// `base`. The frames below it stay as they are. Of the scopes that were
/// open when the frame was pushed, none gains or loses a name. Either the
/// frame stays, or the step takes it from the stack with nothing above it:
/// then the step drops the frame's own scope and changes nothing else of the
/// environment, and its result is `nil`.
pub proof fn lemma_step_inside(m: MachineView, reply: ReplyView, base: int)
    requires
        consistent(m),
        0 <= base < m.frames.len(),
        owns_scope(m.frames[base]),
    ensures
        ({
            let s = step(m, reply).state;
            let outer = 1 + scopes_open(m.frames.take(base));
            &&& s.frames.len() >= base
            &&& s.frames.take(base) == m.frames.take(base)
            &&& outer < m.env.len()
            &&& s.env.len() >= outer
            &&& forall|i: int| 0 <= i < outer ==> (#[trigger] s.env[i]).dom() == m.env[i].dom()
            &&& s.frames.len() > base ==> owns_scope(s.frames[base]) && s.env.len() > outer
            &&& s.frames.len() == base ==> s.env == m.env.drop_last() && m.env.len() == outer + 1
                && s.focus == FocusView::Return(ValueView::Nil)
        }),
{
    let s = step(m, reply).state;
    let outer = 1 + scopes_open(m.frames.take(base));
    lemma_scopes_open_take(m.frames, base);
    if crate::machine::answers(m.focus, reply) {
        match m.focus {
            FocusView::Run(stmt) => {
                if s.frames != m.frames {
                    assert(s.frames =~= m.frames.push(s.frames.last()));
                }
                assert(s.frames.take(base) =~= m.frames.take(base));
            },
            FocusView::Eval(e) => {
                if s.frames != m.frames {
                    assert(s.frames =~= m.frames.push(s.frames.last()));
                }
                assert(s.frames.take(base) =~= m.frames.take(base));
            },
            FocusView::Return(v) => {
                let top = m.frames.last();
                let below = m.frames.drop_last();
                let rest = MachineView { frames: below, ..m };
                assert(deliver(rest, top, v).state == s);
                lemma_scopes_open_push(below, top);
                assert(below.push(top) =~= m.frames);
                if let FrameView::Assign(name) = top {
                    lemma_holder(m.env, name);
                    match assigned(m.env, name, v) {
                        Some(after) => {
                            let i = holder(m.env, name)->0;
                            assert(after[i].dom() =~= m.env[i].dom());
                        },
                        None => {},
                    }
                }
                if m.frames.len() - 1 > base {
                    assert(!is_root(top));
                    lemma_scopes_open_take(below, base);
                    assert(below.take(base) =~= m.frames.take(base));
                    if s.frames != below {
                        assert(s.frames =~= below.push(s.frames.last()));
                    }
                    assert(s.frames.take(base) =~= m.frames.take(base));
                    assert(s.frames[base] == m.frames[base]);
                } else {
                    assert(below =~= m.frames.take(base));
                    if s.frames != below {
                        assert(s.frames =~= below.push(s.frames.last()));
                    }
                    assert(s.frames.take(base) =~= m.frames.take(base));
                }
            },
            _ => {
                assert(s.frames.take(base) =~= m.frames.take(base));
            },
        }
    }
}

/// Inside a block: as long as the frame stack has stayed higher than it was
/// when the machine turned to the block, the frames below are as they were,
/// the block's frame stands on them, and none of the scopes that were open
/// has gained or lost a name.
pub proof fn lemma_inside_block(
    m: MachineView,
    items: Seq<StmtView>,
    replies: Seq<ReplyView>,
    k: int,
)
    requires
        consistent(m),
        m.focus == FocusView::Run(StmtView::Block(items)),
        1 <= k <= replies.len(),
        forall|j: int|
            1 <= j <= k ==> (#[trigger] run(m, replies.take(j))).frames.len() > m.frames.len(),
    ensures
        ({
            let inside = run(m, replies.take(k));
            &&& consistent(inside)
            &&& inside.frames.take(m.frames.len() as int) == m.frames
            &&& owns_scope(inside.frames[m.frames.len() as int])
            &&& inside.env.len() > m.env.len()
            &&& forall|i: int|
                0 <= i < m.env.len() ==> (#[trigger] inside.env[i]).dom() == m.env[i].dom()
        }),
    decreases k,
{
    let base = m.frames.len() as int;
    let now = replies.take(k);
    let before = run(m, now.drop_last());
    assert(now.last() == replies[k - 1]);
    assert(now.drop_last() =~= replies.take(k - 1));
    assert(run(m, now) == step(before, replies[k - 1]).state);
    if k == 1 {
        assert(before == m);
        let inside = run(m, now);
        assert(inside.frames.len() > m.frames.len());
        assert(inside.frames =~= m.frames.push(FrameView::Block(items, 0)));
        assert(inside.frames.take(base) =~= m.frames);
        lemma_step_consistent(m, replies[0]);
    } else {
        lemma_inside_block(m, items, replies, k - 1);
        lemma_step_inside(before, replies[k - 1], base);
        lemma_step_consistent(before, replies[k - 1]);
    }
}

/// A block never deletes an outer binding, and the scopes around it gain
/// none. Take the first state, after the machine has turned to a block,
/// in which the frame stack is no higher than it was before, the run not
/// having failed: the block has been left. Then the frames are as they
/// were, the result is `nil`, every scope that was open binds the names
/// that it bound before, and the environment is that of the last state
/// inside the block without the block's own scope: what the block assigned
/// to outer names stays assigned.
pub proof fn lemma_block_keeps_outer_names(
    m: MachineView,
    items: Seq<StmtView>,
    replies: Seq<ReplyView>,
)
    requires
        consistent(m),
        m.focus == FocusView::Run(StmtView::Block(items)),
        replies.len() >= 1,
        forall|j: int|
            1 <= j < replies.len() ==> (#[trigger] run(m, replies.take(j))).frames.len()
                > m.frames.len(),
        run(m, replies).frames.len() <= m.frames.len(),
        !(run(m, replies).focus is Finished),
    ensures
        run(m, replies).frames == m.frames,
        run(m, replies).focus == FocusView::Return(ValueView::Nil),
        names(run(m, replies).env) == names(m.env),
        run(m, replies).env == run(m, replies.drop_last()).env.drop_last(),
{
    let n = replies.len() as int;
    let base = m.frames.len() as int;
    let before = run(m, replies.drop_last());
    let after = run(m, replies);
    assert(after == step(before, replies.last()).state);
    if n == 1 {
        assert(before == m);
        assert(after.frames.len() > m.frames.len() || after.focus is Finished);
    } else {
        assert(replies.drop_last() =~= replies.take(n - 1));
        lemma_inside_block(m, items, replies, n - 1);
        lemma_step_inside(before, replies.last(), base);
        assert(after.frames =~= after.frames.take(base));
        assert(names(after.env) =~= names(m.env));
    }
}

/// Whether an evaluation that began in `before` and ended with a value has
/// kept the names of every scope but the innermost. That one it has left,
/// where `dropped` is 1; where it is 0, the innermost scope is still there
/// and has lost no name.
pub open spec fn kept_names(before: Seq<Scope>, effect: Effect, dropped: nat) -> bool {
    effect.ending is Value ==> {
        &&& effect.env.len() + dropped == before.len()
        &&& forall|i: int|
            0 <= i < before.len() - 1 ==> (#[trigger] effect.env[i]).dom() == before[i].dom()
        &&& dropped == 0 ==> before.last().dom().subset_of(effect.env.last().dom())
    }
}

/// No expression takes a name from a scope, or gives one to a scope other
/// than the innermost.
pub proof fn lemma_expr_keeps_names(host: Host, e: ExprView, env: Seq<Scope>, rounds: nat)
    requires
        env.len() >= 1,
    ensures
        kept_names(env, eval_expr(host, e, env, rounds), 0),
    decreases rounds, e, 0nat,
{
    match e {
        ExprView::Literal(_) => {},
        ExprView::Group(inner) => {
            lemma_stmt_keeps_names(host, *inner, env, rounds);
        },
        ExprView::Unary(_, operand) => {
            lemma_expr_keeps_names(host, *operand, env, rounds);
        },
        ExprView::Binary(left, _, right) => {
            lemma_expr_keeps_names(host, *left, env, rounds);
            let l = eval_expr(host, *left, env, rounds);
            if l.ending is Value {
                lemma_expr_keeps_names(host, *right, l.env, rounds);
            }
        },
    }
}

/// The statements of a block take no name from a scope around the block
/// and give none to it.
pub proof fn lemma_items_keep_names(
    host: Host,
    items: Seq<StmtView>,
    from: nat,
    env: Seq<Scope>,
    rounds: nat,
)
    requires
        env.len() >= 2,
    ensures
        kept_names(env, eval_items(host, items, from, env, rounds), 1),
    decreases rounds, items, items.len() - from,
{
    if from < items.len() {
        lemma_stmt_keeps_names(host, items[from as int], env, rounds);
        let first = eval_stmt(host, items[from as int], env, rounds);
        if first.ending is Value {
            lemma_items_keep_names(host, items, from + 1, first.env, rounds);
        }
    }
}

/// The rounds of a `while` loop take no name from a scope, and give none to
/// a scope other than the innermost.
pub proof fn lemma_while_keeps_names(host: Host, s: StmtView, env: Seq<Scope>, rounds: nat)
    requires
        env.len() >= 1,
    ensures
        kept_names(env, eval_while(host, s, env, rounds), 0),
    decreases rounds, s, 0nat,
{
    match s {
        StmtView::While(condition, body) => {
            lemma_stmt_keeps_names(host, *condition, env, rounds);
            let test = eval_stmt(host, *condition, env, rounds);
            if test.ending is Value {
                lemma_stmt_keeps_names(host, *body, test.env, rounds);
                let round = eval_stmt(host, *body, test.env, rounds);
                if round.ending is Value && rounds > 0 {
                    lemma_while_keeps_names(host, s, round.env, (rounds - 1) as nat);
                }
            }
        },
        _ => {},
    }
}

/// A round of a `for` loop and those that follow take no name from a scope
/// around the loop and give none to it.
pub proof fn lemma_round_keeps_names(host: Host, s: StmtView, env: Seq<Scope>, rounds: nat)
    requires
        env.len() >= 2,
    ensures
        kept_names(env, eval_round(host, s, env, rounds), 1),
    decreases rounds, s, 0nat,
{
    match s {
        StmtView::For(_, _, increment, body) => {
            lemma_stmt_keeps_names(host, *body, env, rounds);
            let round = eval_stmt(host, *body, env, rounds);
            if round.ending is Value {
                let last = match increment {
                    Some(i) => {
                        lemma_stmt_keeps_names(host, *i, round.env, rounds);
                        eval_stmt(host, *i, round.env, rounds)
                    },
                    None => round,
                };
                if last.ending is Value && rounds > 0 {
                    lemma_for_keeps_names(host, s, last.env, (rounds - 1) as nat);
                }
            }
        },
        _ => {},
    }
}

/// The rounds of a `for` loop take no name from a scope around the loop
/// and give none to it.
pub proof fn lemma_for_keeps_names(host: Host, s: StmtView, env: Seq<Scope>, rounds: nat)
    requires
        env.len() >= 2,
    ensures
        kept_names(env, eval_for(host, s, env, rounds), 1),
    decreases rounds, s, 1nat,
{
    match s {
        StmtView::For(_, Some(condition), _, _) => {
            lemma_stmt_keeps_names(host, *condition, env, rounds);
            let test = eval_stmt(host, *condition, env, rounds);
            if test.ending is Value {
                lemma_round_keeps_names(host, s, test.env, rounds);
            }
        },
        StmtView::For(_, None, _, _) => {
            lemma_round_keeps_names(host, s, env, rounds);
        },
        _ => {},
    }
}

/// No statement takes a name from a scope, or gives one to a scope other
/// than the innermost.
pub proof fn lemma_stmt_keeps_names(host: Host, s: StmtView, env: Seq<Scope>, rounds: nat)
    requires
        env.len() >= 1,
    ensures
        kept_names(env, eval_stmt(host, s, env, rounds), 0),
    decreases rounds, s, 2nat,
{
    match s {
        StmtView::Expr(e) => {
            lemma_expr_keeps_names(host, e, env, rounds);
        },
        StmtView::Print(operand) => {
            lemma_stmt_keeps_names(host, *operand, env, rounds);
        },
        StmtView::Declare(_, Some(init)) => {
            lemma_stmt_keeps_names(host, *init, env, rounds);
        },
        StmtView::Declare(_, None) => {},
        StmtView::Assign(name, operand) => {
            lemma_stmt_keeps_names(host, *operand, env, rounds);
            let x = eval_stmt(host, *operand, env, rounds);
            match x.ending {
                Ending::Value(v) => {
                    lemma_assign_keeps_names(x.env, name, v);
                    lemma_holder(x.env, name);
                    match assigned(x.env, name, v) {
                        Some(changed) => {
                            assert(forall|i: int|
                                0 <= i < changed.len() ==> (#[trigger] changed[i]).dom() == names(
                                    changed,
                                )[i]);
                            assert(forall|i: int|
                                0 <= i < x.env.len() ==> (#[trigger] x.env[i]).dom() == names(
                                    x.env,
                                )[i]);
                        },
                        None => {},
                    }
                },
                _ => {},
            }
        },
        StmtView::Block(items) => {
            lemma_items_keep_names(host, items, 0, env.push(Map::empty()), rounds);
        },
        StmtView::If(condition, consequent, alternative) => {
            lemma_stmt_keeps_names(host, *condition, env, rounds);
            let test = eval_stmt(host, *condition, env, rounds);
            match test.ending {
                Ending::Value(v) => {
                    if truthy(v) {
                        lemma_stmt_keeps_names(host, *consequent, test.env, rounds);
                    } else {
                        match alternative {
                            Some(other) => {
                                lemma_stmt_keeps_names(host, *other, test.env, rounds);
                            },
                            None => {},
                        }
                    }
                },
                _ => {},
            }
        },
        StmtView::While(_, _) => {
            lemma_while_keeps_names(host, s, env, rounds);
        },
        StmtView::For(initializer, _, _, _) => {
            let inside = env.push(Map::empty());
            match initializer {
                Some(init) => {
                    lemma_stmt_keeps_names(host, *init, inside, rounds);
                    let first = eval_stmt(host, *init, inside, rounds);
                    if first.ending is Value {
                        lemma_for_keeps_names(host, s, first.env, rounds);
                    }
                },
                None => {
                    lemma_for_keeps_names(host, s, inside, rounds);
                },
            }
        },
    }
}

/// Scope visibility. A block that runs to its end leaves every scope
/// around it with the names it had: the block deletes no binding of theirs
/// and what it defines is gone with its own scope. What it assigned to
/// their names stays: the environment after the block is the one in which
/// its last statement ended, without the block's scope.
pub proof fn lemma_block_scope(host: Host, items: Seq<StmtView>, env: Seq<Scope>, rounds: nat)
    requires
        env.len() >= 1,
        eval_stmt(host, StmtView::Block(items), env, rounds).ending is Value,
    ensures
        names(eval_stmt(host, StmtView::Block(items), env, rounds).env) == names(env),
{
    let inside = env.push(Map::empty());
    let effect = eval_items(host, items, 0, inside, rounds);
    lemma_items_keep_names(host, items, 0, inside, rounds);
    assert(forall|i: int| 0 <= i < env.len() ==> inside[i] == env[i]);
    assert(names(effect.env) =~= names(env));
}

/// Whether the value of the left operand decides `and` or `or` without
/// the right one.
pub open spec fn decides(op: TokenType, left: Effect) -> bool {
    match left.ending {
        Ending::Value(a) => (op == TokenType::Or && truthy(a)) || (op == TokenType::And
            && !truthy(a)),
        _ => false,
    }
}

/// Short circuit. Where the left operand decides, `and` and `or` yield its
/// value, and nothing of the outcome depends on the right operand, whatever
/// it is: it is not evaluated.
pub proof fn lemma_right_operand_skipped(
    host: Host,
    left: ExprView,
    op: TokenView,
    right: ExprView,
    other: ExprView,
    env: Seq<Scope>,
    rounds: nat,
)
    requires
        decides(op.token_type, eval_expr(host, left, env, rounds)),
    ensures
        eval_expr(host, ExprView::Binary(Box::new(left), op, Box::new(right)), env, rounds)
            == eval_expr(host, ExprView::Binary(Box::new(left), op, Box::new(other)), env, rounds),
        eval_expr(host, ExprView::Binary(Box::new(left), op, Box::new(right)), env, rounds).ending
            == eval_expr(host, left, env, rounds).ending,
        eval_expr(host, ExprView::Binary(Box::new(left), op, Box::new(right)), env, rounds).lines
            =~= eval_expr(host, left, env, rounds).lines,
        eval_expr(host, ExprView::Binary(Box::new(left), op, Box::new(right)), env, rounds).env
            == eval_expr(host, left, env, rounds).env,
{
}

/// `false and e` is `false` and `true or e` is `true`, whatever `e` is.
pub proof fn lemma_false_and_true_or(
    host: Host,
    left: TokenView,
    op: TokenView,
    right: ExprView,
    env: Seq<Scope>,
    rounds: nat,
)
    requires
        (left.token_type == TokenType::False && op.token_type == TokenType::And) || (
        left.token_type == TokenType::True && op.token_type == TokenType::Or),
    ensures
        eval_expr(
            host,
            ExprView::Binary(Box::new(ExprView::Literal(left)), op, Box::new(right)),
            env,
            rounds,
        ) == crate::meaning::gives(
            env,
            ValueView::Boolean(left.token_type == TokenType::True),
            3,
        ),
{
    reveal_with_fuel(eval_expr, 2);
    let whole = eval_expr(
        host,
        ExprView::Binary(Box::new(ExprView::Literal(left)), op, Box::new(right)),
        env,
        rounds,
    );
    assert(whole.lines =~= Seq::<Seq<char>>::empty());
}

} // verus!
