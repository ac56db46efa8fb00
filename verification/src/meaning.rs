//! What a program means, said in one piece: the value of an expression and
//! the effect of a statement, by recursion over the tree.
//!
//! The machine of [`crate::machine`] takes the same way in small steps;
//! [`crate::agreement`] proves that it arrives where this module says.
//!
//! A loop may run for ever. The functions here take a bound on the number
//! of times that loops go round, and say `Unfinished` where it is exceeded.

use vstd::prelude::*;
use crate::ast::ExprView;
use crate::ast::StmtView;
use crate::env::assigned;
use crate::env::defined;
use crate::env::lookup;
use crate::env::Scope;
use crate::error::RuntimeErrorView;
use crate::machine::arithmetic;
use crate::machine::compare;
use crate::machine::is_numeral;
use crate::machine::ArithOp;
use crate::token::unquoted;
use crate::token::TokenType;
use crate::token::TokenView;
use crate::value::number_negated;
use crate::value::plain_text;
use crate::value::truthy;
use crate::value::values_equal;
use crate::value::ValueView;

verus! {

/// What the host of the machine computes: the double of a numeral, the
/// result of an operation on doubles, the text of a double.
pub struct Host {
    pub parse: spec_fn(Seq<char>) -> u64,
    pub arithmetic: spec_fn(ArithOp, u64, u64) -> u64,
    pub format: spec_fn(u64) -> Seq<char>,
}

/// How an evaluation ends.
pub enum Ending {
    /// With a value.
    Value(ValueView),
    /// With an error, which ends the whole run.
    Error(RuntimeErrorView),
    /// Not within the bound on the rounds of loops.
    Unfinished,
}

/// What an evaluation does: the environment it leaves, the lines it
/// prints, the number of steps the machine takes for it, and how it ends.
pub struct Effect {
    pub env: Seq<Scope>,
    pub lines: Seq<Seq<char>>,
    pub steps: nat,
    pub ending: Ending,
}

/// An evaluation that gives `value` in `steps` steps and prints nothing.
pub open spec fn gives(env: Seq<Scope>, value: ValueView, steps: nat) -> Effect {
    Effect { env, lines: Seq::empty(), steps, ending: Ending::Value(value) }
}

/// An evaluation that fails in `steps` steps and prints nothing.
pub open spec fn fails(env: Seq<Scope>, error: RuntimeErrorView, steps: nat) -> Effect {
    Effect { env, lines: Seq::empty(), steps, ending: Ending::Error(error) }
}

/// An evaluation that does not finish.
pub open spec fn unfinished(env: Seq<Scope>) -> Effect {
    Effect { env, lines: Seq::empty(), steps: 0, ending: Ending::Unfinished }
}

/// `rest` after `first`: the lines of both, the steps of both, and
/// `steps` more; the environment and the ending of `rest`.
pub open spec fn after(first: Effect, steps: nat, rest: Effect) -> Effect {
    Effect {
        env: rest.env,
        lines: first.lines + rest.lines,
        steps: first.steps + steps + rest.steps,
        ending: rest.ending,
    }
}

/// `effect`, with `steps` more steps.
pub open spec fn with_steps(effect: Effect, steps: nat) -> Effect {
    Effect { steps: effect.steps + steps, ..effect }
}

/// Printing `value` after `first`: a line more; three steps for a number,
/// whose text the host makes, two for any other value.
pub open spec fn printed(host: Host, first: Effect, value: ValueView) -> Effect {
    match value {
        ValueView::Number(bits) => Effect {
            env: first.env,
            lines: first.lines.push((host.format)(bits)),
            steps: first.steps + 3,
            ending: Ending::Value(ValueView::Nil),
        },
        _ => Effect {
            env: first.env,
            lines: first.lines.push(plain_text(value)),
            steps: first.steps + 2,
            ending: Ending::Value(ValueView::Nil),
        },
    }
}

/// What a unary operator makes of its operand.
pub open spec fn unary_result(env: Seq<Scope>, op: TokenType, v: ValueView) -> Effect {
    match op {
        TokenType::Minus => match v {
            ValueView::Number(bits) => gives(env, ValueView::Number(number_negated(bits)), 1),
            _ => fails(env, RuntimeErrorView::OperandMustBeNumber, 1),
        },
        TokenType::Bang => gives(env, ValueView::Boolean(!truthy(v)), 1),
        _ => fails(env, RuntimeErrorView::UnsupportedUnary, 1),
    }
}

/// What a binary operator other than `and` and `or` makes of its operands.
pub open spec fn binary_result(
    host: Host,
    env: Seq<Scope>,
    op: TokenType,
    a: ValueView,
    b: ValueView,
) -> Effect {
    match op {
        TokenType::EqualEqual => gives(env, ValueView::Boolean(values_equal(a, b)), 1),
        TokenType::BangEqual => gives(env, ValueView::Boolean(!values_equal(a, b)), 1),
        TokenType::Plus => match (a, b) {
            (ValueView::Number(x), ValueView::Number(y)) => gives(
                env,
                ValueView::Number((host.arithmetic)(ArithOp::Add, x, y)),
                2,
            ),
            (ValueView::String(x), ValueView::String(y)) => gives(env, ValueView::String(x + y), 1),
            _ => fails(env, RuntimeErrorView::OperandsMustMatch, 1),
        },
        TokenType::Minus | TokenType::Star | TokenType::Slash => match (a, b) {
            (ValueView::Number(x), ValueView::Number(y)) => gives(
                env,
                ValueView::Number((host.arithmetic)(arithmetic(op), x, y)),
                2,
            ),
            _ => fails(env, RuntimeErrorView::OperandMustBeNumber, 1),
        },
        TokenType::Greater | TokenType::GreaterEqual | TokenType::Less | TokenType::LessEqual => match (
            a,
            b,
        ) {
            (ValueView::Number(x), ValueView::Number(y)) => gives(
                env,
                ValueView::Boolean(compare(op, x, y)),
                1,
            ),
            _ => fails(env, RuntimeErrorView::OperandMustBeNumber, 1),
        },
        _ => fails(env, RuntimeErrorView::UnsupportedBinary, 1),
    }
}

/// The value of a literal or of a name.
pub open spec fn literal_result(host: Host, env: Seq<Scope>, token: TokenView) -> Effect {
    match token.token_type {
        TokenType::Number => if is_numeral(token.lexeme) {
            gives(env, ValueView::Number((host.parse)(token.lexeme)), 2)
        } else {
            fails(env, RuntimeErrorView::UnsupportedLiteral, 1)
        },
        TokenType::String => gives(env, ValueView::String(unquoted(token.lexeme)), 1),
        TokenType::True => gives(env, ValueView::Boolean(true), 1),
        TokenType::False => gives(env, ValueView::Boolean(false), 1),
        TokenType::Nil => gives(env, ValueView::Nil, 1),
        TokenType::Identifier => match lookup(env, token.lexeme) {
            Some(v) => gives(env, v, 1),
            None => fails(env, RuntimeErrorView::UndefinedVariable(token.lexeme), 1),
        },
        _ => fails(env, RuntimeErrorView::UnsupportedLiteral, 1),
    }
}

/// The value of an expression. The operands of a binary operator are
/// evaluated from left to right; `and` and `or` evaluate their right
/// operand only where the left one does not decide.
pub open spec fn eval_expr(host: Host, e: ExprView, env: Seq<Scope>, rounds: nat) -> Effect
    decreases rounds, e, 0nat,
{
    match e {
        ExprView::Literal(token) => literal_result(host, env, token),
        ExprView::Group(inner) => with_steps(eval_stmt(host, *inner, env, rounds), 1),
        ExprView::Unary(op, operand) => {
            let x = eval_expr(host, *operand, env, rounds);
            match x.ending {
                Ending::Value(v) => after(x, 1, unary_result(x.env, op.token_type, v)),
                _ => with_steps(x, 1),
            }
        },
        ExprView::Binary(left, op, right) => {
            let l = eval_expr(host, *left, env, rounds);
            match l.ending {
                Ending::Value(a) => if (op.token_type == TokenType::Or && truthy(a)) || (
                op.token_type == TokenType::And && !truthy(a)) {
                    after(l, 1, gives(l.env, a, 1))
                } else {
                    let r = eval_expr(host, *right, l.env, rounds);
                    if op.token_type == TokenType::Or || op.token_type == TokenType::And {
                        after(l, 2, r)
                    } else {
                        match r.ending {
                            Ending::Value(b) => after(
                                after(l, 2, r),
                                0,
                                binary_result(host, r.env, op.token_type, a, b),
                            ),
                            _ => after(l, 2, r),
                        }
                    }
                },
                _ => with_steps(l, 1),
            }
        },
    }
}

/// The statements of a block from the one at `from` on, and the end of the
/// block's scope.
pub open spec fn eval_items(
    host: Host,
    items: Seq<StmtView>,
    from: nat,
    env: Seq<Scope>,
    rounds: nat,
) -> Effect
    decreases rounds, items, items.len() - from,
{
    if from >= items.len() {
        gives(env.drop_last(), ValueView::Nil, 1)
    } else {
        let first = eval_stmt(host, items[from as int], env, rounds);
        match first.ending {
            Ending::Value(_) => after(first, 1, eval_items(host, items, from + 1, first.env, rounds)),
            _ => with_steps(first, 1),
        }
    }
}

/// The rounds of a `while` loop, from the evaluation of its condition on.
pub open spec fn eval_while(host: Host, s: StmtView, env: Seq<Scope>, rounds: nat) -> Effect
    decreases rounds, s, 0nat,
{
    match s {
        StmtView::While(condition, body) => {
            let test = eval_stmt(host, *condition, env, rounds);
            match test.ending {
                Ending::Value(v) => if truthy(v) {
                    let round = eval_stmt(host, *body, test.env, rounds);
                    match round.ending {
                        Ending::Value(_) => if rounds == 0 {
                            unfinished(round.env)
                        } else {
                            after(
                                after(test, 1, round),
                                1,
                                eval_while(host, s, round.env, (rounds - 1) as nat),
                            )
                        },
                        _ => after(test, 1, round),
                    }
                } else {
                    after(test, 0, gives(test.env, ValueView::Nil, 1))
                },
                _ => test,
            }
        },
        _ => unfinished(env),
    }
}

/// A round of a `for` loop from its body on: the body, the increment, and
/// the rounds that follow.
pub open spec fn eval_round(host: Host, s: StmtView, env: Seq<Scope>, rounds: nat) -> Effect
    decreases rounds, s, 0nat,
{
    match s {
        StmtView::For(_, _, increment, body) => {
            let round = eval_stmt(host, *body, env, rounds);
            match round.ending {
                Ending::Value(_) => {
                    let stepped = match increment {
                        Some(i) => after(round, 1, eval_stmt(host, *i, round.env, rounds)),
                        None => round,
                    };
                    match stepped.ending {
                        Ending::Value(_) => if rounds == 0 {
                            unfinished(stepped.env)
                        } else {
                            after(stepped, 1, eval_for(host, s, stepped.env, (rounds - 1) as nat))
                        },
                        _ => stepped,
                    }
                },
                _ => round,
            }
        },
        _ => unfinished(env),
    }
}

/// The rounds of a `for` loop, from the evaluation of its condition on; of
/// its body, where it has no condition. The loop's scope ends with it.
pub open spec fn eval_for(host: Host, s: StmtView, env: Seq<Scope>, rounds: nat) -> Effect
    decreases rounds, s, 1nat,
{
    match s {
        StmtView::For(_, Some(condition), _, _) => {
            let test = eval_stmt(host, *condition, env, rounds);
            match test.ending {
                Ending::Value(v) => if truthy(v) {
                    after(test, 1, eval_round(host, s, test.env, rounds))
                } else {
                    after(test, 0, gives(test.env.drop_last(), ValueView::Nil, 1))
                },
                _ => test,
            }
        },
        StmtView::For(_, None, _, _) => eval_round(host, s, env, rounds),
        _ => unfinished(env),
    }
}

/// The effect of a statement, and the value it yields: that of its
/// expression or of its assignment, that of the branch taken by an `if`,
/// `nil` for every other statement.
pub open spec fn eval_stmt(host: Host, s: StmtView, env: Seq<Scope>, rounds: nat) -> Effect
    decreases rounds, s, 2nat,
{
    match s {
        StmtView::Expr(e) => with_steps(eval_expr(host, e, env, rounds), 1),
        StmtView::Print(operand) => {
            let x = eval_stmt(host, *operand, env, rounds);
            match x.ending {
                Ending::Value(v) => printed(host, with_steps(x, 1), v),
                _ => with_steps(x, 1),
            }
        },
        StmtView::Declare(name, Some(init)) => {
            let x = eval_stmt(host, *init, env, rounds);
            match x.ending {
                Ending::Value(v) => after(x, 1, gives(defined(x.env, name, v), ValueView::Nil, 1)),
                _ => with_steps(x, 1),
            }
        },
        StmtView::Declare(name, None) => gives(
            defined(env, name, ValueView::Nil),
            ValueView::Nil,
            1,
        ),
        StmtView::Assign(name, operand) => {
            let x = eval_stmt(host, *operand, env, rounds);
            match x.ending {
                Ending::Value(v) => match assigned(x.env, name, v) {
                    Some(changed) => after(x, 1, gives(changed, v, 1)),
                    None => after(x, 1, fails(x.env, RuntimeErrorView::UndefinedVariable(name), 1)),
                },
                _ => with_steps(x, 1),
            }
        },
        StmtView::Block(items) => with_steps(
            eval_items(host, items, 0, env.push(Map::empty()), rounds),
            1,
        ),
        StmtView::If(condition, consequent, alternative) => {
            let test = eval_stmt(host, *condition, env, rounds);
            match test.ending {
                Ending::Value(v) => if truthy(v) {
                    after(test, 2, eval_stmt(host, *consequent, test.env, rounds))
                } else {
                    match alternative {
                        Some(other) => after(test, 2, eval_stmt(host, *other, test.env, rounds)),
                        None => after(test, 1, gives(test.env, ValueView::Nil, 1)),
                    }
                },
                _ => with_steps(test, 1),
            }
        },
        StmtView::While(_, _) => with_steps(eval_while(host, s, env, rounds), 1),
        StmtView::For(initializer, _, _, _) => {
            let inside = env.push(Map::empty());
            match initializer {
                Some(init) => {
                    let first = eval_stmt(host, *init, inside, rounds);
                    match first.ending {
                        Ending::Value(_) => after(first, 2, eval_for(host, s, first.env, rounds)),
                        _ => with_steps(first, 1),
                    }
                },
                None => with_steps(eval_for(host, s, inside, rounds), 1),
            }
        },
    }
}

/// The statements of a program from the one at `from` on, run one after
/// the other in one environment.
pub open spec fn eval_program(
    host: Host,
    program: Seq<StmtView>,
    from: nat,
    env: Seq<Scope>,
    rounds: nat,
) -> Effect
    decreases program.len() - from,
{
    if from >= program.len() {
        gives(env, ValueView::Nil, 1)
    } else {
        let first = eval_stmt(host, program[from as int], env, rounds);
        match first.ending {
            Ending::Value(_) => after(
                first,
                1,
                eval_program(host, program, from + 1, first.env, rounds),
            ),
            _ => with_steps(first, 1),
        }
    }
}

/// The statements of a program from the one at `from` on, each evaluated
/// as an expression in an environment of its own, and its value printed. A
/// statement that is no expression ends the evaluation with an error.
pub open spec fn eval_listing(host: Host, program: Seq<StmtView>, from: nat, rounds: nat)
    -> Effect
    decreases program.len() - from,
{
    let fresh = seq![Map::<Seq<char>, ValueView>::empty()];
    if from >= program.len() {
        gives(fresh, ValueView::Nil, 1)
    } else {
        match program[from as int] {
            StmtView::Expr(e) => {
                let x = eval_expr(host, e, fresh, rounds);
                match x.ending {
                    Ending::Value(v) => after(
                        printed(host, with_steps(x, 1), v),
                        0,
                        eval_listing(host, program, from + 1, rounds),
                    ),
                    _ => with_steps(x, 1),
                }
            },
            _ => fails(fresh, RuntimeErrorView::NotAnExpression, 1),
        }
    }
}

} // verus!
