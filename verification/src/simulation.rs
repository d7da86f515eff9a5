//! The machine does what programs mean: from a state in which the
//! evaluation of an expression or the execution of a statement is the next
//! task, it arrives in the given number of steps at the state that the
//! meaning describes.

use vstd::prelude::*;
use crate::ast::{ExprView, LiteralView, StmtView};
use crate::evaluation::{
    applied,
    bind_arguments,
    call,
    eval,
    exec,
    exec_list,
    hosted_run,
    hosted_step,
    iterate,
    Big,
    Ending,
    Host,
    Hosted,
    Signal,
    World,
};
use crate::interpreter::{InterpreterView, TaskView};
use crate::semantics;
use crate::semantics::{unwound, Applied};
use crate::token::TokenView;
use crate::value::{RuntimeErrorView, ValueView};

verus! {

/// A machine that waits for nothing, with its host, in a world.
pub open spec fn hosted(tasks: Seq<TaskView>, result: ValueView, w: World) -> Hosted {
    Hosted {
        state: InterpreterView { env: w.env, tasks, result, pending: None },
        asked: w.asked,
        printed: w.printed,
        failed: None,
    }
}

/// A machine whose program has failed.
pub open spec fn crashed(w: World, e: RuntimeErrorView) -> Hosted {
    Hosted {
        state: InterpreterView {
            env: w.env,
            tasks: Seq::empty(),
            result: ValueView::Nil,
            pending: None,
        },
        asked: w.asked,
        printed: w.printed,
        failed: Some(e),
    }
}

/// Where the machine is after an evaluation that began with `tasks` below
/// it: back at those tasks with the value as result, or failed.
pub open spec fn evaluated(tasks: Seq<TaskView>, b: Big<ValueView>) -> Hosted {
    match b.ending {
        Ending::Done(v) => hosted(tasks, v, b.world),
        Ending::Error(e) => crashed(b.world, e),
        Ending::Exhausted => arbitrary(),
    }
}

/// Running `n` and then `m` steps is running `n + m` steps.
pub proof fn lemma_run_split(h: Hosted, host: Host, n: nat, m: nat)
    ensures
        hosted_run(h, host, n + m) == hosted_run(hosted_run(h, host, n), host, m),
    decreases n,
{
    if n > 0 {
        lemma_run_split(hosted_step(h, host), host, (n - 1) as nat, m);
        assert(hosted_run(h, host, n + m) == hosted_run(
            hosted_step(h, host),
            host,
            (n + m - 1) as nat,
        ));
    }
}

/// The steps of an evaluation that begins with one step to `next`.
proof fn lemma_first(h: Hosted, host: Host, next: Hosted, n: nat)
    requires
        hosted_step(h, host) == next,
    ensures
        hosted_run(h, host, n + 1) == hosted_run(next, host, n),
{
    assert(hosted_run(h, host, n + 1) == hosted_run(hosted_step(h, host), host, n));
}

/// What applying an operator leads to in the machine.
#[verifier::rlimit(50)]
#[verifier::spinoff_prover]
proof fn lemma_applied(tasks: Seq<TaskView>, result: ValueView, a: Applied, w: World, host: Host)
    ensures
        ({
            let (next, action) = semantics::apply(
                InterpreterView { env: w.env, tasks, result, pending: None },
                a,
            );
            let h = Hosted {
                state: next,
                asked: w.asked,
                printed: w.printed,
                failed: match action {
                    crate::interpreter::ActionView::Failed(e) => Some(e),
                    _ => None,
                },
            };
            hosted_run(h, host, applied(a, w, host, 0).steps) == evaluated(
                tasks,
                applied(a, w, host, 0),
            )
        }),
{
    let s = InterpreterView { env: w.env, tasks, result, pending: None };
    let (next, action) = semantics::apply(s, a);
    let h = Hosted {
        state: next,
        asked: w.asked,
        printed: w.printed,
        failed: match action {
            crate::interpreter::ActionView::Failed(e) => Some(e),
            _ => None,
        },
    };
    match a {
        Applied::Value(v) => {},
        Applied::Ask(r) => {
            let h1 = hosted_step(h, host);
            lemma_first(h, host, h1, 0);
        },
        Applied::Compare(r, negate) => {
            let h1 = hosted_step(h, host);
            let h2 = hosted_step(h1, host);
            assert(h1.state.tasks =~= tasks.push(TaskView::Equality(negate)));
            assert(h2.state.tasks =~= tasks);
            lemma_first(h1, host, h2, 0);
            lemma_first(h, host, h1, 1);
        },
        Applied::Error(message, line) => {},
    }
}

/// Where the machine is after a statement that began with `tasks` below
/// it: back at those tasks, or at those under the call that a `return`
/// has ended, or failed. A `return` outside any call fails the program.
pub open spec fn executed(tasks: Seq<TaskView>, b: Big<Signal>) -> Hosted {
    match b.ending {
        Ending::Done(Signal::Normal) => hosted(tasks, ValueView::Nil, b.world),
        Ending::Done(Signal::Return(v)) => match unwound(tasks) {
            Some(rest) => hosted(rest, v, b.world),
            None => crashed(b.world, RuntimeErrorView::Return(v)),
        },
        Ending::Error(e) => crashed(b.world, e),
        Ending::Exhausted => arbitrary(),
    }
}

/// Whether none of the tasks is the end of a call.
pub open spec fn no_boundary(tasks: Seq<TaskView>) -> bool {
    forall|i: int| 0 <= i < tasks.len() ==> !(#[trigger] tasks[i] is Boundary)
}

/// A `return` passes over tasks among which no call ends.
proof fn lemma_unwound_over(tasks: Seq<TaskView>, over: Seq<TaskView>)
    requires
        no_boundary(over),
    ensures
        unwound(tasks + over) == unwound(tasks),
    decreases over.len(),
{
    if over.len() == 0 {
        assert(tasks + over =~= tasks);
    } else {
        assert((tasks + over).drop_last() =~= tasks + over.drop_last());
        assert((tasks + over).last() == over.last());
        lemma_unwound_over(tasks, over.drop_last());
    }
}

/// The tasks for statements are the task for the first on top of those
/// for the rest.
proof fn lemma_statements(stmts: Seq<StmtView>, scope: usize)
    requires
        stmts.len() > 0,
    ensures
        semantics::statements(stmts, scope) == semantics::statements(
            stmts.drop_first(),
            scope,
        ).push(TaskView::Execute(stmts[0], scope)),
        no_boundary(semantics::statements(stmts, scope)),
{
    assert(semantics::statements(stmts, scope) =~= semantics::statements(
        stmts.drop_first(),
        scope,
    ).push(TaskView::Execute(stmts[0], scope)));
}

/// The tasks for arguments are those for the first on top of those for
/// the rest.
#[verifier::rlimit(50)]
#[verifier::spinoff_prover]
proof fn lemma_arguments(
    params: Seq<TokenView>,
    args: Seq<ExprView>,
    scope: usize,
    inner: usize,
)
    requires
        args.len() > 0,
        params.len() == args.len(),
    ensures
        semantics::arguments(params, args, scope, inner) == semantics::arguments(
            params.drop_first(),
            args.drop_first(),
            scope,
            inner,
        ).push(TaskView::Bind(params[0].lexeme, inner)).push(TaskView::Evaluate(args[0], scope)),
{
    let all = semantics::arguments(params, args, scope, inner);
    let rest = semantics::arguments(params.drop_first(), args.drop_first(), scope, inner);
    let n = args.len() as int;
    assert(all.len() == rest.len() + 2);
    assert forall|k: int| 0 <= k < rest.len() implies all[k] == rest[k] by {
        assert(args.drop_first()[n - 2 - k / 2] == args[n - 1 - k / 2]);
        assert(params.drop_first()[n - 2 - k / 2] == params[n - 1 - k / 2]);
    }
    assert((2 * n - 2) % 2 == 0 && (2 * n - 2) / 2 == n - 1);
    assert((2 * n - 1) % 2 == 1 && (2 * n - 1) / 2 == n - 1);
    assert(all =~= rest.push(TaskView::Bind(params[0].lexeme, inner)).push(
        TaskView::Evaluate(args[0], scope),
    ));
}

/// From a state in which the evaluation of an expression is the next
/// task, the machine arrives in the steps of the meaning at its end: the
/// tasks below are left, the value is the result, and the world is the one
/// after the evaluation; or the program has failed with its error.
pub proof fn lemma_eval(
    tasks: Seq<TaskView>,
    result: ValueView,
    e: ExprView,
    scope: usize,
    w: World,
    host: Host,
    fuel: nat,
)
    ensures
        !(eval(e, scope, w, host, fuel).ending is Exhausted) ==> hosted_run(
            hosted(tasks.push(TaskView::Evaluate(e, scope)), result, w),
            host,
            eval(e, scope, w, host, fuel).steps,
        ) == evaluated(tasks, eval(e, scope, w, host, fuel)),
    decreases fuel, 1nat,
{
    if fuel > 0 {
        match e {
            ExprView::Literal(l) => {
                lemma_eval_simple(tasks, result, e, scope, w, host, fuel);
            },
            ExprView::Grouping(inner) => {
                lemma_eval_grouping(tasks, result, *inner, scope, w, host, fuel);
            },
            ExprView::Unary(op, inner) => {
                lemma_eval_unary(tasks, result, op, *inner, scope, w, host, fuel);
            },
            ExprView::Binary(left, op, right) => {
                lemma_eval_binary(tasks, result, *left, op, *right, scope, w, host, fuel);
            },
            ExprView::Variable(name) => {
                lemma_eval_simple(tasks, result, e, scope, w, host, fuel);
            },
            ExprView::Assign(name, inner) => {
                lemma_eval_assign(tasks, result, name, *inner, scope, w, host, fuel);
            },
            ExprView::Logical(left, op, right) => {
                lemma_eval_logical(tasks, result, *left, op, *right, scope, w, host, fuel);
            },
            ExprView::Call(callee, paren, args) => {
                lemma_eval_call(tasks, result, *callee, paren, args, scope, w, host, fuel);
            },
        }
    }
}

/// Evaluating a literal or a variable.
proof fn lemma_eval_simple(
    tasks: Seq<TaskView>,
    result: ValueView,
    e: ExprView,
    scope: usize,
    w: World,
    host: Host,
    fuel: nat,
)
    requires
        fuel > 0,
        e is Literal || e is Variable,
    ensures
        hosted_run(
            hosted(tasks.push(TaskView::Evaluate(e, scope)), result, w),
            host,
            eval(e, scope, w, host, fuel).steps,
        ) == evaluated(tasks, eval(e, scope, w, host, fuel)),
{
    let h0 = hosted(tasks.push(TaskView::Evaluate(e, scope)), result, w);
    let h1 = hosted_step(h0, host);
    assert(h0.state.tasks.drop_last() =~= tasks);
    match e {
        ExprView::Literal(l) => {
            match l {
                LiteralView::Number(text) => {
                    let h2 = hosted_step(h1, host);
                    lemma_first(h1, host, h2, 0);
                    lemma_first(h0, host, h1, 1);
                },
                _ => {
                    lemma_first(h0, host, h1, 0);
                },
            }
        },
        _ => {
            lemma_first(h0, host, h1, 0);
        },
    }
}

/// Evaluating an expression in parentheses.
proof fn lemma_eval_grouping(
    tasks: Seq<TaskView>,
    result: ValueView,
    inner: ExprView,
    scope: usize,
    w: World,
    host: Host,
    fuel: nat,
)
    requires
        fuel > 0,
    ensures
        ({
            let e = ExprView::Grouping(Box::new(inner));
            !(eval(e, scope, w, host, fuel).ending is Exhausted) ==> hosted_run(
                hosted(tasks.push(TaskView::Evaluate(e, scope)), result, w),
                host,
                eval(e, scope, w, host, fuel).steps,
            ) == evaluated(tasks, eval(e, scope, w, host, fuel))
        }),
    decreases fuel, 0nat,
{
    let e = ExprView::Grouping(Box::new(inner));
    let h0 = hosted(tasks.push(TaskView::Evaluate(e, scope)), result, w);
    let rest = (fuel - 1) as nat;
    let h1 = hosted_step(h0, host);
    assert(h0.state.tasks.drop_last() =~= tasks);
    let a = eval(inner, scope, w, host, rest);
    assert(h1.state.tasks =~= tasks.push(TaskView::Evaluate(inner, scope)));
    assert(h1 == hosted(tasks.push(TaskView::Evaluate(inner, scope)), result, w));
    lemma_eval(tasks, result, inner, scope, w, host, rest);
    lemma_first(h0, host, h1, a.steps);
}

/// Evaluating a unary operation.
#[verifier::rlimit(50)]
#[verifier::spinoff_prover]
proof fn lemma_eval_unary(
    tasks: Seq<TaskView>,
    result: ValueView,
    op: TokenView,
    inner: ExprView,
    scope: usize,
    w: World,
    host: Host,
    fuel: nat,
)
    requires
        fuel > 0,
    ensures
        ({
            let e = ExprView::Unary(op, Box::new(inner));
            !(eval(e, scope, w, host, fuel).ending is Exhausted) ==> hosted_run(
                hosted(tasks.push(TaskView::Evaluate(e, scope)), result, w),
                host,
                eval(e, scope, w, host, fuel).steps,
            ) == evaluated(tasks, eval(e, scope, w, host, fuel))
        }),
    decreases fuel, 0nat,
{
    let e = ExprView::Unary(op, Box::new(inner));
    let big = eval(e, scope, w, host, fuel);
    let h0 = hosted(tasks.push(TaskView::Evaluate(e, scope)), result, w);
    if !(big.ending is Exhausted) {
        let rest = (fuel - 1) as nat;
        let h1 = hosted_step(h0, host);
        assert(h0.state.tasks.drop_last() =~= tasks);
        let a = eval(inner, scope, w, host, rest);
        let middle = tasks.push(TaskView::Unary(op));
        assert(h1.state.tasks =~= middle.push(TaskView::Evaluate(inner, scope)));
        assert(h1 == hosted(middle.push(TaskView::Evaluate(inner, scope)), result, w));
        lemma_eval(middle, result, inner, scope, w, host, rest);
        lemma_first(h0, host, h1, a.steps);
        match a.ending {
            Ending::Done(v) => {
                let h2 = hosted(middle, v, a.world);
                let h3 = hosted_step(h2, host);
                let x = semantics::unary(op, v);
                assert(h2.state.tasks.drop_last() =~= tasks);
                lemma_applied(tasks, v, x, a.world, host);
                let n = applied(x, a.world, host, 0).steps;
                lemma_run_split(h0, host, a.steps + 1, 1 + n);
                lemma_first(h2, host, h3, n);
                assert(a.steps + 1 + (1 + n) == big.steps);
            },
            _ => {},
        }
    }
}

/// Evaluating an assignment.
#[verifier::rlimit(50)]
#[verifier::spinoff_prover]
proof fn lemma_eval_assign(
    tasks: Seq<TaskView>,
    result: ValueView,
    name: TokenView,
    inner: ExprView,
    scope: usize,
    w: World,
    host: Host,
    fuel: nat,
)
    requires
        fuel > 0,
    ensures
        ({
            let e = ExprView::Assign(name, Box::new(inner));
            !(eval(e, scope, w, host, fuel).ending is Exhausted) ==> hosted_run(
                hosted(tasks.push(TaskView::Evaluate(e, scope)), result, w),
                host,
                eval(e, scope, w, host, fuel).steps,
            ) == evaluated(tasks, eval(e, scope, w, host, fuel))
        }),
    decreases fuel, 0nat,
{
    let e = ExprView::Assign(name, Box::new(inner));
    let big = eval(e, scope, w, host, fuel);
    let h0 = hosted(tasks.push(TaskView::Evaluate(e, scope)), result, w);
    if !(big.ending is Exhausted) {
        let rest = (fuel - 1) as nat;
        let h1 = hosted_step(h0, host);
        assert(h0.state.tasks.drop_last() =~= tasks);
        let a = eval(inner, scope, w, host, rest);
        let middle = tasks.push(TaskView::Assign(name, scope));
        assert(h1.state.tasks =~= middle.push(TaskView::Evaluate(inner, scope)));
        assert(h1 == hosted(middle.push(TaskView::Evaluate(inner, scope)), result, w));
        lemma_eval(middle, result, inner, scope, w, host, rest);
        lemma_first(h0, host, h1, a.steps);
        match a.ending {
            Ending::Done(v) => {
                let h2 = hosted(middle, v, a.world);
                let h3 = hosted_step(h2, host);
                assert(h2.state.tasks.drop_last() =~= tasks);
                lemma_run_split(h0, host, a.steps + 1, 1);
                lemma_first(h2, host, h3, 0);
            },
            _ => {},
        }
    }
}

/// Evaluating a call.
#[verifier::rlimit(50)]
#[verifier::spinoff_prover]
proof fn lemma_eval_call(
    tasks: Seq<TaskView>,
    result: ValueView,
    callee: ExprView,
    paren: TokenView,
    args: Seq<ExprView>,
    scope: usize,
    w: World,
    host: Host,
    fuel: nat,
)
    requires
        fuel > 0,
    ensures
        ({
            let e = ExprView::Call(Box::new(callee), paren, args);
            !(eval(e, scope, w, host, fuel).ending is Exhausted) ==> hosted_run(
                hosted(tasks.push(TaskView::Evaluate(e, scope)), result, w),
                host,
                eval(e, scope, w, host, fuel).steps,
            ) == evaluated(tasks, eval(e, scope, w, host, fuel))
        }),
    decreases fuel, 0nat,
{
    let e = ExprView::Call(Box::new(callee), paren, args);
    let big = eval(e, scope, w, host, fuel);
    let h0 = hosted(tasks.push(TaskView::Evaluate(e, scope)), result, w);
    if !(big.ending is Exhausted) {
        let rest = (fuel - 1) as nat;
        let h1 = hosted_step(h0, host);
        assert(h0.state.tasks.drop_last() =~= tasks);
        let a = eval(callee, scope, w, host, rest);
        let middle = tasks.push(TaskView::Call(paren, args, scope));
        assert(h1.state.tasks =~= middle.push(TaskView::Evaluate(callee, scope)));
        assert(h1 == hosted(middle.push(TaskView::Evaluate(callee, scope)), result, w));
        lemma_eval(middle, result, callee, scope, w, host, rest);
        lemma_first(h0, host, h1, a.steps);
        match a.ending {
            Ending::Done(f) => {
                let c = call(f, paren, args, scope, a.world, host, rest);
                lemma_call(tasks, f, paren, args, scope, a.world, host, rest);
                lemma_run_split(h0, host, a.steps + 1, c.steps + 1);
                assert(a.steps + 1 + (c.steps + 1) == big.steps);
            },
            _ => {},
        }
    }
}

/// Evaluating a binary operation.
#[verifier::rlimit(50)]
#[verifier::spinoff_prover]
proof fn lemma_eval_binary(
    tasks: Seq<TaskView>,
    result: ValueView,
    left: ExprView,
    op: TokenView,
    right: ExprView,
    scope: usize,
    w: World,
    host: Host,
    fuel: nat,
)
    requires
        fuel > 0,
    ensures
        ({
            let e = ExprView::Binary(Box::new(left), op, Box::new(right));
            !(eval(e, scope, w, host, fuel).ending is Exhausted) ==> hosted_run(
                hosted(tasks.push(TaskView::Evaluate(e, scope)), result, w),
                host,
                eval(e, scope, w, host, fuel).steps,
            ) == evaluated(tasks, eval(e, scope, w, host, fuel))
        }),
    decreases fuel, 0nat,
{
    let e = ExprView::Binary(Box::new(left), op, Box::new(right));
    let big = eval(e, scope, w, host, fuel);
    let h0 = hosted(tasks.push(TaskView::Evaluate(e, scope)), result, w);
    if !(big.ending is Exhausted) {
        let rest = (fuel - 1) as nat;
        let h1 = hosted_step(h0, host);
        assert(h0.state.tasks.drop_last() =~= tasks);
        let a = eval(left, scope, w, host, rest);
        let first = tasks.push(TaskView::BinaryRight(op, right, scope));
        assert(h1.state.tasks =~= first.push(TaskView::Evaluate(left, scope)));
        assert(h1 == hosted(first.push(TaskView::Evaluate(left, scope)), result, w));
        lemma_eval(first, result, left, scope, w, host, rest);
        lemma_first(h0, host, h1, a.steps);
        match a.ending {
            Ending::Done(l) => {
                let b = eval(right, scope, a.world, host, rest);
                let h2 = hosted(first, l, a.world);
                let h3 = hosted_step(h2, host);
                let second = tasks.push(TaskView::BinaryApply(op, l));
                assert(h2.state.tasks.drop_last() =~= tasks);
                assert(h3.state.tasks =~= second.push(TaskView::Evaluate(right, scope)));
                assert(h3 == hosted(
                    second.push(TaskView::Evaluate(right, scope)),
                    ValueView::Nil,
                    a.world,
                ));
                lemma_eval(second, ValueView::Nil, right, scope, a.world, host, rest);
                lemma_first(h2, host, h3, b.steps);
                lemma_run_split(h0, host, a.steps + 1, b.steps + 1);
                match b.ending {
                    Ending::Done(r) => {
                        let h4 = hosted(second, r, b.world);
                        let h5 = hosted_step(h4, host);
                        let x = semantics::binary(op, l, r);
                        assert(h4.state.tasks.drop_last() =~= tasks);
                        lemma_applied(tasks, r, x, b.world, host);
                        let n = applied(x, b.world, host, 0).steps;
                        lemma_first(h4, host, h5, n);
                        lemma_run_split(h0, host, a.steps + b.steps + 2, 1 + n);
                        assert(a.steps + b.steps + 2 + (1 + n) == big.steps);
                    },
                    _ => {},
                }
            },
            _ => {},
        }
    }
}

/// Evaluating `and` and `or`.
#[verifier::rlimit(50)]
#[verifier::spinoff_prover]
proof fn lemma_eval_logical(
    tasks: Seq<TaskView>,
    result: ValueView,
    left: ExprView,
    op: TokenView,
    right: ExprView,
    scope: usize,
    w: World,
    host: Host,
    fuel: nat,
)
    requires
        fuel > 0,
    ensures
        ({
            let e = ExprView::Logical(Box::new(left), op, Box::new(right));
            !(eval(e, scope, w, host, fuel).ending is Exhausted) ==> hosted_run(
                hosted(tasks.push(TaskView::Evaluate(e, scope)), result, w),
                host,
                eval(e, scope, w, host, fuel).steps,
            ) == evaluated(tasks, eval(e, scope, w, host, fuel))
        }),
    decreases fuel, 0nat,
{
    let e = ExprView::Logical(Box::new(left), op, Box::new(right));
    let big = eval(e, scope, w, host, fuel);
    let h0 = hosted(tasks.push(TaskView::Evaluate(e, scope)), result, w);
    if !(big.ending is Exhausted) {
        let rest = (fuel - 1) as nat;
        let h1 = hosted_step(h0, host);
        assert(h0.state.tasks.drop_last() =~= tasks);
        let a = eval(left, scope, w, host, rest);
        let first = tasks.push(TaskView::LogicalRight(op, right, scope));
        assert(h1.state.tasks =~= first.push(TaskView::Evaluate(left, scope)));
        assert(h1 == hosted(first.push(TaskView::Evaluate(left, scope)), result, w));
        lemma_eval(first, result, left, scope, w, host, rest);
        lemma_first(h0, host, h1, a.steps);
        match a.ending {
            Ending::Done(v) => {
                let h2 = hosted(first, v, a.world);
                let h3 = hosted_step(h2, host);
                assert(h2.state.tasks.drop_last() =~= tasks);
                let b = eval(right, scope, a.world, host, rest);
                let again = (op.token_type == crate::token::TokenType::Or && !crate::value::truthy(
                    v,
                )) || (op.token_type == crate::token::TokenType::And && crate::value::truthy(v));
                if again {
                    assert(h3.state.tasks =~= tasks.push(TaskView::Evaluate(right, scope)));
                    assert(h3 == hosted(tasks.push(TaskView::Evaluate(right, scope)), v, a.world));
                    lemma_eval(tasks, v, right, scope, a.world, host, rest);
                    lemma_first(h2, host, h3, b.steps);
                    lemma_run_split(h0, host, a.steps + 1, b.steps + 1);
                    assert(a.steps + 1 + (b.steps + 1) == big.steps);
                } else {
                    lemma_first(h2, host, h3, 0);
                    lemma_run_split(h0, host, a.steps + 1, 1);
                }
            },
            _ => {},
        }
    }
}

/// From a state in which the callee is the result and the call is the
/// next task, the machine arrives in one step and the steps of the call at
/// its end: the tasks below are left, and the result is what the call
/// returns; or the program has failed with its error.
pub proof fn lemma_call(
    tasks: Seq<TaskView>,
    f: ValueView,
    paren: TokenView,
    args: Seq<ExprView>,
    scope: usize,
    w: World,
    host: Host,
    fuel: nat,
)
    ensures
        !(call(f, paren, args, scope, w, host, fuel).ending is Exhausted) ==> hosted_run(
            hosted(tasks.push(TaskView::Call(paren, args, scope)), f, w),
            host,
            call(f, paren, args, scope, w, host, fuel).steps + 1,
        ) == evaluated(tasks, call(f, paren, args, scope, w, host, fuel)),
    decreases fuel, 1nat,
{
    let big = call(f, paren, args, scope, w, host, fuel);
    if !(big.ending is Exhausted) {
        match f {
            ValueView::Function(_, params, body, closure) => {
                if args.len() == params.len() {
                    lemma_call_function(tasks, f, paren, args, scope, w, host, fuel);
                } else {
                    lemma_call_simple(tasks, f, paren, args, scope, w, host, fuel);
                }
            },
            _ => {
                lemma_call_simple(tasks, f, paren, args, scope, w, host, fuel);
            },
        }
    }
}

/// A call that enters no function: of the clock, of a value that is no
/// function, or with the wrong number of arguments.
proof fn lemma_call_simple(
    tasks: Seq<TaskView>,
    f: ValueView,
    paren: TokenView,
    args: Seq<ExprView>,
    scope: usize,
    w: World,
    host: Host,
    fuel: nat,
)
    requires
        f matches ValueView::Function(_, params, _, _) ==> args.len() != params.len(),
    ensures
        hosted_run(
            hosted(tasks.push(TaskView::Call(paren, args, scope)), f, w),
            host,
            call(f, paren, args, scope, w, host, fuel).steps + 1,
        ) == evaluated(tasks, call(f, paren, args, scope, w, host, fuel)),
{
    let h0 = hosted(tasks.push(TaskView::Call(paren, args, scope)), f, w);
    let h1 = hosted_step(h0, host);
    assert(h0.state.tasks.drop_last() =~= tasks);
    match f {
        ValueView::NativeFunction(_) => {
            if args.len() != 0 {
                lemma_first(h0, host, h1, 0);
            } else {
                let h2 = hosted_step(h1, host);
                lemma_first(h1, host, h2, 0);
                lemma_first(h0, host, h1, 1);
            }
        },
        _ => {
            lemma_first(h0, host, h1, 0);
        },
    }
}

/// A call that enters a function.
#[verifier::rlimit(50)]
#[verifier::spinoff_prover]
proof fn lemma_call_function(
    tasks: Seq<TaskView>,
    f: ValueView,
    paren: TokenView,
    args: Seq<ExprView>,
    scope: usize,
    w: World,
    host: Host,
    fuel: nat,
)
    requires
        f matches ValueView::Function(_, params, _, _) && args.len() == params.len(),
        !(call(f, paren, args, scope, w, host, fuel).ending is Exhausted),
    ensures
        hosted_run(
            hosted(tasks.push(TaskView::Call(paren, args, scope)), f, w),
            host,
            call(f, paren, args, scope, w, host, fuel).steps + 1,
        ) == evaluated(tasks, call(f, paren, args, scope, w, host, fuel)),
    decreases fuel, 0nat,
{
    let big = call(f, paren, args, scope, w, host, fuel);
    let params = f->Function_1;
    let body = f->Function_2;
    let closure = f->Function_3;
    let h0 = hosted(tasks.push(TaskView::Call(paren, args, scope)), f, w);
    let h1 = hosted_step(h0, host);
    assert(h0.state.tasks.drop_last() =~= tasks);
    let rest = (fuel - 1) as nat;
    let inner = w.env.len() as usize;
    let w1 = crate::evaluation::with_env(w, semantics::enter(w.env, closure));
    let below = tasks.push(TaskView::Boundary).push(TaskView::Enter(body, inner));
    let a = bind_arguments(params, args, scope, inner, w1, host, rest);
    assert(h1.state.tasks =~= below + semantics::arguments(params, args, scope, inner));
    assert(h1 == hosted(
        below + semantics::arguments(params, args, scope, inner),
        ValueView::Nil,
        w1,
    ));
    lemma_bind_arguments(below, params, args, scope, inner, w1, host, rest);
    lemma_first(h0, host, h1, a.steps);
    match a.ending {
        Ending::Done(_) => {
            let n = (big.steps - a.steps) as nat;
            lemma_body(tasks, body, inner, a.world, host, rest);
            lemma_run_split(h0, host, a.steps + 1, n);
        },
        _ => {},
    }
}

/// The body of a call: from the state in which entering it is the next
/// task, above the end of the call.
#[verifier::rlimit(50)]
#[verifier::spinoff_prover]
proof fn lemma_body(
    tasks: Seq<TaskView>,
    body: Seq<StmtView>,
    inner: usize,
    w: World,
    host: Host,
    fuel: nat,
)
    ensures
        ({
            let block = w.env.len() as usize;
            let b = exec_list(
                body,
                block,
                crate::evaluation::with_env(w, semantics::enter(w.env, inner)),
                host,
                fuel,
            );
            let h = hosted(
                tasks.push(TaskView::Boundary).push(TaskView::Enter(body, inner)),
                ValueView::Nil,
                w,
            );
            match b.ending {
                Ending::Done(Signal::Normal) => hosted_run(h, host, b.steps + 2) == hosted(
                    tasks,
                    ValueView::Nil,
                    b.world,
                ),
                Ending::Done(Signal::Return(v)) => hosted_run(h, host, b.steps + 1) == hosted(
                    tasks,
                    v,
                    b.world,
                ),
                Ending::Error(e) => hosted_run(h, host, b.steps + 1) == crashed(b.world, e),
                Ending::Exhausted => true,
            }
        }),
    decreases fuel, 2nat,
{
    let block = w.env.len() as usize;
    let w2 = crate::evaluation::with_env(w, semantics::enter(w.env, inner));
    let b = exec_list(body, block, w2, host, fuel);
    let base = tasks.push(TaskView::Boundary);
    let h2 = hosted(base.push(TaskView::Enter(body, inner)), ValueView::Nil, w);
    let h3 = hosted_step(h2, host);
    assert(h2.state.tasks.drop_last() =~= base);
    assert(h3.state.tasks =~= base + semantics::statements(body, block));
    assert(h3 == hosted(base + semantics::statements(body, block), ValueView::Nil, w2));
    lemma_exec_list(base, body, block, w2, host, fuel);
    lemma_first(h2, host, h3, b.steps);
    match b.ending {
        Ending::Done(Signal::Normal) => {
            let h4 = hosted(base, ValueView::Nil, b.world);
            let h5 = hosted_step(h4, host);
            assert(h4.state.tasks.drop_last() =~= tasks);
            lemma_first(h4, host, h5, 0);
            lemma_run_split(h2, host, b.steps + 1, 1);
        },
        Ending::Done(Signal::Return(v)) => {
            assert(base.drop_last() =~= tasks);
        },
        _ => {},
    }
}

/// Evaluating and binding the arguments of a call.
#[verifier::rlimit(50)]
#[verifier::spinoff_prover]
proof fn lemma_bind_arguments(
    tasks: Seq<TaskView>,
    params: Seq<TokenView>,
    args: Seq<ExprView>,
    scope: usize,
    inner: usize,
    w: World,
    host: Host,
    fuel: nat,
)
    requires
        params.len() == args.len(),
    ensures
        ({
            let b = bind_arguments(params, args, scope, inner, w, host, fuel);
            let h = hosted_run(
                hosted(
                    tasks + semantics::arguments(params, args, scope, inner),
                    ValueView::Nil,
                    w,
                ),
                host,
                b.steps,
            );
            match b.ending {
                Ending::Done(_) => h == hosted(tasks, ValueView::Nil, b.world),
                Ending::Error(e) => h == crashed(b.world, e),
                Ending::Exhausted => true,
            }
        }),
    decreases fuel, 1nat,
{
    let big = bind_arguments(params, args, scope, inner, w, host, fuel);
    let all = semantics::arguments(params, args, scope, inner);
    let h0 = hosted(tasks + all, ValueView::Nil, w);
    if args.len() == 0 {
        assert(tasks + all =~= tasks);
    } else if fuel > 0 {
        let rest = (fuel - 1) as nat;
        lemma_arguments(params, args, scope, inner);
        let later = semantics::arguments(params.drop_first(), args.drop_first(), scope, inner);
        let middle = (tasks + later).push(TaskView::Bind(params[0].lexeme, inner));
        assert(tasks + all =~= middle.push(TaskView::Evaluate(args[0], scope)));
        let a = eval(args[0], scope, w, host, rest);
        lemma_eval(middle, ValueView::Nil, args[0], scope, w, host, rest);
        match a.ending {
            Ending::Done(v) => {
                let h2 = hosted(middle, v, a.world);
                let h3 = hosted_step(h2, host);
                let w1 = crate::evaluation::with_env(
                    a.world,
                    crate::environment::bind(a.world.env, inner as int, params[0].lexeme, Some(v)),
                );
                assert(h2.state.tasks.drop_last() =~= tasks + later);
                assert(h3 == hosted(tasks + later, ValueView::Nil, w1));
                let b = bind_arguments(
                    params.drop_first(),
                    args.drop_first(),
                    scope,
                    inner,
                    w1,
                    host,
                    rest,
                );
                lemma_bind_arguments(
                    tasks,
                    params.drop_first(),
                    args.drop_first(),
                    scope,
                    inner,
                    w1,
                    host,
                    rest,
                );
                lemma_first(h2, host, h3, b.steps);
                lemma_run_split(h0, host, a.steps, b.steps + 1);
                assert(a.steps + (b.steps + 1) == big.steps);
            },
            _ => {},
        }
    }
}

/// From a state in which the statements are the next tasks, the machine
/// arrives in the steps of their meaning at their end: the tasks below are
/// left; or the innermost call is left with the value that a statement
/// has returned; or the program has failed with its error.
#[verifier::rlimit(50)]
#[verifier::spinoff_prover]
pub proof fn lemma_exec_list(
    tasks: Seq<TaskView>,
    stmts: Seq<StmtView>,
    scope: usize,
    w: World,
    host: Host,
    fuel: nat,
)
    ensures
        !(exec_list(stmts, scope, w, host, fuel).ending is Exhausted) ==> hosted_run(
            hosted(tasks + semantics::statements(stmts, scope), ValueView::Nil, w),
            host,
            exec_list(stmts, scope, w, host, fuel).steps,
        ) == executed(tasks, exec_list(stmts, scope, w, host, fuel)),
    decreases fuel, 1nat,
{
    let big = exec_list(stmts, scope, w, host, fuel);
    let all = semantics::statements(stmts, scope);
    let h0 = hosted(tasks + all, ValueView::Nil, w);
    if stmts.len() == 0 {
        assert(tasks + all =~= tasks);
    } else if fuel > 0 && !(big.ending is Exhausted) {
        let rest = (fuel - 1) as nat;
        lemma_statements(stmts, scope);
        let later = semantics::statements(stmts.drop_first(), scope);
        assert(tasks + all =~= (tasks + later).push(TaskView::Execute(stmts[0], scope)));
        let a = exec(stmts[0], scope, w, host, rest);
        lemma_exec(tasks + later, ValueView::Nil, stmts[0], scope, w, host, rest);
        match a.ending {
            Ending::Done(Signal::Normal) => {
                let b = exec_list(stmts.drop_first(), scope, a.world, host, rest);
                lemma_exec_list(tasks, stmts.drop_first(), scope, a.world, host, rest);
                lemma_run_split(h0, host, a.steps, b.steps);
            },
            Ending::Done(Signal::Return(v)) => {
                if later.len() > 0 {
                    lemma_statements(stmts.drop_first(), scope);
                }
                lemma_unwound_over(tasks, later);
            },
            _ => {},
        }
    }
}

/// From a state in which the execution of a statement is the next task,
/// the machine arrives in the steps of the meaning at its end: the tasks
/// below are left; or the innermost call is left with the value that the
/// statement has returned; or the program has failed with its error.
#[verifier::rlimit(50)]
#[verifier::spinoff_prover]
pub proof fn lemma_exec(
    tasks: Seq<TaskView>,
    result: ValueView,
    stmt: StmtView,
    scope: usize,
    w: World,
    host: Host,
    fuel: nat,
)
    ensures
        !(exec(stmt, scope, w, host, fuel).ending is Exhausted) ==> hosted_run(
            hosted(tasks.push(TaskView::Execute(stmt, scope)), result, w),
            host,
            exec(stmt, scope, w, host, fuel).steps,
        ) == executed(tasks, exec(stmt, scope, w, host, fuel)),
    decreases fuel, 1nat,
{
    let big = exec(stmt, scope, w, host, fuel);
    let h0 = hosted(tasks.push(TaskView::Execute(stmt, scope)), result, w);
    if fuel > 0 && !(big.ending is Exhausted) {
        let rest = (fuel - 1) as nat;
        let h1 = hosted_step(h0, host);
        assert(h0.state.tasks.drop_last() =~= tasks);
        match stmt {
            StmtView::Expression(e) => {
                lemma_exec_after(tasks, result, stmt, TaskView::Discard, e, scope, w, host, fuel);
            },
            StmtView::Print(e) => {
                lemma_exec_after(tasks, result, stmt, TaskView::Print, e, scope, w, host, fuel);
            },
            StmtView::Var(name, init) => {
                match init {
                    Some(e) => {
                        lemma_exec_after(
                            tasks,
                            result,
                            stmt,
                            TaskView::Define(name, scope),
                            e,
                            scope,
                            w,
                            host,
                            fuel,
                        );
                    },
                    None => {
                        lemma_first(h0, host, h1, 0);
                    },
                }
            },
            StmtView::Block(stmts) => {
                let inner = w.env.len() as usize;
                let w1 = crate::evaluation::with_env(w, semantics::enter(w.env, scope));
                let a = exec_list(stmts, inner, w1, host, rest);
                assert(h1 == hosted(
                    tasks + semantics::statements(stmts, inner),
                    ValueView::Nil,
                    w1,
                ));
                lemma_exec_list(tasks, stmts, inner, w1, host, rest);
                lemma_first(h0, host, h1, a.steps);
            },
            StmtView::If(c, then_branch, else_branch) => {
                lemma_exec_if(tasks, result, c, then_branch, else_branch, scope, w, host, fuel);
            },
            StmtView::While(c, body) => {
                let a = iterate(c, None, *body, scope, w, host, rest);
                let below = tasks.push(TaskView::Loop(c, None, *body, scope));
                assert(h1.state.tasks =~= below.push(TaskView::Evaluate(c, scope)));
                assert(h1 == hosted(below.push(TaskView::Evaluate(c, scope)), ValueView::Nil, w));
                lemma_iterate(tasks, ValueView::Nil, c, None, *body, scope, w, host, rest);
                lemma_first(h0, host, h1, a.steps);
            },
            StmtView::For(init, c, step, body) => {
                lemma_exec_for(tasks, result, init, c, step, body, scope, w, host, fuel);
            },
            StmtView::Function(name, params, body) => {
                lemma_first(h0, host, h1, 0);
            },
            StmtView::Return(value) => {
                match value {
                    Some(e) => {
                        lemma_exec_after(
                            tasks,
                            result,
                            stmt,
                            TaskView::Unwind,
                            e,
                            scope,
                            w,
                            host,
                            fuel,
                        );
                    },
                    None => {
                        let h2 = hosted_step(h1, host);
                        assert(h1.state.tasks =~= tasks.push(TaskView::Unwind));
                        assert(h1.state.tasks.drop_last() =~= tasks);
                        lemma_first(h1, host, h2, 0);
                        lemma_first(h0, host, h1, 1);
                    },
                }
            },
        }
    }
}

/// Executing a statement that evaluates an expression and then does one
/// thing with its value.
#[verifier::rlimit(50)]
#[verifier::spinoff_prover]
proof fn lemma_exec_after(
    tasks: Seq<TaskView>,
    result: ValueView,
    stmt: StmtView,
    then: TaskView,
    e: ExprView,
    scope: usize,
    w: World,
    host: Host,
    fuel: nat,
)
    requires
        fuel > 0,
        (stmt == StmtView::Expression(e) && then == TaskView::Discard) || (stmt
            == StmtView::Print(e) && then == TaskView::Print) || (stmt matches StmtView::Var(
            name,
            Some(x),
        ) && x == e && then == TaskView::Define(name, scope)) || (stmt == StmtView::Return(Some(e))
            && then == TaskView::Unwind),
    ensures
        !(exec(stmt, scope, w, host, fuel).ending is Exhausted) ==> hosted_run(
            hosted(tasks.push(TaskView::Execute(stmt, scope)), result, w),
            host,
            exec(stmt, scope, w, host, fuel).steps,
        ) == executed(tasks, exec(stmt, scope, w, host, fuel)),
    decreases fuel, 0nat,
{
    let big = exec(stmt, scope, w, host, fuel);
    let h0 = hosted(tasks.push(TaskView::Execute(stmt, scope)), result, w);
    if !(big.ending is Exhausted) {
        let rest = (fuel - 1) as nat;
        let h1 = hosted_step(h0, host);
        assert(h0.state.tasks.drop_last() =~= tasks);
        let a = eval(e, scope, w, host, rest);
        let middle = tasks.push(then);
        assert(h1.state.tasks =~= middle.push(TaskView::Evaluate(e, scope)));
        assert(h1 == hosted(middle.push(TaskView::Evaluate(e, scope)), ValueView::Nil, w));
        lemma_eval(middle, ValueView::Nil, e, scope, w, host, rest);
        lemma_first(h0, host, h1, a.steps);
        match a.ending {
            Ending::Done(v) => {
                let h2 = hosted(middle, v, a.world);
                let h3 = hosted_step(h2, host);
                assert(h2.state.tasks.drop_last() =~= tasks);
                lemma_first(h2, host, h3, 0);
                lemma_run_split(h0, host, a.steps + 1, 1);
            },
            _ => {},
        }
    }
}

/// Executing an `if` statement.
#[verifier::rlimit(50)]
#[verifier::spinoff_prover]
proof fn lemma_exec_if(
    tasks: Seq<TaskView>,
    result: ValueView,
    c: ExprView,
    then_branch: Box<StmtView>,
    else_branch: Option<Box<StmtView>>,
    scope: usize,
    w: World,
    host: Host,
    fuel: nat,
)
    requires
        fuel > 0,
    ensures
        ({
            let stmt = StmtView::If(c, then_branch, else_branch);
            !(exec(stmt, scope, w, host, fuel).ending is Exhausted) ==> hosted_run(
                hosted(tasks.push(TaskView::Execute(stmt, scope)), result, w),
                host,
                exec(stmt, scope, w, host, fuel).steps,
            ) == executed(tasks, exec(stmt, scope, w, host, fuel))
        }),
    decreases fuel, 0nat,
{
    let stmt = StmtView::If(c, then_branch, else_branch);
    let big = exec(stmt, scope, w, host, fuel);
    let h0 = hosted(tasks.push(TaskView::Execute(stmt, scope)), result, w);
    if !(big.ending is Exhausted) {
        let rest = (fuel - 1) as nat;
        let h1 = hosted_step(h0, host);
        assert(h0.state.tasks.drop_last() =~= tasks);
        let a = eval(c, scope, w, host, rest);
        let middle = tasks.push(
            TaskView::Branch(*then_branch, semantics::unboxed(else_branch), scope),
        );
        assert(h1.state.tasks =~= middle.push(TaskView::Evaluate(c, scope)));
        assert(h1 == hosted(middle.push(TaskView::Evaluate(c, scope)), ValueView::Nil, w));
        lemma_eval(middle, ValueView::Nil, c, scope, w, host, rest);
        lemma_first(h0, host, h1, a.steps);
        match a.ending {
            Ending::Done(v) => {
                let h2 = hosted(middle, v, a.world);
                let h3 = hosted_step(h2, host);
                assert(h2.state.tasks.drop_last() =~= tasks);
                lemma_run_split(h0, host, a.steps + 1, (big.steps - a.steps - 1) as nat);
                if crate::value::truthy(v) {
                    let b = exec(*then_branch, scope, a.world, host, rest);
                    assert(h3.state.tasks =~= tasks.push(TaskView::Execute(*then_branch, scope)));
                    assert(h3 == hosted(
                        tasks.push(TaskView::Execute(*then_branch, scope)),
                        ValueView::Nil,
                        a.world,
                    ));
                    lemma_exec(tasks, ValueView::Nil, *then_branch, scope, a.world, host, rest);
                    lemma_first(h2, host, h3, b.steps);
                } else {
                    match else_branch {
                        Some(other) => {
                            let b = exec(*other, scope, a.world, host, rest);
                            assert(h3.state.tasks =~= tasks.push(TaskView::Execute(*other, scope)));
                            assert(h3 == hosted(
                                tasks.push(TaskView::Execute(*other, scope)),
                                ValueView::Nil,
                                a.world,
                            ));
                            lemma_exec(tasks, ValueView::Nil, *other, scope, a.world, host, rest);
                            lemma_first(h2, host, h3, b.steps);
                        },
                        None => {
                            lemma_first(h2, host, h3, 0);
                        },
                    }
                }
            },
            _ => {},
        }
    }
}

/// Executing a `for` statement.
#[verifier::rlimit(50)]
#[verifier::spinoff_prover]
proof fn lemma_exec_for(
    tasks: Seq<TaskView>,
    result: ValueView,
    init: Option<Box<StmtView>>,
    c: Option<ExprView>,
    step: Option<ExprView>,
    body: Box<StmtView>,
    scope: usize,
    w: World,
    host: Host,
    fuel: nat,
)
    requires
        fuel > 0,
    ensures
        ({
            let stmt = StmtView::For(init, c, step, body);
            !(exec(stmt, scope, w, host, fuel).ending is Exhausted) ==> hosted_run(
                hosted(tasks.push(TaskView::Execute(stmt, scope)), result, w),
                host,
                exec(stmt, scope, w, host, fuel).steps,
            ) == executed(tasks, exec(stmt, scope, w, host, fuel))
        }),
    decreases fuel, 0nat,
{
    let stmt = StmtView::For(init, c, step, body);
    let big = exec(stmt, scope, w, host, fuel);
    let h0 = hosted(tasks.push(TaskView::Execute(stmt, scope)), result, w);
    if !(big.ending is Exhausted) {
        let rest = (fuel - 1) as nat;
        let h1 = hosted_step(h0, host);
        assert(h0.state.tasks.drop_last() =~= tasks);
        let cond = semantics::loop_condition(c);
        let below = tasks.push(TaskView::Loop(cond, step, *body, scope));
        let ready = below.push(TaskView::Evaluate(cond, scope));
        match init {
            Some(first) => {
                let a = exec(*first, scope, w, host, rest);
                assert(h1.state.tasks =~= ready.push(TaskView::Execute(*first, scope)));
                assert(h1 == hosted(
                    ready.push(TaskView::Execute(*first, scope)),
                    ValueView::Nil,
                    w,
                ));
                lemma_exec(ready, ValueView::Nil, *first, scope, w, host, rest);
                lemma_first(h0, host, h1, a.steps);
                match a.ending {
                    Ending::Done(Signal::Normal) => {
                        let b = iterate(cond, step, *body, scope, a.world, host, rest);
                        lemma_iterate(
                            tasks,
                            ValueView::Nil,
                            cond,
                            step,
                            *body,
                            scope,
                            a.world,
                            host,
                            rest,
                        );
                        lemma_run_split(h0, host, a.steps + 1, b.steps);
                    },
                    Ending::Done(Signal::Return(v)) => {
                        let over = seq![
                            TaskView::Loop(cond, step, *body, scope),
                            TaskView::Evaluate(cond, scope),
                        ];
                        assert(ready =~= tasks + over);
                        lemma_unwound_over(tasks, over);
                    },
                    _ => {},
                }
            },
            None => {
                let b = iterate(cond, step, *body, scope, w, host, rest);
                assert(h1.state.tasks =~= ready);
                assert(h1 == hosted(ready, ValueView::Nil, w));
                lemma_iterate(tasks, ValueView::Nil, cond, step, *body, scope, w, host, rest);
                lemma_first(h0, host, h1, b.steps);
            },
        }
    }
}

/// From a state in which the condition of a loop is the next task and
/// the loop the one after it, the machine arrives in the steps of the
/// meaning at the end of the loop.
#[verifier::rlimit(50)]
#[verifier::spinoff_prover]
pub proof fn lemma_iterate(
    tasks: Seq<TaskView>,
    result: ValueView,
    c: ExprView,
    step: Option<ExprView>,
    body: StmtView,
    scope: usize,
    w: World,
    host: Host,
    fuel: nat,
)
    ensures
        !(iterate(c, step, body, scope, w, host, fuel).ending is Exhausted) ==> hosted_run(
            hosted(
                tasks.push(TaskView::Loop(c, step, body, scope)).push(
                    TaskView::Evaluate(c, scope),
                ),
                result,
                w,
            ),
            host,
            iterate(c, step, body, scope, w, host, fuel).steps,
        ) == executed(tasks, iterate(c, step, body, scope, w, host, fuel)),
    decreases fuel, 1nat,
{
    let big = iterate(c, step, body, scope, w, host, fuel);
    let below = tasks.push(TaskView::Loop(c, step, body, scope));
    let h0 = hosted(below.push(TaskView::Evaluate(c, scope)), result, w);
    if fuel > 0 && !(big.ending is Exhausted) {
        let rest = (fuel - 1) as nat;
        let a = eval(c, scope, w, host, rest);
        lemma_eval(below, result, c, scope, w, host, rest);
        match a.ending {
            Ending::Done(v) => {
                let h2 = hosted(below, v, a.world);
                let h3 = hosted_step(h2, host);
                assert(h2.state.tasks.drop_last() =~= tasks);
                lemma_run_split(h0, host, a.steps, (big.steps - a.steps) as nat);
                if crate::value::truthy(v) {
                    let b = exec(body, scope, a.world, host, rest);
                    let again = below.push(TaskView::Evaluate(c, scope));
                    let before = match step {
                        Some(e) => again.push(TaskView::Evaluate(e, scope)),
                        None => again,
                    };
                    assert(h3.state.tasks =~= before.push(TaskView::Execute(body, scope)));
                    assert(h3 == hosted(
                        before.push(TaskView::Execute(body, scope)),
                        ValueView::Nil,
                        a.world,
                    ));
                    lemma_exec(before, ValueView::Nil, body, scope, a.world, host, rest);
                    lemma_first(h2, host, h3, (big.steps - a.steps - 1) as nat);
                    lemma_run_split(h3, host, b.steps, (big.steps - a.steps - 1 - b.steps) as nat);
                    match b.ending {
                        Ending::Done(Signal::Normal) => {
                            match step {
                                Some(e) => {
                                    let s = eval(e, scope, b.world, host, rest);
                                    lemma_eval(again, ValueView::Nil, e, scope, b.world, host, rest);
                                    match s.ending {
                                        Ending::Done(x) => {
                                            let last = iterate(
                                                c,
                                                step,
                                                body,
                                                scope,
                                                s.world,
                                                host,
                                                rest,
                                            );
                                            lemma_iterate(
                                                tasks,
                                                x,
                                                c,
                                                step,
                                                body,
                                                scope,
                                                s.world,
                                                host,
                                                rest,
                                            );
                                            lemma_run_split(
                                                hosted(before, ValueView::Nil, b.world),
                                                host,
                                                s.steps,
                                                last.steps,
                                            );
                                        },
                                        _ => {},
                                    }
                                },
                                None => {
                                    lemma_iterate(
                                        tasks,
                                        ValueView::Nil,
                                        c,
                                        step,
                                        body,
                                        scope,
                                        b.world,
                                        host,
                                        rest,
                                    );
                                },
                            }
                        },
                        Ending::Done(Signal::Return(x)) => {
                            let over = match step {
                                Some(e) => seq![
                                    TaskView::Loop(c, step, body, scope),
                                    TaskView::Evaluate(c, scope),
                                    TaskView::Evaluate(e, scope),
                                ],
                                None => seq![
                                    TaskView::Loop(c, step, body, scope),
                                    TaskView::Evaluate(c, scope),
                                ],
                            };
                            assert(before =~= tasks + over);
                            lemma_unwound_over(tasks, over);
                        },
                        _ => {},
                    }
                } else {
                    lemma_first(h2, host, h3, 0);
                }
            },
            _ => {},
        }
    }
}

/// The world in which a new machine starts: the global scope binds
/// `clock`, the host has answered nothing, and nothing is printed.
pub open spec fn first_world() -> World {
    World { env: semantics::initial().env, asked: 0, printed: Seq::empty() }
}

/// A program that is given to a new machine runs to the end that it has by
/// its meaning: the lines are printed, the scopes are as the statements
/// leave them, and the program fails where a statement fails or returns.
pub proof fn lemma_program(stmts: Seq<StmtView>, host: Host, fuel: nat)
    ensures
        !(exec_list(stmts, 0, first_world(), host, fuel).ending is Exhausted) ==> hosted_run(
            Hosted {
                state: InterpreterView {
                    tasks: semantics::initial().tasks + semantics::statements(stmts, 0),
                    ..semantics::initial()
                },
                asked: 0,
                printed: Seq::empty(),
                failed: None,
            },
            host,
            exec_list(stmts, 0, first_world(), host, fuel).steps,
        ) == executed(Seq::empty(), exec_list(stmts, 0, first_world(), host, fuel)),
{
    lemma_exec_list(Seq::empty(), stmts, 0, first_world(), host, fuel);
}

/// An expression that is given to a new machine is evaluated to the value
/// that it has by its meaning.
pub proof fn lemma_expression(e: ExprView, host: Host, fuel: nat)
    ensures
        !(eval(e, 0, first_world(), host, fuel).ending is Exhausted) ==> hosted_run(
            hosted(seq![TaskView::Evaluate(e, 0)], ValueView::Nil, first_world()),
            host,
            eval(e, 0, first_world(), host, fuel).steps,
        ) == evaluated(Seq::empty(), eval(e, 0, first_world(), host, fuel)),
{
    lemma_eval(Seq::empty(), ValueView::Nil, e, 0, first_world(), host, fuel);
    assert(Seq::<TaskView>::empty().push(TaskView::Evaluate(e, 0)) =~= seq![
        TaskView::Evaluate(e, 0),
    ]);
}

} // verus!
