//! What programs mean: the value of an expression and the effect of a
//! statement, defined by recursion over the tree.
//!
//! The meaning is relative to a host, which answers the requests for
//! numbers, and is computed with fuel: every rule takes one unit, and a
//! program that would need more than there is has no meaning at that
//! amount. Next to each meaning stands the number of steps in which the
//! machine arrives at it.

use vstd::prelude::*;
use crate::ast::{ExprView, LiteralView, StmtView};
use crate::environment::{bind, resolve, undefined_variable, ScopeView};
use crate::interpreter::{ActionView, InterpreterView, RequestView};
use crate::number::is_within_epsilon;
use crate::semantics::{
    arity_mismatch,
    binary,
    enter,
    literal_value,
    loop_condition,
    step,
    unary,
    variable,
    Applied,
};
use crate::token::{TokenType, TokenView};
use crate::value::{error_at, truthy, value_text, RuntimeErrorView, ValueView};

verus! {

/// A host: the number with which it answers a request, given how many
/// requests it has answered before.
pub type Host = spec_fn(nat, RequestView) -> u64;

/// The model of a line that a program prints.
pub enum LineView {
    Text(Seq<char>),
    Number(u64),
}

/// What a program works on besides its own tree: the scopes, the number
/// of requests that the host has answered, and the lines printed.
pub struct World {
    pub env: Seq<ScopeView>,
    pub asked: nat,
    pub printed: Seq<LineView>,
}

/// How an evaluation ends.
pub enum Ending<T> {
    /// With a result.
    Done(T),
    /// With a runtime error.
    Error(RuntimeErrorView),
    /// Not within the fuel.
    Exhausted,
}

/// The outcome of an evaluation: the world after it, how it ended, and
/// the number of steps that the machine takes for it.
pub struct Big<T> {
    pub world: World,
    pub ending: Ending<T>,
    pub steps: nat,
}

/// How a statement ends where it does not fail.
pub enum Signal {
    /// The next statement is on.
    Normal,
    /// A `return` with this value is on its way to the call that it ends.
    Return(ValueView),
}

/// An evaluation that ends with a result.
pub open spec fn done<T>(w: World, x: T, steps: nat) -> Big<T> {
    Big { world: w, ending: Ending::Done(x), steps }
}

/// An evaluation that ends with an error.
pub open spec fn failed<T>(w: World, e: RuntimeErrorView, steps: nat) -> Big<T> {
    Big { world: w, ending: Ending::Error(e), steps }
}

/// An evaluation for which the fuel does not suffice.
pub open spec fn exhausted<T>(w: World) -> Big<T> {
    Big { world: w, ending: Ending::Exhausted, steps: 0 }
}

/// The outcome `b` after `extra` steps before it.
pub open spec fn later<T>(extra: nat, b: Big<T>) -> Big<T> {
    Big { steps: b.steps + extra, ..b }
}

/// The outcome of an evaluation that stops where a part of it stopped
/// without a result, after `extra` steps before that part.
pub open spec fn stopped<T, U>(extra: nat, b: Big<T>) -> Big<U> {
    Big {
        world: b.world,
        ending: match b.ending {
            Ending::Error(e) => Ending::Error(e),
            _ => Ending::Exhausted,
        },
        steps: b.steps + extra,
    }
}

/// The world after the host has answered one more request.
pub open spec fn answered(w: World) -> World {
    World { asked: w.asked + 1, ..w }
}

/// The world with other scopes.
pub open spec fn with_env(w: World, env: Seq<ScopeView>) -> World {
    World { env, ..w }
}

/// The line that printing a value gives.
pub open spec fn line_of(v: ValueView) -> LineView {
    match v {
        ValueView::Number(n) => LineView::Number(n),
        _ => LineView::Text(value_text(v)),
    }
}

/// What applying an operator comes to once the host has done its part.
pub open spec fn applied(a: Applied, w: World, host: Host, steps: nat) -> Big<ValueView> {
    match a {
        Applied::Value(v) => done(w, v, steps),
        Applied::Ask(r) => done(answered(w), ValueView::Number(host(w.asked, r)), steps + 1),
        Applied::Compare(r, negate) => done(
            answered(w),
            ValueView::Bool(is_within_epsilon(host(w.asked, r)) != negate),
            steps + 2,
        ),
        Applied::Error(message, line) => failed(w, error_at(message, line), steps),
    }
}

/// The value of an expression in a scope.
pub open spec fn eval(e: ExprView, scope: usize, w: World, host: Host, fuel: nat) -> Big<
    ValueView,
>
    decreases fuel, 0nat,
{
    if fuel == 0 {
        exhausted(w)
    } else {
        let rest = (fuel - 1) as nat;
        match e {
            ExprView::Literal(l) => match l {
                LiteralView::Number(text) => done(
                    answered(w),
                    ValueView::Number(host(w.asked, RequestView::Parse(text))),
                    2,
                ),
                _ => done(w, literal_value(l), 1),
            },
            ExprView::Grouping(inner) => later(1, eval(*inner, scope, w, host, rest)),
            ExprView::Unary(op, inner) => {
                let a = eval(*inner, scope, w, host, rest);
                match a.ending {
                    Ending::Done(v) => applied(unary(op, v), a.world, host, a.steps + 2),
                    _ => later(1, a),
                }
            },
            ExprView::Binary(left, op, right) => {
                let a = eval(*left, scope, w, host, rest);
                match a.ending {
                    Ending::Done(l) => {
                        let b = eval(*right, scope, a.world, host, rest);
                        match b.ending {
                            Ending::Done(r) => applied(
                                binary(op, l, r),
                                b.world,
                                host,
                                a.steps + b.steps + 3,
                            ),
                            _ => later(a.steps + 2, b),
                        }
                    },
                    _ => later(1, a),
                }
            },
            ExprView::Variable(name) => match variable(w.env, scope, name.lexeme) {
                Some(v) => done(w, v, 1),
                None => failed(w, error_at(undefined_variable(name.lexeme), name.line), 1),
            },
            ExprView::Assign(name, inner) => {
                let a = eval(*inner, scope, w, host, rest);
                match a.ending {
                    Ending::Done(v) => match resolve(a.world.env, scope as int, name.lexeme) {
                        Some(target) => done(
                            with_env(a.world, bind(a.world.env, target, name.lexeme, Some(v))),
                            v,
                            a.steps + 2,
                        ),
                        None => failed(
                            a.world,
                            error_at(undefined_variable(name.lexeme), name.line),
                            a.steps + 2,
                        ),
                    },
                    _ => later(1, a),
                }
            },
            ExprView::Logical(left, op, right) => {
                let a = eval(*left, scope, w, host, rest);
                match a.ending {
                    Ending::Done(v) => match op.token_type {
                        TokenType::Or => if truthy(v) {
                            done(a.world, v, a.steps + 2)
                        } else {
                            later(a.steps + 2, eval(*right, scope, a.world, host, rest))
                        },
                        TokenType::And => if !truthy(v) {
                            done(a.world, v, a.steps + 2)
                        } else {
                            later(a.steps + 2, eval(*right, scope, a.world, host, rest))
                        },
                        _ => failed(a.world, error_at("Not implemented"@, op.line), a.steps + 2),
                    },
                    _ => later(1, a),
                }
            },
            ExprView::Call(callee, paren, args) => {
                let a = eval(*callee, scope, w, host, rest);
                match a.ending {
                    Ending::Done(f) => later(
                        a.steps + 2,
                        call(f, paren, args, scope, a.world, host, rest),
                    ),
                    _ => later(1, a),
                }
            },
        }
    }
}

/// The value of a call of `f` with the arguments, which stand in the scope
/// `scope`. The arguments are evaluated in that scope, in their order, and
/// each is bound to its parameter in a new scope inside the scope in which
/// the function was declared. The body runs in a scope of its own inside
/// that one, and a `return` in it ends the call.
pub open spec fn call(
    f: ValueView,
    paren: TokenView,
    args: Seq<ExprView>,
    scope: usize,
    w: World,
    host: Host,
    fuel: nat,
) -> Big<ValueView>
    decreases fuel, 1nat,
{
    match f {
        ValueView::NativeFunction(_) => if args.len() != 0 {
            failed(w, error_at("Native function Expected 0 arguments."@, paren.line), 0)
        } else {
            done(answered(w), ValueView::Number(host(w.asked, RequestView::Clock)), 1)
        },
        ValueView::Function(_, params, body, closure) => if args.len() != params.len() {
            failed(w, error_at(arity_mismatch(params.len(), args.len()), paren.line), 0)
        } else if fuel == 0 {
            exhausted(w)
        } else {
            let rest = (fuel - 1) as nat;
            let inner = w.env.len() as usize;
            let a = bind_arguments(
                params,
                args,
                scope,
                inner,
                with_env(w, enter(w.env, closure)),
                host,
                rest,
            );
            match a.ending {
                Ending::Done(_) => {
                    let block = a.world.env.len() as usize;
                    let b = exec_list(
                        body,
                        block,
                        with_env(a.world, enter(a.world.env, inner)),
                        host,
                        rest,
                    );
                    match b.ending {
                        Ending::Done(Signal::Normal) => done(
                            b.world,
                            ValueView::Nil,
                            a.steps + b.steps + 2,
                        ),
                        Ending::Done(Signal::Return(v)) => done(b.world, v, a.steps + b.steps + 1),
                        _ => stopped(a.steps + 1, b),
                    }
                },
                _ => stopped(0, a),
            }
        },
        _ => failed(w, error_at("Can only call functions."@, paren.line), 0),
    }
}

/// Evaluates the arguments in the scope `scope`, in their order, and binds
/// each to its parameter in the scope `inner`.
pub open spec fn bind_arguments(
    params: Seq<TokenView>,
    args: Seq<ExprView>,
    scope: usize,
    inner: usize,
    w: World,
    host: Host,
    fuel: nat,
) -> Big<()>
    decreases fuel, 0nat,
{
    if args.len() == 0 || params.len() == 0 {
        done(w, (), 0)
    } else if fuel == 0 {
        exhausted(w)
    } else {
        let rest = (fuel - 1) as nat;
        let a = eval(args[0], scope, w, host, rest);
        match a.ending {
            Ending::Done(v) => later(
                a.steps + 1,
                bind_arguments(
                    params.drop_first(),
                    args.drop_first(),
                    scope,
                    inner,
                    with_env(a.world, bind(a.world.env, inner as int, params[0].lexeme, Some(v))),
                    host,
                    rest,
                ),
            ),
            _ => stopped(0, a),
        }
    }
}

/// The effect of a statement in a scope.
pub open spec fn exec(stmt: StmtView, scope: usize, w: World, host: Host, fuel: nat) -> Big<
    Signal,
>
    decreases fuel, 0nat,
{
    if fuel == 0 {
        exhausted(w)
    } else {
        let rest = (fuel - 1) as nat;
        match stmt {
            StmtView::Expression(e) => {
                let a = eval(e, scope, w, host, rest);
                match a.ending {
                    Ending::Done(_) => done(a.world, Signal::Normal, a.steps + 2),
                    _ => stopped(1, a),
                }
            },
            StmtView::Print(e) => {
                let a = eval(e, scope, w, host, rest);
                match a.ending {
                    Ending::Done(v) => done(
                        World { printed: a.world.printed.push(line_of(v)), ..a.world },
                        Signal::Normal,
                        a.steps + 2,
                    ),
                    _ => stopped(1, a),
                }
            },
            StmtView::Var(name, init) => match init {
                Some(e) => {
                    let a = eval(e, scope, w, host, rest);
                    match a.ending {
                        Ending::Done(v) => done(
                            with_env(
                                a.world,
                                bind(a.world.env, scope as int, name.lexeme, Some(v)),
                            ),
                            Signal::Normal,
                            a.steps + 2,
                        ),
                        _ => stopped(1, a),
                    }
                },
                None => done(
                    with_env(w, bind(w.env, scope as int, name.lexeme, Some(ValueView::Nil))),
                    Signal::Normal,
                    1,
                ),
            },
            StmtView::Block(stmts) => later(
                1,
                exec_list(
                    stmts,
                    w.env.len() as usize,
                    with_env(w, enter(w.env, scope)),
                    host,
                    rest,
                ),
            ),
            StmtView::If(c, then_branch, else_branch) => {
                let a = eval(c, scope, w, host, rest);
                match a.ending {
                    Ending::Done(v) => if truthy(v) {
                        later(a.steps + 2, exec(*then_branch, scope, a.world, host, rest))
                    } else {
                        match else_branch {
                            Some(other) => later(
                                a.steps + 2,
                                exec(*other, scope, a.world, host, rest),
                            ),
                            None => done(a.world, Signal::Normal, a.steps + 2),
                        }
                    },
                    _ => stopped(1, a),
                }
            },
            StmtView::While(c, body) => later(1, iterate(c, None, *body, scope, w, host, rest)),
            StmtView::For(init, c, step, body) => match init {
                Some(first) => {
                    let a = exec(*first, scope, w, host, rest);
                    match a.ending {
                        Ending::Done(Signal::Normal) => later(
                            a.steps + 1,
                            iterate(loop_condition(c), step, *body, scope, a.world, host, rest),
                        ),
                        _ => later(1, a),
                    }
                },
                None => later(1, iterate(loop_condition(c), step, *body, scope, w, host, rest)),
            },
            StmtView::Function(name, params, body) => done(
                with_env(
                    w,
                    bind(
                        w.env,
                        scope as int,
                        name.lexeme,
                        Some(ValueView::Function(name.lexeme, params, body, scope)),
                    ),
                ),
                Signal::Normal,
                1,
            ),
            StmtView::Return(value) => match value {
                Some(e) => {
                    let a = eval(e, scope, w, host, rest);
                    match a.ending {
                        Ending::Done(v) => done(a.world, Signal::Return(v), a.steps + 2),
                        _ => stopped(1, a),
                    }
                },
                None => done(w, Signal::Return(ValueView::Nil), 2),
            },
        }
    }
}

/// The effect of a loop: while the condition holds, the body and then the
/// increment.
pub open spec fn iterate(
    c: ExprView,
    step: Option<ExprView>,
    body: StmtView,
    scope: usize,
    w: World,
    host: Host,
    fuel: nat,
) -> Big<Signal>
    decreases fuel, 0nat,
{
    if fuel == 0 {
        exhausted(w)
    } else {
        let rest = (fuel - 1) as nat;
        let a = eval(c, scope, w, host, rest);
        match a.ending {
            Ending::Done(v) => if truthy(v) {
                let b = exec(body, scope, a.world, host, rest);
                match b.ending {
                    Ending::Done(Signal::Normal) => match step {
                        Some(e) => {
                            let s = eval(e, scope, b.world, host, rest);
                            match s.ending {
                                Ending::Done(_) => later(
                                    a.steps + b.steps + s.steps + 1,
                                    iterate(c, step, body, scope, s.world, host, rest),
                                ),
                                _ => stopped(a.steps + b.steps + 1, s),
                            }
                        },
                        None => later(
                            a.steps + b.steps + 1,
                            iterate(c, step, body, scope, b.world, host, rest),
                        ),
                    },
                    _ => later(a.steps + 1, b),
                }
            } else {
                done(a.world, Signal::Normal, a.steps + 1)
            },
            _ => stopped(0, a),
        }
    }
}

/// The effect of statements one after the other, up to the first that
/// does not end normally.
pub open spec fn exec_list(stmts: Seq<StmtView>, scope: usize, w: World, host: Host, fuel: nat)
    -> Big<Signal>
    decreases fuel, 0nat,
{
    if stmts.len() == 0 {
        done(w, Signal::Normal, 0)
    } else if fuel == 0 {
        exhausted(w)
    } else {
        let rest = (fuel - 1) as nat;
        let a = exec(stmts[0], scope, w, host, rest);
        match a.ending {
            Ending::Done(Signal::Normal) => later(
                a.steps,
                exec_list(stmts.drop_first(), scope, a.world, host, rest),
            ),
            _ => a,
        }
    }
}

/// An expression that has a value with some fuel has the same value, in
/// the same number of steps, with any more.
pub proof fn lemma_eval_fuel(
    e: ExprView,
    scope: usize,
    w: World,
    host: Host,
    fuel: nat,
    more: nat,
)
    requires
        !(eval(e, scope, w, host, fuel).ending is Exhausted),
        fuel <= more,
    ensures
        eval(e, scope, w, host, more) == eval(e, scope, w, host, fuel),
    decreases fuel, 1nat,
{
    let rest = (fuel - 1) as nat;
    let most = (more - 1) as nat;
    match e {
        ExprView::Literal(_) => {},
        ExprView::Variable(_) => {},
        ExprView::Grouping(inner) => {
            lemma_eval_fuel(*inner, scope, w, host, rest, most);
        },
        ExprView::Unary(_, inner) => {
            lemma_eval_fuel(*inner, scope, w, host, rest, most);
        },
        ExprView::Assign(_, inner) => {
            lemma_eval_fuel(*inner, scope, w, host, rest, most);
        },
        ExprView::Binary(left, _, right) => {
            lemma_eval_fuel(*left, scope, w, host, rest, most);
            let a = eval(*left, scope, w, host, rest);
            if a.ending is Done {
                lemma_eval_fuel(*right, scope, a.world, host, rest, most);
            }
        },
        ExprView::Logical(left, op, right) => {
            lemma_eval_fuel(*left, scope, w, host, rest, most);
            let a = eval(*left, scope, w, host, rest);
            match a.ending {
                Ending::Done(v) => {
                    if (op.token_type == TokenType::Or && !truthy(v)) || (op.token_type
                        == TokenType::And && truthy(v)) {
                        lemma_eval_fuel(*right, scope, a.world, host, rest, most);
                    }
                },
                _ => {},
            }
        },
        ExprView::Call(callee, paren, args) => {
            lemma_eval_fuel(*callee, scope, w, host, rest, most);
            let a = eval(*callee, scope, w, host, rest);
            match a.ending {
                Ending::Done(f) => {
                    lemma_call_fuel(f, paren, args, scope, a.world, host, rest, most);
                },
                _ => {},
            }
        },
    }
}

/// A call that has a value with some fuel has the same value with any
/// more.
pub proof fn lemma_call_fuel(
    f: ValueView,
    paren: TokenView,
    args: Seq<ExprView>,
    scope: usize,
    w: World,
    host: Host,
    fuel: nat,
    more: nat,
)
    requires
        !(call(f, paren, args, scope, w, host, fuel).ending is Exhausted),
        fuel <= more,
    ensures
        call(f, paren, args, scope, w, host, more) == call(f, paren, args, scope, w, host, fuel),
    decreases fuel, 1nat,
{
    match f {
        ValueView::Function(_, params, body, closure) => {
            if args.len() == params.len() {
                let rest = (fuel - 1) as nat;
                let most = (more - 1) as nat;
                let inner = w.env.len() as usize;
                let w1 = with_env(w, enter(w.env, closure));
                lemma_bind_arguments_fuel(params, args, scope, inner, w1, host, rest, most);
                let a = bind_arguments(params, args, scope, inner, w1, host, rest);
                if a.ending is Done {
                    lemma_exec_list_fuel(
                        body,
                        a.world.env.len() as usize,
                        with_env(a.world, enter(a.world.env, inner)),
                        host,
                        rest,
                        most,
                    );
                }
            }
        },
        _ => {},
    }
}

/// Arguments that are bound with some fuel are bound alike with any more.
pub proof fn lemma_bind_arguments_fuel(
    params: Seq<TokenView>,
    args: Seq<ExprView>,
    scope: usize,
    inner: usize,
    w: World,
    host: Host,
    fuel: nat,
    more: nat,
)
    requires
        !(bind_arguments(params, args, scope, inner, w, host, fuel).ending is Exhausted),
        fuel <= more,
    ensures
        bind_arguments(params, args, scope, inner, w, host, more) == bind_arguments(
            params,
            args,
            scope,
            inner,
            w,
            host,
            fuel,
        ),
    decreases fuel, 1nat,
{
    if !(args.len() == 0 || params.len() == 0) {
        let rest = (fuel - 1) as nat;
        let most = (more - 1) as nat;
        lemma_eval_fuel(args[0], scope, w, host, rest, most);
        let a = eval(args[0], scope, w, host, rest);
        match a.ending {
            Ending::Done(v) => {
                lemma_bind_arguments_fuel(
                    params.drop_first(),
                    args.drop_first(),
                    scope,
                    inner,
                    with_env(a.world, bind(a.world.env, inner as int, params[0].lexeme, Some(v))),
                    host,
                    rest,
                    most,
                );
            },
            _ => {},
        }
    }
}

/// A statement that has an effect with some fuel has the same effect, in
/// the same number of steps, with any more.
pub proof fn lemma_exec_fuel(
    stmt: StmtView,
    scope: usize,
    w: World,
    host: Host,
    fuel: nat,
    more: nat,
)
    requires
        !(exec(stmt, scope, w, host, fuel).ending is Exhausted),
        fuel <= more,
    ensures
        exec(stmt, scope, w, host, more) == exec(stmt, scope, w, host, fuel),
    decreases fuel, 1nat,
{
    let rest = (fuel - 1) as nat;
    let most = (more - 1) as nat;
    match stmt {
        StmtView::Expression(e) => {
            lemma_eval_fuel(e, scope, w, host, rest, most);
        },
        StmtView::Print(e) => {
            lemma_eval_fuel(e, scope, w, host, rest, most);
        },
        StmtView::Var(_, init) => {
            match init {
                Some(e) => {
                    lemma_eval_fuel(e, scope, w, host, rest, most);
                },
                None => {},
            }
        },
        StmtView::Block(stmts) => {
            lemma_exec_list_fuel(
                stmts,
                w.env.len() as usize,
                with_env(w, enter(w.env, scope)),
                host,
                rest,
                most,
            );
        },
        StmtView::If(c, then_branch, else_branch) => {
            lemma_eval_fuel(c, scope, w, host, rest, most);
            let a = eval(c, scope, w, host, rest);
            match a.ending {
                Ending::Done(v) => {
                    if truthy(v) {
                        lemma_exec_fuel(*then_branch, scope, a.world, host, rest, most);
                    } else {
                        match else_branch {
                            Some(other) => {
                                lemma_exec_fuel(*other, scope, a.world, host, rest, most);
                            },
                            None => {},
                        }
                    }
                },
                _ => {},
            }
        },
        StmtView::While(c, body) => {
            lemma_iterate_fuel(c, None, *body, scope, w, host, rest, most);
        },
        StmtView::For(init, c, step, body) => {
            match init {
                Some(first) => {
                    lemma_exec_fuel(*first, scope, w, host, rest, most);
                    let a = exec(*first, scope, w, host, rest);
                    if a.ending == Ending::Done(Signal::Normal) {
                        lemma_iterate_fuel(
                            loop_condition(c),
                            step,
                            *body,
                            scope,
                            a.world,
                            host,
                            rest,
                            most,
                        );
                    }
                },
                None => {
                    lemma_iterate_fuel(loop_condition(c), step, *body, scope, w, host, rest, most);
                },
            }
        },
        StmtView::Function(_, _, _) => {},
        StmtView::Return(value) => {
            match value {
                Some(e) => {
                    lemma_eval_fuel(e, scope, w, host, rest, most);
                },
                None => {},
            }
        },
    }
}

/// A loop that ends with some fuel ends alike with any more.
pub proof fn lemma_iterate_fuel(
    c: ExprView,
    step: Option<ExprView>,
    body: StmtView,
    scope: usize,
    w: World,
    host: Host,
    fuel: nat,
    more: nat,
)
    requires
        !(iterate(c, step, body, scope, w, host, fuel).ending is Exhausted),
        fuel <= more,
    ensures
        iterate(c, step, body, scope, w, host, more) == iterate(
            c,
            step,
            body,
            scope,
            w,
            host,
            fuel,
        ),
    decreases fuel, 1nat,
{
    let rest = (fuel - 1) as nat;
    let most = (more - 1) as nat;
    lemma_eval_fuel(c, scope, w, host, rest, most);
    let a = eval(c, scope, w, host, rest);
    match a.ending {
        Ending::Done(v) => {
            if truthy(v) {
                lemma_exec_fuel(body, scope, a.world, host, rest, most);
                let b = exec(body, scope, a.world, host, rest);
                if b.ending == Ending::Done(Signal::Normal) {
                    match step {
                        Some(e) => {
                            lemma_eval_fuel(e, scope, b.world, host, rest, most);
                            let s = eval(e, scope, b.world, host, rest);
                            if s.ending is Done {
                                lemma_iterate_fuel(c, step, body, scope, s.world, host, rest, most);
                            }
                        },
                        None => {
                            lemma_iterate_fuel(c, step, body, scope, b.world, host, rest, most);
                        },
                    }
                }
            }
        },
        _ => {},
    }
}

/// Statements that have an effect with some fuel have the same effect
/// with any more.
pub proof fn lemma_exec_list_fuel(
    stmts: Seq<StmtView>,
    scope: usize,
    w: World,
    host: Host,
    fuel: nat,
    more: nat,
)
    requires
        !(exec_list(stmts, scope, w, host, fuel).ending is Exhausted),
        fuel <= more,
    ensures
        exec_list(stmts, scope, w, host, more) == exec_list(stmts, scope, w, host, fuel),
    decreases fuel, 1nat,
{
    if stmts.len() > 0 {
        let rest = (fuel - 1) as nat;
        let most = (more - 1) as nat;
        lemma_exec_fuel(stmts[0], scope, w, host, rest, most);
        let a = exec(stmts[0], scope, w, host, rest);
        if a.ending == Ending::Done(Signal::Normal) {
            lemma_exec_list_fuel(stmts.drop_first(), scope, a.world, host, rest, most);
        }
    }
}

/// Whether an evaluation has not ended with a `return` as its error. A
/// `return` ends the call in which it stands and is never the error of an
/// expression, a statement, or a call.
pub open spec fn no_return_error<T>(b: Big<T>) -> bool {
    b.ending matches Ending::Error(e) ==> e is Error
}

/// No expression fails with a `return`.
pub proof fn lemma_eval_error(e: ExprView, scope: usize, w: World, host: Host, fuel: nat)
    ensures
        no_return_error(eval(e, scope, w, host, fuel)),
    decreases fuel, 1nat,
{
    if fuel > 0 {
        let rest = (fuel - 1) as nat;
        match e {
            ExprView::Literal(_) => {},
            ExprView::Variable(_) => {},
            ExprView::Grouping(inner) => {
                lemma_eval_error(*inner, scope, w, host, rest);
            },
            ExprView::Unary(_, inner) => {
                lemma_eval_error(*inner, scope, w, host, rest);
            },
            ExprView::Assign(_, inner) => {
                lemma_eval_error(*inner, scope, w, host, rest);
            },
            ExprView::Binary(left, _, right) => {
                lemma_eval_error(*left, scope, w, host, rest);
                let a = eval(*left, scope, w, host, rest);
                lemma_eval_error(*right, scope, a.world, host, rest);
            },
            ExprView::Logical(left, _, right) => {
                lemma_eval_error(*left, scope, w, host, rest);
                let a = eval(*left, scope, w, host, rest);
                lemma_eval_error(*right, scope, a.world, host, rest);
            },
            ExprView::Call(callee, paren, args) => {
                lemma_eval_error(*callee, scope, w, host, rest);
                let a = eval(*callee, scope, w, host, rest);
                match a.ending {
                    Ending::Done(f) => {
                        lemma_call_error(f, paren, args, scope, a.world, host, rest);
                    },
                    _ => {},
                }
            },
        }
    }
}

/// No call fails with a `return`: a `return` in the body is the value of
/// the call.
pub proof fn lemma_call_error(
    f: ValueView,
    paren: TokenView,
    args: Seq<ExprView>,
    scope: usize,
    w: World,
    host: Host,
    fuel: nat,
)
    ensures
        no_return_error(call(f, paren, args, scope, w, host, fuel)),
    decreases fuel, 1nat,
{
    match f {
        ValueView::Function(_, params, body, closure) => {
            if args.len() == params.len() && fuel > 0 {
                let rest = (fuel - 1) as nat;
                let inner = w.env.len() as usize;
                let w1 = with_env(w, enter(w.env, closure));
                lemma_bind_arguments_error(params, args, scope, inner, w1, host, rest);
                let a = bind_arguments(params, args, scope, inner, w1, host, rest);
                lemma_exec_list_error(
                    body,
                    a.world.env.len() as usize,
                    with_env(a.world, enter(a.world.env, inner)),
                    host,
                    rest,
                );
            }
        },
        _ => {},
    }
}

/// Binding arguments never fails with a `return`.
pub proof fn lemma_bind_arguments_error(
    params: Seq<TokenView>,
    args: Seq<ExprView>,
    scope: usize,
    inner: usize,
    w: World,
    host: Host,
    fuel: nat,
)
    ensures
        no_return_error(bind_arguments(params, args, scope, inner, w, host, fuel)),
    decreases fuel, 1nat,
{
    if !(args.len() == 0 || params.len() == 0) && fuel > 0 {
        let rest = (fuel - 1) as nat;
        lemma_eval_error(args[0], scope, w, host, rest);
        let a = eval(args[0], scope, w, host, rest);
        match a.ending {
            Ending::Done(v) => {
                lemma_bind_arguments_error(
                    params.drop_first(),
                    args.drop_first(),
                    scope,
                    inner,
                    with_env(a.world, bind(a.world.env, inner as int, params[0].lexeme, Some(v))),
                    host,
                    rest,
                );
            },
            _ => {},
        }
    }
}

/// No statement fails with a `return`: it ends with it as its signal.
pub proof fn lemma_exec_error(stmt: StmtView, scope: usize, w: World, host: Host, fuel: nat)
    ensures
        no_return_error(exec(stmt, scope, w, host, fuel)),
    decreases fuel, 1nat,
{
    if fuel > 0 {
        let rest = (fuel - 1) as nat;
        match stmt {
            StmtView::Expression(e) => {
                lemma_eval_error(e, scope, w, host, rest);
            },
            StmtView::Print(e) => {
                lemma_eval_error(e, scope, w, host, rest);
            },
            StmtView::Var(_, init) => {
                match init {
                    Some(e) => {
                        lemma_eval_error(e, scope, w, host, rest);
                    },
                    None => {},
                }
            },
            StmtView::Block(stmts) => {
                lemma_exec_list_error(
                    stmts,
                    w.env.len() as usize,
                    with_env(w, enter(w.env, scope)),
                    host,
                    rest,
                );
            },
            StmtView::If(c, then_branch, else_branch) => {
                lemma_eval_error(c, scope, w, host, rest);
                let a = eval(c, scope, w, host, rest);
                lemma_exec_error(*then_branch, scope, a.world, host, rest);
                match else_branch {
                    Some(other) => {
                        lemma_exec_error(*other, scope, a.world, host, rest);
                    },
                    None => {},
                }
            },
            StmtView::While(c, body) => {
                lemma_iterate_error(c, None, *body, scope, w, host, rest);
            },
            StmtView::For(init, c, step, body) => {
                match init {
                    Some(first) => {
                        lemma_exec_error(*first, scope, w, host, rest);
                        let a = exec(*first, scope, w, host, rest);
                        lemma_iterate_error(
                            loop_condition(c),
                            step,
                            *body,
                            scope,
                            a.world,
                            host,
                            rest,
                        );
                    },
                    None => {
                        lemma_iterate_error(loop_condition(c), step, *body, scope, w, host, rest);
                    },
                }
            },
            StmtView::Function(_, _, _) => {},
            StmtView::Return(value) => {
                match value {
                    Some(e) => {
                        lemma_eval_error(e, scope, w, host, rest);
                    },
                    None => {},
                }
            },
        }
    }
}

/// No loop fails with a `return`.
pub proof fn lemma_iterate_error(
    c: ExprView,
    step: Option<ExprView>,
    body: StmtView,
    scope: usize,
    w: World,
    host: Host,
    fuel: nat,
)
    ensures
        no_return_error(iterate(c, step, body, scope, w, host, fuel)),
    decreases fuel, 1nat,
{
    if fuel > 0 {
        let rest = (fuel - 1) as nat;
        lemma_eval_error(c, scope, w, host, rest);
        let a = eval(c, scope, w, host, rest);
        lemma_exec_error(body, scope, a.world, host, rest);
        let b = exec(body, scope, a.world, host, rest);
        match step {
            Some(e) => {
                lemma_eval_error(e, scope, b.world, host, rest);
                let s = eval(e, scope, b.world, host, rest);
                lemma_iterate_error(c, step, body, scope, s.world, host, rest);
            },
            None => {
                lemma_iterate_error(c, step, body, scope, b.world, host, rest);
            },
        }
    }
}

/// No list of statements fails with a `return`.
pub proof fn lemma_exec_list_error(
    stmts: Seq<StmtView>,
    scope: usize,
    w: World,
    host: Host,
    fuel: nat,
)
    ensures
        no_return_error(exec_list(stmts, scope, w, host, fuel)),
    decreases fuel, 1nat,
{
    if stmts.len() > 0 && fuel > 0 {
        let rest = (fuel - 1) as nat;
        lemma_exec_error(stmts[0], scope, w, host, rest);
        let a = exec(stmts[0], scope, w, host, rest);
        lemma_exec_list_error(stmts.drop_first(), scope, a.world, host, rest);
    }
}

/// A machine together with its host: the machine, the number of requests
/// answered, the lines printed, and the error with which the program
/// failed.
pub struct Hosted {
    pub state: InterpreterView,
    pub asked: nat,
    pub printed: Seq<LineView>,
    pub failed: Option<RuntimeErrorView>,
}

/// One step of a machine whose host answers at once and does what the
/// step leaves to it.
pub open spec fn hosted_step(h: Hosted, host: Host) -> Hosted {
    let reply = match h.state.pending {
        Some(r) => Some(host(h.asked, r)),
        None => None,
    };
    let (next, action) = step(h.state, reply);
    Hosted {
        state: next,
        asked: if h.state.pending is Some {
            h.asked + 1
        } else {
            h.asked
        },
        printed: match action {
            ActionView::Print(text) => h.printed.push(LineView::Text(text)),
            ActionView::PrintNumber(n) => h.printed.push(LineView::Number(n)),
            _ => h.printed,
        },
        failed: match action {
            ActionView::Failed(e) => Some(e),
            _ => h.failed,
        },
    }
}

/// `n` steps of a machine with its host.
pub open spec fn hosted_run(h: Hosted, host: Host, n: nat) -> Hosted
    decreases n,
{
    if n == 0 {
        h
    } else {
        hosted_run(hosted_step(h, host), host, (n - 1) as nat)
    }
}

} // verus!
