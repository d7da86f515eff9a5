//! What one step of the machine does, stated on its model.

use vstd::prelude::*;
use crate::ast::{ExprView, LiteralView, StmtView};
use crate::environment::{bind, resolve, undefined_variable, ScopeView};
use crate::interpreter::{ActionView, InterpreterView, Operator, RequestView, TaskView};
use crate::number::{is_less, is_less_equal, is_within_epsilon, is_zero, negated};
use crate::text::decimal_text;
use crate::token::{TokenType, TokenView};
use crate::value::{error_at, truthy, value_text, Native, RuntimeErrorView, ValueView};

verus! {

/// The machine before it has been given anything to do: the global scope
/// binds `clock`, and nothing else exists.
pub open spec fn initial() -> InterpreterView {
    InterpreterView {
        env: seq![
            ScopeView {
                values: Map::empty().insert(
                    "clock"@,
                    Some(ValueView::NativeFunction(Native::Clock)),
                ),
                enclosing: None,
            },
        ],
        tasks: Seq::empty(),
        result: ValueView::Nil,
        pending: None,
    }
}

/// The step is done and the host has nothing to do.
pub open spec fn proceed(s: InterpreterView) -> (InterpreterView, ActionView) {
    (s, ActionView::Continue)
}

/// The tasks are put on the stack; the last of them is the next to run.
pub open spec fn schedule(s: InterpreterView, tasks: Seq<TaskView>) -> (
    InterpreterView,
    ActionView,
) {
    proceed(InterpreterView { tasks: s.tasks + tasks, ..s })
}

/// The value becomes the result.
pub open spec fn produce(s: InterpreterView, v: ValueView) -> (InterpreterView, ActionView) {
    proceed(InterpreterView { result: v, ..s })
}

/// The host is asked for a number; the machine waits for it.
pub open spec fn ask(s: InterpreterView, r: RequestView) -> (InterpreterView, ActionView) {
    (InterpreterView { pending: Some(r), result: ValueView::Nil, ..s }, ActionView::Ask(r))
}

/// The program fails: all pending work is dropped.
pub open spec fn fail(s: InterpreterView, e: RuntimeErrorView) -> (InterpreterView, ActionView) {
    (
        InterpreterView { tasks: Seq::empty(), result: ValueView::Nil, ..s },
        ActionView::Failed(e),
    )
}

/// One task for each statement, to run them in their order in the scope.
pub open spec fn statements(stmts: Seq<StmtView>, scope: usize) -> Seq<TaskView> {
    Seq::new(stmts.len(), |k: int| TaskView::Execute(stmts[stmts.len() - 1 - k], scope))
}

/// Two tasks for each argument, to evaluate them in their order in the scope
/// of the caller and bind each to its parameter in the scope of the call.
pub open spec fn arguments(
    params: Seq<TokenView>,
    args: Seq<ExprView>,
    scope: usize,
    inner: usize,
) -> Seq<TaskView> {
    Seq::new(
        2 * args.len(),
        |k: int|
            if k % 2 == 0 {
                TaskView::Bind(params[args.len() - 1 - k / 2].lexeme, inner)
            } else {
                TaskView::Evaluate(args[args.len() - 1 - k / 2], scope)
            },
    )
}

/// The value of a literal that is not a number.
pub open spec fn literal_value(l: LiteralView) -> ValueView {
    match l {
        LiteralView::Number(_) => ValueView::Nil,
        LiteralView::String(t) => ValueView::String(t),
        LiteralView::Bool(b) => ValueView::Bool(b),
        LiteralView::Nil => ValueView::Nil,
    }
}

/// Evaluates a literal. The host reads a number from its text.
pub open spec fn literal(s: InterpreterView, l: LiteralView) -> (InterpreterView, ActionView) {
    match l {
        LiteralView::Number(text) => ask(s, RequestView::Parse(text)),
        _ => produce(s, literal_value(l)),
    }
}

/// What a name holds, going outward from the scope. A name that was
/// declared without a value holds nil.
pub open spec fn variable(env: Seq<ScopeView>, scope: usize, name: Seq<char>) -> Option<
    ValueView,
> {
    match resolve(env, scope as int, name) {
        Some(s) => Some(
            match env[s].values[name] {
                Some(v) => v,
                None => ValueView::Nil,
            },
        ),
        None => None,
    }
}

/// Starts the evaluation of an expression.
pub open spec fn evaluate(s: InterpreterView, e: ExprView, scope: usize) -> (
    InterpreterView,
    ActionView,
) {
    match e {
        ExprView::Literal(l) => literal(s, l),
        ExprView::Grouping(inner) => schedule(s, seq![TaskView::Evaluate(*inner, scope)]),
        ExprView::Unary(op, inner) => schedule(
            s,
            seq![TaskView::Unary(op), TaskView::Evaluate(*inner, scope)],
        ),
        ExprView::Binary(left, op, right) => schedule(
            s,
            seq![TaskView::BinaryRight(op, *right, scope), TaskView::Evaluate(*left, scope)],
        ),
        ExprView::Variable(name) => match variable(s.env, scope, name.lexeme) {
            Some(v) => produce(s, v),
            None => fail(s, error_at(undefined_variable(name.lexeme), name.line)),
        },
        ExprView::Assign(name, inner) => schedule(
            s,
            seq![TaskView::Assign(name, scope), TaskView::Evaluate(*inner, scope)],
        ),
        ExprView::Logical(left, op, right) => schedule(
            s,
            seq![TaskView::LogicalRight(op, *right, scope), TaskView::Evaluate(*left, scope)],
        ),
        ExprView::Call(callee, paren, args) => schedule(
            s,
            seq![TaskView::Call(paren, args, scope), TaskView::Evaluate(*callee, scope)],
        ),
    }
}

/// The scopes with one more, empty and inside `enclosing`.
pub open spec fn enter(env: Seq<ScopeView>, enclosing: usize) -> Seq<ScopeView> {
    env.push(ScopeView { values: Map::empty(), enclosing: Some(enclosing) })
}

/// The condition of a `for` loop; one that is left out is `true`.
pub open spec fn loop_condition(c: Option<ExprView>) -> ExprView {
    match c {
        Some(e) => e,
        None => ExprView::Literal(LiteralView::Bool(true)),
    }
}

/// The tasks of one round of a loop whose condition has just held: the
/// body, the increment, the condition, and the loop again.
pub open spec fn round(c: ExprView, step: Option<ExprView>, body: StmtView, scope: usize) -> Seq<
    TaskView,
> {
    let again = seq![TaskView::Loop(c, step, body, scope), TaskView::Evaluate(c, scope)];
    let increment = match step {
        Some(e) => seq![TaskView::Evaluate(e, scope)],
        None => Seq::empty(),
    };
    again + increment + seq![TaskView::Execute(body, scope)]
}

/// The statement of an optional branch.
pub open spec fn unboxed(branch: Option<Box<StmtView>>) -> Option<StmtView> {
    match branch {
        Some(b) => Some(*b),
        None => None,
    }
}

/// Starts the execution of a statement. Nothing is in the result register
/// when a statement starts, and nothing when it has ended.
pub open spec fn execute(s: InterpreterView, stmt: StmtView, scope: usize) -> (
    InterpreterView,
    ActionView,
) {
    start(cleared(s), stmt, scope)
}

/// Starts the execution of a statement with nothing in the result
/// register.
pub open spec fn start(s: InterpreterView, stmt: StmtView, scope: usize) -> (
    InterpreterView,
    ActionView,
) {
    match stmt {
        StmtView::Expression(e) => schedule(
            s,
            seq![TaskView::Discard, TaskView::Evaluate(e, scope)],
        ),
        StmtView::Print(e) => schedule(s, seq![TaskView::Print, TaskView::Evaluate(e, scope)]),
        StmtView::Var(name, init) => match init {
            Some(e) => schedule(
                s,
                seq![TaskView::Define(name, scope), TaskView::Evaluate(e, scope)],
            ),
            None => proceed(
                InterpreterView {
                    env: bind(s.env, scope as int, name.lexeme, Some(ValueView::Nil)),
                    ..s
                },
            ),
        },
        StmtView::Block(stmts) => schedule(
            InterpreterView { env: enter(s.env, scope), ..s },
            statements(stmts, s.env.len() as usize),
        ),
        StmtView::If(c, then_branch, else_branch) => schedule(
            s,
            seq![
                TaskView::Branch(*then_branch, unboxed(else_branch), scope),
                TaskView::Evaluate(c, scope),
            ],
        ),
        StmtView::While(c, body) => schedule(
            s,
            seq![TaskView::Loop(c, None, *body, scope), TaskView::Evaluate(c, scope)],
        ),
        StmtView::For(init, c, step, body) => schedule(
            s,
            seq![
                TaskView::Loop(loop_condition(c), step, *body, scope),
                TaskView::Evaluate(loop_condition(c), scope),
            ] + match init {
                Some(first) => seq![TaskView::Execute(*first, scope)],
                None => Seq::empty(),
            },
        ),
        StmtView::Function(name, params, body) => proceed(
            InterpreterView {
                env: bind(
                    s.env,
                    scope as int,
                    name.lexeme,
                    Some(ValueView::Function(name.lexeme, params, body, scope)),
                ),
                ..s
            },
        ),
        StmtView::Return(value) => match value {
            Some(e) => schedule(s, seq![TaskView::Unwind, TaskView::Evaluate(e, scope)]),
            None => schedule(s, seq![TaskView::Unwind]),
        },
    }
}

/// What applying an operator comes to.
pub enum Applied {
    /// The value of the operation.
    Value(ValueView),
    /// The host computes the value.
    Ask(RequestView),
    /// The host computes the difference, from which equality is decided.
    Compare(RequestView, bool),
    /// The operation fails with the message, on the line.
    Error(Seq<char>, usize),
}

/// A unary operator applied to a value. A token that is no unary operator
/// is an error on its line.
pub open spec fn unary(op: TokenView, v: ValueView) -> Applied {
    match op.token_type {
        TokenType::Minus => match v {
            ValueView::Number(n) => Applied::Value(ValueView::Number(negated(n))),
            _ => Applied::Error("Invalid operand for unary operator"@, op.line),
        },
        TokenType::Bang => Applied::Value(ValueView::Bool(!truthy(v))),
        _ => Applied::Error("Not implemented"@, op.line),
    }
}

/// Whether two values, not both numbers, are equal: strings, booleans and
/// nil are equal to themselves, and nothing else is equal to anything.
pub open spec fn same(l: ValueView, r: ValueView) -> bool {
    match (l, r) {
        (ValueView::String(a), ValueView::String(b)) => a == b,
        (ValueView::Bool(a), ValueView::Bool(b)) => a == b,
        (ValueView::Nil, ValueView::Nil) => true,
        _ => false,
    }
}

/// An arithmetic operator applied to two values.
pub open spec fn arithmetic(op: TokenView, f: Operator, l: ValueView, r: ValueView) -> Applied {
    match (l, r) {
        (ValueView::Number(a), ValueView::Number(b)) => Applied::Ask(
            RequestView::Arithmetic(f, a, b),
        ),
        _ => Applied::Error("Operands must be numbers."@, op.line),
    }
}

/// A comparison of two values that holds where `holds` does of two numbers.
/// Other values cannot be compared: that is an error on the line of the
/// operator.
pub open spec fn comparison(
    op: TokenView,
    l: ValueView,
    r: ValueView,
    holds: spec_fn(u64, u64) -> bool,
) -> Applied {
    match (l, r) {
        (ValueView::Number(a), ValueView::Number(b)) => Applied::Value(
            ValueView::Bool(holds(a, b)),
        ),
        _ => Applied::Error("Operands must be numbers."@, op.line),
    }
}

/// The test whether two values are equal or, with `negate`, differ.
pub open spec fn equality(l: ValueView, r: ValueView, negate: bool) -> Applied {
    match (l, r) {
        (ValueView::Number(a), ValueView::Number(b)) => Applied::Compare(
            RequestView::Arithmetic(Operator::Subtract, a, b),
            negate,
        ),
        _ => Applied::Value(ValueView::Bool(same(l, r) != negate)),
    }
}

/// A binary operator applied to two values. Every error is on the line of
/// the operator.
pub open spec fn binary(op: TokenView, l: ValueView, r: ValueView) -> Applied {
    match op.token_type {
        TokenType::Plus => match (l, r) {
            (ValueView::Number(a), ValueView::Number(b)) => Applied::Ask(
                RequestView::Arithmetic(Operator::Add, a, b),
            ),
            (ValueView::String(a), ValueView::String(b)) => Applied::Value(
                ValueView::String(a + b),
            ),
            _ => Applied::Error("Operands must be two numbers or two strings."@, op.line),
        },
        TokenType::Minus => arithmetic(op, Operator::Subtract, l, r),
        TokenType::Star => arithmetic(op, Operator::Multiply, l, r),
        TokenType::Slash => match (l, r) {
            (ValueView::Number(a), ValueView::Number(b)) => if is_zero(b) {
                Applied::Error("Division by zero."@, op.line)
            } else {
                Applied::Ask(RequestView::Arithmetic(Operator::Divide, a, b))
            },
            _ => Applied::Error("Operands must be numbers."@, op.line),
        },
        TokenType::Greater => comparison(op, l, r, |a: u64, b: u64| is_less(b, a)),
        TokenType::GreaterEqual => comparison(op, l, r, |a: u64, b: u64| is_less_equal(b, a)),
        TokenType::Less => comparison(op, l, r, |a: u64, b: u64| is_less(a, b)),
        TokenType::LessEqual => comparison(op, l, r, |a: u64, b: u64| is_less_equal(a, b)),
        TokenType::EqualEqual => equality(l, r, false),
        TokenType::BangEqual => equality(l, r, true),
        _ => Applied::Error("Unimplemented"@, op.line),
    }
}

/// The kinds of values. Values of different kinds are never equal.
pub enum Kind {
    Number,
    String,
    Bool,
    Nil,
    Function,
}

/// The kind of a value.
pub open spec fn kind_of(v: ValueView) -> Kind {
    match v {
        ValueView::Number(_) => Kind::Number,
        ValueView::String(_) => Kind::String,
        ValueView::Bool(_) => Kind::Bool,
        ValueView::Nil => Kind::Nil,
        ValueView::NativeFunction(_) => Kind::Function,
        ValueView::Function(_, _, _, _) => Kind::Function,
    }
}

/// Values of different kinds are unequal; comparing them for equality is
/// never an error and asks nothing of the host.
pub proof fn lemma_equality_across_kinds(op: TokenView, l: ValueView, r: ValueView)
    requires
        kind_of(l) != kind_of(r),
    ensures
        op.token_type == TokenType::EqualEqual ==> binary(op, l, r) == Applied::Value(
            ValueView::Bool(false),
        ),
        op.token_type == TokenType::BangEqual ==> binary(op, l, r) == Applied::Value(
            ValueView::Bool(true),
        ),
{
}

/// Strings are equal where they hold the same characters.
pub proof fn lemma_equality_of_strings(op: TokenView, l: Seq<char>, r: Seq<char>)
    requires
        op.token_type == TokenType::EqualEqual,
    ensures
        binary(op, ValueView::String(l), ValueView::String(r)) == Applied::Value(
            ValueView::Bool(l == r),
        ),
{
}

/// Dividing a number by zero, of either sign, is an error on the line of
/// the operator; the host is not asked.
pub proof fn lemma_division_by_zero(op: TokenView, l: u64, r: u64)
    requires
        op.token_type == TokenType::Slash,
        is_zero(r),
    ensures
        binary(op, ValueView::Number(l), ValueView::Number(r)) == Applied::Error(
            "Division by zero."@,
            op.line,
        ),
{
}

/// A call with another number of arguments than the function has
/// parameters fails, on the line of the call, before any argument is
/// evaluated: no scope is entered and no task is left.
pub proof fn lemma_arity(s: InterpreterView, paren: TokenView, args: Seq<ExprView>, scope: usize)
    requires
        s.result matches ValueView::Function(_, params, _, _) && params.len() != args.len(),
    ensures
        call(s, paren, args, scope).1 == ActionView::Failed(
            error_at(arity_mismatch(s.result->Function_1.len(), args.len()), paren.line),
        ),
        call(s, paren, args, scope).0.env == s.env,
        call(s, paren, args, scope).0.tasks.len() == 0,
{
}

/// Goes on with what an operator came to.
pub open spec fn apply(s: InterpreterView, a: Applied) -> (InterpreterView, ActionView) {
    match a {
        Applied::Value(v) => produce(s, v),
        Applied::Ask(r) => ask(s, r),
        Applied::Compare(r, negate) => ask(
            InterpreterView { tasks: s.tasks.push(TaskView::Equality(negate)), ..s },
            r,
        ),
        Applied::Error(message, line) => fail(s, error_at(message, line)),
    }
}

/// The message for a call with the wrong number of arguments.
pub open spec fn arity_mismatch(expected: nat, got: nat) -> Seq<char> {
    "Expected "@ + decimal_text(expected) + " arguments but got "@ + decimal_text(got) + ". "@
}

/// Calls the result with the arguments, which stand in the scope `scope`.
pub open spec fn call(s: InterpreterView, paren: TokenView, args: Seq<ExprView>, scope: usize)
    -> (InterpreterView, ActionView) {
    match s.result {
        ValueView::NativeFunction(f) => if args.len() != 0 {
            fail(s, error_at("Native function Expected 0 arguments."@, paren.line))
        } else {
            ask(s, RequestView::Clock)
        },
        ValueView::Function(_, params, body, closure) => if args.len() != params.len() {
            fail(s, error_at(arity_mismatch(params.len(), args.len()), paren.line))
        } else {
            let inner = s.env.len() as usize;
            schedule(
                InterpreterView { env: enter(s.env, closure), result: ValueView::Nil, ..s },
                seq![TaskView::Boundary, TaskView::Enter(body, inner)] + arguments(
                    params,
                    args,
                    scope,
                    inner,
                ),
            )
        },
        _ => fail(s, error_at("Can only call functions."@, paren.line)),
    }
}

/// The tasks that are left when the innermost call is left, if there is one.
pub open spec fn unwound(tasks: Seq<TaskView>) -> Option<Seq<TaskView>>
    decreases tasks.len(),
{
    if tasks.len() == 0 {
        None
    } else if tasks.last() is Boundary {
        Some(tasks.drop_last())
    } else {
        unwound(tasks.drop_last())
    }
}

/// A `return` goes no further than the innermost call: where a call is
/// pending, the tasks that are left are those below its end.
pub proof fn lemma_unwound(tasks: Seq<TaskView>, i: int)
    requires
        0 <= i < tasks.len(),
        tasks[i] is Boundary,
        forall|j: int| i < j < tasks.len() ==> !(#[trigger] tasks[j] is Boundary),
    ensures
        unwound(tasks) == Some(tasks.take(i)),
    decreases tasks.len(),
{
    if i == tasks.len() - 1 {
        assert(tasks.drop_last() =~= tasks.take(i));
    } else {
        lemma_unwound(tasks.drop_last(), i);
        assert(tasks.drop_last().take(i) =~= tasks.take(i));
    }
}

/// Without a pending call a `return` finds nothing to leave.
pub proof fn lemma_unwound_nothing(tasks: Seq<TaskView>)
    requires
        forall|j: int| 0 <= j < tasks.len() ==> !(#[trigger] tasks[j] is Boundary),
    ensures
        unwound(tasks) is None,
    decreases tasks.len(),
{
    if tasks.len() > 0 {
        lemma_unwound_nothing(tasks.drop_last());
    }
}

/// A machine with nothing to do and nothing to wait for stays as it is.
pub proof fn lemma_finished_stays(s: InterpreterView, reply: Option<u64>)
    requires
        s.pending is None,
        s.tasks.len() == 0,
    ensures
        step(s, reply) == (s, ActionView::Finished),
{
}

/// The machine with nothing in its result register.
pub open spec fn cleared(s: InterpreterView) -> InterpreterView {
    InterpreterView { result: ValueView::Nil, ..s }
}

/// Goes on with a construct whose operand is the result.
pub open spec fn resume(s: InterpreterView, task: TaskView) -> (InterpreterView, ActionView) {
    match task {
        TaskView::Unary(op) => apply(s, unary(op, s.result)),
        TaskView::BinaryRight(op, right, scope) => schedule(
            cleared(s),
            seq![TaskView::BinaryApply(op, s.result), TaskView::Evaluate(right, scope)],
        ),
        TaskView::BinaryApply(op, left) => apply(s, binary(op, left, s.result)),
        TaskView::Equality(negate) => match s.result {
            ValueView::Number(d) => produce(s, ValueView::Bool(is_within_epsilon(d) != negate)),
            _ => produce(s, ValueView::Bool(negate)),
        },
        TaskView::LogicalRight(op, right, scope) => match op.token_type {
            TokenType::Or => if truthy(s.result) {
                proceed(s)
            } else {
                schedule(s, seq![TaskView::Evaluate(right, scope)])
            },
            TokenType::And => if !truthy(s.result) {
                proceed(s)
            } else {
                schedule(s, seq![TaskView::Evaluate(right, scope)])
            },
            _ => fail(s, error_at("Not implemented"@, op.line)),
        },
        TaskView::Assign(name, scope) => match resolve(s.env, scope as int, name.lexeme) {
            Some(target) => proceed(
                InterpreterView { env: bind(s.env, target, name.lexeme, Some(s.result)), ..s },
            ),
            None => fail(s, error_at(undefined_variable(name.lexeme), name.line)),
        },
        TaskView::Call(paren, args, scope) => call(s, paren, args, scope),
        TaskView::Bind(name, scope) => proceed(
            InterpreterView {
                env: bind(s.env, scope as int, name, Some(s.result)),
                result: ValueView::Nil,
                ..s
            },
        ),
        TaskView::Enter(body, scope) => schedule(
            InterpreterView { env: enter(s.env, scope), ..s },
            statements(body, s.env.len() as usize),
        ),
        TaskView::Boundary => produce(s, ValueView::Nil),
        TaskView::Discard => proceed(cleared(s)),
        TaskView::Unwind => match unwound(s.tasks) {
            Some(rest) => proceed(InterpreterView { tasks: rest, ..s }),
            None => (
                InterpreterView { tasks: Seq::empty(), result: ValueView::Nil, ..s },
                ActionView::Failed(RuntimeErrorView::Return(s.result)),
            ),
        },
        TaskView::Print => match s.result {
            ValueView::Number(n) => (cleared(s), ActionView::PrintNumber(n)),
            v => (cleared(s), ActionView::Print(value_text(v))),
        },
        TaskView::Define(name, scope) => proceed(
            InterpreterView {
                env: bind(s.env, scope as int, name.lexeme, Some(s.result)),
                result: ValueView::Nil,
                ..s
            },
        ),
        TaskView::Branch(then_branch, else_branch, scope) => if truthy(s.result) {
            schedule(cleared(s), seq![TaskView::Execute(then_branch, scope)])
        } else {
            match else_branch {
                Some(b) => schedule(cleared(s), seq![TaskView::Execute(b, scope)]),
                None => proceed(cleared(s)),
            }
        },
        TaskView::Loop(c, step, body, scope) => if truthy(s.result) {
            schedule(cleared(s), round(c, step, body, scope))
        } else {
            proceed(cleared(s))
        },
        TaskView::Evaluate(e, scope) => evaluate(s, e, scope),
        TaskView::Execute(stmt, scope) => execute(s, stmt, scope),
    }
}

/// One step of the machine. While the host owes a number, the step takes it
/// from `reply` and makes it the result, or asks again. Otherwise the last
/// task is taken off the stack and carried out.
pub open spec fn step(s: InterpreterView, reply: Option<u64>) -> (InterpreterView, ActionView) {
    match s.pending {
        Some(request) => match reply {
            Some(bits) => produce(
                InterpreterView { pending: None, ..s },
                ValueView::Number(bits),
            ),
            None => (s, ActionView::Ask(request)),
        },
        None => if s.tasks.len() == 0 {
            (s, ActionView::Finished)
        } else {
            resume(InterpreterView { tasks: s.tasks.drop_last(), ..s }, s.tasks.last())
        },
    }
}

/// Steps until the host has something to do, the program ends, or `fuel`
/// further steps have been taken.
pub open spec fn run(s: InterpreterView, reply: Option<u64>, fuel: nat) -> (
    InterpreterView,
    ActionView,
)
    decreases fuel,
{
    let (next, action) = step(s, reply);
    if action is Continue && fuel > 0 {
        run(next, None, (fuel - 1) as nat)
    } else {
        (next, action)
    }
}

} // verus!
