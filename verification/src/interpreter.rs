//! The evaluator, as a machine that is advanced one step at a time.
//!
//! The tree is walked with an explicit stack of tasks in place of the call
//! stack: a task either evaluates an expression, executes a statement, or
//! goes on with a construct whose operand has just been evaluated. The value
//! of the last expression is kept in one result register.
//!
//! What the machine cannot do itself it hands to its host as an `Action`:
//! writing a line, and the work on numbers that needs rounding or text
//! (arithmetic, reading a literal, the clock). The host answers a request for
//! a number with the `reply` of the next step.

use vstd::prelude::*;
use crate::ast::{
    duplicate_option,
    option_expr,
    option_stmt,
    Expr,
    ExprView,
    Literal,
    Stmt,
    StmtView,
};
use crate::environment::{Environment, ScopeView};
use crate::number::{less, less_equal, negate, within_epsilon, zero};
use crate::semantics;
use crate::semantics::Applied;
use crate::text::{append, decimal};
use crate::token::{Token, TokenType, TokenView};
use crate::value::{Native, RuntimeError, RuntimeErrorView, Value, ValueView};

verus! {

/// The arithmetic that the host performs.
#[derive(Clone, Copy, Debug, PartialEq, Eq, Structural)]
pub enum Operator {
    Add,
    Subtract,
    Multiply,
    Divide,
}

/// A number that the machine asks its host for.
#[derive(Debug)]
pub enum Request {
    /// The result of the operation on the two numbers, in this order.
    Arithmetic(Operator, u64, u64),
    /// The number that the decimal text denotes.
    Parse(String),
    /// The current time in seconds.
    Clock,
}

/// The model of a `Request`.
pub enum RequestView {
    Arithmetic(Operator, u64, u64),
    Parse(Seq<char>),
    Clock,
}

impl View for Request {
    type V = RequestView;

    open spec fn view(&self) -> RequestView {
        match self {
            Request::Arithmetic(op, a, b) => RequestView::Arithmetic(*op, *a, *b),
            Request::Parse(t) => RequestView::Parse(t@),
            Request::Clock => RequestView::Clock,
        }
    }
}

impl Clone for Request {
    fn clone(&self) -> (r: Self)
        ensures
            r@ == self@,
    {
        match self {
            Request::Arithmetic(op, a, b) => Request::Arithmetic(*op, *a, *b),
            Request::Parse(t) => Request::Parse(t.clone()),
            Request::Clock => Request::Clock,
        }
    }
}

/// The model of an optional request.
pub open spec fn option_request(r: Option<Request>) -> Option<RequestView> {
    match r {
        Some(x) => Some(x@),
        None => None,
    }
}

/// What a step leaves for the host to do.
#[derive(Debug)]
pub enum Action {
    /// Nothing; take the next step.
    Continue,
    /// Write the text and a newline.
    Print(String),
    /// Write the number and a newline.
    PrintNumber(u64),
    /// Compute the number and pass it to the next step.
    Ask(Request),
    /// No task is left.
    Finished,
    /// The program has failed; no task is left.
    Failed(RuntimeError),
}

/// The model of an `Action`.
pub enum ActionView {
    Continue,
    Print(Seq<char>),
    PrintNumber(u64),
    Ask(RequestView),
    Finished,
    Failed(RuntimeErrorView),
}

impl View for Action {
    type V = ActionView;

    open spec fn view(&self) -> ActionView {
        match self {
            Action::Continue => ActionView::Continue,
            Action::Print(t) => ActionView::Print(t@),
            Action::PrintNumber(n) => ActionView::PrintNumber(*n),
            Action::Ask(r) => ActionView::Ask(r@),
            Action::Finished => ActionView::Finished,
            Action::Failed(e) => ActionView::Failed(e@),
        }
    }
}

/// One unit of pending work. Each scope is given by its index.
#[derive(Debug)]
pub enum Task {
    /// Evaluate the expression in the scope; its value becomes the result.
    Evaluate(Expr, usize),
    /// Execute the statement in the scope.
    Execute(Stmt, usize),
    /// Apply the unary operator to the result.
    Unary(Token),
    /// The result is the left operand: evaluate the right one, then apply.
    BinaryRight(Token, Expr, usize),
    /// The result is the right operand: apply the operator to both.
    BinaryApply(Token, Value),
    /// The result is the difference of two numbers: decide whether they are
    /// equal, or, with `true`, whether they differ.
    Equality(bool),
    /// The result is the left operand of `and` or `or`.
    LogicalRight(Token, Expr, usize),
    /// Assign the result to the name, starting from the scope.
    Assign(Token, usize),
    /// The result is the callee: check it against the arguments and call.
    Call(Token, Vec<Expr>, usize),
    /// Bind the result to the parameter in the scope of the call.
    Bind(String, usize),
    /// Run the body of a function in a new scope inside the given one.
    Enter(Vec<Stmt>, usize),
    /// The end of a call: a body that comes here has returned nothing.
    Boundary,
    /// Drop the result.
    Discard,
    /// The result is being returned: leave the innermost call.
    Unwind,
    /// Print the result.
    Print,
    /// Bind the result to the name in the scope.
    Define(Token, usize),
    /// The result is the condition of an `if`.
    Branch(Stmt, Option<Stmt>, usize),
    /// The result is the condition of a loop with this condition, increment
    /// and body.
    Loop(Expr, Option<Expr>, Stmt, usize),
}

/// The model of a `Task`.
pub enum TaskView {
    Evaluate(ExprView, usize),
    Execute(StmtView, usize),
    Unary(TokenView),
    BinaryRight(TokenView, ExprView, usize),
    BinaryApply(TokenView, ValueView),
    Equality(bool),
    LogicalRight(TokenView, ExprView, usize),
    Assign(TokenView, usize),
    Call(TokenView, Seq<ExprView>, usize),
    Bind(Seq<char>, usize),
    Enter(Seq<StmtView>, usize),
    Boundary,
    Discard,
    Unwind,
    Print,
    Define(TokenView, usize),
    Branch(StmtView, Option<StmtView>, usize),
    Loop(ExprView, Option<ExprView>, StmtView, usize),
}

impl View for Task {
    type V = TaskView;

    open spec fn view(&self) -> TaskView {
        match self {
            Task::Evaluate(e, scope) => TaskView::Evaluate(e@, *scope),
            Task::Execute(s, scope) => TaskView::Execute(s@, *scope),
            Task::Unary(op) => TaskView::Unary(op@),
            Task::BinaryRight(op, e, scope) => TaskView::BinaryRight(op@, e@, *scope),
            Task::BinaryApply(op, v) => TaskView::BinaryApply(op@, v@),
            Task::Equality(negate) => TaskView::Equality(*negate),
            Task::LogicalRight(op, e, scope) => TaskView::LogicalRight(op@, e@, *scope),
            Task::Assign(name, scope) => TaskView::Assign(name@, *scope),
            Task::Call(paren, args, scope) => TaskView::Call(paren@, args.deep_view(), *scope),
            Task::Bind(name, scope) => TaskView::Bind(name@, *scope),
            Task::Enter(body, scope) => TaskView::Enter(body.deep_view(), *scope),
            Task::Boundary => TaskView::Boundary,
            Task::Discard => TaskView::Discard,
            Task::Unwind => TaskView::Unwind,
            Task::Print => TaskView::Print,
            Task::Define(name, scope) => TaskView::Define(name@, *scope),
            Task::Branch(then_branch, else_branch, scope) => TaskView::Branch(
                then_branch@,
                option_stmt(*else_branch),
                *scope,
            ),
            Task::Loop(c, step, body, scope) => TaskView::Loop(
                c@,
                option_expr(*step),
                body@,
                *scope,
            ),
        }
    }
}

impl DeepView for Task {
    type V = TaskView;

    open spec fn deep_view(&self) -> TaskView {
        self@
    }
}

/// The model of the machine.
pub struct InterpreterView {
    /// All scopes; the global scope is the first.
    pub env: Seq<ScopeView>,
    /// The pending work; the last task is the next.
    pub tasks: Seq<TaskView>,
    /// The value of the expression evaluated last.
    pub result: ValueView,
    /// The number that the host has been asked for.
    pub pending: Option<RequestView>,
}

/// What applying an operator came to, with the values in hand.
enum Outcome {
    Value(Value),
    Ask(Request),
    Compare(Request, bool),
    Error(String, usize),
}

impl Outcome {
    spec fn model(&self) -> Applied {
        match self {
            Outcome::Value(v) => Applied::Value(v@),
            Outcome::Ask(r) => Applied::Ask(r@),
            Outcome::Compare(r, negate) => Applied::Compare(r@, *negate),
            Outcome::Error(message, line) => Applied::Error(message@, *line),
        }
    }
}

fn error(message: &str, line: usize) -> (r: Outcome)
    ensures
        r.model() == Applied::Error(message@, line),
{
    Outcome::Error(String::from_str(message), line)
}

fn apply_unary(op: &Token, v: Value) -> (r: Outcome)
    ensures
        r.model() == semantics::unary(op@, v@),
{
    match op.token_type {
        TokenType::Minus => match v {
            Value::Number(n) => Outcome::Value(Value::Number(negate(n))),
            _ => error("Invalid operand for unary operator", op.line),
        },
        TokenType::Bang => Outcome::Value(Value::Bool(!v.is_truthy())),
        _ => error("Not implemented", op.line),
    }
}

fn apply_arithmetic(op: &Token, f: Operator, l: Value, r: Value) -> (out: Outcome)
    ensures
        out.model() == semantics::arithmetic(op@, f, l@, r@),
{
    match (l, r) {
        (Value::Number(a), Value::Number(b)) => Outcome::Ask(Request::Arithmetic(f, a, b)),
        _ => error("Operands must be numbers.", op.line),
    }
}

fn apply_equality(l: Value, r: Value, negate: bool) -> (out: Outcome)
    ensures
        out.model() == semantics::equality(l@, r@, negate),
{
    let same = match (l, r) {
        (Value::Number(a), Value::Number(b)) => {
            return Outcome::Compare(Request::Arithmetic(Operator::Subtract, a, b), negate);
        },
        (Value::String(a), Value::String(b)) => a == b,
        (Value::Bool(a), Value::Bool(b)) => a == b,
        (Value::Nil, Value::Nil) => true,
        _ => false,
    };
    Outcome::Value(Value::Bool(same != negate))
}

fn apply_binary(op: &Token, l: Value, r: Value) -> (out: Outcome)
    ensures
        out.model() == semantics::binary(op@, l@, r@),
{
    match op.token_type {
        TokenType::Plus => match (l, r) {
            (Value::Number(a), Value::Number(b)) => Outcome::Ask(
                Request::Arithmetic(Operator::Add, a, b),
            ),
            (Value::String(a), Value::String(b)) => {
                let mut joined = a;
                append(&mut joined, b.as_str());
                Outcome::Value(Value::String(joined))
            },
            _ => error("Operands must be two numbers or two strings.", op.line),
        },
        TokenType::Minus => apply_arithmetic(op, Operator::Subtract, l, r),
        TokenType::Star => apply_arithmetic(op, Operator::Multiply, l, r),
        TokenType::Slash => match (l, r) {
            (Value::Number(a), Value::Number(b)) => if zero(b) {
                error("Division by zero.", op.line)
            } else {
                Outcome::Ask(Request::Arithmetic(Operator::Divide, a, b))
            },
            _ => error("Operands must be numbers.", op.line),
        },
        TokenType::Greater => match (l, r) {
            (Value::Number(a), Value::Number(b)) => Outcome::Value(Value::Bool(less(b, a))),
            _ => error("Operands must be numbers.", op.line),
        },
        TokenType::GreaterEqual => match (l, r) {
            (Value::Number(a), Value::Number(b)) => Outcome::Value(
                Value::Bool(less_equal(b, a)),
            ),
            _ => error("Operands must be numbers.", op.line),
        },
        TokenType::Less => match (l, r) {
            (Value::Number(a), Value::Number(b)) => Outcome::Value(Value::Bool(less(a, b))),
            _ => error("Operands must be numbers.", op.line),
        },
        TokenType::LessEqual => match (l, r) {
            (Value::Number(a), Value::Number(b)) => Outcome::Value(
                Value::Bool(less_equal(a, b)),
            ),
            _ => error("Operands must be numbers.", op.line),
        },
        TokenType::EqualEqual => apply_equality(l, r, false),
        TokenType::BangEqual => apply_equality(l, r, true),
        _ => error("Unimplemented", op.line),
    }
}

/// The error for a call with the wrong number of arguments.
fn arity_error(expected: usize, got: usize, line: usize) -> (r: RuntimeError)
    ensures
        r@ == crate::value::error_at(semantics::arity_mismatch(expected as nat, got as nat), line),
{
    let mut message = String::from_str("Expected ");
    let a = decimal(expected);
    append(&mut message, a.as_str());
    append(&mut message, " arguments but got ");
    let b = decimal(got);
    append(&mut message, b.as_str());
    append(&mut message, ". ");
    RuntimeError::new(message, line)
}

/// The machine: the scopes, the stack of tasks, the result register, and
/// the request that the host has yet to answer.
#[derive(Debug)]
pub struct Interpreter {
    env: Environment,
    tasks: Vec<Task>,
    result: Value,
    pending: Option<Request>,
}

impl View for Interpreter {
    type V = InterpreterView;

    closed spec fn view(&self) -> InterpreterView {
        InterpreterView {
            env: self.env@,
            tasks: self.tasks.deep_view(),
            result: self.result@,
            pending: option_request(self.pending),
        }
    }
}

impl Interpreter {
    /// A machine with nothing to do, whose global scope binds `clock`.
    pub fn new() -> (r: Interpreter)
        ensures
            r@ == semantics::initial(),
    {
        let mut env = Environment::new();
        env.define_natives(0);
        let r = Interpreter { env, tasks: Vec::new(), result: Value::Nil, pending: None };
        assert(r.tasks.deep_view() =~= Seq::empty());
        assert(r.env@ =~= semantics::initial().env);
        r
    }

    /// The value of the expression that was evaluated last.
    pub fn result(&self) -> (v: &Value)
        ensures
            v@ == self@.result,
    {
        &self.result
    }

    /// The scopes.
    pub fn environment(&self) -> (e: &Environment)
        ensures
            e@ == self@.env,
    {
        &self.env
    }

    /// Puts the task on the stack.
    fn push(&mut self, t: Task)
        ensures
            final(self)@ == (InterpreterView { tasks: old(self)@.tasks.push(t@), ..old(self)@ }),
    {
        self.tasks.push(t);
        assert(self.tasks.deep_view() =~= old(self).tasks.deep_view().push(t@));
    }

    /// Takes the result and leaves nil.
    fn take(&mut self) -> (v: Value)
        ensures
            v@ == old(self)@.result,
            final(self)@ == semantics::cleared(old(self)@),
    {
        let mut v = Value::Nil;
        std::mem::swap(&mut self.result, &mut v);
        v
    }

    /// Makes the value the result.
    fn produce(&mut self, v: Value) -> (action: Action)
        ensures
            (final(self)@, action@) == semantics::produce(old(self)@, v@),
    {
        self.result = v;
        Action::Continue
    }

    /// Asks the host for a number and waits for it.
    fn ask(&mut self, r: Request) -> (action: Action)
        ensures
            (final(self)@, action@) == semantics::ask(old(self)@, r@),
    {
        self.result = Value::Nil;
        self.pending = Some(r.clone());
        Action::Ask(r)
    }

    /// Fails with the error and drops all pending work.
    fn fail(&mut self, e: RuntimeError) -> (action: Action)
        ensures
            (final(self)@, action@) == semantics::fail(old(self)@, e@),
    {
        self.tasks = Vec::new();
        self.result = Value::Nil;
        assert(self.tasks.deep_view() =~= Seq::empty());
        Action::Failed(e)
    }

    /// Goes on with what an operator came to.
    fn apply(&mut self, out: Outcome) -> (action: Action)
        ensures
            (final(self)@, action@) == semantics::apply(old(self)@, out.model()),
    {
        match out {
            Outcome::Value(v) => self.produce(v),
            Outcome::Ask(r) => self.ask(r),
            Outcome::Compare(r, negate) => {
                self.push(Task::Equality(negate));
                self.ask(r)
            },
            Outcome::Error(message, line) => self.fail(RuntimeError::new(message, line)),
        }
    }

    /// Puts one task for each statement on the stack, the first on top.
    fn push_statements(&mut self, stmts: Vec<Stmt>, scope: usize)
        ensures
            final(self)@ == (InterpreterView {
                tasks: old(self)@.tasks + semantics::statements(stmts.deep_view(), scope),
                ..old(self)@
            }),
    {
        let mut stmts = stmts;
        let ghost all = stmts.deep_view();
        let ghost n = all.len() as int;
        proof {
            assert(self@.tasks =~= old(self)@.tasks + semantics::statements(all, scope).take(0));
        }
        while stmts.len() > 0
            invariant
                n == all.len(),
                stmts.len() <= n,
                stmts.deep_view() == all.take(stmts.len() as int),
                self@ == (InterpreterView {
                    tasks: old(self)@.tasks + semantics::statements(all, scope).take(
                        n - stmts.len(),
                    ),
                    ..old(self)@
                }),
            decreases stmts.len(),
        {
            let ghost before = stmts.deep_view();
            let st = stmts.pop().unwrap();
            assert(st@ == all[stmts.len() as int]) by {
                assert(before[stmts.len() as int] == st@);
            }
            assert(stmts.deep_view() =~= all.take(stmts.len() as int));
            self.push(Task::Execute(st, scope));
            assert(self@.tasks =~= old(self)@.tasks + semantics::statements(all, scope).take(
                n - stmts.len(),
            ));
        }
        assert(semantics::statements(all, scope).take(n) =~= semantics::statements(all, scope));
    }

    /// Puts two tasks for each argument on the stack, those of the first
    /// argument on top.
    fn push_arguments(&mut self, params: Vec<Token>, args: Vec<Expr>, scope: usize, inner: usize)
        requires
            params.len() == args.len(),
        ensures
            final(self)@ == (InterpreterView {
                tasks: old(self)@.tasks + semantics::arguments(
                    params.deep_view(),
                    args.deep_view(),
                    scope,
                    inner,
                ),
                ..old(self)@
            }),
    {
        let mut params = params;
        let mut args = args;
        let ghost ps = params.deep_view();
        let ghost xs = args.deep_view();
        let ghost n = xs.len() as int;
        let ghost all = semantics::arguments(ps, xs, scope, inner);
        proof {
            assert(self@.tasks =~= old(self)@.tasks + all.take(0));
        }
        while args.len() > 0
            invariant
                n == xs.len(),
                ps.len() == n,
                args.len() <= n,
                params.len() == args.len(),
                all == semantics::arguments(ps, xs, scope, inner),
                args.deep_view() == xs.take(args.len() as int),
                params.deep_view() == ps.take(args.len() as int),
                self@ == (InterpreterView {
                    tasks: old(self)@.tasks + all.take(2 * (n - args.len())),
                    ..old(self)@
                }),
            decreases args.len(),
        {
            let ghost before_args = args.deep_view();
            let ghost before_params = params.deep_view();
            let arg = args.pop().unwrap();
            let param = params.pop().unwrap();
            let ghost i = args.len() as int;
            assert(arg@ == xs[i]) by {
                assert(before_args[i] == arg@);
            }
            assert(param@ == ps[i]) by {
                assert(before_params[i] == param@);
            }
            assert(args.deep_view() =~= xs.take(i));
            assert(params.deep_view() =~= ps.take(i));
            self.push(Task::Bind(param.lexeme, inner));
            self.push(Task::Evaluate(arg, scope));
            assert(self@.tasks =~= old(self)@.tasks + all.take(2 * (n - i))) by {
                let k = 2 * (n - i - 1);
                assert(k % 2 == 0 && k / 2 == n - i - 1) by (nonlinear_arith)
                    requires
                        k == 2 * (n - i - 1),
                ;
                assert((k + 1) % 2 == 1 && (k + 1) / 2 == n - i - 1) by (nonlinear_arith)
                    requires
                        k == 2 * (n - i - 1),
                        n - i - 1 >= 0,
                ;
                assert(all[k] == TaskView::Bind(ps[i].lexeme, inner));
                assert(all[k + 1] == TaskView::Evaluate(xs[i], scope));
            }
        }
        assert(all.take(2 * n) =~= all);
    }

    /// Has the statements executed in the global scope, in their order,
    /// before what was pending.
    pub fn interpret(&mut self, stmts: Vec<Stmt>)
        ensures
            final(self)@ == (InterpreterView {
                tasks: old(self)@.tasks + semantics::statements(stmts.deep_view(), 0),
                ..old(self)@
            }),
    {
        self.push_statements(stmts, 0);
    }

    /// Puts the task on the stack and goes on.
    fn schedule_one(&mut self, a: Task) -> (action: Action)
        ensures
            (final(self)@, action@) == semantics::schedule(old(self)@, seq![a@]),
    {
        self.push(a);
        assert(self@.tasks =~= old(self)@.tasks + seq![a@]);
        Action::Continue
    }

    /// Puts the tasks on the stack, the second on top, and goes on.
    fn schedule_two(&mut self, a: Task, b: Task) -> (action: Action)
        ensures
            (final(self)@, action@) == semantics::schedule(old(self)@, seq![a@, b@]),
    {
        self.push(a);
        self.push(b);
        assert(self@.tasks =~= old(self)@.tasks + seq![a@, b@]);
        Action::Continue
    }

    fn evaluate_literal(&mut self, l: Literal) -> (action: Action)
        ensures
            (final(self)@, action@) == semantics::literal(old(self)@, l@),
    {
        match l {
            Literal::Number(n) => self.ask(Request::Parse(n.text().clone())),
            Literal::String(t) => self.produce(Value::String(t)),
            Literal::Bool(b) => self.produce(Value::Bool(b)),
            Literal::Nil => self.produce(Value::Nil),
        }
    }

    fn evaluate_variable(&mut self, name: Token, scope: usize) -> (action: Action)
        ensures
            (final(self)@, action@) == (match semantics::variable(
                old(self)@.env,
                scope,
                name@.lexeme,
            ) {
                Some(v) => semantics::produce(old(self)@, v),
                None => semantics::fail(
                    old(self)@,
                    crate::value::error_at(
                        crate::environment::undefined_variable(name@.lexeme),
                        name@.line,
                    ),
                ),
            }),
    {
        match self.env.get(scope, &name) {
            Ok(v) => match v {
                Some(x) => self.produce(x),
                None => self.produce(Value::Nil),
            },
            Err(e) => self.fail(e),
        }
    }

    /// Starts the evaluation of the expression in the scope. Its value is
    /// the result once the tasks that this leaves are done.
    pub fn evaluate(&mut self, expr: Expr, scope: usize) -> (action: Action)
        ensures
            (final(self)@, action@) == semantics::evaluate(old(self)@, expr@, scope),
    {
        match expr {
            Expr::Literal(l) => self.evaluate_literal(l),
            Expr::Grouping(inner) => self.schedule_one(Task::Evaluate(*inner, scope)),
            Expr::Unary(op, inner) => self.schedule_two(
                Task::Unary(op),
                Task::Evaluate(*inner, scope),
            ),
            Expr::Binary(left, op, right) => self.schedule_two(
                Task::BinaryRight(op, *right, scope),
                Task::Evaluate(*left, scope),
            ),
            Expr::Variable(name) => self.evaluate_variable(name, scope),
            Expr::Assign(name, inner) => self.schedule_two(
                Task::Assign(name, scope),
                Task::Evaluate(*inner, scope),
            ),
            Expr::Logical(left, op, right) => self.schedule_two(
                Task::LogicalRight(op, *right, scope),
                Task::Evaluate(*left, scope),
            ),
            Expr::Call(callee, paren, args) => {
                assert(expr@->Call_2 =~= args.deep_view());
                self.schedule_two(Task::Call(paren, args, scope), Task::Evaluate(*callee, scope))
            },
        }
    }

    /// Binds the name to the value in the scope.
    fn define_here(&mut self, scope: usize, name: String, value: Value) -> (action: Action)
        ensures
            (final(self)@, action@) == semantics::proceed(
                InterpreterView {
                    env: crate::environment::bind(
                        old(self)@.env,
                        scope as int,
                        name@,
                        Some(value@),
                    ),
                    ..old(self)@
                },
            ),
    {
        self.env.define(scope, name, Some(value));
        Action::Continue
    }

    /// Has the statements executed in a new scope inside the given one.
    fn enter_block(&mut self, stmts: Vec<Stmt>, scope: usize) -> (action: Action)
        ensures
            (final(self)@, action@) == semantics::schedule(
                InterpreterView { env: semantics::enter(old(self)@.env, scope), ..old(self)@ },
                semantics::statements(stmts.deep_view(), old(self)@.env.len() as usize),
            ),
    {
        let inner = self.env.push_scope(Some(scope));
        self.push_statements(stmts, inner);
        Action::Continue
    }

    /// Has the condition of a loop evaluated and the loop go on from it.
    fn begin_loop(&mut self, c: Expr, step: Option<Expr>, body: Stmt, scope: usize) -> (action:
        Action)
        ensures
            (final(self)@, action@) == semantics::schedule(
                old(self)@,
                seq![
                    TaskView::Loop(c@, option_expr(step), body@, scope),
                    TaskView::Evaluate(c@, scope),
                ],
            ),
    {
        let again = c.duplicate();
        self.schedule_two(Task::Loop(again, step, body, scope), Task::Evaluate(c, scope))
    }

    fn execute_var(&mut self, name: Token, init: Option<Expr>, scope: usize) -> (action: Action)
        ensures
            (final(self)@, action@) == semantics::start(
                old(self)@,
                Stmt::Var(name, init)@,
                scope,
            ),
    {
        match init {
            Some(e) => self.schedule_two(Task::Define(name, scope), Task::Evaluate(e, scope)),
            None => self.define_here(scope, name.lexeme, Value::Nil),
        }
    }

    fn execute_block(&mut self, stmts: Vec<Stmt>, scope: usize) -> (action: Action)
        ensures
            (final(self)@, action@) == semantics::start(old(self)@, Stmt::Block(stmts)@, scope),
    {
        assert(Stmt::Block(stmts)@->Block_0 =~= stmts.deep_view());
        self.enter_block(stmts, scope)
    }

    fn execute_if(
        &mut self,
        c: Expr,
        then_branch: Box<Stmt>,
        else_branch: Option<Box<Stmt>>,
        scope: usize,
    ) -> (action: Action)
        ensures
            (final(self)@, action@) == semantics::start(
                old(self)@,
                Stmt::If(c, then_branch, else_branch)@,
                scope,
            ),
    {
        let ghost whole = Stmt::If(c, then_branch, else_branch)@;
        let other = match else_branch {
            Some(b) => Some(*b),
            None => None,
        };
        assert(semantics::unboxed(whole->If_2) == option_stmt(other));
        self.schedule_two(Task::Branch(*then_branch, other, scope), Task::Evaluate(c, scope))
    }

    fn execute_while(&mut self, c: Expr, body: Box<Stmt>, scope: usize) -> (action: Action)
        ensures
            (final(self)@, action@) == semantics::start(
                old(self)@,
                Stmt::While(c, body)@,
                scope,
            ),
    {
        self.begin_loop(c, None, *body, scope)
    }

    fn execute_for(
        &mut self,
        init: Option<Box<Stmt>>,
        c: Option<Expr>,
        step: Option<Expr>,
        body: Box<Stmt>,
        scope: usize,
    ) -> (action: Action)
        ensures
            (final(self)@, action@) == semantics::start(
                old(self)@,
                Stmt::For(init, c, step, body)@,
                scope,
            ),
    {
        let condition = match c {
            Some(e) => e,
            None => Expr::Literal(Literal::Bool(true)),
        };
        let ghost two = seq![
            TaskView::Loop(condition@, option_expr(step), body@, scope),
            TaskView::Evaluate(condition@, scope),
        ];
        let _ = self.begin_loop(condition, step, *body, scope);
        match init {
            Some(first) => {
                let ghost three = two + seq![TaskView::Execute(first@, scope)];
                self.push(Task::Execute(*first, scope));
                assert(self@.tasks =~= old(self)@.tasks + three);
            },
            None => {
                assert(two + Seq::<TaskView>::empty() =~= two);
            },
        }
        Action::Continue
    }

    fn execute_function(&mut self, name: Token, params: Vec<Token>, body: Vec<Stmt>, scope: usize)
        -> (action: Action)
        ensures
            (final(self)@, action@) == semantics::start(
                old(self)@,
                Stmt::Function(name, params, body)@,
                scope,
            ),
    {
        assert(Stmt::Function(name, params, body)@->Function_2 =~= body.deep_view());
        let label = name.lexeme.clone();
        self.define_here(scope, name.lexeme, Value::Function(label, params, body, scope))
    }

    fn execute_return(&mut self, value: Option<Expr>, scope: usize) -> (action: Action)
        ensures
            (final(self)@, action@) == semantics::start(
                old(self)@,
                Stmt::Return(value)@,
                scope,
            ),
    {
        match value {
            Some(e) => self.schedule_two(Task::Unwind, Task::Evaluate(e, scope)),
            None => self.schedule_one(Task::Unwind),
        }
    }

    /// Starts the execution of the statement in the scope.
    pub fn execute(&mut self, stmt: Stmt, scope: usize) -> (action: Action)
        ensures
            (final(self)@, action@) == semantics::execute(old(self)@, stmt@, scope),
    {
        self.result = Value::Nil;
        match stmt {
            Stmt::Expression(e) => self.schedule_two(Task::Discard, Task::Evaluate(e, scope)),
            Stmt::Print(e) => self.schedule_two(Task::Print, Task::Evaluate(e, scope)),
            Stmt::Var(name, init) => self.execute_var(name, init, scope),
            Stmt::Block(stmts) => self.execute_block(stmts, scope),
            Stmt::If(c, then_branch, else_branch) => self.execute_if(
                c,
                then_branch,
                else_branch,
                scope,
            ),
            Stmt::While(c, body) => self.execute_while(c, body, scope),
            Stmt::For(init, c, step, body) => self.execute_for(init, c, step, body, scope),
            Stmt::Function(name, params, body) => self.execute_function(name, params, body, scope),
            Stmt::Return(value) => self.execute_return(value, scope),
        }
    }

    fn resume_binary_right(&mut self, op: Token, right: Expr, scope: usize) -> (action: Action)
        ensures
            (final(self)@, action@) == semantics::resume(
                old(self)@,
                TaskView::BinaryRight(op@, right@, scope),
            ),
    {
        let left = self.take();
        self.schedule_two(Task::BinaryApply(op, left), Task::Evaluate(right, scope))
    }

    fn resume_equality(&mut self, negate: bool) -> (action: Action)
        ensures
            (final(self)@, action@) == semantics::resume(old(self)@, TaskView::Equality(negate)),
    {
        let close = match &self.result {
            Value::Number(d) => within_epsilon(*d),
            _ => false,
        };
        self.produce(Value::Bool(close != negate))
    }

    fn resume_logical(&mut self, op: Token, right: Expr, scope: usize) -> (action: Action)
        ensures
            (final(self)@, action@) == semantics::resume(
                old(self)@,
                TaskView::LogicalRight(op@, right@, scope),
            ),
    {
        match op.token_type {
            TokenType::Or => if self.result.is_truthy() {
                Action::Continue
            } else {
                self.schedule_one(Task::Evaluate(right, scope))
            },
            TokenType::And => if !self.result.is_truthy() {
                Action::Continue
            } else {
                self.schedule_one(Task::Evaluate(right, scope))
            },
            _ => self.fail(RuntimeError::new(String::from_str("Not implemented"), op.line)),
        }
    }

    fn resume_assign(&mut self, name: Token, scope: usize) -> (action: Action)
        ensures
            (final(self)@, action@) == semantics::resume(
                old(self)@,
                TaskView::Assign(name@, scope),
            ),
    {
        let value = self.result.clone();
        match self.env.assign(scope, &name, Some(value)) {
            Ok(_) => Action::Continue,
            Err(e) => self.fail(e),
        }
    }

    /// Enters a call of a function with as many arguments as parameters:
    /// a new scope inside the scope of its declaration, the arguments, the
    /// body, and the end of the call.
    fn call_function(
        &mut self,
        params: Vec<Token>,
        body: Vec<Stmt>,
        closure: usize,
        args: Vec<Expr>,
        scope: usize,
    ) -> (action: Action)
        requires
            params.len() == args.len(),
        ensures
            (final(self)@, action@) == semantics::schedule(
                InterpreterView { env: semantics::enter(old(self)@.env, closure), ..old(self)@ },
                seq![
                    TaskView::Boundary,
                    TaskView::Enter(body.deep_view(), old(self)@.env.len() as usize),
                ] + semantics::arguments(
                    params.deep_view(),
                    args.deep_view(),
                    scope,
                    old(self)@.env.len() as usize,
                ),
            ),
    {
        let ghost head = seq![
            TaskView::Boundary,
            TaskView::Enter(body.deep_view(), old(self)@.env.len() as usize),
        ];
        let inner = self.env.push_scope(Some(closure));
        self.push(Task::Boundary);
        self.push(Task::Enter(body, inner));
        assert(self@.tasks =~= old(self)@.tasks + head);
        self.push_arguments(params, args, scope, inner);
        assert(self@.tasks =~= old(self)@.tasks + (head + semantics::arguments(
            params.deep_view(),
            args.deep_view(),
            scope,
            inner,
        )));
        Action::Continue
    }

    fn resume_call(&mut self, paren: Token, args: Vec<Expr>, scope: usize) -> (action: Action)
        ensures
            (final(self)@, action@) == semantics::resume(
                old(self)@,
                TaskView::Call(paren@, args.deep_view(), scope),
            ),
    {
        let callee = self.take();
        match callee {
            Value::NativeFunction(_) => if args.len() != 0 {
                self.fail(
                    RuntimeError::new(
                        String::from_str("Native function Expected 0 arguments."),
                        paren.line,
                    ),
                )
            } else {
                self.ask(Request::Clock)
            },
            Value::Function(_, params, body, closure) => if args.len() != params.len() {
                self.fail(arity_error(params.len(), args.len(), paren.line))
            } else {
                self.call_function(params, body, closure, args, scope)
            },
            _ => self.fail(
                RuntimeError::new(String::from_str("Can only call functions."), paren.line),
            ),
        }
    }

    fn resume_bind(&mut self, name: String, scope: usize) -> (action: Action)
        ensures
            (final(self)@, action@) == semantics::resume(old(self)@, TaskView::Bind(name@, scope)),
    {
        let value = self.take();
        self.define_here(scope, name, value)
    }

    fn resume_unwind(&mut self) -> (action: Action)
        ensures
            (final(self)@, action@) == semantics::resume(old(self)@, TaskView::Unwind),
    {
        while self.tasks.len() > 0
            invariant
                self@ == (InterpreterView { tasks: self.tasks.deep_view(), ..old(self)@ }),
                semantics::unwound(self.tasks.deep_view()) == semantics::unwound(old(self)@.tasks),
            decreases self.tasks.len(),
        {
            let ghost before = self.tasks.deep_view();
            let task = self.tasks.pop().unwrap();
            assert(self.tasks.deep_view() =~= before.drop_last());
            assert(task@ == before.last());
            if let Task::Boundary = task {
                return Action::Continue;
            }
        }
        assert(self.tasks.deep_view() =~= Seq::empty());
        let value = self.take();
        Action::Failed(RuntimeError::Return(value))
    }

    fn resume_print(&mut self) -> (action: Action)
        ensures
            (final(self)@, action@) == semantics::resume(old(self)@, TaskView::Print),
    {
        let value = self.take();
        match value {
            Value::Number(n) => Action::PrintNumber(n),
            other => match other.to_string() {
                Some(text) => Action::Print(text),
                None => Action::Print(String::new()),
            },
        }
    }

    fn resume_branch(&mut self, then_branch: Stmt, else_branch: Option<Stmt>, scope: usize) -> (action:
        Action)
        ensures
            (final(self)@, action@) == semantics::resume(
                old(self)@,
                TaskView::Branch(then_branch@, option_stmt(else_branch), scope),
            ),
    {
        let condition = self.take();
        if condition.is_truthy() {
            self.schedule_one(Task::Execute(then_branch, scope))
        } else {
            match else_branch {
                Some(b) => self.schedule_one(Task::Execute(b, scope)),
                None => Action::Continue,
            }
        }
    }

    fn resume_loop(&mut self, c: Expr, step: Option<Expr>, body: Stmt, scope: usize) -> (action:
        Action)
        ensures
            (final(self)@, action@) == semantics::resume(
                old(self)@,
                TaskView::Loop(c@, option_expr(step), body@, scope),
            ),
    {
        let condition = self.take();
        if condition.is_truthy() {
            let ghost tasks = semantics::round(c@, option_expr(step), body@, scope);
            let again = body.duplicate();
            let increment = duplicate_option(&step);
            let _ = self.begin_loop(c, step, again, scope);
            match increment {
                Some(e) => {
                    self.push(Task::Evaluate(e, scope));
                },
                None => {},
            }
            self.push(Task::Execute(body, scope));
            assert(self@.tasks =~= old(self)@.tasks + tasks);
            Action::Continue
        } else {
            Action::Continue
        }
    }

    /// Carries out a task that was taken off the stack.
    fn resume(&mut self, task: Task) -> (action: Action)
        ensures
            (final(self)@, action@) == semantics::resume(old(self)@, task@),
    {
        match task {
            Task::Evaluate(e, scope) => self.evaluate(e, scope),
            Task::Execute(s, scope) => self.execute(s, scope),
            Task::Unary(op) => {
                let operand = self.result.clone();
                self.apply(apply_unary(&op, operand))
            },
            Task::BinaryRight(op, right, scope) => self.resume_binary_right(op, right, scope),
            Task::BinaryApply(op, left) => {
                let right = self.result.clone();
                self.apply(apply_binary(&op, left, right))
            },
            Task::Equality(negate) => self.resume_equality(negate),
            Task::LogicalRight(op, right, scope) => self.resume_logical(op, right, scope),
            Task::Assign(name, scope) => self.resume_assign(name, scope),
            Task::Call(paren, args, scope) => self.resume_call(paren, args, scope),
            Task::Bind(name, scope) => self.resume_bind(name, scope),
            Task::Enter(body, scope) => self.enter_block(body, scope),
            Task::Boundary => self.produce(Value::Nil),
            Task::Discard => {
                self.result = Value::Nil;
                Action::Continue
            },
            Task::Unwind => self.resume_unwind(),
            Task::Print => self.resume_print(),
            Task::Define(name, scope) => {
                let value = self.take();
                self.define_here(scope, name.lexeme, value)
            },
            Task::Branch(then_branch, else_branch, scope) => self.resume_branch(
                then_branch,
                else_branch,
                scope,
            ),
            Task::Loop(c, step, body, scope) => self.resume_loop(c, step, body, scope),
        }
    }

    /// The request that the host has yet to answer.
    pub fn request(&self) -> (r: Option<&Request>)
        ensures
            match r {
                Some(q) => self@.pending == Some(q@),
                None => self@.pending is None,
            },
    {
        match &self.pending {
            Some(q) => Some(q),
            None => None,
        }
    }

    /// Whether the machine waits for a number from its host.
    pub fn is_waiting(&self) -> (r: bool)
        ensures
            r == self@.pending is Some,
    {
        self.pending.is_some()
    }

    /// Takes one step. `reply` is the number that the last action asked
    /// for; it is ignored where none was asked for.
    pub fn step(&mut self, reply: Option<u64>) -> (action: Action)
        ensures
            (final(self)@, action@) == semantics::step(old(self)@, reply),
    {
        if self.pending.is_some() {
            match reply {
                Some(bits) => {
                    self.pending = None;
                    self.produce(Value::Number(bits))
                },
                None => match &self.pending {
                    Some(request) => Action::Ask(request.clone()),
                    None => Action::Continue,
                },
            }
        } else if self.tasks.len() == 0 {
            Action::Finished
        } else {
            let ghost before = self.tasks.deep_view();
            let task = self.tasks.pop().unwrap();
            assert(self.tasks.deep_view() =~= before.drop_last());
            assert(task@ == before.last());
            self.resume(task)
        }
    }

    /// Takes steps until one leaves something for the host to do or the
    /// program ends, and at most `fuel` steps after the first.
    pub fn run(&mut self, reply: Option<u64>, fuel: usize) -> (action: Action)
        ensures
            (final(self)@, action@) == semantics::run(old(self)@, reply, fuel as nat),
    {
        let mut action = self.step(reply);
        let mut left: usize = fuel;
        while left > 0 && matches!(action, Action::Continue)
            invariant
                semantics::run(old(self)@, reply, fuel as nat) == (if action@ is Continue {
                    if left > 0 {
                        semantics::run(self@, None, (left - 1) as nat)
                    } else {
                        (self@, action@)
                    }
                } else {
                    (self@, action@)
                }),
            decreases left,
        {
            left -= 1;
            action = self.step(None);
        }
        action
    }
}

} // verus!
