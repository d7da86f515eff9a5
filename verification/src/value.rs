//! Runtime values and runtime errors.

use vstd::prelude::*;
use crate::ast::{duplicate_stmts, duplicate_tokens, Stmt, StmtView};
use crate::token::{diagnostic, diagnostic_text, Token, TokenView};

verus! {

/// The functions that the host provides.
#[derive(Clone, Copy, Debug, PartialEq, Eq, Structural)]
pub enum Native {
    /// The current time in seconds; takes no argument.
    Clock,
}

/// A value at run time.
#[derive(Debug)]
pub enum Value {
    /// A double-precision number, as its bit pattern.
    Number(u64),
    String(String),
    Bool(bool),
    Nil,
    NativeFunction(Native),
    /// A declared function: name, parameters, body, and the scope in which
    /// it was declared.
    Function(String, Vec<Token>, Vec<Stmt>, usize),
}

/// The model of a `Value`.
pub enum ValueView {
    Number(u64),
    String(Seq<char>),
    Bool(bool),
    Nil,
    NativeFunction(Native),
    Function(Seq<char>, Seq<TokenView>, Seq<StmtView>, usize),
}

impl View for Value {
    type V = ValueView;

    open spec fn view(&self) -> ValueView {
        match self {
            Value::Number(n) => ValueView::Number(*n),
            Value::String(s) => ValueView::String(s@),
            Value::Bool(b) => ValueView::Bool(*b),
            Value::Nil => ValueView::Nil,
            Value::NativeFunction(f) => ValueView::NativeFunction(*f),
            Value::Function(name, params, body, closure) => ValueView::Function(
                name@,
                params.deep_view(),
                body.deep_view(),
                *closure,
            ),
        }
    }
}

impl DeepView for Value {
    type V = ValueView;

    open spec fn deep_view(&self) -> ValueView {
        self@
    }
}

impl Clone for Value {
    fn clone(&self) -> (r: Self)
        ensures
            r@ == self@,
    {
        match self {
            Value::Number(n) => Value::Number(*n),
            Value::String(s) => Value::String(s.clone()),
            Value::Bool(b) => Value::Bool(*b),
            Value::Nil => Value::Nil,
            Value::NativeFunction(f) => Value::NativeFunction(*f),
            Value::Function(name, params, body, closure) => Value::Function(
                name.clone(),
                duplicate_tokens(params),
                duplicate_stmts(body),
                *closure,
            ),
        }
    }
}

/// `false` and `nil` are falsy; every other value is truthy.
pub open spec fn truthy(v: ValueView) -> bool {
    match v {
        ValueView::Bool(b) => b,
        ValueView::Nil => false,
        _ => true,
    }
}

/// The text of a value that is not a number. A number has the text that the
/// host gives its bit pattern.
pub open spec fn value_text(v: ValueView) -> Seq<char> {
    match v {
        ValueView::Number(_) => Seq::empty(),
        ValueView::String(s) => s,
        ValueView::Bool(b) => if b {
            "true"@
        } else {
            "false"@
        },
        ValueView::Nil => "nil"@,
        ValueView::NativeFunction(_) => "<fn>"@,
        ValueView::Function(name, _, _, _) => "<fn "@ + name + ">"@,
    }
}

impl Value {
    pub fn is_truthy(&self) -> (r: bool)
        ensures
            r == truthy(self@),
    {
        match self {
            Value::Bool(b) => *b,
            Value::Nil => false,
            _ => true,
        }
    }

    /// The text of the value, or `None` for a number.
    pub fn to_string(&self) -> (r: Option<String>)
        ensures
            self@ is Number <==> r is None,
            r matches Some(t) ==> t@ == value_text(self@),
    {
        match self {
            Value::Number(_) => None,
            Value::String(s) => Some(s.clone()),
            Value::Bool(b) => Some(
                if *b {
                    String::from_str("true")
                } else {
                    String::from_str("false")
                },
            ),
            Value::Nil => Some(String::from_str("nil")),
            Value::NativeFunction(_) => Some(String::from_str("<fn>")),
            Value::Function(name, _, _, _) => {
                let mut s = String::from_str("<fn ");
                s.append(name.as_str());
                s.append(">");
                Some(s)
            },
        }
    }
}

impl Value {
    /// The text of the value, where `number` gives the text of a number.
    pub fn render<F: Fn(u64) -> String>(&self, number: &F) -> (r: String)
        requires
            forall|n: u64| call_requires(number, (n,)),
        ensures
            match self@ {
                ValueView::Number(n) => call_ensures(number, (n,), r),
                v => r@ == value_text(v),
            },
    {
        match self {
            Value::Number(n) => number(*n),
            other => match other.to_string() {
                Some(t) => t,
                None => String::new(),
            },
        }
    }
}

/// The model of an optional value.
pub open spec fn option_value(v: Option<Value>) -> Option<ValueView> {
    match v {
        Some(x) => Some(x@),
        None => None,
    }
}

/// What stops a running program: an error, or a `return` on its way to the
/// call that it leaves.
#[derive(Debug)]
pub enum RuntimeError {
    Error { message: String, line: usize },
    Return(Value),
}

/// The model of a `RuntimeError`.
pub enum RuntimeErrorView {
    Error { message: Seq<char>, line: usize },
    Return(ValueView),
}

impl View for RuntimeError {
    type V = RuntimeErrorView;

    open spec fn view(&self) -> RuntimeErrorView {
        match self {
            RuntimeError::Error { message, line } => RuntimeErrorView::Error {
                message: message@,
                line: *line,
            },
            RuntimeError::Return(v) => RuntimeErrorView::Return(v@),
        }
    }
}

impl RuntimeError {
    pub fn new(message: String, line: usize) -> (r: RuntimeError)
        ensures
            r@ == (RuntimeErrorView::Error { message: message@, line }),
    {
        RuntimeError::Error { message, line }
    }

    /// The diagnostic line of an error; `None` for a `return`.
    pub fn to_string(&self) -> (r: Option<String>)
        ensures
            match self@ {
                RuntimeErrorView::Error { message, line } => r matches Some(t) && t@
                    == diagnostic_text(line, message),
                RuntimeErrorView::Return(_) => r is None,
            },
    {
        match self {
            RuntimeError::Error { message, line } => Some(diagnostic(*line, message.as_str())),
            RuntimeError::Return(_) => None,
        }
    }
}

/// The text of a `return` that has left the program: `Return` and the
/// text of the value.
pub open spec fn return_text(value: Seq<char>) -> Seq<char> {
    "Return "@ + value
}

impl RuntimeError {
    /// The text of what stopped the program, where `number` gives the text
    /// of a number.
    pub fn render<F: Fn(u64) -> String>(&self, number: &F) -> (r: String)
        requires
            forall|n: u64| call_requires(number, (n,)),
        ensures
            match self@ {
                RuntimeErrorView::Error { message, line } => r@ == diagnostic_text(line, message),
                RuntimeErrorView::Return(ValueView::Number(n)) => exists|t: String|
                    call_ensures(number, (n,), t) && r@ == return_text(t@),
                RuntimeErrorView::Return(v) => r@ == return_text(value_text(v)),
            },
    {
        match self {
            RuntimeError::Error { message, line } => diagnostic(*line, message.as_str()),
            RuntimeError::Return(v) => {
                let mut s = String::from_str("Return ");
                let t = v.render(number);
                s.append(t.as_str());
                s
            },
        }
    }
}

/// An error with the given message on the given line.
pub open spec fn error_at(message: Seq<char>, line: usize) -> RuntimeErrorView {
    RuntimeErrorView::Error { message, line }
}

} // verus!
