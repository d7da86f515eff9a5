//! The syntax tree: expressions and statements, with their models.

use vstd::prelude::*;
use crate::grammar::is_decimal;
use crate::text::{append, chars_of};
use crate::token::{Token, TokenView};

verus! {

/// A decimal numeral: digits, and after them at most one point that digits
/// follow. No value of this type holds another text.
#[derive(Debug)]
pub struct Numeral {
    text: String,
}

impl View for Numeral {
    type V = Seq<char>;

    closed spec fn view(&self) -> Seq<char> {
        self.text@
    }
}

impl Numeral {
    #[verifier::type_invariant]
    spec fn decimal(&self) -> bool {
        is_decimal(self.text@)
    }

    /// The numeral with the text, where the text is one.
    pub fn new(text: String) -> (r: Option<Numeral>)
        ensures
            match r {
                Some(n) => is_decimal(text@) && n@ == text@,
                None => !is_decimal(text@),
            },
    {
        if crate::parser::is_decimal(text.as_str()) {
            Some(Numeral { text })
        } else {
            None
        }
    }

    /// The text of the numeral.
    pub fn text(&self) -> (r: &String)
        ensures
            r@ == self@,
            is_decimal(r@),
    {
        proof {
            use_type_invariant(self);
        }
        &self.text
    }
}

impl Clone for Numeral {
    fn clone(&self) -> (r: Self)
        ensures
            r@ == self@,
    {
        proof {
            use_type_invariant(self);
        }
        Numeral { text: self.text.clone() }
    }
}

/// A literal value as it stands in the source. A number is kept as its
/// decimal text.
#[derive(Debug)]
pub enum Literal {
    Number(Numeral),
    String(String),
    Bool(bool),
    Nil,
}

/// The model of a `Literal`.
pub enum LiteralView {
    Number(Seq<char>),
    String(Seq<char>),
    Bool(bool),
    Nil,
}

impl View for Literal {
    type V = LiteralView;

    open spec fn view(&self) -> LiteralView {
        match self {
            Literal::Number(t) => LiteralView::Number(t@),
            Literal::String(t) => LiteralView::String(t@),
            Literal::Bool(b) => LiteralView::Bool(*b),
            Literal::Nil => LiteralView::Nil,
        }
    }
}

impl Clone for Literal {
    fn clone(&self) -> (r: Self)
        ensures
            r@ == self@,
    {
        match self {
            Literal::Number(t) => Literal::Number(t.clone()),
            Literal::String(t) => Literal::String(t.clone()),
            Literal::Bool(b) => Literal::Bool(*b),
            Literal::Nil => Literal::Nil,
        }
    }
}

/// The text of a literal. A number is shown with a point: one without
/// gains the fraction `.0`.
pub open spec fn literal_text(l: LiteralView) -> Seq<char> {
    match l {
        LiteralView::Number(t) => if t.contains('.') {
            t
        } else {
            t + ".0"@
        },
        LiteralView::String(t) => t,
        LiteralView::Bool(b) => if b {
            "true"@
        } else {
            "false"@
        },
        LiteralView::Nil => "nil"@,
    }
}

/// Whether the text holds a point.
fn holds_point(text: &str) -> (r: bool)
    ensures
        r == text@.contains('.'),
{
    let chars = chars_of(text);
    let mut i: usize = 0;
    while i < chars.len()
        invariant
            i <= chars.len(),
            chars@ == text@,
            forall|j: int| 0 <= j < i ==> chars@[j] != '.',
        decreases chars.len() - i,
    {
        if chars[i] == '.' {
            assert(text@[i as int] == '.');
            return true;
        }
        i += 1;
    }
    false
}

impl Literal {
    /// The text of the literal.
    pub fn to_string(&self) -> (r: String)
        ensures
            r@ == literal_text(self@),
    {
        match self {
            Literal::Number(t) => {
                let mut s = t.text().clone();
                if !holds_point(t.text().as_str()) {
                    append(&mut s, ".0");
                }
                s
            },
            Literal::String(t) => t.clone(),
            Literal::Bool(b) => if *b {
                String::from_str("true")
            } else {
                String::from_str("false")
            },
            Literal::Nil => String::from_str("nil"),
        }
    }
}

/// An expression.
#[derive(Debug)]
pub enum Expr {
    Literal(Literal),
    Unary(Token, Box<Expr>),
    Binary(Box<Expr>, Token, Box<Expr>),
    Grouping(Box<Expr>),
    Variable(Token),
    Assign(Token, Box<Expr>),
    Logical(Box<Expr>, Token, Box<Expr>),
    /// The callee, the closing parenthesis of the call, and the arguments.
    Call(Box<Expr>, Token, Vec<Expr>),
}

/// The model of an `Expr`.
pub enum ExprView {
    Literal(LiteralView),
    Unary(TokenView, Box<ExprView>),
    Binary(Box<ExprView>, TokenView, Box<ExprView>),
    Grouping(Box<ExprView>),
    Variable(TokenView),
    Assign(TokenView, Box<ExprView>),
    Logical(Box<ExprView>, TokenView, Box<ExprView>),
    Call(Box<ExprView>, TokenView, Seq<ExprView>),
}

impl Expr {
    /// The model of the expression.
    pub open spec fn model(&self) -> ExprView
        decreases self,
    {
        match self {
            Expr::Literal(l) => ExprView::Literal(l@),
            Expr::Unary(op, e) => ExprView::Unary(op@, Box::new(e.model())),
            Expr::Binary(l, op, r) => ExprView::Binary(
                Box::new(l.model()),
                op@,
                Box::new(r.model()),
            ),
            Expr::Grouping(e) => ExprView::Grouping(Box::new(e.model())),
            Expr::Variable(name) => ExprView::Variable(name@),
            Expr::Assign(name, e) => ExprView::Assign(name@, Box::new(e.model())),
            Expr::Logical(l, op, r) => ExprView::Logical(
                Box::new(l.model()),
                op@,
                Box::new(r.model()),
            ),
            Expr::Call(callee, paren, args) => ExprView::Call(
                Box::new(callee.model()),
                paren@,
                Seq::new(
                    args@.len(),
                    |i: int|
                        if 0 <= i < args@.len() {
                            args@[i].model()
                        } else {
                            arbitrary()
                        },
                ),
            ),
        }
    }

    /// A copy of the expression.
    #[verifier::loop_isolation(false)]
    pub fn duplicate(&self) -> (r: Expr)
        ensures
            r@ == self@,
        decreases self,
    {
        match self {
            Expr::Literal(l) => Expr::Literal(l.clone()),
            Expr::Unary(op, e) => Expr::Unary(op.clone(), Box::new(e.duplicate())),
            Expr::Binary(l, op, r) => Expr::Binary(
                Box::new(l.duplicate()),
                op.clone(),
                Box::new(r.duplicate()),
            ),
            Expr::Grouping(e) => Expr::Grouping(Box::new(e.duplicate())),
            Expr::Variable(name) => Expr::Variable(name.clone()),
            Expr::Assign(name, e) => Expr::Assign(name.clone(), Box::new(e.duplicate())),
            Expr::Logical(l, op, r) => Expr::Logical(
                Box::new(l.duplicate()),
                op.clone(),
                Box::new(r.duplicate()),
            ),
            Expr::Call(callee, paren, args) => {
                let mut out: Vec<Expr> = Vec::new();
                let mut i: usize = 0;
                while i < args.len()
                    invariant
                        i <= args.len(),
                        out.len() == i,
                        forall|j: int| 0 <= j < i ==> out@[j]@ == args@[j]@,
                    decreases args.len() - i,
                {
                    out.push(args[i].duplicate());
                    i += 1;
                }
                let r = Expr::Call(Box::new(callee.duplicate()), paren.clone(), out);
                assert(r@->Call_2 =~= self@->Call_2);
                r
            },
        }
    }
}

/// The text of an expression, with every operation in parentheses before
/// its operands.
pub open spec fn expr_text(e: ExprView) -> Seq<char>
    decreases e,
{
    match e {
        ExprView::Literal(l) => literal_text(l),
        ExprView::Unary(op, inner) => "("@ + op.lexeme + " "@ + expr_text(*inner) + ")"@,
        ExprView::Binary(left, op, right) => "("@ + op.lexeme + " "@ + expr_text(*left) + " "@
            + expr_text(*right) + ")"@,
        ExprView::Grouping(inner) => "(group "@ + expr_text(*inner) + ")"@,
        ExprView::Variable(name) => name.lexeme,
        ExprView::Assign(name, inner) => "("@ + name.lexeme + " = "@ + expr_text(*inner) + ")"@,
        ExprView::Logical(left, op, right) => "("@ + op.lexeme + " "@ + expr_text(*left) + " "@
            + expr_text(*right) + ")"@,
        ExprView::Call(callee, _, args) => "(call "@ + expr_text(*callee) + arguments_text(args)
            + ")"@,
    }
}

/// The texts of the arguments of a call, each after a space.
pub open spec fn arguments_text(args: Seq<ExprView>) -> Seq<char>
    decreases args,
{
    if args.len() == 0 {
        Seq::empty()
    } else {
        arguments_text(args.drop_last()) + " "@ + expr_text(args.last())
    }
}

impl Expr {
    /// The text of the expression.
    #[verifier::loop_isolation(false)]
    pub fn to_string(&self) -> (r: String)
        ensures
            r@ == expr_text(self@),
        decreases self,
    {
        match self {
            Expr::Literal(l) => l.to_string(),
            Expr::Unary(op, inner) => {
                let mut s = String::from_str("(");
                append(&mut s, op.lexeme.as_str());
                append(&mut s, " ");
                let operand = inner.to_string();
                append(&mut s, operand.as_str());
                append(&mut s, ")");
                s
            },
            Expr::Binary(left, op, right) => {
                let mut s = String::from_str("(");
                append(&mut s, op.lexeme.as_str());
                append(&mut s, " ");
                let first = left.to_string();
                append(&mut s, first.as_str());
                append(&mut s, " ");
                let second = right.to_string();
                append(&mut s, second.as_str());
                append(&mut s, ")");
                s
            },
            Expr::Grouping(inner) => {
                let mut s = String::from_str("(group ");
                let operand = inner.to_string();
                append(&mut s, operand.as_str());
                append(&mut s, ")");
                s
            },
            Expr::Variable(name) => name.lexeme.clone(),
            Expr::Assign(name, inner) => {
                let mut s = String::from_str("(");
                append(&mut s, name.lexeme.as_str());
                append(&mut s, " = ");
                let operand = inner.to_string();
                append(&mut s, operand.as_str());
                append(&mut s, ")");
                s
            },
            Expr::Logical(left, op, right) => {
                let mut s = String::from_str("(");
                append(&mut s, op.lexeme.as_str());
                append(&mut s, " ");
                let first = left.to_string();
                append(&mut s, first.as_str());
                append(&mut s, " ");
                let second = right.to_string();
                append(&mut s, second.as_str());
                append(&mut s, ")");
                s
            },
            Expr::Call(callee, _, args) => {
                let mut s = String::from_str("(call ");
                let first = callee.to_string();
                append(&mut s, first.as_str());
                let ghost head = s@;
                let ghost all = self@->Call_2;
                let mut i: usize = 0;
                assert(all.take(0) =~= Seq::empty());
                while i < args.len()
                    invariant
                        i <= args.len(),
                        all.len() == args.len(),
                        forall|j: int| 0 <= j < args.len() ==> all[j] == args@[j]@,
                        s@ == head + arguments_text(all.take(i as int)),
                    decreases args.len() - i,
                {
                    append(&mut s, " ");
                    let next = args[i].to_string();
                    append(&mut s, next.as_str());
                    proof {
                        let before = all.take(i as int);
                        let now = all.take(i + 1);
                        assert(now.drop_last() =~= before);
                        assert(now.last() == all[i as int]);
                        assert(s@ =~= head + arguments_text(now));
                    }
                    i += 1;
                }
                assert(all.take(args.len() as int) =~= all);
                append(&mut s, ")");
                s
            },
        }
    }
}

impl View for Expr {
    type V = ExprView;

    open spec fn view(&self) -> ExprView {
        self.model()
    }
}

impl DeepView for Expr {
    type V = ExprView;

    open spec fn deep_view(&self) -> ExprView {
        self.model()
    }
}

impl Clone for Expr {
    fn clone(&self) -> (r: Self)
        ensures
            r@ == self@,
    {
        self.duplicate()
    }
}

/// The model of an optional expression.
pub open spec fn option_expr(e: Option<Expr>) -> Option<ExprView> {
    match e {
        Some(x) => Some(x@),
        None => None,
    }
}

/// A copy of an optional expression.
pub fn duplicate_option(e: &Option<Expr>) -> (r: Option<Expr>)
    ensures
        option_expr(r) == option_expr(*e),
{
    match e {
        Some(x) => Some(x.duplicate()),
        None => None,
    }
}

/// A copy of a list of tokens.
pub fn duplicate_tokens(tokens: &Vec<Token>) -> (r: Vec<Token>)
    ensures
        r.deep_view() == tokens.deep_view(),
{
    let mut out: Vec<Token> = Vec::new();
    let mut i: usize = 0;
    while i < tokens.len()
        invariant
            i <= tokens.len(),
            out.len() == i,
            forall|j: int| 0 <= j < i ==> out@[j]@ == tokens@[j]@,
        decreases tokens.len() - i,
    {
        out.push(tokens[i].clone());
        i += 1;
    }
    assert(out.deep_view() =~= tokens.deep_view());
    out
}

/// A statement.
#[derive(Debug)]
pub enum Stmt {
    Expression(Expr),
    Print(Expr),
    Var(Token, Option<Expr>),
    Block(Vec<Stmt>),
    If(Expr, Box<Stmt>, Option<Box<Stmt>>),
    While(Expr, Box<Stmt>),
    /// Initializer, condition, increment, body.
    For(Option<Box<Stmt>>, Option<Expr>, Option<Expr>, Box<Stmt>),
    /// Name, parameters, body.
    Function(Token, Vec<Token>, Vec<Stmt>),
    Return(Option<Expr>),
}

/// The model of a `Stmt`.
pub enum StmtView {
    Expression(ExprView),
    Print(ExprView),
    Var(TokenView, Option<ExprView>),
    Block(Seq<StmtView>),
    If(ExprView, Box<StmtView>, Option<Box<StmtView>>),
    While(ExprView, Box<StmtView>),
    For(Option<Box<StmtView>>, Option<ExprView>, Option<ExprView>, Box<StmtView>),
    Function(TokenView, Seq<TokenView>, Seq<StmtView>),
    Return(Option<ExprView>),
}

impl Stmt {
    /// The model of the statement.
    pub open spec fn model(&self) -> StmtView
        decreases self,
    {
        match self {
            Stmt::Expression(e) => StmtView::Expression(e@),
            Stmt::Print(e) => StmtView::Print(e@),
            Stmt::Var(name, init) => StmtView::Var(name@, option_expr(*init)),
            Stmt::Block(stmts) => StmtView::Block(
                Seq::new(
                    stmts@.len(),
                    |i: int|
                        if 0 <= i < stmts@.len() {
                            stmts@[i].model()
                        } else {
                            arbitrary()
                        },
                ),
            ),
            Stmt::If(c, then_branch, else_branch) => StmtView::If(
                c@,
                Box::new(then_branch.model()),
                match else_branch {
                    Some(s) => Some(Box::new(s.model())),
                    None => None,
                },
            ),
            Stmt::While(c, body) => StmtView::While(c@, Box::new(body.model())),
            Stmt::For(init, c, step, body) => StmtView::For(
                match init {
                    Some(s) => Some(Box::new(s.model())),
                    None => None,
                },
                option_expr(*c),
                option_expr(*step),
                Box::new(body.model()),
            ),
            Stmt::Function(name, params, body) => StmtView::Function(
                name@,
                params.deep_view(),
                Seq::new(
                    body@.len(),
                    |i: int|
                        if 0 <= i < body@.len() {
                            body@[i].model()
                        } else {
                            arbitrary()
                        },
                ),
            ),
            Stmt::Return(e) => StmtView::Return(option_expr(*e)),
        }
    }

    /// A copy of the statement.
    #[verifier::loop_isolation(false)]
    pub fn duplicate(&self) -> (r: Stmt)
        ensures
            r@ == self@,
        decreases self,
    {
        match self {
            Stmt::Expression(e) => Stmt::Expression(e.duplicate()),
            Stmt::Print(e) => Stmt::Print(e.duplicate()),
            Stmt::Var(name, init) => Stmt::Var(name.clone(), duplicate_option(init)),
            Stmt::Block(stmts) => {
                let mut out: Vec<Stmt> = Vec::new();
                let mut i: usize = 0;
                while i < stmts.len()
                    invariant
                        i <= stmts.len(),
                        out.len() == i,
                        forall|j: int| 0 <= j < i ==> out@[j]@ == stmts@[j]@,
                    decreases stmts.len() - i,
                {
                    out.push(stmts[i].duplicate());
                    i += 1;
                }
                let r = Stmt::Block(out);
                assert(r@->Block_0 =~= self@->Block_0);
                r
            },
            Stmt::If(c, then_branch, else_branch) => {
                let other = match else_branch {
                    Some(s) => Some(Box::new(s.duplicate())),
                    None => None,
                };
                Stmt::If(c.duplicate(), Box::new(then_branch.duplicate()), other)
            },
            Stmt::While(c, body) => Stmt::While(c.duplicate(), Box::new(body.duplicate())),
            Stmt::For(init, c, step, body) => {
                let first = match init {
                    Some(s) => Some(Box::new(s.duplicate())),
                    None => None,
                };
                Stmt::For(
                    first,
                    duplicate_option(c),
                    duplicate_option(step),
                    Box::new(body.duplicate()),
                )
            },
            Stmt::Function(name, params, body) => {
                let mut out: Vec<Stmt> = Vec::new();
                let mut i: usize = 0;
                while i < body.len()
                    invariant
                        i <= body.len(),
                        out.len() == i,
                        forall|j: int| 0 <= j < i ==> out@[j]@ == body@[j]@,
                    decreases body.len() - i,
                {
                    out.push(body[i].duplicate());
                    i += 1;
                }
                let r = Stmt::Function(name.clone(), duplicate_tokens(params), out);
                assert(r@->Function_2 =~= self@->Function_2);
                r
            },
            Stmt::Return(e) => Stmt::Return(duplicate_option(e)),
        }
    }
}

impl View for Stmt {
    type V = StmtView;

    open spec fn view(&self) -> StmtView {
        self.model()
    }
}

impl DeepView for Stmt {
    type V = StmtView;

    open spec fn deep_view(&self) -> StmtView {
        self.model()
    }
}

impl Clone for Stmt {
    fn clone(&self) -> (r: Self)
        ensures
            r@ == self@,
    {
        self.duplicate()
    }
}

/// The model of an optional statement.
pub open spec fn option_stmt(s: Option<Stmt>) -> Option<StmtView> {
    match s {
        Some(x) => Some(x@),
        None => None,
    }
}

/// A copy of a list of statements.
pub fn duplicate_stmts(stmts: &Vec<Stmt>) -> (r: Vec<Stmt>)
    ensures
        r.deep_view() == stmts.deep_view(),
{
    let mut out: Vec<Stmt> = Vec::new();
    let mut i: usize = 0;
    while i < stmts.len()
        invariant
            i <= stmts.len(),
            out.len() == i,
            forall|j: int| 0 <= j < i ==> out@[j]@ == stmts@[j]@,
        decreases stmts.len() - i,
    {
        out.push(stmts[i].duplicate());
        i += 1;
    }
    assert(out.deep_view() =~= stmts.deep_view());
    out
}

} // verus!
