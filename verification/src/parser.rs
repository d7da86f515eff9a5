//! The recursive-descent parser. Each method parses what the function of
//! the same name in the grammar describes, from the current token on.

use vstd::prelude::*;
use crate::ast::{Expr, ExprView, Literal, Numeral, Stmt, StmtView};
use crate::grammar;
use crate::grammar::{Level, ParseErrorView, Parsed};
use crate::scanner::{run_end, Class};
use crate::text::chars_of;
use crate::token::{diagnostic, diagnostic_text, Token, TokenType, TokenView};

verus! {

/// A syntax error: what was expected, and on which line.
#[derive(Debug)]
pub struct ParseError {
    message: String,
    line: usize,
}

impl View for ParseError {
    type V = ParseErrorView;

    closed spec fn view(&self) -> ParseErrorView {
        ParseErrorView { message: self.message@, line: self.line }
    }
}

impl ParseError {
    pub fn new(message: &str, line: usize) -> (r: ParseError)
        ensures
            r@ == (ParseErrorView { message: message@, line }),
    {
        ParseError { message: String::from_str(message), line }
    }

    /// What was expected.
    pub fn message(&self) -> (r: &String)
        ensures
            r@ == self@.message,
    {
        &self.message
    }

    /// The line of the token at which the error was found.
    pub fn line(&self) -> (r: usize)
        ensures
            r == self@.line,
    {
        self.line
    }

    /// The error as a diagnostic line.
    pub fn to_string(&self) -> (r: String)
        ensures
            r@ == diagnostic_text(self@.line, self@.message),
    {
        diagnostic(self.line, self.message.as_str())
    }
}

/// Where the digits that start at `from` end.
fn digits_end(chars: &Vec<char>, from: usize) -> (r: usize)
    requires
        from <= chars.len(),
    ensures
        r == run_end(chars@, from as int, Class::Digit),
        from <= r <= chars.len(),
{
    let mut i: usize = from;
    while i < chars.len() && '0' <= chars[i] && chars[i] <= '9'
        invariant
            from <= i <= chars.len(),
            run_end(chars@, i as int, Class::Digit) == run_end(chars@, from as int, Class::Digit),
        decreases chars.len() - i,
    {
        i += 1;
    }
    i
}

/// Whether the text is a decimal numeral.
pub fn is_decimal(text: &str) -> (r: bool)
    ensures
        r == grammar::is_decimal(text@),
{
    let chars = chars_of(text);
    let point = digits_end(&chars, 0);
    if point == 0 {
        return false;
    }
    if point == chars.len() {
        return true;
    }
    if chars[point] != '.' || point + 1 >= chars.len() {
        return false;
    }
    let end = digits_end(&chars, point + 1);
    end == chars.len()
}

fn higher(level: Level) -> (r: Option<Level>)
    ensures
        r == grammar::higher(level),
{
    match level {
        Level::Or => Some(Level::And),
        Level::And => Some(Level::Equality),
        Level::Equality => Some(Level::Comparison),
        Level::Comparison => Some(Level::Term),
        Level::Term => Some(Level::Factor),
        Level::Factor => None,
    }
}

fn is_operator(level: Level, kind: TokenType) -> (r: bool)
    ensures
        r == grammar::is_operator(level, kind),
{
    match level {
        Level::Or => kind == TokenType::Or,
        Level::And => kind == TokenType::And,
        Level::Equality => kind == TokenType::BangEqual || kind == TokenType::EqualEqual,
        Level::Comparison => kind == TokenType::Greater || kind == TokenType::GreaterEqual || kind
            == TokenType::Less || kind == TokenType::LessEqual,
        Level::Term => kind == TokenType::Minus || kind == TokenType::Plus,
        Level::Factor => kind == TokenType::Slash || kind == TokenType::Star,
    }
}

fn combine(level: Level, left: Expr, op: Token, right: Expr) -> (r: Expr)
    ensures
        r@ == grammar::combine(level, left@, op@, right@),
{
    match level {
        Level::Or => Expr::Logical(Box::new(left), op, Box::new(right)),
        Level::And => Expr::Logical(Box::new(left), op, Box::new(right)),
        _ => Expr::Binary(Box::new(left), op, Box::new(right)),
    }
}

/// The parser: the tokens and the place of the next one.
pub struct Parser<'a> {
    tokens: &'a [Token],
    current: usize,
}

/// The model of a `Parser`.
pub struct ParserView {
    pub tokens: Seq<TokenView>,
    pub current: int,
}

/// Whether the tokens end with the end of the file and `current` is the
/// place of one of them.
pub open spec fn well_formed(p: ParserView) -> bool {
    &&& p.tokens.len() > 0
    &&& p.tokens.last().token_type == TokenType::Eof
    &&& 0 <= p.current < p.tokens.len()
}

/// A parser that started at `before` has parsed what `expected` says and
/// stands at `after`.
pub open spec fn agrees<T>(before: ParserView, after: ParserView, expected: Parsed<T>, got: Parsed<T>)
    -> bool {
    &&& well_formed(after)
    &&& after.tokens == before.tokens
    &&& expected == got
    &&& got is Ok ==> before.current < after.current
}

/// The result of a method that gives an expression.
pub open spec fn expr_at(r: Result<Expr, ParseError>, next: int) -> Parsed<ExprView> {
    match r {
        Ok(e) => Ok((e@, next)),
        Err(x) => Err(x@),
    }
}

/// The result of a method that gives a statement.
pub open spec fn stmt_at(r: Result<Stmt, ParseError>, next: int) -> Parsed<StmtView> {
    match r {
        Ok(s) => Ok((s@, next)),
        Err(x) => Err(x@),
    }
}

/// The result of a method that gives a token.
pub open spec fn token_at(r: Result<Token, ParseError>, next: int) -> Parsed<TokenView> {
    match r {
        Ok(t) => Ok((t@, next)),
        Err(x) => Err(x@),
    }
}

/// The result of a method that gives statements.
pub open spec fn stmts_at(r: Result<Vec<Stmt>, ParseError>, next: int) -> Parsed<Seq<StmtView>> {
    match r {
        Ok(s) => Ok((s.deep_view(), next)),
        Err(x) => Err(x@),
    }
}

/// The result of a method that gives expressions.
pub open spec fn exprs_at(r: Result<Vec<Expr>, ParseError>, next: int) -> Parsed<Seq<ExprView>> {
    match r {
        Ok(s) => Ok((s.deep_view(), next)),
        Err(x) => Err(x@),
    }
}

/// The result of a method that gives tokens.
pub open spec fn tokens_at(r: Result<Vec<Token>, ParseError>, next: int) -> Parsed<
    Seq<TokenView>,
> {
    match r {
        Ok(s) => Ok((s.deep_view(), next)),
        Err(x) => Err(x@),
    }
}

impl<'a> View for Parser<'a> {
    type V = ParserView;

    closed spec fn view(&self) -> ParserView {
        ParserView { tokens: self.tokens.deep_view(), current: self.current as int }
    }
}

impl<'a> Parser<'a> {
    /// The tokens end with the end of the file, and the parser stands at
    /// one of them.
    pub open spec fn wf(&self) -> bool {
        well_formed(self@)
    }

    /// A parser at the first of the tokens, the last of which has to be
    /// the end of the file.
    pub fn new(tokens: &'a [Token]) -> (r: Parser<'a>)
        requires
            tokens.len() > 0,
            tokens[tokens.len() - 1].token_type == TokenType::Eof,
        ensures
            r.wf(),
            r@ == (ParserView { tokens: tokens.deep_view(), current: 0 }),
    {
        Parser { tokens, current: 0 }
    }

    /// The next token.
    pub fn peek(&self) -> (r: &Token)
        requires
            self.wf(),
        ensures
            r@ == self@.tokens[self@.current],
    {
        &self.tokens[self.current]
    }

    /// The token before the next.
    pub fn previous(&self) -> (r: &Token)
        requires
            self.wf(),
            self@.current > 0,
        ensures
            r@ == self@.tokens[self@.current - 1],
    {
        &self.tokens[self.current - 1]
    }

    /// Whether the next token is the end of the file.
    pub fn is_at_end(&self) -> (r: bool)
        requires
            self.wf(),
        ensures
            r == grammar::at_end(self@.tokens, self@.current),
    {
        self.tokens[self.current].token_type == TokenType::Eof
    }

    /// Whether the next token is of the kind.
    pub fn check(&self, token_type: TokenType) -> (r: bool)
        requires
            self.wf(),
        ensures
            r == grammar::check(self@.tokens, self@.current, token_type),
    {
        if self.is_at_end() {
            return false;
        }
        self.tokens[self.current].token_type == token_type
    }

    /// Moves past the next token, which is not the end of the file.
    fn step(&mut self)
        requires
            old(self).wf(),
            !grammar::at_end(old(self)@.tokens, old(self)@.current),
        ensures
            final(self).wf(),
            final(self)@ == (ParserView { current: old(self)@.current + 1, ..old(self)@ }),
    {
        let n: usize = self.tokens.len();
        if self.current + 1 < n {
            self.current += 1;
        }
    }

    /// Moves past the next token, unless it is the end of the file, and
    /// gives the token before the one that is then the next.
    pub fn advance(&mut self) -> (r: Token)
        requires
            old(self).wf(),
            old(self)@.current > 0 || !grammar::at_end(old(self)@.tokens, old(self)@.current),
        ensures
            final(self).wf(),
            final(self)@.tokens == old(self)@.tokens,
            final(self)@.current == if grammar::at_end(old(self)@.tokens, old(self)@.current) {
                old(self)@.current
            } else {
                old(self)@.current + 1
            },
            r@ == final(self)@.tokens[final(self)@.current - 1],
    {
        if !self.is_at_end() {
            self.step();
        }
        self.tokens[self.current - 1].clone()
    }

    /// Moves past the next token where it is of one of the kinds.
    pub fn matches(&mut self, types: &[TokenType]) -> (r: bool)
        requires
            old(self).wf(),
        ensures
            final(self).wf(),
            final(self)@.tokens == old(self)@.tokens,
            r == (exists|i: int|
                0 <= i < types@.len() && grammar::check(
                    old(self)@.tokens,
                    old(self)@.current,
                    #[trigger] types@[i],
                )),
            final(self)@.current == if r {
                old(self)@.current + 1
            } else {
                old(self)@.current
            },
    {
        let mut i: usize = 0;
        while i < types.len()
            invariant
                self.wf(),
                self@ == old(self)@,
                i <= types@.len(),
                forall|j: int|
                    0 <= j < i ==> !grammar::check(self@.tokens, self@.current, #[trigger] types@[j]),
            decreases types.len() - i,
        {
            if self.check(types[i]) {
                self.step();
                return true;
            }
            i += 1;
        }
        false
    }

    /// Moves past the next token where it is of the kind, and fails with
    /// the message where it is not.
    pub fn consume(&mut self, token_type: TokenType, message: &str) -> (r: Result<
        Token,
        ParseError,
    >)
        requires
            old(self).wf(),
        ensures
            agrees(
                old(self)@,
                final(self)@,
                grammar::consume(old(self)@.tokens, old(self)@.current, token_type, message@),
                token_at(r, final(self)@.current),
            ),
    {
        if self.check(token_type) {
            return Ok(self.advance());
        }
        Err(ParseError::new(message, self.tokens[self.current].line))
    }

    /// Moves past the next token where it is of the kind.
    fn skip(&mut self, token_type: TokenType) -> (r: bool)
        requires
            old(self).wf(),
        ensures
            final(self).wf(),
            final(self)@.tokens == old(self)@.tokens,
            r == grammar::check(old(self)@.tokens, old(self)@.current, token_type),
            final(self)@.current == if r {
                old(self)@.current + 1
            } else {
                old(self)@.current
            },
    {
        if self.check(token_type) {
            self.step();
            true
        } else {
            false
        }
    }

    /// The literal that the token holds.
    pub fn convert_token_literal(&self, token: Token) -> (r: Result<Literal, ParseError>)
        ensures
            match grammar::literal_of(token@) {
                Ok(l) => r matches Ok(x) && x@ == l,
                Err(e) => r matches Err(x) && x@ == e,
            },
    {
        match token.token_type {
            TokenType::False => Ok(Literal::Bool(false)),
            TokenType::True => Ok(Literal::Bool(true)),
            TokenType::Nil => Ok(Literal::Nil),
            TokenType::Number => match token.literal {
                Some(text) => match Numeral::new(text) {
                    Some(n) => Ok(Literal::Number(n)),
                    None => Err(ParseError::new("Expect number.", token.line)),
                },
                None => Err(ParseError::new("Expect number.", token.line)),
            },
            TokenType::String => match token.literal {
                Some(text) => Ok(Literal::String(text)),
                None => Err(ParseError::new("Expect string.", token.line)),
            },
            _ => Err(ParseError::new("Expect literal.", token.line)),
        }
    }

    /// A literal.
    fn literal(&mut self) -> (r: Result<Expr, ParseError>)
        requires
            old(self).wf(),
        ensures
            agrees(
                old(self)@,
                final(self)@,
                grammar::literal(old(self)@.tokens, old(self)@.current),
                expr_at(r, final(self)@.current),
            ),
    {
        let kind = self.tokens[self.current].token_type;
        if kind == TokenType::False || kind == TokenType::True || kind == TokenType::Nil || kind
            == TokenType::Number || kind == TokenType::String {
            let token = self.advance();
            match self.convert_token_literal(token) {
                Ok(l) => Ok(Expr::Literal(l)),
                Err(e) => Err(e),
            }
        } else {
            Err(ParseError::new("Expect expression.", self.tokens[self.current].line))
        }
    }

    /// How many tokens are left.
    pub open spec fn left(&self) -> int {
        self@.tokens.len() - self@.current
    }

    /// An expression.
    pub fn parse_expr(&mut self) -> (r: Result<Expr, ParseError>)
        requires
            old(self).wf(),
        ensures
            agrees(
                old(self)@,
                final(self)@,
                grammar::expression(old(self)@.tokens, old(self)@.current),
                expr_at(r, final(self)@.current),
            ),
    {
        self.expression()
    }

    fn expression(&mut self) -> (r: Result<Expr, ParseError>)
        requires
            old(self).wf(),
        ensures
            agrees(
                old(self)@,
                final(self)@,
                grammar::expression(old(self)@.tokens, old(self)@.current),
                expr_at(r, final(self)@.current),
            ),
        decreases old(self).left(), 30int,
    {
        self.assignment()
    }

    fn assignment(&mut self) -> (r: Result<Expr, ParseError>)
        requires
            old(self).wf(),
        ensures
            agrees(
                old(self)@,
                final(self)@,
                grammar::assignment(old(self)@.tokens, old(self)@.current),
                expr_at(r, final(self)@.current),
            ),
        decreases old(self).left(), 29int,
    {
        let target = match self.binary(Level::Or) {
            Ok(e) => e,
            Err(e) => {
                return Err(e);
            },
        };
        if self.check(TokenType::Equal) {
            let line = self.tokens[self.current].line;
            self.step();
            let value = match self.assignment() {
                Ok(e) => e,
                Err(e) => {
                    return Err(e);
                },
            };
            match target {
                Expr::Variable(name) => Ok(Expr::Assign(name, Box::new(value))),
                _ => Err(ParseError::new("Invalid assignment target.", line)),
            }
        } else {
            Ok(target)
        }
    }

    /// An operand of an operator of the level.
    fn operand(&mut self, level: Level) -> (r: Result<Expr, ParseError>)
        requires
            old(self).wf(),
        ensures
            agrees(
                old(self)@,
                final(self)@,
                match grammar::higher(level) {
                    Some(up) => grammar::binary(old(self)@.tokens, old(self)@.current, up),
                    None => grammar::unary(old(self)@.tokens, old(self)@.current),
                },
                expr_at(r, final(self)@.current),
            ),
        decreases old(self).left(), 2 * grammar::rank(level) - 1,
    {
        match higher(level) {
            Some(up) => self.binary(up),
            None => self.unary(),
        }
    }

    fn binary(&mut self, level: Level) -> (r: Result<Expr, ParseError>)
        requires
            old(self).wf(),
        ensures
            agrees(
                old(self)@,
                final(self)@,
                grammar::binary(old(self)@.tokens, old(self)@.current, level),
                expr_at(r, final(self)@.current),
            ),
        decreases old(self).left(), 2 * grammar::rank(level),
    {
        let ghost t = self@.tokens;
        let mut expr = match self.operand(level) {
            Ok(e) => e,
            Err(e) => {
                return Err(e);
            },
        };
        let ghost start = self@.current;
        while !self.is_at_end() && is_operator(level, self.tokens[self.current].token_type)
            invariant
                self.wf(),
                self@.tokens == t,
                old(self)@.tokens == t,
                old(self)@.current < start <= self@.current,
                grammar::binary_rest(t, self@.current, level, expr@) == grammar::binary(
                    t,
                    old(self)@.current,
                    level,
                ),
            decreases self.left(),
        {
            let op = self.tokens[self.current].clone();
            self.step();
            let right = match self.operand(level) {
                Ok(e) => e,
                Err(e) => {
                    return Err(e);
                },
            };
            expr = combine(level, expr, op, right);
        }
        Ok(expr)
    }

    fn unary(&mut self) -> (r: Result<Expr, ParseError>)
        requires
            old(self).wf(),
        ensures
            agrees(
                old(self)@,
                final(self)@,
                grammar::unary(old(self)@.tokens, old(self)@.current),
                expr_at(r, final(self)@.current),
            ),
        decreases old(self).left(), 3int,
    {
        if self.check(TokenType::Bang) || self.check(TokenType::Minus) {
            let op = self.tokens[self.current].clone();
            self.step();
            match self.unary() {
                Ok(right) => Ok(Expr::Unary(op, Box::new(right))),
                Err(e) => Err(e),
            }
        } else {
            self.call()
        }
    }

    fn call(&mut self) -> (r: Result<Expr, ParseError>)
        requires
            old(self).wf(),
        ensures
            agrees(
                old(self)@,
                final(self)@,
                grammar::call(old(self)@.tokens, old(self)@.current),
                expr_at(r, final(self)@.current),
            ),
        decreases old(self).left(), 2int,
    {
        let ghost t = self@.tokens;
        let mut expr = match self.primary() {
            Ok(e) => e,
            Err(e) => {
                return Err(e);
            },
        };
        let ghost start = self@.current;
        while self.check(TokenType::LeftParen)
            invariant
                self.wf(),
                self@.tokens == t,
                old(self)@.tokens == t,
                old(self)@.current < start <= self@.current,
                grammar::call_rest(t, self@.current, expr@) == grammar::call(
                    t,
                    old(self)@.current,
                ),
            decreases self.left(),
        {
            expr = match self.call_once(expr) {
                Ok(e) => e,
                Err(e) => {
                    return Err(e);
                },
            };
        }
        Ok(expr)
    }

    /// The call of `callee` with the argument list that opens here.
    fn call_once(&mut self, callee: Expr) -> (r: Result<Expr, ParseError>)
        requires
            old(self).wf(),
            grammar::check(old(self)@.tokens, old(self)@.current, TokenType::LeftParen),
        ensures
            agrees(
                old(self)@,
                final(self)@,
                grammar::call_once(old(self)@.tokens, old(self)@.current, callee@),
                expr_at(r, final(self)@.current),
            ),
        decreases old(self).left(), 1int,
    {
        self.step();
        let args = match self.arguments() {
            Ok(a) => a,
            Err(e) => {
                return Err(e);
            },
        };
        let paren = match self.consume(TokenType::RightParen, "Expect ')' after arguments.") {
            Ok(p) => p,
            Err(e) => {
                return Err(e);
            },
        };
        let ghost expected = ExprView::Call(Box::new(callee@), paren@, args.deep_view());
        let called = Expr::Call(Box::new(callee), paren, args);
        assert(called@->Call_2 =~= args.deep_view());
        assert(called@ == expected);
        Ok(called)
    }

    fn arguments(&mut self) -> (r: Result<Vec<Expr>, ParseError>)
        requires
            old(self).wf(),
        ensures
            final(self).wf(),
            final(self)@.tokens == old(self)@.tokens,
            grammar::arguments(old(self)@.tokens, old(self)@.current) == exprs_at(
                r,
                final(self)@.current,
            ),
            r is Ok ==> old(self)@.current <= final(self)@.current,
        decreases old(self).left(), 32int,
    {
        let ghost t = self@.tokens;
        let mut args: Vec<Expr> = Vec::new();
        assert(args.deep_view() =~= Seq::empty());
        if self.check(TokenType::RightParen) {
            return Ok(args);
        }
        let mut more: bool = true;
        while more
            invariant
                self.wf(),
                self@.tokens == t,
                old(self)@.tokens == t,
                old(self)@.current <= self@.current,
                more ==> grammar::argument_list(t, self@.current, args.deep_view())
                    == grammar::arguments(t, old(self)@.current),
                !more ==> Ok::<(Seq<ExprView>, int), ParseErrorView>(
                    (args.deep_view(), self@.current),
                ) == grammar::arguments(t, old(self)@.current),
            decreases
                    self.left(),
                    if more {
                        1int
                    } else {
                        0int
                    },
        {
            let ghost sofar = args.deep_view();
            let e = match self.expression() {
                Ok(e) => e,
                Err(e) => {
                    return Err(e);
                },
            };
            args.push(e);
            assert(args.deep_view() =~= sofar.push(e@));
            more = self.skip(TokenType::Comma);
        }
        Ok(args)
    }

    fn primary(&mut self) -> (r: Result<Expr, ParseError>)
        requires
            old(self).wf(),
        ensures
            agrees(
                old(self)@,
                final(self)@,
                grammar::primary(old(self)@.tokens, old(self)@.current),
                expr_at(r, final(self)@.current),
            ),
        decreases old(self).left(), 1int,
    {
        if self.check(TokenType::LeftParen) {
            self.step();
            let inner = match self.expression() {
                Ok(e) => e,
                Err(e) => {
                    return Err(e);
                },
            };
            match self.consume(TokenType::RightParen, "Expect ')' after expression.") {
                Ok(_) => Ok(Expr::Grouping(Box::new(inner))),
                Err(e) => Err(e),
            }
        } else if self.check(TokenType::Identifier) {
            let name = self.advance();
            Ok(Expr::Variable(name))
        } else {
            self.literal()
        }
    }

    /// An expression and the `;` after it.
    fn terminated(&mut self, message: &str) -> (r: Result<Expr, ParseError>)
        requires
            old(self).wf(),
        ensures
            agrees(
                old(self)@,
                final(self)@,
                grammar::terminated(old(self)@.tokens, old(self)@.current, message@),
                expr_at(r, final(self)@.current),
            ),
    {
        let e = match self.expression() {
            Ok(e) => e,
            Err(e) => {
                return Err(e);
            },
        };
        match self.consume(TokenType::Semicolon, message) {
            Ok(_) => Ok(e),
            Err(e) => Err(e),
        }
    }

    fn var_declaration(&mut self) -> (r: Result<Stmt, ParseError>)
        requires
            old(self).wf(),
        ensures
            agrees(
                old(self)@,
                final(self)@,
                grammar::var_declaration(old(self)@.tokens, old(self)@.current),
                stmt_at(r, final(self)@.current),
            ),
    {
        let name = match self.consume(TokenType::Identifier, "Expect variable name.") {
            Ok(t) => t,
            Err(e) => {
                return Err(e);
            },
        };
        if self.skip(TokenType::Equal) {
            match self.terminated("Expect ';' after value.") {
                Ok(init) => Ok(Stmt::Var(name, Some(init))),
                Err(e) => Err(e),
            }
        } else {
            match self.consume(TokenType::Semicolon, "Expect ';' after value.") {
                Ok(_) => Ok(Stmt::Var(name, None)),
                Err(e) => Err(e),
            }
        }
    }

    fn print_statement(&mut self) -> (r: Result<Stmt, ParseError>)
        requires
            old(self).wf(),
        ensures
            agrees(
                old(self)@,
                final(self)@,
                grammar::print_statement(old(self)@.tokens, old(self)@.current),
                stmt_at(r, final(self)@.current),
            ),
    {
        match self.terminated("Expect ';' after value.") {
            Ok(e) => Ok(Stmt::Print(e)),
            Err(e) => Err(e),
        }
    }

    fn return_statement(&mut self) -> (r: Result<Stmt, ParseError>)
        requires
            old(self).wf(),
        ensures
            agrees(
                old(self)@,
                final(self)@,
                grammar::return_statement(old(self)@.tokens, old(self)@.current),
                stmt_at(r, final(self)@.current),
            ),
    {
        if self.skip(TokenType::Semicolon) {
            Ok(Stmt::Return(None))
        } else {
            match self.terminated("Expect ';' after return value.") {
                Ok(e) => Ok(Stmt::Return(Some(e))),
                Err(e) => Err(e),
            }
        }
    }

    fn expression_stmt(&mut self) -> (r: Result<Stmt, ParseError>)
        requires
            old(self).wf(),
        ensures
            agrees(
                old(self)@,
                final(self)@,
                grammar::expression_stmt(old(self)@.tokens, old(self)@.current),
                stmt_at(r, final(self)@.current),
            ),
    {
        match self.terminated("Expect ';' after expression.") {
            Ok(e) => Ok(Stmt::Expression(e)),
            Err(e) => Err(e),
        }
    }

    /// An expression in parentheses.
    fn condition(&mut self, open: &str, close: &str) -> (r: Result<Expr, ParseError>)
        requires
            old(self).wf(),
        ensures
            agrees(
                old(self)@,
                final(self)@,
                grammar::condition(old(self)@.tokens, old(self)@.current, open@, close@),
                expr_at(r, final(self)@.current),
            ),
    {
        match self.consume(TokenType::LeftParen, open) {
            Ok(_) => {},
            Err(e) => {
                return Err(e);
            },
        }
        let c = match self.expression() {
            Ok(e) => e,
            Err(e) => {
                return Err(e);
            },
        };
        match self.consume(TokenType::RightParen, close) {
            Ok(_) => Ok(c),
            Err(e) => Err(e),
        }
    }

    /// The parameters of a function.
    fn parameters(&mut self) -> (r: Result<Vec<Token>, ParseError>)
        requires
            old(self).wf(),
        ensures
            final(self).wf(),
            final(self)@.tokens == old(self)@.tokens,
            grammar::parameters(old(self)@.tokens, old(self)@.current) == tokens_at(
                r,
                final(self)@.current,
            ),
            r is Ok ==> old(self)@.current <= final(self)@.current,
    {
        let ghost t = self@.tokens;
        let mut params: Vec<Token> = Vec::new();
        assert(params.deep_view() =~= Seq::empty());
        if self.check(TokenType::RightParen) {
            return Ok(params);
        }
        let mut more: bool = true;
        while more
            invariant
                self.wf(),
                self@.tokens == t,
                old(self)@.tokens == t,
                old(self)@.current <= self@.current,
                more ==> grammar::parameter_list(t, self@.current, params.deep_view())
                    == grammar::parameters(t, old(self)@.current),
                !more ==> Ok::<(Seq<TokenView>, int), ParseErrorView>(
                    (params.deep_view(), self@.current),
                ) == grammar::parameters(t, old(self)@.current),
            decreases
                    self.left(),
                    if more {
                        1int
                    } else {
                        0int
                    },
        {
            let ghost sofar = params.deep_view();
            let name = match self.consume(TokenType::Identifier, "Expect parameter name.") {
                Ok(t) => t,
                Err(e) => {
                    return Err(e);
                },
            };
            params.push(name);
            assert(params.deep_view() =~= sofar.push(name@));
            more = self.skip(TokenType::Comma);
        }
        Ok(params)
    }

    /// The name and the parameters of a function, up to its body.
    fn function_head(&mut self) -> (r: Result<(Token, Vec<Token>), ParseError>)
        requires
            old(self).wf(),
        ensures
            final(self).wf(),
            final(self)@.tokens == old(self)@.tokens,
            match grammar::function_head(old(self)@.tokens, old(self)@.current) {
                Ok(((name, params), next)) => r matches Ok(x) && x.0@ == name && x.1.deep_view()
                    == params && final(self)@.current == next && old(self)@.current < next,
                Err(e) => r matches Err(x) && x@ == e,
            },
    {
        let name = match self.consume(TokenType::Identifier, "Expect function name.") {
            Ok(t) => t,
            Err(e) => {
                return Err(e);
            },
        };
        match self.consume(TokenType::LeftParen, "Expect '(' after function name.") {
            Ok(_) => {},
            Err(e) => {
                return Err(e);
            },
        }
        let params = match self.parameters() {
            Ok(p) => p,
            Err(e) => {
                return Err(e);
            },
        };
        match self.consume(TokenType::RightParen, "Expect ')' after parameters.") {
            Ok(_) => {},
            Err(e) => {
                return Err(e);
            },
        }
        match self.consume(TokenType::LeftBrace, "Expect '{' before function body.") {
            Ok(_) => Ok((name, params)),
            Err(e) => Err(e),
        }
    }

    /// The condition and the increment of a `for` loop.
    fn for_clauses(&mut self) -> (r: Result<(Expr, Option<Expr>), ParseError>)
        requires
            old(self).wf(),
        ensures
            final(self).wf(),
            final(self)@.tokens == old(self)@.tokens,
            match grammar::for_clauses(old(self)@.tokens, old(self)@.current) {
                Ok(((c, step), next)) => r matches Ok(x) && x.0@ == c && crate::ast::option_expr(
                    x.1,
                ) == step && final(self)@.current == next && old(self)@.current < next,
                Err(e) => r matches Err(x) && x@ == e,
            },
    {
        let c = if !self.check(TokenType::Semicolon) {
            match self.expression() {
                Ok(e) => e,
                Err(e) => {
                    return Err(e);
                },
            }
        } else {
            Expr::Literal(Literal::Bool(true))
        };
        match self.consume(TokenType::Semicolon, "Expect ';' after loop condition") {
            Ok(_) => {},
            Err(e) => {
                return Err(e);
            },
        }
        if self.skip(TokenType::RightParen) {
            return Ok((c, None));
        }
        let step = match self.expression() {
            Ok(e) => e,
            Err(e) => {
                return Err(e);
            },
        };
        match self.consume(TokenType::RightParen, "Expect ')' after for clauses.") {
            Ok(_) => Ok((c, Some(step))),
            Err(e) => Err(e),
        }
    }

    /// The initializer of a `for` loop.
    fn for_initializer(&mut self) -> (r: Result<Option<Stmt>, ParseError>)
        requires
            old(self).wf(),
        ensures
            final(self).wf(),
            final(self)@.tokens == old(self)@.tokens,
            match grammar::for_initializer(old(self)@.tokens, old(self)@.current) {
                Ok((init, next)) => r matches Ok(x) && crate::ast::option_stmt(x) == init
                    && final(self)@.current == next && old(self)@.current < next,
                Err(e) => r matches Err(x) && x@ == e,
            },
    {
        if self.skip(TokenType::Semicolon) {
            return Ok(None);
        }
        let first = if self.skip(TokenType::Var) {
            self.var_declaration()
        } else {
            self.expression_stmt()
        };
        match first {
            Ok(s) => Ok(Some(s)),
            Err(e) => Err(e),
        }
    }

    fn declaration(&mut self) -> (r: Result<Stmt, ParseError>)
        requires
            old(self).wf(),
        ensures
            agrees(
                old(self)@,
                final(self)@,
                grammar::declaration(old(self)@.tokens, old(self)@.current),
                stmt_at(r, final(self)@.current),
            ),
        decreases old(self).left(), 5int,
    {
        if self.skip(TokenType::Fun) {
            self.function()
        } else if self.skip(TokenType::Var) {
            self.var_declaration()
        } else {
            self.statement()
        }
    }

    fn function(&mut self) -> (r: Result<Stmt, ParseError>)
        requires
            old(self).wf(),
        ensures
            agrees(
                old(self)@,
                final(self)@,
                grammar::function(old(self)@.tokens, old(self)@.current),
                stmt_at(r, final(self)@.current),
            ),
        decreases old(self).left(), 3int,
    {
        let (name, params) = match self.function_head() {
            Ok(h) => h,
            Err(e) => {
                return Err(e);
            },
        };
        match self.block() {
            Ok(body) => {
                let ghost expected = StmtView::Function(
                    name@,
                    params.deep_view(),
                    body.deep_view(),
                );
                let f = Stmt::Function(name, params, body);
                assert(f@->Function_2 =~= body.deep_view());
                assert(f@ == expected);
                Ok(f)
            },
            Err(e) => Err(e),
        }
    }

    fn statement(&mut self) -> (r: Result<Stmt, ParseError>)
        requires
            old(self).wf(),
        ensures
            agrees(
                old(self)@,
                final(self)@,
                grammar::statement(old(self)@.tokens, old(self)@.current),
                stmt_at(r, final(self)@.current),
            ),
        decreases old(self).left(), 4int,
    {
        if self.skip(TokenType::Print) {
            self.print_statement()
        } else if self.skip(TokenType::LeftBrace) {
            match self.block() {
                Ok(stmts) => {
                    let b = Stmt::Block(stmts);
                    assert(b@->Block_0 =~= stmts.deep_view());
                    assert(b@ == StmtView::Block(stmts.deep_view()));
                    Ok(b)
                },
                Err(e) => Err(e),
            }
        } else if self.skip(TokenType::If) {
            self.if_statement()
        } else if self.skip(TokenType::While) {
            self.while_statement()
        } else if self.skip(TokenType::For) {
            self.for_statement()
        } else if self.skip(TokenType::Return) {
            self.return_statement()
        } else {
            self.expression_stmt()
        }
    }

    /// The statements of a block, up to its closing brace.
    fn block(&mut self) -> (r: Result<Vec<Stmt>, ParseError>)
        requires
            old(self).wf(),
        ensures
            agrees(
                old(self)@,
                final(self)@,
                grammar::block(old(self)@.tokens, old(self)@.current, Seq::empty()),
                stmts_at(r, final(self)@.current),
            ),
        decreases old(self).left(), 6int,
    {
        let ghost t = self@.tokens;
        let mut statements: Vec<Stmt> = Vec::new();
        assert(statements.deep_view() =~= Seq::empty());
        while !self.check(TokenType::RightBrace) && !self.is_at_end()
            invariant
                self.wf(),
                self@.tokens == t,
                old(self)@.tokens == t,
                old(self)@.current <= self@.current,
                grammar::block(t, self@.current, statements.deep_view()) == grammar::block(
                    t,
                    old(self)@.current,
                    Seq::empty(),
                ),
            decreases self.left(),
        {
            let ghost sofar = statements.deep_view();
            let s = match self.declaration() {
                Ok(s) => s,
                Err(e) => {
                    return Err(e);
                },
            };
            statements.push(s);
            assert(statements.deep_view() =~= sofar.push(s@));
        }
        match self.consume(TokenType::RightBrace, "Expect '}' after block.") {
            Ok(_) => Ok(statements),
            Err(e) => Err(e),
        }
    }

    fn if_statement(&mut self) -> (r: Result<Stmt, ParseError>)
        requires
            old(self).wf(),
        ensures
            agrees(
                old(self)@,
                final(self)@,
                grammar::if_statement(old(self)@.tokens, old(self)@.current),
                stmt_at(r, final(self)@.current),
            ),
        decreases old(self).left(), 3int,
    {
        let c = match self.condition("Expect '(' after 'if'.", "Expect ')' after 'if'.") {
            Ok(e) => e,
            Err(e) => {
                return Err(e);
            },
        };
        let then_branch = match self.statement() {
            Ok(s) => s,
            Err(e) => {
                return Err(e);
            },
        };
        if self.skip(TokenType::Else) {
            match self.statement() {
                Ok(else_branch) => Ok(
                    Stmt::If(c, Box::new(then_branch), Some(Box::new(else_branch))),
                ),
                Err(e) => Err(e),
            }
        } else {
            Ok(Stmt::If(c, Box::new(then_branch), None))
        }
    }

    fn while_statement(&mut self) -> (r: Result<Stmt, ParseError>)
        requires
            old(self).wf(),
        ensures
            agrees(
                old(self)@,
                final(self)@,
                grammar::while_statement(old(self)@.tokens, old(self)@.current),
                stmt_at(r, final(self)@.current),
            ),
        decreases old(self).left(), 3int,
    {
        let c = match self.condition("Expect '(' after 'while'.", "Expect ')' after 'while'.") {
            Ok(e) => e,
            Err(e) => {
                return Err(e);
            },
        };
        match self.statement() {
            Ok(body) => Ok(Stmt::While(c, Box::new(body))),
            Err(e) => Err(e),
        }
    }

    #[verifier::rlimit(40)]
    fn for_statement(&mut self) -> (r: Result<Stmt, ParseError>)
        requires
            old(self).wf(),
        ensures
            agrees(
                old(self)@,
                final(self)@,
                grammar::for_statement(old(self)@.tokens, old(self)@.current),
                stmt_at(r, final(self)@.current),
            ),
        decreases old(self).left(), 3int,
    {
        match self.consume(TokenType::LeftParen, "Expect '(' after 'for'.") {
            Ok(_) => {},
            Err(e) => {
                return Err(e);
            },
        }
        let init = match self.for_initializer() {
            Ok(s) => s,
            Err(e) => {
                return Err(e);
            },
        };
        let (c, step) = match self.for_clauses() {
            Ok(x) => x,
            Err(e) => {
                return Err(e);
            },
        };
        match self.statement() {
            Ok(body) => {
                let first = match init {
                    Some(s) => Some(Box::new(s)),
                    None => None,
                };
                Ok(Stmt::For(first, Some(c), step, Box::new(body)))
            },
            Err(e) => Err(e),
        }
    }

    /// The declarations up to the end of the file.
    pub fn parse(&mut self) -> (r: Result<Vec<Stmt>, ParseError>)
        requires
            old(self).wf(),
        ensures
            final(self).wf(),
            final(self)@.tokens == old(self)@.tokens,
            match grammar::program(old(self)@.tokens, old(self)@.current, Seq::empty()) {
                Ok(stmts) => r matches Ok(x) && x.deep_view() == stmts && grammar::at_end(
                    final(self)@.tokens,
                    final(self)@.current,
                ),
                Err(e) => r matches Err(x) && x@ == e,
            },
    {
        let ghost t = self@.tokens;
        let mut statements: Vec<Stmt> = Vec::new();
        assert(statements.deep_view() =~= Seq::empty());
        while !self.is_at_end()
            invariant
                self.wf(),
                self@.tokens == t,
                old(self)@.tokens == t,
                grammar::program(t, self@.current, statements.deep_view()) == grammar::program(
                    t,
                    old(self)@.current,
                    Seq::empty(),
                ),
            decreases self.left(),
        {
            let ghost sofar = statements.deep_view();
            let s = match self.declaration() {
                Ok(s) => s,
                Err(e) => {
                    return Err(e);
                },
            };
            statements.push(s);
            assert(statements.deep_view() =~= sofar.push(s@));
        }
        Ok(statements)
    }
}

} // verus!
