//! The grammar, as functions from a token sequence and a position to the
//! tree that stands there and the position after it, or to the first
//! syntax error.
//!
//! By rising precedence: assignment, `or`, `and`, equality, comparison,
//! term, factor, unary, call, primary. Assignment associates to the right,
//! the binary operators to the left.

use vstd::prelude::*;
use crate::ast::{ExprView, LiteralView, StmtView};
use crate::scanner::{run_end, Class};
use crate::token::{TokenType, TokenView};

verus! {

/// The model of a syntax error.
pub struct ParseErrorView {
    pub message: Seq<char>,
    pub line: usize,
}

/// What was parsed and the position after it, or the error.
pub type Parsed<T> = Result<(T, int), ParseErrorView>;

/// The kind of the token at `pos`. Past the tokens the file has ended.
pub open spec fn kind_at(t: Seq<TokenView>, pos: int) -> TokenType {
    if 0 <= pos < t.len() {
        t[pos].token_type
    } else {
        TokenType::Eof
    }
}

/// The line of the token at `pos`.
pub open spec fn line_of(t: Seq<TokenView>, pos: int) -> usize {
    if 0 <= pos < t.len() {
        t[pos].line
    } else {
        0
    }
}

/// Whether the end of the file stands at `pos`.
pub open spec fn at_end(t: Seq<TokenView>, pos: int) -> bool {
    kind_at(t, pos) == TokenType::Eof
}

/// Whether a token of the kind stands at `pos`. The end of the file is
/// never found.
pub open spec fn check(t: Seq<TokenView>, pos: int, kind: TokenType) -> bool {
    !at_end(t, pos) && kind_at(t, pos) == kind
}

/// The error with the message, on the line of the token at `pos`.
pub open spec fn error_at(t: Seq<TokenView>, pos: int, message: Seq<char>) -> ParseErrorView {
    ParseErrorView { message, line: line_of(t, pos) }
}

/// The token of the kind at `pos`, or the error with the message.
pub open spec fn consume(t: Seq<TokenView>, pos: int, kind: TokenType, message: Seq<char>)
    -> Parsed<TokenView> {
    if check(t, pos, kind) {
        Ok((t[pos], pos + 1))
    } else {
        Err(error_at(t, pos, message))
    }
}

/// The error that stands for a parser that did not move on. The
/// definitions below ask of a result from which they go on that it lies
/// after their start, so that they are seen to end; `forward` gives this
/// error where it does not. `lemma_expression_advances` and
/// `lemma_declaration_advances` show that it always does.
pub open spec fn stalled() -> ParseErrorView {
    ParseErrorView { message: Seq::empty(), line: 0 }
}

/// The result `r` of a parser, which has to end after `pos`.
pub open spec fn forward<T>(t: Seq<TokenView>, pos: int, r: Parsed<T>) -> Parsed<T> {
    match r {
        Ok((_, next)) => if pos < next <= t.len() {
            r
        } else {
            Err(stalled())
        },
        Err(_) => r,
    }
}

/// Whether the text is a decimal numeral: digits, and after them at most
/// one point that digits follow.
pub open spec fn is_decimal(text: Seq<char>) -> bool {
    let point = run_end(text, 0, Class::Digit);
    point > 0 && (point == text.len() || (text[point] == '.' && point + 1 < text.len() && run_end(
        text,
        point + 1,
        Class::Digit,
    ) == text.len()))
}

/// The literal that a token holds.
pub open spec fn literal_of(token: TokenView) -> Result<LiteralView, ParseErrorView> {
    match token.token_type {
        TokenType::False => Ok(LiteralView::Bool(false)),
        TokenType::True => Ok(LiteralView::Bool(true)),
        TokenType::Nil => Ok(LiteralView::Nil),
        TokenType::Number => match token.literal {
            Some(text) => if is_decimal(text) {
                Ok(LiteralView::Number(text))
            } else {
                Err(ParseErrorView { message: "Expect number."@, line: token.line })
            },
            None => Err(ParseErrorView { message: "Expect number."@, line: token.line }),
        },
        TokenType::String => match token.literal {
            Some(text) => Ok(LiteralView::String(text)),
            None => Err(ParseErrorView { message: "Expect string."@, line: token.line }),
        },
        _ => Err(ParseErrorView { message: "Expect literal."@, line: token.line }),
    }
}

/// Whether a token of the kind starts a literal.
pub open spec fn starts_literal(kind: TokenType) -> bool {
    kind == TokenType::False || kind == TokenType::True || kind == TokenType::Nil || kind
        == TokenType::Number || kind == TokenType::String
}

/// A literal at `pos`.
pub open spec fn literal(t: Seq<TokenView>, pos: int) -> Parsed<ExprView> {
    if starts_literal(kind_at(t, pos)) {
        match literal_of(t[pos]) {
            Ok(l) => Ok((ExprView::Literal(l), pos + 1)),
            Err(e) => Err(e),
        }
    } else {
        Err(error_at(t, pos, "Expect expression."@))
    }
}

/// The levels of the binary operators, by rising precedence.
#[derive(Clone, Copy, Debug, PartialEq, Eq, Structural)]
pub enum Level {
    Or,
    And,
    Equality,
    Comparison,
    Term,
    Factor,
}

/// The next level up; the operands of a factor are unary expressions.
pub open spec fn higher(level: Level) -> Option<Level> {
    match level {
        Level::Or => Some(Level::And),
        Level::And => Some(Level::Equality),
        Level::Equality => Some(Level::Comparison),
        Level::Comparison => Some(Level::Term),
        Level::Term => Some(Level::Factor),
        Level::Factor => None,
    }
}

/// Whether a token of the kind is an operator of the level.
pub open spec fn is_operator(level: Level, kind: TokenType) -> bool {
    match level {
        Level::Or => kind == TokenType::Or,
        Level::And => kind == TokenType::And,
        Level::Equality => kind == TokenType::BangEqual || kind == TokenType::EqualEqual,
        Level::Comparison => kind == TokenType::Greater || kind == TokenType::GreaterEqual || kind
            == TokenType::Less || kind == TokenType::LessEqual,
        Level::Term => kind == TokenType::Minus || kind == TokenType::Plus,
        Level::Factor => kind == TokenType::Slash || kind == TokenType::Star,
    }
}

/// The node of an operator of the level with its operands.
pub open spec fn combine(level: Level, left: ExprView, op: TokenView, right: ExprView)
    -> ExprView {
    match level {
        Level::Or => ExprView::Logical(Box::new(left), op, Box::new(right)),
        Level::And => ExprView::Logical(Box::new(left), op, Box::new(right)),
        _ => ExprView::Binary(Box::new(left), op, Box::new(right)),
    }
}

/// The place of a level in the order in which the parsers call each other
/// without moving on.
pub open spec fn rank(level: Level) -> int {
    match level {
        Level::Or => 10,
        Level::And => 9,
        Level::Equality => 8,
        Level::Comparison => 7,
        Level::Term => 6,
        Level::Factor => 5,
    }
}

/// An expression at `pos`.
pub open spec fn expression(t: Seq<TokenView>, pos: int) -> Parsed<ExprView>
    decreases t.len() - pos, 12int,
{
    assignment(t, pos)
}

/// An assignment, or an expression of the level of `or`. The target of an
/// assignment has to be a variable; the value is parsed before that is
/// looked at.
pub open spec fn assignment(t: Seq<TokenView>, pos: int) -> Parsed<ExprView>
    decreases t.len() - pos, 11int,
{
    match forward(t, pos, binary(t, pos, Level::Or)) {
        Err(e) => Err(e),
        Ok((target, equals)) => if check(t, equals, TokenType::Equal) {
            match assignment(t, equals + 1) {
                Err(e) => Err(e),
                Ok((value, next)) => match target {
                    ExprView::Variable(name) => Ok(
                        (ExprView::Assign(name, Box::new(value)), next),
                    ),
                    _ => Err(error_at(t, equals, "Invalid assignment target."@)),
                },
            }
        } else {
            Ok((target, equals))
        },
    }
}

/// An expression of the level: operands of the next level with the
/// operators of the level between them, grouped from the left.
pub open spec fn binary(t: Seq<TokenView>, pos: int, level: Level) -> Parsed<ExprView>
    decreases t.len() - pos, rank(level),
{
    let first = match higher(level) {
        Some(up) => binary(t, pos, up),
        None => unary(t, pos),
    };
    match forward(t, pos, first) {
        Err(e) => Err(e),
        Ok((left, next)) => binary_rest(t, next, level, left),
    }
}

/// The rest of an expression of the level whose operands so far make up
/// `left`.
pub open spec fn binary_rest(t: Seq<TokenView>, pos: int, level: Level, left: ExprView)
    -> Parsed<ExprView>
    decreases t.len() - pos, 0int,
{
    if !at_end(t, pos) && is_operator(level, kind_at(t, pos)) {
        let operand = match higher(level) {
            Some(up) => binary(t, pos + 1, up),
            None => unary(t, pos + 1),
        };
        match forward(t, pos, operand) {
            Err(e) => Err(e),
            Ok((right, next)) => binary_rest(t, next, level, combine(level, left, t[pos], right)),
        }
    } else {
        Ok((left, pos))
    }
}

/// A unary expression: `!` or `-` before a unary expression, or a call.
pub open spec fn unary(t: Seq<TokenView>, pos: int) -> Parsed<ExprView>
    decreases t.len() - pos, 3int,
{
    if check(t, pos, TokenType::Bang) || check(t, pos, TokenType::Minus) {
        match unary(t, pos + 1) {
            Err(e) => Err(e),
            Ok((right, next)) => Ok((ExprView::Unary(t[pos], Box::new(right)), next)),
        }
    } else {
        call(t, pos)
    }
}

/// A primary expression with any number of argument lists after it.
pub open spec fn call(t: Seq<TokenView>, pos: int) -> Parsed<ExprView>
    decreases t.len() - pos, 2int,
{
    match forward(t, pos, primary(t, pos)) {
        Err(e) => Err(e),
        Ok((callee, next)) => call_rest(t, next, callee),
    }
}

/// The argument lists after `callee`.
pub open spec fn call_rest(t: Seq<TokenView>, pos: int, callee: ExprView) -> Parsed<ExprView>
    decreases t.len() - pos, 16int,
{
    if check(t, pos, TokenType::LeftParen) {
        match forward(t, pos, call_once(t, pos, callee)) {
            Err(e) => Err(e),
            Ok((called, next)) => call_rest(t, next, called),
        }
    } else {
        Ok((callee, pos))
    }
}

/// The call of `callee` with the argument list that opens at `pos`.
pub open spec fn call_once(t: Seq<TokenView>, pos: int, callee: ExprView) -> Parsed<ExprView>
    decreases t.len() - pos, 15int,
{
    if check(t, pos, TokenType::LeftParen) {
        match arguments(t, pos + 1) {
            Err(e) => Err(e),
            Ok((args, close)) => match consume(
                t,
                close,
                TokenType::RightParen,
                "Expect ')' after arguments."@,
            ) {
                Err(e) => Err(e),
                Ok((paren, next)) => Ok((ExprView::Call(Box::new(callee), paren, args), next)),
            },
        }
    } else {
        Ok((callee, pos))
    }
}

/// The arguments of a call, up to the closing parenthesis.
pub open spec fn arguments(t: Seq<TokenView>, pos: int) -> Parsed<Seq<ExprView>>
    decreases t.len() - pos, 14int,
{
    if check(t, pos, TokenType::RightParen) {
        Ok((Seq::empty(), pos))
    } else {
        argument_list(t, pos, Seq::empty())
    }
}

/// One argument and those after it, after the arguments `sofar`.
pub open spec fn argument_list(t: Seq<TokenView>, pos: int, sofar: Seq<ExprView>) -> Parsed<
    Seq<ExprView>,
>
    decreases t.len() - pos, 13int,
{
    match forward(t, pos, expression(t, pos)) {
        Err(e) => Err(e),
        Ok((argument, next)) => if check(t, next, TokenType::Comma) {
            argument_list(t, next + 1, sofar.push(argument))
        } else {
            Ok((sofar.push(argument), next))
        },
    }
}

/// A primary expression: an expression in parentheses, a variable, or a
/// literal.
pub open spec fn primary(t: Seq<TokenView>, pos: int) -> Parsed<ExprView>
    decreases t.len() - pos, 1int,
{
    if check(t, pos, TokenType::LeftParen) {
        match expression(t, pos + 1) {
            Err(e) => Err(e),
            Ok((inner, close)) => match consume(
                t,
                close,
                TokenType::RightParen,
                "Expect ')' after expression."@,
            ) {
                Err(e) => Err(e),
                Ok((_, next)) => Ok((ExprView::Grouping(Box::new(inner)), next)),
            },
        }
    } else if check(t, pos, TokenType::Identifier) {
        Ok((ExprView::Variable(t[pos]), pos + 1))
    } else {
        literal(t, pos)
    }
}

/// An expression and the `;` after it.
pub open spec fn terminated(t: Seq<TokenView>, pos: int, message: Seq<char>) -> Parsed<ExprView> {
    match expression(t, pos) {
        Err(e) => Err(e),
        Ok((e, semicolon)) => match consume(t, semicolon, TokenType::Semicolon, message) {
            Err(e) => Err(e),
            Ok((_, next)) => Ok((e, next)),
        },
    }
}

/// The rest of a `var` declaration: the name, and the initializer if `=`
/// follows.
pub open spec fn var_declaration(t: Seq<TokenView>, pos: int) -> Parsed<StmtView> {
    match consume(t, pos, TokenType::Identifier, "Expect variable name."@) {
        Err(e) => Err(e),
        Ok((name, next)) => if check(t, next, TokenType::Equal) {
            match terminated(t, next + 1, "Expect ';' after value."@) {
                Err(e) => Err(e),
                Ok((init, end)) => Ok((StmtView::Var(name, Some(init)), end)),
            }
        } else {
            match consume(t, next, TokenType::Semicolon, "Expect ';' after value."@) {
                Err(e) => Err(e),
                Ok((_, end)) => Ok((StmtView::Var(name, None), end)),
            }
        },
    }
}

/// The rest of a `print` statement.
pub open spec fn print_statement(t: Seq<TokenView>, pos: int) -> Parsed<StmtView> {
    match terminated(t, pos, "Expect ';' after value."@) {
        Err(e) => Err(e),
        Ok((e, next)) => Ok((StmtView::Print(e), next)),
    }
}

/// The rest of a `return` statement.
pub open spec fn return_statement(t: Seq<TokenView>, pos: int) -> Parsed<StmtView> {
    if check(t, pos, TokenType::Semicolon) {
        Ok((StmtView::Return(None), pos + 1))
    } else {
        match terminated(t, pos, "Expect ';' after return value."@) {
            Err(e) => Err(e),
            Ok((e, next)) => Ok((StmtView::Return(Some(e)), next)),
        }
    }
}

/// An expression as a statement: an expression and the `;` after it.
pub open spec fn expression_stmt(t: Seq<TokenView>, pos: int) -> Parsed<StmtView> {
    match terminated(t, pos, "Expect ';' after expression."@) {
        Err(e) => Err(e),
        Ok((e, next)) => Ok((StmtView::Expression(e), next)),
    }
}

/// An expression in parentheses, as after `if` and `while`.
pub open spec fn condition(t: Seq<TokenView>, pos: int, open: Seq<char>, close: Seq<char>)
    -> Parsed<ExprView> {
    match consume(t, pos, TokenType::LeftParen, open) {
        Err(e) => Err(e),
        Ok((_, start)) => match expression(t, start) {
            Err(e) => Err(e),
            Ok((c, end)) => match consume(t, end, TokenType::RightParen, close) {
                Err(e) => Err(e),
                Ok((_, next)) => Ok((c, next)),
            },
        },
    }
}

/// The parameters of a function, up to the closing parenthesis.
pub open spec fn parameters(t: Seq<TokenView>, pos: int) -> Parsed<Seq<TokenView>> {
    if check(t, pos, TokenType::RightParen) {
        Ok((Seq::empty(), pos))
    } else {
        parameter_list(t, pos, Seq::empty())
    }
}

/// One parameter and those after it, after the parameters `sofar`.
pub open spec fn parameter_list(t: Seq<TokenView>, pos: int, sofar: Seq<TokenView>) -> Parsed<
    Seq<TokenView>,
>
    decreases t.len() - pos,
{
    match consume(t, pos, TokenType::Identifier, "Expect parameter name."@) {
        Err(e) => Err(e),
        Ok((name, next)) => if check(t, next, TokenType::Comma) {
            parameter_list(t, next + 1, sofar.push(name))
        } else {
            Ok((sofar.push(name), next))
        },
    }
}

/// The head of a function declaration after `fun`: the name and the
/// parameters, up to the brace that opens the body.
pub open spec fn function_head(t: Seq<TokenView>, pos: int) -> Parsed<
    (TokenView, Seq<TokenView>),
> {
    match consume(t, pos, TokenType::Identifier, "Expect function name."@) {
        Err(e) => Err(e),
        Ok((name, open)) => match consume(
            t,
            open,
            TokenType::LeftParen,
            "Expect '(' after function name."@,
        ) {
            Err(e) => Err(e),
            Ok((_, first)) => match parameters(t, first) {
                Err(e) => Err(e),
                Ok((params, close)) => match consume(
                    t,
                    close,
                    TokenType::RightParen,
                    "Expect ')' after parameters."@,
                ) {
                    Err(e) => Err(e),
                    Ok((_, brace)) => match consume(
                        t,
                        brace,
                        TokenType::LeftBrace,
                        "Expect '{' before function body."@,
                    ) {
                        Err(e) => Err(e),
                        Ok((_, next)) => Ok(((name, params), next)),
                    },
                },
            },
        },
    }
}

/// The clauses of a `for` loop after its initializer: the condition, which
/// is `true` where it is left out, and the increment.
pub open spec fn for_clauses(t: Seq<TokenView>, pos: int) -> Parsed<
    (ExprView, Option<ExprView>),
> {
    let c = if check(t, pos, TokenType::Semicolon) {
        Ok((ExprView::Literal(LiteralView::Bool(true)), pos))
    } else {
        expression(t, pos)
    };
    match c {
        Err(e) => Err(e),
        Ok((condition, semicolon)) => match consume(
            t,
            semicolon,
            TokenType::Semicolon,
            "Expect ';' after loop condition"@,
        ) {
            Err(e) => Err(e),
            Ok((_, after)) => if check(t, after, TokenType::RightParen) {
                Ok(((condition, None), after + 1))
            } else {
                match expression(t, after) {
                    Err(e) => Err(e),
                    Ok((step, close)) => match consume(
                        t,
                        close,
                        TokenType::RightParen,
                        "Expect ')' after for clauses."@,
                    ) {
                        Err(e) => Err(e),
                        Ok((_, next)) => Ok(((condition, Some(step)), next)),
                    },
                }
            },
        },
    }
}

/// The initializer of a `for` loop: nothing but `;`, a `var` declaration,
/// or an expression statement.
pub open spec fn for_initializer(t: Seq<TokenView>, pos: int) -> Parsed<Option<StmtView>> {
    if check(t, pos, TokenType::Semicolon) {
        Ok((None, pos + 1))
    } else {
        let first = if check(t, pos, TokenType::Var) {
            var_declaration(t, pos + 1)
        } else {
            expression_stmt(t, pos)
        };
        match first {
            Err(e) => Err(e),
            Ok((s, next)) => Ok((Some(s), next)),
        }
    }
}

/// A declaration: of a function, of a variable, or a statement.
pub open spec fn declaration(t: Seq<TokenView>, pos: int) -> Parsed<StmtView>
    decreases t.len() - pos, 5int,
{
    if check(t, pos, TokenType::Fun) {
        function(t, pos + 1)
    } else if check(t, pos, TokenType::Var) {
        var_declaration(t, pos + 1)
    } else {
        statement(t, pos)
    }
}

/// The rest of a function declaration after `fun`.
pub open spec fn function(t: Seq<TokenView>, pos: int) -> Parsed<StmtView>
    decreases t.len() - pos, 3int,
{
    match forward(t, pos, function_head(t, pos)) {
        Err(e) => Err(e),
        Ok(((name, params), start)) => match block(t, start, Seq::empty()) {
            Err(e) => Err(e),
            Ok((body, next)) => Ok((StmtView::Function(name, params, body), next)),
        },
    }
}

/// A statement.
pub open spec fn statement(t: Seq<TokenView>, pos: int) -> Parsed<StmtView>
    decreases t.len() - pos, 4int,
{
    if check(t, pos, TokenType::Print) {
        print_statement(t, pos + 1)
    } else if check(t, pos, TokenType::LeftBrace) {
        match block(t, pos + 1, Seq::empty()) {
            Err(e) => Err(e),
            Ok((stmts, next)) => Ok((StmtView::Block(stmts), next)),
        }
    } else if check(t, pos, TokenType::If) {
        if_statement(t, pos + 1)
    } else if check(t, pos, TokenType::While) {
        while_statement(t, pos + 1)
    } else if check(t, pos, TokenType::For) {
        for_statement(t, pos + 1)
    } else if check(t, pos, TokenType::Return) {
        return_statement(t, pos + 1)
    } else {
        expression_stmt(t, pos)
    }
}

/// The rest of a block after the statements `sofar`, up to its closing
/// brace.
pub open spec fn block(t: Seq<TokenView>, pos: int, sofar: Seq<StmtView>) -> Parsed<
    Seq<StmtView>,
>
    decreases t.len() - pos, 6int,
{
    if !check(t, pos, TokenType::RightBrace) && !at_end(t, pos) {
        match forward(t, pos, declaration(t, pos)) {
            Err(e) => Err(e),
            Ok((s, next)) => block(t, next, sofar.push(s)),
        }
    } else {
        match consume(t, pos, TokenType::RightBrace, "Expect '}' after block."@) {
            Err(e) => Err(e),
            Ok((_, next)) => Ok((sofar, next)),
        }
    }
}

/// The rest of an `if` statement.
pub open spec fn if_statement(t: Seq<TokenView>, pos: int) -> Parsed<StmtView>
    decreases t.len() - pos, 3int,
{
    match forward(t, pos, condition(t, pos, "Expect '(' after 'if'."@, "Expect ')' after 'if'."@)) {
        Err(e) => Err(e),
        Ok((c, start)) => match forward(t, start, statement(t, start)) {
            Err(e) => Err(e),
            Ok((then_branch, next)) => if check(t, next, TokenType::Else) {
                match statement(t, next + 1) {
                    Err(e) => Err(e),
                    Ok((else_branch, end)) => Ok(
                        (
                            StmtView::If(c, Box::new(then_branch), Some(Box::new(else_branch))),
                            end,
                        ),
                    ),
                }
            } else {
                Ok((StmtView::If(c, Box::new(then_branch), None), next))
            },
        },
    }
}

/// The rest of a `while` statement.
pub open spec fn while_statement(t: Seq<TokenView>, pos: int) -> Parsed<StmtView>
    decreases t.len() - pos, 3int,
{
    match forward(
        t,
        pos,
        condition(t, pos, "Expect '(' after 'while'."@, "Expect ')' after 'while'."@),
    ) {
        Err(e) => Err(e),
        Ok((c, start)) => match statement(t, start) {
            Err(e) => Err(e),
            Ok((body, next)) => Ok((StmtView::While(c, Box::new(body)), next)),
        },
    }
}

/// The rest of a `for` statement.
pub open spec fn for_statement(t: Seq<TokenView>, pos: int) -> Parsed<StmtView>
    decreases t.len() - pos, 3int,
{
    match consume(t, pos, TokenType::LeftParen, "Expect '(' after 'for'."@) {
        Err(e) => Err(e),
        Ok((_, first)) => match forward(t, pos, for_initializer(t, first)) {
            Err(e) => Err(e),
            Ok((init, second)) => match forward(t, second, for_clauses(t, second)) {
                Err(e) => Err(e),
                Ok(((c, step), start)) => match statement(t, start) {
                    Err(e) => Err(e),
                    Ok((body, next)) => Ok(
                        (
                            StmtView::For(
                                match init {
                                    Some(s) => Some(Box::new(s)),
                                    None => None,
                                },
                                Some(c),
                                step,
                                Box::new(body),
                            ),
                            next,
                        ),
                    ),
                },
            },
        },
    }
}

/// The declarations from `pos` to the end of the file, after the
/// statements `sofar`.
pub open spec fn program(t: Seq<TokenView>, pos: int, sofar: Seq<StmtView>) -> Result<
    Seq<StmtView>,
    ParseErrorView,
>
    decreases t.len() - pos,
{
    if at_end(t, pos) {
        Ok(sofar)
    } else {
        match forward(t, pos, declaration(t, pos)) {
            Err(e) => Err(e),
            Ok((s, next)) => program(t, next, sofar.push(s)),
        }
    }
}

/// Whether a parser that started at `pos` and gave `r` ended after `pos`,
/// inside the tokens or at their end.
pub open spec fn advances<T>(t: Seq<TokenView>, pos: int, r: Parsed<T>) -> bool {
    r matches Ok((_, next)) ==> pos < next <= t.len()
}

/// Whether a parser that started at `pos` and gave `r` ended at or after
/// `pos`, inside the tokens or at their end.
pub open spec fn holds<T>(t: Seq<TokenView>, pos: int, r: Parsed<T>) -> bool {
    r matches Ok((_, next)) ==> pos <= next <= t.len()
}

/// An expression ends after its start.
pub proof fn lemma_expression_advances(t: Seq<TokenView>, pos: int)
    ensures
        advances(t, pos, expression(t, pos)),
        forward(t, pos, expression(t, pos)) == expression(t, pos),
    decreases t.len() - pos, 12int,
{
    lemma_assignment_advances(t, pos);
}

proof fn lemma_assignment_advances(t: Seq<TokenView>, pos: int)
    ensures
        advances(t, pos, assignment(t, pos)),
    decreases t.len() - pos, 11int,
{
    lemma_binary_advances(t, pos, Level::Or);
    match forward(t, pos, binary(t, pos, Level::Or)) {
        Ok((_, equals)) => {
            if check(t, equals, TokenType::Equal) {
                lemma_assignment_advances(t, equals + 1);
            }
        },
        Err(_) => {},
    }
}

proof fn lemma_binary_advances(t: Seq<TokenView>, pos: int, level: Level)
    ensures
        advances(t, pos, binary(t, pos, level)),
    decreases t.len() - pos, rank(level),
{
    match higher(level) {
        Some(up) => lemma_binary_advances(t, pos, up),
        None => lemma_unary_advances(t, pos),
    }
    let first = match higher(level) {
        Some(up) => binary(t, pos, up),
        None => unary(t, pos),
    };
    match forward(t, pos, first) {
        Ok((left, next)) => lemma_binary_rest_holds(t, next, level, left),
        Err(_) => {},
    }
}

proof fn lemma_binary_rest_holds(t: Seq<TokenView>, pos: int, level: Level, left: ExprView)
    requires
        pos <= t.len(),
    ensures
        holds(t, pos, binary_rest(t, pos, level, left)),
    decreases t.len() - pos, 0int,
{
    if !at_end(t, pos) && is_operator(level, kind_at(t, pos)) {
        match higher(level) {
            Some(up) => lemma_binary_advances(t, pos + 1, up),
            None => lemma_unary_advances(t, pos + 1),
        }
        let operand = match higher(level) {
            Some(up) => binary(t, pos + 1, up),
            None => unary(t, pos + 1),
        };
        match forward(t, pos, operand) {
            Ok((right, next)) => lemma_binary_rest_holds(
                t,
                next,
                level,
                combine(level, left, t[pos], right),
            ),
            Err(_) => {},
        }
    }
}

proof fn lemma_unary_advances(t: Seq<TokenView>, pos: int)
    ensures
        advances(t, pos, unary(t, pos)),
    decreases t.len() - pos, 3int,
{
    if check(t, pos, TokenType::Bang) || check(t, pos, TokenType::Minus) {
        lemma_unary_advances(t, pos + 1);
    } else {
        lemma_call_advances(t, pos);
    }
}

proof fn lemma_call_advances(t: Seq<TokenView>, pos: int)
    ensures
        advances(t, pos, call(t, pos)),
    decreases t.len() - pos, 2int,
{
    lemma_primary_advances(t, pos);
    match forward(t, pos, primary(t, pos)) {
        Ok((callee, next)) => lemma_call_rest_holds(t, next, callee),
        Err(_) => {},
    }
}

proof fn lemma_call_rest_holds(t: Seq<TokenView>, pos: int, callee: ExprView)
    requires
        pos <= t.len(),
    ensures
        holds(t, pos, call_rest(t, pos, callee)),
    decreases t.len() - pos, 16int,
{
    if check(t, pos, TokenType::LeftParen) {
        lemma_call_once_advances(t, pos, callee);
        match forward(t, pos, call_once(t, pos, callee)) {
            Ok((called, next)) => lemma_call_rest_holds(t, next, called),
            Err(_) => {},
        }
    }
}

proof fn lemma_call_once_advances(t: Seq<TokenView>, pos: int, callee: ExprView)
    requires
        check(t, pos, TokenType::LeftParen),
    ensures
        advances(t, pos, call_once(t, pos, callee)),
    decreases t.len() - pos, 15int,
{
    lemma_arguments_hold(t, pos + 1);
}

proof fn lemma_arguments_hold(t: Seq<TokenView>, pos: int)
    requires
        pos <= t.len(),
    ensures
        holds(t, pos, arguments(t, pos)),
    decreases t.len() - pos, 14int,
{
    if !check(t, pos, TokenType::RightParen) {
        lemma_argument_list_advances(t, pos, Seq::empty());
    }
}

proof fn lemma_argument_list_advances(t: Seq<TokenView>, pos: int, sofar: Seq<ExprView>)
    ensures
        advances(t, pos, argument_list(t, pos, sofar)),
    decreases t.len() - pos, 13int,
{
    lemma_expression_advances(t, pos);
    match forward(t, pos, expression(t, pos)) {
        Ok((argument, next)) => {
            if check(t, next, TokenType::Comma) {
                lemma_argument_list_advances(t, next + 1, sofar.push(argument));
            }
        },
        Err(_) => {},
    }
}

proof fn lemma_primary_advances(t: Seq<TokenView>, pos: int)
    ensures
        advances(t, pos, primary(t, pos)),
    decreases t.len() - pos, 1int,
{
    if check(t, pos, TokenType::LeftParen) {
        lemma_expression_advances(t, pos + 1);
    }
}

proof fn lemma_terminated_advances(t: Seq<TokenView>, pos: int, message: Seq<char>)
    ensures
        advances(t, pos, terminated(t, pos, message)),
{
    lemma_expression_advances(t, pos);
}

proof fn lemma_simple_statements_advance(t: Seq<TokenView>, pos: int)
    ensures
        advances(t, pos, var_declaration(t, pos)),
        advances(t, pos, print_statement(t, pos)),
        advances(t, pos, return_statement(t, pos)),
        advances(t, pos, expression_stmt(t, pos)),
        advances(t, pos, for_initializer(t, pos)),
        advances(t, pos, for_clauses(t, pos)),
{
    lemma_terminated_advances(t, pos, "Expect ';' after value."@);
    lemma_terminated_advances(t, pos, "Expect ';' after return value."@);
    lemma_terminated_advances(t, pos + 2, "Expect ';' after value."@);
    lemma_terminated_advances(t, pos, "Expect ';' after expression."@);
    lemma_expression_advances(t, pos);
    lemma_expression_advances(t, pos + 1);
    match for_clauses(t, pos) {
        Ok(_) => {
            let semicolon = if check(t, pos, TokenType::Semicolon) {
                pos
            } else {
                expression(t, pos)->Ok_0.1
            };
            lemma_expression_advances(t, semicolon + 1);
        },
        Err(_) => {},
    }
    if check(t, pos, TokenType::Var) {
        lemma_terminated_advances(t, pos + 3, "Expect ';' after value."@);
        lemma_expression_advances(t, pos + 3);
    }
}

proof fn lemma_condition_advances(t: Seq<TokenView>, pos: int, open: Seq<char>, close: Seq<char>)
    ensures
        advances(t, pos, condition(t, pos, open, close)),
{
    lemma_expression_advances(t, pos + 1);
}

proof fn lemma_parameter_list_advances(t: Seq<TokenView>, pos: int, sofar: Seq<TokenView>)
    ensures
        advances(t, pos, parameter_list(t, pos, sofar)),
    decreases t.len() - pos,
{
    if check(t, pos, TokenType::Identifier) && check(t, pos + 1, TokenType::Comma) {
        lemma_parameter_list_advances(t, pos + 2, sofar.push(t[pos]));
    }
}

proof fn lemma_function_head_advances(t: Seq<TokenView>, pos: int)
    ensures
        advances(t, pos, function_head(t, pos)),
{
    lemma_parameter_list_advances(t, pos + 2, Seq::empty());
}

/// A declaration ends after its start.
pub proof fn lemma_declaration_advances(t: Seq<TokenView>, pos: int)
    ensures
        advances(t, pos, declaration(t, pos)),
        forward(t, pos, declaration(t, pos)) == declaration(t, pos),
    decreases t.len() - pos, 5int,
{
    if check(t, pos, TokenType::Fun) {
        lemma_function_advances(t, pos + 1);
    } else if check(t, pos, TokenType::Var) {
        lemma_simple_statements_advance(t, pos + 1);
    } else {
        lemma_statement_advances(t, pos);
    }
}

proof fn lemma_function_advances(t: Seq<TokenView>, pos: int)
    ensures
        advances(t, pos, function(t, pos)),
    decreases t.len() - pos, 3int,
{
    lemma_function_head_advances(t, pos);
    match forward(t, pos, function_head(t, pos)) {
        Ok((_, start)) => lemma_block_advances(t, start, Seq::empty()),
        Err(_) => {},
    }
}

proof fn lemma_statement_advances(t: Seq<TokenView>, pos: int)
    ensures
        advances(t, pos, statement(t, pos)),
    decreases t.len() - pos, 4int,
{
    lemma_simple_statements_advance(t, pos);
    if check(t, pos, TokenType::Print) {
        lemma_simple_statements_advance(t, pos + 1);
    } else if check(t, pos, TokenType::LeftBrace) {
        lemma_block_advances(t, pos + 1, Seq::empty());
    } else if check(t, pos, TokenType::If) {
        lemma_if_advances(t, pos + 1);
    } else if check(t, pos, TokenType::While) {
        lemma_while_advances(t, pos + 1);
    } else if check(t, pos, TokenType::For) {
        lemma_for_advances(t, pos + 1);
    } else if check(t, pos, TokenType::Return) {
        lemma_simple_statements_advance(t, pos + 1);
    }
}

proof fn lemma_block_advances(t: Seq<TokenView>, pos: int, sofar: Seq<StmtView>)
    ensures
        advances(t, pos, block(t, pos, sofar)),
    decreases t.len() - pos, 6int,
{
    if !check(t, pos, TokenType::RightBrace) && !at_end(t, pos) {
        lemma_declaration_advances(t, pos);
        match forward(t, pos, declaration(t, pos)) {
            Ok((s, next)) => lemma_block_advances(t, next, sofar.push(s)),
            Err(_) => {},
        }
    }
}

proof fn lemma_if_advances(t: Seq<TokenView>, pos: int)
    ensures
        advances(t, pos, if_statement(t, pos)),
    decreases t.len() - pos, 3int,
{
    let c = condition(t, pos, "Expect '(' after 'if'."@, "Expect ')' after 'if'."@);
    lemma_condition_advances(t, pos, "Expect '(' after 'if'."@, "Expect ')' after 'if'."@);
    match forward(t, pos, c) {
        Ok((_, start)) => {
            lemma_statement_advances(t, start);
            match forward(t, start, statement(t, start)) {
                Ok((_, next)) => {
                    if check(t, next, TokenType::Else) {
                        lemma_statement_advances(t, next + 1);
                    }
                },
                Err(_) => {},
            }
        },
        Err(_) => {},
    }
}

proof fn lemma_while_advances(t: Seq<TokenView>, pos: int)
    ensures
        advances(t, pos, while_statement(t, pos)),
    decreases t.len() - pos, 3int,
{
    let c = condition(t, pos, "Expect '(' after 'while'."@, "Expect ')' after 'while'."@);
    lemma_condition_advances(t, pos, "Expect '(' after 'while'."@, "Expect ')' after 'while'."@);
    match forward(t, pos, c) {
        Ok((_, start)) => lemma_statement_advances(t, start),
        Err(_) => {},
    }
}

proof fn lemma_for_advances(t: Seq<TokenView>, pos: int)
    ensures
        advances(t, pos, for_statement(t, pos)),
    decreases t.len() - pos, 3int,
{
    if check(t, pos, TokenType::LeftParen) {
        lemma_simple_statements_advance(t, pos + 1);
        match forward(t, pos, for_initializer(t, pos + 1)) {
            Ok((_, second)) => {
                lemma_simple_statements_advance(t, second);
                match forward(t, second, for_clauses(t, second)) {
                    Ok((_, start)) => lemma_statement_advances(t, start),
                    Err(_) => {},
                }
            },
            Err(_) => {},
        }
    }
}

} // verus!
