//! From source text to syntax trees: scanning, then parsing. Lexical
//! errors are all collected, and any of them keeps the text from being
//! parsed; of the syntax errors only the first is found.

use vstd::prelude::*;
use crate::ast::{Expr, ExprView, Stmt, StmtView};
use crate::grammar;
use crate::grammar::ParseErrorView;
use crate::parser::{ParseError, Parser};
use crate::scanner::{scan, tokenize};
use crate::token::{Error, ErrorView};

verus! {

/// Why a text has no syntax tree.
#[derive(Debug)]
pub enum SyntaxError {
    /// The lexical errors of the text, in its order.
    Lexical(Vec<Error>),
    /// The first syntax error.
    Syntax(ParseError),
}

/// The model of a `SyntaxError`.
pub enum SyntaxErrorView {
    Lexical(Seq<ErrorView>),
    Syntax(ParseErrorView),
}

impl View for SyntaxError {
    type V = SyntaxErrorView;

    open spec fn view(&self) -> SyntaxErrorView {
        match self {
            SyntaxError::Lexical(errors) => SyntaxErrorView::Lexical(errors.deep_view()),
            SyntaxError::Syntax(e) => SyntaxErrorView::Syntax(e@),
        }
    }
}

/// The statements of a program text.
pub open spec fn program_of(src: Seq<char>) -> Result<Seq<StmtView>, SyntaxErrorView> {
    let (tokens, errors) = scan(src);
    if errors.len() > 0 {
        Err(SyntaxErrorView::Lexical(errors))
    } else {
        match grammar::program(tokens, 0, Seq::empty()) {
            Ok(stmts) => Ok(stmts),
            Err(e) => Err(SyntaxErrorView::Syntax(e)),
        }
    }
}

/// The expression at the start of a text.
pub open spec fn expression_of(src: Seq<char>) -> Result<ExprView, SyntaxErrorView> {
    let (tokens, errors) = scan(src);
    if errors.len() > 0 {
        Err(SyntaxErrorView::Lexical(errors))
    } else {
        match grammar::expression(tokens, 0) {
            Ok((e, _)) => Ok(e),
            Err(e) => Err(SyntaxErrorView::Syntax(e)),
        }
    }
}

/// Scans and parses a program.
pub fn parse_program(source: &str) -> (r: Result<Vec<Stmt>, SyntaxError>)
    ensures
        match program_of(source@) {
            Ok(stmts) => r matches Ok(x) && x.deep_view() == stmts,
            Err(e) => r matches Err(x) && x@ == e,
        },
{
    let (tokens, errors) = tokenize(source);
    if errors.len() > 0 {
        return Err(SyntaxError::Lexical(errors));
    }
    let mut parser = Parser::new(tokens.as_slice());
    match parser.parse() {
        Ok(stmts) => Ok(stmts),
        Err(e) => Err(SyntaxError::Syntax(e)),
    }
}

/// Scans a text and parses the expression at its start.
pub fn parse_expression(source: &str) -> (r: Result<Expr, SyntaxError>)
    ensures
        match expression_of(source@) {
            Ok(e) => r matches Ok(x) && x@ == e,
            Err(e) => r matches Err(x) && x@ == e,
        },
{
    let (tokens, errors) = tokenize(source);
    if errors.len() > 0 {
        return Err(SyntaxError::Lexical(errors));
    }
    let mut parser = Parser::new(tokens.as_slice());
    match parser.parse_expr() {
        Ok(e) => Ok(e),
        Err(e) => Err(SyntaxError::Syntax(e)),
    }
}

} // verus!
