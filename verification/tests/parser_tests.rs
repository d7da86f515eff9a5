use lox_interp::ast::{Expr, Literal, Numeral, Stmt};
use lox_interp::parser::{ParseError, Parser};
use lox_interp::scanner::Scanner;
use lox_interp::token::{Token, TokenType};

fn tokens_of(source: &str) -> Vec<Token> {
    let (tokens, errors) = Scanner::new(source).scan_tokens();
    assert!(errors.is_empty());
    tokens
}

fn expression(source: &str) -> Result<Expr, ParseError> {
    let tokens = tokens_of(source);
    let mut parser = Parser::new(&tokens);
    parser.parse_expr()
}

fn rendered(source: &str) -> String {
    match expression(source) {
        Ok(e) => e.to_string(),
        Err(e) => panic!("{}", e.to_string()),
    }
}

fn expression_error(source: &str) -> (String, usize) {
    match expression(source) {
        Ok(e) => panic!("parsed: {}", e.to_string()),
        Err(e) => (e.message().clone(), e.line()),
    }
}

fn program(source: &str) -> Result<Vec<Stmt>, ParseError> {
    let tokens = tokens_of(source);
    let mut parser = Parser::new(&tokens);
    parser.parse()
}

fn statements(source: &str) -> Vec<Stmt> {
    match program(source) {
        Ok(s) => s,
        Err(e) => panic!("{}", e.to_string()),
    }
}

fn program_error(source: &str) -> (String, usize) {
    match program(source) {
        Ok(_) => panic!("parsed"),
        Err(e) => (e.message().clone(), e.line()),
    }
}

#[test]
fn factors_bind_tighter_than_terms() {
    assert_eq!(rendered("1 + 2 * 3"), "(+ 1.0 (* 2.0 3.0))");
    assert_eq!(rendered("1 * 2 + 3"), "(+ (* 1.0 2.0) 3.0)");
}

#[test]
fn parentheses_group() {
    assert_eq!(rendered("(1 + 2) * 3"), "(* (group (+ 1.0 2.0)) 3.0)");
}

#[test]
fn binary_operators_group_from_the_left() {
    assert_eq!(rendered("1 - 2 - 3"), "(- (- 1.0 2.0) 3.0)");
    assert_eq!(rendered("8 / 4 / 2"), "(/ (/ 8.0 4.0) 2.0)");
    assert_eq!(rendered("1 < 2 < 3"), "(< (< 1.0 2.0) 3.0)");
    assert_eq!(rendered("1 == 2 != 3"), "(!= (== 1.0 2.0) 3.0)");
}

#[test]
fn levels_of_precedence() {
    assert_eq!(
        rendered("a or b and c == d < e + f * -g"),
        "(or a (and b (== c (< d (+ e (* f (- g)))))))"
    );
    assert_eq!(rendered("1 >= 2 == 3 <= 4"), "(== (>= 1.0 2.0) (<= 3.0 4.0))");
}

#[test]
fn assignment_groups_from_the_right() {
    assert_eq!(rendered("a = b = 1"), "(a = (b = 1.0))");
    assert_eq!(rendered("a = 1 or 2"), "(a = (or 1.0 2.0))");
}

#[test]
fn only_a_variable_can_be_assigned_to() {
    assert_eq!(expression_error("1 = 2"), ("Invalid assignment target.".to_string(), 1));
    assert_eq!(expression_error("a + b\n= 2"), ("Invalid assignment target.".to_string(), 2));
    assert_eq!(expression_error("(a) = 2"), ("Invalid assignment target.".to_string(), 1));
}

#[test]
fn the_value_of_an_assignment_is_parsed_before_its_target_is_checked() {
    assert_eq!(expression_error("1 = \n+"), ("Expect expression.".to_string(), 2));
}

#[test]
fn unary_operators_nest() {
    assert_eq!(rendered("!-a"), "(! (- a))");
    assert_eq!(rendered("--1"), "(- (- 1.0))");
}

#[test]
fn literals() {
    assert_eq!(rendered("true"), "true");
    assert_eq!(rendered("false"), "false");
    assert_eq!(rendered("nil"), "nil");
    assert_eq!(rendered("\"text\""), "text");
    assert_eq!(rendered("12"), "12.0");
    assert_eq!(rendered("1.25"), "1.25");
}

#[test]
fn calls() {
    assert_eq!(rendered("f()"), "(call f)");
    assert_eq!(rendered("f(1, a + 2)"), "(call f 1.0 (+ a 2.0))");
    assert_eq!(rendered("f(1)(2)"), "(call (call f 1.0) 2.0)");
    assert_eq!(rendered("-f(1) * 2"), "(* (- (call f 1.0)) 2.0)");
}

#[test]
fn a_call_keeps_the_line_of_its_closing_parenthesis() {
    match expression("f(1,\n2\n)") {
        Ok(Expr::Call(_, paren, args)) => {
            assert_eq!(paren.token_type, TokenType::RightParen);
            assert_eq!(paren.line, 3);
            assert_eq!(args.len(), 2);
        }
        _ => panic!("no call"),
    }
}

#[test]
fn errors_in_expressions() {
    assert_eq!(expression_error("1 +"), ("Expect expression.".to_string(), 1));
    assert_eq!(expression_error(""), ("Expect expression.".to_string(), 1));
    assert_eq!(expression_error("(1 + 2"), ("Expect ')' after expression.".to_string(), 1));
    assert_eq!(expression_error("f(1, 2"), ("Expect ')' after arguments.".to_string(), 1));
    assert_eq!(expression_error("f(1,)"), ("Expect expression.".to_string(), 1));
    assert_eq!(expression_error("\n\n*"), ("Expect expression.".to_string(), 3));
}

#[test]
fn a_syntax_error_renders_with_its_line() {
    match expression("\n(1") {
        Err(e) => assert_eq!(e.to_string(), "[line 2] Error: Expect ')' after expression."),
        Ok(_) => panic!("parsed"),
    }
    let e = ParseError::new("Expect expression.", 12);
    assert_eq!(e.message(), "Expect expression.");
    assert_eq!(e.line(), 12);
    assert_eq!(e.to_string(), "[line 12] Error: Expect expression.");
}

#[test]
fn statements_of_every_kind() {
    let stmts = statements(
        "var a; var b = 1; print b; a = 2; { var c; } if (a) print 1; else print 2; \
         while (a) a = nil; for (;;) print 1; fun f(x, y) { return x; } return;",
    );
    assert_eq!(stmts.len(), 10);
    assert!(matches!(&stmts[0], Stmt::Var(name, None) if name.lexeme == "a"));
    assert!(matches!(&stmts[1], Stmt::Var(name, Some(_)) if name.lexeme == "b"));
    assert!(matches!(&stmts[2], Stmt::Print(Expr::Variable(_))));
    assert!(matches!(&stmts[3], Stmt::Expression(Expr::Assign(_, _))));
    assert!(matches!(&stmts[4], Stmt::Block(inner) if inner.len() == 1));
    assert!(matches!(&stmts[5], Stmt::If(_, _, Some(_))));
    assert!(matches!(&stmts[6], Stmt::While(_, _)));
    assert!(matches!(&stmts[7], Stmt::For(None, Some(_), None, _)));
    match &stmts[8] {
        Stmt::Function(name, params, body) => {
            assert_eq!(name.lexeme, "f");
            assert_eq!(params.len(), 2);
            assert_eq!(params[1].lexeme, "y");
            assert_eq!(body.len(), 1);
            assert!(matches!(&body[0], Stmt::Return(Some(_))));
        }
        _ => panic!("no function"),
    }
    assert!(matches!(&stmts[9], Stmt::Return(None)));
}

#[test]
fn a_for_loop_without_condition_loops_while_true() {
    let stmts = statements("for (var i = 0; ; i = i + 1) print i;");
    match &stmts[0] {
        Stmt::For(Some(init), Some(Expr::Literal(Literal::Bool(true))), Some(step), body) => {
            assert!(matches!(**init, Stmt::Var(_, Some(_))));
            assert_eq!(step.to_string(), "(i = (+ i 1.0))");
            assert!(matches!(**body, Stmt::Print(_)));
        }
        _ => panic!("no for loop"),
    }
}

#[test]
fn a_for_loop_with_all_clauses() {
    let stmts = statements("for (i = 0; i < 3; i = i + 1) {}");
    match &stmts[0] {
        Stmt::For(Some(init), Some(c), Some(_), body) => {
            assert!(matches!(**init, Stmt::Expression(_)));
            assert_eq!(c.to_string(), "(< i 3.0)");
            assert!(matches!(&**body, Stmt::Block(inner) if inner.is_empty()));
        }
        _ => panic!("no for loop"),
    }
}

#[test]
fn else_belongs_to_the_nearest_if() {
    let stmts = statements("if (a) if (b) print 1; else print 2;");
    match &stmts[0] {
        Stmt::If(_, inner, None) => assert!(matches!(**inner, Stmt::If(_, _, Some(_)))),
        _ => panic!("no if"),
    }
}

#[test]
fn an_expression_statement_ends_with_a_semicolon() {
    let stmts = statements("1 + 2;");
    assert_eq!(stmts.len(), 1);
    assert!(matches!(&stmts[0], Stmt::Expression(Expr::Binary(_, _, _))));
    assert_eq!(program_error("1 + 2"), ("Expect ';' after expression.".to_string(), 1));
    assert_eq!(program_error("1 + 2 3"), ("Expect ';' after expression.".to_string(), 1));
    assert_eq!(program_error("print 1;\n\na = 1\n"), ("Expect ';' after expression.".to_string(), 4));
    assert_eq!(program_error("for (i = 0"), ("Expect ';' after expression.".to_string(), 1));
}

#[test]
fn an_empty_program_has_no_statements() {
    assert!(statements("").is_empty());
    assert!(statements("// nothing\n").is_empty());
}

#[test]
fn errors_in_statements() {
    assert_eq!(program_error("print 1"), ("Expect ';' after value.".to_string(), 1));
    assert_eq!(program_error("var = 1;"), ("Expect variable name.".to_string(), 1));
    assert_eq!(program_error("var a = 1"), ("Expect ';' after value.".to_string(), 1));
    assert_eq!(program_error("var a"), ("Expect ';' after value.".to_string(), 1));
    assert_eq!(program_error("{ print 1;"), ("Expect '}' after block.".to_string(), 1));
    assert_eq!(program_error("if a) print 1;"), ("Expect '(' after 'if'.".to_string(), 1));
    assert_eq!(program_error("if (a print 1;"), ("Expect ')' after 'if'.".to_string(), 1));
    assert_eq!(program_error("while a) print 1;"), ("Expect '(' after 'while'.".to_string(), 1));
    assert_eq!(program_error("while (a print 1;"), ("Expect ')' after 'while'.".to_string(), 1));
    assert_eq!(program_error("for a"), ("Expect '(' after 'for'.".to_string(), 1));
    assert_eq!(program_error("for (;a)"), ("Expect ';' after loop condition".to_string(), 1));
    assert_eq!(program_error("for (;;a;"), ("Expect ')' after for clauses.".to_string(), 1));
    assert_eq!(program_error("return 1"), ("Expect ';' after return value.".to_string(), 1));
    assert_eq!(program_error("fun (a) {}"), ("Expect function name.".to_string(), 1));
    assert_eq!(program_error("fun f a) {}"), ("Expect '(' after function name.".to_string(), 1));
    assert_eq!(program_error("fun f(1) {}"), ("Expect parameter name.".to_string(), 1));
    assert_eq!(program_error("fun f(a,) {}"), ("Expect parameter name.".to_string(), 1));
    assert_eq!(program_error("fun f(a b) {}"), ("Expect ')' after parameters.".to_string(), 1));
    assert_eq!(program_error("fun f(a) print a;"), ("Expect '{' before function body.".to_string(), 1));
    assert_eq!(program_error("fun f(a) { print a;"), ("Expect '}' after block.".to_string(), 1));
}

#[test]
fn parsing_stops_at_the_first_error() {
    assert_eq!(program_error("print 1;\nprint ;\nprint )"), ("Expect expression.".to_string(), 2));
}

#[test]
fn a_number_token_needs_a_decimal_literal() {
    let eof = Token::new(TokenType::Eof, String::new(), None, 1);
    for literal in [None, Some("abc"), Some(""), Some("1."), Some(".5"), Some("1.2.3"), Some("1e5")] {
        let tokens = vec![
            Token::new(TokenType::Number, "x".to_string(), literal.map(|s| s.to_string()), 4),
            eof.clone(),
        ];
        let mut parser = Parser::new(&tokens);
        match parser.parse_expr() {
            Err(e) => {
                assert_eq!(e.message(), "Expect number.");
                assert_eq!(e.line(), 4);
            }
            Ok(_) => panic!("parsed {:?}", literal),
        }
    }
    for literal in ["1", "1.5", "007", "0.250"] {
        let tokens = vec![
            Token::new(TokenType::Number, "x".to_string(), Some(literal.to_string()), 4),
            eof.clone(),
        ];
        let mut parser = Parser::new(&tokens);
        assert!(matches!(
            parser.parse_expr(),
            Ok(Expr::Literal(Literal::Number(t))) if t.text() == literal
        ));
    }
}

#[test]
fn a_number_without_a_point_is_shown_with_one() {
    let three = Numeral::new("3".to_string()).unwrap();
    let more = Numeral::new("3.5".to_string()).unwrap();
    assert_eq!(Literal::Number(three).to_string(), "3.0");
    assert_eq!(Literal::Number(more).to_string(), "3.5");
}

#[test]
fn a_string_token_needs_a_literal() {
    let tokens = vec![
        Token::new(TokenType::String, "\"a\"".to_string(), None, 2),
        Token::new(TokenType::Eof, String::new(), None, 2),
    ];
    let mut parser = Parser::new(&tokens);
    match parser.parse_expr() {
        Err(e) => assert_eq!(e.to_string(), "[line 2] Error: Expect string."),
        Ok(_) => panic!("parsed"),
    }
}

#[test]
fn the_parser_can_be_driven_token_by_token() {
    let tokens = tokens_of("a + 1");
    let mut parser = Parser::new(&tokens);
    assert_eq!(parser.peek().lexeme, "a");
    assert!(parser.check(TokenType::Identifier));
    assert!(!parser.check(TokenType::Eof));
    assert!(!parser.matches(&[TokenType::Plus, TokenType::Minus]));
    assert_eq!(parser.advance().lexeme, "a");
    assert_eq!(parser.previous().lexeme, "a");
    assert!(parser.matches(&[TokenType::Minus, TokenType::Plus]));
    assert!(parser.consume(TokenType::Plus, "Expect '+'.").is_err());
    assert_eq!(parser.consume(TokenType::Number, "Expect number.").ok().unwrap().lexeme, "1");
    assert!(parser.is_at_end());
    assert_eq!(parser.advance().lexeme, "1");
    assert!(parser.is_at_end());
}

#[test]
fn copies_of_trees_are_equal_in_text() {
    let e = expression("f(a, 1 + 2) or !b").ok().unwrap();
    assert_eq!(e.clone().to_string(), e.to_string());
    let stmts = statements("fun f(a) { if (a) { return a; } else for (;;) print a; }");
    assert_eq!(format!("{:?}", stmts[0].clone()), format!("{:?}", stmts[0]));
}

#[test]
fn lexical_errors_keep_a_text_from_being_parsed() {
    match lox_interp::frontend::parse_program("print 1 @ 2 #;") {
        Err(lox_interp::frontend::SyntaxError::Lexical(errors)) => {
            assert_eq!(errors.len(), 2);
            assert_eq!(errors[0].message, "Unexpected character: @");
            assert_eq!(errors[1].message, "Unexpected character: #");
        }
        _ => panic!("no lexical errors"),
    }
    assert!(matches!(
        lox_interp::frontend::parse_expression("\"open"),
        Err(lox_interp::frontend::SyntaxError::Lexical(_))
    ));
}

#[test]
fn a_text_without_errors_is_parsed() {
    match lox_interp::frontend::parse_program("var a = 1; print a;") {
        Ok(stmts) => assert_eq!(stmts.len(), 2),
        Err(_) => panic!("not parsed"),
    }
    match lox_interp::frontend::parse_expression("1 + 2 ignored") {
        Ok(e) => assert_eq!(e.to_string(), "(+ 1.0 2.0)"),
        Err(_) => panic!("not parsed"),
    }
    match lox_interp::frontend::parse_program("print 1") {
        Err(lox_interp::frontend::SyntaxError::Syntax(e)) => {
            assert_eq!(e.to_string(), "[line 1] Error: Expect ';' after value.")
        }
        _ => panic!("no syntax error"),
    }
}

#[test]
fn only_literal_tokens_hold_a_literal() {
    let tokens = tokens_of("");
    let parser = Parser::new(&tokens);
    let plus = Token::new(TokenType::Plus, "+".to_string(), None, 8);
    match parser.convert_token_literal(plus) {
        Err(e) => assert_eq!(e.to_string(), "[line 8] Error: Expect literal."),
        Ok(_) => panic!("converted"),
    }
    let yes = Token::new(TokenType::True, "true".to_string(), None, 1);
    assert!(matches!(parser.convert_token_literal(yes), Ok(Literal::Bool(true))));
}
