use lox_interp::driver::{Line, Outcome};
use lox_interp::interpreter::{Action, Interpreter, Operator, Request};
use lox_interp::parser::Parser;
use lox_interp::scanner::Scanner;
use lox_interp::value::{RuntimeError, Value};

fn answer(request: &Request) -> u64 {
    match request {
        Request::Arithmetic(op, a, b) => {
            let x = f64::from_bits(*a);
            let y = f64::from_bits(*b);
            let r = match op {
                Operator::Add => x + y,
                Operator::Subtract => x - y,
                Operator::Multiply => x * y,
                Operator::Divide => x / y,
            };
            r.to_bits()
        }
        Request::Parse(text) => text.parse::<f64>().unwrap().to_bits(),
        Request::Clock => 1234.5f64.to_bits(),
    }
}

fn drive(machine: &mut Interpreter, first: Action) -> (Vec<String>, Option<RuntimeError>) {
    if let Action::Failed(e) = first {
        return (Vec::new(), Some(e));
    }
    let mut lines = Vec::new();
    let mut rounds = 0u64;
    loop {
        rounds += 1;
        assert!(rounds < 100_000, "the program does not end");
        let outcome = machine.drive(&|request: &Request| answer(request), 1000, &mut lines);
        let error = match outcome {
            Outcome::Paused => continue,
            Outcome::Finished => None,
            Outcome::Failed(e) => Some(e),
        };
        let texts = lines
            .iter()
            .map(|line| match line {
                Line::Text(text) => text.clone(),
                Line::Number(bits) => format!("{}", f64::from_bits(*bits)),
            })
            .collect();
        return (texts, error);
    }
}

fn run(source: &str) -> (Vec<String>, Option<RuntimeError>) {
    let (tokens, errors) = Scanner::new(source).scan_tokens();
    assert!(errors.is_empty());
    let mut parser = Parser::new(&tokens);
    let stmts = match parser.parse() {
        Ok(stmts) => stmts,
        Err(e) => panic!("{}", e.to_string()),
    };
    let mut machine = Interpreter::new();
    machine.interpret(stmts);
    drive(&mut machine, Action::Continue)
}

fn output(source: &str) -> Vec<String> {
    let (lines, error) = run(source);
    assert!(error.is_none(), "{:?}", error);
    lines
}

fn failure(source: &str) -> (String, usize) {
    let (_, error) = run(source);
    match error {
        Some(RuntimeError::Error { message, line }) => (message, line),
        other => panic!("no error: {:?}", other),
    }
}

fn evaluate(source: &str) -> Result<Value, RuntimeError> {
    let (tokens, errors) = Scanner::new(source).scan_tokens();
    assert!(errors.is_empty());
    let mut parser = Parser::new(&tokens);
    let expr = match parser.parse_expr() {
        Ok(e) => e,
        Err(e) => panic!("{}", e.to_string()),
    };
    let mut machine = Interpreter::new();
    let first = machine.evaluate(expr, 0);
    let (_, error) = drive(&mut machine, first);
    match error {
        Some(e) => Err(e),
        None => Ok(machine.result().clone()),
    }
}

fn number(source: &str) -> f64 {
    match evaluate(source) {
        Ok(Value::Number(bits)) => f64::from_bits(bits),
        other => panic!("not a number: {:?}", other),
    }
}

fn boolean(source: &str) -> bool {
    match evaluate(source) {
        Ok(Value::Bool(b)) => b,
        other => panic!("not a boolean: {:?}", other),
    }
}

#[test]
fn multiplication_binds_tighter_than_addition() {
    assert_eq!(number("1 + 2 * 3"), 7.0);
}

#[test]
fn grouping_overrides_precedence() {
    assert_eq!(number("(1 + 2) * 3"), 9.0);
}

#[test]
fn subtraction_and_division_group_from_the_left() {
    assert_eq!(number("10 - 4 - 3"), 3.0);
    assert_eq!(number("24 / 4 / 2"), 3.0);
}

#[test]
fn equal_strings_are_equal() {
    assert!(boolean("\"a\" == \"a\""));
    assert!(!boolean("\"a\" == \"b\""));
    assert!(boolean("\"a\" != \"b\""));
}

#[test]
fn values_of_different_kinds_are_never_equal() {
    assert!(!boolean("\"1\" == 1"));
    assert!(boolean("\"1\" != 1"));
    assert!(!boolean("nil == false"));
    assert!(!boolean("0 == false"));
}

#[test]
fn numbers_are_equal_within_epsilon() {
    assert!(boolean("1 == 1"));
    assert!(!boolean("1 == 2"));
    assert!(boolean("1 != 2"));
    assert!(boolean("0.1 + 0.2 == 0.3"));
    assert!(!boolean("1 == 1.000001"));
}

#[test]
fn nil_and_booleans_are_equal_to_themselves() {
    assert!(boolean("nil == nil"));
    assert!(boolean("true == true"));
    assert!(!boolean("true == false"));
}

#[test]
fn division_by_zero_is_an_error() {
    match evaluate("1 / 0") {
        Err(RuntimeError::Error { message, line }) => {
            assert_eq!(message, "Division by zero.");
            assert_eq!(line, 1);
        }
        other => panic!("{:?}", other),
    }
}

#[test]
fn division_by_negative_zero_is_an_error() {
    match evaluate("1 / -0") {
        Err(RuntimeError::Error { message, .. }) => assert_eq!(message, "Division by zero."),
        other => panic!("{:?}", other),
    }
}

#[test]
fn comparisons_of_numbers() {
    assert!(boolean("1 < 2"));
    assert!(!boolean("2 < 1"));
    assert!(boolean("2 <= 2"));
    assert!(boolean("3 > 2"));
    assert!(boolean("3 >= 3"));
    assert!(!boolean("2 >= 3"));
    assert!(boolean("-1 < 0"));
    assert!(boolean("-2 < -1"));
    assert!(!boolean("0 < -0"));
    assert!(boolean("0 <= -0"));
}

#[test]
fn comparison_of_other_values_is_an_error() {
    for source in ["\n\"a\" < 1", "\n1 <= \"a\"", "\nnil > 1", "\ntrue >= false"] {
        match evaluate(source) {
            Err(RuntimeError::Error { message, line }) => {
                assert_eq!(message, "Operands must be numbers.");
                assert_eq!(line, 2);
            }
            other => panic!("{:?}", other),
        }
    }
    match evaluate("\"a\" < 1") {
        Err(RuntimeError::Error { line, .. }) => assert_eq!(line, 1),
        other => panic!("{:?}", other),
    }
}

#[test]
fn addition_joins_strings() {
    match evaluate("\"foo\" + \"bar\"") {
        Ok(Value::String(s)) => assert_eq!(s, "foobar"),
        other => panic!("{:?}", other),
    }
}

#[test]
fn addition_of_mixed_operands_is_an_error() {
    match evaluate("\"a\" + 1") {
        Err(RuntimeError::Error { message, line }) => {
            assert_eq!(message, "Operands must be two numbers or two strings.");
            assert_eq!(line, 1);
        }
        other => panic!("{:?}", other),
    }
}

#[test]
fn arithmetic_on_other_values_is_an_error() {
    for source in ["1 - \"a\"", "nil * 2", "true / 2"] {
        match evaluate(source) {
            Err(RuntimeError::Error { message, .. }) => {
                assert_eq!(message, "Operands must be numbers.")
            }
            other => panic!("{:?}", other),
        }
    }
}

#[test]
fn unary_minus_negates_numbers_only() {
    assert_eq!(number("-3"), -3.0);
    assert_eq!(number("--3"), 3.0);
    match evaluate("-\"a\"") {
        Err(RuntimeError::Error { message, .. }) => {
            assert_eq!(message, "Invalid operand for unary operator")
        }
        other => panic!("{:?}", other),
    }
}

#[test]
fn bang_applies_truthiness() {
    assert!(boolean("!nil"));
    assert!(boolean("!false"));
    assert!(!boolean("!0"));
    assert!(!boolean("!\"\""));
    assert!(!boolean("!true"));
}

#[test]
fn shadowing_in_a_block_leaves_the_outer_variable() {
    assert_eq!(output("var x = 1; { var x = 2; print x; } print x;"), vec!["2", "1"]);
}

#[test]
fn assignment_reaches_the_nearest_declaration() {
    assert_eq!(output("var x = 1; { x = 2; { x = x + 1; } } print x;"), vec!["3"]);
}

#[test]
fn assignment_is_an_expression() {
    assert_eq!(output("var a; var b; a = b = 4; print a; print b;"), vec!["4", "4"]);
}

#[test]
fn assignment_to_an_undefined_name_is_an_error() {
    assert_eq!(failure("\nx = 1;"), ("Undefined variable 'x'.".to_string(), 2));
}

#[test]
fn reading_an_undefined_name_is_an_error() {
    assert_eq!(failure("print y;"), ("Undefined variable 'y'.".to_string(), 1));
}

#[test]
fn a_variable_without_initializer_is_nil() {
    assert_eq!(output("var x; print x;"), vec!["nil"]);
}

#[test]
fn counters_keep_their_own_state() {
    let source = "
        fun make() {
            var n = 0;
            fun next() { n = n + 1; return n; }
            return next;
        }
        var a = make();
        var b = make();
        print a();
        print a();
        print b();
        print a();
    ";
    assert_eq!(output(source), vec!["1", "2", "1", "3"]);
}

#[test]
fn a_function_may_call_itself() {
    let source = "
        fun fact(n) { if (n <= 1) return 1; return n * fact(n - 1); }
        fun fib(n) { if (n < 2) return n; return fib(n - 1) + fib(n - 2); }
        print fact(5);
        print fib(10);
    ";
    assert_eq!(output(source), vec!["120", "55"]);
}

#[test]
fn a_call_with_too_many_arguments_is_an_error() {
    let (message, line) = failure("fun f(a) { return a; }\nf(1, 2);");
    assert_eq!(message, "Expected 1 arguments but got 2. ");
    assert_eq!(line, 2);
}

#[test]
fn a_call_with_too_few_arguments_is_an_error() {
    let (message, _) = failure("fun f(a, b) { return a; } f(1);");
    assert_eq!(message, "Expected 2 arguments but got 1. ");
}

#[test]
fn only_functions_can_be_called() {
    assert_eq!(failure("var x = 1; x();"), ("Can only call functions.".to_string(), 1));
}

#[test]
fn for_loop_counts_and_ends() {
    assert_eq!(output("for (var i = 0; i < 3; i = i + 1) print i;"), vec!["0", "1", "2"]);
}

#[test]
fn for_loop_without_initializer_and_increment() {
    assert_eq!(output("var i = 0; for (; i < 2;) { print i; i = i + 1; }"), vec!["0", "1"]);
}

#[test]
fn while_loop_runs_while_the_condition_holds() {
    assert_eq!(output("var i = 3; while (i > 0) { print i; i = i - 1; }"), vec!["3", "2", "1"]);
}

#[test]
fn if_runs_one_branch() {
    assert_eq!(output("if (1 < 2) print \"yes\"; else print \"no\";"), vec!["yes"]);
    assert_eq!(output("if (nil) print \"yes\"; else print \"no\";"), vec!["no"]);
    assert_eq!(output("if (false) print \"yes\";"), Vec::<String>::new());
    assert_eq!(output("if (0) print \"zero is truthy\";"), vec!["zero is truthy"]);
}

#[test]
fn logical_operators_short_circuit() {
    let source = "
        var a = 1;
        true or (a = 2);
        print a;
        false and (a = 3);
        print a;
        false or (a = 4);
        print a;
        true and (a = 5);
        print a;
        print nil or \"x\";
        print 1 and 2;
    ";
    assert_eq!(output(source), vec!["1", "1", "4", "5", "x", "2"]);
}

#[test]
fn arguments_are_evaluated_in_the_scope_of_the_caller() {
    let source = "
        var a = 1;
        fun show(a, b) { print a; print b; }
        { var a = 10; show(a, a + 1); }
    ";
    assert_eq!(output(source), vec!["10", "11"]);
}

#[test]
fn functions_see_the_scope_of_their_declaration() {
    let source = "
        var x = \"global\";
        fun show() { print x; }
        { var x = \"local\"; show(); }
    ";
    assert_eq!(output(source), vec!["global"]);
}

#[test]
fn a_function_without_return_gives_nil() {
    assert_eq!(output("fun f() { 1; } print f();"), vec!["nil"]);
    assert_eq!(output("fun g() { return; } print g();"), vec!["nil"]);
}

#[test]
fn return_leaves_loops_and_blocks_of_the_call() {
    let source = "
        fun first() { var i = 0; while (true) { { if (i == 2) return i; } i = i + 1; } }
        print first();
        print \"after\";
    ";
    assert_eq!(output(source), vec!["2", "after"]);
}

#[test]
fn return_at_the_top_level_stops_the_program() {
    let (lines, error) = run("print 1; return 2; print 3;");
    assert_eq!(lines, vec!["1"]);
    match error {
        Some(RuntimeError::Return(Value::Number(bits))) => assert_eq!(f64::from_bits(bits), 2.0),
        other => panic!("{:?}", other),
    }
}

#[test]
fn values_print_as_text() {
    let source = "
        print \"text\"; print true; print false; print nil; print 1.5; print clock;
        fun f() {} print f;
    ";
    assert_eq!(output(source), vec!["text", "true", "false", "nil", "1.5", "<fn>", "<fn f>"]);
}

#[test]
fn clock_takes_no_arguments() {
    assert_eq!(number("clock()"), 1234.5);
    match evaluate("clock(1)") {
        Err(RuntimeError::Error { message, .. }) => {
            assert_eq!(message, "Native function Expected 0 arguments.")
        }
        other => panic!("{:?}", other),
    }
}

#[test]
fn an_error_stops_the_program() {
    let (lines, error) = run("print 1; print 1 / 0; print 2;");
    assert_eq!(lines, vec!["1"]);
    assert!(error.is_some());
    let mut machine = Interpreter::new();
    assert!(matches!(machine.step(None), Action::Finished));
}

#[test]
fn a_request_is_repeated_until_it_is_answered() {
    let (tokens, _) = Scanner::new("1 + 2").scan_tokens();
    let mut parser = Parser::new(&tokens);
    let expr = parser.parse_expr().ok().unwrap();
    let mut machine = Interpreter::new();
    let mut action = machine.evaluate(expr, 0);
    while matches!(action, Action::Continue) {
        action = machine.step(None);
    }
    assert!(matches!(action, Action::Ask(Request::Parse(_))));
    assert!(machine.is_waiting());
    assert!(matches!(machine.step(None), Action::Ask(Request::Parse(_))));
    assert!(matches!(machine.step(Some(1.0f64.to_bits())), Action::Continue));
    assert!(!machine.is_waiting());
}

#[test]
fn runtime_errors_render_with_their_line() {
    let e = RuntimeError::new("Division by zero.".to_string(), 7);
    assert_eq!(e.to_string(), Some("[line 7] Error: Division by zero.".to_string()));
    assert_eq!(RuntimeError::Return(Value::Nil).to_string(), None);
}

fn token(kind: lox_interp::token::TokenType, text: &str, line: usize) -> lox_interp::token::Token {
    lox_interp::token::Token::new(kind, text.to_string(), None, line)
}

fn literal_number(text: &str) -> lox_interp::ast::Expr {
    let numeral = lox_interp::ast::Numeral::new(text.to_string()).unwrap();
    lox_interp::ast::Expr::Literal(lox_interp::ast::Literal::Number(numeral))
}

fn evaluate_tree(expr: lox_interp::ast::Expr) -> Result<Value, RuntimeError> {
    let mut machine = Interpreter::new();
    let first = machine.evaluate(expr, 0);
    let (_, error) = drive(&mut machine, first);
    match error {
        Some(e) => Err(e),
        None => Ok(machine.result().clone()),
    }
}

#[test]
fn a_binary_node_with_another_token_is_an_error() {
    let expr = lox_interp::ast::Expr::Binary(
        Box::new(literal_number("1")),
        token(lox_interp::token::TokenType::Comma, ",", 5),
        Box::new(literal_number("2")),
    );
    match evaluate_tree(expr) {
        Err(RuntimeError::Error { message, line }) => {
            assert_eq!(message, "Unimplemented");
            assert_eq!(line, 5);
        }
        other => panic!("{:?}", other),
    }
}

#[test]
fn a_logical_node_with_another_token_is_an_error() {
    let expr = lox_interp::ast::Expr::Logical(
        Box::new(literal_number("1")),
        token(lox_interp::token::TokenType::Plus, "+", 6),
        Box::new(literal_number("2")),
    );
    match evaluate_tree(expr) {
        Err(RuntimeError::Error { message, line }) => {
            assert_eq!(message, "Not implemented");
            assert_eq!(line, 6);
        }
        other => panic!("{:?}", other),
    }
}

#[test]
fn a_unary_node_with_another_token_is_an_error() {
    let expr = lox_interp::ast::Expr::Unary(
        token(lox_interp::token::TokenType::Plus, "+", 4),
        Box::new(literal_number("1")),
    );
    match evaluate_tree(expr) {
        Err(RuntimeError::Error { message, line }) => {
            assert_eq!(message, "Not implemented");
            assert_eq!(line, 4);
        }
        other => panic!("{:?}", other),
    }
}

#[test]
fn a_number_literal_is_a_decimal_numeral() {
    for text in ["one", "", "1.", ".5", "1.2.3", "1e5", "-1", "inf"] {
        assert!(lox_interp::ast::Numeral::new(text.to_string()).is_none(), "{}", text);
    }
    for text in ["0", "1", "2.50", "007", "123456789012345678901234567890.5"] {
        assert_eq!(lox_interp::ast::Numeral::new(text.to_string()).unwrap().text(), text);
    }
    match evaluate_tree(literal_number("2.50")) {
        Ok(Value::Number(bits)) => assert_eq!(f64::from_bits(bits), 2.5),
        other => panic!("{:?}", other),
    }
}

#[test]
fn statements_can_be_executed_one_by_one() {
    let stmts = match lox_interp::frontend::parse_program("var a = 2; print a * a;") {
        Ok(s) => s,
        Err(_) => panic!("not parsed"),
    };
    let mut machine = Interpreter::new();
    let mut lines = Vec::new();
    for stmt in stmts {
        let first = machine.execute(stmt, 0);
        let (mut printed, error) = drive(&mut machine, first);
        assert!(error.is_none());
        lines.append(&mut printed);
    }
    assert_eq!(lines, vec!["4"]);
    assert_eq!(machine.environment().len(), 1);
}

#[test]
fn every_block_and_call_enters_a_scope() {
    let mut machine = Interpreter::new();
    let stmts = match lox_interp::frontend::parse_program("{ { } } fun f() {} f();") {
        Ok(s) => s,
        Err(_) => panic!("not parsed"),
    };
    machine.interpret(stmts);
    let (_, error) = drive(&mut machine, Action::Continue);
    assert!(error.is_none());
    assert_eq!(machine.environment().len(), 5);
}

#[test]
fn running_stops_when_the_fuel_is_spent() {
    let stmts = match lox_interp::frontend::parse_program("while (true) {}") {
        Ok(s) => s,
        Err(_) => panic!("not parsed"),
    };
    let mut machine = Interpreter::new();
    machine.interpret(stmts);
    for _ in 0..100 {
        assert!(matches!(machine.run(None, 50), Action::Continue));
    }
}

#[test]
fn deep_recursion_and_long_loops_run() {
    let source = "
        fun fib(n) { if (n < 2) return n; return fib(n - 1) + fib(n - 2); }
        print fib(18);
        var sum = 0;
        for (var i = 0; i < 20000; i = i + 1) { sum = sum + i; }
        print sum;
        fun count(n) { if (n == 0) return 0; return 1 + count(n - 1); }
        print count(2000);
    ";
    assert_eq!(output(source), vec!["2584", "199990000", "2000"]);
}

#[test]
fn nested_closures_share_the_scope_they_were_declared_in() {
    let source = "
        fun pair() {
            var n = 0;
            fun up() { n = n + 1; return n; }
            fun get() { return n; }
            up(); up();
            return get;
        }
        var get = pair();
        print get();
        fun outer() {
            var a = \"a\";
            fun middle() {
                var b = \"b\";
                fun inner() { return a + b; }
                return inner;
            }
            return middle();
        }
        print outer()();
    ";
    assert_eq!(output(source), vec!["2", "ab"]);
}

#[test]
fn a_parameter_shadows_a_global_and_a_local_shadows_a_parameter() {
    let source = "
        var x = \"global\";
        fun f(x) { print x; { var x = \"local\"; print x; } print x; }
        f(\"parameter\");
        print x;
    ";
    assert_eq!(output(source), vec!["parameter", "local", "parameter", "global"]);
}

#[test]
fn an_error_inside_a_call_is_not_caught_by_the_call() {
    let source = "
        fun bad() { return 1 / 0; }
        fun caller() { bad(); return 1; }
        print caller();
        print \"never\";
    ";
    let (lines, error) = run(source);
    assert!(lines.is_empty());
    match error {
        Some(RuntimeError::Error { message, line }) => {
            assert_eq!(message, "Division by zero.");
            assert_eq!(line, 2);
        }
        other => panic!("{:?}", other),
    }
}

#[test]
fn the_increment_of_a_for_loop_runs_after_the_body() {
    let source = "for (var i = 0; i < 2; i = i + 10) { print i; i = i + 1; }";
    assert_eq!(output(source), vec!["0"]);
    let source = "var n = 0; for (;n < 3;) n = n + 1; print n;";
    assert_eq!(output(source), vec!["3"]);
}

#[test]
fn values_and_errors_render_with_the_text_of_numbers() {
    let text = |bits: u64| f64::from_bits(bits).to_string();
    assert_eq!(Value::Number(2.5f64.to_bits()).render(&text), "2.5");
    assert_eq!(Value::Number(7.0f64.to_bits()).render(&text), "7");
    assert_eq!(Value::String("s".to_string()).render(&text), "s");
    assert_eq!(Value::Bool(true).render(&text), "true");
    assert_eq!(Value::Nil.render(&text), "nil");
    assert_eq!(Value::Number(1.0f64.to_bits()).to_string(), None);
    assert_eq!(Value::Nil.to_string(), Some("nil".to_string()));
    let e = RuntimeError::new("Division by zero.".to_string(), 3);
    assert_eq!(e.render(&text), "[line 3] Error: Division by zero.");
    assert_eq!(RuntimeError::Return(Value::Number(2.0f64.to_bits())).render(&text), "Return 2");
    assert_eq!(RuntimeError::Return(Value::Nil).render(&text), "Return nil");
}

#[test]
fn a_run_stops_when_its_steps_are_taken_and_can_be_run_on() {
    let stmts = match lox_interp::frontend::parse_program("print 1; print 2; print 3;") {
        Ok(s) => s,
        Err(_) => panic!("not parsed"),
    };
    let mut machine = Interpreter::new();
    machine.interpret(stmts);
    let mut lines = Vec::new();
    let mut pauses = 0;
    loop {
        match machine.drive(&|request: &Request| answer(request), 3, &mut lines) {
            Outcome::Paused => pauses += 1,
            Outcome::Finished => break,
            Outcome::Failed(e) => panic!("{:?}", e),
        }
    }
    assert!(pauses >= 3);
    assert_eq!(lines.len(), 3);
    assert!(matches!(lines[0], Line::Number(bits) if f64::from_bits(bits) == 1.0));
    assert!(matches!(
        machine.drive(&|request: &Request| answer(request), 3, &mut lines),
        Outcome::Finished
    ));
    assert_eq!(lines.len(), 3);
}

#[test]
fn a_run_without_steps_changes_nothing() {
    let mut machine = Interpreter::new();
    let first = machine.evaluate(
        literal_number("1"),
        0,
    );
    assert!(matches!(first, Action::Ask(Request::Parse(_))));
    let mut lines = vec![Line::Text("kept".to_string())];
    assert!(matches!(
        machine.drive(&|request: &Request| answer(request), 0, &mut lines),
        Outcome::Paused
    ));
    assert!(machine.is_waiting());
    assert!(matches!(machine.request(), Some(Request::Parse(text)) if text == "1"));
    assert_eq!(lines.len(), 1);
}

#[test]
fn the_host_is_asked_in_the_order_of_evaluation() {
    let stmts = match lox_interp::frontend::parse_program("print (1 + 2) * 3 == 9;") {
        Ok(s) => s,
        Err(_) => panic!("not parsed"),
    };
    let asked = std::cell::RefCell::new(Vec::new());
    let mut machine = Interpreter::new();
    machine.interpret(stmts);
    let mut lines = Vec::new();
    let host = |request: &Request| {
        asked.borrow_mut().push(format!("{:?}", request));
        answer(request)
    };
    assert!(matches!(machine.drive(&host, 1000, &mut lines), Outcome::Finished));
    let one = 1.0f64.to_bits();
    let two = 2.0f64.to_bits();
    let three = 3.0f64.to_bits();
    let nine = 9.0f64.to_bits();
    assert_eq!(
        *asked.borrow(),
        vec![
            "Parse(\"1.0\")".to_string(),
            "Parse(\"2.0\")".to_string(),
            format!("Arithmetic(Add, {}, {})", one, two),
            "Parse(\"3.0\")".to_string(),
            format!("Arithmetic(Multiply, {}, {})", three, three),
            "Parse(\"9.0\")".to_string(),
            format!("Arithmetic(Subtract, {}, {})", nine, nine),
        ]
    );
    assert!(matches!(&lines[0], Line::Text(text) if text == "true"));
}
