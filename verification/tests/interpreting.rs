use codecrafters_interpreter::environment::Environment;
use codecrafters_interpreter::interpreter::{Action, Exit, Interpreter, Request};
use codecrafters_interpreter::parser::Parser;
use codecrafters_interpreter::scanner::Scanner;
use codecrafters_interpreter::token::{LiteralKind, Token, TokenKind};

fn tokens(source: &str) -> Vec<Token> {
    let mut scanner = Scanner::new(source.to_string());
    scanner.scan_tokens().clone()
}

fn value(numeral: &str) -> f64 {
    numeral.parse().unwrap()
}

fn number(x: f64) -> LiteralKind {
    LiteralKind::Number(x.to_string())
}

/// The arithmetic of a host that computes with double precision.
fn compute(request: &Request) -> LiteralKind {
    match request {
        Request::Literal(numeral) => number(value(numeral)),
        Request::Negate(numeral) => number(-value(numeral)),
        Request::Binary(kind, left, right) => {
            let (l, r) = (value(left), value(right));
            match kind {
                TokenKind::Plus => number(l + r),
                TokenKind::Minus => number(l - r),
                TokenKind::Star => number(l * r),
                TokenKind::Slash => number(l / r),
                TokenKind::Greater => LiteralKind::Bool(l > r),
                TokenKind::GreaterEqual => LiteralKind::Bool(l >= r),
                TokenKind::Less => LiteralKind::Bool(l < r),
                TokenKind::LessEqual => LiteralKind::Bool(l <= r),
                TokenKind::EqualEqual => LiteralKind::Bool(l == r),
                other => panic!("unexpected operator {:?}", other),
            }
        }
    }
}

struct Outcome {
    printed: Vec<String>,
    value: Option<String>,
    error: Option<String>,
}

fn drive(interpreter: &mut Interpreter, limit: usize) -> Outcome {
    let mut outcome = Outcome { printed: Vec::new(), value: None, error: None };
    for _ in 0..limit {
        match interpreter.step() {
            Action::Continue => {}
            Action::Print(line) => outcome.printed.push(line),
            Action::Compute(request) => {
                assert!(interpreter.is_waiting());
                assert!(interpreter.supply(compute(&request)));
            }
            Action::Value(text) => outcome.value = Some(text),
            Action::Failed(Exit::RuntimeError(fault)) => {
                outcome.error = Some(fault.report());
                return outcome;
            }
            Action::Failed(Exit::Return(_)) => panic!("unexpected return"),
            Action::Finished => return outcome,
        }
    }
    panic!("the program did not end within {} steps", limit);
}

fn run(source: &str) -> Outcome {
    let mut parser = Parser::new(tokens(source));
    let statements = parser.parse().unwrap();
    let mut interpreter = Interpreter::new();
    interpreter.interpret(&statements);
    drive(&mut interpreter, 100_000)
}

fn evaluate(source: &str) -> Result<String, String> {
    let mut parser = Parser::new(tokens(source));
    let expr = parser.parse_expression().unwrap();
    let mut interpreter = Interpreter::new();
    interpreter.interpret_expression(&expr);
    let outcome = drive(&mut interpreter, 100_000);
    assert!(outcome.printed.is_empty());
    match outcome.error {
        Some(error) => Err(error),
        None => Ok(outcome.value.unwrap()),
    }
}

fn lines(outcome: &Outcome) -> Vec<&str> {
    outcome.printed.iter().map(|line| line.as_str()).collect()
}

#[test]
fn strings_are_concatenated() {
    assert_eq!(evaluate("\"foo\" + \"bar\""), Ok("foobar".to_string()));
}

#[test]
fn a_number_and_a_string_cannot_be_added() {
    assert_eq!(
        evaluate("1 + \"a\""),
        Err("[line 1] Error: Operands must be two numbers or two strings.".to_string())
    );
}

#[test]
fn a_block_has_a_scope_of_its_own() {
    let outcome = run("var a = 1; { var a = 2; print a; } print a;");
    assert_eq!(lines(&outcome), vec!["2", "1"]);
    assert!(outcome.error.is_none());
}

#[test]
fn a_while_loop_counts() {
    let outcome = run("var i = 0; while (i < 3) { print i; i = i + 1; }");
    assert_eq!(lines(&outcome), vec!["0", "1", "2"]);
    assert!(outcome.error.is_none());
}

#[test]
fn logical_operators_give_the_operand_that_decides() {
    let outcome = run("print nil or \"x\"; print false and 3;");
    assert_eq!(lines(&outcome), vec!["x", "false"]);
}

#[test]
fn a_for_loop_counts() {
    let outcome = run("for (var i = 0; i < 3; i = i + 1) print i;");
    assert_eq!(lines(&outcome), vec!["0", "1", "2"]);
}

#[test]
fn arithmetic_follows_precedence() {
    assert_eq!(evaluate("1 + 2 * 3"), Ok("7".to_string()));
    assert_eq!(evaluate("(1 + 2) * 3"), Ok("9".to_string()));
    assert_eq!(evaluate("7 / 2"), Ok("3.5".to_string()));
    assert_eq!(evaluate("10 - 4 - 3"), Ok("3".to_string()));
    assert_eq!(evaluate("-(1 + 2)"), Ok("-3".to_string()));
    assert_eq!(evaluate("0.1 + 0.2"), Ok("0.30000000000000004".to_string()));
}

#[test]
fn numbers_print_without_a_fraction_of_zero() {
    assert_eq!(evaluate("42"), Ok("42".to_string()));
    assert_eq!(evaluate("3.00"), Ok("3".to_string()));
    assert_eq!(evaluate("1.50"), Ok("1.5".to_string()));
    let interpreter = Interpreter::new();
    assert_eq!(interpreter.stringify(LiteralKind::Number("42.0".to_string())), "42");
    assert_eq!(interpreter.stringify(LiteralKind::Number("42.5".to_string())), "42.5");
    assert_eq!(interpreter.stringify(LiteralKind::Number("0".to_string())), "0");
    assert_eq!(interpreter.stringify(LiteralKind::Number(".0".to_string())), "");
    assert_eq!(interpreter.stringify(LiteralKind::Nil), "nil");
    assert_eq!(interpreter.stringify(LiteralKind::Bool(true)), "true");
    assert_eq!(interpreter.stringify(LiteralKind::Bool(false)), "false");
    assert_eq!(interpreter.stringify(LiteralKind::String("a b".to_string())), "a b");
}

#[test]
fn comparisons_need_numbers() {
    assert_eq!(evaluate("1 < 2"), Ok("true".to_string()));
    assert_eq!(evaluate("2 <= 1"), Ok("false".to_string()));
    assert_eq!(evaluate("2 > 1"), Ok("true".to_string()));
    assert_eq!(evaluate("1 >= 1"), Ok("true".to_string()));
    for source in ["1 < \"a\"", "nil - 1", "true * 2", "\"a\" / \"b\"", "1 >= nil"] {
        assert_eq!(
            evaluate(source),
            Err("[line 1] Error: Operands must be numbers.".to_string())
        );
    }
}

#[test]
fn negation_needs_a_number() {
    assert_eq!(evaluate("-\"a\""), Err("[line 1] Error: Operand must be a number.".to_string()));
    assert_eq!(evaluate("-nil"), Err("[line 1] Error: Operand must be a number.".to_string()));
}

#[test]
fn truthiness() {
    assert_eq!(evaluate("!nil"), Ok("true".to_string()));
    assert_eq!(evaluate("!false"), Ok("true".to_string()));
    assert_eq!(evaluate("!true"), Ok("false".to_string()));
    assert_eq!(evaluate("!0"), Ok("false".to_string()));
    assert_eq!(evaluate("!\"\""), Ok("false".to_string()));
    let interpreter = Interpreter::new();
    assert!(!interpreter.is_truthy(&LiteralKind::Nil));
    assert!(!interpreter.is_truthy(&LiteralKind::Bool(false)));
    assert!(interpreter.is_truthy(&LiteralKind::Bool(true)));
    assert!(interpreter.is_truthy(&LiteralKind::Number("0".to_string())));
    assert!(interpreter.is_truthy(&LiteralKind::String(String::new())));
}

#[test]
fn double_negation_gives_truthiness() {
    assert_eq!(evaluate("!!true"), Ok("true".to_string()));
    assert_eq!(evaluate("!!false"), Ok("false".to_string()));
    assert_eq!(evaluate("!!nil"), Ok("false".to_string()));
}

#[test]
fn equality_is_structural() {
    assert_eq!(evaluate("nil == nil"), Ok("true".to_string()));
    assert_eq!(evaluate("nil == false"), Ok("false".to_string()));
    assert_eq!(evaluate("1 == 1.0"), Ok("true".to_string()));
    assert_eq!(evaluate("1 == 2"), Ok("false".to_string()));
    assert_eq!(evaluate("1 == \"1\""), Ok("false".to_string()));
    assert_eq!(evaluate("\"a\" == \"a\""), Ok("true".to_string()));
    assert_eq!(evaluate("\"a\" == \"b\""), Ok("false".to_string()));
    assert_eq!(evaluate("true == true"), Ok("true".to_string()));
    assert_eq!(evaluate("true == false"), Ok("false".to_string()));
    let interpreter = Interpreter::new();
    let one = LiteralKind::Number("1".to_string());
    assert_eq!(interpreter.is_equal(&one, &one), None);
    assert_eq!(interpreter.is_equal(&LiteralKind::Nil, &LiteralKind::Nil), Some(true));
    assert_eq!(interpreter.is_equal(&LiteralKind::Nil, &one), Some(false));
    assert_eq!(interpreter.is_equal(&one, &LiteralKind::String("1".to_string())), Some(false));
}

#[test]
fn inequality_is_the_opposite_of_equality() {
    for (a, b) in [
        ("nil", "nil"),
        ("nil", "1"),
        ("1", "1"),
        ("1", "2"),
        ("\"a\"", "\"a\""),
        ("\"a\"", "\"b\""),
        ("true", "false"),
        ("true", "\"true\""),
    ] {
        let same = evaluate(&format!("{} == {}", a, b)).unwrap();
        let other = evaluate(&format!("!({} != {})", a, b)).unwrap();
        assert_eq!(same, other);
    }
}

#[test]
fn parentheses_do_not_change_the_value() {
    for source in ["1 + 2", "\"a\" + \"b\"", "nil", "!true", "1 < 2", "nil or 3"] {
        assert_eq!(evaluate(&format!("({})", source)), evaluate(source));
    }
}

#[test]
fn operands_are_evaluated_right_then_left() {
    // Both operands fail: the error of the right one is reported.
    assert_eq!(
        evaluate("left + right"),
        Err("[line 1] Error: Undefined variable 'right'.".to_string())
    );
}

#[test]
fn assignment_gives_the_value_and_needs_a_variable() {
    let outcome = run("var a = 1; print a = 2; print a;");
    assert_eq!(lines(&outcome), vec!["2", "2"]);
    let outcome = run("a = 1;");
    assert_eq!(outcome.error, Some("[line 1] Error: Undefined variable 'a'.".to_string()));
}

#[test]
fn assignment_in_a_block_reaches_the_outer_variable() {
    let outcome = run("var a = 1; { a = 2; var b = 3; } print a;");
    assert_eq!(lines(&outcome), vec!["2"]);
    let outcome = run("{ var b = 3; } print b;");
    assert_eq!(outcome.error, Some("[line 1] Error: Undefined variable 'b'.".to_string()));
}

#[test]
fn a_runtime_error_stops_the_program_and_leaves_the_block() {
    let mut parser = Parser::new(tokens("var a = 1; { var a = 2; print a; print -nil; print 3; } print 4;"));
    let statements = parser.parse().unwrap();
    let mut interpreter = Interpreter::new();
    interpreter.interpret(&statements);
    let outcome = drive(&mut interpreter, 1000);
    assert_eq!(lines(&outcome), vec!["2"]);
    assert_eq!(outcome.error, Some("[line 1] Error: Operand must be a number.".to_string()));
    assert!(matches!(interpreter.step(), Action::Finished));

    // The scope of the block has been left: `a` is the outer variable again.
    let mut parser = Parser::new(tokens("print a;"));
    let statements = parser.parse().unwrap();
    interpreter.interpret(&statements);
    let outcome = drive(&mut interpreter, 1000);
    assert_eq!(lines(&outcome), vec!["1"]);
}

#[test]
fn if_takes_the_branch_of_its_condition() {
    let outcome = run("if (1 < 2) print \"yes\"; else print \"no\"; if (nil) print \"never\"; print \"end\";");
    assert_eq!(lines(&outcome), vec!["yes", "end"]);
    let outcome = run("if (false) print \"yes\"; else print \"no\";");
    assert_eq!(lines(&outcome), vec!["no"]);
}

#[test]
fn a_variable_without_initializer_is_nil() {
    let outcome = run("var a; print a;");
    assert_eq!(lines(&outcome), vec!["nil"]);
}

#[test]
fn execute_block_runs_statements_in_the_environment_that_it_is_given() {
    let mut parser = Parser::new(tokens("var a = 1;"));
    let setup = parser.parse().unwrap();
    let mut parser = Parser::new(tokens("print b; var a = 2; print a;"));
    let body = parser.parse().unwrap();
    let mut parser = Parser::new(tokens("print a;"));
    let check = parser.parse().unwrap();
    let mut interpreter = Interpreter::new();
    interpreter.interpret(&setup);
    drive(&mut interpreter, 1000);
    let mut environment = Environment::new();
    environment.define("b".to_string(), LiteralKind::String("given".to_string()));
    interpreter.execute_block(&body, environment);
    let outcome = drive(&mut interpreter, 1000);
    assert_eq!(lines(&outcome), vec!["given", "2"]);
    assert!(outcome.error.is_none());
    interpreter.interpret(&check);
    let outcome = drive(&mut interpreter, 1000);
    assert_eq!(lines(&outcome), vec!["1"]);
}

#[test]
fn execute_block_goes_back_to_the_environment_when_a_statement_fails() {
    let mut parser = Parser::new(tokens("var a = 1;"));
    let setup = parser.parse().unwrap();
    let mut parser = Parser::new(tokens("var c = 3; print c; print a; print 4;"));
    let body = parser.parse().unwrap();
    let mut interpreter = Interpreter::new();
    interpreter.interpret(&setup);
    drive(&mut interpreter, 1000);
    interpreter.execute_block(&body, Environment::new());
    let outcome = drive(&mut interpreter, 1000);
    // The environment that was given does not bind `a`, and what follows
    // the failing statement is not executed.
    assert_eq!(lines(&outcome), vec!["3"]);
    assert_eq!(outcome.error, Some("[line 1] Error: Undefined variable 'a'.".to_string()));
    for (source, expected) in [("print a;", Ok("1")), ("print c;", Err(()))] {
        let mut parser = Parser::new(tokens(source));
        let statements = parser.parse().unwrap();
        interpreter.interpret(&statements);
        let outcome = drive(&mut interpreter, 1000);
        match expected {
            Ok(line) => assert_eq!(lines(&outcome), vec![line]),
            Err(()) => assert_eq!(
                outcome.error,
                Some("[line 1] Error: Undefined variable 'c'.".to_string())
            ),
        }
    }
}

#[test]
fn the_interpreter_waits_until_it_is_supplied() {
    let mut parser = Parser::new(tokens("1 + 2"));
    let expr = parser.parse_expression().unwrap();
    let mut interpreter = Interpreter::new();
    assert!(!interpreter.supply(LiteralKind::Nil));
    interpreter.interpret_expression(&expr);
    assert!(matches!(interpreter.step(), Action::Continue));
    assert!(!interpreter.is_waiting());
    match interpreter.step() {
        Action::Compute(Request::Literal(numeral)) => assert_eq!(numeral, "2.0"),
        other => panic!("unexpected action {:?}", other),
    }
    // Without an answer the request is made again.
    match interpreter.step() {
        Action::Compute(Request::Literal(numeral)) => assert_eq!(numeral, "2.0"),
        other => panic!("unexpected action {:?}", other),
    }
    assert!(interpreter.supply(LiteralKind::Number("2".to_string())));
    match interpreter.step() {
        Action::Compute(Request::Literal(numeral)) => assert_eq!(numeral, "1.0"),
        other => panic!("unexpected action {:?}", other),
    }
    assert!(interpreter.supply(LiteralKind::Number("1".to_string())));
    match interpreter.step() {
        Action::Compute(Request::Binary(TokenKind::Plus, left, right)) => {
            assert_eq!(left, "1");
            assert_eq!(right, "2");
        }
        other => panic!("unexpected action {:?}", other),
    }
    assert!(interpreter.supply(LiteralKind::Number("3".to_string())));
    match interpreter.step() {
        Action::Value(text) => assert_eq!(text, "3"),
        other => panic!("unexpected action {:?}", other),
    }
    assert!(matches!(interpreter.step(), Action::Finished));
}

#[test]
fn reserved_constructs_are_runtime_errors() {
    assert_eq!(evaluate("this"), Err("[line 1] Error: Classes are not implemented.".to_string()));
    assert_eq!(
        evaluate("super.method"),
        Err("[line 1] Error: Classes are not implemented.".to_string())
    );
}

#[test]
fn nested_loops_and_conditions() {
    let outcome = run(
        "var total = 0;\n\
         for (var i = 1; i <= 4; i = i + 1) {\n\
           var j = 0;\n\
           while (j < i) {\n\
             if (j == 2 or i == 1) total = total + 10; else total = total + 1;\n\
             j = j + 1;\n\
           }\n\
         }\n\
         print total;",
    );
    // i = 1: 10; i = 2: 1 + 1; i = 3: 1 + 1 + 10; i = 4: 1 + 1 + 10 + 1.
    assert_eq!(lines(&outcome), vec!["37"]);
    assert!(outcome.error.is_none());
}

#[test]
fn fibonacci_numbers() {
    let outcome = run(
        "var a = 0; var b = 1;\n\
         for (var i = 0; i < 10; i = i + 1) { print a; var next = a + b; a = b; b = next; }",
    );
    assert_eq!(lines(&outcome), vec!["0", "1", "1", "2", "3", "5", "8", "13", "21", "34"]);
}

#[test]
fn the_right_operand_of_a_logical_operator_is_skipped_when_decided() {
    let outcome = run("var a = 1; true or (a = 2); false and (a = 3); print a; nil or (a = 4); print a;");
    assert_eq!(lines(&outcome), vec!["1", "4"]);
}

#[test]
fn an_error_in_a_condition_ends_a_loop() {
    let outcome = run("var i = 0; while (i < limit) { print i; i = i + 1; } print 9;");
    assert!(outcome.printed.is_empty());
    assert_eq!(outcome.error, Some("[line 1] Error: Undefined variable 'limit'.".to_string()));
}

#[test]
fn errors_carry_the_line_of_their_token() {
    let outcome = run("print 1;\nprint 2;\nprint \"a\" * 2;\nprint 3;");
    assert_eq!(lines(&outcome), vec!["1", "2"]);
    assert_eq!(outcome.error, Some("[line 3] Error: Operands must be numbers.".to_string()));
}

#[test]
fn division_and_negation_follow_the_host() {
    assert_eq!(evaluate("1 / 0"), Ok("inf".to_string()));
    assert_eq!(evaluate("-1 / 0"), Ok("-inf".to_string()));
    assert_eq!(evaluate("0 / 0 == 0 / 0"), Ok("false".to_string()));
    assert_eq!(evaluate("--3"), Ok("3".to_string()));
    assert_eq!(evaluate("12345678901234567890"), Ok("12345678901234567000".to_string()));
}

#[test]
fn a_block_in_a_block_restores_each_scope() {
    let outcome = run("var a = 1; { var a = 2; { var a = 3; print a; } print a; } print a;");
    assert_eq!(lines(&outcome), vec!["3", "2", "1"]);
}

#[test]
fn a_comparison_gives_a_boolean_whatever_the_host_supplies() {
    for (source, supplied, expected) in [
        ("1 == 2", LiteralKind::Number("7".to_string()), "true"),
        ("1 != 2", LiteralKind::Number("7".to_string()), "false"),
        ("1 == 2", LiteralKind::Nil, "false"),
        ("1 != 2", LiteralKind::Nil, "true"),
        ("1 < 2", LiteralKind::String("yes".to_string()), "true"),
        ("1 >= 2", LiteralKind::Bool(false), "false"),
    ] {
        let mut parser = Parser::new(tokens(source));
        let expr = parser.parse_expression().unwrap();
        let mut interpreter = Interpreter::new();
        interpreter.interpret_expression(&expr);
        let mut shown = None;
        for _ in 0..100 {
            match interpreter.step() {
                Action::Compute(Request::Literal(numeral)) => {
                    assert!(interpreter.supply(LiteralKind::Number(numeral)));
                }
                Action::Compute(_) => {
                    assert!(interpreter.supply(supplied.clone()));
                }
                Action::Value(text) => shown = Some(text),
                Action::Finished => break,
                _ => {}
            }
        }
        assert_eq!(shown, Some(expected.to_string()));
    }
}

#[test]
fn arithmetic_gives_what_the_host_supplies() {
    let mut parser = Parser::new(tokens("1 + 2"));
    let expr = parser.parse_expression().unwrap();
    let mut interpreter = Interpreter::new();
    interpreter.interpret_expression(&expr);
    let mut shown = None;
    for _ in 0..100 {
        match interpreter.step() {
            Action::Compute(Request::Literal(numeral)) => {
                assert!(interpreter.supply(LiteralKind::Number(numeral)));
            }
            Action::Compute(_) => {
                assert!(interpreter.supply(LiteralKind::String("sum".to_string())));
            }
            Action::Value(text) => shown = Some(text),
            Action::Finished => break,
            _ => {}
        }
    }
    assert_eq!(shown, Some("sum".to_string()));
}

#[test]
fn names_of_a_block_are_gone_after_it_even_when_it_fails() {
    let mut parser = Parser::new(tokens("var a = 1; var b = 2; { var a = 3; var c = 4; b = 5; print -nil; }"));
    let statements = parser.parse().unwrap();
    let mut interpreter = Interpreter::new();
    interpreter.interpret(&statements);
    let outcome = drive(&mut interpreter, 1000);
    assert_eq!(outcome.error, Some("[line 1] Error: Operand must be a number.".to_string()));
    for (source, expected) in [("print a;", Ok("1")), ("print b;", Ok("5")), ("print c;", Err(()))] {
        let mut parser = Parser::new(tokens(source));
        let statements = parser.parse().unwrap();
        interpreter.interpret(&statements);
        let outcome = drive(&mut interpreter, 1000);
        match expected {
            Ok(line) => assert_eq!(lines(&outcome), vec![line]),
            Err(()) => assert_eq!(
                outcome.error,
                Some("[line 1] Error: Undefined variable 'c'.".to_string())
            ),
        }
    }
}
