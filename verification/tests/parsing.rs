use codecrafters_interpreter::ast_printer::AstPrinter;
use codecrafters_interpreter::expr::Expr;
use codecrafters_interpreter::parser::Parser;
use codecrafters_interpreter::scanner::Scanner;
use codecrafters_interpreter::stmt::Stmt;
use codecrafters_interpreter::token::{LiteralKind, Token, TokenKind};
use codecrafters_interpreter::{error, report};

fn tokens(source: &str) -> Vec<Token> {
    let mut scanner = Scanner::new(source.to_string());
    scanner.scan_tokens().clone()
}

fn printed(source: &str) -> Result<String, Vec<String>> {
    let mut parser = Parser::new(tokens(source));
    match parser.parse_expression() {
        Ok(expr) => Ok(AstPrinter {}.print(expr)),
        Err(_) => Err(parser.diagnostics().clone()),
    }
}

fn program(source: &str) -> Result<Vec<Stmt>, Vec<String>> {
    let mut parser = Parser::new(tokens(source));
    match parser.parse() {
        Ok(statements) => {
            assert!(parser.diagnostics().is_empty());
            Ok(statements)
        }
        Err(_) => Err(parser.diagnostics().clone()),
    }
}

#[test]
fn grouping_and_operators_print_in_prefix_form() {
    assert_eq!(
        printed("(1 + 2) * -3"),
        Ok("(* (group (+ 1.0 2.0)) (- 3.0))".to_string())
    );
}

#[test]
fn literals_print_as_they_are_displayed() {
    assert_eq!(printed("nil"), Ok("nil".to_string()));
    assert_eq!(printed("true"), Ok("true".to_string()));
    assert_eq!(printed("false"), Ok("false".to_string()));
    assert_eq!(printed("\"hello\""), Ok("hello".to_string()));
    assert_eq!(printed("42"), Ok("42.0".to_string()));
    assert_eq!(printed("3.00"), Ok("3.0".to_string()));
}

#[test]
fn printing_a_printed_literal_again_changes_nothing() {
    for source in ["nil", "true", "false", "42", "0.50", "007.250"] {
        let once = printed(source).unwrap();
        let twice = printed(&once).unwrap();
        assert_eq!(once, twice);
    }
}

#[test]
fn operators_bind_by_precedence_from_the_left() {
    assert_eq!(printed("1 - 2 - 3"), Ok("(- (- 1.0 2.0) 3.0)".to_string()));
    assert_eq!(printed("1 + 2 * 3"), Ok("(+ 1.0 (* 2.0 3.0))".to_string()));
    assert_eq!(
        printed("1 < 2 == 3 >= 4"),
        Ok("(== (< 1.0 2.0) (>= 3.0 4.0))".to_string())
    );
    assert_eq!(printed("!!true"), Ok("(! (! true))".to_string()));
    assert_eq!(
        printed("a or b and c"),
        Ok("(or a (and b c))".to_string())
    );
    assert_eq!(printed("a = b = 1"), Ok("(= a (= b 1.0))".to_string()));
}

#[test]
fn parse_expression_leaves_what_follows_unread() {
    assert_eq!(printed("1 2"), Ok("1.0".to_string()));
}

#[test]
fn missing_expression_is_reported_at_the_token() {
    assert_eq!(
        printed(")"),
        Err(vec!["[line 1] Error at ')': Expect expression.".to_string()])
    );
}

#[test]
fn missing_expression_at_the_end_is_reported_at_end() {
    assert_eq!(
        printed("1 +"),
        Err(vec!["[line 1] Error at end Expect expression.".to_string()])
    );
}

#[test]
fn missing_parenthesis_is_reported_after_the_last_token_read() {
    assert_eq!(
        printed("(1 + 2 3"),
        Err(vec!["[line 1] Error at '2': Expect ')' after expression.".to_string()])
    );
}

#[test]
fn missing_parenthesis_at_the_end_is_reported_at_end() {
    assert_eq!(
        printed("(1 + 2"),
        Err(vec!["[line 1] Error at end Expect ')' after expression.".to_string()])
    );
}

#[test]
fn a_token_missing_at_the_end_is_reported_on_the_line_of_the_end() {
    assert_eq!(
        program("print 1\n\n").err(),
        Some(vec!["[line 3] Error at end Expect ';' after value.".to_string()])
    );
    assert_eq!(
        program("{\nprint 1;\n").err(),
        Some(vec!["[line 3] Error at end Expect '}' after block.".to_string()])
    );
    assert_eq!(
        printed("super."),
        Err(vec!["[line 1] Error at end Expect superclass method name.".to_string()])
    );
    assert_eq!(
        program("var").err(),
        Some(vec!["[line 1] Error at end Expect variable name.".to_string()])
    );
    assert_eq!(
        program("for (;;").err(),
        Some(vec!["[line 1] Error at end Expect expression.".to_string()])
    );
    assert_eq!(
        program("if (1").err(),
        Some(vec!["[line 1] Error at end Expect ')' after if condition.".to_string()])
    );
    assert_eq!(
        program("while").err(),
        Some(vec!["[line 1] Error at end Expect '(' after 'while'.".to_string()])
    );
}

#[test]
fn invalid_assignment_target_is_reported_at_the_equals_sign() {
    assert_eq!(
        printed("1 = 2"),
        Err(vec!["[line 1] Error at '=': Invalid assignment target.".to_string()])
    );
}

#[test]
fn a_failed_left_operand_still_consumes_one_operator_and_operand() {
    // The term level fails on `+`, which is skipped; the factor level then
    // reads `* )` and reports the missing operand as well.
    assert_eq!(
        printed("+ * )"),
        Err(vec![
            "[line 1] Error at '+': Expect expression.".to_string(),
            "[line 1] Error at ')': Expect expression.".to_string(),
        ])
    );
}

#[test]
fn super_needs_a_dot_and_a_method_name() {
    assert_eq!(printed("super.init"), Ok("(super init)".to_string()));
    assert_eq!(
        printed("super init"),
        Err(vec!["[line 1] Error at 'super': Expect '.' after 'super'.".to_string()])
    );
    assert_eq!(
        printed("super.1"),
        Err(vec!["[line 1] Error at '.': Expect superclass method name.".to_string()])
    );
}

#[test]
fn program_statements_are_parsed_in_order() {
    let statements = program("var a = 1; print a; { a = 2; } if (a) print 1; else print 2;").unwrap();
    assert_eq!(statements.len(), 4);
    assert!(matches!(&statements[0], Stmt::Var(v) if v.name.lexeme == "a"));
    assert!(matches!(&statements[1], Stmt::Print(_)));
    assert!(matches!(&statements[2], Stmt::Block(b) if b.statements.len() == 1));
    assert!(matches!(&statements[3], Stmt::If(i) if i.else_branch.is_some()));
}

#[test]
fn var_without_initializer_gets_the_literal_that_is_none() {
    let statements = program("var a;").unwrap();
    match &statements[0] {
        Stmt::Var(v) => match &*v.initializer {
            Expr::Literal(l) => assert_eq!(l.value, LiteralKind::Nil),
            other => panic!("unexpected initializer {:?}", other),
        },
        other => panic!("unexpected statement {:?}", other),
    }
}

#[test]
fn for_becomes_a_block_with_a_while_loop() {
    let statements = program("for (var i = 0; i < 3; i = i + 1) print i;").unwrap();
    assert_eq!(statements.len(), 1);
    let outer = match &statements[0] {
        Stmt::Block(b) => b,
        other => panic!("unexpected statement {:?}", other),
    };
    assert_eq!(outer.statements.len(), 2);
    assert!(matches!(&outer.statements[0], Stmt::Var(_)));
    let repeated = match &outer.statements[1] {
        Stmt::While(w) => w,
        other => panic!("unexpected statement {:?}", other),
    };
    assert_eq!(AstPrinter {}.print((*repeated.condition).clone()), "(< i 3.0)");
    let body = match &*repeated.body {
        Stmt::Block(b) => b,
        other => panic!("unexpected statement {:?}", other),
    };
    assert_eq!(body.statements.len(), 2);
    assert!(matches!(&body.statements[0], Stmt::Print(_)));
    assert!(matches!(&body.statements[1], Stmt::Expression(_)));
}

#[test]
fn for_without_clauses_loops_on_true() {
    let statements = program("for (;;) print 1;").unwrap();
    match &statements[0] {
        Stmt::While(w) => {
            assert_eq!(AstPrinter {}.print((*w.condition).clone()), "true");
            assert!(matches!(&*w.body, Stmt::Print(_)));
        }
        other => panic!("unexpected statement {:?}", other),
    }
}

#[test]
fn parsing_goes_on_after_an_error() {
    // After the first error the tokens up to the next semicolon are
    // skipped, `var = 1;` among them.
    assert_eq!(
        program("print ; var = 1; print 2").err(),
        Some(vec![
            "[line 1] Error at ';': Expect expression.".to_string(),
            "[line 1] Error at end Expect ';' after value.".to_string(),
        ])
    );
    // Parsing resumes where a statement may begin.
    assert_eq!(
        program("var 1 print; print 2").err(),
        Some(vec![
            "[line 1] Error at 'var': Expect variable name.".to_string(),
            "[line 1] Error at ';': Expect expression.".to_string(),
        ])
    );
    assert_eq!(
        program("var 1 var b").err(),
        Some(vec![
            "[line 1] Error at 'var': Expect variable name.".to_string(),
            "[line 1] Error at end Expect ';' after variable declaration.".to_string(),
        ])
    );
}

#[test]
fn statement_errors_name_what_is_missing() {
    assert_eq!(
        program("print 1 2;").err(),
        Some(vec!["[line 1] Error at '1': Expect ';' after value.".to_string()])
    );
    assert_eq!(
        program("{ print 1; ) }").err().map(|lines| lines[0].clone()),
        Some("[line 1] Error at ')': Expect expression.".to_string())
    );
    assert_eq!(
        program("print 1").err(),
        Some(vec!["[line 1] Error at end Expect ';' after value.".to_string()])
    );
    assert_eq!(
        program("1").err(),
        Some(vec!["[line 1] Error at end Expect ';' after expression.".to_string()])
    );
    assert_eq!(
        program("var a = 1").err(),
        Some(vec!["[line 1] Error at end Expect ';' after variable declaration.".to_string()])
    );
    assert_eq!(
        program("if 1").err(),
        Some(vec!["[line 1] Error at 'if': Expect '(' after 'if'.".to_string()])
    );
    assert_eq!(
        program("if (1 print 2;").err(),
        Some(vec!["[line 1] Error at '1': Expect ')' after if condition.".to_string()])
    );
    assert_eq!(
        program("while 1").err(),
        Some(vec!["[line 1] Error at 'while': Expect '(' after 'while'.".to_string()])
    );
    assert_eq!(
        program("while (1 print 2;").err(),
        Some(vec!["[line 1] Error at '1': Expect ')' after condition.".to_string()])
    );
    assert_eq!(
        program("for 1").err(),
        Some(vec!["[line 1] Error at 'for': Expect '(' after 'for'.".to_string()])
    );
    assert_eq!(
        program("for (;1 2) print 1;").err(),
        Some(vec!["[line 1] Error at '1': Expect ';' after loop condition.".to_string()])
    );
    assert_eq!(
        program("for (;;1 print 1;").err(),
        Some(vec!["[line 1] Error at '1': Expect ')' after for clauses.".to_string()])
    );
    assert_eq!(
        program("{ print 1;").err(),
        Some(vec!["[line 1] Error at end Expect '}' after block.".to_string()])
    );
}

#[test]
fn diagnostics_carry_the_line() {
    assert_eq!(
        program("print 1;\nprint ;").err(),
        Some(vec!["[line 2] Error at ';': Expect expression.".to_string()])
    );
}

#[test]
fn report_and_error_format_their_lines() {
    assert_eq!(report(12, "Unterminated string."), "[line 12] Error: Unterminated string.");
    assert_eq!(report(0, "x"), "[line 0] Error: x");
    let end = Token::new(TokenKind::EOF, String::new(), LiteralKind::Nil, 3);
    assert_eq!(error(end, "Expect expression."), "[line 3] Error at end Expect expression.");
    let plus = Token::new(TokenKind::Plus, "+".to_string(), LiteralKind::Nil, 105);
    assert_eq!(error(plus, "Expect expression."), "[line 105] Error at '+': Expect expression.");
}

#[test]
fn a_parser_accepts_only_tokens_that_end_with_the_end_token() {
    assert!(Parser::accepts(&tokens("1")));
    assert!(!Parser::accepts(&Vec::new()));
    let plus = Token::new(TokenKind::Plus, "+".to_string(), LiteralKind::Nil, 1);
    assert!(!Parser::accepts(&vec![plus]));
}

#[test]
fn an_else_goes_with_the_nearest_if() {
    let statements = program("if (true) if (false) print 1; else print 2;").unwrap();
    assert_eq!(statements.len(), 1);
    let outer = match &statements[0] {
        Stmt::If(outer) => outer,
        other => panic!("unexpected statement {:?}", other),
    };
    assert_eq!(AstPrinter {}.print((*outer.condition).clone()), "true");
    assert!(outer.else_branch.is_none());
    let inner = match &*outer.then_branch {
        Stmt::If(inner) => inner,
        other => panic!("unexpected statement {:?}", other),
    };
    assert_eq!(AstPrinter {}.print((*inner.condition).clone()), "false");
    match &*inner.then_branch {
        Stmt::Print(p) => assert_eq!(AstPrinter {}.print((*p.expression).clone()), "1.0"),
        other => panic!("unexpected statement {:?}", other),
    }
    match inner.else_branch.as_deref() {
        Some(Stmt::Print(p)) => assert_eq!(AstPrinter {}.print((*p.expression).clone()), "2.0"),
        other => panic!("unexpected branch {:?}", other),
    }
}

#[test]
fn an_end_token_alone_is_no_expression() {
    assert_eq!(
        printed(""),
        Err(vec!["[line 1] Error at end Expect expression.".to_string()])
    );
    assert_eq!(program("").map(|statements| statements.len()), Ok(0));
}
