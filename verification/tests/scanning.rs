use codecrafters_interpreter::scanner::Scanner;
use codecrafters_interpreter::token::{LiteralKind, TokenKind};

fn lines(source: &str) -> Vec<String> {
    let mut scanner = Scanner::new(source.to_string());
    scanner.scan_tokens().iter().map(|token| token.to_string()).collect()
}

#[test]
fn punctuation_is_displayed_with_null_literals() {
    assert_eq!(
        lines("(,)"),
        vec!["LEFT_PAREN ( null", "COMMA , null", "RIGHT_PAREN ) null", "EOF  null"]
    );
}

#[test]
fn unterminated_string_gives_only_the_end_token() {
    let mut scanner = Scanner::new("\"ab\n".to_string());
    let tokens: Vec<String> = scanner.scan_tokens().iter().map(|t| t.to_string()).collect();
    assert_eq!(tokens, vec!["EOF  null"]);
    assert!(scanner.errors());
    assert!(scanner.has_errors());
    assert_eq!(scanner.diagnostics(), &vec!["[line 2] Error: Unterminated string.".to_string()]);
}

#[test]
fn number_literals_always_show_a_decimal_point() {
    assert_eq!(
        lines("42 3.00 1.50 007 12.5"),
        vec![
            "NUMBER 42 42.0",
            "NUMBER 3.00 3.0",
            "NUMBER 1.50 1.5",
            "NUMBER 007 7.0",
            "NUMBER 12.5 12.5",
            "EOF  null"
        ]
    );
}

#[test]
fn a_trailing_dot_is_not_part_of_a_number() {
    assert_eq!(lines("1."), vec!["NUMBER 1 1.0", "DOT . null", "EOF  null"]);
}

#[test]
fn keywords_and_identifiers() {
    let mut scanner = Scanner::new("var _x1 = nil; // note\nwhile".to_string());
    let tokens = scanner.scan_tokens();
    let kinds: Vec<TokenKind> = tokens.iter().map(|t| t.kind).collect();
    assert_eq!(
        kinds,
        vec![
            TokenKind::Var,
            TokenKind::Identifier,
            TokenKind::Equal,
            TokenKind::Nil,
            TokenKind::Semicolon,
            TokenKind::While,
            TokenKind::EOF
        ]
    );
    assert_eq!(tokens[1].lexeme, "_x1");
    assert_eq!(tokens[1].literal, LiteralKind::Nil);
    assert_eq!(tokens[5].line, 2);
    assert_eq!(tokens[6].line, 2);
}

#[test]
fn the_end_token_comes_last_and_only_once() {
    for source in ["", " ", "a", "\"open", "1.5 // done", "@#", "var eof = 1;\n\n"] {
        let mut scanner = Scanner::new(source.to_string());
        let tokens = scanner.scan_tokens();
        let ends = tokens.iter().filter(|t| t.kind == TokenKind::EOF).count();
        assert_eq!(ends, 1);
        assert_eq!(tokens.last().unwrap().kind, TokenKind::EOF);
        assert_eq!(tokens.last().unwrap().lexeme, "");
    }
}

#[test]
fn operators_of_one_and_two_characters() {
    assert_eq!(
        lines("! != = == < <= > >= / - + * ; . { }"),
        vec![
            "BANG ! null",
            "BANG_EQUAL != null",
            "EQUAL = null",
            "EQUAL_EQUAL == null",
            "LESS < null",
            "LESS_EQUAL <= null",
            "GREATER > null",
            "GREATER_EQUAL >= null",
            "SLASH / null",
            "MINUS - null",
            "PLUS + null",
            "STAR * null",
            "SEMICOLON ; null",
            "DOT . null",
            "LEFT_BRACE { null",
            "RIGHT_BRACE } null",
            "EOF  null"
        ]
    );
}

#[test]
fn every_keyword_has_its_kind() {
    assert_eq!(
        lines("and class else false for fun if nil or print return super this true var while"),
        vec![
            "AND and null",
            "CLASS class null",
            "ELSE else null",
            "FALSE false null",
            "FOR for null",
            "FUN fun null",
            "IF if null",
            "NIL nil null",
            "OR or null",
            "PRINT print null",
            "RETURN return null",
            "SUPER super null",
            "THIS this null",
            "TRUE true null",
            "VAR var null",
            "WHILE while null",
            "EOF  null"
        ]
    );
    assert_eq!(lines("android"), vec!["IDENTIFIER android null", "EOF  null"]);
}

#[test]
fn a_string_keeps_its_contents_and_counts_its_lines() {
    let mut scanner = Scanner::new("\"a\nb\" x".to_string());
    let tokens = scanner.scan_tokens();
    assert_eq!(tokens[0].kind, TokenKind::String);
    assert_eq!(tokens[0].lexeme, "\"a\nb\"");
    assert_eq!(tokens[0].literal, LiteralKind::String("a\nb".to_string()));
    assert_eq!(tokens[0].line, 2);
    assert_eq!(tokens[1].line, 2);
    assert_eq!(tokens[0].to_string(), "STRING \"a\nb\" a\nb");
}

#[test]
fn unexpected_characters_are_reported_and_skipped() {
    let mut scanner = Scanner::new("a @\n# b".to_string());
    let kinds: Vec<TokenKind> = scanner.scan_tokens().iter().map(|t| t.kind).collect();
    assert_eq!(kinds, vec![TokenKind::Identifier, TokenKind::Identifier, TokenKind::EOF]);
    assert!(scanner.errors());
    assert_eq!(
        scanner.diagnostics(),
        &vec![
            "[line 1] Error: Unexpected character: @".to_string(),
            "[line 2] Error: Unexpected character: #".to_string()
        ]
    );
}

#[test]
fn a_clean_source_has_no_errors() {
    let mut scanner = Scanner::new("print 1; // fine".to_string());
    scanner.scan_tokens();
    assert!(!scanner.errors());
    assert!(!scanner.has_errors());
    assert!(scanner.diagnostics().is_empty());
}

#[test]
fn a_comment_runs_to_the_end_of_its_line() {
    assert_eq!(lines("1 // 2\n3"), vec!["NUMBER 1 1.0", "NUMBER 3 3.0", "EOF  null"]);
    assert_eq!(lines("//"), vec!["EOF  null"]);
}
