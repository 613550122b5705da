use codecrafters_interpreter::ast_printer::AstPrinter;
use codecrafters_interpreter::expr::{
    Assignment, Binary, Call, Expr, Get, Grouping, Literal, Logical, Setter, Super, This, Unary,
    Variable, Visitor,
};
use codecrafters_interpreter::parser::Parser;
use codecrafters_interpreter::scanner::Scanner;
use codecrafters_interpreter::token::{LiteralKind, Token, TokenKind};

/// Counts the literals of an expression.
struct LiteralCounter {
    visited: usize,
}

impl Visitor<usize> for LiteralCounter {
    fn visit_assignment(&mut self, expr: &Assignment) -> usize {
        self.visited += 1;
        expr.value.accept(self)
    }

    fn visit_binary(&mut self, expr: &Binary) -> usize {
        self.visited += 1;
        expr.left.accept(self) + expr.right.accept(self)
    }

    fn visit_grouping(&mut self, expr: &Grouping) -> usize {
        self.visited += 1;
        expr.expr.accept(self)
    }

    fn visit_literal(&self, _expr: &Literal) -> usize {
        1
    }

    fn visit_logical(&mut self, expr: &Logical) -> usize {
        self.visited += 1;
        expr.left.accept(self) + expr.right.accept(self)
    }

    fn visit_unary(&mut self, expr: &Unary) -> usize {
        self.visited += 1;
        expr.right.accept(self)
    }

    fn visit_variable(&mut self, _expr: &Variable) -> usize {
        self.visited += 1;
        0
    }

    fn visit_call(&mut self, expr: &Call) -> usize {
        self.visited += 1;
        let mut count = expr.callee.accept(self);
        for argument in expr.arguments.iter() {
            count += argument.accept(self);
        }
        count
    }

    fn visit_get(&mut self, expr: &Get) -> usize {
        self.visited += 1;
        expr.object.accept(self)
    }

    fn visit_set(&mut self, expr: &Setter) -> usize {
        self.visited += 1;
        expr.object.accept(self) + expr.value.accept(self)
    }

    fn visit_this(&mut self, _expr: &This) -> usize {
        self.visited += 1;
        0
    }

    fn visit_super(&mut self, _expr: &Super) -> usize {
        self.visited += 1;
        0
    }
}

fn parse(source: &str) -> Expr {
    let mut scanner = Scanner::new(source.to_string());
    let mut parser = Parser::new(scanner.scan_tokens().clone());
    parser.parse_expression().unwrap()
}

fn name(text: &str) -> Token {
    Token::new(TokenKind::Identifier, text.to_string(), LiteralKind::Nil, 1)
}

#[test]
fn accept_calls_the_method_of_the_kind() {
    let mut counter = LiteralCounter { visited: 0 };
    assert_eq!(parse("x = (1 + 2) * -3 == nil or \"a\"").accept(&mut counter), 5);
    assert_eq!(counter.visited, 7);
}

#[test]
fn the_printer_is_a_visitor() {
    let mut printer = AstPrinter {};
    assert_eq!(parse("!(1 < 2)").accept(&mut printer), "(! (group (< 1.0 2.0)))");
    assert_eq!(printer.print(parse("-x")), "(- x)");
}

#[test]
fn reserved_expressions_print_in_the_same_manner() {
    let callee = Expr::Variable(Variable { name: name("f") });
    let call = Expr::Call(Call {
        callee: Box::new(callee),
        paren: Token::new(TokenKind::RightParenthesis, ")".to_string(), LiteralKind::Nil, 1),
        arguments: vec![parse("1"), parse("a and b")],
    });
    assert_eq!(AstPrinter {}.print(call.clone()), "(call f 1.0 (and a b))");
    let get = Expr::Get(Get { object: Box::new(parse("this")), name: name("field") });
    assert_eq!(AstPrinter {}.print(get), "(. this field)");
    let set = Expr::Setter(Setter {
        object: Box::new(parse("this")),
        name: name("field"),
        value: Box::new(call),
    });
    assert_eq!(AstPrinter {}.print(set), "(= this field (call f 1.0 (and a b)))");
    assert_eq!(AstPrinter {}.print(parse("super.go")), "(super go)");
}
