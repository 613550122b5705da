//! The printer of expressions in prefix form.

use vstd::prelude::*;

use crate::expr::{
    Assignment, Binary, Call, Expr, ExprView, Get, Grouping, Literal, Logical, Setter, Super, This,
    Unary, Variable, Visitor,
};
use crate::text::texts;
use crate::token::literal_text;

verus! {

/// `operands`, each after a space.
pub open spec fn spaced(operands: Seq<Seq<char>>) -> Seq<char>
    decreases operands.len(),
{
    if operands.len() == 0 {
        Seq::empty()
    } else {
        spaced(operands.drop_last()).push(' ') + operands.last()
    }
}

/// `name` and `operands` in one pair of parentheses, separated by spaces.
pub open spec fn parenthesized(name: Seq<char>, operands: Seq<Seq<char>>) -> Seq<char> {
    (seq!['('] + name + spaced(operands)).push(')')
}

/// The prefix form of an expression, fully parenthesized.
///
/// A literal prints as it is displayed, the literal that is none as `nil`;
/// a grouping as `(group e)`; an operator as its lexeme before its operands.
/// The other expressions print in the same manner: a variable, `this` and
/// `super` as their lexemes, an assignment as `(= name value)`, a property
/// as `(. object name)` and `(= object name value)`, a call as
/// `(call callee arguments)`.
pub open spec fn printed(expr: ExprView) -> Seq<char>
    decreases expr,
{
    match expr {
        ExprView::Literal { value } => literal_text(value, "nil"@),
        ExprView::Grouping { expr } => parenthesized("group"@, seq![printed(*expr)]),
        ExprView::Unary { operator, right } => parenthesized(
            operator.lexeme,
            seq![printed(*right)],
        ),
        ExprView::Binary { left, operator, right } => parenthesized(
            operator.lexeme,
            seq![printed(*left), printed(*right)],
        ),
        ExprView::Logical { left, operator, right } => parenthesized(
            operator.lexeme,
            seq![printed(*left), printed(*right)],
        ),
        ExprView::Variable { name } => name.lexeme,
        ExprView::Assignment { name, value } => parenthesized(
            "="@,
            seq![name.lexeme, printed(*value)],
        ),
        ExprView::Call { callee, paren, arguments } => parenthesized(
            "call"@,
            seq![printed(*callee)] + printed_each(arguments),
        ),
        ExprView::Get { object, name } => parenthesized("."@, seq![printed(*object), name.lexeme]),
        ExprView::Setter { object, name, value } => parenthesized(
            "="@,
            seq![printed(*object), name.lexeme, printed(*value)],
        ),
        ExprView::This { keyword } => keyword.lexeme,
        ExprView::Super { keyword, method } => parenthesized(
            keyword.lexeme,
            seq![method.lexeme],
        ),
    }
}

/// The prefix forms of `arguments`, in order.
pub open spec fn printed_each(arguments: Seq<ExprView>) -> Seq<Seq<char>>
    decreases arguments,
{
    Seq::new(
        arguments.len(),
        |i: int|
            if 0 <= i < arguments.len() {
                printed(arguments[i])
            } else {
                Seq::empty()
            },
    )
}

/// Prints expressions in prefix form.
pub struct AstPrinter {}

impl AstPrinter {
    /// The prefix form of `expr`.
    pub fn print(&mut self, expr: Expr) -> (r: String)
        ensures
            r@ == printed(expr@),
    {
        expr.accept(self)
    }

    fn print_expr(&mut self, expr: &Expr) -> (r: String)
        ensures
            r@ == printed(expr@),
        decreases expr, 1nat,
    {
        match expr {
            Expr::Literal(e) => self.print_literal(e),
            Expr::Grouping(e) => self.print_grouping(e),
            Expr::Unary(e) => self.print_unary(e),
            Expr::Binary(e) => self.print_binary(e),
            Expr::Logical(e) => self.print_logical(e),
            Expr::Variable(e) => e.name.lexeme.clone(),
            Expr::Assignment(e) => self.print_assignment(e),
            Expr::Call(e) => self.print_call(e),
            Expr::Get(e) => self.print_get(e),
            Expr::Setter(e) => self.print_set(e),
            Expr::This(e) => e.keyword.lexeme.clone(),
            Expr::Super(e) => self.print_super(e),
        }
    }

    fn print_literal(&self, e: &Literal) -> (r: String)
        ensures
            r@ == printed(Expr::Literal(*e)@),
    {
        e.value.to_text("nil")
    }

    fn print_grouping(&mut self, e: &Grouping) -> (r: String)
        ensures
            r@ == printed(Expr::Grouping(*e)@),
        decreases e, 0nat,
    {
        let mut operands: Vec<String> = Vec::new();
        operands.push(self.print_expr(&e.expr));
        assert(texts(operands@) =~= seq![printed(e.expr@)]);
        self.parenthesize("group", &operands)
    }

    fn print_unary(&mut self, e: &Unary) -> (r: String)
        ensures
            r@ == printed(Expr::Unary(*e)@),
        decreases e, 0nat,
    {
        let mut operands: Vec<String> = Vec::new();
        operands.push(self.print_expr(&e.right));
        assert(texts(operands@) =~= seq![printed(e.right@)]);
        self.parenthesize(e.operator.lexeme.as_str(), &operands)
    }

    fn print_binary(&mut self, e: &Binary) -> (r: String)
        ensures
            r@ == printed(Expr::Binary(*e)@),
        decreases e, 0nat,
    {
        let mut operands: Vec<String> = Vec::new();
        operands.push(self.print_expr(&e.left));
        operands.push(self.print_expr(&e.right));
        assert(texts(operands@) =~= seq![printed(e.left@), printed(e.right@)]);
        self.parenthesize(e.operator.lexeme.as_str(), &operands)
    }

    fn print_logical(&mut self, e: &Logical) -> (r: String)
        ensures
            r@ == printed(Expr::Logical(*e)@),
        decreases e, 0nat,
    {
        let mut operands: Vec<String> = Vec::new();
        operands.push(self.print_expr(&e.left));
        operands.push(self.print_expr(&e.right));
        assert(texts(operands@) =~= seq![printed(e.left@), printed(e.right@)]);
        self.parenthesize(e.operator.lexeme.as_str(), &operands)
    }

    fn print_assignment(&mut self, e: &Assignment) -> (r: String)
        ensures
            r@ == printed(Expr::Assignment(*e)@),
        decreases e, 0nat,
    {
        let mut operands: Vec<String> = Vec::new();
        operands.push(e.name.lexeme.clone());
        operands.push(self.print_expr(&e.value));
        assert(texts(operands@) =~= seq![e.name@.lexeme, printed(e.value@)]);
        self.parenthesize("=", &operands)
    }

    fn print_call(&mut self, e: &Call) -> (r: String)
        ensures
            r@ == printed(Expr::Call(*e)@),
        decreases e, 0nat,
    {
        let mut operands: Vec<String> = Vec::new();
        operands.push(self.print_expr(&e.callee));
        self.print_each(&e.arguments, &mut operands);
        proof {
            let arguments = Expr::Call(*e)@->Call_arguments;
            assert(arguments.len() == e.arguments.len());
            assert forall|j: int| 0 <= j < arguments.len() implies arguments[j]
                == e.arguments[j]@ by {}
            let all = seq![printed(e.callee@)] + printed_each(arguments);
            assert(texts(operands@).len() == all.len());
            assert forall|k: int| 0 <= k < all.len() implies texts(operands@)[k] == all[k] by {
                if k >= 1 {
                    assert(operands@[1 + (k - 1)]@ == printed(e.arguments[k - 1]@));
                    assert(all[k] == printed_each(arguments)[k - 1]);
                }
            }
            assert(texts(operands@) =~= all);
        }
        self.parenthesize("call", &operands)
    }

    fn print_get(&mut self, e: &Get) -> (r: String)
        ensures
            r@ == printed(Expr::Get(*e)@),
        decreases e, 0nat,
    {
        let mut operands: Vec<String> = Vec::new();
        operands.push(self.print_expr(&e.object));
        operands.push(e.name.lexeme.clone());
        assert(texts(operands@) =~= seq![printed(e.object@), e.name@.lexeme]);
        self.parenthesize(".", &operands)
    }

    fn print_set(&mut self, e: &Setter) -> (r: String)
        ensures
            r@ == printed(Expr::Setter(*e)@),
        decreases e, 0nat,
    {
        let mut operands: Vec<String> = Vec::new();
        operands.push(self.print_expr(&e.object));
        operands.push(e.name.lexeme.clone());
        operands.push(self.print_expr(&e.value));
        assert(texts(operands@) =~= seq![printed(e.object@), e.name@.lexeme, printed(e.value@)]);
        self.parenthesize("=", &operands)
    }

    fn print_super(&mut self, e: &Super) -> (r: String)
        ensures
            r@ == printed(Expr::Super(*e)@),
    {
        let mut operands: Vec<String> = Vec::new();
        operands.push(e.method.lexeme.clone());
        assert(texts(operands@) =~= seq![e.method@.lexeme]);
        self.parenthesize(e.keyword.lexeme.as_str(), &operands)
    }

    /// Appends the prefix form of each of `arguments` to `out`.
    fn print_each(&mut self, arguments: &Vec<Expr>, out: &mut Vec<String>)
        ensures
            final(out)@.len() == old(out)@.len() + arguments.len(),
            forall|j: int| 0 <= j < old(out)@.len() ==> final(out)@[j] == old(out)@[j],
            forall|j: int|
                0 <= j < arguments.len() ==> (#[trigger] final(out)@[old(out)@.len() + j])@
                    == printed(arguments[j]@),
        decreases arguments, 2nat,
    {
        let mut i: usize = 0;
        while i < arguments.len()
            invariant
                i <= arguments.len(),
                out@.len() == old(out)@.len() + i,
                forall|j: int| 0 <= j < old(out)@.len() ==> out@[j] == old(out)@[j],
                forall|j: int|
                    0 <= j < i ==> (#[trigger] out@[old(out)@.len() + j])@ == printed(
                        arguments[j]@,
                    ),
            decreases arguments.len() - i,
        {
            let text = self.print_expr(&arguments[i]);
            out.push(text);
            i += 1;
        }
    }

    /// `name` and `operands` in one pair of parentheses, separated by spaces.
    fn parenthesize(&mut self, name: &str, operands: &Vec<String>) -> (r: String)
        ensures
            r@ == parenthesized(name@, texts(operands@)),
    {
        let mut out = String::new();
        out.push('(');
        out.append(name);
        let ghost head = out@;
        let mut i: usize = 0;
        assert(texts(operands@).take(0) =~= Seq::<Seq<char>>::empty());
        while i < operands.len()
            invariant
                i <= operands.len(),
                head == seq!['('] + name@,
                out@ == head + spaced(texts(operands@).take(i as int)),
            decreases operands.len() - i,
        {
            out.push(' ');
            out.append(operands[i].as_str());
            i += 1;
            proof {
                let done = texts(operands@).take(i as int);
                assert(done.drop_last() =~= texts(operands@).take(i - 1));
                assert(done.last() == operands@[i - 1]@);
                assert(out@ =~= head + spaced(done));
            }
        }
        assert(texts(operands@).take(i as int) =~= texts(operands@));
        out.push(')');
        out
    }
}

impl Visitor<String> for AstPrinter {
    /// A visit gives the prefix form of the expression.
    open spec fn visits(&self, expr: ExprView, after: &Self, result: String) -> bool {
        result@ == printed(expr)
    }

    fn visit_assignment(&mut self, expr: &Assignment) -> (r: String) {
        self.print_assignment(expr)
    }

    fn visit_binary(&mut self, expr: &Binary) -> (r: String) {
        self.print_binary(expr)
    }

    fn visit_grouping(&mut self, expr: &Grouping) -> (r: String) {
        self.print_grouping(expr)
    }

    fn visit_literal(&self, expr: &Literal) -> (r: String) {
        self.print_literal(expr)
    }

    fn visit_logical(&mut self, expr: &Logical) -> (r: String) {
        self.print_logical(expr)
    }

    fn visit_unary(&mut self, expr: &Unary) -> (r: String) {
        self.print_unary(expr)
    }

    fn visit_variable(&mut self, expr: &Variable) -> (r: String) {
        expr.name.lexeme.clone()
    }

    fn visit_call(&mut self, expr: &Call) -> (r: String) {
        self.print_call(expr)
    }

    fn visit_get(&mut self, expr: &Get) -> (r: String) {
        self.print_get(expr)
    }

    fn visit_set(&mut self, expr: &Setter) -> (r: String) {
        self.print_set(expr)
    }

    fn visit_this(&mut self, expr: &This) -> (r: String) {
        expr.keyword.lexeme.clone()
    }

    fn visit_super(&mut self, expr: &Super) -> (r: String) {
        self.print_super(expr)
    }
}

} // verus!
