//! Expressions.

use vstd::prelude::*;

use crate::token::{LiteralKind, LiteralValue, Token, TokenView};

verus! {

/// An expression of the language.
#[derive(Debug)]
pub enum Expr {
    Assignment(Assignment),
    Binary(Binary),
    Grouping(Grouping),
    Literal(Literal),
    Logical(Logical),
    Unary(Unary),
    Variable(Variable),
    Call(Call),
    Get(Get),
    Setter(Setter),
    This(This),
    Super(Super),
}

/// An assignment of a value to a variable.
#[derive(Debug)]
pub struct Assignment {
    pub name: Token,
    pub value: Box<Expr>,
}

/// An arithmetic, comparison or equality operator with its two operands.
#[derive(Debug)]
pub struct Binary {
    pub left: Box<Expr>,
    pub operator: Token,
    pub right: Box<Expr>,
}

/// An expression in parentheses.
#[derive(Debug)]
pub struct Grouping {
    pub expr: Box<Expr>,
}

/// A literal value.
#[derive(Debug)]
pub struct Literal {
    pub value: LiteralKind,
}

/// `and` or `or` with its two operands.
#[derive(Debug)]
pub struct Logical {
    pub left: Box<Expr>,
    pub operator: Token,
    pub right: Box<Expr>,
}

/// A prefix operator with its operand.
#[derive(Debug)]
pub struct Unary {
    pub operator: Token,
    pub right: Box<Expr>,
}

/// A reference to a variable.
#[derive(Debug)]
pub struct Variable {
    pub name: Token,
}

/// A call. Reserved: the language has no functions yet.
#[derive(Debug)]
pub struct Call {
    pub callee: Box<Expr>,
    pub paren: Token,
    pub arguments: Vec<Expr>,
}

/// A property read. Reserved: the language has no classes yet.
#[derive(Debug)]
pub struct Get {
    pub object: Box<Expr>,
    pub name: Token,
}

/// A property write. Reserved: the language has no classes yet.
#[derive(Debug)]
pub struct Setter {
    pub object: Box<Expr>,
    pub name: Token,
    pub value: Box<Expr>,
}

/// `this`. Reserved: the language has no classes yet.
#[derive(Debug)]
pub struct This {
    pub keyword: Token,
}

/// `super` with a method name. Reserved: the language has no classes yet.
#[derive(Debug)]
pub struct Super {
    pub keyword: Token,
    pub method: Token,
}

/// The mathematical value of an [`Expr`].
#[allow(inconsistent_fields)]
pub ghost enum ExprView {
    Assignment { name: TokenView, value: Box<ExprView> },
    Binary { left: Box<ExprView>, operator: TokenView, right: Box<ExprView> },
    Grouping { expr: Box<ExprView> },
    Literal { value: LiteralValue },
    Logical { left: Box<ExprView>, operator: TokenView, right: Box<ExprView> },
    Unary { operator: TokenView, right: Box<ExprView> },
    Variable { name: TokenView },
    Call { callee: Box<ExprView>, paren: TokenView, arguments: Seq<ExprView> },
    Get { object: Box<ExprView>, name: TokenView },
    Setter { object: Box<ExprView>, name: TokenView, value: Box<ExprView> },
    This { keyword: TokenView },
    Super { keyword: TokenView, method: TokenView },
}

/// The mathematical value of an expression.
pub open spec fn expr_view(expr: Expr) -> ExprView
    decreases expr,
{
    match expr {
        Expr::Assignment(e) => ExprView::Assignment {
            name: e.name@,
            value: Box::new(expr_view(*e.value)),
        },
        Expr::Binary(e) => ExprView::Binary {
            left: Box::new(expr_view(*e.left)),
            operator: e.operator@,
            right: Box::new(expr_view(*e.right)),
        },
        Expr::Grouping(e) => ExprView::Grouping { expr: Box::new(expr_view(*e.expr)) },
        Expr::Literal(e) => ExprView::Literal { value: e.value@ },
        Expr::Logical(e) => ExprView::Logical {
            left: Box::new(expr_view(*e.left)),
            operator: e.operator@,
            right: Box::new(expr_view(*e.right)),
        },
        Expr::Unary(e) => ExprView::Unary {
            operator: e.operator@,
            right: Box::new(expr_view(*e.right)),
        },
        Expr::Variable(e) => ExprView::Variable { name: e.name@ },
        Expr::Call(e) => ExprView::Call {
            callee: Box::new(expr_view(*e.callee)),
            paren: e.paren@,
            arguments: Seq::new(
                e.arguments.len() as nat,
                |i: int|
                    if 0 <= i < e.arguments.len() {
                        expr_view(e.arguments[i])
                    } else {
                        ExprView::Literal { value: LiteralValue::Nil }
                    },
            ),
        },
        Expr::Get(e) => ExprView::Get { object: Box::new(expr_view(*e.object)), name: e.name@ },
        Expr::Setter(e) => ExprView::Setter {
            object: Box::new(expr_view(*e.object)),
            name: e.name@,
            value: Box::new(expr_view(*e.value)),
        },
        Expr::This(e) => ExprView::This { keyword: e.keyword@ },
        Expr::Super(e) => ExprView::Super { keyword: e.keyword@, method: e.method@ },
    }
}

impl View for Expr {
    type V = ExprView;

    open spec fn view(&self) -> ExprView {
        expr_view(*self)
    }
}

/// Copies of `arguments`, in order.
fn copy_arguments(arguments: &Vec<Expr>) -> (r: Vec<Expr>)
    ensures
        r.len() == arguments.len(),
        forall|j: int| 0 <= j < r.len() ==> (#[trigger] r[j])@ == arguments[j]@,
    decreases arguments,
{
    let mut out: Vec<Expr> = Vec::new();
    let mut i: usize = 0;
    while i < arguments.len()
        invariant
            i <= arguments.len(),
            out.len() == i,
            forall|j: int| 0 <= j < i ==> (#[trigger] out[j])@ == arguments[j]@,
        decreases arguments.len() - i,
    {
        out.push(copy_expr(&arguments[i]));
        i += 1;
    }
    out
}

/// A copy of `expr`.
pub fn copy_expr(expr: &Expr) -> (r: Expr)
    ensures
        r@ == expr@,
    decreases expr,
{
    match expr {
        Expr::Assignment(e) => Expr::Assignment(
            Assignment { name: e.name.clone(), value: Box::new(copy_expr(&e.value)) },
        ),
        Expr::Binary(e) => Expr::Binary(
            Binary {
                left: Box::new(copy_expr(&e.left)),
                operator: e.operator.clone(),
                right: Box::new(copy_expr(&e.right)),
            },
        ),
        Expr::Grouping(e) => Expr::Grouping(Grouping { expr: Box::new(copy_expr(&e.expr)) }),
        Expr::Literal(e) => Expr::Literal(Literal { value: e.value.clone() }),
        Expr::Logical(e) => Expr::Logical(
            Logical {
                left: Box::new(copy_expr(&e.left)),
                operator: e.operator.clone(),
                right: Box::new(copy_expr(&e.right)),
            },
        ),
        Expr::Unary(e) => Expr::Unary(
            Unary { operator: e.operator.clone(), right: Box::new(copy_expr(&e.right)) },
        ),
        Expr::Variable(e) => Expr::Variable(Variable { name: e.name.clone() }),
        Expr::Call(e) => {
            let r = Expr::Call(
                Call {
                    callee: Box::new(copy_expr(&e.callee)),
                    paren: e.paren.clone(),
                    arguments: copy_arguments(&e.arguments),
                },
            );
            assert(r@->Call_arguments =~= expr@->Call_arguments);
            r
        },
        Expr::Get(e) => Expr::Get(
            Get { object: Box::new(copy_expr(&e.object)), name: e.name.clone() },
        ),
        Expr::Setter(e) => Expr::Setter(
            Setter {
                object: Box::new(copy_expr(&e.object)),
                name: e.name.clone(),
                value: Box::new(copy_expr(&e.value)),
            },
        ),
        Expr::This(e) => Expr::This(This { keyword: e.keyword.clone() }),
        Expr::Super(e) => Expr::Super(
            Super { keyword: e.keyword.clone(), method: e.method.clone() },
        ),
    }
}

impl Clone for Expr {
    fn clone(&self) -> (r: Self)
        ensures
            r@ == self@,
    {
        copy_expr(self)
    }
}

/// A visitor of expressions: one method for each kind of expression.
pub trait Visitor<T>: Sized {
    /// Whether a visit of `expr` may turn this visitor into `after` and
    /// give `result`. A visitor that does not say otherwise may do anything.
    open spec fn visits(&self, expr: ExprView, after: &Self, result: T) -> bool {
        true
    }

    fn visit_assignment(&mut self, expr: &Assignment) -> (r: T)
        ensures
            old(self).visits(Expr::Assignment(*expr)@, final(self), r),
    ;

    fn visit_binary(&mut self, expr: &Binary) -> (r: T)
        ensures
            old(self).visits(Expr::Binary(*expr)@, final(self), r),
    ;

    fn visit_grouping(&mut self, expr: &Grouping) -> (r: T)
        ensures
            old(self).visits(Expr::Grouping(*expr)@, final(self), r),
    ;

    fn visit_literal(&self, expr: &Literal) -> (r: T)
        ensures
            self.visits(Expr::Literal(*expr)@, self, r),
    ;

    fn visit_logical(&mut self, expr: &Logical) -> (r: T)
        ensures
            old(self).visits(Expr::Logical(*expr)@, final(self), r),
    ;

    fn visit_unary(&mut self, expr: &Unary) -> (r: T)
        ensures
            old(self).visits(Expr::Unary(*expr)@, final(self), r),
    ;

    fn visit_variable(&mut self, expr: &Variable) -> (r: T)
        ensures
            old(self).visits(Expr::Variable(*expr)@, final(self), r),
    ;

    fn visit_call(&mut self, expr: &Call) -> (r: T)
        ensures
            old(self).visits(Expr::Call(*expr)@, final(self), r),
    ;

    fn visit_get(&mut self, expr: &Get) -> (r: T)
        ensures
            old(self).visits(Expr::Get(*expr)@, final(self), r),
    ;

    fn visit_set(&mut self, expr: &Setter) -> (r: T)
        ensures
            old(self).visits(Expr::Setter(*expr)@, final(self), r),
    ;

    fn visit_this(&mut self, expr: &This) -> (r: T)
        ensures
            old(self).visits(Expr::This(*expr)@, final(self), r),
    ;

    fn visit_super(&mut self, expr: &Super) -> (r: T)
        ensures
            old(self).visits(Expr::Super(*expr)@, final(self), r),
    ;
}

impl Expr {
    /// Has `visitor` visit this expression, by its method for the kind of
    /// the expression.
    pub fn accept<T, V: Visitor<T>>(&self, visitor: &mut V) -> (r: T)
        ensures
            old(visitor).visits(self@, final(visitor), r),
    {
        match self {
            Expr::Assignment(assignment) => visitor.visit_assignment(assignment),
            Expr::Binary(binary) => visitor.visit_binary(binary),
            Expr::Grouping(grouping) => visitor.visit_grouping(grouping),
            Expr::Literal(literal) => visitor.visit_literal(literal),
            Expr::Logical(logical) => visitor.visit_logical(logical),
            Expr::Unary(unary) => visitor.visit_unary(unary),
            Expr::Variable(variable) => visitor.visit_variable(variable),
            Expr::Call(call) => visitor.visit_call(call),
            Expr::Get(get) => visitor.visit_get(get),
            Expr::Setter(set) => visitor.visit_set(set),
            Expr::This(this) => visitor.visit_this(this),
            Expr::Super(s) => visitor.visit_super(s),
        }
    }
}

} // verus!
