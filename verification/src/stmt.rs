//! Statements.

use vstd::prelude::*;

use crate::expr::{copy_expr, Expr, ExprView};
use crate::token::{Token, TokenView};

verus! {

/// A statement of the language.
#[derive(Debug)]
pub enum Stmt {
    Expression(Expression),
    Print(Print),
    Var(Var),
    Block(Block),
    If(If),
    While(While),
    Function(Function),
    Return(Return),
    Class(Class),
}

/// An expression evaluated for its effects.
#[derive(Debug)]
pub struct Expression {
    pub expression: Box<Expr>,
}

/// `print` with the expression whose value it writes.
#[derive(Debug)]
pub struct Print {
    pub expression: Box<Expr>,
}

/// A variable declaration. Without an initializer in the source, the
/// initializer is the literal that is none.
#[derive(Debug)]
pub struct Var {
    pub name: Token,
    pub initializer: Box<Expr>,
}

/// A block, which opens a scope of its own.
#[derive(Debug)]
pub struct Block {
    pub statements: Vec<Stmt>,
}

/// A conditional.
#[derive(Debug)]
pub struct If {
    pub condition: Box<Expr>,
    pub then_branch: Box<Stmt>,
    pub else_branch: Option<Box<Stmt>>,
}

/// A loop.
#[derive(Debug)]
pub struct While {
    pub condition: Box<Expr>,
    pub body: Box<Stmt>,
}

/// A function declaration. Reserved: the language has no functions yet.
#[derive(Debug)]
pub struct Function {
    pub name: Token,
}

/// A `return`. Reserved: the language has no functions yet.
#[derive(Debug)]
pub struct Return {
    pub keyword: Token,
}

/// A class declaration. Reserved: the language has no classes yet.
#[derive(Debug)]
pub struct Class {
    pub name: Token,
}

/// The mathematical value of a [`Stmt`].
#[allow(inconsistent_fields)]
pub ghost enum StmtView {
    Expression { expression: ExprView },
    Print { expression: ExprView },
    Var { name: TokenView, initializer: ExprView },
    Block { statements: Seq<StmtView> },
    If { condition: ExprView, then_branch: Box<StmtView>, else_branch: Option<Box<StmtView>> },
    While { condition: ExprView, body: Box<StmtView> },
    Function { name: TokenView },
    Return { keyword: TokenView },
    Class { name: TokenView },
}

/// The mathematical value of a statement.
pub open spec fn stmt_view(stmt: Stmt) -> StmtView
    decreases stmt,
{
    match stmt {
        Stmt::Expression(s) => StmtView::Expression { expression: s.expression@ },
        Stmt::Print(s) => StmtView::Print { expression: s.expression@ },
        Stmt::Var(s) => StmtView::Var { name: s.name@, initializer: s.initializer@ },
        Stmt::Block(s) => StmtView::Block {
            statements: Seq::new(
                s.statements.len() as nat,
                |i: int|
                    if 0 <= i < s.statements.len() {
                        stmt_view(s.statements[i])
                    } else {
                        StmtView::Block { statements: Seq::empty() }
                    },
            ),
        },
        Stmt::If(s) => StmtView::If {
            condition: s.condition@,
            then_branch: Box::new(stmt_view(*s.then_branch)),
            else_branch: match s.else_branch {
                Some(branch) => Some(Box::new(stmt_view(*branch))),
                None => None,
            },
        },
        Stmt::While(s) => StmtView::While {
            condition: s.condition@,
            body: Box::new(stmt_view(*s.body)),
        },
        Stmt::Function(s) => StmtView::Function { name: s.name@ },
        Stmt::Return(s) => StmtView::Return { keyword: s.keyword@ },
        Stmt::Class(s) => StmtView::Class { name: s.name@ },
    }
}

impl View for Stmt {
    type V = StmtView;

    open spec fn view(&self) -> StmtView {
        stmt_view(*self)
    }
}

/// The views of a sequence of statements, in order.
pub open spec fn stmt_views(statements: Seq<Stmt>) -> Seq<StmtView> {
    statements.map_values(|s: Stmt| s@)
}

/// The view of a block is made of the views of its statements.
pub proof fn block_view(block: Block)
    ensures
        Stmt::Block(block)@ == (StmtView::Block { statements: stmt_views(block.statements@) }),
{
    assert(Stmt::Block(block)@->Block_statements =~= stmt_views(block.statements@));
}

/// A copy of `statements`.
pub fn copy_statements(statements: &Vec<Stmt>) -> (r: Vec<Stmt>)
    ensures
        stmt_views(r@) == stmt_views(statements@),
    decreases statements,
{
    let mut out: Vec<Stmt> = Vec::new();
    let mut i: usize = 0;
    while i < statements.len()
        invariant
            i <= statements.len(),
            out.len() == i,
            forall|j: int| 0 <= j < i ==> (#[trigger] out[j])@ == statements[j]@,
        decreases statements.len() - i,
    {
        out.push(copy_stmt(&statements[i]));
        i += 1;
    }
    assert(stmt_views(out@) =~= stmt_views(statements@));
    out
}

/// A copy of `stmt`.
pub fn copy_stmt(stmt: &Stmt) -> (r: Stmt)
    ensures
        r@ == stmt@,
    decreases stmt,
{
    match stmt {
        Stmt::Expression(s) => Stmt::Expression(
            Expression { expression: Box::new(copy_expr(&s.expression)) },
        ),
        Stmt::Print(s) => Stmt::Print(Print { expression: Box::new(copy_expr(&s.expression)) }),
        Stmt::Var(s) => Stmt::Var(
            Var { name: s.name.clone(), initializer: Box::new(copy_expr(&s.initializer)) },
        ),
        Stmt::Block(s) => {
            let block = Block { statements: copy_statements(&s.statements) };
            proof {
                block_view(block);
                block_view(*s);
            }
            Stmt::Block(block)
        },
        Stmt::If(s) => Stmt::If(
            If {
                condition: Box::new(copy_expr(&s.condition)),
                then_branch: Box::new(copy_stmt(&s.then_branch)),
                else_branch: match &s.else_branch {
                    Some(branch) => Some(Box::new(copy_stmt(branch))),
                    None => None,
                },
            },
        ),
        Stmt::While(s) => Stmt::While(
            While {
                condition: Box::new(copy_expr(&s.condition)),
                body: Box::new(copy_stmt(&s.body)),
            },
        ),
        Stmt::Function(s) => Stmt::Function(Function { name: s.name.clone() }),
        Stmt::Return(s) => Stmt::Return(Return { keyword: s.keyword.clone() }),
        Stmt::Class(s) => Stmt::Class(Class { name: s.name.clone() }),
    }
}

impl Clone for Stmt {
    fn clone(&self) -> (r: Self)
        ensures
            r@ == self@,
    {
        copy_stmt(self)
    }
}

} // verus!
