//! The interpreter, which advances step by step and hands to its host what it
//! cannot do itself.

use vstd::prelude::*;

use crate::environment::{assigned, defined, lookup, Environment, Scope};
use crate::expr::{Expr, ExprView};
use crate::report_text;
use crate::stmt::{block_view, copy_stmt, stmt_views, Stmt, StmtView};
use crate::text::{characters, slice_text};
use crate::token::{LiteralKind, LiteralValue, Token, TokenKind, TokenView};

verus! {

/// A runtime error: the line on which it arose, and what went wrong.
#[derive(Debug)]
pub struct Fault {
    pub line: usize,
    pub message: String,
}

/// The mathematical value of a [`Fault`].
pub ghost struct FaultView {
    pub line: usize,
    pub message: Seq<char>,
}

impl View for Fault {
    type V = FaultView;

    open spec fn view(&self) -> FaultView {
        FaultView { line: self.line, message: self.message@ }
    }
}

/// The message for a variable that no scope binds.
pub open spec fn undefined_message(name: Seq<char>) -> Seq<char> {
    "Undefined variable '"@ + name + "'."@
}

/// What ends the evaluation of `name` where no scope binds it.
pub open spec fn undefined_variable(name: TokenView) -> ExitView {
    ExitView::RuntimeError(FaultView { line: name.line, message: undefined_message(name.lexeme) })
}

impl Fault {
    /// The fault for the variable `name` that no scope binds.
    pub fn undefined_variable(name: &Token) -> (r: Fault)
        ensures
            Exit::RuntimeError(r)@ == undefined_variable(name@),
    {
        let mut message = String::from_str("Undefined variable '");
        message.append(name.lexeme.as_str());
        message.append("'.");
        Fault { line: name.line, message }
    }

    /// The diagnostic line of the fault.
    pub fn report(&self) -> (r: String)
        ensures
            r@ == report_text(self.line, self.message@),
    {
        crate::report(self.line, self.message.as_str())
    }
}

/// What ends an evaluation before its end.
#[derive(Debug)]
pub enum Exit {
    /// A runtime error.
    RuntimeError(Fault),
    /// A `return` with its value. Reserved: the language has no functions yet.
    Return(LiteralKind),
}

/// The mathematical value of an [`Exit`].
pub ghost enum ExitView {
    RuntimeError(FaultView),
    Return(LiteralValue),
}

impl View for Exit {
    type V = ExitView;

    open spec fn view(&self) -> ExitView {
        match self {
            Exit::RuntimeError(fault) => ExitView::RuntimeError(fault@),
            Exit::Return(value) => ExitView::Return(value@),
        }
    }
}


/// What the host has to compute on numerals. The library holds a number as
/// a decimal numeral and leaves arithmetic on numbers to its host.
#[derive(Debug)]
pub enum Request {
    /// The number that a numeral of the source stands for.
    Literal(String),
    /// The negation of a number.
    Negate(String),
    /// The result of an operator on a left and a right number: the sum,
    /// difference, product or quotient for `+ - * /`, and whether the
    /// comparison holds for `> >= < <= ==`. Of what is supplied for a
    /// comparison the interpreter takes whether it counts as true.
    Binary(TokenKind, String, String),
}

/// The mathematical value of a [`Request`].
pub ghost enum RequestView {
    Literal(Seq<char>),
    Negate(Seq<char>),
    Binary(TokenKind, Seq<char>, Seq<char>),
}

impl View for Request {
    type V = RequestView;

    open spec fn view(&self) -> RequestView {
        match self {
            Request::Literal(n) => RequestView::Literal(n@),
            Request::Negate(n) => RequestView::Negate(n@),
            Request::Binary(kind, left, right) => RequestView::Binary(*kind, left@, right@),
        }
    }
}

impl Clone for Request {
    fn clone(&self) -> (r: Self)
        ensures
            r@ == self@,
    {
        match self {
            Request::Literal(n) => Request::Literal(n.clone()),
            Request::Negate(n) => Request::Negate(n.clone()),
            Request::Binary(kind, left, right) => Request::Binary(
                *kind,
                left.clone(),
                right.clone(),
            ),
        }
    }
}

/// What the host has to do after a step of the interpreter.
#[derive(Debug)]
pub enum Action {
    /// Nothing.
    Continue,
    /// Write the line to the standard output.
    Print(String),
    /// Compute what is requested, and supply the result.
    Compute(Request),
    /// Take the value of the expression that was to be evaluated, as text.
    Value(String),
    /// Stop: evaluation has ended before its end.
    Failed(Exit),
    /// Stop: nothing is left to do.
    Finished,
}

/// The mathematical value of an [`Action`].
pub ghost enum ActionView {
    Continue,
    Print(Seq<char>),
    Compute(RequestView),
    Value(Seq<char>),
    Failed(ExitView),
    Finished,
}

impl View for Action {
    type V = ActionView;

    open spec fn view(&self) -> ActionView {
        match self {
            Action::Continue => ActionView::Continue,
            Action::Print(line) => ActionView::Print(line@),
            Action::Compute(request) => ActionView::Compute(request@),
            Action::Value(text) => ActionView::Value(text@),
            Action::Failed(exit) => ActionView::Failed(exit@),
            Action::Finished => ActionView::Finished,
        }
    }
}

/// How the interpreter takes what its host supplies.
#[derive(Debug, Clone, Copy, PartialEq, Eq, Structural)]
pub enum Answer {
    /// As the value that it is.
    Value,
    /// As the boolean whether it counts as true.
    Truth,
    /// As the boolean whether it does not count as true.
    Negation,
}

/// What the interpreter goes on with when its host supplies `reply`. A
/// comparison gives a boolean, whatever the host supplies for it.
pub open spec fn taken(answer: Answer, reply: LiteralValue) -> LiteralValue {
    match answer {
        Answer::Value => reply,
        Answer::Truth => LiteralValue::Bool(truthy(reply)),
        Answer::Negation => LiteralValue::Bool(!truthy(reply)),
    }
}

/// One piece of work of the interpreter. Values are handed from task to
/// task on a stack.
pub enum Task {
    /// Execute the statement.
    Execute(Stmt),
    /// Evaluate the expression and push its value.
    Evaluate(Expr),
    /// Leave the innermost scope.
    ExitScope,
    /// Go back to the environment that was left for another.
    Restore(Environment),
    /// Pop a value.
    Discard,
    /// Pop a value and have it written.
    Print,
    /// Pop a value and define the variable with it.
    Define(Token),
    /// Give the value on top of the stack to the variable.
    Assign(Token),
    /// Pop a condition and execute the first statement if it holds, the
    /// second, if there is one, if not.
    Branch(Stmt, Option<Stmt>),
    /// Pop a condition, the value of the expression, and if it holds execute
    /// the statement and start over.
    Loop(Expr, Stmt),
    /// Pop an operand and apply the prefix operator.
    Unary(Token),
    /// Pop the left and the right operand and apply the operator.
    Binary(Token),
    /// Decide by the left operand on top of the stack whether the right
    /// operand of `and` or `or` is evaluated in its place.
    Logical(Token, Expr),
    /// Wait for the host to supply what is requested, and take it as the
    /// answer says.
    Await(Request, Answer),
    /// Pop a value and hand it to the host as text.
    Show,
}

/// The mathematical value of a [`Task`].
pub ghost enum TaskView {
    Execute(StmtView),
    Evaluate(ExprView),
    ExitScope,
    Restore(Seq<Scope>),
    Discard,
    Print,
    Define(TokenView),
    Assign(TokenView),
    Branch(StmtView, Option<StmtView>),
    Loop(ExprView, StmtView),
    Unary(TokenView),
    Binary(TokenView),
    Logical(TokenView, ExprView),
    Await(RequestView, Answer),
    Show,
}

impl View for Task {
    type V = TaskView;

    open spec fn view(&self) -> TaskView {
        match self {
            Task::Execute(stmt) => TaskView::Execute(stmt@),
            Task::Evaluate(expr) => TaskView::Evaluate(expr@),
            Task::ExitScope => TaskView::ExitScope,
            Task::Restore(environment) => TaskView::Restore(environment@),
            Task::Discard => TaskView::Discard,
            Task::Print => TaskView::Print,
            Task::Define(name) => TaskView::Define(name@),
            Task::Assign(name) => TaskView::Assign(name@),
            Task::Branch(then_branch, else_branch) => TaskView::Branch(
                then_branch@,
                match else_branch {
                    Some(stmt) => Some(stmt@),
                    None => None,
                },
            ),
            Task::Loop(condition, body) => TaskView::Loop(condition@, body@),
            Task::Unary(operator) => TaskView::Unary(operator@),
            Task::Binary(operator) => TaskView::Binary(operator@),
            Task::Logical(operator, right) => TaskView::Logical(operator@, right@),
            Task::Await(request, answer) => TaskView::Await(request@, *answer),
            Task::Show => TaskView::Show,
        }
    }
}

/// The views of a sequence of tasks, in order.
pub open spec fn task_views(tasks: Seq<Task>) -> Seq<TaskView> {
    tasks.map_values(|t: Task| t@)
}

/// The views of a sequence of values, in order.
pub open spec fn value_views(values: Seq<LiteralKind>) -> Seq<LiteralValue> {
    values.map_values(|v: LiteralKind| v@)
}

/// The state of an interpreter.
pub ghost struct Machine {
    /// The work that is left. The last task is the next.
    pub tasks: Seq<TaskView>,
    /// The values handed from task to task. The last value is the top.
    pub values: Seq<LiteralValue>,
    /// The scopes, from the innermost to the outermost.
    pub scopes: Seq<Scope>,
}

/// A step of an interpreter: its next state, and what the host has to do.
pub ghost struct Stepped {
    pub machine: Machine,
    pub action: ActionView,
}

/// Whether a value counts as true: all do but `false` and the value that is none.
pub open spec fn truthy(value: LiteralValue) -> bool {
    match value {
        LiteralValue::Bool(b) => b,
        LiteralValue::Nil => false,
        _ => true,
    }
}

/// Whether two values are equal, where the library can tell: values of
/// different kinds are not, strings and booleans are if they are the same,
/// and the value that is none equals itself. Whether two numbers are equal
/// is left to the host.
pub open spec fn equal(a: LiteralValue, b: LiteralValue) -> Option<bool> {
    match (a, b) {
        (LiteralValue::Nil, LiteralValue::Nil) => Some(true),
        (LiteralValue::Number(_), LiteralValue::Number(_)) => None,
        (LiteralValue::String(x), LiteralValue::String(y)) => Some(x == y),
        (LiteralValue::Bool(x), LiteralValue::Bool(y)) => Some(x == y),
        _ => Some(false),
    }
}

/// Whether a numeral ends with a fraction of one zero.
pub open spec fn integral(numeral: Seq<char>) -> bool {
    numeral.len() >= 2 && numeral[numeral.len() - 2] == '.' && numeral[numeral.len() - 1] == '0'
}

/// The text that stands for a value where it is printed: a number that
/// ends with a fraction of one zero loses that fraction, a string is
/// printed as it is, and the value that is none as `nil`.
pub open spec fn stringified(value: LiteralValue) -> Seq<char> {
    match value {
        LiteralValue::Nil => "nil"@,
        LiteralValue::Number(n) => if integral(n) {
            n.subrange(0, n.len() - 2)
        } else {
            n
        },
        LiteralValue::String(text) => text,
        LiteralValue::Bool(b) => if b {
            "true"@
        } else {
            "false"@
        },
    }
}

/// The value on top of `values`, or the value that is none where there is none.
pub open spec fn top(values: Seq<LiteralValue>) -> LiteralValue {
    if values.len() > 0 {
        values.last()
    } else {
        LiteralValue::Nil
    }
}

/// `values` without the value on top.
pub open spec fn popped(values: Seq<LiteralValue>) -> Seq<LiteralValue> {
    if values.len() > 0 {
        values.drop_last()
    } else {
        values
    }
}

/// `scopes` without the innermost scope. The outermost scope is never left.
pub open spec fn left(scopes: Seq<Scope>) -> Seq<Scope> {
    if scopes.len() > 1 {
        scopes.drop_first()
    } else {
        scopes
    }
}

/// The scopes that are left of `scopes` once each scope that `tasks` would
/// still leave has been left, and each environment that they would still go
/// back to has been gone back to.
pub open spec fn unwound(scopes: Seq<Scope>, tasks: Seq<TaskView>) -> Seq<Scope>
    decreases tasks.len(),
{
    if tasks.len() == 0 {
        scopes
    } else {
        unwound(
            match tasks.last() {
                TaskView::ExitScope => left(scopes),
                TaskView::Restore(saved) => saved,
                _ => scopes,
            },
            tasks.drop_last(),
        )
    }
}

/// The tasks that execute `statements` in order: the first statement is the
/// last task, which is the next.
pub open spec fn scheduled(statements: Seq<StmtView>) -> Seq<TaskView> {
    Seq::new(
        statements.len(),
        |i: int| TaskView::Execute(statements[statements.len() - 1 - i]),
    )
}

impl Machine {
    /// The step that does nothing but replace the tasks.
    pub open spec fn go_on(self, tasks: Seq<TaskView>) -> Stepped {
        Stepped { machine: Machine { tasks, ..self }, action: ActionView::Continue }
    }

    /// The step that pushes `value`.
    pub open spec fn push(self, value: LiteralValue) -> Stepped {
        Stepped {
            machine: Machine { values: self.values.push(value), ..self },
            action: ActionView::Continue,
        }
    }

    /// The step that asks the host for what `request` says, and waits.
    pub open spec fn ask(self, request: RequestView, answer: Answer) -> Stepped {
        Stepped {
            machine: Machine { tasks: self.tasks.push(TaskView::Await(request, answer)), ..self },
            action: ActionView::Compute(request),
        }
    }

    /// The step that ends the evaluation with a runtime error. No work and
    /// no value is left, and every scope that was entered has been left.
    pub open spec fn fail(self, line: usize, message: Seq<char>) -> Stepped {
        Stepped {
            machine: Machine {
                tasks: Seq::empty(),
                values: Seq::empty(),
                scopes: unwound(self.scopes, self.tasks),
            },
            action: ActionView::Failed(ExitView::RuntimeError(FaultView { line, message })),
        }
    }

    /// The step that executes `stmt`.
    pub open spec fn execute(self, stmt: StmtView) -> Stepped {
        match stmt {
            StmtView::Expression { expression } => self.go_on(
                self.tasks.push(TaskView::Discard).push(TaskView::Evaluate(expression)),
            ),
            StmtView::Print { expression } => self.go_on(
                self.tasks.push(TaskView::Print).push(TaskView::Evaluate(expression)),
            ),
            StmtView::Var { name, initializer } => self.go_on(
                self.tasks.push(TaskView::Define(name)).push(TaskView::Evaluate(initializer)),
            ),
            StmtView::Block { statements } => Stepped {
                machine: Machine {
                    tasks: self.tasks.push(TaskView::ExitScope) + scheduled(statements),
                    values: self.values,
                    scopes: seq![Map::<Seq<char>, LiteralValue>::empty()] + self.scopes,
                },
                action: ActionView::Continue,
            },
            StmtView::If { condition, then_branch, else_branch } => self.go_on(
                self.tasks.push(
                    TaskView::Branch(
                        *then_branch,
                        match else_branch {
                            Some(stmt) => Some(*stmt),
                            None => None,
                        },
                    ),
                ).push(TaskView::Evaluate(condition)),
            ),
            StmtView::While { condition, body } => self.go_on(
                self.tasks.push(TaskView::Loop(condition, *body)).push(
                    TaskView::Evaluate(condition),
                ),
            ),
            StmtView::Function { name } => self.fail(name.line, "Functions are not implemented."@),
            StmtView::Return { keyword } => self.fail(
                keyword.line,
                "Return is not implemented."@,
            ),
            StmtView::Class { name } => self.fail(name.line, "Classes are not implemented."@),
        }
    }

    /// The step that evaluates `expr`.
    pub open spec fn evaluate(self, expr: ExprView) -> Stepped {
        match expr {
            ExprView::Literal { value } => match value {
                LiteralValue::Number(n) => self.ask(RequestView::Literal(n), Answer::Value),
                _ => self.push(value),
            },
            ExprView::Grouping { expr } => self.go_on(self.tasks.push(TaskView::Evaluate(*expr))),
            ExprView::Unary { operator, right } => self.go_on(
                self.tasks.push(TaskView::Unary(operator)).push(TaskView::Evaluate(*right)),
            ),
            ExprView::Binary { left, operator, right } => self.go_on(
                self.tasks.push(TaskView::Binary(operator)).push(TaskView::Evaluate(*left)).push(
                    TaskView::Evaluate(*right),
                ),
            ),
            ExprView::Logical { left, operator, right } => self.go_on(
                self.tasks.push(TaskView::Logical(operator, *right)).push(
                    TaskView::Evaluate(*left),
                ),
            ),
            ExprView::Variable { name } => match lookup(self.scopes, name.lexeme) {
                Some(value) => self.push(value),
                None => self.fail(name.line, undefined_message(name.lexeme)),
            },
            ExprView::Assignment { name, value } => self.go_on(
                self.tasks.push(TaskView::Assign(name)).push(TaskView::Evaluate(*value)),
            ),
            ExprView::Call { callee, paren, arguments } => self.fail(
                paren.line,
                "Calls are not implemented."@,
            ),
            ExprView::Get { object, name } => self.fail(
                name.line,
                "Properties are not implemented."@,
            ),
            ExprView::Setter { object, name, value } => self.fail(
                name.line,
                "Properties are not implemented."@,
            ),
            ExprView::This { keyword } => self.fail(keyword.line, "Classes are not implemented."@),
            ExprView::Super { keyword, method } => self.fail(
                keyword.line,
                "Classes are not implemented."@,
            ),
        }
    }

    /// The step that applies the prefix operator `operator` to the value on top.
    pub open spec fn unary(self, operator: TokenView) -> Stepped {
        let operand = top(self.values);
        let rest = Machine { values: popped(self.values), ..self };
        if operator.kind == TokenKind::Minus {
            match operand {
                LiteralValue::Number(n) => rest.ask(RequestView::Negate(n), Answer::Value),
                _ => self.fail(operator.line, "Operand must be a number."@),
            }
        } else if operator.kind == TokenKind::Bang {
            rest.push(LiteralValue::Bool(!truthy(operand)))
        } else {
            self.fail(operator.line, "Unknown operator."@)
        }
    }

    /// The step that applies `operator` to the left operand, which is on
    /// top, and the right operand below it.
    pub open spec fn binary(self, operator: TokenView) -> Stepped {
        let left = top(self.values);
        let right = top(popped(self.values));
        let rest = Machine { values: popped(popped(self.values)), ..self };
        let kind = operator.kind;
        if kind == TokenKind::Minus || kind == TokenKind::Slash || kind == TokenKind::Star {
            match (left, right) {
                (LiteralValue::Number(l), LiteralValue::Number(r)) => rest.ask(
                    RequestView::Binary(kind, l, r),
                    Answer::Value,
                ),
                _ => self.fail(operator.line, "Operands must be numbers."@),
            }
        } else if kind == TokenKind::Greater || kind == TokenKind::GreaterEqual || kind
            == TokenKind::Less || kind == TokenKind::LessEqual {
            match (left, right) {
                (LiteralValue::Number(l), LiteralValue::Number(r)) => rest.ask(
                    RequestView::Binary(kind, l, r),
                    Answer::Truth,
                ),
                _ => self.fail(operator.line, "Operands must be numbers."@),
            }
        } else if kind == TokenKind::Plus {
            match (left, right) {
                (LiteralValue::Number(l), LiteralValue::Number(r)) => rest.ask(
                    RequestView::Binary(kind, l, r),
                    Answer::Value,
                ),
                (LiteralValue::String(l), LiteralValue::String(r)) => rest.push(
                    LiteralValue::String(l + r),
                ),
                _ => self.fail(operator.line, "Operands must be two numbers or two strings."@),
            }
        } else if kind == TokenKind::EqualEqual || kind == TokenKind::BangEqual {
            match (left, right) {
                (LiteralValue::Number(l), LiteralValue::Number(r)) => rest.ask(
                    RequestView::Binary(TokenKind::EqualEqual, l, r),
                    if kind == TokenKind::BangEqual {
                        Answer::Negation
                    } else {
                        Answer::Truth
                    },
                ),
                _ => rest.push(
                    LiteralValue::Bool(
                        (equal(left, right) == Some(true)) != (kind == TokenKind::BangEqual),
                    ),
                ),
            }
        } else {
            self.fail(operator.line, "Unknown operator."@)
        }
    }

    /// The step that decides on the right operand of `and` or `or`: the
    /// left operand stays as the value if it decides the result, and the
    /// right operand is evaluated in its place if not.
    pub open spec fn logical(self, operator: TokenView, right: ExprView) -> Stepped {
        let left = top(self.values);
        if truthy(left) == (operator.kind == TokenKind::Or) {
            Stepped {
                machine: Machine { values: popped(self.values).push(left), ..self },
                action: ActionView::Continue,
            }
        } else {
            Stepped {
                machine: Machine {
                    tasks: self.tasks.push(TaskView::Evaluate(right)),
                    values: popped(self.values),
                    scopes: self.scopes,
                },
                action: ActionView::Continue,
            }
        }
    }

    /// The step that gives the value on top to the variable `name`. The
    /// value stays on top.
    pub open spec fn assign(self, name: TokenView) -> Stepped {
        let value = top(self.values);
        match assigned(self.scopes, name.lexeme, value) {
            Some(scopes) => Stepped {
                machine: Machine { values: popped(self.values).push(value), scopes, ..self },
                action: ActionView::Continue,
            },
            None => self.fail(name.line, undefined_message(name.lexeme)),
        }
    }

    /// The step that takes the value on top as a condition and executes
    /// `then_branch` if it holds, `else_branch`, if there is one, if not.
    pub open spec fn branch(self, then_branch: StmtView, else_branch: Option<StmtView>) -> Stepped {
        let rest = Machine { values: popped(self.values), ..self };
        if truthy(top(self.values)) {
            rest.go_on(self.tasks.push(TaskView::Execute(then_branch)))
        } else {
            match else_branch {
                Some(stmt) => rest.go_on(self.tasks.push(TaskView::Execute(stmt))),
                None => rest.go_on(self.tasks),
            }
        }
    }

    /// The step that takes the value on top as the condition of a loop: if
    /// it holds, the body is executed, then the condition is evaluated again.
    pub open spec fn repeat(self, condition: ExprView, body: StmtView) -> Stepped {
        let rest = Machine { values: popped(self.values), ..self };
        if truthy(top(self.values)) {
            rest.go_on(
                self.tasks.push(TaskView::Loop(condition, body)).push(
                    TaskView::Evaluate(condition),
                ).push(TaskView::Execute(body)),
            )
        } else {
            rest.go_on(self.tasks)
        }
    }

    /// The step of a machine whose next task was `task`, and is no longer
    /// among its tasks.
    pub open spec fn perform(self, task: TaskView) -> Stepped {
        let rest = Machine { values: popped(self.values), ..self };
        match task {
            TaskView::Execute(stmt) => self.execute(stmt),
            TaskView::Evaluate(expr) => self.evaluate(expr),
            TaskView::ExitScope => Stepped {
                machine: Machine { scopes: left(self.scopes), ..self },
                action: ActionView::Continue,
            },
            TaskView::Restore(saved) => Stepped {
                machine: Machine { scopes: saved, ..self },
                action: ActionView::Continue,
            },
            TaskView::Discard => rest.go_on(self.tasks),
            TaskView::Print => Stepped {
                machine: rest,
                action: ActionView::Print(stringified(top(self.values))),
            },
            TaskView::Define(name) => Stepped {
                machine: Machine {
                    scopes: defined(self.scopes, name.lexeme, top(self.values)),
                    ..rest
                },
                action: ActionView::Continue,
            },
            TaskView::Assign(name) => self.assign(name),
            TaskView::Branch(then_branch, else_branch) => self.branch(then_branch, else_branch),
            TaskView::Loop(condition, body) => self.repeat(condition, body),
            TaskView::Unary(operator) => self.unary(operator),
            TaskView::Binary(operator) => self.binary(operator),
            TaskView::Logical(operator, right) => self.logical(operator, right),
            TaskView::Await(request, answer) => Stepped {
                machine: Machine { tasks: self.tasks.push(task), ..self },
                action: ActionView::Compute(request),
            },
            TaskView::Show => Stepped {
                machine: rest,
                action: ActionView::Value(stringified(top(self.values))),
            },
        }
    }

    /// One step: the next task is performed. A machine without tasks has finished.
    pub open spec fn step(self) -> Stepped {
        if self.tasks.len() == 0 {
            Stepped { machine: self, action: ActionView::Finished }
        } else {
            Machine { tasks: self.tasks.drop_last(), ..self }.perform(self.tasks.last())
        }
    }

    /// The machine once the host has supplied `value`. A machine that waits
    /// for the host goes on with the value, taken as the answer that it
    /// waits for. A machine that does not wait stays as it is.
    pub open spec fn supply(self, value: LiteralValue) -> Machine {
        if self.tasks.len() > 0 {
            match self.tasks.last() {
                TaskView::Await(request, answer) => Machine {
                    tasks: self.tasks.drop_last(),
                    values: self.values.push(taken(answer, value)),
                    scopes: self.scopes,
                },
                _ => self,
            }
        } else {
            self
        }
    }

    /// Whether the machine waits for the host to supply a value.
    pub open spec fn waits(self) -> bool {
        self.tasks.len() > 0 && self.tasks.last() is Await
    }
}


/// A tree-walking interpreter that advances step by step. What it cannot do
/// itself, writing and arithmetic on numbers, it hands to its host as the
/// action of a step.
pub struct Interpreter {
    environment: Environment,
    tasks: Vec<Task>,
    values: Vec<LiteralKind>,
}

impl View for Interpreter {
    type V = Machine;

    closed spec fn view(&self) -> Machine {
        Machine {
            tasks: task_views(self.tasks@),
            values: value_views(self.values@),
            scopes: self.environment@,
        }
    }
}

impl Interpreter {
    /// An interpreter with one scope, which binds nothing, and nothing to do.
    pub fn new() -> (r: Self)
        ensures
            r@ == (Machine {
                tasks: Seq::empty(),
                values: Seq::empty(),
                scopes: seq![Map::<Seq<char>, LiteralValue>::empty()],
            }),
    {
        let r = Interpreter { environment: Environment::new(), tasks: Vec::new(), values: Vec::new() };
        assert(r@.tasks =~= Seq::<TaskView>::empty());
        assert(r@.values =~= Seq::<LiteralValue>::empty());
        r
    }

    /// Has `statements` executed in order by the steps that follow, after
    /// the work that is already there.
    pub fn interpret(&mut self, statements: &[Stmt])
        ensures
            final(self)@ == (Machine {
                tasks: scheduled(stmt_views(statements@)) + old(self)@.tasks,
                ..old(self)@
            }),
    {
        let mut scheduled_tasks: Vec<Task> = Vec::new();
        let mut i: usize = statements.len();
        while i > 0
            invariant
                i <= statements.len(),
                scheduled_tasks.len() == statements.len() - i,
                forall|j: int|
                    0 <= j < scheduled_tasks.len() ==> (#[trigger] scheduled_tasks[j])@
                        == TaskView::Execute(statements[statements.len() - 1 - j]@),
            decreases i,
        {
            i -= 1;
            scheduled_tasks.push(Task::Execute(copy_stmt(&statements[i])));
        }
        proof {
            assert(task_views(scheduled_tasks@) =~= scheduled(stmt_views(statements@)));
        }
        let ghost first = task_views(scheduled_tasks@);
        let ghost second = task_views(self.tasks@);
        scheduled_tasks.append(&mut self.tasks);
        self.tasks = scheduled_tasks;
        proof {
            assert(task_views(self.tasks@) =~= first + second);
        }
    }

    /// Has `expr` evaluated by the steps that follow, and its value handed
    /// to the host as text.
    pub fn interpret_expression(&mut self, expr: &Expr)
        ensures
            final(self)@ == (Machine {
                tasks: old(self)@.tasks.push(TaskView::Show).push(TaskView::Evaluate(expr@)),
                ..old(self)@
            }),
    {
        self.push_task(Task::Show);
        self.push_task(Task::Evaluate(expr.clone()));
    }

    /// Has `statements` executed in order in `environment`, which becomes
    /// the environment now. After the last of them, or when one of them
    /// fails, the environment is again the one that it is now.
    pub fn execute_block(&mut self, statements: &[Stmt], environment: Environment)
        ensures
            final(self)@ == (Machine {
                tasks: old(self)@.tasks.push(TaskView::Restore(old(self)@.scopes)) + scheduled(
                    stmt_views(statements@),
                ),
                values: old(self)@.values,
                scopes: environment@,
            }),
    {
        let mut previous = environment;
        std::mem::swap(&mut self.environment, &mut previous);
        self.push_task(Task::Restore(previous));
        let ghost base = self@.tasks;
        let mut i: usize = statements.len();
        while i > 0
            invariant
                i <= statements.len(),
                self@.values == old(self)@.values,
                self@.scopes == environment@,
                self@.tasks == base + scheduled(stmt_views(statements@)).take(
                    statements.len() - i,
                ),
            decreases i,
        {
            i -= 1;
            self.push_task(Task::Execute(copy_stmt(&statements[i])));
            proof {
                let all = scheduled(stmt_views(statements@));
                assert(all.take(statements.len() - i) =~= all.take(statements.len() - i - 1).push(
                    TaskView::Execute(statements[i as int]@),
                ));
                assert(self@.tasks =~= base + all.take(statements.len() - i));
            }
        }
        proof {
            let all = scheduled(stmt_views(statements@));
            assert(all.take(statements.len() as int) =~= all);
        }
    }

    /// Whether the interpreter waits for the host to supply a value.
    pub fn is_waiting(&self) -> (r: bool)
        ensures
            r == self@.waits(),
    {
        let n = self.tasks.len();
        if n == 0 {
            return false;
        }
        match &self.tasks[n - 1] {
            Task::Await(_, _) => true,
            _ => false,
        }
    }

    /// Hands the interpreter the value that it waits for. An interpreter
    /// that does not wait for one stays as it is.
    pub fn supply(&mut self, value: LiteralKind) -> (r: bool)
        ensures
            r == old(self)@.waits(),
            final(self)@ == old(self)@.supply(value@),
    {
        if !self.is_waiting() {
            return false;
        }
        let task = self.pop_task();
        match task {
            Some(Task::Await(_, answer)) => {
                match answer {
                    Answer::Value => self.push_value(value),
                    Answer::Truth => {
                        let truth = self.is_truthy(&value);
                        self.push_value(LiteralKind::Bool(truth));
                    },
                    Answer::Negation => {
                        let truth = self.is_truthy(&value);
                        self.push_value(LiteralKind::Bool(!truth));
                    },
                }
            },
            _ => {},
        }
        true
    }

    /// Performs the next task and says what the host has to do.
    pub fn step(&mut self) -> (action: Action)
        ensures
            final(self)@ == old(self)@.step().machine,
            action@ == old(self)@.step().action,
    {
        let task = match self.pop_task() {
            Some(task) => task,
            None => {
                return Action::Finished;
            },
        };
        match task {
            Task::Execute(stmt) => self.execute(stmt),
            Task::Evaluate(expr) => self.evaluate(expr),
            Task::ExitScope => {
                self.exit_scope();
                Action::Continue
            },
            Task::Restore(environment) => {
                self.restore(environment);
                Action::Continue
            },
            Task::Discard => {
                self.pop_value();
                Action::Continue
            },
            Task::Print => {
                let value = self.pop_value();
                Action::Print(self.stringify(value))
            },
            Task::Define(name) => {
                let value = self.pop_value();
                self.environment.define(name.lexeme, value);
                Action::Continue
            },
            Task::Assign(name) => self.visit_assignment(name),
            Task::Branch(then_branch, else_branch) => self.visit_if(then_branch, else_branch),
            Task::Loop(condition, body) => self.visit_while(condition, body),
            Task::Unary(operator) => self.visit_unary(operator),
            Task::Binary(operator) => self.visit_binary(operator),
            Task::Logical(operator, right) => self.visit_logical(operator, right),
            Task::Await(request, answer) => {
                let again = request.clone();
                self.push_task(Task::Await(request, answer));
                Action::Compute(again)
            },
            Task::Show => {
                let value = self.pop_value();
                Action::Value(self.stringify(value))
            },
        }
    }

    /// Takes the step that executes `stmt`.
    fn execute(&mut self, stmt: Stmt) -> (action: Action)
        ensures
            final(self)@ == old(self)@.execute(stmt@).machine,
            action@ == old(self)@.execute(stmt@).action,
    {
        match stmt {
            Stmt::Expression(s) => {
                self.push_task(Task::Discard);
                self.push_task(Task::Evaluate(*s.expression));
                Action::Continue
            },
            Stmt::Print(s) => {
                self.push_task(Task::Print);
                self.push_task(Task::Evaluate(*s.expression));
                Action::Continue
            },
            Stmt::Var(s) => {
                self.push_task(Task::Define(s.name));
                self.push_task(Task::Evaluate(*s.initializer));
                Action::Continue
            },
            Stmt::Block(s) => {
                proof {
                    block_view(s);
                }
                self.visit_block(s.statements);
                Action::Continue
            },
            Stmt::If(s) => {
                let else_branch = match s.else_branch {
                    Some(stmt) => Some(*stmt),
                    None => None,
                };
                self.push_task(Task::Branch(*s.then_branch, else_branch));
                self.push_task(Task::Evaluate(*s.condition));
                Action::Continue
            },
            Stmt::While(s) => {
                let again = s.condition.clone();
                self.push_task(Task::Loop(*again, *s.body));
                self.push_task(Task::Evaluate(*s.condition));
                Action::Continue
            },
            Stmt::Function(s) => self.fail(s.name.line, "Functions are not implemented."),
            Stmt::Return(s) => self.fail(s.keyword.line, "Return is not implemented."),
            Stmt::Class(s) => self.fail(s.name.line, "Classes are not implemented."),
        }
    }

    /// Enters a scope and has `statements` executed in it, in order.
    fn visit_block(&mut self, statements: Vec<Stmt>)
        ensures
            final(self)@ == (Machine {
                tasks: old(self)@.tasks.push(TaskView::ExitScope) + scheduled(
                    stmt_views(statements@),
                ),
                values: old(self)@.values,
                scopes: seq![Map::<Seq<char>, LiteralValue>::empty()] + old(self)@.scopes,
            }),
    {
        self.enter_scope();
        self.push_task(Task::ExitScope);
        let ghost base = self@.tasks;
        let ghost all = scheduled(stmt_views(statements@));
        let mut statements = statements;
        let ghost total = statements.len();
        assert(all.take(0) =~= Seq::<TaskView>::empty());
        while statements.len() > 0
            invariant
                statements.len() <= total,
                all.len() == total,
                self@.values == old(self)@.values,
                self@.scopes == seq![Map::<Seq<char>, LiteralValue>::empty()] + old(self)@.scopes,
                self@.tasks == base + all.take(total - statements.len()),
                forall|j: int|
                    0 <= j < statements.len() ==> TaskView::Execute((#[trigger] statements[j])@)
                        == all[total - 1 - j],
            decreases statements.len(),
        {
            let ghost before = statements.len();
            if let Some(stmt) = statements.pop() {
                self.push_task(Task::Execute(stmt));
                proof {
                    assert(all.take(total - statements.len()) =~= all.take(total - before).push(
                        TaskView::Execute(stmt@),
                    ));
                    assert(self@.tasks =~= base + all.take(total - statements.len()));
                }
            }
        }
        proof {
            assert(all.take(total as int) =~= all);
        }
    }

    /// Takes the step that evaluates `expr`.
    fn evaluate(&mut self, expr: Expr) -> (action: Action)
        ensures
            final(self)@ == old(self)@.evaluate(expr@).machine,
            action@ == old(self)@.evaluate(expr@).action,
    {
        match expr {
            Expr::Literal(e) => match e.value {
                LiteralKind::Number(n) => self.ask(Request::Literal(n), Answer::Value),
                value => {
                    self.push_value(value);
                    Action::Continue
                },
            },
            Expr::Grouping(e) => {
                self.push_task(Task::Evaluate(*e.expr));
                Action::Continue
            },
            Expr::Unary(e) => {
                self.push_task(Task::Unary(e.operator));
                self.push_task(Task::Evaluate(*e.right));
                Action::Continue
            },
            Expr::Binary(e) => {
                self.push_task(Task::Binary(e.operator));
                self.push_task(Task::Evaluate(*e.left));
                self.push_task(Task::Evaluate(*e.right));
                Action::Continue
            },
            Expr::Logical(e) => {
                self.push_task(Task::Logical(e.operator, *e.right));
                self.push_task(Task::Evaluate(*e.left));
                Action::Continue
            },
            Expr::Variable(e) => match self.environment.get(&e.name) {
                Ok(value) => {
                    self.push_value(value);
                    Action::Continue
                },
                Err(exit) => self.unwind(exit),
            },
            Expr::Assignment(e) => {
                self.push_task(Task::Assign(e.name));
                self.push_task(Task::Evaluate(*e.value));
                Action::Continue
            },
            Expr::Call(e) => self.fail(e.paren.line, "Calls are not implemented."),
            Expr::Get(e) => self.fail(e.name.line, "Properties are not implemented."),
            Expr::Setter(e) => self.fail(e.name.line, "Properties are not implemented."),
            Expr::This(e) => self.fail(e.keyword.line, "Classes are not implemented."),
            Expr::Super(e) => self.fail(e.keyword.line, "Classes are not implemented."),
        }
    }

    /// Takes the step that gives the value on top to the variable `name`.
    fn visit_assignment(&mut self, name: Token) -> (action: Action)
        ensures
            final(self)@ == old(self)@.assign(name@).machine,
            action@ == old(self)@.assign(name@).action,
    {
        let value = self.pop_value();
        match self.environment.assign(&name, value.clone()) {
            Ok(_) => {
                self.push_value(value);
                Action::Continue
            },
            Err(exit) => self.unwind(exit),
        }
    }

    /// Takes the step that decides between the branches of a conditional.
    fn visit_if(&mut self, then_branch: Stmt, else_branch: Option<Stmt>) -> (action: Action)
        ensures
            ({
                let stepped = old(self)@.branch(
                    then_branch@,
                    match else_branch {
                        Some(stmt) => Some(stmt@),
                        None => None,
                    },
                );
                final(self)@ == stepped.machine && action@ == stepped.action
            }),
    {
        let condition = self.pop_value();
        if self.is_truthy(&condition) {
            self.push_task(Task::Execute(then_branch));
        } else if let Some(stmt) = else_branch {
            self.push_task(Task::Execute(stmt));
        }
        Action::Continue
    }

    /// Takes the step that decides whether a loop goes on.
    fn visit_while(&mut self, condition: Expr, body: Stmt) -> (action: Action)
        ensures
            final(self)@ == old(self)@.repeat(condition@, body@).machine,
            action@ == old(self)@.repeat(condition@, body@).action,
    {
        let value = self.pop_value();
        if self.is_truthy(&value) {
            let again = condition.clone();
            let once = body.clone();
            self.push_task(Task::Loop(condition, body));
            self.push_task(Task::Evaluate(again));
            self.push_task(Task::Execute(once));
        }
        Action::Continue
    }

    /// Takes the step that applies a prefix operator.
    fn visit_unary(&mut self, operator: Token) -> (action: Action)
        ensures
            final(self)@ == old(self)@.unary(operator@).machine,
            action@ == old(self)@.unary(operator@).action,
    {
        match operator.kind {
            TokenKind::Minus => {
                let ghost before = self@;
                match self.pop_value() {
                    LiteralKind::Number(n) => self.ask(Request::Negate(n), Answer::Value),
                    _ => {
                        self.fail_from(
                            Ghost(before),
                            operator.line,
                            "Operand must be a number.",
                        )
                    },
                }
            },
            TokenKind::Bang => {
                let right = self.pop_value();
                let truth = self.is_truthy(&right);
                self.push_value(LiteralKind::Bool(!truth));
                Action::Continue
            },
            _ => self.fail(operator.line, "Unknown operator."),
        }
    }

    /// Takes the step that applies an operator to two operands.
    fn visit_binary(&mut self, operator: Token) -> (action: Action)
        ensures
            final(self)@ == old(self)@.binary(operator@).machine,
            action@ == old(self)@.binary(operator@).action,
    {
        let ghost before = self@;
        match operator.kind {
            TokenKind::Minus | TokenKind::Slash | TokenKind::Star => {
                let left = self.pop_value();
                let right = self.pop_value();
                match (left, right) {
                    (LiteralKind::Number(l), LiteralKind::Number(r)) => self.ask(
                        Request::Binary(operator.kind, l, r),
                        Answer::Value,
                    ),
                    _ => self.fail_from(Ghost(before), operator.line, "Operands must be numbers."),
                }
            },
            TokenKind::Greater
            | TokenKind::GreaterEqual
            | TokenKind::Less
            | TokenKind::LessEqual => {
                let left = self.pop_value();
                let right = self.pop_value();
                match (left, right) {
                    (LiteralKind::Number(l), LiteralKind::Number(r)) => self.ask(
                        Request::Binary(operator.kind, l, r),
                        Answer::Truth,
                    ),
                    _ => self.fail_from(Ghost(before), operator.line, "Operands must be numbers."),
                }
            },
            TokenKind::Plus => {
                let left = self.pop_value();
                let right = self.pop_value();
                match (left, right) {
                    (LiteralKind::Number(l), LiteralKind::Number(r)) => self.ask(
                        Request::Binary(operator.kind, l, r),
                        Answer::Value,
                    ),
                    (LiteralKind::String(l), LiteralKind::String(r)) => {
                        let mut joined = l;
                        joined.append(r.as_str());
                        self.push_value(LiteralKind::String(joined));
                        Action::Continue
                    },
                    _ => self.fail_from(
                        Ghost(before),
                        operator.line,
                        "Operands must be two numbers or two strings.",
                    ),
                }
            },
            TokenKind::EqualEqual | TokenKind::BangEqual => {
                let negate = operator.kind == TokenKind::BangEqual;
                let left = self.pop_value();
                let right = self.pop_value();
                match self.is_equal(&left, &right) {
                    Some(same) => {
                        self.push_value(LiteralKind::Bool(same != negate));
                        Action::Continue
                    },
                    None => match (left, right) {
                        (LiteralKind::Number(l), LiteralKind::Number(r)) => self.ask(
                            Request::Binary(TokenKind::EqualEqual, l, r),
                            if negate {
                                Answer::Negation
                            } else {
                                Answer::Truth
                            },
                        ),
                        _ => Action::Continue,
                    },
                }
            },
            _ => self.fail(operator.line, "Unknown operator."),
        }
    }

    /// Takes the step that decides on the right operand of `and` or `or`.
    fn visit_logical(&mut self, operator: Token, right: Expr) -> (action: Action)
        ensures
            final(self)@ == old(self)@.logical(operator@, right@).machine,
            action@ == old(self)@.logical(operator@, right@).action,
    {
        let left = self.pop_value();
        let decided = if operator.kind == TokenKind::Or {
            self.is_truthy(&left)
        } else {
            !self.is_truthy(&left)
        };
        if decided {
            self.push_value(left);
        } else {
            self.push_task(Task::Evaluate(right));
        }
        Action::Continue
    }

    /// Asks the host for what `request` says, and waits.
    fn ask(&mut self, request: Request, answer: Answer) -> (action: Action)
        ensures
            final(self)@ == old(self)@.ask(request@, answer).machine,
            action@ == old(self)@.ask(request@, answer).action,
    {
        let again = request.clone();
        self.push_task(Task::Await(request, answer));
        Action::Compute(again)
    }

    /// Ends the evaluation with the runtime error `message` at `line`.
    fn fail(&mut self, line: usize, message: &str) -> (action: Action)
        ensures
            final(self)@ == old(self)@.fail(line, message@).machine,
            action@ == old(self)@.fail(line, message@).action,
    {
        self.unwind(Exit::RuntimeError(Fault { line, message: String::from_str(message) }))
    }

    /// Ends the evaluation with the runtime error `message` at `line`, in
    /// the place of the machine `before` whose values alone have changed.
    fn fail_from(&mut self, Ghost(before): Ghost<Machine>, line: usize, message: &str) -> (action:
        Action)
        requires
            old(self)@.tasks == before.tasks,
            old(self)@.scopes == before.scopes,
        ensures
            final(self)@ == before.fail(line, message@).machine,
            action@ == before.fail(line, message@).action,
    {
        self.fail(line, message)
    }

    /// Ends the evaluation with `exit`: drops all work and all values, and
    /// leaves every scope that the work would still have left.
    fn unwind(&mut self, exit: Exit) -> (action: Action)
        ensures
            final(self)@ == (Machine {
                tasks: Seq::empty(),
                values: Seq::empty(),
                scopes: unwound(old(self)@.scopes, old(self)@.tasks),
            }),
            action@ == ActionView::Failed(exit@),
    {
        while self.tasks.len() > 0
            invariant
                self@.tasks.len() == self.tasks.len(),
                unwound(self@.scopes, self@.tasks) == unwound(old(self)@.scopes, old(self)@.tasks),
            decreases self@.tasks.len(),
        {
            match self.pop_task() {
                Some(Task::ExitScope) => {
                    self.exit_scope();
                },
                Some(Task::Restore(environment)) => {
                    self.restore(environment);
                },
                _ => {},
            }
        }
        self.values.clear();
        proof {
            assert(self@.tasks =~= Seq::<TaskView>::empty());
            assert(self@.values =~= Seq::<LiteralValue>::empty());
        }
        Action::Failed(exit)
    }

    /// Enters a scope that binds nothing.
    fn enter_scope(&mut self)
        ensures
            final(self)@ == (Machine {
                scopes: seq![Map::<Seq<char>, LiteralValue>::empty()] + old(self)@.scopes,
                ..old(self)@
            }),
    {
        let mut current = Environment::new();
        std::mem::swap(&mut self.environment, &mut current);
        self.environment = Environment::new_with_enclosing(current);
    }

    /// Goes back to `environment`.
    fn restore(&mut self, environment: Environment)
        ensures
            final(self)@ == (Machine { scopes: environment@, ..old(self)@ }),
    {
        self.environment = environment;
    }

    /// Leaves the innermost scope, unless it is the outermost.
    fn exit_scope(&mut self)
        ensures
            final(self)@ == (Machine { scopes: left(old(self)@.scopes), ..old(self)@ }),
    {
        if self.environment.has_enclosing() {
            let mut current = Environment::new();
            std::mem::swap(&mut self.environment, &mut current);
            match current.into_enclosing() {
                Some(outer) => {
                    self.environment = outer;
                },
                None => {},
            }
        }
    }

    fn push_task(&mut self, task: Task)
        ensures
            final(self)@ == (Machine { tasks: old(self)@.tasks.push(task@), ..old(self)@ }),
    {
        self.tasks.push(task);
        assert(task_views(self.tasks@) =~= task_views(old(self).tasks@).push(task@));
    }

    /// Removes the next task, if there is one.
    fn pop_task(&mut self) -> (r: Option<Task>)
        ensures
            match r {
                Some(task) => old(self)@.tasks.len() > 0 && task@ == old(self)@.tasks.last()
                    && final(self)@ == (Machine {
                    tasks: old(self)@.tasks.drop_last(),
                    ..old(self)@
                }),
                None => old(self)@.tasks.len() == 0 && final(self)@ == old(self)@,
            },
    {
        let r = self.tasks.pop();
        assert(r is Some ==> task_views(self.tasks@) =~= task_views(old(self).tasks@).drop_last());
        r
    }

    fn push_value(&mut self, value: LiteralKind)
        ensures
            final(self)@ == (Machine { values: old(self)@.values.push(value@), ..old(self)@ }),
    {
        self.values.push(value);
        assert(value_views(self.values@) =~= value_views(old(self).values@).push(value@));
    }

    /// Removes the value on top. Where there is none, the value is the one
    /// that is none.
    fn pop_value(&mut self) -> (r: LiteralKind)
        ensures
            r@ == top(old(self)@.values),
            final(self)@ == (Machine { values: popped(old(self)@.values), ..old(self)@ }),
    {
        match self.values.pop() {
            Some(value) => {
                assert(value_views(self.values@) =~= value_views(old(self).values@).drop_last());
                value
            },
            None => LiteralKind::Nil,
        }
    }

    /// The text that stands for a value where it is printed.
    pub fn stringify(&self, literal: LiteralKind) -> (r: String)
        ensures
            r@ == stringified(literal@),
    {
        match literal {
            LiteralKind::Nil => String::from_str("nil"),
            LiteralKind::Number(n) => {
                let digits = characters(n.as_str());
                let len = digits.len();
                if len >= 2 && digits[len - 2] == '.' && digits[len - 1] == '0' {
                    slice_text(&digits, 0, len - 2)
                } else {
                    n
                }
            },
            LiteralKind::String(text) => text,
            LiteralKind::Bool(b) => if b {
                String::from_str("true")
            } else {
                String::from_str("false")
            },
        }
    }

    /// Whether a value counts as true.
    pub fn is_truthy(&self, literal: &LiteralKind) -> (r: bool)
        ensures
            r == truthy(literal@),
    {
        match literal {
            LiteralKind::Bool(boolean) => *boolean,
            LiteralKind::Nil => false,
            _ => true,
        }
    }

    /// Whether two values are equal, or nothing for two numbers, which the
    /// host compares.
    pub fn is_equal(&self, a: &LiteralKind, b: &LiteralKind) -> (r: Option<bool>)
        ensures
            r == equal(a@, b@),
    {
        match (a, b) {
            (LiteralKind::Nil, LiteralKind::Nil) => Some(true),
            (LiteralKind::Number(_), LiteralKind::Number(_)) => None,
            (LiteralKind::String(x), LiteralKind::String(y)) => Some(*x == *y),
            (LiteralKind::Bool(x), LiteralKind::Bool(y)) => Some(*x == *y),
            _ => Some(false),
        }
    }
}

} // verus!
