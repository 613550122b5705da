//! What expressions evaluate to, and that the interpreter evaluates them so.

use vstd::prelude::*;

use crate::environment::{assigned, lookup, Scope};
use crate::expr::ExprView;
use crate::interpreter::{
    equal, popped, stringified, top, truthy, undefined_message, unwound, ActionView, Answer,
    ExitView, FaultView, Machine, RequestView, Stepped, TaskView,
};
use crate::token::{LiteralValue, TokenKind, TokenView};

verus! {

/// What a host answers to each request.
pub type Host = spec_fn(RequestView) -> LiteralValue;

/// What the evaluation of an expression gives: its value or the fault that
/// ended it, and the scopes as it left them.
pub ghost struct Evaluated {
    pub outcome: Result<LiteralValue, FaultView>,
    pub scopes: Seq<Scope>,
}

/// The value of the prefix operator `operator` applied to `operand`.
pub open spec fn unary_value(host: Host, operator: TokenView, operand: LiteralValue) -> Result<
    LiteralValue,
    FaultView,
> {
    if operator.kind == TokenKind::Minus {
        match operand {
            LiteralValue::Number(n) => Ok(host(RequestView::Negate(n))),
            _ => Err(FaultView { line: operator.line, message: "Operand must be a number."@ }),
        }
    } else if operator.kind == TokenKind::Bang {
        Ok(LiteralValue::Bool(!truthy(operand)))
    } else {
        Err(FaultView { line: operator.line, message: "Unknown operator."@ })
    }
}

/// Whether two values are equal: values of different kinds are not, strings
/// and booleans are if they are the same, and the value that is none equals
/// itself. Two numbers are equal if what the host answers to the question
/// counts as true.
pub open spec fn same_values(host: Host, left: LiteralValue, right: LiteralValue) -> bool {
    match (left, right) {
        (LiteralValue::Number(l), LiteralValue::Number(r)) => truthy(
            host(RequestView::Binary(TokenKind::EqualEqual, l, r)),
        ),
        _ => equal(left, right) == Some(true),
    }
}

/// The value of `operator` applied to the operands `left` and `right`.
///
/// Arithmetic and comparisons need two numbers and are computed by the
/// host; a comparison gives the boolean whether the answer of the host counts
/// as true. `+` also joins two strings. `==` and `!=` take any two values and
/// never fail: `==` gives whether the values are equal, and `!=` whether they
/// are not.
pub open spec fn binary_value(
    host: Host,
    operator: TokenView,
    left: LiteralValue,
    right: LiteralValue,
) -> Result<LiteralValue, FaultView> {
    let kind = operator.kind;
    if kind == TokenKind::Minus || kind == TokenKind::Slash || kind == TokenKind::Star {
        match (left, right) {
            (LiteralValue::Number(l), LiteralValue::Number(r)) => Ok(
                host(RequestView::Binary(kind, l, r)),
            ),
            _ => Err(FaultView { line: operator.line, message: "Operands must be numbers."@ }),
        }
    } else if kind == TokenKind::Greater || kind == TokenKind::GreaterEqual || kind
        == TokenKind::Less || kind == TokenKind::LessEqual {
        match (left, right) {
            (LiteralValue::Number(l), LiteralValue::Number(r)) => Ok(
                LiteralValue::Bool(truthy(host(RequestView::Binary(kind, l, r)))),
            ),
            _ => Err(FaultView { line: operator.line, message: "Operands must be numbers."@ }),
        }
    } else if kind == TokenKind::Plus {
        match (left, right) {
            (LiteralValue::Number(l), LiteralValue::Number(r)) => Ok(
                host(RequestView::Binary(kind, l, r)),
            ),
            (LiteralValue::String(l), LiteralValue::String(r)) => Ok(LiteralValue::String(l + r)),
            _ => Err(
                FaultView {
                    line: operator.line,
                    message: "Operands must be two numbers or two strings."@,
                },
            ),
        }
    } else if kind == TokenKind::EqualEqual || kind == TokenKind::BangEqual {
        let same = same_values(host, left, right);
        Ok(LiteralValue::Bool(same != (kind == TokenKind::BangEqual)))
    } else {
        Err(FaultView { line: operator.line, message: "Unknown operator."@ })
    }
}

/// A value, with the scopes unchanged.
pub open spec fn value(value: LiteralValue, scopes: Seq<Scope>) -> Evaluated {
    Evaluated { outcome: Ok(value), scopes }
}

/// A fault, with the scopes unchanged.
pub open spec fn fault(line: usize, message: Seq<char>, scopes: Seq<Scope>) -> Evaluated {
    Evaluated { outcome: Err(FaultView { line, message }), scopes }
}

/// What the evaluation of `expr` in `scopes` gives, with `host` doing the
/// arithmetic.
///
/// A literal is its value, a number literal what the host reads its
/// numeral as. A grouping is its inner expression. Of an operator with two
/// operands the right one is evaluated first. `and` and `or` give the left
/// operand if it decides, and the right one if not. A variable is the value
/// of its innermost binding, and an assignment gives that binding a value,
/// which is also its own. The first fault ends the evaluation.
pub open spec fn evaluated(host: Host, scopes: Seq<Scope>, expr: ExprView) -> Evaluated
    decreases expr,
{
    match expr {
        ExprView::Literal { value: literal } => match literal {
            LiteralValue::Number(n) => value(host(RequestView::Literal(n)), scopes),
            _ => value(literal, scopes),
        },
        ExprView::Grouping { expr } => evaluated(host, scopes, *expr),
        ExprView::Unary { operator, right } => {
            let operand = evaluated(host, scopes, *right);
            match operand.outcome {
                Ok(v) => Evaluated {
                    outcome: unary_value(host, operator, v),
                    scopes: operand.scopes,
                },
                Err(_) => operand,
            }
        },
        ExprView::Binary { left, operator, right } => {
            let second = evaluated(host, scopes, *right);
            match second.outcome {
                Ok(r) => {
                    let first = evaluated(host, second.scopes, *left);
                    match first.outcome {
                        Ok(l) => Evaluated {
                            outcome: binary_value(host, operator, l, r),
                            scopes: first.scopes,
                        },
                        Err(_) => first,
                    }
                },
                Err(_) => second,
            }
        },
        ExprView::Logical { left, operator, right } => {
            let first = evaluated(host, scopes, *left);
            match first.outcome {
                Ok(l) => if truthy(l) == (operator.kind == TokenKind::Or) {
                    first
                } else {
                    evaluated(host, first.scopes, *right)
                },
                Err(_) => first,
            }
        },
        ExprView::Variable { name } => match lookup(scopes, name.lexeme) {
            Some(v) => value(v, scopes),
            None => fault(name.line, undefined_message(name.lexeme), scopes),
        },
        ExprView::Assignment { name, value: assigned_value } => {
            let given = evaluated(host, scopes, *assigned_value);
            match given.outcome {
                Ok(v) => match assigned(given.scopes, name.lexeme, v) {
                    Some(changed) => value(v, changed),
                    None => fault(name.line, undefined_message(name.lexeme), given.scopes),
                },
                Err(_) => given,
            }
        },
        ExprView::Call { callee, paren, arguments } => fault(
            paren.line,
            "Calls are not implemented."@,
            scopes,
        ),
        ExprView::Get { object, name } => fault(
            name.line,
            "Properties are not implemented."@,
            scopes,
        ),
        ExprView::Setter { object, name, value } => fault(
            name.line,
            "Properties are not implemented."@,
            scopes,
        ),
        ExprView::This { keyword } => fault(keyword.line, "Classes are not implemented."@, scopes),
        ExprView::Super { keyword, method } => fault(
            keyword.line,
            "Classes are not implemented."@,
            scopes,
        ),
    }
}

/// The number of steps that the evaluation of `expr` takes.
pub open spec fn steps(host: Host, scopes: Seq<Scope>, expr: ExprView) -> nat
    decreases expr,
{
    match expr {
        ExprView::Grouping { expr } => 1 + steps(host, scopes, *expr),
        ExprView::Unary { operator, right } => {
            let operand = evaluated(host, scopes, *right);
            1 + steps(host, scopes, *right) + if operand.outcome is Ok {
                1nat
            } else {
                0nat
            }
        },
        ExprView::Binary { left, operator, right } => {
            let second = evaluated(host, scopes, *right);
            1 + steps(host, scopes, *right) + if second.outcome is Ok {
                steps(host, second.scopes, *left) + if evaluated(
                    host,
                    second.scopes,
                    *left,
                ).outcome is Ok {
                    1nat
                } else {
                    0nat
                }
            } else {
                0nat
            }
        },
        ExprView::Logical { left, operator, right } => {
            let first = evaluated(host, scopes, *left);
            1 + steps(host, scopes, *left) + match first.outcome {
                Ok(l) => 1 + if truthy(l) == (operator.kind == TokenKind::Or) {
                    0nat
                } else {
                    steps(host, first.scopes, *right)
                },
                Err(_) => 0nat,
            }
        },
        ExprView::Assignment { name, value } => {
            let given = evaluated(host, scopes, *value);
            1 + steps(host, scopes, *value) + if given.outcome is Ok {
                1nat
            } else {
                0nat
            }
        },
        _ => 1,
    }
}

/// A run of a machine: the machine that it leads to, and what the host was
/// told on the way besides going on and computing.
pub ghost struct Run {
    pub machine: Machine,
    pub log: Seq<ActionView>,
}

/// What a step leads to once the host has answered it.
pub open spec fn answered(stepped: Stepped, host: Host) -> Machine {
    match stepped.action {
        ActionView::Compute(request) => stepped.machine.supply(host(request)),
        _ => stepped.machine,
    }
}

/// What the host is told by `action`, if it is more than to go on or to compute.
pub open spec fn told(action: ActionView) -> Seq<ActionView> {
    match action {
        ActionView::Continue => Seq::empty(),
        ActionView::Compute(_) => Seq::empty(),
        _ => seq![action],
    }
}

/// The run of `count` steps of `machine`, each answered by `host`.
pub open spec fn driven(machine: Machine, host: Host, count: nat) -> Run
    decreases count,
{
    if count == 0 {
        Run { machine, log: Seq::empty() }
    } else {
        let stepped = machine.step();
        let rest = driven(answered(stepped, host), host, (count - 1) as nat);
        Run { machine: rest.machine, log: told(stepped.action) + rest.log }
    }
}

/// A run of `first + second` steps is a run of `first` steps followed by a
/// run of `second` steps.
pub proof fn driven_in_two(machine: Machine, host: Host, first: nat, second: nat)
    ensures
        driven(machine, host, first + second) == ({
            let head = driven(machine, host, first);
            let tail = driven(head.machine, host, second);
            Run { machine: tail.machine, log: head.log + tail.log }
        }),
    decreases first,
{
    let head = driven(machine, host, first);
    let tail = driven(head.machine, host, second);
    if first == 0 {
        assert(head.log + tail.log =~= tail.log);
    } else {
        let stepped = machine.step();
        let next = answered(stepped, host);
        driven_in_two(next, host, (first - 1) as nat, second);
        let rest = driven(next, host, (first - 1) as nat);
        assert((first + second - 1) as nat == (first - 1) as nat + second);
        assert(told(stepped.action) + (rest.log + tail.log) =~= (told(stepped.action) + rest.log)
            + tail.log);
    }
}

/// What the machine `base` has become once an expression on top of its
/// tasks has been evaluated with the result `result`: the value has been
/// pushed and the scopes are as the evaluation left them; or, after a fault,
/// the fault has been handed to the host, no work and no value is left, and
/// every scope that was entered has been left.
pub open spec fn after_evaluation(base: Machine, result: Evaluated) -> Run {
    match result.outcome {
        Ok(v) => Run {
            machine: Machine {
                tasks: base.tasks,
                values: base.values.push(v),
                scopes: result.scopes,
            },
            log: Seq::empty(),
        },
        Err(f) => Run {
            machine: Machine {
                tasks: Seq::empty(),
                values: Seq::empty(),
                scopes: unwound(result.scopes, base.tasks),
            },
            log: seq![ActionView::Failed(ExitView::RuntimeError(f))],
        },
    }
}

/// `base` with `task` as its next task.
pub open spec fn with_task(base: Machine, task: TaskView) -> Machine {
    Machine { tasks: base.tasks.push(task), ..base }
}

/// The step of a machine performs its next task.
pub proof fn step_performs(base: Machine, task: TaskView)
    ensures
        with_task(base, task).step() == base.perform(task),
{
    assert(base.tasks.push(task).drop_last() =~= base.tasks);
}

/// A run of one step.
pub proof fn driven_once(machine: Machine, host: Host)
    ensures
        driven(machine, host, 1) == (Run {
            machine: answered(machine.step(), host),
            log: told(machine.step().action),
        }),
{
    reveal_with_fuel(driven, 2);
    assert(told(machine.step().action) + Seq::<ActionView>::empty() =~= told(
        machine.step().action,
    ));
}

/// A task that neither leaves a scope nor goes back to an environment does
/// not count in unwinding.
pub proof fn unwound_past(scopes: Seq<Scope>, tasks: Seq<TaskView>, task: TaskView)
    requires
        !(task is ExitScope),
        !(task is Restore),
    ensures
        unwound(scopes, tasks.push(task)) == unwound(scopes, tasks),
{
    assert(tasks.push(task).drop_last() =~= tasks);
}

/// After a silent first step to `next`, a run goes on as a run of `next`.
pub proof fn driven_after_silent_step(machine: Machine, host: Host, next: Machine, count: nat)
    requires
        machine.step() == (Stepped { machine: next, action: ActionView::Continue }),
    ensures
        driven(machine, host, 1 + count) == driven(next, host, count),
{
    reveal_with_fuel(driven, 1);
    assert(told(ActionView::Continue) + driven(next, host, count).log =~= driven(
        next,
        host,
        count,
    ).log);
}

/// A run, followed by one last step.
pub proof fn driven_then_once(machine: Machine, host: Host, count: nat)
    ensures
        driven(machine, host, count + 1) == ({
            let head = driven(machine, host, count);
            let last = head.machine.step();
            Run { machine: answered(last, host), log: head.log + told(last.action) }
        }),
{
    driven_in_two(machine, host, count, 1);
    driven_once(driven(machine, host, count).machine, host);
}

/// The step that applies a prefix operator to the value on top gives the
/// value of the operator.
proof fn unary_is_applied(host: Host, base: Machine, operator: TokenView, operand: LiteralValue)
    ensures
        ({
            let machine = Machine {
                tasks: base.tasks.push(TaskView::Unary(operator)),
                values: base.values.push(operand),
                scopes: base.scopes,
            };
            let last = machine.step();
            (Run { machine: answered(last, host), log: told(last.action) }) == after_evaluation(
                base,
                Evaluated { outcome: unary_value(host, operator, operand), scopes: base.scopes },
            )
        }),
{
    let before = Machine { values: base.values.push(operand), ..base };
    step_performs(before, TaskView::Unary(operator));
    assert(before.values.drop_last() =~= base.values);
    let last = before.unary(operator);
    if operator.kind == TokenKind::Minus && operand is Number {
        let request = RequestView::Negate(operand->Number_0);
        assert(base.tasks.push(TaskView::Await(request, Answer::Value)).drop_last() =~= base.tasks);
    }
}

/// The step that applies an operator to the two values on top gives the
/// value of the operator.
proof fn binary_is_applied(
    host: Host,
    base: Machine,
    operator: TokenView,
    left: LiteralValue,
    right: LiteralValue,
)
    ensures
        ({
            let machine = Machine {
                tasks: base.tasks.push(TaskView::Binary(operator)),
                values: base.values.push(right).push(left),
                scopes: base.scopes,
            };
            let last = machine.step();
            (Run { machine: answered(last, host), log: told(last.action) }) == after_evaluation(
                base,
                Evaluated { outcome: binary_value(host, operator, left, right), scopes: base.scopes },
            )
        }),
{
    let before = Machine { values: base.values.push(right).push(left), ..base };
    step_performs(before, TaskView::Binary(operator));
    assert(before.values.drop_last() =~= base.values.push(right));
    assert(base.values.push(right).drop_last() =~= base.values);
    let kind = operator.kind;
    if left is Number && right is Number {
        let l = left->Number_0;
        let r = right->Number_0;
        let asked = RequestView::Binary(kind, l, r);
        let compared = RequestView::Binary(TokenKind::EqualEqual, l, r);
        assert(base.tasks.push(TaskView::Await(asked, Answer::Value)).drop_last() =~= base.tasks);
        assert(base.tasks.push(TaskView::Await(asked, Answer::Truth)).drop_last() =~= base.tasks);
        assert(base.tasks.push(TaskView::Await(compared, Answer::Truth)).drop_last() =~= base.tasks);
        assert(base.tasks.push(TaskView::Await(compared, Answer::Negation)).drop_last() =~= base.tasks);
    }
}

/// The evaluation of a unary expression, given that of its operand.
proof fn unary_case(host: Host, base: Machine, operator: TokenView, right: ExprView)
    requires
        driven(
            with_task(with_task(base, TaskView::Unary(operator)), TaskView::Evaluate(right)),
            host,
            steps(host, base.scopes, right),
        ) == after_evaluation(
            with_task(base, TaskView::Unary(operator)),
            evaluated(host, base.scopes, right),
        ),
    ensures
        ({
            let expr = ExprView::Unary { operator, right: Box::new(right) };
            driven(with_task(base, TaskView::Evaluate(expr)), host, steps(host, base.scopes, expr))
                == after_evaluation(base, evaluated(host, base.scopes, expr))
        }),
{
    let expr = ExprView::Unary { operator, right: Box::new(right) };
    let start = with_task(base, TaskView::Evaluate(expr));
    let waiting = with_task(base, TaskView::Unary(operator));
    let next = with_task(waiting, TaskView::Evaluate(right));
    let count = steps(host, base.scopes, right);
    let operand = evaluated(host, base.scopes, right);
    step_performs(base, TaskView::Evaluate(expr));
    match operand.outcome {
        Ok(v) => {
            driven_after_silent_step(start, host, next, count + 1);
            driven_then_once(next, host, count);
            unary_is_applied(host, Machine { scopes: operand.scopes, ..base }, operator, v);
            assert(Seq::<ActionView>::empty() + told(
                driven(next, host, count).machine.step().action,
            ) =~= told(driven(next, host, count).machine.step().action));
        },
        Err(_) => {
            driven_after_silent_step(start, host, next, count);
            unwound_past(operand.scopes, base.tasks, TaskView::Unary(operator));
        },
    }
}

/// The evaluation of an expression with two operands, given those of its operands.
proof fn binary_case(
    host: Host,
    base: Machine,
    left: ExprView,
    operator: TokenView,
    right: ExprView,
)
    requires
        driven(
            with_task(
                with_task(with_task(base, TaskView::Binary(operator)), TaskView::Evaluate(left)),
                TaskView::Evaluate(right),
            ),
            host,
            steps(host, base.scopes, right),
        ) == after_evaluation(
            with_task(with_task(base, TaskView::Binary(operator)), TaskView::Evaluate(left)),
            evaluated(host, base.scopes, right),
        ),
        evaluated(host, base.scopes, right).outcome matches Ok(r) ==> ({
            let between = Machine {
                tasks: base.tasks.push(TaskView::Binary(operator)),
                values: base.values.push(r),
                scopes: evaluated(host, base.scopes, right).scopes,
            };
            driven(
                with_task(between, TaskView::Evaluate(left)),
                host,
                steps(host, between.scopes, left),
            ) == after_evaluation(between, evaluated(host, between.scopes, left))
        }),
    ensures
        ({
            let expr = ExprView::Binary { left: Box::new(left), operator, right: Box::new(right) };
            driven(with_task(base, TaskView::Evaluate(expr)), host, steps(host, base.scopes, expr))
                == after_evaluation(base, evaluated(host, base.scopes, expr))
        }),
{
    let expr = ExprView::Binary { left: Box::new(left), operator, right: Box::new(right) };
    let start = with_task(base, TaskView::Evaluate(expr));
    let waiting = with_task(base, TaskView::Binary(operator));
    let pending = with_task(waiting, TaskView::Evaluate(left));
    let next = with_task(pending, TaskView::Evaluate(right));
    let count = steps(host, base.scopes, right);
    let second = evaluated(host, base.scopes, right);
    step_performs(base, TaskView::Evaluate(expr));
    match second.outcome {
        Ok(r) => {
            let between = Machine {
                tasks: waiting.tasks,
                values: base.values.push(r),
                scopes: second.scopes,
            };
            let more = steps(host, second.scopes, left);
            let first = evaluated(host, second.scopes, left);
            assert(driven(next, host, count).machine == with_task(between, TaskView::Evaluate(left)));
            match first.outcome {
                Ok(l) => {
                    driven_after_silent_step(start, host, next, count + more + 1);
                    driven_in_two(next, host, count, more + 1);
                    driven_then_once(with_task(between, TaskView::Evaluate(left)), host, more);
                    binary_is_applied(
                        host,
                        Machine { scopes: first.scopes, ..base },
                        operator,
                        l,
                        r,
                    );
                    let reached = driven(with_task(between, TaskView::Evaluate(left)), host, more);
                    assert(Seq::<ActionView>::empty() + told(reached.machine.step().action)
                        =~= told(reached.machine.step().action));
                    assert(Seq::<ActionView>::empty() + told(reached.machine.step().action)
                        =~= Seq::<ActionView>::empty() + (Seq::<ActionView>::empty() + told(
                        reached.machine.step().action,
                    )));
                },
                Err(f) => {
                    driven_after_silent_step(start, host, next, count + more);
                    driven_in_two(next, host, count, more);
                    unwound_past(first.scopes, base.tasks, TaskView::Binary(operator));
                    assert(Seq::<ActionView>::empty() + seq![
                        ActionView::Failed(ExitView::RuntimeError(f)),
                    ] =~= seq![ActionView::Failed(ExitView::RuntimeError(f))]);
                },
            }
        },
        Err(_) => {
            driven_after_silent_step(start, host, next, count);
            unwound_past(second.scopes, waiting.tasks, TaskView::Evaluate(left));
            unwound_past(second.scopes, base.tasks, TaskView::Binary(operator));
        },
    }
}

/// The evaluation of `and` and `or`, given those of their operands.
proof fn logical_case(
    host: Host,
    base: Machine,
    left: ExprView,
    operator: TokenView,
    right: ExprView,
)
    requires
        driven(
            with_task(with_task(base, TaskView::Logical(operator, right)), TaskView::Evaluate(left)),
            host,
            steps(host, base.scopes, left),
        ) == after_evaluation(
            with_task(base, TaskView::Logical(operator, right)),
            evaluated(host, base.scopes, left),
        ),
        evaluated(host, base.scopes, left).outcome is Ok ==> ({
            let between = Machine { scopes: evaluated(host, base.scopes, left).scopes, ..base };
            driven(
                with_task(between, TaskView::Evaluate(right)),
                host,
                steps(host, between.scopes, right),
            ) == after_evaluation(between, evaluated(host, between.scopes, right))
        }),
    ensures
        ({
            let expr = ExprView::Logical { left: Box::new(left), operator, right: Box::new(right) };
            driven(with_task(base, TaskView::Evaluate(expr)), host, steps(host, base.scopes, expr))
                == after_evaluation(base, evaluated(host, base.scopes, expr))
        }),
{
    let expr = ExprView::Logical { left: Box::new(left), operator, right: Box::new(right) };
    let start = with_task(base, TaskView::Evaluate(expr));
    let waiting = with_task(base, TaskView::Logical(operator, right));
    let next = with_task(waiting, TaskView::Evaluate(left));
    let count = steps(host, base.scopes, left);
    let first = evaluated(host, base.scopes, left);
    step_performs(base, TaskView::Evaluate(expr));
    match first.outcome {
        Ok(l) => {
            let reached = Machine {
                tasks: waiting.tasks,
                values: base.values.push(l),
                scopes: first.scopes,
            };
            let between = Machine { scopes: first.scopes, ..base };
            assert(driven(next, host, count).machine == reached);
            step_performs(
                Machine { values: base.values.push(l), scopes: first.scopes, ..base },
                TaskView::Logical(operator, right),
            );
            assert(base.values.push(l).drop_last() =~= base.values);
            if truthy(l) == (operator.kind == TokenKind::Or) {
                driven_after_silent_step(start, host, next, count + 1);
                driven_then_once(next, host, count);
                assert(Seq::<ActionView>::empty() + told(ActionView::Continue) =~= Seq::<
                    ActionView,
                >::empty());
            } else {
                let more = steps(host, first.scopes, right);
                driven_after_silent_step(start, host, next, count + (1 + more));
                driven_in_two(next, host, count, 1 + more);
                driven_after_silent_step(
                    reached,
                    host,
                    with_task(between, TaskView::Evaluate(right)),
                    more,
                );
                let tail = driven(with_task(between, TaskView::Evaluate(right)), host, more);
                assert(Seq::<ActionView>::empty() + tail.log =~= tail.log);
            }
        },
        Err(_) => {
            driven_after_silent_step(start, host, next, count);
            unwound_past(first.scopes, base.tasks, TaskView::Logical(operator, right));
        },
    }
}

/// The evaluation of an assignment, given that of its value.
proof fn assignment_case(host: Host, base: Machine, name: TokenView, given: ExprView)
    requires
        driven(
            with_task(with_task(base, TaskView::Assign(name)), TaskView::Evaluate(given)),
            host,
            steps(host, base.scopes, given),
        ) == after_evaluation(
            with_task(base, TaskView::Assign(name)),
            evaluated(host, base.scopes, given),
        ),
    ensures
        ({
            let expr = ExprView::Assignment { name, value: Box::new(given) };
            driven(with_task(base, TaskView::Evaluate(expr)), host, steps(host, base.scopes, expr))
                == after_evaluation(base, evaluated(host, base.scopes, expr))
        }),
{
    let expr = ExprView::Assignment { name, value: Box::new(given) };
    let start = with_task(base, TaskView::Evaluate(expr));
    let waiting = with_task(base, TaskView::Assign(name));
    let next = with_task(waiting, TaskView::Evaluate(given));
    let count = steps(host, base.scopes, given);
    let result = evaluated(host, base.scopes, given);
    step_performs(base, TaskView::Evaluate(expr));
    match result.outcome {
        Ok(v) => {
            driven_after_silent_step(start, host, next, count + 1);
            driven_then_once(next, host, count);
            step_performs(
                Machine { values: base.values.push(v), scopes: result.scopes, ..base },
                TaskView::Assign(name),
            );
            assert(base.values.push(v).drop_last() =~= base.values);
            let last = driven(next, host, count).machine.step();
            assert(Seq::<ActionView>::empty() + told(last.action) =~= told(last.action));
        },
        Err(_) => {
            driven_after_silent_step(start, host, next, count);
            unwound_past(result.scopes, base.tasks, TaskView::Assign(name));
        },
    }
}

/// The interpreter evaluates expressions as `evaluated` says: a machine
/// whose next task is to evaluate `expr` has, after `steps` steps answered
/// by the host, pushed the value of `expr` and changed the scopes as the
/// evaluation does, and changed nothing else; or it has ended with the
/// fault of the evaluation.
pub proof fn machine_evaluates(host: Host, base: Machine, expr: ExprView)
    ensures
        driven(with_task(base, TaskView::Evaluate(expr)), host, steps(host, base.scopes, expr))
            == after_evaluation(base, evaluated(host, base.scopes, expr)),
    decreases expr,
{
    let start = with_task(base, TaskView::Evaluate(expr));
    step_performs(base, TaskView::Evaluate(expr));
    match expr {
        ExprView::Grouping { expr: inner } => {
            machine_evaluates(host, base, *inner);
            driven_after_silent_step(
                start,
                host,
                with_task(base, TaskView::Evaluate(*inner)),
                steps(host, base.scopes, *inner),
            );
        },
        ExprView::Unary { operator, right } => {
            machine_evaluates(host, with_task(base, TaskView::Unary(operator)), *right);
            unary_case(host, base, operator, *right);
        },
        ExprView::Binary { left, operator, right } => {
            let waiting = with_task(base, TaskView::Binary(operator));
            machine_evaluates(host, with_task(waiting, TaskView::Evaluate(*left)), *right);
            let second = evaluated(host, base.scopes, *right);
            if second.outcome is Ok {
                let between = Machine {
                    tasks: waiting.tasks,
                    values: base.values.push(second.outcome->Ok_0),
                    scopes: second.scopes,
                };
                machine_evaluates(host, between, *left);
            }
            binary_case(host, base, *left, operator, *right);
        },
        ExprView::Logical { left, operator, right } => {
            machine_evaluates(host, with_task(base, TaskView::Logical(operator, *right)), *left);
            let first = evaluated(host, base.scopes, *left);
            if first.outcome is Ok {
                machine_evaluates(host, Machine { scopes: first.scopes, ..base }, *right);
            }
            logical_case(host, base, *left, operator, *right);
        },
        ExprView::Assignment { name, value } => {
            machine_evaluates(host, with_task(base, TaskView::Assign(name)), *value);
            assignment_case(host, base, name, *value);
        },
        ExprView::Literal { value } => {
            driven_once(start, host);
            if value is Number {
                let request = RequestView::Literal(value->Number_0);
                assert(base.tasks.push(TaskView::Await(request, Answer::Value)).drop_last() =~= base.tasks);
            }
        },
        _ => {
            driven_once(start, host);
        },
    }
}

/// The interpreter hands out the value of an expression as text: a machine
/// that is to evaluate `expr` and show its value has, after the steps of the
/// evaluation and one more, handed the text of the value to the host, and
/// changed nothing but the scopes, as the evaluation does; or it has ended
/// with the fault of the evaluation.
pub proof fn machine_shows(host: Host, base: Machine, expr: ExprView)
    ensures
        ({
            let start = with_task(with_task(base, TaskView::Show), TaskView::Evaluate(expr));
            let result = evaluated(host, base.scopes, expr);
            match result.outcome {
                Ok(v) => driven(start, host, steps(host, base.scopes, expr) + 1) == (Run {
                    machine: Machine { scopes: result.scopes, ..base },
                    log: seq![ActionView::Value(stringified(v))],
                }),
                Err(f) => driven(start, host, steps(host, base.scopes, expr)) == after_evaluation(
                    base,
                    result,
                ),
            }
        }),
{
    let waiting = with_task(base, TaskView::Show);
    let start = with_task(waiting, TaskView::Evaluate(expr));
    let count = steps(host, base.scopes, expr);
    let result = evaluated(host, base.scopes, expr);
    machine_evaluates(host, waiting, expr);
    match result.outcome {
        Ok(v) => {
            driven_then_once(start, host, count);
            step_performs(
                Machine { values: base.values.push(v), scopes: result.scopes, ..base },
                TaskView::Show,
            );
            assert(base.values.push(v).drop_last() =~= base.values);
            assert(Seq::<ActionView>::empty() + seq![ActionView::Value(stringified(v))] =~= seq![
                ActionView::Value(stringified(v)),
            ]);
        },
        Err(_) => {
            unwound_past(result.scopes, base.tasks, TaskView::Show);
        },
    }
}

/// Parentheses do not change what an expression evaluates to.
pub proof fn grouping_is_transparent(host: Host, scopes: Seq<Scope>, inner: ExprView)
    ensures
        evaluated(host, scopes, ExprView::Grouping { expr: Box::new(inner) }) == evaluated(
            host,
            scopes,
            inner,
        ),
{
}

/// Negating a value twice gives whether it counts as true: `!!x` evaluates,
/// for every literal `x` that is no number, to the boolean `truthy(x)`.
pub proof fn double_negation_of_a_literal(
    host: Host,
    scopes: Seq<Scope>,
    outer: TokenView,
    inner: TokenView,
    x: LiteralValue,
)
    requires
        outer.kind == TokenKind::Bang,
        inner.kind == TokenKind::Bang,
        !(x is Number),
    ensures
        evaluated(
            host,
            scopes,
            ExprView::Unary {
                operator: outer,
                right: Box::new(
                    ExprView::Unary {
                        operator: inner,
                        right: Box::new(ExprView::Literal { value: x }),
                    },
                ),
            },
        ) == value(LiteralValue::Bool(truthy(x)), scopes),
{
    reveal_with_fuel(evaluated, 3);
}

/// `a == b` holds if and only if `a != b` does not: for all operands `a`
/// and `b` and every host, `a == b` and `!(a != b)` evaluate to the same,
/// values, faults and scopes alike.
pub proof fn equality_is_not_inequality(
    host: Host,
    scopes: Seq<Scope>,
    a: ExprView,
    b: ExprView,
    equals: TokenView,
    differs: TokenView,
    not: TokenView,
)
    requires
        equals.kind == TokenKind::EqualEqual,
        differs.kind == TokenKind::BangEqual,
        not.kind == TokenKind::Bang,
    ensures
        evaluated(
            host,
            scopes,
            ExprView::Binary { left: Box::new(a), operator: equals, right: Box::new(b) },
        ) == evaluated(
            host,
            scopes,
            ExprView::Unary {
                operator: not,
                right: Box::new(
                    ExprView::Grouping {
                        expr: Box::new(
                            ExprView::Binary {
                                left: Box::new(a),
                                operator: differs,
                                right: Box::new(b),
                            },
                        ),
                    },
                ),
            },
        ),
{
    reveal_with_fuel(evaluated, 3);
}

/// Equality and inequality never fail, and give opposite booleans: where
/// the operands `a` and `b` evaluate to values, of whatever kinds, `a == b`
/// evaluates to a boolean and `a != b` to the other one, and both leave the
/// scopes as the evaluation of the operands does.
pub proof fn equality_and_inequality_are_opposite(
    host: Host,
    scopes: Seq<Scope>,
    a: ExprView,
    b: ExprView,
    equals: TokenView,
    differs: TokenView,
)
    requires
        equals.kind == TokenKind::EqualEqual,
        differs.kind == TokenKind::BangEqual,
        evaluated(host, scopes, b).outcome is Ok,
        evaluated(host, evaluated(host, scopes, b).scopes, a).outcome is Ok,
    ensures
        ({
            let right = evaluated(host, scopes, b);
            let left = evaluated(host, right.scopes, a);
            let same = same_values(host, left.outcome->Ok_0, right.outcome->Ok_0);
            &&& evaluated(
                host,
                scopes,
                ExprView::Binary { left: Box::new(a), operator: equals, right: Box::new(b) },
            ) == value(LiteralValue::Bool(same), left.scopes)
            &&& evaluated(
                host,
                scopes,
                ExprView::Binary { left: Box::new(a), operator: differs, right: Box::new(b) },
            ) == value(LiteralValue::Bool(!same), left.scopes)
        }),
{
    reveal_with_fuel(evaluated, 2);
}

/// The steps of equality and inequality never fail, and push opposite
/// booleans: applied to the same two operands on top of the values, of
/// whatever kinds, `==` pushes a boolean in their place and `!=` the other
/// one, once the host has answered where two numbers are compared.
pub proof fn equality_steps_are_opposite(
    host: Host,
    machine: Machine,
    equals: TokenView,
    differs: TokenView,
)
    requires
        equals.kind == TokenKind::EqualEqual,
        differs.kind == TokenKind::BangEqual,
    ensures
        ({
            let same = same_values(host, top(machine.values), top(popped(machine.values)));
            let rest = popped(popped(machine.values));
            &&& !(machine.binary(equals).action is Failed)
            &&& !(machine.binary(differs).action is Failed)
            &&& answered(machine.binary(equals), host) == Machine {
                values: rest.push(LiteralValue::Bool(same)),
                ..machine
            }
            &&& answered(machine.binary(differs), host) == Machine {
                values: rest.push(LiteralValue::Bool(!same)),
                ..machine
            }
        }),
{
    let left = top(machine.values);
    let right = top(popped(machine.values));
    if left is Number && right is Number {
        let compared = RequestView::Binary(
            TokenKind::EqualEqual,
            left->Number_0,
            right->Number_0,
        );
        assert(machine.tasks.push(TaskView::Await(compared, Answer::Truth)).drop_last()
            =~= machine.tasks);
        assert(machine.tasks.push(TaskView::Await(compared, Answer::Negation)).drop_last()
            =~= machine.tasks);
    }
}

} // verus!
