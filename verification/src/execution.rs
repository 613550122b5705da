//! What statements do when they are executed, and that the interpreter executes them so.

use vstd::prelude::*;

use crate::environment::{assigned, defined, lookup, Scope};
use crate::expr::ExprView;
use crate::interpreter::{
    left, scheduled, stringified, truthy, unwound, ActionView, ExitView, FaultView, Machine,
    TaskView,
};
use crate::evaluation::{
    driven, driven_after_silent_step, driven_in_two, driven_once, driven_then_once, evaluated,
    machine_evaluates, step_performs, steps, told, unwound_past, with_task, Host, Run,
};
use crate::stmt::StmtView;
use crate::token::{LiteralValue, TokenView};

verus! {

/// What the execution of statements gives: the fault that ended it, if one
/// did, the scopes as it left them, and the lines that it printed.
pub ghost struct Executed {
    pub fault: Option<FaultView>,
    pub scopes: Seq<Scope>,
    pub printed: Seq<Seq<char>>,
}

/// An execution that ended without a fault and printed nothing.
pub open spec fn finished(scopes: Seq<Scope>) -> Executed {
    Executed { fault: None, scopes, printed: Seq::empty() }
}

/// An execution that ended with a fault and printed nothing.
pub open spec fn failed(fault: FaultView, scopes: Seq<Scope>) -> Executed {
    Executed { fault: Some(fault), scopes, printed: Seq::empty() }
}

/// `first`, followed by `second` if `first` ended without a fault.
pub open spec fn followed(first: Executed, second: Option<Executed>) -> Option<Executed> {
    match second {
        Some(rest) => Some(
            Executed {
                fault: rest.fault,
                scopes: rest.scopes,
                printed: first.printed + rest.printed,
            },
        ),
        None => None,
    }
}

/// What the execution of `stmt` in `scopes` gives, with `host` doing the
/// arithmetic, or nothing if a loop goes round more than `fuel` times.
///
/// An expression statement evaluates its expression, `print` prints the
/// value of its expression, and a declaration binds the value of its
/// initializer in the innermost scope. A block executes its statements in a
/// scope of its own, which it leaves at its end and when a statement fails.
/// `if` executes the branch that its condition chooses. `while` evaluates
/// its condition and executes its body for as long as the condition holds.
/// The first fault ends the execution.
pub open spec fn executed(host: Host, scopes: Seq<Scope>, stmt: StmtView, fuel: nat) -> Option<
    Executed,
>
    decreases fuel, stmt, 0nat,
{
    match stmt {
        StmtView::Expression { expression } => {
            let result = evaluated(host, scopes, expression);
            match result.outcome {
                Ok(_) => Some(finished(result.scopes)),
                Err(f) => Some(failed(f, result.scopes)),
            }
        },
        StmtView::Print { expression } => {
            let result = evaluated(host, scopes, expression);
            match result.outcome {
                Ok(v) => Some(
                    Executed { fault: None, scopes: result.scopes, printed: seq![stringified(v)] },
                ),
                Err(f) => Some(failed(f, result.scopes)),
            }
        },
        StmtView::Var { name, initializer } => {
            let result = evaluated(host, scopes, initializer);
            match result.outcome {
                Ok(v) => Some(finished(defined(result.scopes, name.lexeme, v))),
                Err(f) => Some(failed(f, result.scopes)),
            }
        },
        StmtView::Block { statements } => match executed_all(
            host,
            seq![Map::<Seq<char>, LiteralValue>::empty()] + scopes,
            statements,
            fuel,
        ) {
            Some(inner) => Some(Executed { scopes: left(inner.scopes), ..inner }),
            None => None,
        },
        StmtView::If { condition, then_branch, else_branch } => {
            let result = evaluated(host, scopes, condition);
            match result.outcome {
                Ok(v) => if truthy(v) {
                    executed(host, result.scopes, *then_branch, fuel)
                } else {
                    match else_branch {
                        Some(branch) => executed(host, result.scopes, *branch, fuel),
                        None => Some(finished(result.scopes)),
                    }
                },
                Err(f) => Some(failed(f, result.scopes)),
            }
        },
        StmtView::While { condition, body } => looped(host, scopes, condition, *body, fuel),
        StmtView::Function { name } => Some(
            failed(
                FaultView { line: name.line, message: "Functions are not implemented."@ },
                scopes,
            ),
        ),
        StmtView::Return { keyword } => Some(
            failed(
                FaultView { line: keyword.line, message: "Return is not implemented."@ },
                scopes,
            ),
        ),
        StmtView::Class { name } => Some(
            failed(FaultView { line: name.line, message: "Classes are not implemented."@ }, scopes),
        ),
    }
}

/// What the execution of a loop gives, from the evaluation of its condition on.
pub open spec fn looped(
    host: Host,
    scopes: Seq<Scope>,
    condition: ExprView,
    body: StmtView,
    fuel: nat,
) -> Option<Executed>
    decreases fuel, body, 1nat,
{
    let result = evaluated(host, scopes, condition);
    match result.outcome {
        Ok(v) => if !truthy(v) {
            Some(finished(result.scopes))
        } else if fuel == 0 {
            None
        } else {
            match executed(host, result.scopes, body, fuel) {
                Some(once) => if once.fault is Some {
                    Some(once)
                } else {
                    followed(once, looped(host, once.scopes, condition, body, (fuel - 1) as nat))
                },
                None => None,
            }
        },
        Err(f) => Some(failed(f, result.scopes)),
    }
}

/// What the execution of `statements` in order gives.
pub open spec fn executed_all(
    host: Host,
    scopes: Seq<Scope>,
    statements: Seq<StmtView>,
    fuel: nat,
) -> Option<Executed>
    decreases fuel, statements, 0nat,
{
    if statements.len() == 0 {
        Some(finished(scopes))
    } else {
        match executed(host, scopes, statements[0], fuel) {
            Some(first) => if first.fault is Some {
                Some(first)
            } else {
                followed(first, executed_all(host, first.scopes, statements.drop_first(), fuel))
            },
            None => None,
        }
    }
}

/// One if the evaluation ended without a fault, zero if not.
pub open spec fn one_more(outcome: Result<LiteralValue, FaultView>) -> nat {
    if outcome is Ok {
        1
    } else {
        0
    }
}

/// The number of steps that the execution of `stmt` takes.
pub open spec fn execution_steps(host: Host, scopes: Seq<Scope>, stmt: StmtView, fuel: nat) -> nat
    decreases fuel, stmt, 0nat,
{
    match stmt {
        StmtView::Expression { expression } => 1 + steps(host, scopes, expression) + one_more(
            evaluated(host, scopes, expression).outcome,
        ),
        StmtView::Print { expression } => 1 + steps(host, scopes, expression) + one_more(
            evaluated(host, scopes, expression).outcome,
        ),
        StmtView::Var { name, initializer } => 1 + steps(host, scopes, initializer) + one_more(
            evaluated(host, scopes, initializer).outcome,
        ),
        StmtView::Block { statements } => {
            let inside = seq![Map::<Seq<char>, LiteralValue>::empty()] + scopes;
            1 + all_steps(host, inside, statements, fuel) + match executed_all(
                host,
                inside,
                statements,
                fuel,
            ) {
                Some(inner) => if inner.fault is None {
                    1nat
                } else {
                    0nat
                },
                None => 0nat,
            }
        },
        StmtView::If { condition, then_branch, else_branch } => {
            let result = evaluated(host, scopes, condition);
            1 + steps(host, scopes, condition) + match result.outcome {
                Ok(v) => 1 + if truthy(v) {
                    execution_steps(host, result.scopes, *then_branch, fuel)
                } else {
                    match else_branch {
                        Some(branch) => execution_steps(host, result.scopes, *branch, fuel),
                        None => 0nat,
                    }
                },
                Err(_) => 0nat,
            }
        },
        StmtView::While { condition, body } => 1 + loop_steps(
            host,
            scopes,
            condition,
            *body,
            fuel,
        ),
        _ => 1,
    }
}

/// The number of steps that the execution of a loop takes, from the
/// evaluation of its condition on.
pub open spec fn loop_steps(
    host: Host,
    scopes: Seq<Scope>,
    condition: ExprView,
    body: StmtView,
    fuel: nat,
) -> nat
    decreases fuel, body, 1nat,
{
    let result = evaluated(host, scopes, condition);
    steps(host, scopes, condition) + match result.outcome {
        Ok(v) => 1 + if !truthy(v) || fuel == 0 {
            0nat
        } else {
            execution_steps(host, result.scopes, body, fuel) + match executed(
                host,
                result.scopes,
                body,
                fuel,
            ) {
                Some(once) => if once.fault is Some {
                    0nat
                } else {
                    loop_steps(host, once.scopes, condition, body, (fuel - 1) as nat)
                },
                None => 0nat,
            }
        },
        Err(_) => 0nat,
    }
}

/// The number of steps that the execution of `statements` in order takes.
pub open spec fn all_steps(
    host: Host,
    scopes: Seq<Scope>,
    statements: Seq<StmtView>,
    fuel: nat,
) -> nat
    decreases fuel, statements, 0nat,
{
    if statements.len() == 0 {
        0
    } else {
        execution_steps(host, scopes, statements[0], fuel) + match executed(
            host,
            scopes,
            statements[0],
            fuel,
        ) {
            Some(first) => if first.fault is Some {
                0nat
            } else {
                all_steps(host, first.scopes, statements.drop_first(), fuel)
            },
            None => 0nat,
        }
    }
}

/// The actions that have `lines` written, in order.
pub open spec fn prints(lines: Seq<Seq<char>>) -> Seq<ActionView> {
    lines.map_values(|line: Seq<char>| ActionView::Print(line))
}

/// What the machine `base` has become once statements on top of its tasks
/// have been executed with the result `result`: the host has been told to
/// write the lines that were printed, and the scopes are as the execution
/// left them; after a fault the fault has been handed to the host as well,
/// no work and no value is left, and every scope that was entered has been
/// left.
pub open spec fn after_execution(base: Machine, result: Executed) -> Run {
    match result.fault {
        None => Run {
            machine: Machine { tasks: base.tasks, values: base.values, scopes: result.scopes },
            log: prints(result.printed),
        },
        Some(f) => Run {
            machine: Machine {
                tasks: Seq::empty(),
                values: Seq::empty(),
                scopes: unwound(result.scopes, base.tasks),
            },
            log: prints(result.printed).push(ActionView::Failed(ExitView::RuntimeError(f))),
        },
    }
}

/// The actions for lines in a row are those for the first lines, followed
/// by those for the rest.
proof fn prints_joined(first: Seq<Seq<char>>, second: Seq<Seq<char>>)
    ensures
        prints(first + second) == prints(first) + prints(second),
        prints(Seq::empty()) == Seq::<ActionView>::empty(),
{
    assert(prints(first + second) =~= prints(first) + prints(second));
    assert(prints(Seq::empty()) =~= Seq::<ActionView>::empty());
}

/// The first of the statements that are scheduled is the next task.
proof fn scheduled_first(statements: Seq<StmtView>)
    requires
        statements.len() > 0,
    ensures
        scheduled(statements) == scheduled(statements.drop_first()).push(
            TaskView::Execute(statements[0]),
        ),
{
    assert(scheduled(statements) =~= scheduled(statements.drop_first()).push(
        TaskView::Execute(statements[0]),
    ));
}

/// Statements that are scheduled do not count in unwinding.
proof fn unwound_past_scheduled(
    scopes: Seq<Scope>,
    tasks: Seq<TaskView>,
    statements: Seq<StmtView>,
)
    ensures
        unwound(scopes, tasks + scheduled(statements)) == unwound(scopes, tasks),
    decreases statements.len(),
{
    if statements.len() == 0 {
        assert(tasks + scheduled(statements) =~= tasks);
    } else {
        let rest = statements.drop_first();
        scheduled_first(statements);
        assert(tasks + scheduled(statements) =~= (tasks + scheduled(rest)).push(
            TaskView::Execute(statements[0]),
        ));
        unwound_past(scopes, tasks + scheduled(rest), TaskView::Execute(statements[0]));
        unwound_past_scheduled(scopes, tasks, rest);
    }
}

/// The execution of a statement that evaluates one expression and then
/// performs `task` on its value, where `last` is the step of that task.
proof fn evaluating_case(
    host: Host,
    base: Machine,
    stmt: StmtView,
    expression: ExprView,
    task: TaskView,
    fuel: nat,
)
    requires
        !(task is ExitScope),
        !(task is Restore),
        base.execute(stmt) == base.go_on(base.tasks.push(task).push(TaskView::Evaluate(expression))),
        execution_steps(host, base.scopes, stmt, fuel) == 1 + steps(host, base.scopes, expression)
            + one_more(evaluated(host, base.scopes, expression).outcome),
        match evaluated(host, base.scopes, expression).outcome {
            Ok(v) => {
                let reached = Machine {
                    tasks: base.tasks.push(task),
                    values: base.values.push(v),
                    scopes: evaluated(host, base.scopes, expression).scopes,
                };
                &&& executed(host, base.scopes, stmt, fuel) matches Some(done)
                &&& done.fault is None
                &&& reached.step().machine == after_execution(base, done).machine
                &&& told(reached.step().action) == after_execution(base, done).log
                &&& !(reached.step().action is Compute)
            },
            Err(f) => executed(host, base.scopes, stmt, fuel) == Some(
                failed(f, evaluated(host, base.scopes, expression).scopes),
            ),
        },
    ensures
        driven(
            with_task(base, TaskView::Execute(stmt)),
            host,
            execution_steps(host, base.scopes, stmt, fuel),
        ) == after_execution(base, executed(host, base.scopes, stmt, fuel)->0),
{
    let start = with_task(base, TaskView::Execute(stmt));
    let waiting = with_task(base, task);
    let next = with_task(waiting, TaskView::Evaluate(expression));
    let count = steps(host, base.scopes, expression);
    let result = evaluated(host, base.scopes, expression);
    step_performs(base, TaskView::Execute(stmt));
    machine_evaluates(host, waiting, expression);
    prints_joined(Seq::empty(), Seq::empty());
    match result.outcome {
        Ok(v) => {
            driven_after_silent_step(start, host, next, count + 1);
            driven_then_once(next, host, count);
            let last = driven(next, host, count).machine.step();
            assert(Seq::<ActionView>::empty() + told(last.action) =~= told(last.action));
        },
        Err(f) => {
            driven_after_silent_step(start, host, next, count);
            unwound_past(result.scopes, base.tasks, task);
            assert(Seq::<ActionView>::empty().push(ActionView::Failed(ExitView::RuntimeError(f)))
                =~= seq![ActionView::Failed(ExitView::RuntimeError(f))]);
        },
    }
}

/// The execution of a block, given that of its statements.
proof fn block_case(host: Host, base: Machine, statements: Seq<StmtView>, fuel: nat)
    requires
        ({
            let inside = Machine {
                tasks: base.tasks.push(TaskView::ExitScope),
                values: base.values,
                scopes: seq![Map::<Seq<char>, LiteralValue>::empty()] + base.scopes,
            };
            &&& executed_all(host, inside.scopes, statements, fuel) is Some
            &&& driven(
                Machine { tasks: inside.tasks + scheduled(statements), ..inside },
                host,
                all_steps(host, inside.scopes, statements, fuel),
            ) == after_execution(inside, executed_all(host, inside.scopes, statements, fuel)->0)
        }),
    ensures
        ({
            let stmt = StmtView::Block { statements };
            driven(
                with_task(base, TaskView::Execute(stmt)),
                host,
                execution_steps(host, base.scopes, stmt, fuel),
            ) == after_execution(base, executed(host, base.scopes, stmt, fuel)->0)
        }),
{
    let stmt = StmtView::Block { statements };
    let start = with_task(base, TaskView::Execute(stmt));
    let inside = Machine {
        tasks: base.tasks.push(TaskView::ExitScope),
        values: base.values,
        scopes: seq![Map::<Seq<char>, LiteralValue>::empty()] + base.scopes,
    };
    let next = Machine { tasks: inside.tasks + scheduled(statements), ..inside };
    let count = all_steps(host, inside.scopes, statements, fuel);
    let inner = executed_all(host, inside.scopes, statements, fuel)->0;
    step_performs(base, TaskView::Execute(stmt));
    if inner.fault is None {
        driven_after_silent_step(start, host, next, count + 1);
        driven_then_once(next, host, count);
        step_performs(
            Machine { tasks: base.tasks, values: base.values, scopes: inner.scopes },
            TaskView::ExitScope,
        );
        assert(prints(inner.printed) + told(ActionView::Continue) =~= prints(inner.printed));
    } else {
        driven_after_silent_step(start, host, next, count);
        assert(inside.tasks.drop_last() =~= base.tasks);
    }
}

/// The execution of a conditional, given that of the branch that is taken.
proof fn if_case(
    host: Host,
    base: Machine,
    condition: ExprView,
    then_branch: StmtView,
    else_branch: Option<StmtView>,
    fuel: nat,
)
    requires
        ({
            let stmt = StmtView::If {
                condition,
                then_branch: Box::new(then_branch),
                else_branch: match else_branch {
                    Some(branch) => Some(Box::new(branch)),
                    None => None,
                },
            };
            executed(host, base.scopes, stmt, fuel) is Some
        }),
        evaluated(host, base.scopes, condition).outcome matches Ok(v) ==> ({
            let between = Machine { scopes: evaluated(host, base.scopes, condition).scopes, ..base };
            let taken = if truthy(v) {
                Some(then_branch)
            } else {
                else_branch
            };
            taken matches Some(branch) ==> driven(
                with_task(between, TaskView::Execute(branch)),
                host,
                execution_steps(host, between.scopes, branch, fuel),
            ) == after_execution(between, executed(host, between.scopes, branch, fuel)->0)
        }),
    ensures
        ({
            let stmt = StmtView::If {
                condition,
                then_branch: Box::new(then_branch),
                else_branch: match else_branch {
                    Some(branch) => Some(Box::new(branch)),
                    None => None,
                },
            };
            driven(
                with_task(base, TaskView::Execute(stmt)),
                host,
                execution_steps(host, base.scopes, stmt, fuel),
            ) == after_execution(base, executed(host, base.scopes, stmt, fuel)->0)
        }),
{
    let stmt = StmtView::If {
        condition,
        then_branch: Box::new(then_branch),
        else_branch: match else_branch {
            Some(branch) => Some(Box::new(branch)),
            None => None,
        },
    };
    let start = with_task(base, TaskView::Execute(stmt));
    let deciding = TaskView::Branch(then_branch, else_branch);
    let waiting = with_task(base, deciding);
    let next = with_task(waiting, TaskView::Evaluate(condition));
    let count = steps(host, base.scopes, condition);
    let result = evaluated(host, base.scopes, condition);
    step_performs(base, TaskView::Execute(stmt));
    machine_evaluates(host, waiting, condition);
    prints_joined(Seq::empty(), Seq::empty());
    match result.outcome {
        Ok(v) => {
            let between = Machine { scopes: result.scopes, ..base };
            let reached = Machine {
                tasks: waiting.tasks,
                values: base.values.push(v),
                scopes: result.scopes,
            };
            step_performs(
                Machine { values: base.values.push(v), scopes: result.scopes, ..base },
                deciding,
            );
            assert(base.values.push(v).drop_last() =~= base.values);
            let taken = if truthy(v) {
                Some(then_branch)
            } else {
                else_branch
            };
            match taken {
                Some(branch) => {
                    let more = execution_steps(host, between.scopes, branch, fuel);
                    let tail = driven(with_task(between, TaskView::Execute(branch)), host, more);
                    driven_after_silent_step(start, host, next, count + (1 + more));
                    driven_in_two(next, host, count, 1 + more);
                    driven_after_silent_step(
                        reached,
                        host,
                        with_task(between, TaskView::Execute(branch)),
                        more,
                    );
                    assert(Seq::<ActionView>::empty() + tail.log =~= tail.log);
                    unwound_same_tasks(between, base);
                },
                None => {
                    driven_after_silent_step(start, host, next, count + 1);
                    driven_then_once(next, host, count);
                    assert(Seq::<ActionView>::empty() + told(ActionView::Continue) =~= Seq::<
                        ActionView,
                    >::empty());
                },
            }
        },
        Err(f) => {
            driven_after_silent_step(start, host, next, count);
            unwound_past(result.scopes, base.tasks, deciding);
            assert(Seq::<ActionView>::empty().push(ActionView::Failed(ExitView::RuntimeError(f)))
                =~= seq![ActionView::Failed(ExitView::RuntimeError(f))]);
        },
    }
}

/// What a machine has become after an execution depends on its tasks and
/// its values only.
proof fn unwound_same_tasks(first: Machine, second: Machine)
    requires
        first.tasks == second.tasks,
        first.values == second.values,
    ensures
        forall|result: Executed| after_execution(first, result) == after_execution(second, result),
{
}

/// The interpreter executes a loop as `looped` says, from the evaluation of
/// the condition on.
proof fn machine_loops(
    host: Host,
    base: Machine,
    condition: ExprView,
    body: StmtView,
    fuel: nat,
)
    requires
        looped(host, base.scopes, condition, body, fuel) is Some,
    ensures
        driven(
            with_task(
                with_task(base, TaskView::Loop(condition, body)),
                TaskView::Evaluate(condition),
            ),
            host,
            loop_steps(host, base.scopes, condition, body, fuel),
        ) == after_execution(base, looped(host, base.scopes, condition, body, fuel)->0),
    decreases fuel, body, 1nat,
{
    let repeating = TaskView::Loop(condition, body);
    let waiting = with_task(base, repeating);
    let start = with_task(waiting, TaskView::Evaluate(condition));
    let count = steps(host, base.scopes, condition);
    let result = evaluated(host, base.scopes, condition);
    machine_evaluates(host, waiting, condition);
    prints_joined(Seq::empty(), Seq::empty());
    match result.outcome {
        Ok(v) => {
            let reached = Machine {
                tasks: waiting.tasks,
                values: base.values.push(v),
                scopes: result.scopes,
            };
            step_performs(
                Machine { values: base.values.push(v), scopes: result.scopes, ..base },
                repeating,
            );
            assert(base.values.push(v).drop_last() =~= base.values);
            if !truthy(v) {
                driven_then_once(start, host, count);
                assert(Seq::<ActionView>::empty() + told(ActionView::Continue) =~= Seq::<
                    ActionView,
                >::empty());
            } else {
                let inner = Machine { tasks: start.tasks, values: base.values, scopes: result.scopes };
                let entered = with_task(inner, TaskView::Execute(body));
                let more = execution_steps(host, result.scopes, body, fuel);
                let once = executed(host, result.scopes, body, fuel)->0;
                machine_executes(host, inner, body, fuel);
                driven_after_silent_step(reached, host, entered, more);
                if once.fault is Some {
                    driven_in_two(start, host, count, 1 + more);
                    unwound_past(once.scopes, waiting.tasks, TaskView::Evaluate(condition));
                    unwound_past(once.scopes, base.tasks, repeating);
                    let tail = driven(entered, host, more);
                    assert(Seq::<ActionView>::empty() + tail.log =~= tail.log);
                } else {
                    let again = Machine { scopes: once.scopes, ..base };
                    let rest = loop_steps(host, once.scopes, condition, body, (fuel - 1) as nat);
                    let after = looped(host, once.scopes, condition, body, (fuel - 1) as nat)->0;
                    machine_loops(host, again, condition, body, (fuel - 1) as nat);
                    driven_in_two(reached, host, 1 + more, rest);
                    driven_in_two(start, host, count, 1 + more + rest);
                    prints_joined(once.printed, after.printed);
                    let tail = driven(reached, host, 1 + more + rest);
                    assert(Seq::<ActionView>::empty() + tail.log =~= tail.log);
                    if after.fault is Some {
                        let f = after.fault->0;
                        assert(prints(once.printed) + prints(after.printed).push(
                            ActionView::Failed(ExitView::RuntimeError(f)),
                        ) =~= (prints(once.printed) + prints(after.printed)).push(
                            ActionView::Failed(ExitView::RuntimeError(f)),
                        ));
                    }
                }
            }
        },
        Err(f) => {
            unwound_past(result.scopes, base.tasks, repeating);
            assert(Seq::<ActionView>::empty().push(ActionView::Failed(ExitView::RuntimeError(f)))
                =~= seq![ActionView::Failed(ExitView::RuntimeError(f))]);
        },
    }
}

/// The interpreter executes statements in a row as `executed_all` says.
pub proof fn machine_executes_all(
    host: Host,
    base: Machine,
    statements: Seq<StmtView>,
    fuel: nat,
)
    requires
        executed_all(host, base.scopes, statements, fuel) is Some,
    ensures
        driven(
            Machine { tasks: base.tasks + scheduled(statements), ..base },
            host,
            all_steps(host, base.scopes, statements, fuel),
        ) == after_execution(base, executed_all(host, base.scopes, statements, fuel)->0),
    decreases fuel, statements, 0nat,
{
    let start = Machine { tasks: base.tasks + scheduled(statements), ..base };
    prints_joined(Seq::empty(), Seq::empty());
    if statements.len() == 0 {
        assert(base.tasks + scheduled(statements) =~= base.tasks);
    } else {
        let rest = statements.drop_first();
        let pending = Machine { tasks: base.tasks + scheduled(rest), ..base };
        scheduled_first(statements);
        assert(start.tasks =~= pending.tasks.push(TaskView::Execute(statements[0])));
        let count = execution_steps(host, base.scopes, statements[0], fuel);
        let first = executed(host, base.scopes, statements[0], fuel)->0;
        machine_executes(host, pending, statements[0], fuel);
        if first.fault is Some {
            unwound_past_scheduled(first.scopes, base.tasks, rest);
        } else {
            let more = all_steps(host, first.scopes, rest, fuel);
            let after = executed_all(host, first.scopes, rest, fuel)->0;
            machine_executes_all(host, Machine { scopes: first.scopes, ..base }, rest, fuel);
            driven_in_two(start, host, count, more);
            prints_joined(first.printed, after.printed);
            if after.fault is Some {
                let f = after.fault->0;
                assert(prints(first.printed) + prints(after.printed).push(
                    ActionView::Failed(ExitView::RuntimeError(f)),
                ) =~= (prints(first.printed) + prints(after.printed)).push(
                    ActionView::Failed(ExitView::RuntimeError(f)),
                ));
            }
        }
    }
}

/// The interpreter executes statements as `executed` says: a machine whose
/// next task is to execute `stmt` has, after `execution_steps` steps
/// answered by the host, told the host to write what `stmt` prints, and
/// changed the scopes as the execution does, and changed nothing else; or
/// it has ended with the fault of the execution. This holds of every
/// execution in which no loop goes round more than `fuel` times.
pub proof fn machine_executes(host: Host, base: Machine, stmt: StmtView, fuel: nat)
    requires
        executed(host, base.scopes, stmt, fuel) is Some,
    ensures
        driven(
            with_task(base, TaskView::Execute(stmt)),
            host,
            execution_steps(host, base.scopes, stmt, fuel),
        ) == after_execution(base, executed(host, base.scopes, stmt, fuel)->0),
    decreases fuel, stmt, 0nat,
{
    let start = with_task(base, TaskView::Execute(stmt));
    step_performs(base, TaskView::Execute(stmt));
    prints_joined(Seq::empty(), Seq::empty());
    match stmt {
        StmtView::Expression { expression } => {
            let result = evaluated(host, base.scopes, expression);
            if result.outcome is Ok {
                let v = result.outcome->Ok_0;
                step_performs(
                    Machine { values: base.values.push(v), scopes: result.scopes, ..base },
                    TaskView::Discard,
                );
                assert(base.values.push(v).drop_last() =~= base.values);
            }
            evaluating_case(host, base, stmt, expression, TaskView::Discard, fuel);
        },
        StmtView::Print { expression } => {
            let result = evaluated(host, base.scopes, expression);
            if result.outcome is Ok {
                let v = result.outcome->Ok_0;
                step_performs(
                    Machine { values: base.values.push(v), scopes: result.scopes, ..base },
                    TaskView::Print,
                );
                assert(base.values.push(v).drop_last() =~= base.values);
                assert(prints(seq![stringified(v)]) =~= seq![ActionView::Print(stringified(v))]);
            }
            evaluating_case(host, base, stmt, expression, TaskView::Print, fuel);
        },
        StmtView::Var { name, initializer } => {
            let result = evaluated(host, base.scopes, initializer);
            if result.outcome is Ok {
                let v = result.outcome->Ok_0;
                step_performs(
                    Machine { values: base.values.push(v), scopes: result.scopes, ..base },
                    TaskView::Define(name),
                );
                assert(base.values.push(v).drop_last() =~= base.values);
            }
            evaluating_case(host, base, stmt, initializer, TaskView::Define(name), fuel);
        },
        StmtView::Block { statements } => {
            let inside = Machine {
                tasks: base.tasks.push(TaskView::ExitScope),
                values: base.values,
                scopes: seq![Map::<Seq<char>, LiteralValue>::empty()] + base.scopes,
            };
            machine_executes_all(host, inside, statements, fuel);
            block_case(host, base, statements, fuel);
        },
        StmtView::If { condition, then_branch, else_branch } => {
            let result = evaluated(host, base.scopes, condition);
            let other = match else_branch {
                Some(branch) => Some(*branch),
                None => None,
            };
            if result.outcome is Ok {
                let between = Machine { scopes: result.scopes, ..base };
                if truthy(result.outcome->Ok_0) {
                    machine_executes(host, between, *then_branch, fuel);
                } else if else_branch is Some {
                    machine_executes(host, between, *else_branch->0, fuel);
                }
            }
            if_case(host, base, condition, *then_branch, other, fuel);
        },
        StmtView::While { condition, body } => {
            machine_loops(host, base, condition, *body, fuel);
            driven_after_silent_step(
                start,
                host,
                with_task(
                    with_task(base, TaskView::Loop(condition, *body)),
                    TaskView::Evaluate(condition),
                ),
                loop_steps(host, base.scopes, condition, *body, fuel),
            );
        },
        StmtView::Function { name } => {
            driven_once(start, host);
            assert(Seq::<ActionView>::empty().push(
                ActionView::Failed(
                    ExitView::RuntimeError(
                        FaultView { line: name.line, message: "Functions are not implemented."@ },
                    ),
                ),
            ) =~= told(start.step().action));
        },
        StmtView::Return { keyword } => {
            driven_once(start, host);
            assert(Seq::<ActionView>::empty().push(
                ActionView::Failed(
                    ExitView::RuntimeError(
                        FaultView { line: keyword.line, message: "Return is not implemented."@ },
                    ),
                ),
            ) =~= told(start.step().action));
        },
        StmtView::Class { name } => {
            driven_once(start, host);
            assert(Seq::<ActionView>::empty().push(
                ActionView::Failed(
                    ExitView::RuntimeError(
                        FaultView { line: name.line, message: "Classes are not implemented."@ },
                    ),
                ),
            ) =~= told(start.step().action));
        },
    }
}

/// The interpreter executes a program as `executed_all` says: an
/// interpreter with nothing to do that is handed `statements` has, after
/// `all_steps` steps answered by the host, told the host to write what the
/// statements print, in order, up to the first fault if there is one.
pub proof fn machine_interprets(host: Host, base: Machine, statements: Seq<StmtView>, fuel: nat)
    requires
        base.tasks.len() == 0,
        executed_all(host, base.scopes, statements, fuel) is Some,
    ensures
        driven(
            Machine { tasks: scheduled(statements) + base.tasks, ..base },
            host,
            all_steps(host, base.scopes, statements, fuel),
        ) == after_execution(base, executed_all(host, base.scopes, statements, fuel)->0),
{
    assert(scheduled(statements) + base.tasks =~= base.tasks + scheduled(statements));
    machine_executes_all(host, base, statements, fuel);
}

/// A variable that has been declared can be read in the same scope: after
/// `var n = x;`, for a literal `x` that is no number, `print n;` prints `x`.
pub proof fn declared_then_read(
    host: Host,
    scopes: Seq<Scope>,
    declared: TokenView,
    read: TokenView,
    x: LiteralValue,
    fuel: nat,
)
    requires
        scopes.len() >= 1,
        declared.lexeme == read.lexeme,
        !(x is Number),
    ensures
        executed_all(
            host,
            scopes,
            seq![
                StmtView::Var { name: declared, initializer: ExprView::Literal { value: x } },
                StmtView::Print { expression: ExprView::Variable { name: read } },
            ],
            fuel,
        ) == Some(
            Executed {
                fault: None,
                scopes: defined(scopes, declared.lexeme, x),
                printed: seq![stringified(x)],
            },
        ),
{
    let var = StmtView::Var { name: declared, initializer: ExprView::Literal { value: x } };
    let print = StmtView::Print { expression: ExprView::Variable { name: read } };
    let both = seq![var, print];
    let after = defined(scopes, declared.lexeme, x);
    assert(lookup(after, read.lexeme) == Some(x));
    assert(executed(host, scopes, var, fuel) == Some(finished(after)));
    assert(executed(host, after, print, fuel) == Some(
        Executed { fault: None, scopes: after, printed: seq![stringified(x)] },
    ));
    assert(both.drop_first() =~= seq![print]);
    assert(seq![print].drop_first() =~= Seq::<StmtView>::empty());
    reveal_with_fuel(executed_all, 3);
    assert(Seq::<Seq<char>>::empty() + (seq![stringified(x)] + Seq::<Seq<char>>::empty())
        =~= seq![stringified(x)]);
}

/// What is declared in a block is gone after the block: the block
/// `{ var n = x; }`, for a literal `x` that is no number, leaves the scopes
/// as it found them.
pub proof fn declared_in_block_then_gone(
    host: Host,
    scopes: Seq<Scope>,
    declared: TokenView,
    x: LiteralValue,
    fuel: nat,
)
    requires
        scopes.len() >= 1,
        !(x is Number),
    ensures
        executed(
            host,
            scopes,
            StmtView::Block {
                statements: seq![
                    StmtView::Var { name: declared, initializer: ExprView::Literal { value: x } },
                ],
            },
            fuel,
        ) == Some(finished(scopes)),
{
    let var = StmtView::Var { name: declared, initializer: ExprView::Literal { value: x } };
    let inside = seq![Map::<Seq<char>, LiteralValue>::empty()] + scopes;
    let after = defined(inside, declared.lexeme, x);
    assert(executed(host, inside, var, fuel) == Some(finished(after)));
    assert(seq![var].drop_first() =~= Seq::<StmtView>::empty());
    assert(Seq::<Seq<char>>::empty() + Seq::<Seq<char>>::empty() =~= Seq::<Seq<char>>::empty());
    assert(executed_all(host, after, Seq::empty(), fuel) == Some(finished(after)));
    assert(seq![var][0] == var);
    assert(executed_all(host, inside, seq![var], fuel) == Some(finished(after)));
    assert(left(after) =~= scopes);
}

/// One if the execution ended without a fault, zero if not.
pub open spec fn one_after(result: Executed) -> nat {
    if result.fault is None {
        1
    } else {
        0
    }
}

/// The interpreter executes statements in another environment and then
/// goes back to its own: an interpreter in the scopes `inside` that has
/// `statements` to execute, and then to go back to the scopes of `base`, has
/// after the steps of the statements, and one more if none of them fails,
/// told the host to write what the statements print, up to the first fault
/// if there is one, and is then in the scopes of `base` again, which are as
/// they were. After a fault, what `base` was still to leave has been left.
pub proof fn machine_executes_block(
    host: Host,
    base: Machine,
    inside: Seq<Scope>,
    statements: Seq<StmtView>,
    fuel: nat,
)
    requires
        executed_all(host, inside, statements, fuel) is Some,
    ensures
        ({
            let done = executed_all(host, inside, statements, fuel)->0;
            driven(
                Machine {
                    tasks: base.tasks.push(TaskView::Restore(base.scopes)) + scheduled(statements),
                    values: base.values,
                    scopes: inside,
                },
                host,
                all_steps(host, inside, statements, fuel) + one_after(done),
            ) == after_execution(base, Executed { scopes: base.scopes, ..done })
        }),
{
    let restoring = TaskView::Restore(base.scopes);
    let waiting = Machine { tasks: base.tasks.push(restoring), values: base.values, scopes: inside };
    let entered = Machine { tasks: waiting.tasks + scheduled(statements), ..waiting };
    let count = all_steps(host, inside, statements, fuel);
    let done = executed_all(host, inside, statements, fuel)->0;
    machine_executes_all(host, waiting, statements, fuel);
    assert(waiting.tasks.drop_last() =~= base.tasks);
    if done.fault is None {
        driven_then_once(entered, host, count);
        step_performs(
            Machine { tasks: base.tasks, values: base.values, scopes: done.scopes },
            restoring,
        );
        assert(prints(done.printed) + told(ActionView::Continue) =~= prints(done.printed));
    }
}

/// Whether none of `tasks` leaves a scope or goes back to an environment.
pub open spec fn keeps_scopes(tasks: Seq<TaskView>) -> bool {
    forall|i: int|
        0 <= i < tasks.len() ==> !((#[trigger] tasks[i]) is ExitScope) && !(tasks[i] is Restore)
}

/// Unwinding work that neither leaves a scope nor goes back to an
/// environment leaves the scopes as they are.
pub proof fn unwound_keeps_scopes(scopes: Seq<Scope>, tasks: Seq<TaskView>)
    requires
        keeps_scopes(tasks),
    ensures
        unwound(scopes, tasks) == scopes,
    decreases tasks.len(),
{
    if tasks.len() > 0 {
        assert(!(tasks[tasks.len() - 1] is ExitScope) && !(tasks[tasks.len() - 1] is Restore));
        assert forall|i: int| 0 <= i < tasks.drop_last().len() implies !((
        #[trigger] tasks.drop_last()[i]) is ExitScope) && !(tasks.drop_last()[i] is Restore) by {
            assert(tasks.drop_last()[i] == tasks[i]);
        }
        unwound_keeps_scopes(scopes, tasks.drop_last());
    }
}

/// Statements that are executed in another environment leave the
/// environment of the interpreter as it was, whatever work the interpreter
/// has still to do. Once the statements have ended without a fault, the
/// interpreter is as it was before it was handed them: in the same scopes,
/// with every name and every value as it was, and with the same work and the
/// same values. Once a statement has failed, the fault has been handed to
/// the host, no statement after it has been executed, and the interpreter
/// has gone back to the same scopes and has then dropped the work that it
/// had still to do, leaving what that work would have left: where that work
/// leaves no scope, the scopes are again those before.
pub proof fn machine_leaves_the_block(
    host: Host,
    base: Machine,
    inside: Seq<Scope>,
    statements: Seq<StmtView>,
    fuel: nat,
)
    requires
        executed_all(host, inside, statements, fuel) is Some,
    ensures
        ({
            let done = executed_all(host, inside, statements, fuel)->0;
            let end = driven(
                Machine {
                    tasks: base.tasks.push(TaskView::Restore(base.scopes)) + scheduled(statements),
                    values: base.values,
                    scopes: inside,
                },
                host,
                all_steps(host, inside, statements, fuel) + one_after(done),
            );
            &&& done.fault is None ==> end.machine == base && end.log == prints(done.printed)
            &&& done.fault matches Some(f) ==> {
                &&& end.machine.tasks.len() == 0
                &&& end.machine.values.len() == 0
                &&& end.machine.scopes == unwound(base.scopes, base.tasks)
                &&& end.log == prints(done.printed).push(
                    ActionView::Failed(ExitView::RuntimeError(f)),
                )
                &&& keeps_scopes(base.tasks) ==> end.machine.scopes == base.scopes
            }
            &&& end.log.len() > 0 && end.log.last() is Failed <==> done.fault is Some
        }),
{
    let done = executed_all(host, inside, statements, fuel)->0;
    machine_executes_block(host, base, inside, statements, fuel);
    assert(prints(done.printed).len() == done.printed.len());
    if done.fault is None && done.printed.len() > 0 {
        assert(prints(done.printed).last() is Print);
    }
    if keeps_scopes(base.tasks) {
        unwound_keeps_scopes(base.scopes, base.tasks);
    }
}

/// Whether two chains of scopes have as many scopes, each of which binds
/// the same names in both.
pub open spec fn same_names(one: Seq<Scope>, other: Seq<Scope>) -> bool {
    &&& one.len() == other.len()
    &&& forall|i: int| 0 <= i < one.len() ==> (#[trigger] one[i]).dom() =~= other[i].dom()
}

/// In chains that bind the same names, the same names can be read.
pub proof fn same_names_same_visible(one: Seq<Scope>, other: Seq<Scope>, name: Seq<char>)
    requires
        same_names(one, other),
    ensures
        lookup(one, name) is Some <==> lookup(other, name) is Some,
    decreases one.len(),
{
    if one.len() > 0 {
        assert(one[0].dom() =~= other[0].dom());
        if !one[0].contains_key(name) {
            assert(!other[0].contains_key(name));
            assert forall|i: int| 0 <= i < one.drop_first().len() implies (
            #[trigger] one.drop_first()[i]).dom() =~= other.drop_first()[i].dom() by {
                assert(one[i + 1].dom() =~= other[i + 1].dom());
            }
            same_names_same_visible(one.drop_first(), other.drop_first(), name);
        }
    }
}

/// An assignment binds no name: it gives a name that is bound another value.
proof fn assigned_keeps_names(scopes: Seq<Scope>, name: Seq<char>, value: LiteralValue)
    requires
        assigned(scopes, name, value) is Some,
    ensures
        same_names(assigned(scopes, name, value)->0, scopes),
    decreases scopes.len(),
{
    if scopes.len() > 0 {
        let after = assigned(scopes, name, value)->0;
        if scopes[0].contains_key(name) {
            assert(scopes[0].insert(name, value).dom() =~= scopes[0].dom());
            assert forall|i: int| 0 <= i < after.len() implies (#[trigger] after[i]).dom()
                =~= scopes[i].dom() by {}
        } else {
            assigned_keeps_names(scopes.drop_first(), name, value);
            let outer = assigned(scopes.drop_first(), name, value)->0;
            assert(after == seq![scopes[0]] + outer);
            assert forall|i: int| 0 <= i < after.len() implies (#[trigger] after[i]).dom()
                =~= scopes[i].dom() by {
                if i > 0 {
                    assert(after[i] == outer[i - 1]);
                    assert(outer[i - 1].dom() =~= scopes.drop_first()[i - 1].dom());
                }
            }
        }
    }
}

/// Chains that bind the same names as a third bind the same names.
proof fn same_names_through(one: Seq<Scope>, middle: Seq<Scope>, other: Seq<Scope>)
    requires
        same_names(one, middle),
        same_names(middle, other),
    ensures
        same_names(one, other),
{
    assert forall|i: int| 0 <= i < one.len() implies (#[trigger] one[i]).dom()
        =~= other[i].dom() by {
        assert(one[i].dom() =~= middle[i].dom());
        assert(middle[i].dom() =~= other[i].dom());
    }
}

/// The evaluation of an expression binds no name.
pub proof fn evaluation_keeps_names(host: Host, scopes: Seq<Scope>, expr: ExprView)
    ensures
        same_names(evaluated(host, scopes, expr).scopes, scopes),
    decreases expr,
{
    match expr {
        ExprView::Grouping { expr: inner } => {
            evaluation_keeps_names(host, scopes, *inner);
        },
        ExprView::Unary { operator, right } => {
            evaluation_keeps_names(host, scopes, *right);
        },
        ExprView::Binary { left, operator, right } => {
            evaluation_keeps_names(host, scopes, *right);
            let second = evaluated(host, scopes, *right);
            if second.outcome is Ok {
                evaluation_keeps_names(host, second.scopes, *left);
                same_names_through(evaluated(host, second.scopes, *left).scopes, second.scopes, scopes);
            }
        },
        ExprView::Logical { left, operator, right } => {
            evaluation_keeps_names(host, scopes, *left);
            let first = evaluated(host, scopes, *left);
            if first.outcome is Ok {
                evaluation_keeps_names(host, first.scopes, *right);
                same_names_through(evaluated(host, first.scopes, *right).scopes, first.scopes, scopes);
            }
        },
        ExprView::Assignment { name, value } => {
            evaluation_keeps_names(host, scopes, *value);
            let given = evaluated(host, scopes, *value);
            if given.outcome is Ok {
                let v = given.outcome->Ok_0;
                if assigned(given.scopes, name.lexeme, v) is Some {
                    assigned_keeps_names(given.scopes, name.lexeme, v);
                    same_names_through(
                        assigned(given.scopes, name.lexeme, v)->0,
                        given.scopes,
                        scopes,
                    );
                }
            }
        },
        _ => {},
    }
}

/// Whether `after` has the scopes of `before`, with the same names in each
/// but the innermost, where names may have been declared.
pub open spec fn same_outer_names(after: Seq<Scope>, before: Seq<Scope>) -> bool {
    &&& after.len() == before.len()
    &&& forall|i: int| 1 <= i < after.len() ==> (#[trigger] after[i]).dom() =~= before[i].dom()
}

/// Chains that differ from a third in the names of the innermost scope
/// only differ from each other in those only.
proof fn same_outer_names_through(one: Seq<Scope>, middle: Seq<Scope>, other: Seq<Scope>)
    requires
        same_outer_names(one, middle),
        same_outer_names(middle, other),
    ensures
        same_outer_names(one, other),
{
    assert forall|i: int| 1 <= i < one.len() implies (#[trigger] one[i]).dom()
        =~= other[i].dom() by {
        assert(one[i].dom() =~= middle[i].dom());
        assert(middle[i].dom() =~= other[i].dom());
    }
}

/// The evaluation of an expression declares nothing.
proof fn evaluation_keeps_outer_names(host: Host, scopes: Seq<Scope>, expr: ExprView)
    ensures
        same_outer_names(evaluated(host, scopes, expr).scopes, scopes),
        same_names(evaluated(host, scopes, expr).scopes, scopes),
{
    evaluation_keeps_names(host, scopes, expr);
    let after = evaluated(host, scopes, expr).scopes;
    assert forall|i: int| 1 <= i < after.len() implies (#[trigger] after[i]).dom()
        =~= scopes[i].dom() by {}
}

/// A statement declares names in the innermost scope only, and a block in
/// none: whether it ends with a fault or without, the execution of a
/// statement leaves as many scopes as it found, with the same names in each
/// but the innermost, and the execution of a block with the same names in all.
pub proof fn execution_keeps_outer_names(
    host: Host,
    scopes: Seq<Scope>,
    stmt: StmtView,
    fuel: nat,
)
    requires
        scopes.len() >= 1,
        executed(host, scopes, stmt, fuel) is Some,
    ensures
        same_outer_names(executed(host, scopes, stmt, fuel)->0.scopes, scopes),
        stmt is Block ==> same_names(executed(host, scopes, stmt, fuel)->0.scopes, scopes),
    decreases fuel, stmt, 0nat,
{
    match stmt {
        StmtView::Expression { expression } => {
            evaluation_keeps_outer_names(host, scopes, expression);
        },
        StmtView::Print { expression } => {
            evaluation_keeps_outer_names(host, scopes, expression);
        },
        StmtView::Var { name, initializer } => {
            evaluation_keeps_outer_names(host, scopes, initializer);
            let result = evaluated(host, scopes, initializer);
            if result.outcome is Ok {
                let after = defined(result.scopes, name.lexeme, result.outcome->Ok_0);
                assert forall|i: int| 1 <= i < after.len() implies (#[trigger] after[i]).dom()
                    =~= scopes[i].dom() by {
                    assert(after[i] == result.scopes[i]);
                }
            }
        },
        StmtView::Block { statements } => {
            let inside = seq![Map::<Seq<char>, LiteralValue>::empty()] + scopes;
            all_keep_outer_names(host, inside, statements, fuel);
            let inner = executed_all(host, inside, statements, fuel)->0;
            let after = left(inner.scopes);
            assert(after == inner.scopes.drop_first());
            assert forall|i: int| 0 <= i < after.len() implies (#[trigger] after[i]).dom()
                =~= scopes[i].dom() by {
                assert(after[i] == inner.scopes[i + 1]);
                assert(inner.scopes[i + 1].dom() =~= inside[i + 1].dom());
                assert(inside[i + 1] == scopes[i]);
            }
        },
        StmtView::If { condition, then_branch, else_branch } => {
            evaluation_keeps_outer_names(host, scopes, condition);
            let result = evaluated(host, scopes, condition);
            if result.outcome is Ok {
                if truthy(result.outcome->Ok_0) {
                    execution_keeps_outer_names(host, result.scopes, *then_branch, fuel);
                    same_outer_names_through(
                        executed(host, result.scopes, *then_branch, fuel)->0.scopes,
                        result.scopes,
                        scopes,
                    );
                } else if else_branch is Some {
                    execution_keeps_outer_names(host, result.scopes, *else_branch->0, fuel);
                    same_outer_names_through(
                        executed(host, result.scopes, *else_branch->0, fuel)->0.scopes,
                        result.scopes,
                        scopes,
                    );
                }
            }
        },
        StmtView::While { condition, body } => {
            loop_keeps_outer_names(host, scopes, condition, *body, fuel);
        },
        _ => {},
    }
}

/// A loop declares names in the innermost scope only.
proof fn loop_keeps_outer_names(
    host: Host,
    scopes: Seq<Scope>,
    condition: ExprView,
    body: StmtView,
    fuel: nat,
)
    requires
        scopes.len() >= 1,
        looped(host, scopes, condition, body, fuel) is Some,
    ensures
        same_outer_names(looped(host, scopes, condition, body, fuel)->0.scopes, scopes),
    decreases fuel, body, 1nat,
{
    evaluation_keeps_outer_names(host, scopes, condition);
    let result = evaluated(host, scopes, condition);
    if result.outcome is Ok && truthy(result.outcome->Ok_0) && fuel > 0 {
        execution_keeps_outer_names(host, result.scopes, body, fuel);
        let once = executed(host, result.scopes, body, fuel)->0;
        same_outer_names_through(once.scopes, result.scopes, scopes);
        if once.fault is None {
            loop_keeps_outer_names(host, once.scopes, condition, body, (fuel - 1) as nat);
            same_outer_names_through(
                looped(host, once.scopes, condition, body, (fuel - 1) as nat)->0.scopes,
                once.scopes,
                scopes,
            );
        }
    }
}

/// Statements in a row declare names in the innermost scope only.
proof fn all_keep_outer_names(
    host: Host,
    scopes: Seq<Scope>,
    statements: Seq<StmtView>,
    fuel: nat,
)
    requires
        scopes.len() >= 1,
        executed_all(host, scopes, statements, fuel) is Some,
    ensures
        same_outer_names(executed_all(host, scopes, statements, fuel)->0.scopes, scopes),
    decreases fuel, statements, 0nat,
{
    if statements.len() > 0 {
        execution_keeps_outer_names(host, scopes, statements[0], fuel);
        let first = executed(host, scopes, statements[0], fuel)->0;
        if first.fault is None {
            all_keep_outer_names(host, first.scopes, statements.drop_first(), fuel);
            same_outer_names_through(
                executed_all(host, first.scopes, statements.drop_first(), fuel)->0.scopes,
                first.scopes,
                scopes,
            );
        }
    }
}

/// What is declared in a block is gone after the block: whatever its
/// statements are, and whether it ends with a fault or without, a block
/// leaves the scopes that it found, each with the names that it had. So a
/// name can be read after the block if and only if it could be read before.
/// The values of names that were bound before may have changed, by
/// assignments in the block.
pub proof fn declared_in_any_block_then_gone(
    host: Host,
    scopes: Seq<Scope>,
    statements: Seq<StmtView>,
    fuel: nat,
    name: Seq<char>,
)
    requires
        scopes.len() >= 1,
        executed(host, scopes, StmtView::Block { statements }, fuel) is Some,
    ensures
        ({
            let after = executed(host, scopes, StmtView::Block { statements }, fuel)->0.scopes;
            &&& same_names(after, scopes)
            &&& lookup(after, name) is Some <==> lookup(scopes, name) is Some
        }),
{
    let stmt = StmtView::Block { statements };
    execution_keeps_outer_names(host, scopes, stmt, fuel);
    same_names_same_visible(executed(host, scopes, stmt, fuel)->0.scopes, scopes, name);
}

} // verus!
