//! The machine that runs statements, one step at a time.
//!
//! Each step looks at the innermost entry of the stack and does one thing
//! with it. What needs the world outside (running a pipeline, expanding a
//! value expression, binding a variable, showing a diagnostic) is asked of
//! the caller; the answer comes with the next step. With nothing on the
//! stack, a step takes up the next statement of the input that waits.

use vstd::prelude::*;
use std::collections::VecDeque;
use crate::collect::{
    IfParts, collect_if, collect_if_spec, collect_loops, collect_loops_spec,
    lemma_clauses_drop_first, lemma_view_drop_first,
};
use crate::flow::{FlowLogic, aborted, begun, scheduled, takes_input, took_input};
use crate::flow_control::{FlowControl, IfMode};
use crate::for_expression::{ForExpression, ForValues, for_expression_spec, values_spec};
use crate::frame::{
    ForPhase, Frame, FrameView, IfPhase, Reply, ReplyView, Request, RequestView, WhilePhase,
    into_queue, is_success, lemma_frames_drop_last, lemma_frames_push,
    lemma_pipelines_drop_first, succeeded,
};
use crate::job::JobView;
use crate::shell::{Shell, ShellView, settled, well_formed};
use crate::statement::{
    ElseIf, ElseIfView, Pipeline, Statement, StatementView, clone_statements, else_ifs_view,
    pipelines_view, statements_view,
};
use crate::text::same_text;

verus! {

/// The stack after a list of statements on top of it has run to its end;
/// `broke` says that it ended with `break`.
///
/// The list may have been the body of a loop or a branch of a conditional
/// inside another list. A `break` ends every list down to the innermost
/// loop, and that loop with them; what lies below the loop stays as it is.
/// Without a `break`, the entry below goes on: a loop with its next round, a
/// list with its next statement.
pub open spec fn finished(stack: Seq<FrameView>, broke: bool) -> Seq<FrameView>
    decreases stack.len(),
{
    if stack.len() == 0 {
        stack
    } else {
        match stack.last() {
            FrameView::Block(_) => if broke {
                finished(stack.drop_last(), true)
            } else {
                stack
            },
            FrameView::While { expression, statements, phase: WhilePhase::Running } => if broke {
                stack.drop_last()
            } else {
                stack.drop_last().push(
                    FrameView::While { expression, statements, phase: WhilePhase::Start },
                )
            },
            FrameView::For {
                variable,
                values,
                remaining,
                statements,
                phase: ForPhase::Running,
            } => if broke {
                stack.drop_last()
            } else {
                stack.drop_last().push(
                    FrameView::For { variable, values, remaining, statements, phase: ForPhase::Next },
                )
            },
            _ => stack,
        }
    }
}

/// What one step leaves: the state, and what is asked of the caller.
pub struct Step {
    pub shell: ShellView,
    pub request: RequestView,
}

/// The state with another stack.
pub open spec fn with_stack(shell: ShellView, stack: Seq<FrameView>) -> ShellView {
    ShellView { stack, ..shell }
}

/// A step with nothing on the stack: where the next statement of the input
/// is due, it is taken up. Else there is nothing to do.
pub open spec fn idle_step(shell: ShellView) -> Step {
    if takes_input(shell) {
        Step { shell: took_input(shell), request: RequestView::Continue }
    } else {
        Step { shell, request: RequestView::Idle }
    }
}

/// A step on a list of pipelines: the first is asked to be run; an empty
/// list is done.
pub open spec fn pipelines_step(shell: ShellView, pipelines: Seq<Seq<JobView>>) -> Step {
    if pipelines.len() == 0 {
        Step { shell, request: RequestView::Continue }
    } else {
        Step {
            shell: scheduled(shell, FrameView::Pipelines(pipelines.drop_first())),
            request: RequestView::Run(pipelines[0]),
        }
    }
}

/// A step on a list of statements: its first statement is taken up.
///
/// A block opener takes its body from the statements behind it, up to its
/// terminator, and is put on the stack above what is left of the list; a
/// function definition is entered in the table instead. A conditional with a
/// clause marker out of place ends the list as `break` does, and its
/// diagnostic is put on the stack. `break` ends the list. Pipelines are put
/// on the stack. Any other statement is passed over. An empty list has run
/// to its end.
pub open spec fn block_step(shell: ShellView, statements: Seq<StatementView>) -> Step {
    if statements.len() == 0 {
        Step { shell: with_stack(shell, finished(shell.stack, false)), request: RequestView::Continue }
    } else {
        let rest = statements.drop_first();
        Step {
            shell: match statements[0] {
                StatementView::Pipelines(pipelines) => scheduled(
                    scheduled(shell, FrameView::Block(rest)),
                    FrameView::Pipelines(pipelines),
                ),
                StatementView::While { expression, statements } => {
                    let collected = collect_loops_spec(rest, statements, 1);
                    begun(
                        scheduled(shell, FrameView::Block(collected.rest)),
                        StatementView::While { expression, statements: collected.body },
                    )
                },
                StatementView::For { variable, values, statements } => {
                    let collected = collect_loops_spec(rest, statements, 1);
                    begun(
                        scheduled(shell, FrameView::Block(collected.rest)),
                        StatementView::For { variable, values, statements: collected.body },
                    )
                },
                StatementView::Function { name, args, statements } => {
                    let collected = collect_loops_spec(rest, statements, 1);
                    begun(
                        scheduled(shell, FrameView::Block(collected.rest)),
                        StatementView::Function { name, args, statements: collected.body },
                    )
                },
                StatementView::If { expression, success, else_if, failure } => {
                    let collected = collect_if_spec(
                        rest,
                        IfParts { success, else_if, failure },
                        1,
                        IfMode::Success,
                    );
                    match collected.error {
                        Some(error) => aborted(
                            with_stack(shell, finished(shell.stack, true)),
                            error,
                        ),
                        None => begun(
                            scheduled(shell, FrameView::Block(collected.rest)),
                            StatementView::If {
                                expression,
                                success: collected.parts.success,
                                else_if: collected.parts.else_if,
                                failure: collected.parts.failure,
                            },
                        ),
                    }
                },
                StatementView::Break => with_stack(shell, finished(shell.stack, true)),
                _ => scheduled(shell, FrameView::Block(rest)),
            },
            request: RequestView::Continue,
        }
    }
}

/// A step on a `while` loop. At the start of a round the condition is asked
/// to be run. With the answer, the body is put on the stack if the condition
/// succeeded; if not, the loop is done. A loop that is found on top of the
/// stack while its body should be running has lost its body, and is done.
pub open spec fn while_step(
    shell: ShellView,
    expression: Seq<JobView>,
    statements: Seq<StatementView>,
    phase: WhilePhase,
    reply: ReplyView,
) -> Step {
    match phase {
        WhilePhase::Start => Step {
            shell: scheduled(
                shell,
                FrameView::While { expression, statements, phase: WhilePhase::Await },
            ),
            request: RequestView::Run(expression),
        },
        WhilePhase::Await => Step {
            shell: if succeeded(reply) {
                scheduled(
                    scheduled(
                        shell,
                        FrameView::While { expression, statements, phase: WhilePhase::Running },
                    ),
                    FrameView::Block(statements),
                )
            } else {
                shell
            },
            request: RequestView::Continue,
        },
        WhilePhase::Running => Step { shell, request: RequestView::Continue },
    }
}

/// The text that stands for "bind nothing" among the values of a `for` loop.
pub open spec fn placeholder() -> Seq<char> {
    "_"@
}

/// A step on a `for` loop. First the value expression is asked to be
/// expanded; the answer gives the values. Then, value by value: the variable
/// is asked to be bound to the value, unless the value is the placeholder,
/// and the body is put on the stack. With no value left the loop is done. A
/// loop that is found on top of the stack while its body should be running
/// has lost its body, and is done.
pub open spec fn for_step(
    shell: ShellView,
    variable: Seq<char>,
    values: Seq<char>,
    remaining: Seq<Seq<char>>,
    statements: Seq<StatementView>,
    phase: ForPhase,
    reply: ReplyView,
) -> Step {
    match phase {
        ForPhase::Start => Step {
            shell: scheduled(
                shell,
                FrameView::For { variable, values, remaining, statements, phase: ForPhase::Await },
            ),
            request: RequestView::Expand(values),
        },
        ForPhase::Await => Step {
            shell: scheduled(
                shell,
                FrameView::For {
                    variable,
                    values,
                    remaining: match reply {
                        ReplyView::Expanded(text) => values_spec(for_expression_spec(text)),
                        _ => Seq::empty(),
                    },
                    statements,
                    phase: ForPhase::Next,
                },
            ),
            request: RequestView::Continue,
        },
        ForPhase::Next => if remaining.len() == 0 {
            Step { shell, request: RequestView::Continue }
        } else if remaining[0] == placeholder() {
            Step {
                shell: scheduled(
                    scheduled(
                        shell,
                        FrameView::For {
                            variable,
                            values,
                            remaining: remaining.drop_first(),
                            statements,
                            phase: ForPhase::Running,
                        },
                    ),
                    FrameView::Block(statements),
                ),
                request: RequestView::Continue,
            }
        } else {
            Step {
                shell: scheduled(
                    shell,
                    FrameView::For {
                        variable,
                        values,
                        remaining: remaining.drop_first(),
                        statements,
                        phase: ForPhase::Bound,
                    },
                ),
                request: RequestView::Bind(variable, remaining[0]),
            }
        },
        ForPhase::Bound => Step {
            shell: scheduled(
                scheduled(
                    shell,
                    FrameView::For { variable, values, remaining, statements, phase: ForPhase::Running },
                ),
                FrameView::Block(statements),
            ),
            request: RequestView::Continue,
        },
        ForPhase::Running => Step { shell, request: RequestView::Continue },
    }
}

/// A step on a conditional. The condition is asked to be run. With the
/// answer: if it succeeded, the statements that belong to it take the
/// conditional's place; if not, the next `else if` clause is tried in the
/// same way, and with no clause left the failure statements take the
/// conditional's place.
pub open spec fn if_step(
    shell: ShellView,
    expression: Seq<JobView>,
    success: Seq<StatementView>,
    else_if: Seq<ElseIfView>,
    failure: Seq<StatementView>,
    phase: IfPhase,
    reply: ReplyView,
) -> Step {
    match phase {
        IfPhase::Start => Step {
            shell: scheduled(
                shell,
                FrameView::If { expression, success, else_if, failure, phase: IfPhase::Await },
            ),
            request: RequestView::Run(expression),
        },
        IfPhase::Await => Step {
            shell: if succeeded(reply) {
                scheduled(shell, FrameView::Block(success))
            } else if else_if.len() > 0 {
                scheduled(
                    shell,
                    FrameView::If {
                        expression: else_if[0].expression,
                        success: else_if[0].success,
                        else_if: else_if.drop_first(),
                        failure,
                        phase: IfPhase::Start,
                    },
                )
            } else {
                scheduled(shell, FrameView::Block(failure))
            },
            request: RequestView::Continue,
        },
    }
}

/// One step of the machine.
pub open spec fn step_spec(shell: ShellView, reply: ReplyView) -> Step {
    if shell.stack.len() == 0 {
        idle_step(shell)
    } else {
        let below = with_stack(shell, shell.stack.drop_last());
        match shell.stack.last() {
            FrameView::Report(error) => Step { shell: below, request: RequestView::Report(error) },
            FrameView::Pipelines(pipelines) => pipelines_step(below, pipelines),
            FrameView::Block(statements) => block_step(below, statements),
            FrameView::While { expression, statements, phase } => while_step(
                below,
                expression,
                statements,
                phase,
                reply,
            ),
            FrameView::For { variable, values, remaining, statements, phase } => for_step(
                below,
                variable,
                values,
                remaining,
                statements,
                phase,
                reply,
            ),
            FrameView::If { expression, success, else_if, failure, phase } => if_step(
                below,
                expression,
                success,
                else_if,
                failure,
                phase,
                reply,
            ),
        }
    }
}

/// A queue that holds a copy of each statement of a list.
pub fn queue_of(statements: &Vec<Statement>) -> (queue: VecDeque<Statement>)
    ensures
        statements_view(queue@) == statements_view(statements@),
{
    into_queue(clone_statements(statements))
}

impl Shell {
    /// Lets the entry below go on after a list of statements has run to its
    /// end.
    pub fn finish(&mut self, broke: bool)
        ensures
            final(self)@ == with_stack(old(self)@, finished(old(self)@.stack, broke)),
    {
        loop
            invariant
                with_stack(self@, finished(self@.stack, broke)) == with_stack(
                    old(self)@,
                    finished(old(self)@.stack, broke),
                ),
            decreases self.stack@.len(),
        {
            let ghost before = self.stack@;
            proof {
                if before.len() > 0 {
                    lemma_frames_drop_last(before);
                }
            }
            match self.stack.pop() {
                None => {
                    return ;
                },
                Some(Frame::Block(statements)) => {
                    if !broke {
                        self.stack.push(Frame::Block(statements));
                        assert(self.stack@ =~= before);
                        return ;
                    }
                },
                Some(Frame::While { expression, statements, phase }) => {
                    if phase == WhilePhase::Running {
                        if !broke {
                            let frame = Frame::While { expression, statements, phase: WhilePhase::Start };
                            proof {
                                lemma_frames_push(self.stack@, frame);
                            }
                            self.stack.push(frame);
                        }
                    } else {
                        self.stack.push(Frame::While { expression, statements, phase });
                        assert(self.stack@ =~= before);
                    }
                    return ;
                },
                Some(Frame::For { variable, values, remaining, statements, phase }) => {
                    if phase == ForPhase::Running {
                        if !broke {
                            let frame = Frame::For {
                                variable,
                                values,
                                remaining,
                                statements,
                                phase: ForPhase::Next,
                            };
                            proof {
                                lemma_frames_push(self.stack@, frame);
                            }
                            self.stack.push(frame);
                        }
                    } else {
                        self.stack.push(Frame::For { variable, values, remaining, statements, phase });
                        assert(self.stack@ =~= before);
                    }
                    return ;
                },
                Some(other) => {
                    self.stack.push(other);
                    assert(self.stack@ =~= before);
                    return ;
                },
            }
        }
    }
}

impl Shell {
    /// A step with nothing on the stack.
    fn take_input(&mut self) -> (request: Request)
        requires
            old(self)@.stack.len() == 0,
        ensures
            (Step { shell: final(self)@, request: request@ }) == idle_step(old(self)@),
            well_formed(old(self)@) ==> well_formed(final(self)@),
    {
        if self.take_up() {
            Request::Continue
        } else {
            Request::Idle
        }
    }

    /// A step on a list of pipelines.
    fn step_pipelines(&mut self, pipelines: VecDeque<Pipeline>) -> (request: Request)
        ensures
            (Step { shell: final(self)@, request: request@ }) == pipelines_step(
                old(self)@,
                pipelines_view(pipelines@),
            ),
    {
        let mut pipelines = pipelines;
        let ghost whole = pipelines@;
        match pipelines.pop_front() {
            None => Request::Continue,
            Some(pipeline) => {
                proof {
                    lemma_pipelines_drop_first(whole);
                }
                self.schedule(Frame::Pipelines(pipelines));
                Request::Run(pipeline)
            },
        }
    }

    /// A step on a list of statements.
    fn step_block(&mut self, statements: VecDeque<Statement>) -> (request: Request)
        ensures
            (Step { shell: final(self)@, request: request@ }) == block_step(
                old(self)@,
                statements_view(statements@),
            ),
    {
        let mut rest = statements;
        let ghost whole = rest@;
        proof {
            vstd::std_specs::vecdeque::axiom_spec_len(&rest);
            if whole.len() > 0 {
                lemma_view_drop_first(whole);
            }
        }
        match rest.pop_front() {
            None => {
                self.finish(false);
            },
            Some(Statement::Pipelines(pipelines)) => {
                self.schedule(Frame::Block(rest));
                self.schedule(Frame::Pipelines(into_queue(pipelines)));
            },
            Some(Statement::While { expression, statements }) => {
                let mut body = statements;
                let mut level: usize = 1;
                collect_loops(&mut rest, &mut body, &mut level);
                self.schedule(Frame::Block(rest));
                self.execute_while(expression, body);
            },
            Some(Statement::For { variable, values, statements }) => {
                let mut body = statements;
                let mut level: usize = 1;
                collect_loops(&mut rest, &mut body, &mut level);
                self.schedule(Frame::Block(rest));
                self.execute_for(variable.as_str(), values.as_str(), body);
            },
            Some(Statement::Function { name, args, statements }) => {
                let mut body = statements;
                let mut level: usize = 1;
                collect_loops(&mut rest, &mut body, &mut level);
                self.schedule(Frame::Block(rest));
                self.define(name, args, body);
            },
            Some(Statement::If { expression, success, else_if, failure }) => {
                let mut success = success;
                let mut else_if = else_if;
                let mut failure = failure;
                let mut level: usize = 1;
                match collect_if(
                    &mut rest,
                    &mut success,
                    &mut else_if,
                    &mut failure,
                    &mut level,
                    IfMode::Success,
                ) {
                    Ok(_) => {
                        self.schedule(Frame::Block(rest));
                        self.execute_if(expression, success, else_if, failure);
                    },
                    Err(error) => {
                        self.finish(true);
                        self.flow_control = FlowControl::new();
                        self.schedule(Frame::Report(error));
                    },
                }
            },
            Some(Statement::Break) => {
                self.finish(true);
            },
            Some(_) => {
                self.schedule(Frame::Block(rest));
            },
        }
        Request::Continue
    }

    /// A step on a `while` loop.
    fn step_while(
        &mut self,
        expression: Pipeline,
        statements: Vec<Statement>,
        phase: WhilePhase,
        reply: &Reply,
    ) -> (request: Request)
        ensures
            (Step { shell: final(self)@, request: request@ }) == while_step(
                old(self)@,
                expression@,
                statements_view(statements@),
                phase,
                reply@,
            ),
    {
        match phase {
            WhilePhase::Start => {
                let condition = expression.clone();
                self.schedule(Frame::While { expression, statements, phase: WhilePhase::Await });
                Request::Run(condition)
            },
            WhilePhase::Await => {
                if is_success(reply) {
                    let body = queue_of(&statements);
                    self.schedule(Frame::While { expression, statements, phase: WhilePhase::Running });
                    self.schedule(Frame::Block(body));
                }
                Request::Continue
            },
            WhilePhase::Running => Request::Continue,
        }
    }

    /// A step on a `for` loop.
    fn step_for(
        &mut self,
        variable: String,
        values: String,
        remaining: ForValues,
        statements: Vec<Statement>,
        phase: ForPhase,
        reply: &Reply,
    ) -> (request: Request)
        ensures
            (Step { shell: final(self)@, request: request@ }) == for_step(
                old(self)@,
                variable@,
                values@,
                remaining@,
                statements_view(statements@),
                phase,
                reply@,
            ),
    {
        match phase {
            ForPhase::Start => {
                let expression = values.clone();
                self.schedule(
                    Frame::For { variable, values, remaining, statements, phase: ForPhase::Await },
                );
                Request::Expand(expression)
            },
            ForPhase::Await => {
                let remaining = match reply {
                    Reply::Expanded(text) => ForValues::new(ForExpression::new(text.as_str())),
                    _ => ForValues::empty(),
                };
                self.schedule(
                    Frame::For { variable, values, remaining, statements, phase: ForPhase::Next },
                );
                Request::Continue
            },
            ForPhase::Next => {
                let mut remaining = remaining;
                match remaining.next() {
                    None => Request::Continue,
                    Some(value) => {
                        if same_text(value.as_str(), "_") {
                            let body = queue_of(&statements);
                            self.schedule(
                                Frame::For {
                                    variable,
                                    values,
                                    remaining,
                                    statements,
                                    phase: ForPhase::Running,
                                },
                            );
                            self.schedule(Frame::Block(body));
                            Request::Continue
                        } else {
                            let name = variable.clone();
                            self.schedule(
                                Frame::For {
                                    variable,
                                    values,
                                    remaining,
                                    statements,
                                    phase: ForPhase::Bound,
                                },
                            );
                            Request::Bind(name, value)
                        }
                    },
                }
            },
            ForPhase::Bound => {
                let body = queue_of(&statements);
                self.schedule(
                    Frame::For { variable, values, remaining, statements, phase: ForPhase::Running },
                );
                self.schedule(Frame::Block(body));
                Request::Continue
            },
            ForPhase::Running => Request::Continue,
        }
    }

    /// A step on a conditional.
    fn step_if(
        &mut self,
        expression: Pipeline,
        success: Vec<Statement>,
        else_if: VecDeque<ElseIf>,
        failure: Vec<Statement>,
        phase: IfPhase,
        reply: &Reply,
    ) -> (request: Request)
        ensures
            (Step { shell: final(self)@, request: request@ }) == if_step(
                old(self)@,
                expression@,
                statements_view(success@),
                else_ifs_view(else_if@),
                statements_view(failure@),
                phase,
                reply@,
            ),
    {
        match phase {
            IfPhase::Start => {
                let condition = expression.clone();
                self.schedule(
                    Frame::If { expression, success, else_if, failure, phase: IfPhase::Await },
                );
                Request::Run(condition)
            },
            IfPhase::Await => {
                if is_success(reply) {
                    self.schedule(Frame::Block(into_queue(success)));
                } else {
                    let mut else_if = else_if;
                    let ghost clauses = else_if@;
                    match else_if.pop_front() {
                        Some(clause) => {
                            proof {
                                lemma_clauses_drop_first(clauses);
                            }
                            self.schedule(
                                Frame::If {
                                    expression: clause.expression,
                                    success: clause.success,
                                    else_if,
                                    failure,
                                    phase: IfPhase::Start,
                                },
                            );
                        },
                        None => {
                            self.schedule(Frame::Block(into_queue(failure)));
                        },
                    }
                }
                Request::Continue
            },
        }
    }

    /// Does one step, given the answer to what the step before asked.
    pub fn resume(&mut self, reply: Reply) -> (request: Request)
        ensures
            (Step { shell: final(self)@, request: request@ }) == step_spec(old(self)@, reply@),
            well_formed(old(self)@) ==> well_formed(final(self)@),
            well_formed(old(self)@) && request@ is Idle ==> settled(final(self)@),
    {
        let ghost before = self.stack@;
        proof {
            if before.len() > 0 {
                lemma_frames_drop_last(before);
            }
        }
        match self.stack.pop() {
            None => self.take_input(),
            Some(Frame::Report(error)) => Request::Report(error),
            Some(Frame::Pipelines(pipelines)) => self.step_pipelines(pipelines),
            Some(Frame::Block(statements)) => self.step_block(statements),
            Some(Frame::While { expression, statements, phase }) => self.step_while(
                expression,
                statements,
                phase,
                &reply,
            ),
            Some(Frame::For { variable, values, remaining, statements, phase }) => self.step_for(
                variable,
                values,
                remaining,
                statements,
                phase,
                &reply,
            ),
            Some(Frame::If { expression, success, else_if, failure, phase }) => self.step_if(
                expression,
                success,
                else_if,
                failure,
                phase,
                &reply,
            ),
        }
    }
}

} // verus!
