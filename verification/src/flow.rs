//! The flow-control engine: it takes statements batch by batch, assembles
//! the blocks among them, and hands each complete statement to the machine
//! that runs it.
//!
//! A block opener starts a block; the statements up to its terminator are
//! its body. Where a batch ends before the terminator, the engine keeps the
//! block as far as it has come, and the next batch goes on with it. Nothing
//! of a block runs before the block is complete.

use vstd::prelude::*;
use std::collections::VecDeque;
use vstd::string::StringExecFns;
use crate::collect::{
    IfParts, collect_if, collect_if_spec, collect_loops, collect_loops_spec,
    lemma_collect_if_mode, lemma_collect_if_rest, lemma_collect_loops_rest,
    lemma_if_rest_of_open, lemma_loops_rest_of_open, lemma_view_drop_first, opens_block,
};
use crate::flow_control::{FlowControl, FlowControlView, FlowError, IfMode, idle_flow_control};
use crate::for_expression::ForValues;
use crate::frame::{
    ForPhase, Frame, FrameView, IfPhase, WhilePhase, into_queue, lemma_frames_push,
};
use crate::functions::{Function, FunctionView};
use crate::shell::{Shell, ShellView, settled, well_formed};
use crate::statement::{
    ElseIf, Pipeline, Statement, StatementView, else_ifs_view, statements_view,
};
use crate::text::texts;

verus! {

/// The state with one more entry on the stack.
pub open spec fn scheduled(shell: ShellView, frame: FrameView) -> ShellView {
    ShellView { stack: shell.stack.push(frame), ..shell }
}

/// The state after a complete statement has been handed over to be run: a
/// loop, a conditional or a list of pipelines is put on the stack, with
/// nothing of it done yet; a function definition is entered in the table of
/// functions. Any other statement leaves the state as it is.
pub open spec fn begun(shell: ShellView, statement: StatementView) -> ShellView {
    match statement {
        StatementView::Pipelines(pipelines) => scheduled(shell, FrameView::Pipelines(pipelines)),
        StatementView::While { expression, statements } => scheduled(
            shell,
            FrameView::While { expression, statements, phase: WhilePhase::Start },
        ),
        StatementView::For { variable, values, statements } => scheduled(
            shell,
            FrameView::For {
                variable,
                values,
                remaining: Seq::empty(),
                statements,
                phase: ForPhase::Start,
            },
        ),
        StatementView::If { expression, success, else_if, failure } => scheduled(
            shell,
            FrameView::If { expression, success, else_if, failure, phase: IfPhase::Start },
        ),
        StatementView::Function { name, args, statements } => ShellView {
            functions: shell.functions.insert(name, FunctionView { name, args, statements }),
            ..shell
        },
        _ => shell,
    }
}

/// A block as far as it has been assembled: the opener with the body it has
/// so far, the depth, the clause that is open if it is a conditional, what of
/// the input was not consumed, and the error that stopped the assembly, if
/// one did.
pub struct Assembled {
    pub statement: StatementView,
    pub level: nat,
    pub mode: IfMode,
    pub rest: Seq<StatementView>,
    pub error: Option<FlowError>,
}

/// Goes on assembling the block that `statement` opens, at depth `level`,
/// with the statements of `input`.
pub open spec fn assemble(
    statement: StatementView,
    input: Seq<StatementView>,
    level: nat,
    mode: IfMode,
) -> Assembled {
    match statement {
        StatementView::While { expression, statements } => {
            let collected = collect_loops_spec(input, statements, level);
            Assembled {
                statement: StatementView::While { expression, statements: collected.body },
                level: collected.level,
                mode,
                rest: collected.rest,
                error: None,
            }
        },
        StatementView::For { variable, values, statements } => {
            let collected = collect_loops_spec(input, statements, level);
            Assembled {
                statement: StatementView::For { variable, values, statements: collected.body },
                level: collected.level,
                mode,
                rest: collected.rest,
                error: None,
            }
        },
        StatementView::Function { name, args, statements } => {
            let collected = collect_loops_spec(input, statements, level);
            Assembled {
                statement: StatementView::Function { name, args, statements: collected.body },
                level: collected.level,
                mode,
                rest: collected.rest,
                error: None,
            }
        },
        StatementView::If { expression, success, else_if, failure } => {
            let collected = collect_if_spec(
                input,
                IfParts { success, else_if, failure },
                level,
                mode,
            );
            Assembled {
                statement: StatementView::If {
                    expression,
                    success: collected.parts.success,
                    else_if: collected.parts.else_if,
                    failure: collected.parts.failure,
                },
                level: collected.level,
                mode: collected.mode,
                rest: collected.rest,
                error: collected.error,
            }
        },
        _ => Assembled { statement, level, mode, rest: input, error: None },
    }
}

/// What taking up one statement at the top level leaves.
pub struct Taken {
    pub shell: ShellView,
    pub rest: Seq<StatementView>,
    pub error: Option<FlowError>,
}

/// Takes up `statement` at the top level, with `input` behind it.
///
/// A block opener is assembled from `input`, one level deeper than before.
/// Where its terminator is there, the block is handed over to be run, and
/// nothing is pending: the depth is zero and the pending statement is the
/// empty placeholder. Where it is not, the block is kept as the pending
/// statement, with the depth and, for a conditional, the clause that is
/// open. Where a clause marker is out of place, the error is returned and
/// nothing is pending. Pipelines are handed over to be run. A terminator, a
/// clause marker or an empty statement is a syntax error here: its
/// diagnostic is put on the stack, and the state is otherwise as before.
/// `break` has no loop to end and does nothing.
pub open spec fn toplevel_spec(
    shell: ShellView,
    input: Seq<StatementView>,
    statement: StatementView,
) -> Taken {
    if opens_block(statement) {
        let assembled = assemble(
            statement,
            input,
            shell.flow_control.level + 1,
            if statement is If {
                IfMode::Success
            } else {
                shell.flow_control.current_if_mode
            },
        );
        if assembled.error is Some {
            Taken {
                shell: ShellView { flow_control: idle_flow_control(), ..shell },
                rest: assembled.rest,
                error: assembled.error,
            }
        } else if assembled.level == 0 {
            Taken {
                shell: begun(
                    ShellView {
                        flow_control: FlowControlView {
                            level: 0,
                            current_statement: StatementView::Default,
                            ..shell.flow_control
                        },
                        ..shell
                    },
                    assembled.statement,
                ),
                rest: assembled.rest,
                error: None,
            }
        } else {
            Taken {
                shell: ShellView {
                    flow_control: FlowControlView {
                        level: assembled.level,
                        current_statement: assembled.statement,
                        current_if_mode: assembled.mode,
                    },
                    ..shell
                },
                rest: assembled.rest,
                error: None,
            }
        }
    } else if statement is Pipelines {
        Taken { shell: begun(shell, statement), rest: input, error: None }
    } else if statement is ElseIf || statement is Else {
        Taken {
            shell: scheduled(shell, FrameView::Report(FlowError::NotAnIf)),
            rest: input,
            error: None,
        }
    } else if statement is End {
        Taken {
            shell: scheduled(shell, FrameView::Report(FlowError::NoBlockToEnd)),
            rest: input,
            error: None,
        }
    } else if statement is Default {
        Taken {
            shell: scheduled(shell, FrameView::Report(FlowError::EmptyStatement)),
            rest: input,
            error: None,
        }
    } else {
        Taken { shell, rest: input, error: None }
    }
}

/// The state after a syntax error: nothing is pending, and the diagnostic is
/// on the stack.
pub open spec fn aborted(shell: ShellView, error: FlowError) -> ShellView {
    ShellView {
        flow_control: idle_flow_control(),
        stack: shell.stack.push(FrameView::Report(error)),
        ..shell
    }
}

/// The state after a batch of statements has been received, before any of
/// its statements is taken up.
///
/// With nothing pending, the batch joins the input that waits. With a block
/// pending, the batch goes on assembling it. Where that completes the block,
/// the block is handed over to be run, nothing is pending any more, and what
/// is left of the batch joins the input that waits. Where it does not, the
/// block stays pending as far as it has come. Where a clause marker is out of
/// place, the pending block and the batch are dropped.
pub open spec fn received(shell: ShellView, batch: Seq<StatementView>) -> ShellView {
    if shell.flow_control.level == 0 {
        ShellView { input: shell.input + batch, ..shell }
    } else if opens_block(shell.flow_control.current_statement) {
        let assembled = assemble(
            shell.flow_control.current_statement,
            batch,
            shell.flow_control.level,
            shell.flow_control.current_if_mode,
        );
        if assembled.error is Some {
            aborted(shell, assembled.error->0)
        } else if assembled.level == 0 {
            begun(
                ShellView {
                    flow_control: FlowControlView {
                        level: 0,
                        current_statement: StatementView::Default,
                        current_if_mode: assembled.mode,
                    },
                    input: shell.input + assembled.rest,
                    ..shell
                },
                assembled.statement,
            )
        } else {
            ShellView {
                flow_control: FlowControlView {
                    level: assembled.level,
                    current_statement: assembled.statement,
                    current_if_mode: assembled.mode,
                },
                ..shell
            }
        }
    } else {
        shell
    }
}

/// A block that is open at the end of the input has consumed all of it.
pub proof fn lemma_rest_of_open(
    statement: StatementView,
    input: Seq<StatementView>,
    level: nat,
    mode: IfMode,
)
    requires
        opens_block(statement),
        assemble(statement, input, level, mode).error is None,
        assemble(statement, input, level, mode).level > 0,
    ensures
        assemble(statement, input, level, mode).rest == Seq::<StatementView>::empty(),
{
    match statement {
        StatementView::While { expression, statements } => {
            lemma_loops_rest_of_open(input, statements, level);
        },
        StatementView::For { variable, values, statements } => {
            lemma_loops_rest_of_open(input, statements, level);
        },
        StatementView::Function { name, args, statements } => {
            lemma_loops_rest_of_open(input, statements, level);
        },
        StatementView::If { expression, success, else_if, failure } => {
            lemma_if_rest_of_open(input, IfParts { success, else_if, failure }, level, mode);
        },
        _ => {},
    }
}

/// Assembling a block takes statements from the input and adds none to it.
pub proof fn lemma_assemble_rest(
    statement: StatementView,
    input: Seq<StatementView>,
    level: nat,
    mode: IfMode,
)
    ensures
        assemble(statement, input, level, mode).rest.len() <= input.len(),
{
    match statement {
        StatementView::While { expression, statements } => {
            lemma_collect_loops_rest(input, statements, level);
        },
        StatementView::For { variable, values, statements } => {
            lemma_collect_loops_rest(input, statements, level);
        },
        StatementView::Function { name, args, statements } => {
            lemma_collect_loops_rest(input, statements, level);
        },
        StatementView::If { expression, success, else_if, failure } => {
            lemma_collect_if_rest(input, IfParts { success, else_if, failure }, level, mode);
        },
        _ => {},
    }
}

/// The next statement of the input is due: nothing is running, nothing is
/// pending, and input waits.
pub open spec fn takes_input(shell: ShellView) -> bool {
    shell.stack.len() == 0 && shell.flow_control.level == 0 && shell.input.len() > 0
}

/// The state after the first statement of the input that waits has been
/// taken up at the top level, with the rest of the input behind it. A syntax
/// error in the assembly of a block drops what is left of the input.
pub open spec fn took_input(shell: ShellView) -> ShellView {
    let taken = toplevel_spec(
        ShellView { input: Seq::empty(), ..shell },
        shell.input.drop_first(),
        shell.input[0],
    );
    match taken.error {
        Some(error) => aborted(taken.shell, error),
        None => ShellView { input: taken.rest, ..taken.shell },
    }
}

/// Taking up a statement shortens the input that waits and keeps the state
/// well formed.
pub proof fn lemma_taking_shortens(shell: ShellView)
    requires
        shell.input.len() > 0,
    ensures
        took_input(shell).input.len() < shell.input.len(),
        shell.flow_control.level == 0 && well_formed(shell) ==> well_formed(took_input(shell)),
{
    let statement = shell.input[0];
    let input = shell.input.drop_first();
    let mode = if statement is If {
        IfMode::Success
    } else {
        shell.flow_control.current_if_mode
    };
    lemma_assemble_rest(statement, input, shell.flow_control.level + 1, mode);
    if opens_block(statement) && shell.flow_control.level == 0 {
        let assembled = assemble(statement, input, 1, mode);
        if assembled.error is None && assembled.level > 0 {
            lemma_rest_of_open(statement, input, 1, mode);
            if statement is If {
                lemma_collect_if_mode(
                    input,
                    IfParts {
                        success: statement->If_success,
                        else_if: statement->If_else_if,
                        failure: statement->If_failure,
                    },
                    1,
                    IfMode::Success,
                );
            }
        }
    }
}

/// Takes up the statements of the input that waits, one after another, for
/// as long as nothing is running and nothing is pending.
pub open spec fn settle_spec(shell: ShellView) -> ShellView
    decreases shell.input.len(),
    when true
    via settle_decreases
{
    if takes_input(shell) {
        settle_spec(took_input(shell))
    } else {
        shell
    }
}

#[via_fn]
proof fn settle_decreases(shell: ShellView) {
    if takes_input(shell) {
        lemma_taking_shortens(shell);
    }
}

/// What a batch of statements does to the state: the batch is received, and
/// then its statements are taken up, one after another, until one of them
/// has put something on the stack to be run, a block is left pending, or
/// none is left.
pub open spec fn on_command_spec(shell: ShellView, batch: Seq<StatementView>) -> ShellView {
    settle_spec(received(shell, batch))
}

/// The flow logic of a shell.
pub trait FlowLogic: View<V = ShellView> + Sized {
    /// Takes a batch of statements. A batch is taken when the batch before
    /// it has been dealt with: nothing is running and no input waits.
    fn on_command(&mut self, statements: VecDeque<Statement>)
        requires
            well_formed(old(self)@),
            settled(old(self)@),
            old(self)@.flow_control.level + statements@.len() <= usize::MAX,
        ensures
            final(self)@ == on_command_spec(old(self)@, statements_view(statements@)),
            well_formed(final(self)@),
    ;

    /// Takes up one statement at the top level; `iterator` holds what follows
    /// it in its batch.
    fn execute_toplevel(&mut self, iterator: &mut VecDeque<Statement>, statement: Statement) -> (result:
        Result<(), FlowError>)
        requires
            old(self)@.flow_control.level + 1 + old(iterator)@.len() <= usize::MAX,
        ensures
            ({
                let taken = toplevel_spec(
                    old(self)@,
                    statements_view(old(iterator)@),
                    statement@,
                );
                &&& final(self)@ == taken.shell
                &&& statements_view(final(iterator)@) == taken.rest
                &&& result == match taken.error {
                    Some(error) => Err::<(), FlowError>(error),
                    None => Ok(()),
                }
            }),
            well_formed(old(self)@) && old(self)@.input.len() == 0 ==> well_formed(final(self)@),
    ;

    /// Hands a complete `while` loop over to be run.
    fn execute_while(&mut self, expression: Pipeline, statements: Vec<Statement>)
        ensures
            final(self)@ == begun(
                old(self)@,
                StatementView::While {
                    expression: expression@,
                    statements: statements_view(statements@),
                },
            ),
    ;

    /// Hands a complete `for` loop over to be run.
    fn execute_for(&mut self, variable: &str, values: &str, statements: Vec<Statement>)
        ensures
            final(self)@ == begun(
                old(self)@,
                StatementView::For {
                    variable: variable@,
                    values: values@,
                    statements: statements_view(statements@),
                },
            ),
    ;

    /// Hands a complete conditional over to be run.
    fn execute_if(
        &mut self,
        expression: Pipeline,
        success: Vec<Statement>,
        else_if: Vec<ElseIf>,
        failure: Vec<Statement>,
    )
        ensures
            final(self)@ == begun(
                old(self)@,
                StatementView::If {
                    expression: expression@,
                    success: statements_view(success@),
                    else_if: else_ifs_view(else_if@),
                    failure: statements_view(failure@),
                },
            ),
    ;

    /// Hands a list of statements over to be run.
    fn execute_statements(&mut self, statements: Vec<Statement>)
        ensures
            final(self)@ == scheduled(old(self)@, FrameView::Block(statements_view(statements@))),
    ;
}

impl Shell {
    /// Puts an entry on the stack.
    pub fn schedule(&mut self, frame: Frame)
        ensures
            final(self)@ == scheduled(old(self)@, frame@),
    {
        proof {
            lemma_frames_push(self.stack@, frame);
        }
        self.stack.push(frame);
    }

    /// Enters a function in the table of functions.
    pub fn define(&mut self, name: String, args: Vec<String>, statements: Vec<Statement>)
        ensures
            final(self)@ == begun(
                old(self)@,
                StatementView::Function {
                    name: name@,
                    args: texts(args@),
                    statements: statements_view(statements@),
                },
            ),
    {
        self.functions.insert(Function { name, args, statements });
    }
}

impl FlowLogic for Shell {
    fn on_command(&mut self, statements: VecDeque<Statement>) {
        self.receive(statements);
        self.settle();
    }

    fn execute_toplevel(&mut self, iterator: &mut VecDeque<Statement>, statement: Statement) -> (result:
        Result<(), FlowError>) {
        match statement {
            Statement::While { expression, statements } => {
                let mut statements = statements;
                self.flow_control.level = self.flow_control.level + 1;
                collect_loops(iterator, &mut statements, &mut self.flow_control.level);
                if self.flow_control.level == 0 {
                    self.flow_control.current_statement = Statement::Default;
                    self.execute_while(expression, statements);
                } else {
                    self.flow_control.current_statement = Statement::While {
                        expression,
                        statements,
                    };
                }
            },
            Statement::For { variable, values, statements } => {
                let mut statements = statements;
                self.flow_control.level = self.flow_control.level + 1;
                collect_loops(iterator, &mut statements, &mut self.flow_control.level);
                if self.flow_control.level == 0 {
                    self.flow_control.current_statement = Statement::Default;
                    self.execute_for(variable.as_str(), values.as_str(), statements);
                } else {
                    self.flow_control.current_statement = Statement::For {
                        variable,
                        values,
                        statements,
                    };
                }
            },
            Statement::If { expression, success, else_if, failure } => {
                let mut success = success;
                let mut else_if = else_if;
                let mut failure = failure;
                self.flow_control.level = self.flow_control.level + 1;
                proof {
                    lemma_collect_if_mode(
                        statements_view(iterator@),
                        IfParts {
                            success: statements_view(success@),
                            else_if: else_ifs_view(else_if@),
                            failure: statements_view(failure@),
                        },
                        self.flow_control.level as nat,
                        IfMode::Success,
                    );
                }
                let mode = match collect_if(
                    iterator,
                    &mut success,
                    &mut else_if,
                    &mut failure,
                    &mut self.flow_control.level,
                    IfMode::Success,
                ) {
                    Ok(mode) => mode,
                    Err(error) => {
                        self.flow_control = FlowControl::new();
                        return Err(error);
                    },
                };
                if self.flow_control.level == 0 {
                    self.flow_control.current_statement = Statement::Default;
                    self.execute_if(expression, success, else_if, failure);
                } else {
                    self.flow_control.current_if_mode = mode;
                    self.flow_control.current_statement = Statement::If {
                        expression,
                        success,
                        else_if,
                        failure,
                    };
                }
            },
            Statement::Function { name, args, statements } => {
                let mut statements = statements;
                self.flow_control.level = self.flow_control.level + 1;
                collect_loops(iterator, &mut statements, &mut self.flow_control.level);
                if self.flow_control.level == 0 {
                    self.flow_control.current_statement = Statement::Default;
                    self.define(name, args, statements);
                } else {
                    self.flow_control.current_statement = Statement::Function {
                        name,
                        args,
                        statements,
                    };
                }
            },
            Statement::Pipelines(pipelines) => {
                self.schedule(Frame::Pipelines(into_queue(pipelines)));
            },
            Statement::ElseIf(_) | Statement::Else => {
                self.schedule(Frame::Report(FlowError::NotAnIf));
            },
            Statement::End => {
                self.schedule(Frame::Report(FlowError::NoBlockToEnd));
            },
            Statement::Default => {
                self.schedule(Frame::Report(FlowError::EmptyStatement));
            },
            Statement::Break => {},
        }
        Ok(())
    }

    fn execute_while(&mut self, expression: Pipeline, statements: Vec<Statement>) {
        self.schedule(Frame::While { expression, statements, phase: WhilePhase::Start });
    }

    fn execute_for(&mut self, variable: &str, values: &str, statements: Vec<Statement>) {
        self.schedule(
            Frame::For {
                variable: String::from_str(variable),
                values: String::from_str(values),
                remaining: ForValues::empty(),
                statements,
                phase: ForPhase::Start,
            },
        );
    }

    fn execute_if(
        &mut self,
        expression: Pipeline,
        success: Vec<Statement>,
        else_if: Vec<ElseIf>,
        failure: Vec<Statement>,
    ) {
        self.schedule(
            Frame::If {
                expression,
                success,
                else_if: into_queue(else_if),
                failure,
                phase: IfPhase::Start,
            },
        );
    }

    fn execute_statements(&mut self, statements: Vec<Statement>) {
        self.schedule(Frame::Block(into_queue(statements)));
    }
}

impl Shell {
    /// Receives a batch of statements: it joins the input that waits or goes
    /// on assembling the block that is pending.
    pub fn receive(&mut self, statements: VecDeque<Statement>)
        requires
            well_formed(old(self)@),
            old(self)@.flow_control.level + statements@.len() <= usize::MAX,
        ensures
            final(self)@ == received(old(self)@, statements_view(statements@)),
            well_formed(final(self)@),
    {
        let mut iterator = statements;
        if self.flow_control.level == 0 {
            let ghost waiting = self.input@;
            self.input.append(&mut iterator);
            assert(statements_view(self.input@) =~= statements_view(waiting) + statements_view(
                statements@,
            ));
            return ;
        }
        let mut current = Statement::Default;
        core::mem::swap(&mut current, &mut self.flow_control.current_statement);
        match current {
            Statement::While { expression, statements } => {
                let mut statements = statements;
                collect_loops(&mut iterator, &mut statements, &mut self.flow_control.level);
                if self.flow_control.level == 0 {
                    self.append_input(iterator);
                    self.execute_while(expression, statements);
                } else {
                    self.flow_control.current_statement = Statement::While {
                        expression,
                        statements,
                    };
                }
            },
            Statement::For { variable, values, statements } => {
                let mut statements = statements;
                collect_loops(&mut iterator, &mut statements, &mut self.flow_control.level);
                if self.flow_control.level == 0 {
                    self.append_input(iterator);
                    self.execute_for(variable.as_str(), values.as_str(), statements);
                } else {
                    self.flow_control.current_statement = Statement::For {
                        variable,
                        values,
                        statements,
                    };
                }
            },
            Statement::Function { name, args, statements } => {
                let mut statements = statements;
                collect_loops(&mut iterator, &mut statements, &mut self.flow_control.level);
                if self.flow_control.level == 0 {
                    self.append_input(iterator);
                    self.define(name, args, statements);
                } else {
                    self.flow_control.current_statement = Statement::Function {
                        name,
                        args,
                        statements,
                    };
                }
            },
            Statement::If { expression, success, else_if, failure } => {
                let mut success = success;
                let mut else_if = else_if;
                let mut failure = failure;
                proof {
                    lemma_collect_if_mode(
                        statements_view(iterator@),
                        IfParts {
                            success: statements_view(success@),
                            else_if: else_ifs_view(else_if@),
                            failure: statements_view(failure@),
                        },
                        self.flow_control.level as nat,
                        self.flow_control.current_if_mode,
                    );
                }
                match collect_if(
                    &mut iterator,
                    &mut success,
                    &mut else_if,
                    &mut failure,
                    &mut self.flow_control.level,
                    self.flow_control.current_if_mode,
                ) {
                    Ok(mode) => {
                        self.flow_control.current_if_mode = mode;
                        if self.flow_control.level == 0 {
                            self.append_input(iterator);
                            self.execute_if(expression, success, else_if, failure);
                        } else {
                            self.flow_control.current_statement = Statement::If {
                                expression,
                                success,
                                else_if,
                                failure,
                            };
                        }
                    },
                    Err(error) => {
                        self.flow_control = FlowControl::new();
                        self.schedule(Frame::Report(error));
                    },
                }
            },
            other => {
                self.flow_control.current_statement = other;
            },
        }
    }

    /// Takes up the first statement of the input that waits, if it is due.
    /// Says whether it was.
    pub fn take_up(&mut self) -> (taken: bool)
        ensures
            taken == takes_input(old(self)@),
            final(self)@ == if taken {
                took_input(old(self)@)
            } else {
                old(self)@
            },
            well_formed(old(self)@) ==> well_formed(final(self)@),
    {
        if self.stack.len() != 0 || self.flow_control.level != 0 || self.input.len() == 0 {
            return false;
        }
        proof {
            lemma_taking_shortens(self@);
        }
        let mut iterator: VecDeque<Statement> = VecDeque::new();
        core::mem::swap(&mut iterator, &mut self.input);
        assert(statements_view(self.input@) =~= Seq::empty());
        let ghost waiting = iterator@;
        let statement = iterator.pop_front().unwrap();
        proof {
            lemma_view_drop_first(waiting);
        }
        match self.execute_toplevel(&mut iterator, statement) {
            Ok(()) => {
                self.input = iterator;
            },
            Err(error) => {
                self.flow_control = FlowControl::new();
                self.schedule(Frame::Report(error));
            },
        }
        true
    }

    /// Takes up the statements of the input that waits for as long as
    /// nothing is running and nothing is pending.
    pub fn settle(&mut self)
        ensures
            final(self)@ == settle_spec(old(self)@),
            well_formed(old(self)@) ==> well_formed(final(self)@),
    {
        loop
            invariant
                settle_spec(self@) == settle_spec(old(self)@),
                well_formed(old(self)@) ==> well_formed(self@),
            decreases self@.input.len(),
        {
            proof {
                if self@.input.len() > 0 {
                    lemma_taking_shortens(self@);
                }
            }
            if !self.take_up() {
                return ;
            }
        }
    }

    /// Puts statements behind the input that waits.
    pub fn append_input(&mut self, statements: VecDeque<Statement>)
        ensures
            final(self)@ == (ShellView {
                input: old(self)@.input + statements_view(statements@),
                ..old(self)@
            }),
    {
        let mut statements = statements;
        let ghost waiting = self.input@;
        let ghost added = statements@;
        self.input.append(&mut statements);
        assert(statements_view(waiting + added) =~= statements_view(waiting) + statements_view(
            added,
        ));
    }
}

} // verus!
