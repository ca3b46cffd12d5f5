//! The shell's state: what the flow-control engine remembers, the functions
//! that are defined, the input that waits, and the stack of what is running.

use vstd::prelude::*;
use std::collections::VecDeque;
use crate::collect::opens_block;
use crate::flow_control::{FlowControl, FlowControlView, IfMode, idle_flow_control};
use crate::frame::{Frame, FrameView, frames_view};
use crate::functions::{FunctionTable, FunctionView};
use crate::statement::{Statement, StatementView, statements_view};

verus! {

/// The state of a shell.
#[derive(Debug, PartialEq, Eq)]
pub struct Shell {
    /// The block that is being assembled across input batches.
    pub flow_control: FlowControl,
    /// The functions that are defined.
    pub functions: FunctionTable,
    /// The statements of the input that have not been taken up yet.
    pub input: VecDeque<Statement>,
    /// What is running, the innermost last.
    pub stack: Vec<Frame>,
}

/// The state of a shell as plain values.
pub struct ShellView {
    pub flow_control: FlowControlView,
    pub functions: Map<Seq<char>, FunctionView>,
    pub input: Seq<StatementView>,
    pub stack: Seq<FrameView>,
}

impl View for Shell {
    type V = ShellView;

    open spec fn view(&self) -> ShellView {
        ShellView {
            flow_control: self.flow_control@,
            functions: self.functions@,
            input: statements_view(self.input@),
            stack: frames_view(self.stack@),
        }
    }
}

/// A state is well formed where what the engine remembers fits together:
/// with nothing pending, the pending statement is the empty placeholder;
/// with a block pending, the pending statement is the opener of that block,
/// and no input waits, since the block has taken all of it; and an `else if`
/// clause that is being filled exists.
pub open spec fn well_formed(shell: ShellView) -> bool {
    &&& shell.flow_control.level == 0 ==> shell.flow_control.current_statement
        == StatementView::Default
    &&& shell.flow_control.level > 0 ==> opens_block(shell.flow_control.current_statement)
        && shell.input.len() == 0
    &&& shell.flow_control.current_if_mode == IfMode::ElseIf ==> (
    shell.flow_control.current_statement matches StatementView::If { else_if, .. }
        ==> else_if.len() > 0)
}

/// Nothing is running and no input waits: the batch before has been dealt
/// with, as far as it could be.
pub open spec fn settled(shell: ShellView) -> bool {
    shell.stack.len() == 0 && shell.input.len() == 0
}

impl Shell {
    /// A shell that has seen no input.
    pub fn new() -> (shell: Shell)
        ensures
            shell@ == (ShellView {
                flow_control: idle_flow_control(),
                functions: Map::empty(),
                input: Seq::empty(),
                stack: Seq::empty(),
            }),
            well_formed(shell@),
            settled(shell@),
    {
        let shell = Shell {
            flow_control: FlowControl::new(),
            functions: FunctionTable::new(),
            input: VecDeque::new(),
            stack: Vec::new(),
        };
        assert(shell@.input =~= Seq::empty());
        assert(shell@.stack =~= Seq::empty());
        shell
    }
}

} // verus!
