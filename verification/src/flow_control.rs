//! The state that the flow-control engine keeps between input batches.

use vstd::prelude::*;
use crate::statement::{Statement, StatementView};
use crate::text::same_text;

verus! {

/// The exit status that counts as success.
pub const SUCCESS: i32 = 0;

/// A syntax error in the flow of statements.
#[derive(Debug, PartialEq, Eq, Clone, Copy, Structural)]
pub enum FlowError {
    /// `else` or `else if` after the `else` clause has begun.
    ElseAlreadyGiven,
    /// `else` or `else if` outside a conditional.
    NotAnIf,
    /// `end` with no block open.
    NoBlockToEnd,
    /// An empty statement where a statement is to be run.
    EmptyStatement,
}

impl FlowError {
    /// The diagnostic for this error.
    pub fn message(&self) -> (text: &'static str)
        ensures
            text@ == match *self {
                FlowError::ElseAlreadyGiven => "ion: syntax error: else block already given"@,
                FlowError::NotAnIf => "ion: syntax error: not an if statement"@,
                FlowError::NoBlockToEnd => "ion: syntax error: no block to end"@,
                FlowError::EmptyStatement => "ion: syntax error: empty statement"@,
            },
    {
        match self {
            FlowError::ElseAlreadyGiven => "ion: syntax error: else block already given",
            FlowError::NotAnIf => "ion: syntax error: not an if statement",
            FlowError::NoBlockToEnd => "ion: syntax error: no block to end",
            FlowError::EmptyStatement => "ion: syntax error: empty statement",
        }
    }
}

/// The clause of a conditional that collected statements go to.
#[derive(Debug, PartialEq, Eq, Clone, Copy, Structural)]
pub enum IfMode {
    /// The statements after the condition.
    Success,
    /// The statements of the latest `else if` clause.
    ElseIf,
    /// The statements after `else`.
    Failure,
}

/// What the engine remembers of a block that is not closed yet.
#[derive(Debug, PartialEq, Eq)]
pub struct FlowControl {
    /// How many blocks are open; zero when nothing is pending.
    pub level: usize,
    /// The block that is being assembled; `Default` when nothing is pending.
    pub current_statement: Statement,
    /// The clause that is being filled, while a conditional is assembled.
    pub current_if_mode: IfMode,
}

/// The engine's memory as plain values.
pub struct FlowControlView {
    pub level: nat,
    pub current_statement: StatementView,
    pub current_if_mode: IfMode,
}

impl View for FlowControl {
    type V = FlowControlView;

    open spec fn view(&self) -> FlowControlView {
        FlowControlView {
            level: self.level as nat,
            current_statement: self.current_statement@,
            current_if_mode: self.current_if_mode,
        }
    }
}

/// The memory of an engine with nothing pending.
pub open spec fn idle_flow_control() -> FlowControlView {
    FlowControlView {
        level: 0,
        current_statement: StatementView::Default,
        current_if_mode: IfMode::Success,
    }
}

impl FlowControl {
    /// An engine with nothing pending.
    pub fn new() -> (flow_control: FlowControl)
        ensures
            flow_control@ == idle_flow_control(),
    {
        FlowControl {
            level: 0,
            current_statement: Statement::Default,
            current_if_mode: IfMode::Success,
        }
    }
}

/// Whether a command word is one of the flow-control keywords.
pub fn is_flow_control_command(command: &str) -> (answer: bool)
    ensures
        answer == (command@ == "end"@ || command@ == "if"@ || command@ == "else"@),
{
    same_text(command, "end") || same_text(command, "if") || same_text(command, "else")
}

} // verus!
