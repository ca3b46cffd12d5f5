//! What the machine that runs statements keeps on its stack, what it asks of
//! its caller, and what the caller answers.
//!
//! The machine does no outside work itself. It asks for a pipeline to be run,
//! a value expression to be expanded, a variable to be bound or a diagnostic
//! to be shown, and goes on when it is given the answer.

use vstd::prelude::*;
use std::collections::VecDeque;
use crate::flow_control::{FlowError, SUCCESS};
use crate::for_expression::ForValues;
use crate::job::JobView;
use crate::statement::{
    ElseIf, ElseIfView, Pipeline, Statement, StatementView, else_ifs_view, pipelines_view,
    statements_view,
};

verus! {

/// How far a `while` loop has come.
#[derive(Debug, PartialEq, Eq, Clone, Copy, Structural)]
pub enum WhilePhase {
    /// A round begins: the condition has not been asked for yet.
    Start,
    /// The status of the condition is awaited.
    Await,
    /// The body is running.
    Running,
}

/// How far a `for` loop has come.
#[derive(Debug, PartialEq, Eq, Clone, Copy, Structural)]
pub enum ForPhase {
    /// The values have not been asked for yet.
    Start,
    /// The expanded value expression is awaited.
    Await,
    /// The next value is due.
    Next,
    /// The variable has been asked to be bound to its next value.
    Bound,
    /// The body is running.
    Running,
}

/// How far a conditional has come.
#[derive(Debug, PartialEq, Eq, Clone, Copy, Structural)]
pub enum IfPhase {
    /// The condition has not been asked for yet.
    Start,
    /// The status of the condition is awaited.
    Await,
}

/// One entry of the machine's stack.
#[allow(inconsistent_fields)]
#[derive(Debug, PartialEq, Eq)]
pub enum Frame {
    /// A diagnostic that is to be shown.
    Report(FlowError),
    /// Pipelines that are to be run in order, whatever their status.
    Pipelines(VecDeque<Pipeline>),
    /// Statements that are to be run in order.
    Block(VecDeque<Statement>),
    /// A `while` loop.
    While { expression: Pipeline, statements: Vec<Statement>, phase: WhilePhase },
    /// A `for` loop and the values it has still to run over.
    For {
        variable: String,
        values: String,
        remaining: ForValues,
        statements: Vec<Statement>,
        phase: ForPhase,
    },
    /// A conditional: the condition that is tested next, the statements that
    /// run if it holds, the clauses that are tried if it does not, and the
    /// statements that run if none holds.
    If {
        expression: Pipeline,
        success: Vec<Statement>,
        else_if: VecDeque<ElseIf>,
        failure: Vec<Statement>,
        phase: IfPhase,
    },
}

/// An entry of the machine's stack as plain values.
#[allow(inconsistent_fields)]
pub enum FrameView {
    Report(FlowError),
    Pipelines(Seq<Seq<JobView>>),
    Block(Seq<StatementView>),
    While { expression: Seq<JobView>, statements: Seq<StatementView>, phase: WhilePhase },
    For {
        variable: Seq<char>,
        values: Seq<char>,
        remaining: Seq<Seq<char>>,
        statements: Seq<StatementView>,
        phase: ForPhase,
    },
    If {
        expression: Seq<JobView>,
        success: Seq<StatementView>,
        else_if: Seq<ElseIfView>,
        failure: Seq<StatementView>,
        phase: IfPhase,
    },
}

impl View for Frame {
    type V = FrameView;

    open spec fn view(&self) -> FrameView {
        match *self {
            Frame::Report(error) => FrameView::Report(error),
            Frame::Pipelines(pipelines) => FrameView::Pipelines(pipelines_view(pipelines@)),
            Frame::Block(statements) => FrameView::Block(statements_view(statements@)),
            Frame::While { expression, statements, phase } => FrameView::While {
                expression: expression@,
                statements: statements_view(statements@),
                phase,
            },
            Frame::For { variable, values, remaining, statements, phase } => FrameView::For {
                variable: variable@,
                values: values@,
                remaining: remaining@,
                statements: statements_view(statements@),
                phase,
            },
            Frame::If { expression, success, else_if, failure, phase } => FrameView::If {
                expression: expression@,
                success: statements_view(success@),
                else_if: else_ifs_view(else_if@),
                failure: statements_view(failure@),
                phase,
            },
        }
    }
}

/// The entries of a stack, each as plain values.
pub open spec fn frames_view(frames: Seq<Frame>) -> Seq<FrameView> {
    Seq::new(frames.len(), |i: int| frames[i]@)
}

/// What the machine asks of its caller.
#[derive(Debug, PartialEq, Eq)]
pub enum Request {
    /// Nothing; call again.
    Continue,
    /// Nothing, and nothing is left to do until more input arrives.
    Idle,
    /// Show this diagnostic.
    Report(FlowError),
    /// Run this pipeline and answer with its exit status.
    Run(Pipeline),
    /// Expand this value expression and answer with the expanded text.
    Expand(String),
    /// Bind the variable of the first name to the second text.
    Bind(String, String),
}

/// What the machine asks, as plain values.
pub enum RequestView {
    Continue,
    Idle,
    Report(FlowError),
    Run(Seq<JobView>),
    Expand(Seq<char>),
    Bind(Seq<char>, Seq<char>),
}

impl View for Request {
    type V = RequestView;

    open spec fn view(&self) -> RequestView {
        match *self {
            Request::Continue => RequestView::Continue,
            Request::Idle => RequestView::Idle,
            Request::Report(error) => RequestView::Report(error),
            Request::Run(pipeline) => RequestView::Run(pipeline@),
            Request::Expand(values) => RequestView::Expand(values@),
            Request::Bind(variable, value) => RequestView::Bind(variable@, value@),
        }
    }
}

/// What the caller answers.
#[derive(Debug, PartialEq, Eq)]
pub enum Reply {
    /// There is nothing to answer.
    Nothing,
    /// The exit status of the pipeline that was run, if it has one.
    Status(Option<i32>),
    /// The expanded text of the value expression.
    Expanded(String),
}

/// What the caller answers, as plain values.
pub enum ReplyView {
    Nothing,
    Status(Option<i32>),
    Expanded(Seq<char>),
}

impl View for Reply {
    type V = ReplyView;

    open spec fn view(&self) -> ReplyView {
        match *self {
            Reply::Nothing => ReplyView::Nothing,
            Reply::Status(status) => ReplyView::Status(status),
            Reply::Expanded(text) => ReplyView::Expanded(text@),
        }
    }
}

/// Whether an answer says that a pipeline succeeded: it does so only with
/// the exit status of success. An answer without a status says it failed.
pub open spec fn succeeded(reply: ReplyView) -> bool {
    reply == ReplyView::Status(Some(SUCCESS))
}

/// Whether an answer says that a pipeline succeeded.
pub fn is_success(reply: &Reply) -> (answer: bool)
    ensures
        answer == succeeded(reply@),
{
    match reply {
        Reply::Status(Some(status)) => *status == SUCCESS,
        _ => false,
    }
}

/// Turns a list into a queue with the same items in the same order.
pub fn into_queue<T>(list: Vec<T>) -> (queue: VecDeque<T>)
    ensures
        queue@ == list@,
{
    let mut list = list;
    let mut queue: VecDeque<T> = VecDeque::new();
    let ghost whole = list@;
    while list.len() > 0
        invariant
            list@ + queue@ == whole,
        decreases list@.len(),
    {
        let ghost before = list@;
        let ghost behind = queue@;
        let item = list.pop().unwrap();
        queue.push_front(item);
        assert(list@ + queue@ =~= before + behind);
    }
    assert(queue@ =~= whole);
    queue
}

/// The plain values of a list of pipelines without its first pipeline.
pub proof fn lemma_pipelines_drop_first(pipelines: Seq<Pipeline>)
    requires
        pipelines.len() > 0,
    ensures
        pipelines_view(pipelines.subrange(1, pipelines.len() as int)) == pipelines_view(
            pipelines,
        ).drop_first(),
        pipelines_view(pipelines)[0] == pipelines[0]@,
{
    assert(pipelines_view(pipelines.subrange(1, pipelines.len() as int)) =~= pipelines_view(
        pipelines,
    ).drop_first());
}

/// The plain values of a stack grow with the stack.
pub proof fn lemma_frames_push(frames: Seq<Frame>, frame: Frame)
    ensures
        frames_view(frames.push(frame)) == frames_view(frames).push(frame@),
{
    assert(frames_view(frames.push(frame)) =~= frames_view(frames).push(frame@));
}

/// The plain values of a stack without its top.
pub proof fn lemma_frames_drop_last(frames: Seq<Frame>)
    requires
        frames.len() > 0,
    ensures
        frames_view(frames.subrange(0, frames.len() - 1)) == frames_view(frames).drop_last(),
        frames_view(frames).last() == frames.last()@,
{
    assert(frames_view(frames.subrange(0, frames.len() - 1)) =~= frames_view(
        frames,
    ).drop_last());
}

} // verus!
