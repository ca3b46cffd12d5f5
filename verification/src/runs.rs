//! Whole runs of the machine: what it asks for, from the first step on a
//! list of statements or on a loop to the step that ends it.
//!
//! A run is a row of steps, each with the answer that the caller gives to
//! what the step before asked. The laws here are about statements that are
//! run without a decision in between: lists of pipelines, and `for` loops
//! over such lists.

use vstd::prelude::*;
use crate::collect::closes_at;
use crate::flow::on_command_spec;
use crate::for_expression::{
    decimal, for_expression_spec, lemma_decimal_is_written, lemma_decimal_reads_back,
    lemma_written_range_reads_back, range_values, values_spec,
};
use crate::laws::lemma_batch_with_whole_block;
use crate::frame::{ForPhase, FrameView, ReplyView, RequestView};
use crate::job::JobView;
use crate::machine::{finished, placeholder, step_spec, with_stack};
use crate::shell::{ShellView, settled, well_formed};
use crate::statement::StatementView;

verus! {

/// What a run leaves: the state, and what was asked of the caller, in order.
pub struct Ran {
    pub shell: ShellView,
    pub asked: Seq<RequestView>,
}

/// What a step asks of the caller, if it asks anything.
pub open spec fn asks(request: RequestView) -> Seq<RequestView> {
    if request is Continue || request is Idle {
        Seq::empty()
    } else {
        seq![request]
    }
}

/// Runs the machine: one step for each answer, in order.
pub open spec fn run(shell: ShellView, replies: Seq<ReplyView>) -> Ran
    decreases replies.len(),
{
    if replies.len() == 0 {
        Ran { shell, asked: Seq::empty() }
    } else {
        let step = step_spec(shell, replies[0]);
        let later = run(step.shell, replies.drop_first());
        Ran { shell: later.shell, asked: asks(step.request) + later.asked }
    }
}

/// A run in two parts is the run of the first part and then, from where that
/// ends, the run of the second.
pub proof fn lemma_run_in_parts(shell: ShellView, first: Seq<ReplyView>, second: Seq<ReplyView>)
    ensures
        run(shell, first + second) == (Ran {
            shell: run(run(shell, first).shell, second).shell,
            asked: run(shell, first).asked + run(run(shell, first).shell, second).asked,
        }),
    decreases first.len(),
{
    if first.len() == 0 {
        assert(first + second =~= second);
        assert(run(shell, first).asked + run(shell, second).asked =~= run(shell, second).asked);
    } else {
        let step = step_spec(shell, first[0]);
        assert((first + second).drop_first() =~= first.drop_first() + second);
        assert((first + second)[0] == first[0]);
        lemma_run_in_parts(step.shell, first.drop_first(), second);
        let front = run(step.shell, first.drop_first());
        let back = run(front.shell, second);
        assert(asks(step.request) + (front.asked + back.asked) =~= (asks(step.request)
            + front.asked) + back.asked);
    }
}

/// The requests to run each pipeline of a list, in order.
pub open spec fn pipeline_runs(pipelines: Seq<Seq<JobView>>) -> Seq<RequestView> {
    Seq::new(pipelines.len(), |i: int| RequestView::Run(pipelines[i]))
}

/// A list of pipelines on top of the stack is run pipeline by pipeline, in
/// order, whatever the answers are; one step more than there are pipelines
/// leaves the stack as it was below the list.
pub proof fn lemma_pipelines_run(
    shell: ShellView,
    below: Seq<FrameView>,
    pipelines: Seq<Seq<JobView>>,
    replies: Seq<ReplyView>,
)
    requires
        shell.stack == below.push(FrameView::Pipelines(pipelines)),
        replies.len() == pipelines.len() + 1,
    ensures
        run(shell, replies) == (Ran {
            shell: with_stack(shell, below),
            asked: pipeline_runs(pipelines),
        }),
    decreases pipelines.len(),
{
    let step = step_spec(shell, replies[0]);
    assert(shell.stack.drop_last() =~= below);
    if pipelines.len() == 0 {
        assert(replies.drop_first() =~= Seq::<ReplyView>::empty());
        assert(run(step.shell, replies.drop_first()).asked =~= Seq::<RequestView>::empty());
        assert(asks(step.request) + Seq::<RequestView>::empty() =~= pipeline_runs(pipelines));
    } else {
        lemma_pipelines_run(step.shell, below, pipelines.drop_first(), replies.drop_first());
        assert(asks(step.request) + pipeline_runs(pipelines.drop_first()) =~= pipeline_runs(
            pipelines,
        ));
    }
}

/// Lists of pipelines and nothing else.
pub open spec fn all_pipelines(statements: Seq<StatementView>) -> bool {
    forall|i: int| 0 <= i < statements.len() ==> #[trigger] statements[i] is Pipelines
}

/// The requests that running a list of statements makes, where every
/// statement is a list of pipelines: each pipeline of each statement, in
/// order.
pub open spec fn block_runs(statements: Seq<StatementView>) -> Seq<RequestView>
    decreases statements.len(),
{
    if statements.len() == 0 {
        Seq::empty()
    } else {
        pipeline_runs(statements[0]->Pipelines_0) + block_runs(statements.drop_first())
    }
}

/// The number of steps that running such a list takes.
pub open spec fn block_steps(statements: Seq<StatementView>) -> nat
    decreases statements.len(),
{
    if statements.len() == 0 {
        1
    } else {
        2 + statements[0]->Pipelines_0.len() + block_steps(statements.drop_first())
    }
}

/// A list of statements on top of the stack, each a list of pipelines, is
/// run statement by statement: every pipeline is asked to be run once, in
/// the order in which it stands, and then the list has run to its end
/// without `break`.
pub proof fn lemma_block_runs(
    shell: ShellView,
    below: Seq<FrameView>,
    statements: Seq<StatementView>,
    replies: Seq<ReplyView>,
)
    requires
        shell.stack == below.push(FrameView::Block(statements)),
        all_pipelines(statements),
        replies.len() == block_steps(statements),
    ensures
        run(shell, replies) == (Ran {
            shell: with_stack(shell, finished(below, false)),
            asked: block_runs(statements),
        }),
    decreases statements.len(),
{
    let step = step_spec(shell, replies[0]);
    assert(shell.stack.drop_last() =~= below);
    if statements.len() == 0 {
        assert(replies.drop_first() =~= Seq::<ReplyView>::empty());
        assert(run(step.shell, replies.drop_first()).asked =~= Seq::<RequestView>::empty());
        assert(asks(step.request) + Seq::<RequestView>::empty() =~= block_runs(statements));
    } else {
        assert(statements[0] is Pipelines);
        let pipelines = statements[0]->Pipelines_0;
        let rest = statements.drop_first();
        let under = below.push(FrameView::Block(rest));
        assert(step.shell.stack == under.push(FrameView::Pipelines(pipelines)));
        let middle = replies.subrange(1, 2 + pipelines.len() as int);
        let tail = replies.subrange(2 + pipelines.len() as int, replies.len() as int);
        assert(replies.drop_first() =~= middle + tail);
        lemma_run_in_parts(step.shell, middle, tail);
        lemma_pipelines_run(step.shell, under, pipelines, middle);
        let after = with_stack(step.shell, under);
        assert forall|i: int| 0 <= i < rest.len() implies #[trigger] rest[i] is Pipelines by {
            assert(rest[i] == statements[i + 1]);
        }
        lemma_block_runs(after, below, rest, tail);
        assert(asks(step.request) + (pipeline_runs(pipelines) + block_runs(rest)) =~= block_runs(
            statements,
        ));
    }
}

/// The requests that a `for` loop makes over the values that it has left,
/// where its body is a list of statements that are lists of pipelines: for
/// each value in order, the request to bind the variable to it, unless it is
/// the placeholder, and then the requests of the body.
pub open spec fn for_runs(
    variable: Seq<char>,
    remaining: Seq<Seq<char>>,
    statements: Seq<StatementView>,
) -> Seq<RequestView>
    decreases remaining.len(),
{
    if remaining.len() == 0 {
        Seq::empty()
    } else {
        (if remaining[0] == placeholder() {
            Seq::empty()
        } else {
            seq![RequestView::Bind(variable, remaining[0])]
        }) + block_runs(statements) + for_runs(variable, remaining.drop_first(), statements)
    }
}

/// The number of steps that such a loop takes over the values it has left.
pub open spec fn for_steps(remaining: Seq<Seq<char>>, statements: Seq<StatementView>) -> nat
    decreases remaining.len(),
{
    if remaining.len() == 0 {
        1
    } else {
        (if remaining[0] == placeholder() {
            1nat
        } else {
            2nat
        }) + block_steps(statements) + for_steps(remaining.drop_first(), statements)
    }
}

/// A `for` loop whose body holds lists of pipelines only runs its body once
/// for each value that it has left, in order, each time after the variable
/// has been asked to be bound to the value; then the loop is gone and the
/// stack is as it was below it.
pub proof fn lemma_for_runs(
    shell: ShellView,
    below: Seq<FrameView>,
    variable: Seq<char>,
    values: Seq<char>,
    remaining: Seq<Seq<char>>,
    statements: Seq<StatementView>,
    replies: Seq<ReplyView>,
)
    requires
        shell.stack == below.push(
            FrameView::For { variable, values, remaining, statements, phase: ForPhase::Next },
        ),
        all_pipelines(statements),
        replies.len() == for_steps(remaining, statements),
    ensures
        run(shell, replies) == (Ran {
            shell: with_stack(shell, below),
            asked: for_runs(variable, remaining, statements),
        }),
    decreases remaining.len(),
{
    let first = step_spec(shell, replies[0]);
    assert(shell.stack.drop_last() =~= below);
    if remaining.len() == 0 {
        assert(replies.drop_first() =~= Seq::<ReplyView>::empty());
        assert(run(first.shell, replies.drop_first()).asked =~= Seq::<RequestView>::empty());
        assert(asks(first.request) + Seq::<RequestView>::empty() =~= for_runs(
            variable,
            remaining,
            statements,
        ));
    } else {
        let left = remaining.drop_first();
        let running = below.push(
            FrameView::For {
                variable,
                values,
                remaining: left,
                statements,
                phase: ForPhase::Running,
            },
        );
        let next = below.push(
            FrameView::For { variable, values, remaining: left, statements, phase: ForPhase::Next },
        );
        assert(running.drop_last() =~= below);
        assert(finished(running, false) == next);
        let body_steps = block_steps(statements) as int;
        if remaining[0] == placeholder() {
            assert(first.shell.stack == running.push(FrameView::Block(statements)));
            let middle = replies.subrange(1, 1 + body_steps);
            let tail = replies.subrange(1 + body_steps, replies.len() as int);
            assert(replies.drop_first() =~= middle + tail);
            lemma_run_in_parts(first.shell, middle, tail);
            lemma_block_runs(first.shell, running, statements, middle);
            let after = with_stack(first.shell, next);
            lemma_for_runs(after, below, variable, values, left, statements, tail);
            assert(asks(first.request) + (block_runs(statements) + for_runs(
                variable,
                left,
                statements,
            )) =~= for_runs(variable, remaining, statements));
        } else {
            let bound = below.push(
                FrameView::For {
                    variable,
                    values,
                    remaining: left,
                    statements,
                    phase: ForPhase::Bound,
                },
            );
            assert(first.shell.stack == bound);
            assert(bound.drop_last() =~= below);
            let second = step_spec(first.shell, replies[1]);
            assert(second.shell.stack == running.push(FrameView::Block(statements)));
            let others = replies.drop_first();
            assert(others[0] == replies[1]);
            let middle = replies.subrange(2, 2 + body_steps);
            let tail = replies.subrange(2 + body_steps, replies.len() as int);
            assert(others.drop_first() =~= middle + tail);
            lemma_run_in_parts(second.shell, middle, tail);
            lemma_block_runs(second.shell, running, statements, middle);
            let after = with_stack(second.shell, next);
            lemma_for_runs(after, below, variable, values, left, statements, tail);
            assert(asks(first.request) + (asks(second.request) + (block_runs(statements)
                + for_runs(variable, left, statements))) =~= for_runs(
                variable,
                remaining,
                statements,
            ));
        }
    }
}

/// A `for` loop from its first step on: the value expression is asked to be
/// expanded; the answer gives the values; then the body runs once for each
/// value, in order, each time after the variable has been asked to be bound
/// to the value. The second answer is the expansion; the other answers do
/// not matter.
pub proof fn lemma_for_loop_runs(
    shell: ShellView,
    below: Seq<FrameView>,
    variable: Seq<char>,
    values: Seq<char>,
    statements: Seq<StatementView>,
    text: Seq<char>,
    replies: Seq<ReplyView>,
)
    requires
        shell.stack == below.push(
            FrameView::For {
                variable,
                values,
                remaining: Seq::empty(),
                statements,
                phase: ForPhase::Start,
            },
        ),
        all_pipelines(statements),
        replies.len() == 2 + for_steps(values_spec(for_expression_spec(text)), statements),
        replies[1] == ReplyView::Expanded(text),
    ensures
        run(shell, replies) == (Ran {
            shell: with_stack(shell, below),
            asked: seq![RequestView::Expand(values)] + for_runs(
                variable,
                values_spec(for_expression_spec(text)),
                statements,
            ),
        }),
{
    let remaining = values_spec(for_expression_spec(text));
    let first = step_spec(shell, replies[0]);
    assert(shell.stack.drop_last() =~= below);
    assert(first.shell.stack.drop_last() =~= below);
    let others = replies.drop_first();
    assert(others[0] == replies[1]);
    let second = step_spec(first.shell, others[0]);
    let tail = others.drop_first();
    assert(second.shell.stack == below.push(
        FrameView::For { variable, values, remaining, statements, phase: ForPhase::Next },
    ));
    assert(second.shell.stack.drop_last() =~= below);
    lemma_for_runs(second.shell, below, variable, values, remaining, statements, tail);
    let looped = run(second.shell, tail);
    assert(run(first.shell, others) == (Ran {
        shell: looped.shell,
        asked: asks(second.request) + looped.asked,
    }));
    assert(run(shell, replies) == (Ran {
        shell: looped.shell,
        asked: asks(first.request) + (asks(second.request) + looped.asked),
    }));
    assert(with_stack(second.shell, below) == with_stack(shell, below));
    assert(asks(first.request) + (asks(second.request) + for_runs(
        variable,
        remaining,
        statements,
    )) =~= seq![RequestView::Expand(values)] + for_runs(variable, remaining, statements));
}

/// The number of steps that running the statements of the input that waits
/// takes, where every statement is a list of pipelines.
pub open spec fn input_steps(statements: Seq<StatementView>) -> nat
    decreases statements.len(),
{
    if statements.len() == 0 {
        0
    } else {
        2 + statements[0]->Pipelines_0.len() + input_steps(statements.drop_first())
    }
}

/// With nothing running and nothing pending, the statements of the input
/// that waits are run in the order in which they wait: where each is a list
/// of pipelines, every pipeline is asked to be run once, in order, and then
/// no input waits.
pub proof fn lemma_input_runs(shell: ShellView, replies: Seq<ReplyView>)
    requires
        shell.stack.len() == 0,
        shell.flow_control.level == 0,
        all_pipelines(shell.input),
        replies.len() == input_steps(shell.input),
    ensures
        run(shell, replies) == (Ran {
            shell: ShellView { input: Seq::empty(), ..shell },
            asked: block_runs(shell.input),
        }),
    decreases shell.input.len(),
{
    if shell.input.len() == 0 {
        assert(shell.input =~= Seq::<StatementView>::empty());
    } else {
        assert(shell.input[0] is Pipelines);
        let pipelines = shell.input[0]->Pipelines_0;
        let rest = shell.input.drop_first();
        let step = step_spec(shell, replies[0]);
        assert(step.shell.stack == shell.stack.push(FrameView::Pipelines(pipelines)));
        assert(step.shell.input == rest);
        let middle = replies.subrange(1, 2 + pipelines.len() as int);
        let tail = replies.subrange(2 + pipelines.len() as int, replies.len() as int);
        assert(replies.drop_first() =~= middle + tail);
        lemma_run_in_parts(step.shell, middle, tail);
        lemma_pipelines_run(step.shell, shell.stack, pipelines, middle);
        let after = with_stack(step.shell, shell.stack);
        assert forall|i: int| 0 <= i < rest.len() implies #[trigger] rest[i] is Pipelines by {
            assert(rest[i] == shell.input[i + 1]);
        }
        lemma_input_runs(after, tail);
        assert(asks(step.request) + (pipeline_runs(pipelines) + block_runs(rest)) =~= block_runs(
            shell.input,
        ));
    }
}

/// No value of a range is the placeholder.
pub proof fn lemma_range_has_no_placeholder(start: nat, end: nat)
    ensures
        forall|i: int|
            0 <= i < range_values(start, end).len() ==> #[trigger] range_values(start, end)[i]
                != placeholder(),
{
    reveal_strlit("_");
    assert forall|i: int| 0 <= i < range_values(start, end).len() implies #[trigger] range_values(
        start,
        end,
    )[i] != placeholder() by {
        let n = (start + i) as nat;
        lemma_decimal_reads_back(n);
        lemma_decimal_is_written(n);
        assert(decimal(n)[0] != '_');
    }
}

/// A `for` loop over values among which the placeholder is not, with one
/// pipeline as its body, asks in turn, for each value in order: to bind the
/// variable to the value, and then to run the pipeline. The pipeline is run
/// once for each value, each time after its binding, and no more.
pub proof fn lemma_for_runs_of_one_pipeline(
    variable: Seq<char>,
    remaining: Seq<Seq<char>>,
    pipeline: Seq<JobView>,
)
    requires
        forall|i: int| 0 <= i < remaining.len() ==> #[trigger] remaining[i] != placeholder(),
    ensures
        ({
            let asked = for_runs(
                variable,
                remaining,
                seq![StatementView::Pipelines(seq![pipeline])],
            );
            &&& asked.len() == 2 * remaining.len()
            &&& forall|i: int|
                0 <= i < remaining.len() ==> #[trigger] asked[2 * i] == RequestView::Bind(
                    variable,
                    remaining[i],
                )
            &&& forall|i: int|
                0 <= i < remaining.len() ==> #[trigger] asked[2 * i + 1] == RequestView::Run(
                    pipeline,
                )
        }),
    decreases remaining.len(),
{
    let body = seq![StatementView::Pipelines(seq![pipeline])];
    let asked = for_runs(variable, remaining, body);
    assert(body.drop_first() =~= Seq::<StatementView>::empty());
    assert(block_runs(body.drop_first()) =~= Seq::<RequestView>::empty());
    assert(block_runs(body) =~= seq![RequestView::Run(pipeline)]);
    if remaining.len() > 0 {
        let left = remaining.drop_first();
        lemma_for_runs_of_one_pipeline(variable, left, pipeline);
        let later = for_runs(variable, left, body);
        assert(remaining[0] != placeholder());
        assert(asked =~= seq![RequestView::Bind(variable, remaining[0])] + seq![
            RequestView::Run(pipeline),
        ] + later);
        assert forall|i: int| 0 <= i < remaining.len() implies #[trigger] asked[2 * i]
            == RequestView::Bind(variable, remaining[i]) by {
            if i > 0 {
                assert(asked[2 * i] == later[2 * (i - 1)]);
                assert(remaining[i] == left[i - 1]);
            }
        }
        assert forall|i: int| 0 <= i < remaining.len() implies #[trigger] asked[2 * i + 1]
            == RequestView::Run(pipeline) by {
            if i > 0 {
                assert(asked[2 * i + 1] == later[2 * (i - 1) + 1]);
            }
        }
    }
}

/// A `for` loop over a range that is handed over to be run: the value
/// expression is asked to be expanded, and where it expands to two numbers
/// with two dots between them, the body runs once for each integer from the
/// first up to but not including the second, in order, each time after the
/// variable has been asked to be bound to that integer, written in decimal
/// digits. The variable is never bound to the second number.
pub proof fn lemma_for_loop_over_a_range_runs(
    shell: ShellView,
    below: Seq<FrameView>,
    variable: Seq<char>,
    values: Seq<char>,
    statements: Seq<StatementView>,
    start: nat,
    end: nat,
    replies: Seq<ReplyView>,
)
    requires
        shell.stack == below.push(
            FrameView::For {
                variable,
                values,
                remaining: Seq::empty(),
                statements,
                phase: ForPhase::Start,
            },
        ),
        all_pipelines(statements),
        start <= usize::MAX,
        end <= usize::MAX,
        replies.len() == 2 + for_steps(range_values(start, end), statements),
        replies[1] == ReplyView::Expanded(decimal(start) + seq!['.', '.'] + decimal(end)),
    ensures
        run(shell, replies) == (Ran {
            shell: with_stack(shell, below),
            asked: seq![RequestView::Expand(values)] + for_runs(
                variable,
                range_values(start, end),
                statements,
            ),
        }),
        forall|i: int|
            0 <= i < range_values(start, end).len() ==> #[trigger] range_values(start, end)[i]
                != placeholder() && range_values(start, end)[i] != decimal(end),
{
    lemma_written_range_reads_back(start, end);
    lemma_range_has_no_placeholder(start, end);
    crate::for_expression::lemma_range_is_half_open(start, end);
    lemma_for_loop_runs(
        shell,
        below,
        variable,
        values,
        statements,
        decimal(start) + seq!['.', '.'] + decimal(end),
        replies,
    );
}

/// A batch that holds a whole `for` loop, and what follows from it: where
/// the body of the loop and the statements behind its terminator are lists
/// of pipelines, the batch is taken, the loop is run once, with its body
/// once for each value in order, and after the loop the statements behind
/// it are run in the order in which they stand. In the end nothing is
/// pending, nothing is on the stack and no input waits.
pub proof fn lemma_for_loop_in_one_batch(
    shell: ShellView,
    batch: Seq<StatementView>,
    n: int,
    text: Seq<char>,
    replies: Seq<ReplyView>,
)
    requires
        well_formed(shell),
        settled(shell),
        shell.flow_control.level == 0,
        batch.len() > 0,
        batch[0] is For,
        closes_at(batch.drop_first(), 1, n),
        all_pipelines(batch[0]->For_statements + batch.drop_first().take(n - 1)),
        all_pipelines(batch.drop_first().skip(n)),
        replies.len() == 2 + for_steps(
            values_spec(for_expression_spec(text)),
            batch[0]->For_statements + batch.drop_first().take(n - 1),
        ) + input_steps(batch.drop_first().skip(n)),
        replies[1] == ReplyView::Expanded(text),
    ensures
        ({
            let body = batch[0]->For_statements + batch.drop_first().take(n - 1);
            run(on_command_spec(shell, batch), replies) == (Ran {
                shell: shell,
                asked: seq![RequestView::Expand(batch[0]->For_values)] + for_runs(
                    batch[0]->For_variable,
                    values_spec(for_expression_spec(text)),
                    body,
                ) + block_runs(batch.drop_first().skip(n)),
            })
        }),
{
    let body = batch[0]->For_statements + batch.drop_first().take(n - 1);
    let behind = batch.drop_first().skip(n);
    lemma_batch_with_whole_block(shell, batch, n);
    crate::laws::lemma_assemble_terminated(
        batch[0],
        batch.drop_first(),
        1,
        shell.flow_control.current_if_mode,
        n,
    );
    let handed_over = on_command_spec(shell, batch);
    let loop_steps = 2 + for_steps(values_spec(for_expression_spec(text)), body) as int;
    let first = replies.subrange(0, loop_steps);
    let second = replies.subrange(loop_steps, replies.len() as int);
    assert(replies =~= first + second);
    assert(first[1] == replies[1]);
    lemma_run_in_parts(handed_over, first, second);
    lemma_for_loop_runs(
        handed_over,
        shell.stack,
        batch[0]->For_variable,
        batch[0]->For_values,
        body,
        text,
        first,
    );
    let after = with_stack(handed_over, shell.stack);
    assert(after == (ShellView { input: behind, ..shell }));
    lemma_input_runs(after, second);
    assert(shell.input =~= Seq::<StatementView>::empty());
}

/// A batch that brings the terminator of a pending `for` loop, and what
/// follows from it: where the body of the loop, as it is assembled from what
/// was pending and what the batch brings, and the statements behind the
/// terminator are lists of pipelines, the loop is run once, with its body
/// once for each value in order, the statements that were pending before
/// those of the batch, and after the loop the statements behind the
/// terminator are run in the order in which they stand.
pub proof fn lemma_pending_for_loop_completed(
    shell: ShellView,
    batch: Seq<StatementView>,
    n: int,
    text: Seq<char>,
    replies: Seq<ReplyView>,
)
    requires
        well_formed(shell),
        settled(shell),
        shell.flow_control.level == 1,
        shell.flow_control.current_statement is For,
        closes_at(batch, 1, n),
        all_pipelines(shell.flow_control.current_statement->For_statements + batch.take(n - 1)),
        all_pipelines(batch.skip(n)),
        replies.len() == 2 + for_steps(
            values_spec(for_expression_spec(text)),
            shell.flow_control.current_statement->For_statements + batch.take(n - 1),
        ) + input_steps(batch.skip(n)),
        replies[1] == ReplyView::Expanded(text),
    ensures
        ({
            let pending = shell.flow_control.current_statement;
            let body = pending->For_statements + batch.take(n - 1);
            let ran = run(on_command_spec(shell, batch), replies);
            &&& ran.asked == seq![RequestView::Expand(pending->For_values)] + for_runs(
                pending->For_variable,
                values_spec(for_expression_spec(text)),
                body,
            ) + block_runs(batch.skip(n))
            &&& ran.shell.flow_control.level == 0
            &&& ran.shell.flow_control.current_statement == StatementView::Default
            &&& settled(ran.shell)
            &&& ran.shell.functions == shell.functions
        }),
{
    let pending = shell.flow_control.current_statement;
    let body = pending->For_statements + batch.take(n - 1);
    let behind = batch.skip(n);
    crate::collect::lemma_collect_loops_terminated(batch, pending->For_statements, 1, n);
    let resumed = crate::flow::received(shell, batch);
    crate::laws::lemma_settle(resumed);
    let handed_over = on_command_spec(shell, batch);
    assert(shell.input + behind =~= behind);
    let loop_steps = 2 + for_steps(values_spec(for_expression_spec(text)), body) as int;
    let first = replies.subrange(0, loop_steps);
    let second = replies.subrange(loop_steps, replies.len() as int);
    assert(replies =~= first + second);
    assert(first[1] == replies[1]);
    lemma_run_in_parts(handed_over, first, second);
    lemma_for_loop_runs(
        handed_over,
        shell.stack,
        pending->For_variable,
        pending->For_values,
        body,
        text,
        first,
    );
    let after = with_stack(handed_over, shell.stack);
    lemma_input_runs(after, second);
}

} // verus!
