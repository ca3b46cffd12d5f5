//! What holds of the engine and of the machine, whatever the input.

use vstd::prelude::*;
use crate::collect::{
    IfParts, closes_at, depth_after,
    lemma_collect_if_resumes, lemma_collect_if_terminated, lemma_collect_if_withheld,
    lemma_collect_loops_resumes, lemma_collect_loops_terminated, lemma_collect_loops_withheld,
    opens_block, withheld,
};
use crate::flow::{
    assemble, begun, lemma_rest_of_open, on_command_spec, received, scheduled, settle_spec,
    takes_input, took_input, toplevel_spec,
};
use crate::flow_control::{FlowError, IfMode, idle_flow_control};
use crate::for_expression::{decimal, lemma_written_range_reads_back, range_values};
use crate::frame::{
    ForPhase, FrameView, IfPhase, ReplyView, RequestView, WhilePhase, succeeded,
};
use crate::job::JobView;
use crate::machine::{Step, finished, placeholder, step_spec, with_stack};
use crate::shell::{ShellView, settled, well_formed};
use crate::statement::{ElseIfView, StatementView};

verus! {

/// The clause that the assembly of a block starts in when the block is taken
/// up at the top level.
pub open spec fn first_mode(shell: ShellView, statement: StatementView) -> IfMode {
    if statement is If {
        IfMode::Success
    } else {
        shell.flow_control.current_if_mode
    }
}

/// A block whose terminator is in the input is assembled completely: the
/// depth that is left is zero, and what stands behind the terminator is not
/// consumed. The body of a loop or a function definition is then the body it
/// had, followed by what stands before the terminator.
pub proof fn lemma_assemble_terminated(
    statement: StatementView,
    input: Seq<StatementView>,
    level: nat,
    mode: IfMode,
    n: int,
)
    requires
        opens_block(statement),
        level >= 1,
        closes_at(input, level as int, n),
        assemble(statement, input, level, mode).error is None,
    ensures
        assemble(statement, input, level, mode).level == 0,
        assemble(statement, input, level, mode).rest == input.skip(n),
        statement matches StatementView::While { expression, statements } ==> assemble(
            statement,
            input,
            level,
            mode,
        ).statement == (StatementView::While {
            expression,
            statements: statements + input.take(n - 1),
        }),
        statement matches StatementView::For { variable, values, statements } ==> assemble(
            statement,
            input,
            level,
            mode,
        ).statement == (StatementView::For {
            variable,
            values,
            statements: statements + input.take(n - 1),
        }),
        statement matches StatementView::Function { name, args, statements } ==> assemble(
            statement,
            input,
            level,
            mode,
        ).statement == (StatementView::Function {
            name,
            args,
            statements: statements + input.take(n - 1),
        }),
{
    match statement {
        StatementView::While { expression, statements } => {
            lemma_collect_loops_terminated(input, statements, level, n);
        },
        StatementView::For { variable, values, statements } => {
            lemma_collect_loops_terminated(input, statements, level, n);
        },
        StatementView::Function { name, args, statements } => {
            lemma_collect_loops_terminated(input, statements, level, n);
        },
        StatementView::If { expression, success, else_if, failure } => {
            lemma_collect_if_terminated(
                input,
                IfParts { success, else_if, failure },
                level,
                mode,
                n,
            );
        },
        _ => {},
    }
}

/// A block whose terminator is withheld stays open: the whole input is
/// consumed, and the depth that is left is above zero. The body of a loop or
/// a function definition is then the body it had, followed by the input.
pub proof fn lemma_assemble_withheld(
    statement: StatementView,
    input: Seq<StatementView>,
    level: nat,
    mode: IfMode,
)
    requires
        opens_block(statement),
        withheld(input, level as int),
        assemble(statement, input, level, mode).error is None,
    ensures
        assemble(statement, input, level, mode).level == depth_after(input, level as int),
        assemble(statement, input, level, mode).level > 0,
        assemble(statement, input, level, mode).rest == Seq::<StatementView>::empty(),
        statement matches StatementView::While { expression, statements } ==> assemble(
            statement,
            input,
            level,
            mode,
        ).statement == (StatementView::While { expression, statements: statements + input }),
        statement matches StatementView::For { variable, values, statements } ==> assemble(
            statement,
            input,
            level,
            mode,
        ).statement == (StatementView::For { variable, values, statements: statements + input }),
        statement matches StatementView::Function { name, args, statements } ==> assemble(
            statement,
            input,
            level,
            mode,
        ).statement == (StatementView::Function { name, args, statements: statements + input }),
{
    match statement {
        StatementView::While { expression, statements } => {
            lemma_collect_loops_withheld(input, statements, level);
        },
        StatementView::For { variable, values, statements } => {
            lemma_collect_loops_withheld(input, statements, level);
        },
        StatementView::Function { name, args, statements } => {
            lemma_collect_loops_withheld(input, statements, level);
        },
        StatementView::If { expression, success, else_if, failure } => {
            lemma_collect_if_withheld(input, IfParts { success, else_if, failure }, level, mode);
        },
        _ => {},
    }
}

/// Assembling a block from two batches in turn is assembling it from the two
/// as one.
pub proof fn lemma_assemble_resumes(
    statement: StatementView,
    first: Seq<StatementView>,
    second: Seq<StatementView>,
    level: nat,
    mode: IfMode,
)
    requires
        opens_block(statement),
        assemble(statement, first, level, mode).error is None,
    ensures
        ({
            let paused = assemble(statement, first, level, mode);
            assemble(statement, first + second, level, mode) == assemble(
                paused.statement,
                paused.rest + second,
                paused.level,
                paused.mode,
            )
        }),
{
    match statement {
        StatementView::While { expression, statements } => {
            lemma_collect_loops_resumes(first, second, statements, level);
        },
        StatementView::For { variable, values, statements } => {
            lemma_collect_loops_resumes(first, second, statements, level);
        },
        StatementView::Function { name, args, statements } => {
            lemma_collect_loops_resumes(first, second, statements, level);
        },
        StatementView::If { expression, success, else_if, failure } => {
            lemma_collect_if_resumes(
                first,
                second,
                IfParts { success, else_if, failure },
                level,
                mode,
            );
        },
        _ => {},
    }
}

/// A block that comes whole in one batch: with nothing pending before,
/// nothing is pending after, the block has been handed over to be run once,
/// and what stands behind its terminator is left for the next step.
pub proof fn lemma_whole_block(
    shell: ShellView,
    input: Seq<StatementView>,
    statement: StatementView,
    n: int,
)
    requires
        well_formed(shell),
        shell.flow_control.level == 0,
        opens_block(statement),
        closes_at(input, 1, n),
        toplevel_spec(shell, input, statement).error is None,
    ensures
        ({
            let taken = toplevel_spec(shell, input, statement);
            let assembled = assemble(statement, input, 1, first_mode(shell, statement));
            &&& taken.shell.flow_control.level == 0
            &&& taken.shell == begun(shell, assembled.statement)
            &&& taken.rest == input.skip(n)
        }),
{
    lemma_assemble_terminated(statement, input, 1, first_mode(shell, statement), n);
}

/// A block whose terminator is withheld: the depth is above zero, the block
/// is kept as the pending statement as far as it has come, and nothing of it
/// runs: the stack and the table of functions are as before. Until more
/// input arrives, a step of the machine changes nothing and asks nothing.
pub proof fn lemma_open_block(
    shell: ShellView,
    input: Seq<StatementView>,
    statement: StatementView,
    reply: ReplyView,
)
    requires
        shell.flow_control.level == 0,
        shell.stack.len() == 0,
        opens_block(statement),
        withheld(input, 1),
        toplevel_spec(shell, input, statement).error is None,
    ensures
        ({
            let taken = toplevel_spec(shell, input, statement);
            let assembled = assemble(statement, input, 1, first_mode(shell, statement));
            &&& taken.shell.flow_control.level > 0
            &&& taken.shell.flow_control.current_statement == assembled.statement
            &&& taken.shell.stack == shell.stack
            &&& taken.shell.functions == shell.functions
            &&& taken.rest == Seq::<StatementView>::empty()
            &&& step_spec(taken.shell, reply) == (Step {
                shell: taken.shell,
                request: RequestView::Idle,
            })
        }),
{
    lemma_assemble_withheld(statement, input, 1, first_mode(shell, statement));
}

/// The step that takes up a block which waits whole in the input: nothing
/// is pending after it, the block has been handed over to be run once, what
/// stands behind its terminator still waits, and nothing is asked of the
/// caller yet.
pub proof fn lemma_step_on_whole_block(shell: ShellView, reply: ReplyView, n: int)
    requires
        well_formed(shell),
        shell.stack.len() == 0,
        shell.flow_control.level == 0,
        shell.input.len() > 0,
        opens_block(shell.input[0]),
        closes_at(shell.input.drop_first(), 1, n),
        toplevel_spec(shell, shell.input.drop_first(), shell.input[0]).error is None,
    ensures
        ({
            let assembled = assemble(
                shell.input[0],
                shell.input.drop_first(),
                1,
                first_mode(shell, shell.input[0]),
            );
            &&& step_spec(shell, reply).request == RequestView::Continue
            &&& step_spec(shell, reply).shell.flow_control.level == 0
            &&& step_spec(shell, reply).shell == begun(
                ShellView { input: shell.input.drop_first().skip(n), ..shell },
                assembled.statement,
            )
        }),
{
    let waiting = ShellView { input: Seq::empty(), ..shell };
    lemma_whole_block(waiting, shell.input.drop_first(), shell.input[0], n);
}

/// The step that takes up a block whose terminator is withheld: the block
/// is pending after it, as far as it has come, the input is used up, and
/// nothing of the block runs: the stack and the table of functions are as
/// before, and nothing is asked of the caller.
pub proof fn lemma_step_on_open_block(shell: ShellView, reply: ReplyView)
    requires
        shell.stack.len() == 0,
        shell.flow_control.level == 0,
        shell.input.len() > 0,
        opens_block(shell.input[0]),
        withheld(shell.input.drop_first(), 1),
        toplevel_spec(shell, shell.input.drop_first(), shell.input[0]).error is None,
    ensures
        ({
            let assembled = assemble(
                shell.input[0],
                shell.input.drop_first(),
                1,
                first_mode(shell, shell.input[0]),
            );
            let after = step_spec(shell, reply);
            &&& after.request == RequestView::Continue
            &&& after.shell.flow_control.level > 0
            &&& after.shell.flow_control.current_statement == assembled.statement
            &&& after.shell.stack == shell.stack
            &&& after.shell.functions == shell.functions
            &&& after.shell.input == Seq::<StatementView>::empty()
        }),
{
    let waiting = ShellView { input: Seq::empty(), ..shell };
    lemma_open_block(waiting, shell.input.drop_first(), shell.input[0], reply);
}

/// A block that comes in two batches is the block that the two batches make
/// as one. Where the first batch withholds the terminator, receiving the
/// second batch leaves the depth, the pending statement, the stack, the
/// table of functions and the waiting input that taking both at once would
/// have left: where the second batch holds the terminator, the block is
/// handed over once, and what stands behind the terminator waits to be
/// taken up after it.
pub proof fn lemma_block_in_two_batches(
    shell: ShellView,
    first: Seq<StatementView>,
    second: Seq<StatementView>,
    statement: StatementView,
)
    requires
        well_formed(shell),
        shell.flow_control.level == 0,
        opens_block(statement),
        withheld(first, 1),
        toplevel_spec(shell, first, statement).error is None,
        toplevel_spec(shell, first + second, statement).error is None,
    ensures
        ({
            let paused = toplevel_spec(shell, first, statement);
            let resumed = received(paused.shell, second);
            let whole = toplevel_spec(shell, first + second, statement);
            &&& resumed.flow_control.level == whole.shell.flow_control.level
            &&& resumed.flow_control.current_statement
                == whole.shell.flow_control.current_statement
            &&& resumed.stack == whole.shell.stack
            &&& resumed.functions == whole.shell.functions
            &&& resumed.input == shell.input + whole.rest
        }),
{
    lemma_assemble_withheld(statement, first, 1, first_mode(shell, statement));
    lemma_assemble_resumes(statement, first, second, 1, first_mode(shell, statement));
    let paused = assemble(statement, first, 1, first_mode(shell, statement));
    assert(opens_block(paused.statement));
    lemma_rest_of_open(statement, first, 1, first_mode(shell, statement));
    assert(paused.rest + second =~= second);
    let whole = toplevel_spec(shell, first + second, statement);
    if whole.shell.flow_control.level != 0 {
        assert(shell.input + whole.rest =~= shell.input) by {
            // An open block has consumed its whole input.
            lemma_rest_of_open(paused.statement, paused.rest + second, paused.level, paused.mode);
        }
    }
}

/// A later batch that brings the withheld terminator completes the block
/// that was pending: nothing is pending after it, the block, assembled from
/// both batches, has been handed over to be run once, and what stands behind
/// the terminator waits to be taken up after it.
pub proof fn lemma_terminator_in_a_later_batch(
    shell: ShellView,
    first: Seq<StatementView>,
    second: Seq<StatementView>,
    statement: StatementView,
    n: int,
)
    requires
        well_formed(shell),
        shell.flow_control.level == 0,
        opens_block(statement),
        withheld(first, 1),
        closes_at(first + second, 1, n),
        toplevel_spec(shell, first, statement).error is None,
        toplevel_spec(shell, first + second, statement).error is None,
    ensures
        ({
            let paused = toplevel_spec(shell, first, statement);
            let assembled = assemble(statement, first + second, 1, first_mode(shell, statement));
            let handed_over = begun(
                ShellView { input: shell.input + (first + second).skip(n), ..shell },
                assembled.statement,
            );
            let resumed = received(paused.shell, second);
            &&& resumed.flow_control.level == 0
            &&& resumed.flow_control.current_statement == StatementView::Default
            &&& resumed.stack == handed_over.stack
            &&& resumed.functions == handed_over.functions
            &&& resumed.input == handed_over.input
            &&& on_command_spec(paused.shell, second) == settle_spec(resumed)
            &&& !(statement is Function) ==> on_command_spec(paused.shell, second) == resumed
        }),
{
    lemma_block_in_two_batches(shell, first, second, statement);
    lemma_whole_block(shell, first + second, statement, n);
    lemma_assemble_resumes(statement, first, second, 1, first_mode(shell, statement));
    lemma_assemble_withheld(statement, first, 1, first_mode(shell, statement));
    let paused = toplevel_spec(shell, first, statement);
    let assembled = assemble(statement, first + second, 1, first_mode(shell, statement));
    let handed_over = begun(
        ShellView { input: shell.input + (first + second).skip(n), ..shell },
        assembled.statement,
    );
    let partly = assemble(statement, first, 1, first_mode(shell, statement));
    assert(partly.rest + second =~= second);
    if !(statement is Function) {
        lemma_settle(received(paused.shell, second));
    }
}

/// Settling takes up the statement that is due and settles what that leaves;
/// where no statement is due, it leaves the state as it is.
pub proof fn lemma_settle(shell: ShellView)
    ensures
        takes_input(shell) ==> settle_spec(shell) == settle_spec(took_input(shell)),
        !takes_input(shell) ==> settle_spec(shell) == shell,
{
}

/// A batch that begins with a block and holds its terminator: nothing is
/// pending after the batch has been taken, the block has been handed over to
/// be run once, and what stands behind its terminator waits. After a
/// function definition, which leaves nothing to be run, the statements
/// behind it are taken up in turn.
pub proof fn lemma_batch_with_whole_block(shell: ShellView, batch: Seq<StatementView>, n: int)
    requires
        well_formed(shell),
        settled(shell),
        shell.flow_control.level == 0,
        batch.len() > 0,
        opens_block(batch[0]),
        closes_at(batch.drop_first(), 1, n),
        toplevel_spec(shell, batch.drop_first(), batch[0]).error is None,
    ensures
        ({
            let assembled = assemble(
                batch[0],
                batch.drop_first(),
                1,
                first_mode(shell, batch[0]),
            );
            let handed_over = begun(
                ShellView { input: batch.drop_first().skip(n), ..shell },
                assembled.statement,
            );
            &&& on_command_spec(shell, batch) == settle_spec(handed_over)
            &&& handed_over.flow_control.level == 0
            &&& handed_over.flow_control.current_statement == StatementView::Default
            &&& !(batch[0] is Function) ==> on_command_spec(shell, batch) == handed_over
        }),
{
    let queued = received(shell, batch);
    assert(queued.input =~= batch);
    assert(queued == (ShellView { input: batch, ..shell }));
    lemma_settle(queued);
    lemma_whole_block(
        ShellView { input: Seq::empty(), ..shell },
        batch.drop_first(),
        batch[0],
        n,
    );
    let assembled = assemble(batch[0], batch.drop_first(), 1, first_mode(shell, batch[0]));
    let handed_over = begun(
        ShellView { input: batch.drop_first().skip(n), ..shell },
        assembled.statement,
    );
    assert(took_input(queued) == handed_over);
    if !(batch[0] is Function) {
        lemma_settle(handed_over);
    }
}

/// A batch that begins with a block and withholds its terminator: after the
/// batch has been taken, the depth is the number of blocks that are open,
/// above zero; the block is the pending statement, with the statements of
/// the batch as its body as far as it is a loop or a function definition;
/// and nothing of it runs: nothing is on the stack, the table of functions
/// is as before, no input waits, and a step of the machine asks nothing.
pub proof fn lemma_batch_with_open_block(
    shell: ShellView,
    batch: Seq<StatementView>,
    reply: ReplyView,
)
    requires
        well_formed(shell),
        settled(shell),
        shell.flow_control.level == 0,
        batch.len() > 0,
        opens_block(batch[0]),
        withheld(batch.drop_first(), 1),
        toplevel_spec(shell, batch.drop_first(), batch[0]).error is None,
    ensures
        ({
            let after = on_command_spec(shell, batch);
            let assembled = assemble(
                batch[0],
                batch.drop_first(),
                1,
                first_mode(shell, batch[0]),
            );
            &&& after.flow_control.level == depth_after(batch.drop_first(), 1)
            &&& after.flow_control.level > 0
            &&& after.flow_control.current_statement == assembled.statement
            &&& batch[0] matches StatementView::While { expression, statements }
                ==> after.flow_control.current_statement == (StatementView::While {
                expression,
                statements: statements + batch.drop_first(),
            })
            &&& batch[0] matches StatementView::For { variable, values, statements }
                ==> after.flow_control.current_statement == (StatementView::For {
                variable,
                values,
                statements: statements + batch.drop_first(),
            })
            &&& batch[0] matches StatementView::Function { name, args, statements }
                ==> after.flow_control.current_statement == (StatementView::Function {
                name,
                args,
                statements: statements + batch.drop_first(),
            })
            &&& after.stack == Seq::<FrameView>::empty()
            &&& after.functions == shell.functions
            &&& after.input == Seq::<StatementView>::empty()
            &&& step_spec(after, reply) == (Step { shell: after, request: RequestView::Idle })
        }),
{
    let queued = received(shell, batch);
    assert(queued.input =~= batch);
    assert(queued == (ShellView { input: batch, ..shell }));
    lemma_settle(queued);
    let waiting = ShellView { input: Seq::empty(), ..shell };
    lemma_open_block(waiting, batch.drop_first(), batch[0], reply);
    lemma_assemble_withheld(batch[0], batch.drop_first(), 1, first_mode(shell, batch[0]));
    let pending = took_input(queued);
    lemma_settle(pending);
    assert(shell.stack =~= Seq::<FrameView>::empty());
}

/// A batch that begins with a terminator, a clause marker or an empty
/// statement while nothing is pending: after the batch has been taken, its
/// diagnostic is on the stack and the rest of the batch waits; the next step
/// asks for the diagnostic to be shown, and the engine is then as it was
/// before the batch, idle, with the rest of the batch to take up.
pub proof fn lemma_batch_with_stray_marker(
    shell: ShellView,
    batch: Seq<StatementView>,
    reply: ReplyView,
)
    requires
        well_formed(shell),
        settled(shell),
        shell.flow_control.level == 0,
        batch.len() > 0,
        batch[0] is End || batch[0] is Else || batch[0] is ElseIf || batch[0] is Default,
    ensures
        ({
            let after = on_command_spec(shell, batch);
            let error = stray_error(batch[0]);
            &&& after == scheduled(
                ShellView { input: batch.drop_first(), ..shell },
                FrameView::Report(error),
            )
            &&& step_spec(after, reply) == (Step {
                shell: ShellView { input: batch.drop_first(), ..shell },
                request: RequestView::Report(error),
            })
            &&& batch.len() == 1 ==> step_spec(after, reply).shell == shell
        }),
{
    let queued = received(shell, batch);
    assert(queued.input =~= batch);
    assert(queued == (ShellView { input: batch, ..shell }));
    lemma_settle(queued);
    let reported = took_input(queued);
    lemma_settle(reported);
    assert(reported.stack.drop_last() =~= shell.stack);
    assert(shell.stack =~= Seq::<FrameView>::empty());
    if batch.len() == 1 {
        assert(batch.drop_first() =~= shell.input);
    }
}

/// The syntax error that a statement is where no block is open and the
/// statement needs one, or is empty.
pub open spec fn stray_error(statement: StatementView) -> FlowError {
    if statement is End {
        FlowError::NoBlockToEnd
    } else if statement is Default {
        FlowError::EmptyStatement
    } else {
        FlowError::NotAnIf
    }
}

/// While anything is on the stack, a step takes nothing from the input that
/// waits and opens no block: what the engine remembers stays as it is, or,
/// after a syntax error, nothing is pending.
pub proof fn lemma_running_leaves_the_engine(shell: ShellView, reply: ReplyView)
    requires
        shell.stack.len() > 0,
    ensures
        step_spec(shell, reply).shell.input == shell.input,
        step_spec(shell, reply).shell.flow_control == shell.flow_control || step_spec(
            shell,
            reply,
        ).shell.flow_control == idle_flow_control(),
        shell.flow_control.level == 0 ==> step_spec(shell, reply).shell.flow_control.level == 0,
{
}

/// A terminator, a clause marker or an empty statement that is due with no
/// block open: the machine takes it up, asks for the diagnostic to be shown,
/// and is then in the state it was in, with the statement gone from the
/// input.
pub proof fn lemma_stray_marker(shell: ShellView, first_reply: ReplyView, second_reply: ReplyView)
    requires
        shell.stack.len() == 0,
        shell.flow_control.level == 0,
        shell.input.len() > 0,
        shell.input[0] is End || shell.input[0] is Else || shell.input[0] is ElseIf
            || shell.input[0] is Default,
    ensures
        ({
            let first = step_spec(shell, first_reply);
            let second = step_spec(first.shell, second_reply);
            &&& first.request == RequestView::Continue
            &&& second.request == RequestView::Report(stray_error(shell.input[0]))
            &&& second.shell == (ShellView { input: shell.input.drop_first(), ..shell })
        }),
{
    let first = step_spec(shell, first_reply);
    assert(first.shell.stack.drop_last() =~= shell.stack);
}

/// A loop whose body is running.
pub open spec fn running_loop(frame: FrameView) -> bool {
    match frame {
        FrameView::While { phase, .. } => phase == WhilePhase::Running,
        FrameView::For { phase, .. } => phase == ForPhase::Running,
        _ => false,
    }
}

/// Lists of statements and nothing else.
pub open spec fn all_blocks(frames: Seq<FrameView>) -> bool {
    forall|i: int| 0 <= i < frames.len() ==> #[trigger] frames[i] is Block
}

/// `break` ends the innermost loop and nothing else: of a stack that holds a
/// running loop with nothing but lists of statements above it, what lies
/// below that loop is left, untouched, whatever it is.
pub proof fn lemma_break_ends_innermost_loop(
    below: Seq<FrameView>,
    running: FrameView,
    lists: Seq<FrameView>,
)
    requires
        running_loop(running),
        all_blocks(lists),
    ensures
        finished(below.push(running) + lists, true) == below,
    decreases lists.len(),
{
    let stack = below.push(running) + lists;
    if lists.len() == 0 {
        assert(stack =~= below.push(running));
        assert(stack.drop_last() =~= below);
    } else {
        assert(stack.last() == lists.last());
        assert(stack.drop_last() =~= below.push(running) + lists.drop_last());
        lemma_break_ends_innermost_loop(below, running, lists.drop_last());
    }
}

/// A step on `break`: where the statement that is due is `break`, inside a
/// running loop with nothing but lists of statements in between, the step
/// leaves the stack as it was below that loop. A loop further out is among
/// what is left, with the round it was in.
pub proof fn lemma_break_statement(
    shell: ShellView,
    below: Seq<FrameView>,
    running: FrameView,
    lists: Seq<FrameView>,
    rest: Seq<StatementView>,
    reply: ReplyView,
)
    requires
        running_loop(running),
        all_blocks(lists),
        shell.stack == (below.push(running) + lists).push(
            FrameView::Block(seq![StatementView::Break] + rest),
        ),
    ensures
        step_spec(shell, reply) == (Step {
            shell: with_stack(shell, below),
            request: RequestView::Continue,
        }),
{
    let under = below.push(running) + lists;
    assert(shell.stack.drop_last() =~= under);
    lemma_break_ends_innermost_loop(below, running, lists);
}

/// A round of a `while` loop: the condition is asked to be run; if it
/// succeeded, the body is put on the stack above the loop, and if not, the
/// loop is gone and what lay below it is on top again. When the body has run
/// to its end without `break`, the loop is at the start of its next round.
pub proof fn lemma_while_round(
    shell: ShellView,
    below: Seq<FrameView>,
    expression: Seq<JobView>,
    statements: Seq<StatementView>,
    reply: ReplyView,
)
    requires
        shell.stack == below.push(
            FrameView::While { expression, statements, phase: WhilePhase::Start },
        ),
    ensures
        ({
            let asked = step_spec(shell, ReplyView::Nothing);
            let told = step_spec(asked.shell, reply);
            let running = below.push(
                FrameView::While { expression, statements, phase: WhilePhase::Running },
            );
            &&& asked.request == RequestView::Run(expression)
            &&& told.request == RequestView::Continue
            &&& told.shell == with_stack(
                shell,
                if succeeded(reply) {
                    running.push(FrameView::Block(statements))
                } else {
                    below
                },
            )
            &&& finished(running, false) == shell.stack
            &&& finished(running, true) == below
        }),
{
    let asked = step_spec(shell, ReplyView::Nothing);
    assert(shell.stack.drop_last() =~= below);
    assert(asked.shell.stack.drop_last() =~= below);
    let running = below.push(
        FrameView::While { expression, statements, phase: WhilePhase::Running },
    );
    assert(running.drop_last() =~= below);
}

/// A round of a `for` loop that has a value left: the variable is asked to
/// be bound to the value, unless the value is the placeholder, and then the
/// body is on the stack above the loop, which has that value no more. With
/// no value left, the loop is gone.
pub proof fn lemma_for_round(
    shell: ShellView,
    below: Seq<FrameView>,
    variable: Seq<char>,
    values: Seq<char>,
    remaining: Seq<Seq<char>>,
    statements: Seq<StatementView>,
    first_reply: ReplyView,
    second_reply: ReplyView,
)
    requires
        shell.stack == below.push(
            FrameView::For { variable, values, remaining, statements, phase: ForPhase::Next },
        ),
    ensures
        ({
            let first = step_spec(shell, first_reply);
            let second = step_spec(first.shell, second_reply);
            let running = below.push(
                FrameView::For {
                    variable,
                    values,
                    remaining: remaining.drop_first(),
                    statements,
                    phase: ForPhase::Running,
                },
            ).push(FrameView::Block(statements));
            if remaining.len() == 0 {
                first == (Step { shell: with_stack(shell, below), request: RequestView::Continue })
            } else if remaining[0] == placeholder() {
                first == (Step { shell: with_stack(shell, running), request: RequestView::Continue })
            } else {
                &&& first.request == RequestView::Bind(variable, remaining[0])
                &&& second == (Step {
                    shell: with_stack(shell, running),
                    request: RequestView::Continue,
                })
            }
        }),
{
    let first = step_spec(shell, first_reply);
    assert(shell.stack.drop_last() =~= below);
    if remaining.len() > 0 && remaining[0] != placeholder() {
        assert(first.shell.stack.drop_last() =~= below);
    }
}

/// A `for` loop over a range: where the value expression expands to two
/// numbers with two dots between them, the values of the loop are the
/// integers from the first number up to but not including the second, each
/// written in decimal digits, in order.
pub proof fn lemma_for_over_a_range(
    shell: ShellView,
    below: Seq<FrameView>,
    variable: Seq<char>,
    values: Seq<char>,
    remaining: Seq<Seq<char>>,
    statements: Seq<StatementView>,
    start: nat,
    end: nat,
)
    requires
        shell.stack == below.push(
            FrameView::For { variable, values, remaining, statements, phase: ForPhase::Await },
        ),
        start <= usize::MAX,
        end <= usize::MAX,
    ensures
        step_spec(
            shell,
            ReplyView::Expanded(decimal(start) + seq!['.', '.'] + decimal(end)),
        ) == (Step {
            shell: with_stack(
                shell,
                below.push(
                    FrameView::For {
                        variable,
                        values,
                        remaining: range_values(start, end),
                        statements,
                        phase: ForPhase::Next,
                    },
                ),
            ),
            request: RequestView::Continue,
        }),
{
    lemma_written_range_reads_back(start, end);
    assert(shell.stack.drop_last() =~= below);
}

/// The conditions of a conditional, in the order in which they are tried.
pub open spec fn conditions(expression: Seq<JobView>, else_if: Seq<ElseIfView>) -> Seq<
    Seq<JobView>,
> {
    seq![expression] + Seq::new(else_if.len(), |i: int| else_if[i].expression)
}

/// The statements that belong to each condition of a conditional.
pub open spec fn branches(success: Seq<StatementView>, else_if: Seq<ElseIfView>) -> Seq<
    Seq<StatementView>,
> {
    seq![success] + Seq::new(else_if.len(), |i: int| else_if[i].success)
}

/// The place of the first answer that says success, or the number of
/// answers if none does.
pub open spec fn first_success(answers: Seq<ReplyView>) -> nat
    decreases answers.len(),
{
    if answers.len() == 0 || succeeded(answers[0]) {
        0
    } else {
        1 + first_success(answers.drop_first())
    }
}

/// What the machine has done once a conditional is decided: the state, and
/// the conditions that it asked to be run, in order.
pub struct Decided {
    pub shell: ShellView,
    pub tested: Seq<Seq<JobView>>,
}

/// Steps the machine while a conditional is on top of the stack: a step that
/// asks for a condition to be run, a step that takes the next answer, and so
/// on until something else is on top or the answers are used up.
pub open spec fn decide(shell: ShellView, answers: Seq<ReplyView>) -> Decided
    decreases answers.len(),
{
    let asked = step_spec(shell, ReplyView::Nothing);
    if answers.len() > 0 && asked.request is Run {
        let told = step_spec(asked.shell, answers[0]);
        if told.shell.stack.len() > 0 && told.shell.stack.last() is If {
            let later = decide(told.shell, answers.drop_first());
            Decided { shell: later.shell, tested: seq![asked.request->Run_0] + later.tested }
        } else {
            Decided { shell: told.shell, tested: seq![asked.request->Run_0] }
        }
    } else {
        Decided { shell: asked.shell, tested: Seq::empty() }
    }
}

/// A conditional runs exactly one of its branches. Its conditions are run in
/// order up to the first that succeeds and no further; the statements that
/// belong to that condition take the conditional's place on the stack. Where
/// no condition succeeds, all have been run, and the failure statements take
/// the conditional's place.
pub proof fn lemma_conditional_runs_one_branch(
    shell: ShellView,
    below: Seq<FrameView>,
    expression: Seq<JobView>,
    success: Seq<StatementView>,
    else_if: Seq<ElseIfView>,
    failure: Seq<StatementView>,
    answers: Seq<ReplyView>,
)
    requires
        shell.stack == below.push(
            FrameView::If { expression, success, else_if, failure, phase: IfPhase::Start },
        ),
        first_success(answers) < answers.len() || else_if.len() < answers.len(),
    ensures
        ({
            let k = first_success(answers);
            let decided = decide(shell, answers);
            if k <= else_if.len() {
                &&& decided.shell == with_stack(
                    shell,
                    below.push(FrameView::Block(branches(success, else_if)[k as int])),
                )
                &&& decided.tested == conditions(expression, else_if).take(k as int + 1)
            } else {
                &&& decided.shell == with_stack(shell, below.push(FrameView::Block(failure)))
                &&& decided.tested == conditions(expression, else_if)
            }
        }),
    decreases else_if.len(),
{
    let k = first_success(answers);
    let asked = step_spec(shell, ReplyView::Nothing);
    assert(shell.stack.drop_last() =~= below);
    assert(asked.shell.stack.drop_last() =~= below);
    let told = step_spec(asked.shell, answers[0]);
    let all = conditions(expression, else_if);
    if succeeded(answers[0]) {
        assert(all.take(1) =~= seq![expression]);
    } else if else_if.len() > 0 {
        let later_shell = told.shell;
        let rest = else_if.drop_first();
        lemma_conditional_runs_one_branch(
            later_shell,
            below,
            else_if[0].expression,
            else_if[0].success,
            rest,
            failure,
            answers.drop_first(),
        );
        let later = conditions(else_if[0].expression, rest);
        assert(all =~= seq![expression] + later);
        if k <= else_if.len() {
            assert(all.take(k as int + 1) =~= seq![expression] + later.take(k as int));
            assert(branches(success, else_if)[k as int] == branches(else_if[0].success, rest)[k
                - 1]);
        }
    } else {
        assert(all =~= seq![expression]);
    }
}

} // verus!
