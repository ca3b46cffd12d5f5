//! Collecting the body of a block from a stream of statements.
//!
//! A block opener arrives with an empty body; the statements that follow it,
//! up to the terminator that closes it, are its body. That terminator is
//! absorbed: it is no part of the body. A block inside the body is kept
//! whole, from its opener to its own terminator, so that it ends in the body
//! where it ended in the input. The stream may end before the block is
//! closed: the depth that is left says how many blocks are still open, and
//! collecting goes on from there when more arrives.

use vstd::prelude::*;
use std::collections::VecDeque;
use crate::flow_control::{FlowError, IfMode};
use crate::statement::{
    ElseIf, ElseIfView, Statement, StatementView, else_ifs_view, statements_view,
};

verus! {

/// Block openers are the statements that need a terminator.
pub open spec fn opens_block(statement: StatementView) -> bool {
    statement is While || statement is For || statement is If || statement is Function
}

/// How a statement changes the depth: an opener opens a block, a terminator
/// closes one.
pub open spec fn depth_change(statement: StatementView) -> int {
    if opens_block(statement) {
        1
    } else if statement is End {
        -1
    } else {
        0
    }
}

/// The depth after a run of statements that was entered at depth `level`.
pub open spec fn depth_after(statements: Seq<StatementView>, level: int) -> int
    decreases statements.len(),
{
    if statements.len() == 0 {
        level
    } else {
        depth_after(statements.drop_first(), level + depth_change(statements[0]))
    }
}

/// The first `n` statements of `input` close the block entered at depth
/// `level`, and no shorter run does.
pub open spec fn closes_at(input: Seq<StatementView>, level: int, n: int) -> bool {
    &&& 0 < n <= input.len()
    &&& depth_after(input.take(n), level) == 0
    &&& forall|m: int| 0 <= m < n ==> depth_after(#[trigger] input.take(m), level) > 0
}

/// The terminator of the block entered at depth `level` is in `input`.
pub open spec fn terminated(input: Seq<StatementView>, level: int) -> bool {
    exists|n: int| closes_at(input, level, n)
}

/// The terminator of the block entered at depth `level` is not in `input`:
/// the depth never comes back to zero.
pub open spec fn withheld(input: Seq<StatementView>, level: int) -> bool {
    forall|m: int| 0 <= m <= input.len() ==> depth_after(#[trigger] input.take(m), level) > 0
}

/// What a collection leaves: the body so far, the depth, and what was not
/// consumed.
pub struct Collected {
    pub body: Seq<StatementView>,
    pub level: nat,
    pub rest: Seq<StatementView>,
}

/// Collects the body of a block from `input`, statement by statement.
///
/// At depth zero nothing is open and nothing is taken. An opener deepens and
/// is kept. A terminator shallows. The terminator that brings the depth to
/// zero closes the block that is collected: it is absorbed, not kept, and
/// the collection is complete. A terminator of a block inside the body is
/// part of that block and is kept with it. Anything else is kept.
pub open spec fn collect_loops_spec(
    input: Seq<StatementView>,
    body: Seq<StatementView>,
    level: nat,
) -> Collected
    decreases input.len(),
{
    if level == 0 || input.len() == 0 {
        Collected { body, level, rest: input }
    } else if input[0] is End && level == 1 {
        Collected { body, level: 0, rest: input.drop_first() }
    } else {
        collect_loops_spec(
            input.drop_first(),
            body.push(input[0]),
            (level + depth_change(input[0])) as nat,
        )
    }
}

/// The plain values of a list grow with the list.
pub proof fn lemma_view_push(statements: Seq<Statement>, statement: Statement)
    ensures
        statements_view(statements.push(statement)) == statements_view(statements).push(
            statement@,
        ),
{
    assert(statements_view(statements.push(statement)) =~= statements_view(statements).push(
        statement@,
    ));
}

/// The plain values of a list without its first statement.
pub proof fn lemma_view_drop_first(statements: Seq<Statement>)
    requires
        statements.len() > 0,
    ensures
        statements_view(statements.subrange(1, statements.len() as int)) == statements_view(
            statements,
        ).drop_first(),
        statements_view(statements)[0] == statements[0]@,
{
    assert(statements_view(statements.subrange(1, statements.len() as int)) =~= statements_view(
        statements,
    ).drop_first());
}

/// The depth after the first `m + 1` statements is the depth after `m`
/// statements of the rest, entered one statement deeper in.
pub proof fn lemma_depth_shift(input: Seq<StatementView>, level: int, m: int)
    requires
        0 <= m < input.len(),
    ensures
        depth_after(input.take(m + 1), level) == depth_after(
            input.drop_first().take(m),
            level + depth_change(input[0]),
        ),
{
    assert(input.take(m + 1).drop_first() =~= input.drop_first().take(m));
}

/// One statement more changes the depth by what that statement does to it.
pub proof fn lemma_depth_push(statements: Seq<StatementView>, statement: StatementView, level: int)
    ensures
        depth_after(statements.push(statement), level) == depth_after(statements, level)
            + depth_change(statement),
    decreases statements.len(),
{
    let longer = statements.push(statement);
    if statements.len() == 0 {
        assert(longer.drop_first() =~= Seq::<StatementView>::empty());
        assert(longer[0] == statement);
        assert(depth_after(longer.drop_first(), level + depth_change(statement)) == level
            + depth_change(statement));
    } else {
        assert(longer.drop_first() =~= statements.drop_first().push(statement));
        assert(longer[0] == statements[0]);
        lemma_depth_push(statements.drop_first(), statement, level + depth_change(statements[0]));
    }
}

/// Among the first `k` statements, either some run closes the block or the
/// depth stays above zero throughout.
proof fn lemma_closed_or_open(input: Seq<StatementView>, level: int, k: int)
    requires
        level >= 1,
        0 <= k <= input.len(),
    ensures
        (exists|n: int| n <= k && closes_at(input, level, n)) || (forall|m: int|
            0 <= m <= k ==> depth_after(#[trigger] input.take(m), level) > 0),
    decreases k,
{
    if k == 0 {
        assert(input.take(0) =~= Seq::<StatementView>::empty());
    } else {
        lemma_closed_or_open(input, level, k - 1);
        if !(exists|n: int| n <= k - 1 && closes_at(input, level, n)) {
            assert(input.take(k) =~= input.take(k - 1).push(input[k - 1]));
            lemma_depth_push(input.take(k - 1), input[k - 1], level);
            assert(depth_after(input.take(k - 1), level) > 0);
            if depth_after(input.take(k), level) == 0 {
                assert(closes_at(input, level, k));
            }
        }
    }
}

/// Every input either holds the terminator of the block that is open or
/// withholds it.
pub proof fn lemma_terminated_or_withheld(input: Seq<StatementView>, level: int)
    requires
        level >= 1,
    ensures
        terminated(input, level) || withheld(input, level),
{
    lemma_closed_or_open(input, level, input.len() as int);
}

/// Where the terminator is in the input, the collection is complete: the
/// depth is zero, the body has grown by what stood before the terminator, and
/// what stands behind it is left.
pub proof fn lemma_collect_loops_terminated(
    input: Seq<StatementView>,
    body: Seq<StatementView>,
    level: nat,
    n: int,
)
    requires
        level >= 1,
        closes_at(input, level as int, n),
    ensures
        collect_loops_spec(input, body, level) == (Collected {
            body: body + input.take(n - 1),
            level: 0,
            rest: input.skip(n),
        }),
    decreases input.len(),
{
    lemma_depth_shift(input, level as int, 0);
    assert(input.drop_first().take(0) =~= Seq::<StatementView>::empty());
    let deeper = level + depth_change(input[0]);
    if n == 1 {
        assert(body + input.take(0) =~= body);
        assert(input.skip(1) =~= input.drop_first());
    } else {
        assert(input.take(1) == input.take(1));
        assert(deeper > 0);
        assert forall|m: int| 0 <= m < n - 1 implies depth_after(
            #[trigger] input.drop_first().take(m),
            deeper,
        ) > 0 by {
            lemma_depth_shift(input, level as int, m);
            assert(input.take(m + 1) == input.take(m + 1));
        }
        lemma_depth_shift(input, level as int, n - 1);
        lemma_collect_loops_terminated(input.drop_first(), body.push(input[0]), deeper as nat, n - 1);
        assert(body.push(input[0]) + input.drop_first().take(n - 2) =~= body + input.take(n - 1));
        assert(input.drop_first().skip(n - 1) =~= input.skip(n));
    }
}

/// Where the terminator is withheld, the whole input goes into the body and
/// the depth that is left is above zero.
pub proof fn lemma_collect_loops_withheld(
    input: Seq<StatementView>,
    body: Seq<StatementView>,
    level: nat,
)
    requires
        withheld(input, level as int),
    ensures
        collect_loops_spec(input, body, level) == (Collected {
            body: body + input,
            level: depth_after(input, level as int) as nat,
            rest: Seq::empty(),
        }),
        depth_after(input, level as int) > 0,
    decreases input.len(),
{
    assert(input.take(0) =~= Seq::<StatementView>::empty());
    assert(depth_after(input.take(0), level as int) > 0);
    assert(input.take(input.len() as int) =~= input);
    if input.len() == 0 {
        assert(body + input =~= body);
        assert(input =~= Seq::<StatementView>::empty());
    } else {
        let deeper = level + depth_change(input[0]);
        lemma_depth_shift(input, level as int, 0);
        assert(input.take(1) == input.take(1));
        assert(input.drop_first().take(0) =~= Seq::<StatementView>::empty());
        assert(deeper > 0);
        assert forall|m: int| 0 <= m <= input.drop_first().len() implies depth_after(
            #[trigger] input.drop_first().take(m),
            deeper,
        ) > 0 by {
            lemma_depth_shift(input, level as int, m);
            assert(input.take(m + 1) == input.take(m + 1));
        }
        lemma_collect_loops_withheld(input.drop_first(), body.push(input[0]), deeper as nat);
        assert(body.push(input[0]) + input.drop_first() =~= body + input);
    }
}

/// Collecting from two batches in turn is collecting from the two as one:
/// what the first batch leaves open, the second goes on with.
pub proof fn lemma_collect_loops_resumes(
    first: Seq<StatementView>,
    second: Seq<StatementView>,
    body: Seq<StatementView>,
    level: nat,
)
    ensures
        ({
            let paused = collect_loops_spec(first, body, level);
            collect_loops_spec(first + second, body, level) == collect_loops_spec(
                paused.rest + second,
                paused.body,
                paused.level,
            )
        }),
    decreases first.len(),
{
    if level == 0 || first.len() == 0 {
    } else if first[0] is End && level == 1 {
        assert((first + second).drop_first() =~= first.drop_first() + second);
    } else {
        assert((first + second).drop_first() =~= first.drop_first() + second);
        lemma_collect_loops_resumes(
            first.drop_first(),
            second,
            body.push(first[0]),
            (level + depth_change(first[0])) as nat,
        );
    }
}

/// Takes statements from the front of `iterator` into `statements` until the
/// block that is open at depth `level` is closed or `iterator` is empty.
pub fn collect_loops(
    iterator: &mut VecDeque<Statement>,
    statements: &mut Vec<Statement>,
    level: &mut usize,
)
    requires
        *old(level) + old(iterator)@.len() <= usize::MAX,
    ensures
        ({
            let collected = collect_loops_spec(
                statements_view(old(iterator)@),
                statements_view(old(statements)@),
                *old(level) as nat,
            );
            &&& statements_view(final(statements)@) == collected.body
            &&& *final(level) == collected.level
            &&& statements_view(final(iterator)@) == collected.rest
        }),
{
    while *level != 0 && iterator.len() != 0
        invariant
            *level + iterator@.len() <= usize::MAX,
            collect_loops_spec(
                statements_view(iterator@),
                statements_view(statements@),
                *level as nat,
            ) == collect_loops_spec(
                statements_view(old(iterator)@),
                statements_view(old(statements)@),
                *old(level) as nat,
            ),
        decreases iterator@.len(),
    {
        let ghost before = iterator@;
        let statement = iterator.pop_front().unwrap();
        proof {
            lemma_view_drop_first(before);
            lemma_view_push(statements@, statement);
        }
        match &statement {
            Statement::While { .. } | Statement::For { .. } | Statement::If { .. }
            | Statement::Function { .. } => {
                *level = *level + 1;
                statements.push(statement);
            },
            Statement::End => {
                *level = *level - 1;
                if *level != 0 {
                    statements.push(statement);
                }
            },
            _ => {
                statements.push(statement);
            },
        }
    }
}

/// The three clause lists of a conditional that is being assembled.
pub struct IfParts {
    pub success: Seq<StatementView>,
    pub else_if: Seq<ElseIfView>,
    pub failure: Seq<StatementView>,
}

/// `parts` with `statement` added to the clause that `mode` names: the
/// success list, the latest `else if` clause's own list, or the failure list.
pub open spec fn place(parts: IfParts, mode: IfMode, statement: StatementView) -> IfParts {
    match mode {
        IfMode::Success => IfParts { success: parts.success.push(statement), ..parts },
        IfMode::ElseIf => {
            let last = parts.else_if.last();
            IfParts {
                else_if: parts.else_if.drop_last().push(
                    ElseIfView { success: last.success.push(statement), ..last },
                ),
                ..parts
            }
        },
        IfMode::Failure => IfParts { failure: parts.failure.push(statement), ..parts },
    }
}

/// What a collection for a conditional leaves: the clauses so far, the depth,
/// the clause that is open, what was not consumed, and the error that stopped
/// it, if one did.
pub struct IfCollected {
    pub parts: IfParts,
    pub level: nat,
    pub mode: IfMode,
    pub rest: Seq<StatementView>,
    pub error: Option<FlowError>,
}

/// Collects the clauses of a conditional from `input`, statement by statement.
///
/// Depth is counted as for any block, and the terminator that closes the
/// conditional is absorbed. At depth one, `else if` opens a new clause and
/// `else` opens the failure clause; either is an error once the failure
/// clause is open, and the collection stops there. Inside a nested block
/// they are statements like any other. Every statement that is kept goes to
/// the clause that is open.
pub open spec fn collect_if_spec(
    input: Seq<StatementView>,
    parts: IfParts,
    level: nat,
    mode: IfMode,
) -> IfCollected
    decreases input.len(),
{
    if level == 0 || input.len() == 0 {
        IfCollected { parts, level, mode, rest: input, error: None }
    } else if level == 1 && input[0] is End {
        IfCollected { parts, level: 0, mode, rest: input.drop_first(), error: None }
    } else if level == 1 && (input[0] is ElseIf || input[0] is Else) {
        if mode == IfMode::Failure {
            IfCollected {
                parts,
                level,
                mode,
                rest: input.drop_first(),
                error: Some(FlowError::ElseAlreadyGiven),
            }
        } else if input[0] is ElseIf {
            collect_if_spec(
                input.drop_first(),
                IfParts { else_if: parts.else_if.push(input[0]->ElseIf_0), ..parts },
                level,
                IfMode::ElseIf,
            )
        } else {
            collect_if_spec(input.drop_first(), parts, level, IfMode::Failure)
        }
    } else {
        collect_if_spec(
            input.drop_first(),
            place(parts, mode, input[0]),
            (level + depth_change(input[0])) as nat,
            mode,
        )
    }
}

/// A collection that fills an `else if` clause has one to fill.
pub proof fn lemma_collect_if_mode(
    input: Seq<StatementView>,
    parts: IfParts,
    level: nat,
    mode: IfMode,
)
    requires
        mode == IfMode::ElseIf ==> parts.else_if.len() > 0,
    ensures
        ({
            let collected = collect_if_spec(input, parts, level, mode);
            collected.mode == IfMode::ElseIf ==> collected.parts.else_if.len() > 0
        }),
    decreases input.len(),
{
    if level == 0 || input.len() == 0 {
    } else if level == 1 && input[0] is End {
    } else if level == 1 && (input[0] is ElseIf || input[0] is Else) {
        if mode == IfMode::Failure {
        } else if input[0] is ElseIf {
            lemma_collect_if_mode(
                input.drop_first(),
                IfParts { else_if: parts.else_if.push(input[0]->ElseIf_0), ..parts },
                level,
                IfMode::ElseIf,
            );
        } else {
            lemma_collect_if_mode(input.drop_first(), parts, level, IfMode::Failure);
        }
    } else {
        lemma_collect_if_mode(
            input.drop_first(),
            place(parts, mode, input[0]),
            (level + depth_change(input[0])) as nat,
            mode,
        );
    }
}

/// Where the terminator of a conditional is in the input and no clause
/// marker is out of place, the collection is complete: the depth is zero and
/// what stands behind the terminator is left.
pub proof fn lemma_collect_if_terminated(
    input: Seq<StatementView>,
    parts: IfParts,
    level: nat,
    mode: IfMode,
    n: int,
)
    requires
        level >= 1,
        closes_at(input, level as int, n),
        collect_if_spec(input, parts, level, mode).error is None,
    ensures
        collect_if_spec(input, parts, level, mode).level == 0,
        collect_if_spec(input, parts, level, mode).rest == input.skip(n),
    decreases input.len(),
{
    lemma_depth_shift(input, level as int, 0);
    assert(input.drop_first().take(0) =~= Seq::<StatementView>::empty());
    let deeper = level + depth_change(input[0]);
    if n == 1 {
        assert(input.skip(1) =~= input.drop_first());
    } else {
        assert(input.take(1) == input.take(1));
        assert(deeper > 0);
        assert forall|m: int| 0 <= m < n - 1 implies depth_after(
            #[trigger] input.drop_first().take(m),
            deeper,
        ) > 0 by {
            lemma_depth_shift(input, level as int, m);
            assert(input.take(m + 1) == input.take(m + 1));
        }
        lemma_depth_shift(input, level as int, n - 1);
        assert(input.drop_first().skip(n - 1) =~= input.skip(n));
        if level == 1 && (input[0] is ElseIf || input[0] is Else) {
            if input[0] is ElseIf {
                lemma_collect_if_terminated(
                    input.drop_first(),
                    IfParts { else_if: parts.else_if.push(input[0]->ElseIf_0), ..parts },
                    level,
                    IfMode::ElseIf,
                    n - 1,
                );
            } else {
                lemma_collect_if_terminated(
                    input.drop_first(),
                    parts,
                    level,
                    IfMode::Failure,
                    n - 1,
                );
            }
        } else {
            lemma_collect_if_terminated(
                input.drop_first(),
                place(parts, mode, input[0]),
                deeper as nat,
                mode,
                n - 1,
            );
        }
    }
}

/// Where the terminator of a conditional is withheld and no clause marker is
/// out of place, the whole input is consumed and the depth that is left is
/// above zero.
pub proof fn lemma_collect_if_withheld(
    input: Seq<StatementView>,
    parts: IfParts,
    level: nat,
    mode: IfMode,
)
    requires
        withheld(input, level as int),
        collect_if_spec(input, parts, level, mode).error is None,
    ensures
        collect_if_spec(input, parts, level, mode).level == depth_after(input, level as int),
        collect_if_spec(input, parts, level, mode).rest == Seq::<StatementView>::empty(),
        depth_after(input, level as int) > 0,
    decreases input.len(),
{
    assert(input.take(0) =~= Seq::<StatementView>::empty());
    assert(depth_after(input.take(0), level as int) > 0);
    assert(input.take(input.len() as int) =~= input);
    if input.len() == 0 {
        assert(input =~= Seq::<StatementView>::empty());
    } else {
        let deeper = level + depth_change(input[0]);
        lemma_depth_shift(input, level as int, 0);
        assert(input.take(1) == input.take(1));
        assert(input.drop_first().take(0) =~= Seq::<StatementView>::empty());
        assert(deeper > 0);
        assert forall|m: int| 0 <= m <= input.drop_first().len() implies depth_after(
            #[trigger] input.drop_first().take(m),
            deeper,
        ) > 0 by {
            lemma_depth_shift(input, level as int, m);
            assert(input.take(m + 1) == input.take(m + 1));
        }
        if level == 1 && (input[0] is ElseIf || input[0] is Else) {
            if input[0] is ElseIf {
                lemma_collect_if_withheld(
                    input.drop_first(),
                    IfParts { else_if: parts.else_if.push(input[0]->ElseIf_0), ..parts },
                    level,
                    IfMode::ElseIf,
                );
            } else {
                lemma_collect_if_withheld(input.drop_first(), parts, level, IfMode::Failure);
            }
        } else {
            lemma_collect_if_withheld(
                input.drop_first(),
                place(parts, mode, input[0]),
                deeper as nat,
                mode,
            );
        }
    }
}

/// Collecting a conditional from two batches in turn is collecting it from
/// the two as one. An error in the first batch is the error of the whole.
pub proof fn lemma_collect_if_resumes(
    first: Seq<StatementView>,
    second: Seq<StatementView>,
    parts: IfParts,
    level: nat,
    mode: IfMode,
)
    ensures
        ({
            let paused = collect_if_spec(first, parts, level, mode);
            collect_if_spec(first + second, parts, level, mode) == if paused.error is Some {
                IfCollected { rest: paused.rest + second, ..paused }
            } else {
                collect_if_spec(paused.rest + second, paused.parts, paused.level, paused.mode)
            }
        }),
    decreases first.len(),
{
    if level == 0 || first.len() == 0 {
        assert(first + second =~= first + second);
    } else {
        assert((first + second).drop_first() =~= first.drop_first() + second);
        if level == 1 && first[0] is End {
        } else if level == 1 && (first[0] is ElseIf || first[0] is Else) {
            if mode == IfMode::Failure {
            } else if first[0] is ElseIf {
                lemma_collect_if_resumes(
                    first.drop_first(),
                    second,
                    IfParts { else_if: parts.else_if.push(first[0]->ElseIf_0), ..parts },
                    level,
                    IfMode::ElseIf,
                );
            } else {
                lemma_collect_if_resumes(first.drop_first(), second, parts, level, IfMode::Failure);
            }
        } else {
            lemma_collect_if_resumes(
                first.drop_first(),
                second,
                place(parts, mode, first[0]),
                (level + depth_change(first[0])) as nat,
                mode,
            );
        }
    }
}

/// The plain values of a list of clauses grow with the list.
pub proof fn lemma_clauses_push(clauses: Seq<ElseIf>, clause: ElseIf)
    ensures
        else_ifs_view(clauses.push(clause)) == else_ifs_view(clauses).push(clause@),
{
    assert(else_ifs_view(clauses.push(clause)) =~= else_ifs_view(clauses).push(clause@));
}

/// The plain values of a list of clauses without its last clause.
pub proof fn lemma_clauses_drop_last(clauses: Seq<ElseIf>)
    requires
        clauses.len() > 0,
    ensures
        else_ifs_view(clauses.subrange(0, clauses.len() - 1)) == else_ifs_view(
            clauses,
        ).drop_last(),
        else_ifs_view(clauses).last() == clauses.last()@,
{
    assert(else_ifs_view(clauses.subrange(0, clauses.len() - 1)) =~= else_ifs_view(
        clauses,
    ).drop_last());
}

/// The plain values of a list of clauses without its first clause.
pub proof fn lemma_clauses_drop_first(clauses: Seq<ElseIf>)
    requires
        clauses.len() > 0,
    ensures
        else_ifs_view(clauses.subrange(1, clauses.len() as int)) == else_ifs_view(
            clauses,
        ).drop_first(),
        else_ifs_view(clauses)[0] == clauses[0]@,
{
    assert(else_ifs_view(clauses.subrange(1, clauses.len() as int)) =~= else_ifs_view(
        clauses,
    ).drop_first());
}

/// Adds `statement` to the clause that `mode` names.
fn place_statement(
    success: &mut Vec<Statement>,
    else_if: &mut Vec<ElseIf>,
    failure: &mut Vec<Statement>,
    mode: IfMode,
    statement: Statement,
)
    requires
        mode == IfMode::ElseIf ==> old(else_if)@.len() > 0,
    ensures
        (IfParts {
            success: statements_view(final(success)@),
            else_if: else_ifs_view(final(else_if)@),
            failure: statements_view(final(failure)@),
        }) == place(
            IfParts {
                success: statements_view(old(success)@),
                else_if: else_ifs_view(old(else_if)@),
                failure: statements_view(old(failure)@),
            },
            mode,
            statement@,
        ),
        final(else_if)@.len() == old(else_if)@.len(),
{
    match mode {
        IfMode::Success => {
            proof {
                lemma_view_push(success@, statement);
            }
            success.push(statement);
        },
        IfMode::ElseIf => {
            proof {
                lemma_clauses_drop_last(else_if@);
            }
            let mut last = else_if.pop().unwrap();
            proof {
                lemma_view_push(last.success@, statement);
            }
            last.success.push(statement);
            proof {
                lemma_clauses_push(else_if@, last);
            }
            else_if.push(last);
        },
        IfMode::Failure => {
            proof {
                lemma_view_push(failure@, statement);
            }
            failure.push(statement);
        },
    }
}

/// Takes statements from the front of `iterator` into the clauses of a
/// conditional until the conditional is closed, `iterator` is empty, or a
/// clause marker is out of place. Returns the clause that is open at the end,
/// for a later call to go on with.
pub fn collect_if(
    iterator: &mut VecDeque<Statement>,
    success: &mut Vec<Statement>,
    else_if: &mut Vec<ElseIf>,
    failure: &mut Vec<Statement>,
    level: &mut usize,
    current_block: IfMode,
) -> (result: Result<IfMode, FlowError>)
    requires
        *old(level) + old(iterator)@.len() <= usize::MAX,
        current_block == IfMode::ElseIf ==> old(else_if)@.len() > 0,
    ensures
        ({
            let collected = collect_if_spec(
                statements_view(old(iterator)@),
                IfParts {
                    success: statements_view(old(success)@),
                    else_if: else_ifs_view(old(else_if)@),
                    failure: statements_view(old(failure)@),
                },
                *old(level) as nat,
                current_block,
            );
            &&& statements_view(final(success)@) == collected.parts.success
            &&& else_ifs_view(final(else_if)@) == collected.parts.else_if
            &&& statements_view(final(failure)@) == collected.parts.failure
            &&& *final(level) == collected.level
            &&& statements_view(final(iterator)@) == collected.rest
            &&& result == match collected.error {
                Some(error) => Err::<IfMode, FlowError>(error),
                None => Ok(collected.mode),
            }
        }),
{
    let mut mode = current_block;
    while *level != 0 && iterator.len() != 0
        invariant
            *level + iterator@.len() <= usize::MAX,
            mode == IfMode::ElseIf ==> else_if@.len() > 0,
            collect_if_spec(
                statements_view(iterator@),
                IfParts {
                    success: statements_view(success@),
                    else_if: else_ifs_view(else_if@),
                    failure: statements_view(failure@),
                },
                *level as nat,
                mode,
            ) == collect_if_spec(
                statements_view(old(iterator)@),
                IfParts {
                    success: statements_view(old(success)@),
                    else_if: else_ifs_view(old(else_if)@),
                    failure: statements_view(old(failure)@),
                },
                *old(level) as nat,
                current_block,
            ),
        decreases iterator@.len(),
    {
        let ghost before = iterator@;
        let statement = iterator.pop_front().unwrap();
        proof {
            lemma_view_drop_first(before);
        }
        match statement {
            Statement::While { .. } | Statement::For { .. } | Statement::If { .. }
            | Statement::Function { .. } => {
                *level = *level + 1;
                place_statement(success, else_if, failure, mode, statement);
            },
            Statement::End => {
                *level = *level - 1;
                if *level != 0 {
                    place_statement(success, else_if, failure, mode, statement);
                }
            },
            Statement::ElseIf(clause) => {
                if *level == 1 {
                    if mode == IfMode::Failure {
                        return Err(FlowError::ElseAlreadyGiven);
                    }
                    proof {
                        lemma_clauses_push(else_if@, clause);
                    }
                    else_if.push(clause);
                    mode = IfMode::ElseIf;
                } else {
                    place_statement(success, else_if, failure, mode, Statement::ElseIf(clause));
                }
            },
            Statement::Else => {
                if *level == 1 {
                    if mode == IfMode::Failure {
                        return Err(FlowError::ElseAlreadyGiven);
                    }
                    mode = IfMode::Failure;
                } else {
                    place_statement(success, else_if, failure, mode, statement);
                }
            },
            _ => {
                place_statement(success, else_if, failure, mode, statement);
            },
        }
    }
    Ok(mode)
}

/// A collection that leaves a block open has consumed its whole input.
pub proof fn lemma_loops_rest_of_open(
    input: Seq<StatementView>,
    body: Seq<StatementView>,
    level: nat,
)
    requires
        collect_loops_spec(input, body, level).level > 0,
    ensures
        collect_loops_spec(input, body, level).rest == Seq::<StatementView>::empty(),
    decreases input.len(),
{
    if level == 0 || input.len() == 0 {
        assert(input =~= Seq::<StatementView>::empty());
    } else if input[0] is End && level == 1 {
    } else {
        lemma_loops_rest_of_open(
            input.drop_first(),
            body.push(input[0]),
            (level + depth_change(input[0])) as nat,
        );
    }
}

/// A collection that leaves a conditional open has consumed its whole input.
pub proof fn lemma_if_rest_of_open(
    input: Seq<StatementView>,
    parts: IfParts,
    level: nat,
    mode: IfMode,
)
    requires
        collect_if_spec(input, parts, level, mode).level > 0,
        collect_if_spec(input, parts, level, mode).error is None,
    ensures
        collect_if_spec(input, parts, level, mode).rest == Seq::<StatementView>::empty(),
    decreases input.len(),
{
    if level == 0 || input.len() == 0 {
        assert(input =~= Seq::<StatementView>::empty());
    } else if level == 1 && input[0] is End {
    } else if level == 1 && (input[0] is ElseIf || input[0] is Else) {
        if mode == IfMode::Failure {
        } else if input[0] is ElseIf {
            lemma_if_rest_of_open(
                input.drop_first(),
                IfParts { else_if: parts.else_if.push(input[0]->ElseIf_0), ..parts },
                level,
                IfMode::ElseIf,
            );
        } else {
            lemma_if_rest_of_open(input.drop_first(), parts, level, IfMode::Failure);
        }
    } else {
        lemma_if_rest_of_open(
            input.drop_first(),
            place(parts, mode, input[0]),
            (level + depth_change(input[0])) as nat,
            mode,
        );
    }
}

/// A collection takes statements from the input and adds none to it.
pub proof fn lemma_collect_loops_rest(input: Seq<StatementView>, body: Seq<StatementView>, level: nat)
    ensures
        collect_loops_spec(input, body, level).rest.len() <= input.len(),
    decreases input.len(),
{
    if level == 0 || input.len() == 0 {
    } else if input[0] is End && level == 1 {
    } else {
        lemma_collect_loops_rest(
            input.drop_first(),
            body.push(input[0]),
            (level + depth_change(input[0])) as nat,
        );
    }
}

/// A collection for a conditional takes statements from the input and adds
/// none to it.
pub proof fn lemma_collect_if_rest(
    input: Seq<StatementView>,
    parts: IfParts,
    level: nat,
    mode: IfMode,
)
    ensures
        collect_if_spec(input, parts, level, mode).rest.len() <= input.len(),
    decreases input.len(),
{
    if level == 0 || input.len() == 0 {
    } else if level == 1 && input[0] is End {
    } else if level == 1 && (input[0] is ElseIf || input[0] is Else) {
        if mode == IfMode::Failure {
        } else if input[0] is ElseIf {
            lemma_collect_if_rest(
                input.drop_first(),
                IfParts { else_if: parts.else_if.push(input[0]->ElseIf_0), ..parts },
                level,
                IfMode::ElseIf,
            );
        } else {
            lemma_collect_if_rest(input.drop_first(), parts, level, IfMode::Failure);
        }
    } else {
        lemma_collect_if_rest(
            input.drop_first(),
            place(parts, mode, input[0]),
            (level + depth_change(input[0])) as nat,
            mode,
        );
    }
}

} // verus!
