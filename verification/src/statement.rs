//! The statements of the shell language and what they are as plain values.

use vstd::prelude::*;
use crate::job::{Job, JobView, clone_strings};
use crate::text::texts;

verus! {

/// Jobs that are run as a unit and end in one exit status.
#[derive(Debug, PartialEq, Eq)]
pub struct Pipeline {
    pub jobs: Vec<Job>,
}

impl View for Pipeline {
    type V = Seq<JobView>;

    open spec fn view(&self) -> Seq<JobView> {
        Seq::new(self.jobs@.len(), |i: int| self.jobs@[i]@)
    }
}

impl Clone for Pipeline {
    fn clone(&self) -> (copy: Pipeline)
        ensures
            copy@ == self@,
    {
        let mut jobs: Vec<Job> = Vec::new();
        let mut i: usize = 0;
        while i < self.jobs.len()
            invariant
                i <= self.jobs@.len(),
                jobs@.len() == i,
                forall|j: int| 0 <= j < i ==> jobs@[j]@ == self.jobs@[j]@,
            decreases self.jobs@.len() - i,
        {
            jobs.push(self.jobs[i].clone());
            i = i + 1;
        }
        let copy = Pipeline { jobs: jobs };
        assert(copy@ =~= self@);
        copy
    }
}

/// One `else if` clause of a conditional.
#[derive(Debug, PartialEq, Eq)]
pub struct ElseIf {
    pub expression: Pipeline,
    pub success: Vec<Statement>,
}

/// A statement of the shell language. A block opener carries the body that
/// has been collected for it.
#[derive(Debug, PartialEq, Eq)]
pub enum Statement {
    Pipelines(Vec<Pipeline>),
    While { expression: Pipeline, statements: Vec<Statement> },
    For { variable: String, values: String, statements: Vec<Statement> },
    If { expression: Pipeline, success: Vec<Statement>, else_if: Vec<ElseIf>, failure: Vec<Statement> },
    ElseIf(ElseIf),
    Else,
    Function { name: String, args: Vec<String>, statements: Vec<Statement> },
    End,
    Break,
    Default,
}

/// What an `else if` clause is, as plain values.
pub struct ElseIfView {
    pub expression: Seq<JobView>,
    pub success: Seq<StatementView>,
}

/// What a statement is, as plain values.
pub enum StatementView {
    Pipelines(Seq<Seq<JobView>>),
    While { expression: Seq<JobView>, statements: Seq<StatementView> },
    For { variable: Seq<char>, values: Seq<char>, statements: Seq<StatementView> },
    If {
        expression: Seq<JobView>,
        success: Seq<StatementView>,
        else_if: Seq<ElseIfView>,
        failure: Seq<StatementView>,
    },
    ElseIf(ElseIfView),
    Else,
    Function { name: Seq<char>, args: Seq<Seq<char>>, statements: Seq<StatementView> },
    End,
    Break,
    Default,
}

/// The pipelines of a list, each as plain values.
pub open spec fn pipelines_view(pipelines: Seq<Pipeline>) -> Seq<Seq<JobView>> {
    Seq::new(pipelines.len(), |i: int| pipelines[i]@)
}

/// A statement as plain values.
pub open spec fn statement_view(statement: Statement) -> StatementView
    decreases statement,
{
    match statement {
        Statement::Pipelines(pipelines) => StatementView::Pipelines(pipelines_view(pipelines@)),
        Statement::While { expression, statements } => StatementView::While {
            expression: expression@,
            statements: statements_view(statements@),
        },
        Statement::For { variable, values, statements } => StatementView::For {
            variable: variable@,
            values: values@,
            statements: statements_view(statements@),
        },
        Statement::If { expression, success, else_if, failure } => StatementView::If {
            expression: expression@,
            success: statements_view(success@),
            else_if: else_ifs_view(else_if@),
            failure: statements_view(failure@),
        },
        Statement::ElseIf(clause) => StatementView::ElseIf(else_if_view(clause)),
        Statement::Else => StatementView::Else,
        Statement::Function { name, args, statements } => StatementView::Function {
            name: name@,
            args: texts(args@),
            statements: statements_view(statements@),
        },
        Statement::End => StatementView::End,
        Statement::Break => StatementView::Break,
        Statement::Default => StatementView::Default,
    }
}

/// An `else if` clause as plain values.
pub open spec fn else_if_view(clause: ElseIf) -> ElseIfView
    decreases clause,
{
    ElseIfView { expression: clause.expression@, success: statements_view(clause.success@) }
}

/// The statements of a list, each as plain values.
pub open spec fn statements_view(statements: Seq<Statement>) -> Seq<StatementView>
    decreases statements,
{
    Seq::new(
        statements.len(),
        |i: int|
            if 0 <= i < statements.len() {
                statement_view(statements[i])
            } else {
                StatementView::Default
            },
    )
}

/// The clauses of a list, each as plain values.
pub open spec fn else_ifs_view(clauses: Seq<ElseIf>) -> Seq<ElseIfView>
    decreases clauses,
{
    Seq::new(
        clauses.len(),
        |i: int|
            if 0 <= i < clauses.len() {
                else_if_view(clauses[i])
            } else {
                ElseIfView { expression: Seq::empty(), success: Seq::empty() }
            },
    )
}

impl View for Statement {
    type V = StatementView;

    open spec fn view(&self) -> StatementView {
        statement_view(*self)
    }
}

impl View for ElseIf {
    type V = ElseIfView;

    open spec fn view(&self) -> ElseIfView {
        else_if_view(*self)
    }
}

/// A copy of a list of pipelines, equal to it as plain values.
pub fn clone_pipelines(pipelines: &Vec<Pipeline>) -> (copy: Vec<Pipeline>)
    ensures
        pipelines_view(copy@) == pipelines_view(pipelines@),
{
    let mut copy: Vec<Pipeline> = Vec::new();
    let mut i: usize = 0;
    while i < pipelines.len()
        invariant
            i <= pipelines@.len(),
            copy@.len() == i,
            forall|j: int| 0 <= j < i ==> copy@[j]@ == pipelines@[j]@,
        decreases pipelines@.len() - i,
    {
        copy.push(pipelines[i].clone());
        i = i + 1;
    }
    assert(pipelines_view(copy@) =~= pipelines_view(pipelines@));
    copy
}

/// A copy of a list of statements, equal to it as plain values.
pub fn clone_statements(statements: &Vec<Statement>) -> (copy: Vec<Statement>)
    ensures
        statements_view(copy@) == statements_view(statements@),
    decreases statements,
{
    let mut copy: Vec<Statement> = Vec::new();
    let mut i: usize = 0;
    while i < statements.len()
        invariant
            i <= statements@.len(),
            copy@.len() == i,
            forall|j: int| 0 <= j < i ==> copy@[j]@ == statements@[j]@,
        decreases statements@.len() - i,
    {
        copy.push(statements[i].clone());
        i = i + 1;
    }
    assert(statements_view(copy@) =~= statements_view(statements@));
    copy
}

/// A copy of a list of clauses, equal to it as plain values.
pub fn clone_else_ifs(clauses: &Vec<ElseIf>) -> (copy: Vec<ElseIf>)
    ensures
        else_ifs_view(copy@) == else_ifs_view(clauses@),
    decreases clauses,
{
    let mut copy: Vec<ElseIf> = Vec::new();
    let mut i: usize = 0;
    while i < clauses.len()
        invariant
            i <= clauses@.len(),
            copy@.len() == i,
            forall|j: int| 0 <= j < i ==> copy@[j]@ == clauses@[j]@,
        decreases clauses@.len() - i,
    {
        copy.push(clauses[i].clone());
        i = i + 1;
    }
    assert(else_ifs_view(copy@) =~= else_ifs_view(clauses@));
    copy
}

impl Clone for ElseIf {
    fn clone(&self) -> (copy: ElseIf)
        ensures
            copy@ == self@,
        decreases self,
    {
        ElseIf { expression: self.expression.clone(), success: clone_statements(&self.success) }
    }
}

impl Clone for Statement {
    fn clone(&self) -> (copy: Statement)
        ensures
            copy@ == self@,
        decreases self,
    {
        match self {
            Statement::Pipelines(pipelines) => Statement::Pipelines(clone_pipelines(pipelines)),
            Statement::While { expression, statements } => Statement::While {
                expression: expression.clone(),
                statements: clone_statements(statements),
            },
            Statement::For { variable, values, statements } => Statement::For {
                variable: variable.clone(),
                values: values.clone(),
                statements: clone_statements(statements),
            },
            Statement::If { expression, success, else_if, failure } => Statement::If {
                expression: expression.clone(),
                success: clone_statements(success),
                else_if: clone_else_ifs(else_if),
                failure: clone_statements(failure),
            },
            Statement::ElseIf(clause) => Statement::ElseIf(clause.clone()),
            Statement::Else => Statement::Else,
            Statement::Function { name, args, statements } => Statement::Function {
                name: name.clone(),
                args: clone_strings(args),
                statements: clone_statements(statements),
            },
            Statement::End => Statement::End,
            Statement::Break => Statement::Break,
            Statement::Default => Statement::Default,
        }
    }
}

} // verus!
