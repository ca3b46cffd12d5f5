//! The execution core of a command-line shell.
//!
//! Statements arrive batch by batch, as they are typed or read from a
//! script. The flow-control engine assembles the blocks among them, which
//! may span several batches, and hands each complete statement to a machine
//! that runs it step by step. The machine does no outside work itself: it
//! asks its caller to run a pipeline, to expand a text, to bind a variable
//! or to show a diagnostic, and goes on with the answer.
//!
//! - [`job`]: one command invocation, its expansion, and the process it asks
//!   for.
//! - [`statement`]: the statements of the shell language.
//! - [`collect`]: collecting the body of a block from a stream of statements.
//! - [`flow_control`]: what the engine remembers between batches.
//! - [`for_expression`]: the values that a `for` loop runs over.
//! - [`functions`]: the table of defined functions.
//! - [`frame`]: the machine's stack entries, its requests and their answers.
//! - [`shell`]: the state of a shell.
//! - [`flow`]: the engine.
//! - [`machine`]: the machine.
//! - [`laws`]: what holds of the engine and the machine, whatever the input.
//! - [`runs`]: what whole runs of the machine ask for.
//! - [`text`]: helpers for strings.

pub mod job;
pub mod statement;
pub mod collect;
pub mod flow_control;
pub mod text;
pub mod for_expression;
pub mod functions;
pub mod frame;
pub mod shell;
pub mod flow;
pub mod machine;
pub mod laws;
pub mod runs;
