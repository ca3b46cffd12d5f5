use std::collections::VecDeque;

use ion_shell::flow::FlowLogic;
use ion_shell::flow_control::{FlowError, IfMode};
use ion_shell::frame::{into_queue, is_success, ForPhase, Frame, Reply, Request, WhilePhase};
use ion_shell::machine::queue_of;
use ion_shell::job::{Job, JobKind};
use ion_shell::shell::Shell;
use ion_shell::statement::{ElseIf, Pipeline, Statement};

fn pipeline(name: &str) -> Pipeline {
    Pipeline { jobs: vec![Job::new(vec![name.to_string()], JobKind::Last)] }
}

fn run(name: &str) -> Statement {
    Statement::Pipelines(vec![pipeline(name)])
}

fn while_loop(condition: &str) -> Statement {
    Statement::While { expression: pipeline(condition), statements: Vec::new() }
}

fn for_loop(variable: &str, values: &str) -> Statement {
    Statement::For {
        variable: variable.to_string(),
        values: values.to_string(),
        statements: Vec::new(),
    }
}

fn conditional(condition: &str) -> Statement {
    Statement::If {
        expression: pipeline(condition),
        success: Vec::new(),
        else_if: Vec::new(),
        failure: Vec::new(),
    }
}

fn else_if(condition: &str) -> Statement {
    Statement::ElseIf(ElseIf { expression: pipeline(condition), success: Vec::new() })
}

fn function(name: &str, args: &[&str]) -> Statement {
    Statement::Function {
        name: name.to_string(),
        args: args.iter().map(|arg| arg.to_string()).collect(),
        statements: Vec::new(),
    }
}

/// Steps the machine until it is idle. Every pipeline is answered by
/// `status`, called with the pipeline's command and the number of times that
/// command has been run before; a value expression expands to itself.
fn drive(shell: &mut Shell, status: &dyn Fn(&str, usize) -> Option<i32>) -> Vec<String> {
    let mut log: Vec<String> = Vec::new();
    let mut reply = Reply::Nothing;
    let mut steps = 0;
    loop {
        steps += 1;
        assert!(steps < 100_000);
        match shell.resume(reply) {
            Request::Continue => reply = Reply::Nothing,
            Request::Idle => return log,
            Request::Report(error) => {
                log.push(format!("report: {}", error.message()));
                reply = Reply::Nothing;
            }
            Request::Run(pipeline) => {
                let name = pipeline.jobs[0].command.clone();
                let line = format!("run {}", name);
                let before = log.iter().filter(|entry| **entry == line).count();
                log.push(line);
                reply = Reply::Status(status(&name, before));
            }
            Request::Expand(values) => {
                log.push(format!("expand {}", values));
                reply = Reply::Expanded(values);
            }
            Request::Bind(variable, value) => {
                log.push(format!("bind {}={}", variable, value));
                reply = Reply::Nothing;
            }
        }
    }
}

fn always(_: &str, _: usize) -> Option<i32> {
    Some(0)
}

fn never(_: &str, _: usize) -> Option<i32> {
    Some(1)
}

fn feed(shell: &mut Shell, statements: Vec<Statement>) {
    shell.on_command(VecDeque::from(statements));
}

#[test]
fn new_shell_is_idle() {
    let mut shell = Shell::new();
    assert_eq!(shell.flow_control.level, 0);
    assert!(shell.stack.is_empty());
    assert!(shell.input.is_empty());
    assert_eq!(shell.resume(Reply::Nothing), Request::Idle);
    assert_eq!(shell.resume(Reply::Status(Some(0))), Request::Idle);
}

#[test]
fn only_status_zero_is_success() {
    assert!(is_success(&Reply::Status(Some(0))));
    assert!(!is_success(&Reply::Status(Some(1))));
    assert!(!is_success(&Reply::Status(Some(-1))));
    assert!(!is_success(&Reply::Status(None)));
    assert!(!is_success(&Reply::Nothing));
    assert!(!is_success(&Reply::Expanded("0".to_string())));
}

#[test]
fn pipelines_run_in_order_whatever_their_status() {
    let mut shell = Shell::new();
    feed(
        &mut shell,
        vec![Statement::Pipelines(vec![pipeline("a"), pipeline("b")]), run("c")],
    );
    assert_eq!(drive(&mut shell, &never), vec!["run a", "run b", "run c"]);
    assert!(shell.stack.is_empty());
    assert!(shell.input.is_empty());
}

#[test]
fn complete_block_in_one_batch_runs_once_and_leaves_nothing_pending() {
    let mut shell = Shell::new();
    feed(&mut shell, vec![while_loop("c"), run("a"), Statement::End, run("after")]);
    let log = drive(&mut shell, &|name, times| {
        if name == "c" && times >= 1 {
            Some(1)
        } else {
            Some(0)
        }
    });
    assert_eq!(log, vec!["run c", "run a", "run c", "run after"]);
    assert_eq!(shell.flow_control.level, 0);
    assert_eq!(shell.flow_control.current_statement, Statement::Default);
    assert!(shell.stack.is_empty());
}

#[test]
fn complete_block_is_on_the_stack_once_its_batch_is_taken() {
    let mut shell = Shell::new();
    feed(&mut shell, vec![while_loop("c"), run("a"), Statement::End, run("after")]);
    assert_eq!(shell.flow_control.level, 0);
    assert_eq!(shell.flow_control.current_statement, Statement::Default);
    assert_eq!(
        shell.stack,
        vec![Frame::While {
            expression: pipeline("c"),
            statements: vec![run("a")],
            phase: WhilePhase::Start
        }]
    );
    assert_eq!(shell.input, VecDeque::from(vec![run("after")]));
}

#[test]
fn open_block_is_kept_and_nothing_of_it_runs() {
    let mut shell = Shell::new();
    feed(&mut shell, vec![run("before"), while_loop("c"), run("a"), for_loop("x", "1..3")]);
    let log = drive(&mut shell, &always);
    assert_eq!(log, vec!["run before"]);
    assert_eq!(shell.flow_control.level, 2);
    assert_eq!(
        shell.flow_control.current_statement,
        Statement::While {
            expression: pipeline("c"),
            statements: vec![run("a"), for_loop("x", "1..3")]
        }
    );
    assert!(shell.stack.is_empty());
    assert!(shell.input.is_empty());
    assert_eq!(shell.functions.get("f"), None);
    assert_eq!(shell.resume(Reply::Nothing), Request::Idle);
    assert_eq!(shell.flow_control.level, 2);
}

#[test]
fn withheld_terminator_in_a_later_batch_completes_the_block() {
    let mut shell = Shell::new();
    feed(&mut shell, vec![while_loop("c"), run("a")]);
    assert_eq!(drive(&mut shell, &always), Vec::<String>::new());
    assert_eq!(shell.flow_control.level, 1);
    feed(&mut shell, vec![run("b")]);
    assert_eq!(drive(&mut shell, &always), Vec::<String>::new());
    assert_eq!(shell.flow_control.level, 1);
    feed(&mut shell, vec![Statement::End, run("x"), run("y")]);
    assert_eq!(shell.flow_control.level, 0);
    assert_eq!(shell.flow_control.current_statement, Statement::Default);
    let log = drive(&mut shell, &|name, times| {
        if name == "c" && times >= 2 {
            None
        } else {
            Some(0)
        }
    });
    assert_eq!(
        log,
        vec!["run c", "run a", "run b", "run c", "run a", "run b", "run c", "run x", "run y"]
    );
    assert!(shell.stack.is_empty());
    assert!(shell.input.is_empty());
}

#[test]
fn two_batches_leave_what_one_batch_leaves() {
    let first = vec![run("a"), conditional("d"), run("b")];
    let second = vec![Statement::End, run("c"), Statement::End, run("after")];

    let mut split = Shell::new();
    feed(&mut split, vec![for_loop("x", "p q")]);
    assert_eq!(split.flow_control.level, 1);
    feed(&mut split, first.clone());
    assert_eq!(split.flow_control.level, 2);
    feed(&mut split, second.clone());

    let mut whole = Shell::new();
    let mut all = vec![for_loop("x", "p q")];
    all.extend(first);
    all.extend(second);
    feed(&mut whole, all);

    assert_eq!(split, whole);
    assert_eq!(split.flow_control.level, 0);
    assert_eq!(split.stack.len(), 1);
    assert_eq!(split.input, VecDeque::from(vec![run("after")]));
}

#[test]
fn while_loop_runs_while_its_condition_succeeds() {
    let mut shell = Shell::new();
    feed(&mut shell, vec![while_loop("c"), run("a"), run("b"), Statement::End]);
    let log = drive(&mut shell, &|name, times| {
        if name == "c" && times >= 3 {
            Some(2)
        } else {
            Some(0)
        }
    });
    assert_eq!(
        log,
        vec![
            "run c", "run a", "run b", "run c", "run a", "run b", "run c", "run a", "run b",
            "run c"
        ]
    );
}

#[test]
fn while_loop_whose_condition_fails_at_once_runs_nothing() {
    let mut shell = Shell::new();
    feed(&mut shell, vec![while_loop("c"), run("a"), Statement::End, run("after")]);
    assert_eq!(drive(&mut shell, &never), vec!["run c", "run after"]);
}

#[test]
fn pipeline_without_a_status_has_failed() {
    let mut shell = Shell::new();
    feed(&mut shell, vec![while_loop("c"), run("a"), Statement::End]);
    assert_eq!(drive(&mut shell, &|_, _| None), vec!["run c"]);
}

#[test]
fn break_ends_its_loop() {
    let mut shell = Shell::new();
    feed(
        &mut shell,
        vec![while_loop("c"), run("a"), Statement::Break, run("never"), Statement::End, run("z")],
    );
    assert_eq!(drive(&mut shell, &always), vec!["run c", "run a", "run z"]);
}

#[test]
fn break_in_the_inner_of_two_loops_leaves_the_outer_loop_running() {
    let mut shell = Shell::new();
    feed(
        &mut shell,
        vec![
            while_loop("outer"),
            while_loop("inner"),
            run("a"),
            Statement::Break,
            run("never"),
            Statement::End,
            run("b"),
            Statement::End,
        ],
    );
    let log = drive(&mut shell, &|name, times| {
        if name == "outer" && times >= 2 {
            Some(1)
        } else {
            Some(0)
        }
    });
    assert_eq!(
        log,
        vec![
            "run outer",
            "run inner",
            "run a",
            "run b",
            "run outer",
            "run inner",
            "run a",
            "run b",
            "run outer"
        ]
    );
    assert!(shell.stack.is_empty());
}

#[test]
fn break_inside_a_conditional_ends_the_loop_around_it() {
    let mut shell = Shell::new();
    feed(
        &mut shell,
        vec![
            while_loop("c"),
            run("a"),
            conditional("d"),
            run("b"),
            Statement::Break,
            run("never"),
            Statement::Else,
            run("e"),
            Statement::End,
            Statement::End,
            run("after"),
        ],
    );
    let log = drive(&mut shell, &|name, times| {
        if name == "d" && times == 0 {
            Some(1)
        } else {
            Some(0)
        }
    });
    assert_eq!(
        log,
        vec![
            "run c", "run a", "run d", "run e", "run c", "run a", "run d", "run b", "run after"
        ]
    );
}

#[test]
fn break_outside_a_loop_ends_the_statements_it_stands_in() {
    let mut shell = Shell::new();
    shell.execute_statements(vec![run("a"), Statement::Break, run("never")]);
    assert_eq!(drive(&mut shell, &always), vec!["run a"]);
    assert!(shell.stack.is_empty());
    let mut shell = Shell::new();
    feed(&mut shell, vec![Statement::Break, run("a")]);
    assert_eq!(drive(&mut shell, &always), vec!["run a"]);
}

#[test]
fn conditional_whose_condition_succeeds_runs_its_success_statements() {
    let mut shell = Shell::new();
    feed(
        &mut shell,
        vec![
            conditional("c1"),
            run("a"),
            else_if("c2"),
            run("b"),
            Statement::Else,
            run("d"),
            Statement::End,
        ],
    );
    assert_eq!(drive(&mut shell, &always), vec!["run c1", "run a"]);
}

#[test]
fn conditional_stops_at_the_first_clause_that_succeeds() {
    let mut shell = Shell::new();
    feed(
        &mut shell,
        vec![
            conditional("c1"),
            run("a"),
            else_if("c2"),
            run("b"),
            else_if("c3"),
            run("c"),
            else_if("c4"),
            run("d"),
            Statement::Else,
            run("e"),
            Statement::End,
            run("after"),
        ],
    );
    let log = drive(&mut shell, &|name, _| {
        if name == "c1" || name == "c2" {
            Some(1)
        } else {
            Some(0)
        }
    });
    assert_eq!(log, vec!["run c1", "run c2", "run c3", "run c", "run after"]);
}

#[test]
fn conditional_with_no_condition_that_succeeds_runs_its_failure_statements() {
    let mut shell = Shell::new();
    feed(
        &mut shell,
        vec![
            conditional("c1"),
            run("a"),
            else_if("c2"),
            run("b"),
            Statement::Else,
            run("e"),
            run("f"),
            Statement::End,
        ],
    );
    let log = drive(&mut shell, &|name, _| if name.starts_with('c') { None } else { Some(0) });
    assert_eq!(log, vec!["run c1", "run c2", "run e", "run f"]);
}

#[test]
fn conditional_without_else_may_run_nothing() {
    let mut shell = Shell::new();
    feed(&mut shell, vec![conditional("c1"), run("a"), Statement::End, run("after")]);
    assert_eq!(drive(&mut shell, &never), vec!["run c1", "run after"]);
}

#[test]
fn for_loop_over_a_range_binds_each_integer_before_the_end() {
    let mut shell = Shell::new();
    feed(&mut shell, vec![for_loop("x", "1..4"), run("a"), Statement::End]);
    assert_eq!(
        drive(&mut shell, &always),
        vec![
            "expand 1..4",
            "bind x=1",
            "run a",
            "bind x=2",
            "run a",
            "bind x=3",
            "run a"
        ]
    );
}

#[test]
fn for_loop_over_words_binds_each_word() {
    let mut shell = Shell::new();
    feed(&mut shell, vec![for_loop("name", "  ann bob\tcy "), run("a"), Statement::End]);
    assert_eq!(
        drive(&mut shell, &always),
        vec![
            "expand   ann bob\tcy ",
            "bind name=ann",
            "run a",
            "bind name=bob",
            "run a",
            "bind name=cy",
            "run a"
        ]
    );
}

#[test]
fn placeholder_value_runs_the_body_without_binding() {
    let mut shell = Shell::new();
    feed(&mut shell, vec![for_loop("x", "a _ b"), run("body"), Statement::End]);
    assert_eq!(
        drive(&mut shell, &always),
        vec!["expand a _ b", "bind x=a", "run body", "run body", "bind x=b", "run body"]
    );
}

#[test]
fn for_loop_without_values_runs_nothing() {
    let mut shell = Shell::new();
    feed(&mut shell, vec![for_loop("x", "5..5"), run("a"), Statement::End, run("after")]);
    assert_eq!(drive(&mut shell, &always), vec!["expand 5..5", "run after"]);
}

#[test]
fn break_ends_a_for_loop() {
    let mut shell = Shell::new();
    feed(
        &mut shell,
        vec![
            for_loop("x", "1..100"),
            run("a"),
            Statement::Break,
            Statement::End,
            run("after"),
        ],
    );
    assert_eq!(
        drive(&mut shell, &always),
        vec!["expand 1..100", "bind x=1", "run a", "run after"]
    );
}

#[test]
fn answer_that_is_no_expansion_gives_no_values() {
    let mut shell = Shell::new();
    shell.execute_for("x", "1..3", vec![run("a")]);
    assert_eq!(shell.resume(Reply::Nothing), Request::Expand("1..3".to_string()));
    assert_eq!(shell.resume(Reply::Status(Some(0))), Request::Continue);
    assert_eq!(shell.resume(Reply::Nothing), Request::Continue);
    assert!(shell.stack.is_empty());
    assert_eq!(shell.resume(Reply::Nothing), Request::Idle);
}

#[test]
fn function_definition_is_entered_in_the_table() {
    let mut shell = Shell::new();
    feed(
        &mut shell,
        vec![function("greet", &["who"]), run("a"), Statement::Break, Statement::End, run("z")],
    );
    assert_eq!(drive(&mut shell, &always), vec!["run z"]);
    let found = shell.functions.get("greet").expect("the function is defined");
    assert_eq!(found.name, "greet");
    assert_eq!(found.args, vec!["who"]);
    assert_eq!(found.statements, vec![run("a"), Statement::Break]);
}

#[test]
fn function_defined_inside_a_loop_is_entered_when_the_loop_runs() {
    let mut shell = Shell::new();
    feed(
        &mut shell,
        vec![
            while_loop("c"),
            function("f", &[]),
            run("body"),
            Statement::End,
            run("a"),
            Statement::End,
        ],
    );
    assert_eq!(shell.functions.get("f"), None);
    let log = drive(&mut shell, &|_, times| if times == 0 { Some(0) } else { Some(1) });
    assert_eq!(log, vec!["run c", "run a", "run c"]);
    assert_eq!(shell.functions.get("f").unwrap().statements, vec![run("body")]);
}

#[test]
fn terminator_with_no_block_open_is_reported() {
    let mut shell = Shell::new();
    feed(&mut shell, vec![Statement::End, run("next")]);
    assert_eq!(
        drive(&mut shell, &always),
        vec!["report: ion: syntax error: no block to end", "run next"]
    );
    assert_eq!(shell.flow_control.level, 0);
    assert_eq!(shell.flow_control.current_statement, Statement::Default);
    assert!(shell.stack.is_empty());
}

#[test]
fn empty_statement_at_the_top_level_is_reported() {
    let mut shell = Shell::new();
    feed(&mut shell, vec![Statement::Default, run("next")]);
    assert_eq!(shell.stack, vec![Frame::Report(FlowError::EmptyStatement)]);
    assert_eq!(shell.input, VecDeque::from(vec![run("next")]));
    assert_eq!(
        drive(&mut shell, &always),
        vec!["report: ion: syntax error: empty statement", "run next"]
    );
    assert_eq!(shell.flow_control.level, 0);
    assert_eq!(shell.flow_control.current_statement, Statement::Default);
    assert!(shell.stack.is_empty());
    let mut rest = VecDeque::from(vec![run("kept")]);
    assert_eq!(shell.execute_toplevel(&mut rest, Statement::Default), Ok(()));
    assert_eq!(rest, VecDeque::from(vec![run("kept")]));
    assert_eq!(shell.stack, vec![Frame::Report(FlowError::EmptyStatement)]);
}

#[test]
fn break_at_the_top_level_is_passed_over_in_silence() {
    let mut shell = Shell::new();
    let mut rest = VecDeque::from(vec![run("kept")]);
    assert_eq!(shell.execute_toplevel(&mut rest, Statement::Break), Ok(()));
    assert_eq!(rest.len(), 1);
    assert!(shell.stack.is_empty());
    assert_eq!(shell.flow_control.level, 0);
}

#[test]
fn clause_marker_with_no_conditional_open_is_reported() {
    let mut shell = Shell::new();
    feed(&mut shell, vec![Statement::Else, else_if("c"), run("next")]);
    assert_eq!(
        drive(&mut shell, &always),
        vec![
            "report: ion: syntax error: not an if statement",
            "report: ion: syntax error: not an if statement",
            "run next"
        ]
    );
    assert_eq!(shell.flow_control.level, 0);
    assert!(shell.stack.is_empty());
    feed(&mut shell, vec![while_loop("c"), Statement::End]);
    assert_eq!(drive(&mut shell, &never), vec!["run c"]);
}

#[test]
fn second_else_at_the_top_level_drops_the_batch() {
    let mut shell = Shell::new();
    feed(
        &mut shell,
        vec![
            run("before"),
            conditional("c"),
            run("a"),
            Statement::Else,
            run("b"),
            Statement::Else,
            run("d"),
            Statement::End,
            run("dropped"),
        ],
    );
    assert_eq!(
        drive(&mut shell, &always),
        vec!["run before", "report: ion: syntax error: else block already given"]
    );
    assert_eq!(shell.flow_control.level, 0);
    assert_eq!(shell.flow_control.current_if_mode, IfMode::Success);
    assert_eq!(shell.flow_control.current_statement, Statement::Default);
    assert!(shell.input.is_empty());
    feed(&mut shell, vec![run("next")]);
    assert_eq!(drive(&mut shell, &always), vec!["run next"]);
}

#[test]
fn second_else_in_a_later_batch_drops_the_pending_conditional() {
    let mut shell = Shell::new();
    feed(&mut shell, vec![conditional("c"), run("a"), Statement::Else, run("b")]);
    assert_eq!(drive(&mut shell, &always), Vec::<String>::new());
    assert_eq!(shell.flow_control.level, 1);
    assert_eq!(shell.flow_control.current_if_mode, IfMode::Failure);
    feed(&mut shell, vec![else_if("late"), run("d"), Statement::End]);
    assert_eq!(shell.flow_control.level, 0);
    assert_eq!(shell.flow_control.current_statement, Statement::Default);
    assert_eq!(shell.flow_control.current_if_mode, IfMode::Success);
    assert_eq!(
        drive(&mut shell, &always),
        vec!["report: ion: syntax error: else block already given"]
    );
    assert!(shell.stack.is_empty());
}

#[test]
fn second_else_in_a_nested_conditional_ends_the_loop_around_it() {
    let mut shell = Shell::new();
    feed(
        &mut shell,
        vec![
            while_loop("c"),
            run("a"),
            conditional("d"),
            Statement::Else,
            Statement::Else,
            Statement::End,
            run("never"),
            Statement::End,
            run("after"),
        ],
    );
    assert_eq!(
        drive(&mut shell, &always),
        vec![
            "run c",
            "run a",
            "report: ion: syntax error: else block already given",
            "run after"
        ]
    );
}

#[test]
fn conditional_in_two_batches_fills_the_clause_that_was_open() {
    let mut shell = Shell::new();
    feed(&mut shell, vec![conditional("c1"), run("a"), else_if("c2"), run("b")]);
    assert_eq!(drive(&mut shell, &always), Vec::<String>::new());
    assert_eq!(shell.flow_control.current_if_mode, IfMode::ElseIf);
    feed(&mut shell, vec![run("b2"), Statement::Else, run("e"), Statement::End]);
    let log = drive(&mut shell, &|name, _| if name == "c1" { Some(1) } else { Some(0) });
    assert_eq!(log, vec!["run c1", "run c2", "run b", "run b2"]);
}

#[test]
fn toplevel_statement_collects_from_what_follows_it() {
    let mut shell = Shell::new();
    let mut rest = VecDeque::from(vec![run("a"), Statement::End, run("after")]);
    assert_eq!(shell.execute_toplevel(&mut rest, while_loop("c")), Ok(()));
    assert_eq!(rest, VecDeque::from(vec![run("after")]));
    assert_eq!(shell.flow_control.level, 0);
    assert_eq!(shell.stack.len(), 1);
    let mut rest = VecDeque::from(vec![Statement::Else, Statement::Else]);
    assert_eq!(
        shell.execute_toplevel(&mut rest, conditional("c")),
        Err(FlowError::ElseAlreadyGiven)
    );
    assert_eq!(shell.flow_control.level, 0);
    assert_eq!(shell.flow_control.current_statement, Statement::Default);
    assert!(rest.is_empty());
    assert_eq!(shell.stack.len(), 1);
}

#[test]
fn handing_over_puts_one_entry_on_the_stack() {
    let mut shell = Shell::new();
    shell.execute_while(pipeline("c"), vec![run("a")]);
    shell.execute_for("x", "1..2", vec![run("b")]);
    shell.execute_if(
        pipeline("d"),
        vec![run("s")],
        vec![ElseIf { expression: pipeline("e"), success: vec![run("t")] }],
        vec![run("f")],
    );
    shell.execute_statements(vec![run("g")]);
    assert_eq!(shell.stack.len(), 4);
    assert_eq!(
        shell.stack[0],
        Frame::While { expression: pipeline("c"), statements: vec![run("a")], phase: WhilePhase::Start }
    );
    assert_eq!(shell.stack[3], Frame::Block(VecDeque::from(vec![run("g")])));
    let log = drive(&mut shell, &|name, times| {
        if name == "c" && times >= 1 {
            Some(1)
        } else if name == "d" {
            Some(1)
        } else {
            Some(0)
        }
    });
    assert_eq!(
        log,
        vec![
            "run g",
            "run d",
            "run e",
            "run t",
            "expand 1..2",
            "bind x=1",
            "run b",
            "run c",
            "run a",
            "run c"
        ]
    );
}

#[test]
fn loop_body_is_run_from_a_fresh_copy_each_round() {
    let mut shell = Shell::new();
    feed(
        &mut shell,
        vec![
            while_loop("c"),
            for_loop("x", "1..3"),
            run("a"),
            Statement::End,
            Statement::End,
        ],
    );
    let log = drive(&mut shell, &|name, times| {
        if name == "c" && times >= 2 {
            Some(1)
        } else {
            Some(0)
        }
    });
    assert_eq!(
        log,
        vec![
            "run c",
            "expand 1..3",
            "bind x=1",
            "run a",
            "bind x=2",
            "run a",
            "run c",
            "expand 1..3",
            "bind x=1",
            "run a",
            "bind x=2",
            "run a",
            "run c"
        ]
    );
}

#[test]
fn terminator_inside_a_list_closes_the_block_before_it() {
    let mut shell = Shell::new();
    shell.execute_statements(vec![
        while_loop("c"),
        run("a"),
        Statement::End,
        run("b"),
    ]);
    let log = drive(&mut shell, &|name, times| {
        if name == "c" && times >= 2 {
            Some(1)
        } else {
            Some(0)
        }
    });
    assert_eq!(log, vec!["run c", "run a", "run c", "run a", "run c", "run b"]);
}

#[test]
fn block_inside_a_body_ends_at_its_own_terminator() {
    let mut shell = Shell::new();
    feed(
        &mut shell,
        vec![
            for_loop("x", "1..3"),
            run("a"),
            conditional("d"),
            run("b"),
            Statement::End,
            run("c"),
            Statement::End,
        ],
    );
    assert_eq!(
        shell.stack,
        vec![Frame::For {
            variable: "x".to_string(),
            values: "1..3".to_string(),
            remaining: ion_shell::for_expression::ForValues::empty(),
            statements: vec![run("a"), conditional("d"), run("b"), Statement::End, run("c")],
            phase: ForPhase::Start
        }]
    );
    let log = drive(&mut shell, &|name, times| {
        if name == "d" && times == 0 {
            Some(1)
        } else {
            Some(0)
        }
    });
    assert_eq!(
        log,
        vec![
            "expand 1..3",
            "bind x=1",
            "run a",
            "run d",
            "run c",
            "bind x=2",
            "run a",
            "run d",
            "run b",
            "run c"
        ]
    );
}

#[test]
fn statements_with_no_meaning_inside_a_body_are_passed_over() {
    let mut shell = Shell::new();
    shell.execute_statements(vec![
        Statement::Default,
        Statement::Else,
        run("a"),
        Statement::End,
        else_if("c"),
        run("b"),
    ]);
    assert_eq!(drive(&mut shell, &always), vec!["run a", "run b"]);
}

#[test]
fn copy_of_a_statement_equals_it() {
    let statement = Statement::If {
        expression: pipeline("c"),
        success: vec![run("a"), while_loop("w"), Statement::End],
        else_if: vec![ElseIf { expression: pipeline("d"), success: vec![Statement::Break] }],
        failure: vec![function("f", &["x", "y"]), for_loop("i", "1..3"), Statement::Default],
    };
    assert_eq!(statement.clone(), statement);
    assert_eq!(pipeline("p").clone(), pipeline("p"));
}

fn running_while(condition: &str) -> Frame {
    Frame::While {
        expression: pipeline(condition),
        statements: vec![run("body")],
        phase: WhilePhase::Running,
    }
}

fn block(names: &[&str]) -> Frame {
    Frame::Block(names.iter().map(|name| run(name)).collect())
}

#[test]
fn list_becomes_a_queue_in_the_same_order() {
    assert_eq!(into_queue(vec![1, 2, 3]), VecDeque::from(vec![1, 2, 3]));
    assert_eq!(into_queue(Vec::<u8>::new()), VecDeque::new());
    assert_eq!(queue_of(&vec![run("a"), Statement::Break]), VecDeque::from(vec![run("a"), Statement::Break]));
}

#[test]
fn break_unwinds_the_lists_down_to_the_innermost_loop_and_that_loop() {
    let mut shell = Shell::new();
    shell.stack = vec![
        running_while("outer"),
        block(&["x"]),
        running_while("inner"),
        block(&["y"]),
        block(&["z"]),
    ];
    shell.finish(true);
    assert_eq!(shell.stack, vec![running_while("outer"), block(&["x"])]);
}

#[test]
fn list_that_ends_without_break_lets_the_loop_start_its_next_round() {
    let mut shell = Shell::new();
    shell.stack = vec![block(&["x"]), running_while("c")];
    shell.finish(false);
    assert_eq!(
        shell.stack,
        vec![
            block(&["x"]),
            Frame::While {
                expression: pipeline("c"),
                statements: vec![run("body")],
                phase: WhilePhase::Start
            }
        ]
    );
}

#[test]
fn list_that_ends_without_break_lets_the_for_loop_take_its_next_value() {
    let mut shell = Shell::new();
    shell.execute_for("x", "a b", vec![run("body")]);
    assert_eq!(shell.resume(Reply::Nothing), Request::Expand("a b".to_string()));
    assert_eq!(shell.resume(Reply::Expanded("a b".to_string())), Request::Continue);
    assert_eq!(
        shell.resume(Reply::Nothing),
        Request::Bind("x".to_string(), "a".to_string())
    );
    assert_eq!(shell.resume(Reply::Nothing), Request::Continue);
    assert_eq!(shell.stack.len(), 2);
    assert_eq!(shell.stack[1], block(&["body"]));
    let popped = shell.stack.pop();
    assert_eq!(popped, Some(block(&["body"])));
    shell.finish(false);
    assert_eq!(shell.stack.len(), 1);
    match &shell.stack[0] {
        Frame::For { phase, .. } => assert_eq!(*phase, ForPhase::Next),
        other => panic!("a for loop was expected, not {:?}", other),
    }
    assert_eq!(
        shell.resume(Reply::Nothing),
        Request::Bind("x".to_string(), "b".to_string())
    );
    assert_eq!(shell.resume(Reply::Nothing), Request::Continue);
    assert_eq!(shell.stack.pop(), Some(block(&["body"])));
    shell.finish(true);
    assert!(shell.stack.is_empty());
}

#[test]
fn list_below_a_list_goes_on_unless_the_list_above_broke() {
    let mut shell = Shell::new();
    shell.stack = vec![block(&["x"])];
    shell.finish(false);
    assert_eq!(shell.stack, vec![block(&["x"])]);
    shell.finish(true);
    assert!(shell.stack.is_empty());
    shell.finish(true);
    assert!(shell.stack.is_empty());
}

#[test]
fn entry_that_is_no_list_and_no_running_loop_stops_the_unwinding() {
    let mut shell = Shell::new();
    let waiting = Frame::While {
        expression: pipeline("c"),
        statements: Vec::new(),
        phase: WhilePhase::Await,
    };
    shell.stack = vec![
        block(&["x"]),
        Frame::Pipelines(VecDeque::from(vec![pipeline("p")])),
        block(&["y"]),
    ];
    shell.finish(true);
    assert_eq!(
        shell.stack,
        vec![block(&["x"]), Frame::Pipelines(VecDeque::from(vec![pipeline("p")]))]
    );
    shell.stack = vec![waiting];
    shell.finish(true);
    assert_eq!(shell.stack.len(), 1);
}

#[test]
fn scheduling_defining_and_queueing_change_one_thing_each() {
    let mut shell = Shell::new();
    shell.schedule(Frame::Report(FlowError::NotAnIf));
    assert_eq!(shell.stack, vec![Frame::Report(FlowError::NotAnIf)]);
    shell.define("f".to_string(), vec!["a".to_string()], vec![run("x")]);
    assert_eq!(shell.functions.get("f").unwrap().statements, vec![run("x")]);
    shell.append_input(VecDeque::from(vec![run("a")]));
    shell.append_input(VecDeque::from(vec![run("b"), run("c")]));
    assert_eq!(shell.input, VecDeque::from(vec![run("a"), run("b"), run("c")]));
    assert_eq!(shell.stack.len(), 1);
    assert_eq!(shell.flow_control.level, 0);
    assert_eq!(drive(&mut shell, &always).len(), 4);
}

#[test]
fn batch_is_taken_up_until_something_is_to_be_run() {
    let mut shell = Shell::new();
    feed(&mut shell, vec![function("f", &[]), Statement::End, run("a"), run("b")]);
    assert!(shell.functions.get("f").is_some());
    assert_eq!(shell.stack, vec![Frame::Pipelines(VecDeque::from(vec![pipeline("a")]))]);
    assert_eq!(shell.input, VecDeque::from(vec![run("b")]));
    assert_eq!(drive(&mut shell, &always), vec!["run a", "run b"]);
    assert!(shell.stack.is_empty());
    assert!(shell.input.is_empty());
}

#[test]
fn for_loop_and_what_stands_behind_it_run_in_order() {
    let mut shell = Shell::new();
    feed(
        &mut shell,
        vec![
            for_loop("x", "1..3"),
            run("a"),
            Statement::Pipelines(vec![pipeline("b"), pipeline("c")]),
            Statement::End,
            run("p1"),
            run("p2"),
        ],
    );
    assert_eq!(
        drive(&mut shell, &never),
        vec![
            "expand 1..3",
            "bind x=1",
            "run a",
            "run b",
            "run c",
            "bind x=2",
            "run a",
            "run b",
            "run c",
            "run p1",
            "run p2"
        ]
    );
    assert_eq!(shell, Shell::new());
}

#[test]
fn pending_for_loop_runs_once_with_the_body_of_both_batches() {
    let mut shell = Shell::new();
    feed(&mut shell, vec![for_loop("v", "w"), run("b1")]);
    assert_eq!(drive(&mut shell, &always), Vec::<String>::new());
    assert_eq!(shell.flow_control.level, 1);
    feed(&mut shell, vec![run("s1"), run("s2"), Statement::End, run("p1"), run("p2")]);
    assert_eq!(shell.flow_control.level, 0);
    assert_eq!(
        drive(&mut shell, &always),
        vec!["expand w", "bind v=w", "run b1", "run s1", "run s2", "run p1", "run p2"]
    );
    assert_eq!(shell, Shell::new());
}
