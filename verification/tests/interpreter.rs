use std::collections::VecDeque;

use ion_shell::collect::{collect_if, collect_loops};
use ion_shell::flow::FlowLogic;
use ion_shell::flow_control::{FlowError, IfMode, SUCCESS};
use ion_shell::for_expression::{ForExpression, ForValues};
use ion_shell::frame::{Reply, Request};
use ion_shell::job::{Job, JobKind};
use ion_shell::shell::Shell;
use ion_shell::statement::{ElseIf, Pipeline, Statement};

/// A source of numbers that gives the same numbers for the same seed.
struct Numbers {
    state: u64,
}

impl Numbers {
    fn next(&mut self, bound: u64) -> u64 {
        self.state = self.state.wrapping_mul(6364136223846793005).wrapping_add(1442695040888963407);
        (self.state >> 33) % bound
    }
}

/// The answers of the world outside: the statuses of the pipelines that are
/// run, in the order in which they are run. After `patience` answers every
/// pipeline fails, so that every loop ends.
struct World {
    numbers: Numbers,
    patience: usize,
    log: Vec<String>,
}

impl World {
    fn new(seed: u64) -> World {
        World { numbers: Numbers { state: seed }, patience: 60, log: Vec::new() }
    }

    fn run(&mut self, pipeline: &Pipeline) -> Option<i32> {
        self.log.push(format!("run {}", pipeline.jobs[0].command));
        if self.patience == 0 {
            return None;
        }
        self.patience -= 1;
        match self.numbers.next(4) {
            0 => Some(1),
            1 => None,
            _ => Some(SUCCESS),
        }
    }

    fn expand(&mut self, values: &str) -> String {
        self.log.push(format!("expand {}", values));
        values.to_string()
    }

    fn bind(&mut self, variable: &str, value: &str) {
        self.log.push(format!("bind {}={}", variable, value));
    }

    fn report(&mut self, error: FlowError) {
        self.log.push(format!("report {}", error.message()));
    }
}

/// An interpreter that runs statements by calling itself for every body.
struct Recursive {
    world: World,
    level: usize,
    current_statement: Statement,
    current_if_mode: IfMode,
    functions: Vec<(String, Vec<String>, Vec<Statement>)>,
}

impl Recursive {
    fn new(seed: u64) -> Recursive {
        Recursive {
            world: World::new(seed),
            level: 0,
            current_statement: Statement::Default,
            current_if_mode: IfMode::Success,
            functions: Vec::new(),
        }
    }

    fn define(&mut self, name: String, args: Vec<String>, statements: Vec<Statement>) {
        self.functions.retain(|entry| entry.0 != name);
        self.functions.push((name, args, statements));
    }

    fn reset(&mut self) {
        self.level = 0;
        self.current_if_mode = IfMode::Success;
        self.current_statement = Statement::Default;
    }

    fn begin(&mut self, statement: Statement) {
        match statement {
            Statement::While { expression, statements } => {
                self.execute_while(expression, statements)
            }
            Statement::For { variable, values, statements } => {
                self.execute_for(&variable, &values, statements)
            }
            Statement::If { expression, success, else_if, failure } => {
                self.execute_if(expression, success, else_if, failure);
            }
            Statement::Function { name, args, statements } => self.define(name, args, statements),
            _ => {}
        }
    }

    fn on_command(&mut self, statements: Vec<Statement>) {
        let mut iterator = VecDeque::from(statements);
        if self.level != 0 {
            let mut current = std::mem::replace(&mut self.current_statement, Statement::Default);
            match &mut current {
                Statement::While { statements, .. }
                | Statement::For { statements, .. }
                | Statement::Function { statements, .. } => {
                    collect_loops(&mut iterator, statements, &mut self.level);
                }
                Statement::If { success, else_if, failure, .. } => {
                    match collect_if(
                        &mut iterator,
                        success,
                        else_if,
                        failure,
                        &mut self.level,
                        self.current_if_mode,
                    ) {
                        Ok(mode) => self.current_if_mode = mode,
                        Err(error) => {
                            self.world.report(error);
                            self.reset();
                            return;
                        }
                    }
                }
                _ => {
                    self.current_statement = current;
                    return;
                }
            }
            if self.level != 0 {
                self.current_statement = current;
                return;
            }
            self.begin(current);
        }
        while let Some(statement) = iterator.pop_front() {
            if let Err(error) = self.execute_toplevel(&mut iterator, statement) {
                self.world.report(error);
                self.reset();
                return;
            }
        }
    }

    fn execute_toplevel(
        &mut self,
        iterator: &mut VecDeque<Statement>,
        statement: Statement,
    ) -> Result<(), FlowError> {
        match statement {
            Statement::While { .. } | Statement::For { .. } | Statement::Function { .. } => {
                let mut opener = statement;
                self.level += 1;
                match &mut opener {
                    Statement::While { statements, .. }
                    | Statement::For { statements, .. }
                    | Statement::Function { statements, .. } => {
                        collect_loops(iterator, statements, &mut self.level)
                    }
                    _ => unreachable!(),
                }
                if self.level == 0 {
                    self.begin(opener);
                } else {
                    self.current_statement = opener;
                }
            }
            Statement::If { expression, mut success, mut else_if, mut failure } => {
                self.level += 1;
                let mode = collect_if(
                    iterator,
                    &mut success,
                    &mut else_if,
                    &mut failure,
                    &mut self.level,
                    IfMode::Success,
                )?;
                if self.level == 0 {
                    self.execute_if(expression, success, else_if, failure);
                } else {
                    self.current_if_mode = mode;
                    self.current_statement = Statement::If { expression, success, else_if, failure };
                }
            }
            Statement::Pipelines(pipelines) => {
                for pipeline in pipelines {
                    self.world.run(&pipeline);
                }
            }
            Statement::ElseIf(_) | Statement::Else => self.world.report(FlowError::NotAnIf),
            Statement::End => self.world.report(FlowError::NoBlockToEnd),
            Statement::Default => self.world.report(FlowError::EmptyStatement),
            _ => {}
        }
        Ok(())
    }

    fn execute_statements(&mut self, statements: Vec<Statement>) -> bool {
        let mut iterator = VecDeque::from(statements);
        while let Some(statement) = iterator.pop_front() {
            match statement {
                Statement::While { expression, mut statements } => {
                    let mut level = 1;
                    collect_loops(&mut iterator, &mut statements, &mut level);
                    self.execute_while(expression, statements);
                }
                Statement::For { variable, values, mut statements } => {
                    let mut level = 1;
                    collect_loops(&mut iterator, &mut statements, &mut level);
                    self.execute_for(&variable, &values, statements);
                }
                Statement::If { expression, mut success, mut else_if, mut failure } => {
                    let mut level = 1;
                    if let Err(error) = collect_if(
                        &mut iterator,
                        &mut success,
                        &mut else_if,
                        &mut failure,
                        &mut level,
                        IfMode::Success,
                    ) {
                        self.world.report(error);
                        self.reset();
                        return true;
                    }
                    if self.execute_if(expression, success, else_if, failure) {
                        return true;
                    }
                }
                Statement::Function { name, args, mut statements } => {
                    let mut level = 1;
                    collect_loops(&mut iterator, &mut statements, &mut level);
                    self.define(name, args, statements);
                }
                Statement::Pipelines(pipelines) => {
                    for pipeline in pipelines {
                        self.world.run(&pipeline);
                    }
                }
                Statement::Break => return true,
                _ => {}
            }
        }
        false
    }

    fn execute_while(&mut self, expression: Pipeline, statements: Vec<Statement>) {
        while self.world.run(&expression) == Some(SUCCESS) {
            if self.execute_statements(statements.clone()) {
                break;
            }
        }
    }

    fn execute_for(&mut self, variable: &str, values: &str, statements: Vec<Statement>) {
        let expanded = self.world.expand(values);
        let mut values = ForValues::new(ForExpression::new(&expanded));
        while let Some(value) = values.next() {
            if value != "_" {
                self.world.bind(variable, &value);
            }
            if self.execute_statements(statements.clone()) {
                break;
            }
        }
    }

    fn execute_if(
        &mut self,
        expression: Pipeline,
        success: Vec<Statement>,
        else_if: Vec<ElseIf>,
        failure: Vec<Statement>,
    ) -> bool {
        if self.world.run(&expression) == Some(SUCCESS) {
            return self.execute_statements(success);
        }
        for clause in else_if {
            if self.world.run(&clause.expression) == Some(SUCCESS) {
                return self.execute_statements(clause.success);
            }
        }
        self.execute_statements(failure)
    }
}

/// Feeds a batch to the machine and does what it asks until it is idle.
fn drive(shell: &mut Shell, world: &mut World, statements: Vec<Statement>) {
    shell.on_command(VecDeque::from(statements));
    let mut reply = Reply::Nothing;
    let mut steps = 0;
    loop {
        steps += 1;
        assert!(steps < 1_000_000);
        reply = match shell.resume(reply) {
            Request::Continue => Reply::Nothing,
            Request::Idle => return,
            Request::Report(error) => {
                world.report(error);
                Reply::Nothing
            }
            Request::Run(pipeline) => Reply::Status(world.run(&pipeline)),
            Request::Expand(values) => Reply::Expanded(world.expand(&values)),
            Request::Bind(variable, value) => {
                world.bind(&variable, &value);
                Reply::Nothing
            }
        };
    }
}

fn pipeline(name: &str) -> Pipeline {
    Pipeline { jobs: vec![Job::new(vec![name.to_string()], JobKind::Last)] }
}

fn statement(numbers: &mut Numbers) -> Statement {
    let names = ["a", "b", "c", "d"];
    let name = names[numbers.next(4) as usize];
    match numbers.next(16) {
        0 | 1 => Statement::While { expression: pipeline(name), statements: Vec::new() },
        2 => Statement::For {
            variable: name.to_string(),
            values: ["1..3", "x _ y", "", "2..2", "_"][numbers.next(5) as usize].to_string(),
            statements: Vec::new(),
        },
        3 | 4 => Statement::If {
            expression: pipeline(name),
            success: Vec::new(),
            else_if: Vec::new(),
            failure: Vec::new(),
        },
        5 => Statement::ElseIf(ElseIf { expression: pipeline(name), success: Vec::new() }),
        6 => Statement::Else,
        7 | 8 | 9 => Statement::End,
        10 => Statement::Break,
        11 => Statement::Function {
            name: name.to_string(),
            args: vec![name.to_string()],
            statements: Vec::new(),
        },
        12 => Statement::Default,
        13 => Statement::Pipelines(vec![pipeline(name), pipeline("z")]),
        _ => Statement::Pipelines(vec![pipeline(name)]),
    }
}

fn batch(numbers: &mut Numbers) -> Vec<Statement> {
    let length = numbers.next(9);
    (0..length).map(|_| statement(numbers)).collect()
}

#[test]
fn machine_does_what_the_recursive_interpreter_does() {
    for seed in 0..3000u64 {
        let mut numbers = Numbers { state: seed.wrapping_mul(7919).wrapping_add(17) };
        let mut shell = Shell::new();
        let mut world = World::new(seed);
        let mut recursive = Recursive::new(seed);
        for _ in 0..4 {
            let statements = batch(&mut numbers);
            drive(&mut shell, &mut world, statements.clone());
            recursive.on_command(statements.clone());
            assert_eq!(world.log, recursive.world.log, "seed {}: {:?}", seed, statements);
            assert_eq!(shell.flow_control.level, recursive.level, "seed {}", seed);
            assert_eq!(
                shell.flow_control.current_statement, recursive.current_statement,
                "seed {}",
                seed
            );
            if shell.flow_control.level > 0 {
                assert_eq!(shell.flow_control.current_if_mode, recursive.current_if_mode);
            }
            assert!(shell.stack.is_empty());
            assert!(shell.input.is_empty());
            for (name, args, statements) in &recursive.functions {
                let function = shell.functions.get(name).expect("the function is defined");
                assert_eq!(&function.args, args);
                assert_eq!(&function.statements, statements);
            }
        }
    }
}
