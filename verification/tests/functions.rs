use ion_shell::functions::{Function, FunctionTable};
use ion_shell::statement::Statement;

fn function(name: &str, args: &[&str], statements: Vec<Statement>) -> Function {
    Function {
        name: name.to_string(),
        args: args.iter().map(|arg| arg.to_string()).collect(),
        statements,
    }
}

#[test]
fn new_table_defines_nothing() {
    let table = FunctionTable::new();
    assert_eq!(table.get("f"), None);
    assert_eq!(table.get(""), None);
}

#[test]
fn defined_function_is_found_by_its_name() {
    let mut table = FunctionTable::new();
    table.insert(function("greet", &["who"], vec![Statement::Break]));
    assert_eq!(table.get("greet"), Some(&function("greet", &["who"], vec![Statement::Break])));
    assert_eq!(table.get("greet2"), None);
    assert_eq!(table.get("gree"), None);
}

#[test]
fn later_definition_replaces_the_earlier_one() {
    let mut table = FunctionTable::new();
    table.insert(function("f", &["a"], vec![Statement::Break]));
    table.insert(function("g", &[], Vec::new()));
    table.insert(function("f", &["b", "c"], Vec::new()));
    assert_eq!(table.get("f"), Some(&function("f", &["b", "c"], Vec::new())));
    assert_eq!(table.get("g"), Some(&function("g", &[], Vec::new())));
}

#[test]
fn redefining_does_not_disturb_other_functions() {
    let mut table = FunctionTable::new();
    for name in ["a", "b", "c", "d"] {
        table.insert(function(name, &[name], Vec::new()));
    }
    table.insert(function("b", &["new"], Vec::new()));
    table.insert(function("a", &["newer"], Vec::new()));
    assert_eq!(table.get("a"), Some(&function("a", &["newer"], Vec::new())));
    assert_eq!(table.get("b"), Some(&function("b", &["new"], Vec::new())));
    assert_eq!(table.get("c"), Some(&function("c", &["c"], Vec::new())));
    assert_eq!(table.get("d"), Some(&function("d", &["d"], Vec::new())));
}

#[test]
fn copy_of_a_function_equals_it() {
    let function = function("f", &["x"], vec![Statement::Break, Statement::End]);
    assert_eq!(function.clone(), function);
}
