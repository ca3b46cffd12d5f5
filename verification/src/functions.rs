//! The functions that have been defined, by name.

use vstd::prelude::*;
use vstd::string::StringExecFns;
use crate::job::clone_strings;
use crate::statement::{Statement, StatementView, clone_statements, statements_view};
use crate::text::texts;

verus! {

/// A defined function: its name, the names of its parameters, and its body.
#[derive(Debug, PartialEq, Eq)]
pub struct Function {
    pub name: String,
    pub args: Vec<String>,
    pub statements: Vec<Statement>,
}

/// What a function is, as plain values.
pub struct FunctionView {
    pub name: Seq<char>,
    pub args: Seq<Seq<char>>,
    pub statements: Seq<StatementView>,
}

impl View for Function {
    type V = FunctionView;

    open spec fn view(&self) -> FunctionView {
        FunctionView {
            name: self.name@,
            args: texts(self.args@),
            statements: statements_view(self.statements@),
        }
    }
}

impl Clone for Function {
    fn clone(&self) -> (copy: Function)
        ensures
            copy@ == self@,
    {
        Function {
            name: self.name.clone(),
            args: clone_strings(&self.args),
            statements: clone_statements(&self.statements),
        }
    }
}

/// The functions that a list of definitions leaves, by name: a later
/// definition of a name replaces an earlier one.
pub open spec fn defined(entries: Seq<Function>) -> Map<Seq<char>, FunctionView>
    decreases entries.len(),
{
    if entries.len() == 0 {
        Map::empty()
    } else {
        defined(entries.drop_last()).insert(entries.last().name@, entries.last()@)
    }
}

/// Taking a definition out and defining its name anew at the end leaves what
/// defining the name anew at the end leaves.
proof fn lemma_redefined(entries: Seq<Function>, i: int, function: Function)
    requires
        0 <= i < entries.len(),
        entries[i].name@ == function.name@,
    ensures
        defined(entries.remove(i).push(function)) == defined(entries.push(function)),
    decreases entries.len(),
{
    let name = function.name@;
    let last = entries.last();
    let front = entries.drop_last();
    let removed = entries.remove(i);
    assert(entries.push(function).drop_last() =~= entries);
    assert(removed.push(function).drop_last() =~= removed);
    assert(defined(entries.push(function)) == defined(entries).insert(name, function@));
    assert(defined(removed.push(function)) == defined(removed).insert(name, function@));
    assert(defined(entries) == defined(front).insert(last.name@, last@));
    if i == entries.len() - 1 {
        assert(removed =~= front);
        assert(defined(front).insert(name, function@) =~= defined(front).insert(
            name,
            last@,
        ).insert(name, function@));
    } else {
        assert(removed.drop_last() =~= front.remove(i));
        assert(removed.last() == last);
        let shorter = defined(front.remove(i));
        let longer = defined(front);
        assert(defined(removed) == shorter.insert(last.name@, last@));
        lemma_redefined(front, i, function);
        assert(front.push(function).drop_last() =~= front);
        assert(front.remove(i).push(function).drop_last() =~= front.remove(i));
        assert(defined(front.push(function)) == longer.insert(name, function@));
        assert(defined(front.remove(i).push(function)) == shorter.insert(name, function@));
        assert(shorter.insert(last.name@, last@).insert(name, function@) =~= shorter.insert(
            name,
            function@,
        ).insert(last.name@, last@).insert(name, function@));
        assert(longer.insert(last.name@, last@).insert(name, function@) =~= longer.insert(
            name,
            function@,
        ).insert(last.name@, last@).insert(name, function@));
    }
}

/// The table of defined functions.
#[derive(Debug, PartialEq, Eq)]
pub struct FunctionTable {
    entries: Vec<Function>,
}

impl View for FunctionTable {
    type V = Map<Seq<char>, FunctionView>;

    closed spec fn view(&self) -> Map<Seq<char>, FunctionView> {
        defined(self.entries@)
    }
}

impl FunctionTable {
    /// A table with no function in it.
    pub fn new() -> (table: FunctionTable)
        ensures
            table@ == Map::<Seq<char>, FunctionView>::empty(),
    {
        FunctionTable { entries: Vec::new() }
    }

    /// Where the latest definition of `name` stands, if there is one.
    fn position(&self, name: &String) -> (found: Option<usize>)
        ensures
            match found {
                Some(i) => {
                    &&& i < self.entries@.len()
                    &&& self.entries@[i as int].name@ == name@
                    &&& self@.contains_key(name@)
                    &&& self@[name@] == self.entries@[i as int]@
                },
                None => !self@.contains_key(name@),
            },
    {
        let mut i = self.entries.len();
        assert(self.entries@.take(i as int) =~= self.entries@);
        while i > 0
            invariant
                i <= self.entries@.len(),
                self@.contains_key(name@) == defined(self.entries@.take(i as int)).contains_key(
                    name@,
                ),
                self@.contains_key(name@) ==> self@[name@] == defined(
                    self.entries@.take(i as int),
                )[name@],
            decreases i,
        {
            i = i - 1;
            proof {
                assert(self.entries@.take(i + 1).drop_last() =~= self.entries@.take(i as int));
            }
            if self.entries[i].name == *name {
                return Some(i);
            }
        }
        assert(self.entries@.take(0) =~= Seq::<Function>::empty());
        None
    }

    /// Defines a function. A function of the same name that was defined
    /// before is replaced.
    pub fn insert(&mut self, function: Function)
        ensures
            final(self)@ == old(self)@.insert(function.name@, function@),
    {
        let ghost before = self.entries@;
        proof {
            assert(before.push(function).drop_last() =~= before);
        }
        match self.position(&function.name) {
            Some(i) => {
                proof {
                    lemma_redefined(before, i as int, function);
                }
                let _ = self.entries.remove(i);
                self.entries.push(function);
            },
            None => {
                self.entries.push(function);
            },
        }
    }

    /// The function that `name` is defined as, if it is defined.
    pub fn get(&self, name: &str) -> (found: Option<&Function>)
        ensures
            match found {
                Some(function) => self@.contains_key(name@) && function@ == self@[name@],
                None => !self@.contains_key(name@),
            },
    {
        let name = String::from_str(name);
        match self.position(&name) {
            Some(i) => Some(&self.entries[i]),
            None => None,
        }
    }
}

} // verus!
