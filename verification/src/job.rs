//! One external command invocation and its place in a chain of invocations.

use vstd::prelude::*;
use crate::flow_control::SUCCESS;
use crate::text::{chars_of, texts};

verus! {

/// The channel of the previous job that feeds a piped job.
#[derive(Debug, PartialEq, Eq, Clone, Copy, Structural)]
pub enum RedirectFrom {
    Stdout,
    Stderr,
    Both,
}

/// How a job relates to its neighbours in a chain.
#[derive(Debug, PartialEq, Eq, Clone, Copy, Structural)]
pub enum JobKind {
    /// Run only if the previous job succeeded.
    And,
    /// Detach; the caller does not wait.
    Background,
    /// The last job of a chain.
    Last,
    /// Run only if the previous job failed.
    Or,
    /// The previous job's output feeds this job through the given channel.
    Pipe(RedirectFrom),
}

impl JobKind {
    /// Whether a job of this kind is to run, given the exit status of the
    /// job before it: a job chained with "and" runs only after a success,
    /// one chained with "or" only after a failure, any other in any case. No
    /// status is a failure.
    pub open spec fn runs_after_spec(self, previous: Option<i32>) -> bool {
        match self {
            JobKind::And => previous == Some(SUCCESS),
            JobKind::Or => previous != Some(SUCCESS),
            _ => true,
        }
    }

    /// Whether a job of this kind is to run, given the exit status of the
    /// job before it.
    pub fn runs_after(&self, previous: Option<i32>) -> (answer: bool)
        ensures
            answer == self.runs_after_spec(previous),
    {
        let succeeded = match previous {
            Some(status) => status == SUCCESS,
            None => false,
        };
        match self {
            JobKind::And => succeeded,
            JobKind::Or => !succeeded,
            _ => true,
        }
    }

    /// Whether the caller waits for a job of this kind to end: it does
    /// unless the job runs in the background.
    pub fn is_waited_for(&self) -> (answer: bool)
        ensures
            answer == !(*self is Background),
    {
        match self {
            JobKind::Background => false,
            _ => true,
        }
    }
}

/// One external command invocation.
#[derive(Debug, PartialEq, Eq)]
pub struct Job {
    pub command: String,
    pub args: Vec<String>,
    pub kind: JobKind,
}

/// What a job is, as plain values.
pub struct JobView {
    pub command: Seq<char>,
    pub args: Seq<Seq<char>>,
    pub kind: JobKind,
}

impl View for Job {
    type V = JobView;

    open spec fn view(&self) -> JobView {
        JobView { command: self.command@, args: texts(self.args@), kind: self.kind }
    }
}

impl Job {
    /// A job is well formed while it has arguments and its command is the
    /// first of them.
    pub open spec fn wf(&self) -> bool {
        self.args@.len() > 0 && self.command@ == self.args@[0]@
    }

    /// A job whose command is the first argument.
    pub fn new(args: Vec<String>, kind: JobKind) -> (job: Job)
        requires
            args@.len() > 0,
        ensures
            job.wf(),
            job.args == args,
            job.kind == kind,
            job@ == (JobView { command: args@[0]@, args: texts(args@), kind: kind }),
    {
        let command = args[0].clone();
        Job { command: command, args: args, kind: kind }
    }
}

/// A copy of a list of strings, text for text.
pub fn clone_strings(strings: &Vec<String>) -> (copy: Vec<String>)
    ensures
        texts(copy@) == texts(strings@),
{
    let mut copy: Vec<String> = Vec::new();
    let mut i: usize = 0;
    while i < strings.len()
        invariant
            i <= strings@.len(),
            copy@.len() == i,
            forall|j: int| 0 <= j < i ==> copy@[j]@ == strings@[j]@,
        decreases strings@.len() - i,
    {
        copy.push(strings[i].clone());
        i = i + 1;
    }
    assert(texts(copy@) =~= texts(strings@));
    copy
}

impl Clone for Job {
    fn clone(&self) -> (copy: Job)
        ensures
            copy@ == self@,
    {
        let args = clone_strings(&self.args);
        Job { command: self.command.clone(), args: args, kind: self.kind }
    }
}

/// What is needed to start a process: the program and its arguments.
#[derive(Debug, PartialEq, Eq)]
pub struct Invocation {
    pub program: String,
    pub args: Vec<String>,
}

/// An invocation as plain values.
pub struct InvocationView {
    pub program: Seq<char>,
    pub args: Seq<Seq<char>>,
}

impl View for Invocation {
    type V = InvocationView;

    open spec fn view(&self) -> InvocationView {
        InvocationView { program: self.program@, args: texts(self.args@) }
    }
}

/// A list without its first item; the empty list stays empty.
pub open spec fn after_first<T>(list: Seq<T>) -> Seq<T> {
    if list.len() == 0 {
        list
    } else {
        list.subrange(1, list.len() as int)
    }
}

/// What building an invocation leaves: the invocation, and the job with its
/// arguments used up.
pub struct Built {
    pub invocation: InvocationView,
    pub job: JobView,
}

/// Builds the invocation of a job: the program is the job's command, the
/// arguments are the job's arguments after the first. The job keeps none of
/// its arguments.
pub open spec fn build_spec(job: JobView) -> Built {
    Built {
        invocation: InvocationView { program: job.command, args: after_first(job.args) },
        job: JobView { args: Seq::empty(), ..job },
    }
}

/// An invocation that is built from a job whose invocation has been built
/// before has no arguments.
pub proof fn lemma_built_twice(job: JobView)
    ensures
        build_spec(build_spec(job).job).invocation.args == Seq::<Seq<char>>::empty(),
        build_spec(build_spec(job).job).invocation.program == job.command,
{
}

/// Whether a text holds a character that makes it a file name pattern: `?`,
/// `*` or `[`.
pub open spec fn is_glob_spec(text: Seq<char>) -> bool {
    exists|i: int| 0 <= i < text.len() && (text[i] == '?' || text[i] == '*' || text[i] == '[')
}

/// Whether a text is a file name pattern.
pub fn is_glob(text: &str) -> (answer: bool)
    ensures
        answer == is_glob_spec(text@),
{
    let chars = chars_of(text);
    let mut i: usize = 0;
    while i < chars.len()
        invariant
            i <= chars@.len(),
            chars@ == text@,
            forall|k: int| 0 <= k < i ==> !(chars@[k] == '?' || chars@[k] == '*' || chars@[k] == '['),
        decreases chars@.len() - i,
    {
        if chars[i] == '?' || chars[i] == '*' || chars[i] == '[' {
            return true;
        }
        i = i + 1;
    }
    false
}

/// `glob::PatternError`, the error that `glob` gives for a pattern that it
/// does not accept. Nothing of what it holds is used.
#[verifier::external_type_specification]
#[verifier::external_body]
pub struct ExPatternError(glob::PatternError);

/// Asks `glob::glob` for the paths that match `pattern` and walks through
/// what it yields. A path that matched comes as `Some`, a path that could not
/// be read as `None`, in the order in which they were yielded; a pattern
/// that `glob` does not accept comes as its error. What is found depends on
/// the file system, so nothing is claimed of it.
#[verifier::external_body]
fn glob_paths(pattern: &str) -> (outcome: Result<Vec<Option<String>>, glob::PatternError>) {
    match glob::glob(pattern) {
        Ok(paths) => Ok(
            paths.map(|entry| entry.ok().map(|path| path.to_string_lossy().into_owned())).collect(),
        ),
        Err(error) => Err(error),
    }
}

/// The paths among what a search yielded, in order.
pub open spec fn readable(entries: Seq<Option<String>>) -> Seq<Seq<char>>
    decreases entries.len(),
{
    if entries.len() == 0 {
        Seq::empty()
    } else {
        match entries.last() {
            Some(path) => readable(entries.drop_last()).push(path@),
            None => readable(entries.drop_last()),
        }
    }
}

/// The matches that a search leaves: the paths that it yielded, or none if
/// the pattern was not accepted.
pub open spec fn matches_spec(outcome: Result<Vec<Option<String>>, glob::PatternError>) -> Seq<
    Seq<char>,
> {
    match outcome {
        Ok(entries) => readable(entries@),
        Err(_) => Seq::empty(),
    }
}

/// The matches that a search leaves.
pub fn matches_of(outcome: Result<Vec<Option<String>>, glob::PatternError>) -> (matches: Vec<
    String,
>)
    ensures
        texts(matches@) == matches_spec(outcome),
{
    let mut matches: Vec<String> = Vec::new();
    match outcome {
        Ok(entries) => {
            let mut i: usize = 0;
            assert(entries@.take(0) =~= Seq::empty());
            assert(texts(matches@) =~= Seq::empty());
            while i < entries.len()
                invariant
                    i <= entries@.len(),
                    texts(matches@) == readable(entries@.take(i as int)),
                decreases entries@.len() - i,
            {
                proof {
                    assert(entries@.take(i + 1).drop_last() =~= entries@.take(i as int));
                }
                match &entries[i] {
                    Some(path) => {
                        let ghost before = matches@;
                        matches.push(path.clone());
                        assert(texts(matches@) =~= texts(before).push(path@));
                    },
                    None => {},
                }
                i = i + 1;
            }
            assert(entries@.take(i as int) =~= entries@);
        },
        Err(_) => {
            assert(texts(matches@) =~= Seq::empty());
        },
    }
    matches
}

/// What an expanded argument becomes once its matches are known: every
/// match, each an argument of its own; the argument itself where nothing
/// matched.
pub open spec fn globbed(argument: Seq<char>, matches: Seq<Seq<char>>) -> Seq<Seq<char>> {
    if matches.len() > 0 {
        matches
    } else {
        seq![argument]
    }
}

/// Adds to `expanded` what `argument` becomes with the given matches.
pub fn push_globbed(expanded: &mut Vec<String>, argument: String, matches: Vec<String>)
    ensures
        texts(final(expanded)@) == texts(old(expanded)@) + globbed(argument@, texts(matches@)),
{
    let mut matches = matches;
    let ghost before = expanded@;
    let ghost found = matches@;
    if matches.len() > 0 {
        expanded.append(&mut matches);
        assert(texts(expanded@) =~= texts(before) + texts(found));
    } else {
        expanded.push(argument);
        assert(texts(expanded@) =~= texts(before) + seq![argument@]);
    }
}

/// The matches of a list of expanded arguments are right in number, and an
/// argument that is no pattern has none.
pub open spec fn matched(arguments: Seq<Seq<char>>, matches: Seq<Seq<Seq<char>>>) -> bool {
    &&& matches.len() == arguments.len()
    &&& forall|j: int|
        0 <= j < arguments.len() && !is_glob_spec(arguments[j]) ==> (#[trigger] matches[j]).len()
            == 0
}

/// What a list of expanded arguments becomes once the matches of each are
/// known, in order.
pub open spec fn globbed_all(arguments: Seq<Seq<char>>, matches: Seq<Seq<Seq<char>>>) -> Seq<
    Seq<char>,
>
    decreases arguments.len(),
{
    if arguments.len() == 0 || matches.len() == 0 {
        Seq::empty()
    } else {
        globbed_all(arguments.drop_last(), matches.drop_last()) + globbed(
            arguments.last(),
            matches.last(),
        )
    }
}

/// The lists of a list, joined in order.
pub open spec fn joined(lists: Seq<Seq<Seq<char>>>) -> Seq<Seq<char>>
    decreases lists.len(),
{
    if lists.len() == 0 {
        Seq::empty()
    } else {
        joined(lists.drop_last()) + lists.last()
    }
}

/// `outcome` is what `argument` may become: the expansion service turns the
/// argument into a list of texts, and each of them becomes its matches in
/// the file system, or stays itself where it is no pattern or nothing
/// matches.
pub open spec fn expands_to<F: Fn(&str) -> Vec<String>>(
    expand_string: F,
    argument: Seq<char>,
    outcome: Seq<Seq<char>>,
) -> bool {
    exists|raw: &str, expansion: Vec<String>, matches: Seq<Seq<Seq<char>>>|
        #![trigger call_ensures(expand_string, (raw,), expansion), matched(texts(expansion@), matches)]
        {
            &&& raw@ == argument
            &&& call_ensures(expand_string, (raw,), expansion)
            &&& matched(texts(expansion@), matches)
            &&& outcome == globbed_all(texts(expansion@), matches)
        }
}

impl Job {
    /// Expands the arguments of the job, all but the first, in place and in
    /// order. `expand_string` is the expansion service.
    pub fn expand<F: Fn(&str) -> Vec<String>>(&mut self, expand_string: F)
        requires
            old(self).args@.len() > 0,
            forall|raw: &str| call_requires(expand_string, (raw,)),
        ensures
            final(self).command == old(self).command,
            final(self).kind == old(self).kind,
            old(self).wf() ==> final(self).wf(),
            exists|outcomes: Seq<Seq<Seq<char>>>|
                {
                    &&& outcomes.len() == old(self).args@.len() - 1
                    &&& forall|i: int|
                        0 <= i < outcomes.len() ==> expands_to(
                            expand_string,
                            old(self).args@[i + 1]@,
                            #[trigger] outcomes[i],
                        )
                    &&& texts(final(self).args@) == seq![old(self).args@[0]@] + joined(outcomes)
                },
    {
        let mut args: Vec<String> = Vec::new();
        core::mem::swap(&mut args, &mut self.args);
        let mut expanded: Vec<String> = Vec::new();
        expanded.push(args[0].clone());
        let ghost mut outcomes: Seq<Seq<Seq<char>>> = Seq::empty();
        assert(texts(expanded@) =~= seq![args@[0]@] + joined(outcomes));
        let mut i: usize = 1;
        while i < args.len()
            invariant
                1 <= i <= args@.len(),
                args@ == old(self).args@,
                forall|raw: &str| call_requires(expand_string, (raw,)),
                outcomes.len() == i - 1,
                forall|k: int|
                    0 <= k < outcomes.len() ==> expands_to(
                        expand_string,
                        args@[k + 1]@,
                        #[trigger] outcomes[k],
                    ),
                texts(expanded@) == seq![args@[0]@] + joined(outcomes),
            decreases args@.len() - i,
        {
            let raw = args[i].as_str();
            let expansion = expand_string(raw);
            let ghost start = texts(expanded@);
            let ghost mut matches: Seq<Seq<Seq<char>>> = Seq::empty();
            let mut j: usize = 0;
            assert(texts(expansion@).take(0) =~= Seq::empty());
            assert(texts(expanded@) =~= start + globbed_all(texts(expansion@).take(0), matches));
            while j < expansion.len()
                invariant
                    j <= expansion@.len(),
                    matched(texts(expansion@).take(j as int), matches),
                    texts(expanded@) == start + globbed_all(
                        texts(expansion@).take(j as int),
                        matches,
                    ),
                decreases expansion@.len() - j,
            {
                let argument = expansion[j].clone();
                let found = if is_glob(argument.as_str()) {
                    matches_of(glob_paths(argument.as_str()))
                } else {
                    Vec::new()
                };
                let ghost before = texts(expansion@).take(j as int);
                let ghost known = matches;
                proof {
                    matches = matches.push(texts(found@));
                    assert(texts(expansion@).take(j + 1) =~= before.push(argument@));
                    assert(before.push(argument@).drop_last() =~= before);
                    assert(matches.drop_last() =~= known);
                }
                push_globbed(&mut expanded, argument, found);
                j = j + 1;
            }
            proof {
                assert(texts(expansion@).take(j as int) =~= texts(expansion@));
                let outcome = globbed_all(texts(expansion@), matches);
                assert(expands_to(expand_string, args@[i as int]@, outcome));
                let ghost known = outcomes;
                outcomes = outcomes.push(outcome);
                assert(outcomes.drop_last() =~= known);
                assert(texts(expanded@) =~= seq![args@[0]@] + joined(outcomes));
            }
            i = i + 1;
        }
        proof {
            let whole = seq![args@[0]@] + joined(outcomes);
            assert(whole[0] == args@[0]@);
            assert(texts(expanded@)[0] == expanded@[0]@);
        }
        self.args = expanded;
    }

    /// Builds the invocation of the job and uses up the job's arguments.
    pub fn build_command(&mut self) -> (command: Invocation)
        ensures
            (Built { invocation: command@, job: final(self)@ }) == build_spec(old(self)@),
    {
        let mut args: Vec<String> = Vec::new();
        core::mem::swap(&mut args, &mut self.args);
        assert(texts(self.args@) =~= Seq::empty());
        let ghost whole = args@;
        if args.len() > 0 {
            let _ = args.remove(0);
            assert(texts(args@) =~= after_first(texts(whole)));
        } else {
            assert(texts(args@) =~= after_first(texts(whole)));
        }
        Invocation { program: self.command.clone(), args }
    }
}

} // verus!
