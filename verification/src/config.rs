//! Declarative description of the programs to run.
//!
//! Durations are whole milliseconds. Every type has a view made of
//! sequences of characters, and the contracts of the crate speak of
//! those views.

use crate::text::{concat2, concat3, decimal, decimal_text, join, joined};
use vstd::prelude::*;

verus! {

/// Address of an HTTP health endpoint.
#[derive(Debug, PartialEq, Eq)]
pub struct Endpoint {
    pub port: u16,
    pub path: String,
    pub host: String,
}

/// Mathematical value of an [`Endpoint`].
pub ghost struct EndpointView {
    pub port: u16,
    pub path: Seq<char>,
    pub host: Seq<char>,
}

impl View for Endpoint {
    type V = EndpointView;

    open spec fn view(&self) -> EndpointView {
        EndpointView { port: self.port, path: self.path@, host: self.host@ }
    }
}

impl Clone for Endpoint {
    fn clone(&self) -> (copy: Endpoint)
        ensures
            copy@ == self@,
    {
        Endpoint { port: self.port, path: self.path.clone(), host: self.host.clone() }
    }
}

/// How a freshly spawned program shows that it can be used.
#[derive(Debug, PartialEq, Eq)]
pub enum ReadySignal {
    /// Ready as soon as it is spawned.
    Nothing,
    /// Ready when the operator says so.
    Manual,
    /// Ready after this many milliseconds.
    Timer(u64),
    /// Ready when the local TCP port accepts a connection.
    Port(u16),
    /// Ready when a line on standard output matches the pattern.
    Stdout(String),
    /// Ready when a line on standard error matches the pattern.
    Stderr(String),
    /// Ready when the program has exited successfully.
    Completed,
    /// Ready when the endpoint answers with a success status.
    Healthcheck(Endpoint),
}

/// Mathematical value of a [`ReadySignal`].
pub ghost enum ReadySignalView {
    Nothing,
    Manual,
    Timer(u64),
    Port(u16),
    Stdout(Seq<char>),
    Stderr(Seq<char>),
    Completed,
    Healthcheck(EndpointView),
}

impl View for ReadySignal {
    type V = ReadySignalView;

    open spec fn view(&self) -> ReadySignalView {
        match self {
            ReadySignal::Nothing => ReadySignalView::Nothing,
            ReadySignal::Manual => ReadySignalView::Manual,
            ReadySignal::Timer(ms) => ReadySignalView::Timer(*ms),
            ReadySignal::Port(port) => ReadySignalView::Port(*port),
            ReadySignal::Stdout(re) => ReadySignalView::Stdout(re@),
            ReadySignal::Stderr(re) => ReadySignalView::Stderr(re@),
            ReadySignal::Completed => ReadySignalView::Completed,
            ReadySignal::Healthcheck(endpoint) => ReadySignalView::Healthcheck(endpoint@),
        }
    }
}

impl Clone for ReadySignal {
    fn clone(&self) -> (copy: ReadySignal)
        ensures
            copy@ == self@,
    {
        match self {
            ReadySignal::Nothing => ReadySignal::Nothing,
            ReadySignal::Manual => ReadySignal::Manual,
            ReadySignal::Timer(ms) => ReadySignal::Timer(*ms),
            ReadySignal::Port(port) => ReadySignal::Port(*port),
            ReadySignal::Stdout(re) => ReadySignal::Stdout(re.clone()),
            ReadySignal::Stderr(re) => ReadySignal::Stderr(re.clone()),
            ReadySignal::Completed => ReadySignal::Completed,
            ReadySignal::Healthcheck(endpoint) => ReadySignal::Healthcheck(endpoint.clone()),
        }
    }
}

/// The character sequences of a list of strings.
pub open spec fn texts(list: Seq<String>) -> Seq<Seq<char>> {
    Seq::new(list.len(), |i: int| list[i]@)
}

/// The character sequences of a list of pairs of strings.
pub open spec fn text_pairs(list: Seq<(String, String)>) -> Seq<(Seq<char>, Seq<char>)> {
    Seq::new(list.len(), |i: int| (list[i].0@, list[i].1@))
}

/// Copies a list of strings.
pub fn clone_texts(list: &Vec<String>) -> (copy: Vec<String>)
    ensures
        texts(copy@) == texts(list@),
{
    let mut copy: Vec<String> = Vec::new();
    let mut i: usize = 0;
    while i < list.len()
        invariant
            i <= list.len(),
            copy.len() == i,
            forall|k: int| 0 <= k < i ==> copy[k]@ == list[k]@,
        decreases list.len() - i,
    {
        copy.push(list[i].clone());
        i += 1;
    }
    assert(texts(copy@) =~= texts(list@));
    copy
}

/// Copies a list of pairs of strings.
pub fn clone_text_pairs(list: &Vec<(String, String)>) -> (copy: Vec<(String, String)>)
    ensures
        text_pairs(copy@) == text_pairs(list@),
{
    let mut copy: Vec<(String, String)> = Vec::new();
    let mut i: usize = 0;
    while i < list.len()
        invariant
            i <= list.len(),
            copy.len() == i,
            forall|k: int| 0 <= k < i ==> copy[k].0@ == list[k].0@ && copy[k].1@ == list[k].1@,
        decreases list.len() - i,
    {
        let pair = (list[i].0.clone(), list[i].1.clone());
        copy.push(pair);
        i += 1;
    }
    assert(text_pairs(copy@) =~= text_pairs(list@));
    copy
}

/// One child process of the ensemble.
#[derive(Debug, PartialEq, Eq)]
pub struct Program {
    pub name: String,
    pub executable: String,
    pub args: Vec<String>,
    /// Variables added to the inherited environment, in the order given.
    pub env: Vec<(String, String)>,
    pub cwd: String,
    pub ready: ReadySignal,
    /// Names of the programs that must be ready before this one starts.
    pub depends: Vec<String>,
    /// Whether the whole ensemble shuts down when this program stops.
    pub critical: bool,
    /// Whether the program is skipped; it still counts as a dependency.
    pub disabled: bool,
}

/// Mathematical value of a [`Program`].
pub ghost struct ProgramView {
    pub name: Seq<char>,
    pub executable: Seq<char>,
    pub args: Seq<Seq<char>>,
    pub env: Seq<(Seq<char>, Seq<char>)>,
    pub cwd: Seq<char>,
    pub ready: ReadySignalView,
    pub depends: Seq<Seq<char>>,
    pub critical: bool,
    pub disabled: bool,
}

impl View for Program {
    type V = ProgramView;

    open spec fn view(&self) -> ProgramView {
        ProgramView {
            name: self.name@,
            executable: self.executable@,
            args: texts(self.args@),
            env: text_pairs(self.env@),
            cwd: self.cwd@,
            ready: self.ready@,
            depends: texts(self.depends@),
            critical: self.critical,
            disabled: self.disabled,
        }
    }
}

impl Clone for Program {
    fn clone(&self) -> (copy: Program)
        ensures
            copy@ == self@,
    {
        Program {
            name: self.name.clone(),
            executable: self.executable.clone(),
            args: clone_texts(&self.args),
            env: clone_text_pairs(&self.env),
            cwd: self.cwd.clone(),
            ready: self.ready.clone(),
            depends: clone_texts(&self.depends),
            critical: self.critical,
            disabled: self.disabled,
        }
    }
}

/// The values of a list of programs.
pub open spec fn program_views(list: Seq<Program>) -> Seq<ProgramView> {
    Seq::new(list.len(), |i: int| list[i]@)
}

/// Copies a list of programs.
pub fn clone_programs(list: &Vec<Program>) -> (copy: Vec<Program>)
    ensures
        program_views(copy@) == program_views(list@),
{
    let mut copy: Vec<Program> = Vec::new();
    let mut i: usize = 0;
    while i < list.len()
        invariant
            i <= list.len(),
            copy.len() == i,
            forall|k: int| 0 <= k < i ==> copy[k]@ == list[k]@,
        decreases list.len() - i,
    {
        copy.push(list[i].clone());
        i += 1;
    }
    assert(program_views(copy@) =~= program_views(list@));
    copy
}

/// The whole ensemble with its two time limits, in milliseconds.
#[derive(Debug, PartialEq, Eq)]
pub struct System {
    pub program: Vec<Program>,
    /// Grace between the request to terminate and the kill.
    pub terminate_timeout: u64,
    /// Bound on the wait for one program to become ready, if any.
    pub start_timeout: Option<u64>,
}

/// Mathematical value of a [`System`].
pub ghost struct SystemView {
    pub program: Seq<ProgramView>,
    pub terminate_timeout: u64,
    pub start_timeout: Option<u64>,
}

impl View for System {
    type V = SystemView;

    open spec fn view(&self) -> SystemView {
        SystemView {
            program: program_views(self.program@),
            terminate_timeout: self.terminate_timeout,
            start_timeout: self.start_timeout,
        }
    }
}

impl Clone for System {
    fn clone(&self) -> (copy: System)
        ensures
            copy@ == self@,
    {
        System {
            program: clone_programs(&self.program),
            terminate_timeout: self.terminate_timeout,
            start_timeout: self.start_timeout,
        }
    }
}

/// Grace given to a program between terminate and kill when none is
/// configured: one second.
pub fn default_terminate_timeout() -> (ms: u64)
    ensures
        ms == 1000,
{
    1000
}

/// No bound on the wait for readiness unless one is configured.
pub fn default_start_timeout() -> (limit: Option<u64>)
    ensures
        limit.is_none(),
{
    None
}

/// A program is ready at once unless configured otherwise.
pub fn default_ready_signal() -> (ready: ReadySignal)
    ensures
        ready@ == ReadySignalView::Nothing,
{
    ReadySignal::Nothing
}

/// A program depends on nothing unless configured otherwise.
pub fn default_depends() -> (depends: Vec<String>)
    ensures
        depends@.len() == 0,
{
    Vec::new()
}

/// Host that a health check contacts when none is configured.
pub fn localhost() -> (host: String)
    ensures
        host@ == "127.0.0.1"@,
{
    String::from_str("127.0.0.1")
}

/// Why a configuration describes no valid ensemble.
#[derive(Debug, PartialEq, Eq)]
pub enum ValidationError {
    /// The program at this position has an empty name.
    MissingName(usize),
    /// The program of this name has no executable.
    EmptyExec(String),
    /// Two programs have this name.
    DuplicateName(String),
    /// A program depends on this name, which no program has.
    UnknownDependency(String),
    /// Every program depends on another.
    NoRoot,
    /// The programs of these names depend on themselves.
    Cycle(Vec<String>),
}

/// Mathematical value of a [`ValidationError`].
pub ghost enum ValidationErrorView {
    MissingName(usize),
    EmptyExec(Seq<char>),
    DuplicateName(Seq<char>),
    UnknownDependency(Seq<char>),
    NoRoot,
    Cycle(Seq<Seq<char>>),
}

impl View for ValidationError {
    type V = ValidationErrorView;

    open spec fn view(&self) -> ValidationErrorView {
        match self {
            ValidationError::MissingName(index) => ValidationErrorView::MissingName(*index),
            ValidationError::EmptyExec(name) => ValidationErrorView::EmptyExec(name@),
            ValidationError::DuplicateName(name) => ValidationErrorView::DuplicateName(name@),
            ValidationError::UnknownDependency(name) => ValidationErrorView::UnknownDependency(
                name@,
            ),
            ValidationError::NoRoot => ValidationErrorView::NoRoot,
            ValidationError::Cycle(names) => ValidationErrorView::Cycle(texts(names@)),
        }
    }
}

/// The message of a validation error.
pub open spec fn error_text(e: ValidationErrorView) -> Seq<char> {
    match e {
        ValidationErrorView::MissingName(index) => "program "@ + decimal_text(index as nat)
            + " has no name"@,
        ValidationErrorView::EmptyExec(name) => "program "@ + name + " has no executable"@,
        ValidationErrorView::DuplicateName(name) => "duplicate program name \""@ + name + "\""@,
        ValidationErrorView::UnknownDependency(name) => "No such program: "@ + name,
        ValidationErrorView::NoRoot => "No valid entry point (with empty dependency list) found"@,
        ValidationErrorView::Cycle(names) => "system graph contains cycles: "@ + joined(
            names,
            ", "@,
        ),
    }
}

impl ValidationError {
    /// The error as it is shown to the user.
    pub fn to_text(&self) -> (text: String)
        ensures
            text@ == error_text(self@),
    {
        match self {
            ValidationError::MissingName(index) => {
                let digits = decimal(*index as u64);
                concat3("program ", digits.as_str(), " has no name")
            },
            ValidationError::EmptyExec(name) => concat3(
                "program ",
                name.as_str(),
                " has no executable",
            ),
            ValidationError::DuplicateName(name) => concat3(
                "duplicate program name \"",
                name.as_str(),
                "\"",
            ),
            ValidationError::UnknownDependency(name) => concat2("No such program: ", name.as_str()),
            ValidationError::NoRoot => String::from_str(
                "No valid entry point (with empty dependency list) found",
            ),
            ValidationError::Cycle(names) => {
                let list = join(names, ", ");
                assert(texts(names@) =~= Seq::new(names@.len(), |i: int| names@[i]@));
                concat2("system graph contains cycles: ", list.as_str())
            },
        }
    }
}

/// Whether an earlier program has the name of the program at `i`.
pub open spec fn duplicate_at(progs: Seq<ProgramView>, i: int) -> bool {
    exists|j: int| 0 <= j < i && #[trigger] progs[j].name == progs[i].name
}

/// What is wrong with the program at `i` by itself or against the
/// programs before it: no name, no executable, or a name already taken.
pub open spec fn defect_at(progs: Seq<ProgramView>, i: int) -> Option<ValidationErrorView> {
    if progs[i].name.len() == 0 {
        Some(ValidationErrorView::MissingName(i as usize))
    } else if progs[i].executable.len() == 0 {
        Some(ValidationErrorView::EmptyExec(progs[i].name))
    } else if duplicate_at(progs, i) {
        Some(ValidationErrorView::DuplicateName(progs[i].name))
    } else {
        None
    }
}

/// The defect of the first defective program among the first `n`.
pub open spec fn first_defect(progs: Seq<ProgramView>, n: int) -> Option<ValidationErrorView>
    decreases n,
{
    if n <= 0 {
        None
    } else {
        match first_defect(progs, n - 1) {
            Some(e) => Some(e),
            None => defect_at(progs, n - 1),
        }
    }
}

/// Whether the program at `i` depends on nothing.
pub open spec fn is_root(progs: Seq<ProgramView>, i: int) -> bool {
    progs[i].depends.len() == 0
}

/// Whether some program depends on nothing.
pub open spec fn has_root(progs: Seq<ProgramView>) -> bool {
    exists|i: int| 0 <= i < progs.len() && is_root(progs, i)
}

/// What is wrong with a list of programs, if anything: the defect of
/// its first defective program, else the lack of a root.
pub open spec fn system_defect(progs: Seq<ProgramView>) -> Option<ValidationErrorView> {
    match first_defect(progs, progs.len() as int) {
        Some(e) => Some(e),
        None => if has_root(progs) {
            None
        } else {
            Some(ValidationErrorView::NoRoot)
        },
    }
}

/// Whether no two programs of a list have one name.
pub open spec fn unique_names(progs: Seq<ProgramView>) -> bool {
    forall|i: int, j: int|
        0 <= i < j < progs.len() ==> (#[trigger] progs[i]).name != (#[trigger] progs[j]).name
}

/// A list of programs without a defect has unique, non-empty names,
/// an executable for each program, and a root.
pub proof fn lemma_sound_system(progs: Seq<ProgramView>)
    requires
        system_defect(progs).is_none(),
    ensures
        unique_names(progs),
        has_root(progs),
        forall|i: int|
            0 <= i < progs.len() ==> (#[trigger] progs[i]).name.len() > 0
                && progs[i].executable.len() > 0,
{
    lemma_no_defect(progs, progs.len() as int);
    assert forall|i: int, j: int| 0 <= i < j < progs.len() implies (#[trigger] progs[i]).name != (
    #[trigger] progs[j]).name by {
        assert(defect_at(progs, j).is_none());
        assert(!duplicate_at(progs, j));
    }
    assert forall|i: int| 0 <= i < progs.len() implies (#[trigger] progs[i]).name.len() > 0
        && progs[i].executable.len() > 0 by {
        assert(defect_at(progs, i).is_none());
    }
}

/// Without a first defect among the first `n` programs, none of them
/// has a defect.
pub proof fn lemma_no_defect(progs: Seq<ProgramView>, n: int)
    requires
        first_defect(progs, n).is_none(),
    ensures
        forall|i: int| 0 <= i < n ==> (#[trigger] defect_at(progs, i)).is_none(),
    decreases n,
{
    if n > 0 {
        lemma_no_defect(progs, n - 1);
    }
}

fn name_taken(progs: &Vec<Program>, i: usize) -> (taken: bool)
    requires
        i < progs.len(),
    ensures
        taken == duplicate_at(program_views(progs@), i as int),
{
    let ghost views = program_views(progs@);
    let mut j: usize = 0;
    while j < i
        invariant
            j <= i < progs.len(),
            views == program_views(progs@),
            forall|k: int| 0 <= k < j ==> (#[trigger] views[k]).name != views[i as int].name,
        decreases i - j,
    {
        if progs[j].name == progs[i].name {
            assert(views[j as int].name == views[i as int].name);
            return true;
        }
        j += 1;
    }
    false
}

impl System {
    /// Checks the programs one by one, in the order given: each needs a
    /// name, an executable, and a name that no earlier program has. A
    /// system whose programs pass needs a program that depends on
    /// nothing. The system comes back unchanged if nothing is wrong.
    pub fn validate(sys: System) -> (checked: Result<System, ValidationError>)
        ensures
            match checked {
                Ok(same) => same == sys && system_defect(sys@.program).is_none(),
                Err(e) => system_defect(sys@.program) == Some(e@),
            },
    {
        let ghost views = program_views(sys.program@);
        let mut found_starting_point = false;
        let mut i: usize = 0;
        while i < sys.program.len()
            invariant
                i <= sys.program.len(),
                views == program_views(sys.program@),
                first_defect(views, i as int).is_none(),
                found_starting_point == exists|k: int| 0 <= k < i && is_root(views, k),
            decreases sys.program.len() - i,
        {
            let prog = &sys.program[i];
            assert(views[i as int] == prog@);
            proof {
                lemma_first_defect_extends(views, i as int, views.len() as int);
            }
            if prog.name.as_str().is_empty() {
                return Err(ValidationError::MissingName(i));
            }
            if prog.executable.as_str().is_empty() {
                return Err(ValidationError::EmptyExec(prog.name.clone()));
            }
            if name_taken(&sys.program, i) {
                return Err(ValidationError::DuplicateName(prog.name.clone()));
            }
            if prog.depends.len() == 0 {
                found_starting_point = true;
                assert(is_root(views, i as int));
            }
            i += 1;
        }
        assert(found_starting_point == has_root(views));
        if !found_starting_point {
            return Err(ValidationError::NoRoot);
        }
        Ok(sys)
    }
}

/// A defect found among the first programs is the first defect of any
/// longer stretch.
pub proof fn lemma_first_defect_extends(progs: Seq<ProgramView>, i: int, n: int)
    requires
        0 <= i < n,
        first_defect(progs, i).is_none(),
    ensures
        first_defect(progs, n) == match defect_at(progs, i) {
            Some(e) => Some(e),
            None => first_defect(progs, n),
        },
        defect_at(progs, i).is_some() ==> first_defect(progs, n) == defect_at(progs, i),
    decreases n - i,
{
    if defect_at(progs, i).is_some() {
        assert(first_defect(progs, i + 1) == defect_at(progs, i));
        lemma_defect_sticks(progs, i + 1, n);
    }
}

/// A first defect stays the first defect when more programs follow.
pub proof fn lemma_defect_sticks(progs: Seq<ProgramView>, m: int, n: int)
    requires
        0 <= m <= n,
        first_defect(progs, m).is_some(),
    ensures
        first_defect(progs, n) == first_defect(progs, m),
    decreases n - m,
{
    if m < n {
        lemma_defect_sticks(progs, m, n - 1);
    }
}

} // verus!
