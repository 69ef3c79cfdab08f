//! Where the output of a child goes.
//!
//! A factory says, for each of the two streams of a program, which sink
//! takes its lines; a sink says what is written for a line. Opening
//! files and writing are the caller's part.

use crate::config::{Program, ProgramView};
use crate::text::{concat2, concat3, decimal, decimal_text};
use crate::worker::Stream;
use vstd::prelude::*;

verus! {

/// A consumer of the lines of one output stream.
#[derive(Debug, PartialEq, Eq)]
pub enum Sink {
    /// The lines are dropped.
    Discard,
    /// The lines go to the same stream of the orchestrator itself, each
    /// behind the tag of the program.
    Forward(Stream, String),
    /// The lines go to the file of this name in the directory of the run.
    File(String),
}

/// Mathematical value of a [`Sink`].
pub ghost enum SinkView {
    Discard,
    Forward(Stream, Seq<char>),
    File(Seq<char>),
}

impl View for Sink {
    type V = SinkView;

    open spec fn view(&self) -> SinkView {
        match self {
            Sink::Discard => SinkView::Discard,
            Sink::Forward(stream, tag) => SinkView::Forward(*stream, tag@),
            Sink::File(name) => SinkView::File(name@),
        }
    }
}

/// What a sink writes for a line: nothing, the line behind the tag of
/// the program, or the line, each ended by a line feed.
pub open spec fn rendered(sink: SinkView, line: Seq<char>) -> Option<Seq<char>> {
    match sink {
        SinkView::Discard => None,
        SinkView::Forward(_, tag) => Some("["@ + tag + "] => "@ + line + "\n"@),
        SinkView::File(_) => Some(line + "\n"@),
    }
}

/// The value of an optional text.
pub open spec fn text_view(text: Option<String>) -> Option<Seq<char>> {
    match text {
        Some(t) => Some(t@),
        None => None,
    }
}

impl Sink {
    /// What is written for a line, if anything.
    pub fn render(&self, line: &str) -> (text: Option<String>)
        ensures
            text_view(text) == rendered(self@, line@),
    {
        match self {
            Sink::Discard => None,
            Sink::Forward(_, tag) => {
                let mut text = concat3("[", tag.as_str(), "] => ");
                text.append(line);
                text.append("\n");
                Some(text)
            },
            Sink::File(_) => Some(concat2(line, "\n")),
        }
    }
}

/// The choice of sinks for the streams of a program.
pub trait OutputFactory {
    /// The sink of the standard output of a program.
    spec fn stdout_sink(&self, prog: ProgramView) -> SinkView;

    /// The sink of the standard error of a program.
    spec fn stderr_sink(&self, prog: ProgramView) -> SinkView;

    /// The sink that takes the standard output of a program.
    fn stdout(&self, prog: &Program) -> (sink: Sink)
        ensures
            sink@ == self.stdout_sink(prog@),
    ;

    /// The sink that takes the standard error of a program.
    fn stderr(&self, prog: &Program) -> (sink: Sink)
        ensures
            sink@ == self.stderr_sink(prog@),
    ;
}

/// The factory that drops all output.
#[derive(Debug, Clone, Copy, PartialEq, Eq)]
pub struct NullOutputFactory();

impl OutputFactory for NullOutputFactory {
    open spec fn stdout_sink(&self, prog: ProgramView) -> SinkView {
        SinkView::Discard
    }

    open spec fn stderr_sink(&self, prog: ProgramView) -> SinkView {
        SinkView::Discard
    }

    fn stdout(&self, prog: &Program) -> (sink: Sink) {
        Sink::Discard
    }

    fn stderr(&self, prog: &Program) -> (sink: Sink) {
        Sink::Discard
    }
}

/// The factory that shows the output of the children in the output of
/// the orchestrator.
#[derive(Debug, Clone, Copy, PartialEq, Eq)]
pub struct InheritOutputFactory();

impl InheritOutputFactory {
    /// A line of a program as it is shown: `[name] => line`, ended by a
    /// line feed.
    pub fn formatter(&self, prog: &Program, line: &str) -> (text: String)
        ensures
            text@ == "["@ + prog.name@ + "] => "@ + line@ + "\n"@,
    {
        let mut text = concat3("[", prog.name.as_str(), "] => ");
        text.append(line);
        text.append("\n");
        text
    }
}

impl OutputFactory for InheritOutputFactory {
    open spec fn stdout_sink(&self, prog: ProgramView) -> SinkView {
        SinkView::Forward(Stream::Stdout, prog.name)
    }

    open spec fn stderr_sink(&self, prog: ProgramView) -> SinkView {
        SinkView::Forward(Stream::Stderr, prog.name)
    }

    fn stdout(&self, prog: &Program) -> (sink: Sink) {
        Sink::Forward(Stream::Stdout, prog.name.clone())
    }

    fn stderr(&self, prog: &Program) -> (sink: Sink) {
        Sink::Forward(Stream::Stderr, prog.name.clone())
    }
}

/// The name of the directory of a run: the time at which it began, a
/// dot, and the process id of the orchestrator.
pub open spec fn run_dir_text(timestamp: Seq<char>, pid: u32) -> Seq<char> {
    timestamp + "."@ + decimal_text(pid as nat)
}

/// The factory that writes the output of each child to two files in the
/// directory of the run.
#[derive(Debug)]
pub struct OutputFileFactory {
    /// The directory that holds the directories of all runs.
    pub root: String,
    /// The name of the directory of this run, below the root.
    pub dirname: String,
}

impl OutputFileFactory {
    /// The factory of the run that began at the given time in the
    /// process of the given id.
    pub fn new(outdir_root: &str, timestamp: &str, pid: u32) -> (factory: OutputFileFactory)
        ensures
            factory.root@ == outdir_root@,
            factory.dirname@ == run_dir_text(timestamp@, pid),
    {
        let digits = decimal(pid as u64);
        OutputFileFactory {
            root: String::from_str(outdir_root),
            dirname: concat3(timestamp, ".", digits.as_str()),
        }
    }

    /// The name under which the directory of the latest run is linked.
    pub fn latest() -> (name: String)
        ensures
            name@ == "latest"@,
    {
        String::from_str("latest")
    }
}

impl OutputFactory for OutputFileFactory {
    open spec fn stdout_sink(&self, prog: ProgramView) -> SinkView {
        SinkView::File(prog.name + ".out"@)
    }

    open spec fn stderr_sink(&self, prog: ProgramView) -> SinkView {
        SinkView::File(prog.name + ".err"@)
    }

    fn stdout(&self, prog: &Program) -> (sink: Sink) {
        Sink::File(concat2(prog.name.as_str(), ".out"))
    }

    fn stderr(&self, prog: &Program) -> (sink: Sink) {
        Sink::File(concat2(prog.name.as_str(), ".err"))
    }
}

} // verus!
