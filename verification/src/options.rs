//! The choices that the command line offers.

use crate::text::same_text;
use vstd::prelude::*;

verus! {

/// What is done with the output of the children.
#[derive(Debug, Clone, Copy, PartialEq, Eq, Structural)]
pub enum OutputMode {
    /// It is dropped.
    Null,
    /// It is shown in the output of the orchestrator.
    Inline,
    /// It is written to files.
    Files,
}

/// How much is logged.
#[derive(Debug, Clone, Copy, PartialEq, Eq, Structural)]
pub enum LogFilter {
    Off,
    Error,
    Warn,
    Info,
    Debug,
    Trace,
}

/// The directory for output files when none is given.
pub fn default_outdir() -> (dir: String)
    ensures
        dir@ == ".decompose"@,
{
    String::from_str(".decompose")
}

/// The output mode that an argument names.
pub open spec fn output_mode_of(arg: Seq<char>) -> Option<OutputMode> {
    if arg == "null"@ {
        Some(OutputMode::Null)
    } else if arg == "inline"@ {
        Some(OutputMode::Inline)
    } else if arg == "files"@ {
        Some(OutputMode::Files)
    } else {
        None
    }
}

/// The factory that the `--output` argument selects: `null`, `inline`
/// or `files`; nothing for any other word.
pub fn output_factory(arg: &str) -> (mode: Option<OutputMode>)
    ensures
        mode == output_mode_of(arg@),
{
    if same_text(arg, "null") {
        Some(OutputMode::Null)
    } else if same_text(arg, "inline") {
        Some(OutputMode::Inline)
    } else if same_text(arg, "files") {
        Some(OutputMode::Files)
    } else {
        None
    }
}

/// The log filter that an argument names.
pub open spec fn log_filter_of(arg: Seq<char>) -> Option<LogFilter> {
    if arg == "off"@ {
        Some(LogFilter::Off)
    } else if arg == "error"@ {
        Some(LogFilter::Error)
    } else if arg == "warning"@ {
        Some(LogFilter::Warn)
    } else if arg == "info"@ {
        Some(LogFilter::Info)
    } else if arg == "debug"@ {
        Some(LogFilter::Debug)
    } else if arg == "trace"@ {
        Some(LogFilter::Trace)
    } else {
        None
    }
}

/// The log filter that the `--log` argument selects; nothing for a
/// word that names no level.
pub fn init_logging(arg: &str) -> (filter: Option<LogFilter>)
    ensures
        filter == log_filter_of(arg@),
{
    if same_text(arg, "off") {
        Some(LogFilter::Off)
    } else if same_text(arg, "error") {
        Some(LogFilter::Error)
    } else if same_text(arg, "warning") {
        Some(LogFilter::Warn)
    } else if same_text(arg, "info") {
        Some(LogFilter::Info)
    } else if same_text(arg, "debug") {
        Some(LogFilter::Debug)
    } else if same_text(arg, "trace") {
        Some(LogFilter::Trace)
    } else {
        None
    }
}

} // verus!
