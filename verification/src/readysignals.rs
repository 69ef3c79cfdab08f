//! The ready probes, as far as they decide anything.
//!
//! Waiting, connecting and reading are the caller's part. What is
//! decided here is what a probe contacts or shows, and what it makes
//! of an exit status or of the lines that a child writes. Patterns are
//! matched by the `regex` crate.

use crate::process::ExitStatus;
use crate::text::{concat2, concat3, decimal, decimal_text, trim_line_end, trimmed};
use crate::worker::{ProbeOutcome, ProbeOutcomeView};
use vstd::prelude::*;

verus! {

/// `regex::Regex`, a compiled expression. Nothing of its inside is
/// known but the pattern that it was made from.
#[verifier::external_type_specification]
#[verifier::external_body]
pub struct ExRegex(regex::Regex);

/// The pattern that a compiled expression was made from.
pub uninterp spec fn regex_source(re: regex::Regex) -> Seq<char>;

/// The message with which `regex` refuses a pattern; nothing for a
/// pattern that it compiles.
pub uninterp spec fn pattern_error(pattern: Seq<char>) -> Option<Seq<char>>;

/// Whether the expression of a pattern matches somewhere in a text.
pub uninterp spec fn regex_matches(pattern: Seq<char>, text: Seq<char>) -> bool;

/// `regex::Regex::new`: compiles a pattern, or refuses it with an error
/// whose message is handed on. The compiled expression remembers the
/// pattern that it was made from.
#[verifier::external_body]
fn regex_new(pattern: &str) -> (made: Result<regex::Regex, String>)
    ensures
        match made {
            Ok(re) => pattern_error(pattern@).is_none() && regex_source(re) == pattern@,
            Err(message) => pattern_error(pattern@) == Some(message@),
        },
{
    regex::Regex::new(pattern).map_err(|e| e.to_string())
}

/// `regex::Regex::is_match`: whether there is a match for the
/// expression anywhere in the text.
#[verifier::external_body]
fn regex_is_match(re: &regex::Regex, text: &str) -> (matched: bool)
    ensures
        matched == regex_matches(regex_source(*re), text@),
{
    re.is_match(text)
}

/// The probe of a program that is ready as soon as it is spawned.
pub fn nothing() -> (outcome: ProbeOutcome)
    ensures
        outcome@ == ProbeOutcomeView::Ready,
{
    ProbeOutcome::Ready
}

/// The prompt shown to the operator while a program waits to be
/// declared ready by hand.
pub open spec fn manual_text(name: Seq<char>) -> Seq<char> {
    "Manually waiting for "@ + name + ", press enter"@
}

/// The prompt of the manual probe of a program.
pub fn manual(name: &str) -> (prompt: String)
    ensures
        prompt@ == manual_text(name@),
{
    concat3("Manually waiting for ", name, ", press enter")
}

/// The address `host:port`.
pub open spec fn address_text(host: Seq<char>, port: u16) -> Seq<char> {
    host + ":"@ + decimal_text(port as nat)
}

/// The address that a probe connects to on a host.
pub fn host_and_port(host: &str, port: u16) -> (address: String)
    ensures
        address@ == address_text(host@, port),
{
    let digits = decimal(port as u64);
    concat3(host, ":", digits.as_str())
}

/// The address that the port probe connects to: the port on the local
/// host.
pub fn port(number: u16) -> (address: String)
    ensures
        address@ == address_text("127.0.0.1"@, number),
{
    host_and_port("127.0.0.1", number)
}

/// The address that the health check asks.
pub open spec fn healthcheck_text(host: Seq<char>, port: u16, path: Seq<char>) -> Seq<char> {
    "http://"@ + address_text(host, port) + path
}

/// The address that the health check of an endpoint asks.
pub fn healthcheck(host: &str, port: u16, path: &str) -> (url: String)
    ensures
        url@ == healthcheck_text(host@, port, path@),
{
    let address = host_and_port(host, port);
    concat3("http://", address.as_str(), path)
}

/// What the probe of a program that must run to its end makes of the
/// exit status: ready if the program succeeded, else an error with the
/// status in its message.
pub fn completed(status: &ExitStatus) -> (outcome: ProbeOutcome)
    ensures
        outcome@ == if status.success {
            ProbeOutcomeView::Ready
        } else {
            ProbeOutcomeView::Error("exited without success: "@ + status.text@)
        },
{
    if status.success {
        ProbeOutcome::Ready
    } else {
        ProbeOutcome::Error(concat2("exited without success: ", status.text.as_str()))
    }
}

/// What comes out of the bus of an output stream.
#[derive(Debug, PartialEq, Eq)]
pub enum BusMessage {
    /// A line that the child wrote.
    Line(String),
    /// The stream has ended.
    Closed,
    /// Lines were lost because the probe was too slow.
    Lagged(String),
}

/// Mathematical value of a [`BusMessage`].
pub ghost enum BusMessageView {
    Line(Seq<char>),
    Closed,
    Lagged(Seq<char>),
}

impl View for BusMessage {
    type V = BusMessageView;

    open spec fn view(&self) -> BusMessageView {
        match self {
            BusMessage::Line(line) => BusMessageView::Line(line@),
            BusMessage::Closed => BusMessageView::Closed,
            BusMessage::Lagged(message) => BusMessageView::Lagged(message@),
        }
    }
}

/// Whether a line, without the line end, matches a pattern.
pub open spec fn line_matches(pattern: Seq<char>, line: Seq<char>) -> bool {
    regex_matches(pattern, trimmed(line))
}

/// What a message means to a probe that waits for a line: a matching
/// line makes the program ready, the end of the stream leaves it not
/// ready, lost lines are an error, and any other line leaves the probe
/// waiting.
pub open spec fn spec_feed(pattern: Seq<char>, message: BusMessageView) -> Option<
    ProbeOutcomeView,
> {
    match message {
        BusMessageView::Line(line) => if line_matches(pattern, line) {
            Some(ProbeOutcomeView::Ready)
        } else {
            None
        },
        BusMessageView::Closed => Some(ProbeOutcomeView::NotReady),
        BusMessageView::Lagged(message) => Some(ProbeOutcomeView::Error(message)),
    }
}

/// The value of an optional outcome.
pub open spec fn outcome_view(outcome: Option<ProbeOutcome>) -> Option<ProbeOutcomeView> {
    match outcome {
        Some(o) => Some(o@),
        None => None,
    }
}

/// What a probe that waits for a line makes of one line, given whether
/// the line matched: ready on a match, else it goes on waiting.
pub fn verdict(matched: bool) -> (outcome: Option<ProbeOutcome>)
    ensures
        outcome_view(outcome) == if matched {
            Some(ProbeOutcomeView::Ready)
        } else {
            None
        },
{
    if matched {
        Some(ProbeOutcome::Ready)
    } else {
        None
    }
}

/// The probe that waits for a line of output that matches a pattern.
pub struct OutputProbe {
    regex: regex::Regex,
}

impl OutputProbe {
    /// The pattern that the probe waits for.
    pub closed spec fn pattern(&self) -> Seq<char> {
        regex_source(self.regex)
    }

    /// A probe for a pattern, or the message with which the pattern is
    /// refused.
    pub fn new(pattern: &str) -> (made: Result<OutputProbe, String>)
        ensures
            match made {
                Ok(probe) => pattern_error(pattern@).is_none() && probe.pattern() == pattern@,
                Err(message) => pattern_error(pattern@) == Some(message@),
            },
    {
        match regex_new(pattern) {
            Ok(regex) => Ok(OutputProbe { regex }),
            Err(message) => Err(message),
        }
    }

    /// Whether a line, without its line end, matches the pattern.
    pub fn is_match(&self, line: &str) -> (matched: bool)
        ensures
            matched == line_matches(self.pattern(), line@),
    {
        regex_is_match(&self.regex, trim_line_end(line))
    }

    /// Takes one message of the bus; `None` means that the probe goes
    /// on waiting.
    pub fn feed(&self, message: &BusMessage) -> (outcome: Option<ProbeOutcome>)
        ensures
            outcome_view(outcome) == spec_feed(self.pattern(), message@),
    {
        match message {
            BusMessage::Line(line) => verdict(self.is_match(line.as_str())),
            BusMessage::Closed => Some(ProbeOutcome::NotReady),
            BusMessage::Lagged(lost) => Some(ProbeOutcome::Error(lost.clone())),
        }
    }
}

/// Whether some line of a list matches a pattern.
pub open spec fn some_line_matches(pattern: Seq<char>, lines: Seq<Seq<char>>) -> bool {
    exists|i: int| 0 <= i < lines.len() && line_matches(pattern, #[trigger] lines[i])
}

/// What the probe makes of all that a child wrote before its stream
/// ended: an error for a pattern that is refused, ready if some line
/// matches, else not ready.
pub fn output(lines: &Vec<String>, re: &str) -> (outcome: ProbeOutcome)
    ensures
        outcome@ == match pattern_error(re@) {
            Some(message) => ProbeOutcomeView::Error(message),
            None => if some_line_matches(re@, Seq::new(lines@.len(), |i: int| lines@[i]@)) {
                ProbeOutcomeView::Ready
            } else {
                ProbeOutcomeView::NotReady
            },
        },
{
    let probe = match OutputProbe::new(re) {
        Ok(probe) => probe,
        Err(message) => {
            return ProbeOutcome::Error(message);
        },
    };
    let ghost texts = Seq::new(lines@.len(), |i: int| lines@[i]@);
    let mut i: usize = 0;
    while i < lines.len()
        invariant
            i <= lines.len(),
            probe.pattern() == re@,
            pattern_error(re@).is_none(),
            texts == Seq::new(lines@.len(), |i: int| lines@[i]@),
            forall|k: int| 0 <= k < i ==> !line_matches(re@, #[trigger] texts[k]),
        decreases lines.len() - i,
    {
        if probe.is_match(lines[i].as_str()) {
            assert(line_matches(re@, texts[i as int]));
            return ProbeOutcome::Ready;
        }
        i += 1;
    }
    ProbeOutcome::NotReady
}

} // verus!
