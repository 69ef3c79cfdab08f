use decompose::process::ExitStatus;
use decompose::readysignals::{
    completed, healthcheck, host_and_port, manual, nothing, output, port, verdict, BusMessage,
    OutputProbe,
};
use decompose::text::{
    concat2, concat3, decimal, holds_text, join, same_text, trim_line_end,
};
use decompose::worker::ProbeOutcome;

fn lines(list: &[&str]) -> Vec<String> {
    list.iter().map(|l| l.to_string()).collect()
}

#[test]
fn test_nothing() {
    let result = nothing();
    assert_eq!(ProbeOutcome::Ready, result);
}

#[test]
fn test_port() {
    assert_eq!("127.0.0.1:9092", port(9092));
    assert_eq!("127.0.0.1:0", port(0));
    assert_eq!("127.0.0.1:65535", port(u16::MAX));
    assert_eq!("example.org:80", host_and_port("example.org", 80));
}

#[test]
fn test_output_good() {
    let sent = lines(&["aap\n", "program:123 running\n", "noot\n"]);

    let result = output(&sent, "^program:[0-9]+.*$");
    assert_eq!(ProbeOutcome::Ready, result);
}

#[test]
fn test_output_bad() {
    let sent = lines(&["aap\n", "noot\n", "mies\n"]);

    let result = output(&sent, "^program:[0-9]+.*$");
    assert_eq!(ProbeOutcome::NotReady, result);
}

#[test]
fn test_completed() {
    let result = completed(&ExitStatus { success: true, text: "exit status: 0".to_string() });
    assert_eq!(ProbeOutcome::Ready, result);
}

#[test]
fn completed_failing_process() {
    let result = completed(&ExitStatus { success: false, text: "exit status: 2".to_string() });
    assert_eq!(
        ProbeOutcome::Error("exited without success: exit status: 2".to_string()),
        result
    );
}

#[test]
fn output_of_nothing_is_not_ready() {
    assert_eq!(ProbeOutcome::NotReady, output(&Vec::new(), "x"));
}

#[test]
fn output_refuses_a_bad_pattern() {
    match output(&lines(&["foo(bar"]), "foo(bar") {
        ProbeOutcome::Error(message) => assert!(!message.is_empty()),
        other => panic!("unexpected outcome {:?}", other),
    }
    assert!(OutputProbe::new("foo(bar").is_err());
    assert!(OutputProbe::new("foo(bar)").is_ok());
}

#[test]
fn a_line_is_matched_without_its_line_end() {
    let probe = OutputProbe::new("^ready [0-9]+$").unwrap();
    assert!(probe.is_match("ready 42"));
    assert!(probe.is_match("ready 42\n"));
    assert!(probe.is_match("ready 42\r\n"));
    assert!(probe.is_match("ready 42\n\r\n\n"));
    assert!(!probe.is_match("ready 42 \n"));
    assert!(!probe.is_match("ready\n42\n"));
    assert!(!probe.is_match("not ready 42"));
    assert!(!probe.is_match(""));
}

#[test]
fn the_probe_waits_until_a_line_matches_or_the_stream_ends() {
    let probe = OutputProbe::new("^ready [0-9]+$").unwrap();
    assert_eq!(None, probe.feed(&BusMessage::Line("starting".to_string())));
    assert_eq!(
        Some(ProbeOutcome::Ready),
        probe.feed(&BusMessage::Line("ready 42\n".to_string()))
    );
    assert_eq!(Some(ProbeOutcome::NotReady), probe.feed(&BusMessage::Closed));
    assert_eq!(
        Some(ProbeOutcome::Error("lagged by 3".to_string())),
        probe.feed(&BusMessage::Lagged("lagged by 3".to_string()))
    );
    assert_eq!(Some(ProbeOutcome::Ready), verdict(true));
    assert_eq!(None, verdict(false));
}

#[test]
fn prompts_and_addresses() {
    assert_eq!("Manually waiting for prog, press enter", manual("prog"));
    assert_eq!("Manually waiting for , press enter", manual(""));
    assert_eq!(
        "http://localhost:123/health",
        healthcheck("localhost", 123, "/health")
    );
    assert_eq!("http://127.0.0.1:9090", healthcheck("127.0.0.1", 9090, ""));
}

#[test]
fn numbers_are_written_in_decimal() {
    assert_eq!("0", decimal(0));
    assert_eq!("7", decimal(7));
    assert_eq!("10", decimal(10));
    assert_eq!("1234567890", decimal(1234567890));
    assert_eq!("18446744073709551615", decimal(u64::MAX));
}

#[test]
fn line_ends_are_trimmed_at_the_end_only() {
    assert_eq!("", trim_line_end(""));
    assert_eq!("", trim_line_end("\n"));
    assert_eq!("", trim_line_end("\r\n\r\n"));
    assert_eq!("abc", trim_line_end("abc"));
    assert_eq!("abc", trim_line_end("abc\r\n"));
    assert_eq!("\nabc", trim_line_end("\nabc\n"));
    assert_eq!("a\nb", trim_line_end("a\nb\r"));
    assert_eq!("h\u{e9}llo \u{1f600}", trim_line_end("h\u{e9}llo \u{1f600}\n"));
    assert_eq!("abc ", trim_line_end("abc \n"));
}

#[test]
fn texts_are_joined_and_compared() {
    assert_eq!("ab", concat2("a", "b"));
    assert_eq!("abc", concat3("a", "b", "c"));
    assert_eq!("", join(&Vec::new(), ", "));
    assert_eq!("a", join(&lines(&["a"]), ", "));
    assert_eq!("a, b, c", join(&lines(&["a", "b", "c"]), ", "));
    assert_eq!(", ", join(&lines(&["", ""]), ", "));
    assert!(same_text("x", "x"));
    assert!(!same_text("x", "y"));
    assert!(!same_text("x", "xx"));
    assert!(holds_text(&lines(&["a", "b"]), "b"));
    assert!(!holds_text(&lines(&["a", "b"]), "c"));
    assert!(!holds_text(&Vec::new(), ""));
}
