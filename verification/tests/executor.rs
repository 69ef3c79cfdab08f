use decompose::config::{Program, ReadySignal, System, ValidationError};
use decompose::executor::{Executor, ExitStatus as NamedStatus, ExitStatusError};
use decompose::graph::NodeHandle;
use decompose::process::{make_err, Command, ErrorKind, Event, ExitStatus, Failure};
use std::collections::VecDeque;

fn program(name: &str, depends: &[&str]) -> Program {
    Program {
        name: name.to_string(),
        executable: "e".to_string(),
        args: Vec::new(),
        env: Vec::new(),
        cwd: ".".to_string(),
        ready: ReadySignal::Nothing,
        depends: depends.iter().map(|d| d.to_string()).collect(),
        critical: false,
        disabled: false,
    }
}

fn critical(name: &str, depends: &[&str]) -> Program {
    let mut prog = program(name, depends);
    prog.critical = true;
    prog
}

fn status(success: bool, text: &str) -> ExitStatus {
    ExitStatus { success, text: text.to_string() }
}

struct Fixture {
    queue: VecDeque<Command>,
    exec: Executor,
}

impl Fixture {
    fn new(program: Vec<Program>) -> Result<Fixture, ValidationError> {
        let cfg = System { program, terminate_timeout: 1000, start_timeout: None };
        let exec = Executor::from_config(&cfg)?;
        Ok(Fixture { queue: VecDeque::new(), exec })
    }

    fn init(&mut self) {
        let commands = self.exec.init();
        self.queue.extend(commands);
    }

    fn process(&mut self, event: Event) -> Result<bool, Failure> {
        let (go_on, commands) = self.exec.process(event)?;
        self.queue.extend(commands);
        Ok(go_on)
    }

    fn shutdown(&mut self) {
        let commands = self.exec.shutdown();
        self.queue.extend(commands);
    }

    fn step(&mut self, event: Option<Event>) -> bool {
        let (commands, done) = self.exec.step(event);
        self.queue.extend(commands);
        done
    }

    fn recv(&mut self) -> Command {
        match self.queue.pop_front() {
            None => panic!("timeout"),
            Some(cmd) => cmd,
        }
    }

    fn expect_start(&mut self, name: &str) -> NodeHandle {
        match self.recv() {
            Command::Start((h, p)) => {
                assert_eq!(name, p.name);
                h
            }
            _ => panic!("unexpected message"),
        }
    }

    fn expect_stop(&mut self, handle: NodeHandle) {
        match self.recv() {
            Command::Stop(h) => {
                assert_eq!(h, handle);
            }
            _ => panic!("unexpected message"),
        }
    }

    fn expect_nothing(&mut self) {
        if self.queue.pop_front().is_some() {
            panic!("unexpected message")
        }
    }
}

#[test]
fn start_single() {
    let mut fixture = Fixture::new(vec![program("single", &[])]).unwrap();
    fixture.init();

    fixture.expect_start("single");
    fixture.expect_nothing();
}

#[test]
fn depencencies_are_unlocked_on_started() {
    let mut fixture = Fixture::new(vec![
        program("a", &[]),
        program("b", &[]),
        program("c", &["a", "b"]),
    ])
    .unwrap();
    fixture.init();

    let a = fixture.expect_start("a");
    let b = fixture.expect_start("b");
    fixture.expect_nothing();

    fixture.process(Event::Started(a)).unwrap();
    fixture.expect_nothing();

    fixture.process(Event::Started(b)).unwrap();
    fixture.expect_start("c");
    fixture.expect_nothing();
}

#[test]
fn error_stops_process() {
    let mut fixture = Fixture::new(vec![program("single", &[])]).unwrap();
    fixture.process(Event::Error(make_err("bad"))).expect_err("expect err");
}

#[test]
fn alive_is_false_if_everything_is_stopped() {
    let mut fixture = Fixture::new(vec![program("a", &[]), program("b", &[])]).unwrap();
    assert!(!fixture.exec.is_alive());

    fixture.init();
    let a = fixture.expect_start("a");
    let b = fixture.expect_start("b");
    fixture.process(Event::Started(a)).unwrap();
    fixture.process(Event::Started(b)).unwrap();
    assert!(fixture.exec.is_alive());

    fixture.process(Event::Stopped(a, None)).unwrap();
    assert!(fixture.exec.is_alive());

    fixture.process(Event::Stopped(b, None)).unwrap();
    assert!(!fixture.exec.is_alive());
}

#[test]
fn stopping_critical_process_initiates_shutdown() {
    let mut fixture = Fixture::new(vec![
        program("a", &[]),
        program("b", &[]),
        critical("c", &[]),
    ])
    .unwrap();
    fixture.init();
    let a = fixture.expect_start("a");
    let b = fixture.expect_start("b");
    let c = fixture.expect_start("c");
    fixture.process(Event::Started(a)).unwrap();
    fixture.process(Event::Started(b)).unwrap();
    fixture.process(Event::Started(c)).unwrap();

    assert!(fixture.process(Event::Stopped(b, None)).unwrap());
    assert!(!fixture.exec.is_shutting_down());
    assert!(fixture.process(Event::Stopped(c, None)).unwrap());
    assert!(fixture.exec.is_shutting_down());

    fixture.expect_stop(a);
    fixture.expect_stop(b);
    fixture.expect_stop(c);
}

#[test]
fn send_stop_while_not_shutting_down_has_no_further_effect() {
    let mut fixture = Fixture::new(vec![program("a", &[]), program("b", &[])]).unwrap();
    fixture.init();
    let a = fixture.expect_start("a");
    fixture.expect_start("b");

    fixture.process(Event::Stopped(a, None)).unwrap();
    fixture.expect_nothing();
}

#[test]
fn send_stop_while_shutting_down_sends_stop_commands() {
    let mut fixture = Fixture::new(vec![program("a", &[]), program("b", &["a"])]).unwrap();
    fixture.init();
    let a = fixture.expect_start("a");
    fixture.process(Event::Started(a)).unwrap();
    let b = fixture.expect_start("b");

    fixture.shutdown();
    fixture.expect_stop(b);
    fixture.expect_nothing();

    fixture.process(Event::Stopped(b, None)).unwrap();
    fixture.expect_stop(a);
}

#[test]
fn shutting_down_while_no_longer_alive_has_no_effect() {
    let mut fixture = Fixture::new(vec![program("a", &[])]).unwrap();
    fixture.init();
    let a = fixture.expect_start("a");
    fixture.process(Event::Started(a)).unwrap();
    fixture.process(Event::Stopped(a, None)).unwrap();

    assert!(!fixture.exec.is_alive());

    fixture.shutdown();
    fixture.expect_nothing();
}

#[test]
fn temporarily_nothing_running_is_allowed_during_startup() {
    let mut fixture = Fixture::new(vec![program("a", &[]), program("b", &["a"])]).unwrap();
    fixture.init();

    let a = fixture.expect_start("a");
    fixture.process(Event::Started(a)).unwrap();
    fixture.process(Event::Stopped(a, None)).unwrap();

    assert!(fixture.exec.is_alive());
    fixture.expect_start("b");
}

#[test]
fn dependency_complete_before_start() {
    let mut a = program("a", &[]);
    a.ready = ReadySignal::Completed;
    let mut fixture =
        Fixture::new(vec![a, program("b", &[]), program("c", &["a", "b"])]).unwrap();
    fixture.init();

    let a = fixture.expect_start("a");
    let b = fixture.expect_start("b");
    fixture.process(Event::Started(a)).unwrap();
    fixture.process(Event::Stopped(a, None)).unwrap();
    fixture.expect_nothing();

    fixture.process(Event::Started(b)).unwrap();
    fixture.expect_start("c");
}

#[test]
fn an_unsound_system_gets_no_executor() {
    let made = Fixture::new(vec![program("a", &["b"]), program("b", &["a"])]);
    assert_eq!(Some(ValidationError::NoRoot), made.err());
}

#[test]
fn the_start_command_carries_the_program() {
    let mut wanted = program("single", &[]);
    wanted.args = vec!["60".to_string()];
    let cfg = System { program: vec![wanted.clone()], terminate_timeout: 1, start_timeout: None };
    let mut exec = Executor::from_config(&cfg).unwrap();
    assert_eq!(vec![Command::Start((0, wanted.clone()))], exec.init());
    assert_eq!(Command::Start((0, wanted)), exec.send_start(0));
    assert_eq!(Command::Stop(0), exec.send_stop(0));
    assert_eq!("single", exec.graph().node(0).name);
}

#[test]
fn start_order_holds_in_a_run() {
    let mut fixture = Fixture::new(vec![
        program("db", &[]),
        program("cache", &[]),
        program("api", &["db", "cache"]),
        program("web", &["api"]),
    ])
    .unwrap();
    fixture.init();
    let db = fixture.expect_start("db");
    let cache = fixture.expect_start("cache");
    fixture.expect_nothing();
    assert!(fixture.exec.is_pending(db));

    fixture.process(Event::Started(cache)).unwrap();
    assert!(fixture.exec.is_running(cache));
    assert!(!fixture.exec.is_pending(cache));
    fixture.expect_nothing();

    fixture.process(Event::Started(db)).unwrap();
    let api = fixture.expect_start("api");
    fixture.expect_nothing();

    fixture.process(Event::Started(api)).unwrap();
    fixture.expect_start("web");
    fixture.expect_nothing();
}

#[test]
fn stop_order_holds_in_a_shutdown() {
    let mut fixture = Fixture::new(vec![
        program("db", &[]),
        program("cache", &[]),
        program("api", &["db", "cache"]),
        program("web", &["api"]),
    ])
    .unwrap();
    fixture.init();
    for h in 0..4 {
        fixture.process(Event::Started(h)).unwrap();
    }
    fixture.queue.clear();

    fixture.process(Event::Shutdown).unwrap();
    fixture.expect_stop(3);
    fixture.expect_nothing();

    fixture.process(Event::Stopped(3, Some(status(true, "exit status: 0")))).unwrap();
    fixture.expect_stop(2);
    fixture.expect_nothing();

    fixture.process(Event::Stopped(2, None)).unwrap();
    fixture.expect_stop(0);
    fixture.expect_stop(1);
    fixture.expect_nothing();

    fixture.process(Event::Stopped(1, None)).unwrap();
    fixture.process(Event::Stopped(0, None)).unwrap();
    fixture.expect_nothing();
    assert!(!fixture.exec.is_alive());
}

#[test]
fn a_dependency_is_not_stopped_while_a_dependent_runs() {
    let mut fixture = Fixture::new(vec![
        program("a", &[]),
        program("b", &["a"]),
        program("c", &["a"]),
    ])
    .unwrap();
    fixture.init();
    for h in 0..3 {
        fixture.process(Event::Started(h)).unwrap();
    }
    fixture.queue.clear();

    fixture.process(Event::Shutdown).unwrap();
    fixture.expect_stop(1);
    fixture.expect_stop(2);
    fixture.process(Event::Stopped(1, None)).unwrap();
    fixture.expect_nothing();
    fixture.process(Event::Stopped(2, None)).unwrap();
    fixture.expect_stop(0);
}

#[test]
fn every_enabled_program_runs_once_all_are_ready() {
    let mut off = program("off", &["a"]);
    off.disabled = true;
    let mut fixture = Fixture::new(vec![
        program("a", &[]),
        off,
        program("b", &["off"]),
    ])
    .unwrap();
    fixture.init();
    let a = fixture.expect_start("a");
    fixture.process(Event::Started(a)).unwrap();
    let off = fixture.expect_start("off");
    fixture.process(Event::Started(off)).unwrap();
    fixture.process(Event::Stopped(off, None)).unwrap();
    let b = fixture.expect_start("b");
    fixture.process(Event::Started(b)).unwrap();
    fixture.expect_nothing();

    assert!(fixture.exec.is_running(a));
    assert!(fixture.exec.is_running(b));
    assert!(!fixture.exec.is_running(off));
    for h in 0..3 {
        assert!(!fixture.exec.is_pending(h));
    }
    assert!(!fixture.exec.is_shutting_down());
    assert!(fixture.exec.is_alive());
}

#[test]
fn a_disabled_critical_program_begins_no_shutdown() {
    let mut task = critical("task", &[]);
    task.disabled = true;
    let mut fixture = Fixture::new(vec![program("a", &[]), task]).unwrap();
    fixture.init();
    fixture.process(Event::Started(0)).unwrap();
    fixture.process(Event::Started(1)).unwrap();
    fixture.queue.clear();
    fixture.process(Event::Stopped(1, None)).unwrap();
    assert!(!fixture.exec.is_shutting_down());
    fixture.expect_nothing();
}

#[test]
fn a_critical_program_that_never_ran_begins_no_shutdown() {
    let mut fixture = Fixture::new(vec![program("a", &[]), critical("task", &[])]).unwrap();
    fixture.init();
    fixture.queue.clear();
    fixture.process(Event::Stopped(1, Some(status(false, "exit status: 1")))).unwrap();
    assert!(!fixture.exec.is_shutting_down());
    assert_eq!(Ok(()), fixture.exec.result());
}

#[test]
fn shutdown_twice_is_shutdown_once() {
    let mut fixture = Fixture::new(vec![program("a", &[]), program("b", &["a"])]).unwrap();
    fixture.init();
    fixture.process(Event::Started(0)).unwrap();
    fixture.process(Event::Started(1)).unwrap();
    fixture.queue.clear();

    fixture.process(Event::Shutdown).unwrap();
    let first: Vec<Command> = fixture.queue.drain(..).collect();
    assert_eq!(vec![Command::Stop(1)], first);
    assert!(fixture.exec.is_shutting_down());

    fixture.process(Event::Shutdown).unwrap();
    let second: Vec<Command> = fixture.queue.drain(..).collect();
    assert_eq!(first, second);
    assert!(fixture.exec.is_shutting_down());
    assert!(fixture.exec.is_running(0));
    assert!(fixture.exec.is_running(1));
}

#[test]
fn events_for_handles_that_are_no_nodes_change_nothing() {
    let mut fixture = Fixture::new(vec![program("a", &[])]).unwrap();
    fixture.init();
    fixture.queue.clear();
    fixture.process(Event::Started(7)).unwrap();
    assert!(!fixture.exec.is_running(7));
    fixture.process(Event::Stopped(7, None)).unwrap();
    fixture.expect_nothing();
    assert!(fixture.exec.is_pending(0));
}

#[test]
fn the_first_status_of_a_critical_program_is_kept() {
    let mut fixture =
        Fixture::new(vec![critical("one", &[]), critical("two", &[])]).unwrap();
    fixture.init();
    fixture.process(Event::Started(0)).unwrap();
    fixture.process(Event::Started(1)).unwrap();
    fixture.process(Event::Stopped(1, Some(status(false, "exit status: 3")))).unwrap();
    fixture.process(Event::Stopped(0, Some(status(false, "exit status: 4")))).unwrap();
    assert_eq!(
        Err(Failure {
            kind: ErrorKind::ChildFailed,
            message: "two failed: exit status: 3".to_string()
        }),
        fixture.exec.result()
    );
}

#[test]
fn a_critical_program_that_succeeds_ends_the_run_well() {
    let mut fixture = Fixture::new(vec![program("server", &[]), critical("task", &[])]).unwrap();
    fixture.init();
    assert!(!fixture.step(Some(Event::Started(0))));
    assert!(!fixture.step(Some(Event::Started(1))));
    fixture.queue.clear();
    assert!(!fixture.step(Some(Event::Stopped(1, Some(status(true, "exit status: 0"))))));
    fixture.expect_stop(0);
    fixture.expect_stop(1);
    fixture.expect_nothing();
    assert!(fixture.step(Some(Event::Stopped(0, Some(status(false, "signal: 15"))))));
    assert_eq!(Ok(()), fixture.exec.result());
}

#[test]
fn an_error_begins_the_shutdown_and_ends_the_run_with_it() {
    let mut fixture = Fixture::new(vec![program("a", &[]), program("b", &["a"])]).unwrap();
    fixture.init();
    fixture.step(Some(Event::Started(0)));
    fixture.step(Some(Event::Started(1)));
    fixture.queue.clear();

    let first = Failure { kind: ErrorKind::Timeout, message: "timeout".to_string() };
    assert!(!fixture.step(Some(Event::Error(first.clone()))));
    assert!(fixture.exec.is_shutting_down());
    fixture.expect_stop(1);
    fixture.expect_nothing();
    assert!(!fixture.step(Some(Event::Error(make_err("later")))));
    fixture.queue.clear();

    assert!(!fixture.step(Some(Event::Stopped(1, None))));
    fixture.expect_stop(0);
    assert!(fixture.step(Some(Event::Stopped(0, None))));
    assert_eq!(Err(first), fixture.exec.result());
}

#[test]
fn a_closed_queue_ends_the_run_with_a_last_shutdown() {
    let mut fixture = Fixture::new(vec![program("a", &[])]).unwrap();
    fixture.init();
    fixture.step(Some(Event::Started(0)));
    fixture.queue.clear();
    assert!(fixture.step(None));
    fixture.expect_stop(0);
    assert!(fixture.exec.is_shutting_down());
}

#[test]
fn named_status_turns_into_a_result() {
    let ok = NamedStatus { name: "task".to_string(), status: status(true, "exit status: 0") };
    assert_eq!(Ok(()), ok.into_result());

    let bad = NamedStatus { name: "task".to_string(), status: status(false, "exit status: 2") };
    let err = bad.into_result().unwrap_err();
    assert_eq!(
        ExitStatusError { name: "task".to_string(), status: status(false, "exit status: 2") },
        err
    );
    assert_eq!("task failed: exit status: 2", err.to_text());
}

#[test]
fn a_dependency_named_twice_starts_its_dependent_once() {
    let mut f = Fixture::new(vec![program("a", &[]), program("b", &["a", "a"])]).unwrap();
    f.init();
    assert_eq!(Some(Command::Start((0, program("a", &[])))), f.queue.pop_front());
    assert!(f.queue.is_empty());
    assert_eq!(Ok(true), f.process(Event::Started(0)));
    assert_eq!(Some(Command::Start((1, program("b", &["a", "a"])))), f.queue.pop_front());
    assert!(f.queue.is_empty());
    assert_eq!(Ok(true), f.process(Event::Started(1)));
    assert!(f.queue.is_empty());
    f.shutdown();
    assert_eq!(Some(Command::Stop(1)), f.queue.pop_front());
    assert!(f.queue.is_empty());
    assert_eq!(Ok(true), f.process(Event::Stopped(1, None)));
    assert_eq!(Some(Command::Stop(0)), f.queue.pop_front());
    assert!(f.queue.is_empty());
}

#[test]
fn every_program_gets_one_start_in_a_run() {
    let mut f = Fixture::new(vec![
        program("a", &[]),
        program("b", &[]),
        program("c", &["a", "b"]),
        program("d", &["c", "a"]),
    ])
    .unwrap();
    f.init();
    let mut started: Vec<NodeHandle> = Vec::new();
    let mut stops = 0;
    for _ in 0..20 {
        match f.queue.pop_front() {
            Some(Command::Start((h, _))) => {
                started.push(h);
                assert_eq!(Ok(true), f.process(Event::Started(h)));
            }
            Some(Command::Stop(_)) => stops += 1,
            None => break,
        }
    }
    started.sort();
    assert_eq!(vec![0, 1, 2, 3], started);
    assert_eq!(0, stops);
    assert!(f.exec.is_alive());
    assert!(!f.exec.is_shutting_down());
    for h in 0..4 {
        assert!(f.exec.is_running(h));
        assert!(!f.exec.is_pending(h));
    }
}
