use decompose::config::{Program, ReadySignal, System};
use decompose::executor::Executor;
use decompose::process::{
    Command, ErrorKind, Event, ExitStatus, Failure, ManagerAction, ManagerInput, ProcessInfo,
    ProcessManager, SignalKind,
};
use decompose::readysignals::{BusMessage, OutputProbe};
use decompose::stop::{ChildState, StopAction, StopInput, StopWatcher};
use decompose::worker::{
    LogLevel, ProbeOutcome, Stream, Worker, WorkerAction, WorkerInput, WorkerPhase,
};

fn program(name: &str, depends: &[&str], ready: ReadySignal) -> Program {
    Program {
        name: name.to_string(),
        executable: "/bin/sleep".to_string(),
        args: vec!["60".to_string()],
        env: Vec::new(),
        cwd: ".".to_string(),
        ready,
        depends: depends.iter().map(|d| d.to_string()).collect(),
        critical: false,
        disabled: false,
    }
}

fn status(success: bool, text: &str) -> ExitStatus {
    ExitStatus { success, text: text.to_string() }
}

fn events(actions: Vec<WorkerAction>) -> Vec<Event> {
    actions
        .into_iter()
        .filter_map(|a| match a {
            WorkerAction::Emit(e) => Some(e),
            _ => None,
        })
        .collect()
}

#[test]
fn single() {
    let sys = System {
        program: vec![program("p", &[], ReadySignal::Nothing)],
        terminate_timeout: 1000,
        start_timeout: None,
    };
    let mut exec = Executor::from_config(&sys).unwrap();
    let mut manager = ProcessManager::new(&sys);

    let mut commands = exec.init();
    assert_eq!(1, commands.len());
    let (h, p, start, grace) = match manager.step(ManagerInput::Received(commands.remove(0))) {
        ManagerAction::Launch(h, p, start, grace) => (h, p, start, grace),
        other => panic!("unexpected action {:?}", other),
    };
    let (mut worker, actions) = Worker::start(h, p, start, grace);
    assert_eq!(vec![WorkerAction::Spawn], actions);
    worker.step(WorkerInput::Spawned(10));
    let seen = events(worker.step(WorkerInput::Probed(ProbeOutcome::Ready)));
    assert_eq!(vec![Event::Started(0)], seen);
    assert_eq!((Vec::new(), false), exec.step(Some(Event::Started(0))));

    assert_eq!(ManagerAction::EmitShutdown, manager.step(ManagerInput::Signal(SignalKind::Interrupt)));
    let (commands, done) = exec.step(Some(Event::Shutdown));
    assert_eq!(vec![Command::Stop(0)], commands);
    assert!(!done);
    assert_eq!(
        ManagerAction::BroadcastStop(0),
        manager.step(ManagerInput::Received(Command::Stop(0)))
    );

    let seen = events(worker.step(WorkerInput::Exited(status(false, "signal: 15"))));
    assert_eq!(vec![Event::Stopped(0, Some(status(false, "signal: 15")))], seen);
    let (commands, done) = exec.step(Some(Event::Stopped(0, Some(status(false, "signal: 15")))));
    assert!(commands.is_empty());
    assert!(done);
    assert_eq!(Ok(()), exec.result());
}

#[test]
fn diehard() {
    let mut watcher = StopWatcher::new(0, ProcessInfo { name: "p".to_string(), pid: 31 }, 200);
    let mut log = Vec::new();
    let mut asked = Vec::new();
    for input in [
        StopInput::Stop(0),
        StopInput::Signalled(true),
        StopInput::Elapsed,
        StopInput::Observed(ChildState::StillAlive),
        StopInput::Signalled(true),
    ] {
        for action in watcher.step(input) {
            match action {
                StopAction::Log(_, line) => log.push(line),
                other => asked.push(other),
            }
        }
    }
    assert_eq!(
        vec![
            StopAction::Terminate(31),
            StopAction::Sleep(200),
            StopAction::CheckAlive(31),
            StopAction::Kill(31),
        ],
        asked
    );
    assert!(log.contains(&"p:31 killed".to_string()));
}

#[test]
fn ensemble() {
    let sys = System {
        program: vec![
            program("server", &[], ReadySignal::Port(9090)),
            program("proxy", &["server"], ReadySignal::Port(9090)),
        ],
        terminate_timeout: 1000,
        start_timeout: Some(5000),
    };
    let mut exec = Executor::from_config(&sys).unwrap();
    let commands = exec.init();
    assert_eq!(vec![Command::Start((0, sys.program[0].clone()))], commands);
    let (commands, _) = exec.step(Some(Event::Started(0)));
    assert_eq!(vec![Command::Start((1, sys.program[1].clone()))], commands);
    assert_eq!((Vec::new(), false), exec.step(Some(Event::Started(1))));

    let (commands, _) = exec.step(Some(Event::Shutdown));
    assert_eq!(vec![Command::Stop(1)], commands);
    let (commands, done) = exec.step(Some(Event::Stopped(1, None)));
    assert_eq!(vec![Command::Stop(0)], commands);
    assert!(!done);
    let (commands, done) = exec.step(Some(Event::Stopped(0, None)));
    assert!(commands.is_empty());
    assert!(done);
}

#[test]
fn ready_via_stdout_regex() {
    let ready = ReadySignal::Stdout("^ready [0-9]+$".to_string());
    let (mut worker, _) = Worker::start(0, program("p", &[], ready), Some(5000), 1000);
    let actions = worker.step(WorkerInput::Spawned(5));
    let subscribe = actions.iter().position(|a| *a == WorkerAction::Subscribe(Stream::Stdout));
    let pipe = actions.iter().position(|a| *a == WorkerAction::PipeOutput);
    assert!(subscribe.unwrap() < pipe.unwrap());
    assert!(events(actions).is_empty());

    let probe = OutputProbe::new("^ready [0-9]+$").unwrap();
    assert_eq!(None, probe.feed(&BusMessage::Line("warming up".to_string())));
    assert_eq!(WorkerPhase::Running, worker.phase);
    let outcome = probe.feed(&BusMessage::Line("ready 42\n".to_string())).unwrap();
    let actions = worker.step(WorkerInput::Probed(outcome));
    assert_eq!(WorkerAction::Log(LogLevel::Info, "p:5 ready".to_string()), actions[0]);
    assert_eq!(vec![Event::Started(0)], events(actions));
}

#[test]
fn a_stream_that_ends_without_a_match_fails_the_start() {
    let ready = ReadySignal::Stderr("^ready$".to_string());
    let (mut worker, _) = Worker::start(0, program("p", &[], ready), None, 1000);
    worker.step(WorkerInput::Spawned(5));
    let probe = OutputProbe::new("^ready$").unwrap();
    let outcome = probe.feed(&BusMessage::Closed).unwrap();
    let actions = worker.step(WorkerInput::Probed(outcome));
    assert_eq!(Some(&WorkerAction::StopChild), actions.last());
    assert_eq!(
        vec![Event::Error(Failure {
            kind: ErrorKind::Probe,
            message: "p:5 not ready".to_string()
        })],
        events(actions)
    );
}

#[test]
fn completed_dependency() {
    let sys = System {
        program: vec![
            program("a", &[], ReadySignal::Completed),
            program("b", &["a"], ReadySignal::Nothing),
        ],
        terminate_timeout: 1000,
        start_timeout: None,
    };
    let mut exec = Executor::from_config(&sys).unwrap();
    exec.init();

    let (mut worker, _) = Worker::start(0, sys.program[0].clone(), None, 1000);
    worker.step(WorkerInput::Spawned(8));
    let seen = events(worker.step(WorkerInput::Exited(status(true, "exit status: 0"))));
    assert_eq!(
        vec![Event::Started(0), Event::Stopped(0, Some(status(true, "exit status: 0")))],
        seen
    );

    let mut commands = Vec::new();
    for event in seen {
        commands.extend(exec.step(Some(event)).0);
    }
    assert_eq!(vec![Command::Start((1, sys.program[1].clone()))], commands);
    exec.step(Some(Event::Started(1)));

    let (commands, _) = exec.step(Some(Event::Shutdown));
    assert_eq!(vec![Command::Stop(1)], commands);
    let (commands, done) = exec.step(Some(Event::Stopped(1, None)));
    assert_eq!(vec![Command::Stop(0)], commands);
    assert!(done);

    let mut manager = ProcessManager::new(&sys);
    manager.step(ManagerInput::Received(Command::Start((1, sys.program[1].clone()))));
    assert_eq!(ManagerAction::Nothing, manager.step(ManagerInput::Received(Command::Stop(0))));
}

fn critical_run(task_status: ExitStatus) -> Result<(), Failure> {
    let mut task = program("task", &[], ReadySignal::Nothing);
    task.critical = true;
    let sys = System {
        program: vec![program("server", &[], ReadySignal::Nothing), task],
        terminate_timeout: 1000,
        start_timeout: None,
    };
    let mut exec = Executor::from_config(&sys).unwrap();
    exec.init();
    exec.step(Some(Event::Started(0)));
    exec.step(Some(Event::Started(1)));
    let (commands, done) = exec.step(Some(Event::Stopped(1, Some(task_status))));
    assert!(commands.contains(&Command::Stop(0)));
    assert!(!done);
    assert!(exec.is_shutting_down());
    let (_, done) = exec.step(Some(Event::Stopped(0, Some(status(false, "signal: 15")))));
    assert!(done);
    exec.result()
}

#[test]
fn critical_tears_down() {
    assert_eq!(Ok(()), critical_run(status(true, "exit status: 0")));
    assert_eq!(
        Err(Failure {
            kind: ErrorKind::ChildFailed,
            message: "task failed: exit status: 1".to_string()
        }),
        critical_run(status(false, "exit status: 1"))
    );
}
