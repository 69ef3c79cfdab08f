use decompose::config::{Program, ReadySignal, System};
use decompose::execution::{start_timed_out, Execution, ProgramInfo, Signal, WaitStep};
use decompose::executionlist::{ExecutionList, PollStep};
use decompose::options::{default_outdir, init_logging, output_factory, LogFilter, OutputMode};
use decompose::output::{
    InheritOutputFactory, NullOutputFactory, OutputFactory, OutputFileFactory, Sink,
};
use decompose::worker::Stream;

fn program(name: &str, depends: &[&str]) -> Program {
    Program {
        name: name.to_string(),
        executable: "/bin/ls".to_string(),
        args: Vec::new(),
        env: Vec::new(),
        cwd: ".".to_string(),
        ready: ReadySignal::Nothing,
        depends: depends.iter().map(|d| d.to_string()).collect(),
        critical: false,
        disabled: false,
    }
}

fn system(program: Vec<Program>) -> System {
    System { program, terminate_timeout: 1000, start_timeout: None }
}

fn info(name: &str, pid: u32) -> ProgramInfo {
    ProgramInfo { name: name.to_string(), pid }
}

fn run(programs: Vec<Program>) -> Vec<ProgramInfo> {
    let sys = system(programs);
    let mut exelist = ExecutionList::from_system(&sys);
    let mut running: Vec<String> = Vec::new();
    let mut pid = 100;

    for _ in 0..1000 {
        match exelist.poll(&running) {
            PollStep::Idle(true) => return exelist.reap(),
            PollStep::Idle(false) => {}
            PollStep::Launch(prog) => {
                running.push(prog.name.clone());
                pid += 1;
                exelist.launched(info(prog.name.as_str(), pid));
            }
        }
    }
    panic!("never complete");
}

#[test]
fn starts_in_dependency_order() {
    let progs = run(vec![
        program("last", &["middle"]),
        program("first", &[]),
        program("middle", &["first"]),
    ]);

    assert_eq!("first", progs[0].name);
    assert_eq!("middle", progs[1].name);
    assert_eq!("last", progs[2].name);
}

#[test]
fn mutlitple_depends() {
    let progs = run(vec![
        program("last", &["one", "two"]),
        program("one", &[]),
        program("two", &[]),
    ]);

    assert_eq!("one", progs[0].name);
    assert_eq!("two", progs[1].name);
    assert_eq!("last", progs[2].name);
}

#[test]
fn a_poll_starts_one_program_at_most() {
    let sys = system(vec![program("a", &[]), program("b", &[]), program("c", &["a"])]);
    let mut list = ExecutionList::from_system(&sys);
    assert!(!list.is_complete());
    assert!(list.is_startable(&sys.program[0]));
    assert!(!list.is_startable(&sys.program[2]));

    assert_eq!(PollStep::Launch(program("a", &[])), list.poll(&Vec::new()));
    assert!(!list.launched(info("a", 1)));
    assert_eq!(PollStep::Launch(program("b", &[])), list.poll(&Vec::new()));
    assert!(!list.launched(info("b", 2)));
    assert_eq!(PollStep::Idle(false), list.poll(&Vec::new()));
    assert_eq!(PollStep::Idle(false), list.poll(&vec!["b".to_string(), "x".to_string()]));
    assert!(!list.is_startable(&sys.program[2]));
    assert_eq!(
        PollStep::Launch(program("c", &["a"])),
        list.poll(&vec!["a".to_string(), "b".to_string()])
    );
    assert!(!list.launched(info("c", 3)));
    assert_eq!(PollStep::Idle(true), list.poll(&vec!["c".to_string()]));
    assert!(list.is_complete());
    assert_eq!(vec![info("a", 1), info("b", 2), info("c", 3)], list.reap());
    assert!(list.reap().is_empty());
}

#[test]
fn a_disabled_program_leaves_the_list_unstarted() {
    let mut off = program("off", &["never"]);
    off.disabled = true;
    let sys = system(vec![off, program("a", &[])]);
    let mut list = ExecutionList::from_system(&sys);
    assert_eq!(PollStep::Idle(false), list.poll(&Vec::new()));
    assert_eq!(PollStep::Launch(program("a", &[])), list.poll(&Vec::new()));
    list.launched(info("a", 1));
    assert_eq!(PollStep::Idle(true), list.poll(&vec!["a".to_string()]));
}

#[test]
fn a_disabled_program_counts_as_ready_for_its_dependents() {
    let mut x = program("x", &[]);
    x.disabled = true;
    let sys = system(vec![x, program("y", &["x"])]);
    let mut list = ExecutionList::from_system(&sys);
    assert!(!list.is_startable(&sys.program[1]));
    assert_eq!(PollStep::Idle(false), list.poll(&Vec::new()));
    assert!(list.is_startable(&sys.program[1]));
    assert_eq!(PollStep::Launch(program("y", &["x"])), list.poll(&Vec::new()));
    assert!(!list.launched(info("y", 7)));
    assert_eq!(PollStep::Idle(true), list.poll(&vec!["y".to_string()]));
    assert_eq!(vec![info("y", 7)], list.reap());
}

#[test]
fn disabled_programs_do_not_keep_the_list_from_being_complete() {
    let mut x = program("x", &[]);
    x.disabled = true;
    let mut list = ExecutionList::from_system(&system(vec![x.clone(), program("a", &[])]));
    assert_eq!(PollStep::Idle(false), list.poll(&Vec::new()));
    assert_eq!(PollStep::Launch(program("a", &[])), list.poll(&Vec::new()));
    assert!(!list.launched(info("a", 1)));
    assert_eq!(PollStep::Idle(true), list.poll(&vec!["a".to_string()]));

    let mut alone = ExecutionList::from_system(&system(vec![x]));
    assert_eq!(PollStep::Idle(true), alone.poll(&Vec::new()));
    assert!(alone.reap().is_empty());
}

#[test]
fn a_program_that_could_not_be_spawned_stays_pending() {
    let sys = system(vec![program("a", &[]), program("b", &["a"])]);
    let mut list = ExecutionList::from_system(&sys);
    assert_eq!(PollStep::Launch(program("a", &[])), list.poll(&Vec::new()));
    assert!(!list.is_complete());
    assert_eq!(PollStep::Launch(program("a", &[])), list.poll(&Vec::new()));
    assert!(list.reap().is_empty());
    assert!(!list.launched(info("a", 3)));
    assert_eq!(PollStep::Idle(false), list.poll(&Vec::new()));
    assert_eq!(PollStep::Launch(program("b", &["a"])), list.poll(&vec!["a".to_string()]));
    assert!(!list.launched(info("b", 4)));
    assert!(!list.launched(info("stranger", 5)));
    assert_eq!(PollStep::Idle(false), list.poll(&vec!["b".to_string()]));
    assert_eq!(
        PollStep::Idle(true),
        list.poll(&vec!["stranger".to_string()])
    );
}

#[test]
fn an_empty_list_is_complete_at_once() {
    let mut list = ExecutionList::from_system(&system(Vec::new()));
    assert!(list.is_complete());
    assert_eq!(PollStep::Idle(true), list.poll(&Vec::new()));
}

#[test]
fn started_programs_are_named_with_their_process_id() {
    assert_eq!("first:101", info("first", 101).to_text());
    assert_eq!(info("first", 101), info("first", 101).clone());
}

#[test]
fn the_dead_are_forgotten_and_the_rest_is_stopped_last_first() {
    let mut exec = Execution::new(vec![info("a", 1), info("b", 2), info("c", 3)], 500);
    assert_eq!(WaitStep::Continue, exec.wait(Signal::Child));
    assert!(exec.check_alive(&vec![false, true, false]));
    assert_eq!(vec![info("a", 1), info("c", 3)], exec.programs);
    assert_eq!(500, exec.terminate_timeout);
    assert_eq!(WaitStep::StopAll, exec.wait(Signal::Interrupt));
    assert_eq!(WaitStep::StopAll, exec.wait(Signal::Terminate));
    assert_eq!(vec![info("c", 3), info("a", 1)], exec.stop());
    assert!(exec.programs.is_empty());
    assert!(exec.stop().is_empty());
    assert_eq!(WaitStep::Finished, exec.wait(Signal::Child));

    let mut exec = Execution::new(vec![info("a", 1)], 500);
    assert!(!exec.check_alive(&vec![true]));
    assert!(!exec.check_alive(&Vec::new()));
}

#[test]
fn the_start_times_out_when_the_limit_is_reached() {
    assert!(!start_timed_out(u64::MAX, None));
    assert!(!start_timed_out(99, Some(100)));
    assert!(start_timed_out(100, Some(100)));
    assert!(start_timed_out(101, Some(100)));
    assert!(start_timed_out(0, Some(0)));
}

#[test]
fn the_null_factory_drops_everything() {
    let prog = program("blah", &[]);
    let factory = NullOutputFactory();
    assert_eq!(Sink::Discard, factory.stdout(&prog));
    assert_eq!(Sink::Discard, factory.stderr(&prog));
    assert_eq!(None, Sink::Discard.render("hello!"));
}

#[test]
fn the_inherit_factory_tags_each_line() {
    let prog = program("blah", &[]);
    let factory = InheritOutputFactory();
    let out = factory.stdout(&prog);
    let err = factory.stderr(&prog);
    assert_eq!(Sink::Forward(Stream::Stdout, "blah".to_string()), out);
    assert_eq!(Sink::Forward(Stream::Stderr, "blah".to_string()), err);
    assert_eq!(Some("[blah] => hello!\n".to_string()), out.render("hello!"));
    assert_eq!(Some("[blah] => \n".to_string()), err.render(""));
    assert_eq!("[blah] => hello!\n", factory.formatter(&prog, "hello!"));
}

#[test]
fn the_file_factory_names_two_files_for_each_program() {
    let prog = program("blah", &[]);
    let factory = OutputFileFactory::new(".decompose", "2020-05-17T10:11:12", 4711);
    assert_eq!(".decompose", factory.root);
    assert_eq!("2020-05-17T10:11:12.4711", factory.dirname);
    assert_eq!("latest", OutputFileFactory::latest());
    let out = factory.stdout(&prog);
    assert_eq!(Sink::File("blah.out".to_string()), out);
    assert_eq!(Sink::File("blah.err".to_string()), factory.stderr(&prog));
    assert_eq!(Some("hello!\n".to_string()), out.render("hello!"));
}

#[test]
fn the_command_line_names_modes_and_levels() {
    assert_eq!(".decompose", default_outdir());
    assert_eq!(Some(OutputMode::Null), output_factory("null"));
    assert_eq!(Some(OutputMode::Inline), output_factory("inline"));
    assert_eq!(Some(OutputMode::Files), output_factory("files"));
    assert_eq!(None, output_factory("file"));
    assert_eq!(None, output_factory(""));
    assert_eq!(Some(LogFilter::Off), init_logging("off"));
    assert_eq!(Some(LogFilter::Error), init_logging("error"));
    assert_eq!(Some(LogFilter::Warn), init_logging("warning"));
    assert_eq!(Some(LogFilter::Info), init_logging("info"));
    assert_eq!(Some(LogFilter::Debug), init_logging("debug"));
    assert_eq!(Some(LogFilter::Trace), init_logging("trace"));
    assert_eq!(None, init_logging("warn"));
}
