use decompose::config::{
    default_depends, default_ready_signal, default_start_timeout, default_terminate_timeout,
    localhost, Endpoint, Program, ReadySignal, System, ValidationError,
};

fn program(name: &str, executable: &str, depends: &[&str]) -> Program {
    Program {
        name: name.to_string(),
        executable: executable.to_string(),
        args: Vec::new(),
        env: Vec::new(),
        cwd: ".".to_string(),
        ready: default_ready_signal(),
        depends: depends.iter().map(|d| d.to_string()).collect(),
        critical: false,
        disabled: false,
    }
}

fn system(program: Vec<Program>) -> System {
    System {
        program,
        terminate_timeout: default_terminate_timeout(),
        start_timeout: default_start_timeout(),
    }
}

#[test]
fn test_optional_values_give_defaults() {
    let sys = system(vec![program("prog", "abc", &[])]);
    let sys = System::validate(sys).unwrap();

    assert_eq!(1000, sys.terminate_timeout);
    assert_eq!(None, sys.start_timeout);

    let prog = &sys.program[0];
    assert_eq!(0, prog.env.len());
    assert_eq!(ReadySignal::Nothing, prog.ready);
    assert!(default_depends().is_empty());
    assert_eq!("127.0.0.1", localhost());
}

#[test]
fn test_fail_if_mandatory_are_absent() {
    let res = System::validate(system(vec![program("", "abc", &[])]));
    res.unwrap_err();

    let res = System::validate(system(vec![program("prog", "", &[])]));
    res.unwrap_err();
}

#[test]
fn test_fail_unless_exec_is_given() {
    let res = System::validate(system(vec![program("prog", "", &[])]));
    res.unwrap_err();
}

#[test]
fn test_fail_unless_there_is_a_starting_point() {
    let res = System::validate(system(vec![program("prog", "foo", &["prog"])]));
    res.unwrap_err();
}

#[test]
fn test_fail_on_duplicate_names() {
    let res = System::validate(system(vec![
        program("prog", "foo", &[]),
        program("prog", "foo", &[]),
    ]));
    res.unwrap_err();
}

#[test]
fn test_depends() {
    let sys = system(vec![
        program("default", "foo", &[]),
        program("port", "foo", &["default"]),
    ]);
    let res = System::validate(sys).unwrap();

    assert!(res.program[0].depends.is_empty());
    assert_eq!(vec!["default"], res.program[1].depends);
}

#[test]
fn validate_hands_the_system_back_unchanged() {
    let sys = system(vec![
        program("a", "x", &[]),
        program("b", "y", &["a"]),
    ]);
    let copy = sys.clone();
    assert_eq!(Ok(copy), System::validate(sys));
}

#[test]
fn validate_names_the_missing_name_by_position() {
    let res = System::validate(system(vec![
        program("a", "x", &[]),
        program("", "y", &[]),
    ]));
    assert_eq!(Err(ValidationError::MissingName(1)), res);
    assert_eq!("program 1 has no name", ValidationError::MissingName(1).to_text());
}

#[test]
fn validate_names_the_program_without_executable() {
    let res = System::validate(system(vec![program("a", "", &[])]));
    assert_eq!(Err(ValidationError::EmptyExec("a".to_string())), res);
    assert_eq!(
        "program a has no executable",
        ValidationError::EmptyExec("a".to_string()).to_text()
    );
}

#[test]
fn validate_names_the_duplicate() {
    let res = System::validate(system(vec![
        program("a", "x", &[]),
        program("b", "x", &[]),
        program("a", "x", &[]),
    ]));
    assert_eq!(Err(ValidationError::DuplicateName("a".to_string())), res);
    assert_eq!(
        "duplicate program name \"a\"",
        ValidationError::DuplicateName("a".to_string()).to_text()
    );
}

#[test]
fn validate_reports_the_first_defect_in_order() {
    let res = System::validate(system(vec![
        program("a", "x", &["a"]),
        program("a", "x", &["a"]),
        program("", "x", &["a"]),
    ]));
    assert_eq!(Err(ValidationError::DuplicateName("a".to_string())), res);
}

#[test]
fn validate_wants_a_root() {
    let res = System::validate(system(vec![
        program("a", "x", &["b"]),
        program("b", "x", &["a"]),
    ]));
    assert_eq!(Err(ValidationError::NoRoot), res);
    assert_eq!(
        "No valid entry point (with empty dependency list) found",
        ValidationError::NoRoot.to_text()
    );
}

#[test]
fn an_empty_system_has_no_root() {
    assert_eq!(Err(ValidationError::NoRoot), System::validate(system(Vec::new())));
}

#[test]
fn error_texts_of_graph_defects() {
    assert_eq!(
        "No such program: x",
        ValidationError::UnknownDependency("x".to_string()).to_text()
    );
    assert_eq!(
        "system graph contains cycles: b, c",
        ValidationError::Cycle(vec!["b".to_string(), "c".to_string()]).to_text()
    );
    assert_eq!(
        "system graph contains cycles: ",
        ValidationError::Cycle(Vec::new()).to_text()
    );
}

#[test]
fn clones_keep_every_field() {
    let mut prog = program("a", "x", &["b", "c"]);
    prog.args = vec!["1".to_string(), "2".to_string()];
    prog.env = vec![("K".to_string(), "V".to_string())];
    prog.ready = ReadySignal::Healthcheck(Endpoint {
        port: 123,
        path: "/health".to_string(),
        host: "localhost".to_string(),
    });
    prog.critical = true;
    prog.disabled = true;
    assert_eq!(prog, prog.clone());

    for ready in [
        ReadySignal::Nothing,
        ReadySignal::Manual,
        ReadySignal::Timer(500),
        ReadySignal::Port(123),
        ReadySignal::Stdout("^ready$".to_string()),
        ReadySignal::Stderr("^ready$".to_string()),
        ReadySignal::Completed,
    ] {
        assert_eq!(ready, ready.clone());
    }
}
