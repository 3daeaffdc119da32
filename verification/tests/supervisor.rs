use ipc_orchestrator::supervisor::{
    may_complete, never_fail, should_not_complete, supervise, Arm, SupervisorError, Verdict,
};

fn failed(text: &str) -> Result<(), String> {
    Err(text.to_string())
}

#[test]
fn should_not_complete_turns_any_ending_into_an_error() {
    match should_not_complete("logs", Ok(())) {
        Err(SupervisorError::Exited { what }) => assert_eq!(what, "logs"),
        other => panic!("unexpected {:?}", other),
    }
    match should_not_complete("processes", failed("boom")) {
        Err(SupervisorError::Failed { what, cause }) => {
            assert_eq!(what, "processes");
            assert_eq!(cause, "boom");
        }
        other => panic!("unexpected {:?}", other),
    }
}

#[test]
fn may_complete_passes_success_on() {
    assert!(may_complete("processes", Ok(())).is_ok());
    match may_complete("processes", failed("exit code 1")) {
        Err(SupervisorError::Failed { what, cause }) => {
            assert_eq!(what, "processes");
            assert_eq!(cause, "exit code 1");
        }
        other => panic!("unexpected {:?}", other),
    }
}

#[test]
fn never_fail_swallows_everything() {
    assert!(never_fail("logs", Ok(())).is_ok());
    assert!(never_fail("logs", failed("broken pipe")).is_ok());
}

#[test]
fn policy_matrix_with_pipes() {
    assert!(matches!(supervise(true, Arm::Processes, Ok(())), Verdict::Exit(Ok(()))));
    match supervise(true, Arm::Processes, failed("killed")) {
        Verdict::Exit(Err(SupervisorError::Failed { what, cause })) => {
            assert_eq!(what, "processes");
            assert_eq!(cause, "killed");
        }
        other => panic!("unexpected {:?}", other),
    }
    match supervise(true, Arm::Pipes, failed("peer closed")) {
        Verdict::Exit(Err(SupervisorError::Failed { what, cause })) => {
            assert_eq!(what, "channels");
            assert_eq!(cause, "peer closed");
        }
        other => panic!("unexpected {:?}", other),
    }
    match supervise(true, Arm::Pipes, Ok(())) {
        Verdict::Exit(Err(SupervisorError::Exited { what })) => assert_eq!(what, "channels"),
        other => panic!("unexpected {:?}", other),
    }
    assert!(matches!(supervise(true, Arm::Loggers, Ok(())), Verdict::Continue));
    assert!(matches!(supervise(true, Arm::Loggers, failed("eof")), Verdict::Continue));
}

#[test]
fn policy_matrix_without_pipes() {
    match supervise(false, Arm::Loggers, Ok(())) {
        Verdict::Exit(Err(SupervisorError::Exited { what })) => assert_eq!(what, "logs"),
        other => panic!("unexpected {:?}", other),
    }
    match supervise(false, Arm::Processes, Ok(())) {
        Verdict::Exit(Err(SupervisorError::Exited { what })) => assert_eq!(what, "processes"),
        other => panic!("unexpected {:?}", other),
    }
    match supervise(false, Arm::Processes, failed("x")) {
        Verdict::Exit(Err(SupervisorError::Failed { what, cause })) => {
            assert_eq!(what, "processes");
            assert_eq!(cause, "x");
        }
        other => panic!("unexpected {:?}", other),
    }
    assert!(matches!(supervise(false, Arm::Pipes, Ok(())), Verdict::Exit(Err(_))));
}

#[test]
fn unknown_topic_ends_the_run_with_an_error() {
    let cause = "message on topic x without recipients".to_string();
    let mut exits = 0;
    for (arm, res) in [(Arm::Loggers, Ok(())), (Arm::Pipes, Err(cause))] {
        if let Verdict::Exit(r) = supervise(true, arm, res) {
            exits += 1;
            assert!(r.is_err());
            break;
        }
    }
    assert_eq!(exits, 1);
}

fn wired(with_pipe: bool) -> ipc_orchestrator::ConnectedOrchestrator {
    let mut builder = ipc_orchestrator::orchestrator();
    builder.start("gen").unwrap();
    builder.start("sink").unwrap();
    let mut c = builder.connect(&vec![true, true]).unwrap();
    if with_pipe {
        c.pipe_bridges("gen", "sink").unwrap();
    }
    c
}

fn ending(arm: Arm, res: Result<(), String>) -> ipc_orchestrator::supervisor::Ending {
    ipc_orchestrator::supervisor::Ending { arm, res }
}

#[test]
fn run_ends_with_success_when_children_exit_cleanly() {
    let endings = vec![ending(Arm::Loggers, Ok(())), ending(Arm::Processes, Ok(()))];
    assert!(matches!(wired(true).run(&endings), Some(Ok(()))));
}

#[test]
fn run_ends_with_error_when_a_pipe_fails() {
    let endings = vec![
        ending(Arm::Loggers, failed("eof")),
        ending(Arm::Pipes, failed("peer closed")),
        ending(Arm::Processes, Ok(())),
    ];
    match wired(true).run(&endings) {
        Some(Err(SupervisorError::Failed { what, cause })) => {
            assert_eq!(what, "channels");
            assert_eq!(cause, "peer closed");
        }
        other => panic!("unexpected {:?}", other),
    }
}

#[test]
fn run_keeps_going_after_loggers_end() {
    let endings = vec![ending(Arm::Loggers, Ok(()))];
    assert!(wired(true).run(&endings).is_none());
    assert!(wired(true).run(&Vec::new()).is_none());
}

#[test]
fn run_without_pipes_fails_on_any_ending() {
    let endings = vec![ending(Arm::Loggers, Ok(())), ending(Arm::Processes, Ok(()))];
    match wired(false).run(&endings) {
        Some(Err(SupervisorError::Exited { what })) => assert_eq!(what, "logs"),
        other => panic!("unexpected {:?}", other),
    }
    let endings = vec![ending(Arm::Processes, Ok(()))];
    match wired(false).run(&endings) {
        Some(Err(SupervisorError::Exited { what })) => assert_eq!(what, "processes"),
        other => panic!("unexpected {:?}", other),
    }
    assert!(wired(false).run(&Vec::new()).is_none());
}
