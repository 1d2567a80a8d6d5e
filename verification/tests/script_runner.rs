use ailly::script_runner::{exit_disposition, settle_run, DrainEnd, ExitDisposition, RunEvents, ScriptError, StdinEnd};

#[test]
fn exit_codes_and_signals_map_to_dispositions() {
    assert_eq!(exit_disposition(Some(0)), ExitDisposition::Exited(0));
    assert_eq!(exit_disposition(Some(3)), ExitDisposition::Exited(3));
    assert_eq!(exit_disposition(None), ExitDisposition::Signaled);
}

#[test]
fn timeout_settles_with_empty_output() {
    let out = settle_run(RunEvents::TimedOut).unwrap();
    assert!(out.stdout.is_empty() && out.stderr.is_empty());
    assert_eq!(out.exit, ExitDisposition::TimedOut);
}

#[test]
fn finished_run_keeps_drained_bytes_and_drops_grace_cut_pipes() {
    let out = settle_run(RunEvents::Finished {
        code: Some(1),
        stdin: StdinEnd::BrokenPipe,
        stdout: DrainEnd::Read(b"verdict".to_vec()),
        stderr: DrainEnd::GraceElapsed,
    })
    .unwrap();
    assert_eq!(out.stdout, b"verdict".to_vec());
    assert!(out.stderr.is_empty());
    assert_eq!(out.exit, ExitDisposition::Exited(1));
}

#[test]
fn stdin_failure_wins_over_pipe_failures() {
    let err = settle_run(RunEvents::Finished {
        code: Some(0),
        stdin: StdinEnd::Failed(String::from("stdin closed")),
        stdout: DrainEnd::Failed(String::from("stdout broke")),
        stderr: DrainEnd::Read(Vec::new()),
    })
    .unwrap_err();
    assert_eq!(err, ScriptError::Stdin { message: String::from("stdin closed") });
}

#[test]
fn stdout_failure_is_reported_before_stderr_failure() {
    let err = settle_run(RunEvents::Finished {
        code: None,
        stdin: StdinEnd::Written,
        stdout: DrainEnd::Failed(String::from("out")),
        stderr: DrainEnd::Failed(String::from("err")),
    })
    .unwrap_err();
    assert_eq!(err, ScriptError::Pipe { message: String::from("out") });
    let wait = settle_run(RunEvents::WaitFailed(String::from("wait failed"))).unwrap_err();
    assert_eq!(wait, ScriptError::Pipe { message: String::from("wait failed") });
}

#[test]
fn output_is_kept_up_to_the_cap() {
    let cap = ailly::script_runner::SCRIPT_OUTPUT_CAP_BYTES as usize;
    let out = settle_run(RunEvents::Finished {
        code: Some(0),
        stdin: StdinEnd::Written,
        stdout: DrainEnd::Read(vec![b'x'; cap + 10]),
        stderr: DrainEnd::Read(b"short".to_vec()),
    })
    .unwrap();
    assert_eq!(out.stdout.len(), cap);
    assert_eq!(out.stderr, b"short".to_vec());
}
