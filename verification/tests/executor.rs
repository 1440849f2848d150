use envforge::executor::{CommandOutput, RunPlan, ScriptStep, ShellError, ShellExecutor};

#[test]
fn new_keeps_the_modes() {
    let e = ShellExecutor::new(true, false);
    assert!(e.dry_run);
    assert!(!e.verbose);
}

#[test]
fn dry_run_never_executes() {
    assert_eq!(ShellExecutor::new(true, true).run("rm -rf /tmp/x"), RunPlan::Skip);
    assert_eq!(
        ShellExecutor::new(false, false).run("ls -l | wc"),
        RunPlan::Execute { argv: vec!["sh".to_string(), "-c".to_string(), "ls -l | wc".to_string()] }
    );
}

#[test]
fn finish_returns_stdout_or_the_failure() {
    let e = ShellExecutor::new(false, false);
    let ok = e.finish(
        "echo hi",
        CommandOutput::Finished { success: true, code: Some(0), stdout: "hi\n".to_string(), stderr: "warn".to_string() },
    );
    assert_eq!(ok.unwrap(), "hi\n");

    let failed = e
        .finish(
            "false",
            CommandOutput::Finished { success: false, code: Some(1), stdout: String::new(), stderr: "  boom \n".to_string() },
        )
        .unwrap_err();
    assert_eq!(failed.message(), "command failed (exit code: Some(1)): false\n  stderr: boom");

    let killed = e
        .finish(
            "sleep 9",
            CommandOutput::Finished { success: false, code: None, stdout: String::new(), stderr: String::new() },
        )
        .unwrap_err();
    assert_eq!(killed.message(), "command failed (exit code: None): sleep 9\n  stderr: ");

    let missing = e
        .finish("x", CommandOutput::NotStarted { reason: "no sh".to_string() })
        .unwrap_err();
    assert_eq!(missing.message(), "failed to execute: x");
    match missing {
        ShellError::NotStarted { command, reason } => {
            assert_eq!(command, "x");
            assert_eq!(reason, "no sh");
        }
        _ => panic!("expected a start failure"),
    }
}

#[test]
fn script_runs_in_order_and_stops_at_first_failure() {
    let e = ShellExecutor::new(false, false);
    let cmds: Vec<String> = vec!["a".to_string(), "b".to_string(), "c".to_string()];
    let outcomes = [true, false, true];
    let mut done = 0;
    let mut last: Result<(), ShellError> = Ok(());
    let mut ran = Vec::new();
    let result = loop {
        match e.run_script(&cmds, done, last) {
            ScriptStep::Run(i) => {
                ran.push(i);
                last = if outcomes[i] {
                    Ok(())
                } else {
                    Err(ShellError::Failed { code: Some(2), command: cmds[i].clone(), stderr: String::new() })
                };
                done = i + 1;
            }
            ScriptStep::Stop(r) => break r,
        }
    };
    assert_eq!(ran, vec![0, 1]);
    assert_eq!(result.unwrap_err().message(), "command failed (exit code: Some(2)): b\n  stderr: ");

    assert!(matches!(e.run_script(&cmds, 3, Ok(())), ScriptStep::Stop(Ok(()))));
    assert!(matches!(e.run_script(&[], 0, Ok(())), ScriptStep::Stop(Ok(()))));
}
