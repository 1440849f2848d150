//! Running shell commands: whether a command is run at all, what its outcome
//! means, and the order in which a script's commands run.
use vstd::prelude::*;

use crate::text::{push_signed_decimal, signed_decimal, trim, trim_white};

verus! {

/// Runs commands through `sh -c`, or only reports them in a dry run.
#[derive(Debug, PartialEq, Eq, Structural, Clone, Copy)]
pub struct ShellExecutor {
    /// Show what would run without running it.
    pub dry_run: bool,
    /// Report each command and its output.
    pub verbose: bool,
}

/// Whether a command is to be run, and how.
#[derive(Debug, PartialEq, Eq)]
pub enum RunPlan {
    /// Start exactly one process with this command line: `sh -c <command>`.
    Execute { argv: Vec<String> },
    /// Start no process; the output is empty.
    Skip,
}

/// The command line that runs `command` through the shell: `sh -c <command>`,
/// the command passed as it is.
pub open spec fn shell_argv(command: Seq<char>) -> Seq<Seq<char>> {
    seq!["sh"@, "-c"@, command]
}

/// The command line that runs `command` through the shell: `sh -c <command>`.
pub fn shell_command(command: &str) -> (r: Vec<String>)
    ensures
        crate::text::views(r@) == shell_argv(command@),
{
    let mut r: Vec<String> = Vec::new();
    r.push("sh".to_string());
    r.push("-c".to_string());
    r.push(command.to_string());
    assert(crate::text::views(r@) =~= shell_argv(command@));
    r
}

/// How a command that was run ended.
#[derive(Debug)]
pub enum CommandOutput {
    /// The command ran to its end.
    Finished {
        /// It exited with status zero.
        success: bool,
        /// Its exit code, if it exited normally.
        code: Option<i32>,
        /// What it wrote to standard output.
        stdout: String,
        /// What it wrote to standard error.
        stderr: String,
    },
    /// The command could not be started, for the given reason.
    NotStarted { reason: String },
}

/// Why a command failed.
#[derive(Debug)]
pub enum ShellError {
    /// The command could not be started.
    NotStarted { command: String, reason: String },
    /// The command exited with a failure status.
    Failed { code: Option<i32>, command: String, stderr: String },
}

/// `Some(n)` or `None`, as `{:?}` writes an optional exit code.
pub open spec fn debug_code(code: Option<i32>) -> Seq<char> {
    match code {
        Some(c) => "Some("@ + signed_decimal(c as int) + ")"@,
        None => "None"@,
    }
}

/// The message shown for a failed command.
pub open spec fn error_message(e: ShellError) -> Seq<char> {
    match e {
        ShellError::NotStarted { command, reason } => "failed to execute: "@ + command@,
        ShellError::Failed { code, command, stderr } => "command failed (exit code: "@
            + debug_code(code) + "): "@ + command@ + "\n  stderr: "@ + stderr@,
    }
}

impl ShellError {
    /// The message shown for the failure.
    pub fn message(&self) -> (r: String)
        ensures
            r@ == error_message(*self),
    {
        match self {
            ShellError::NotStarted { command, reason: _ } => {
                let mut m = "failed to execute: ".to_string();
                m.append(command.as_str());
                m
            },
            ShellError::Failed { code, command, stderr } => {
                let mut m = "command failed (exit code: ".to_string();
                match code {
                    Some(c) => {
                        m.append("Some(");
                        push_signed_decimal(&mut m, *c as i64);
                        m.append(")");
                    },
                    None => {
                        m.append("None");
                    },
                }
                m.append("): ");
                m.append(command.as_str());
                m.append("\n  stderr: ");
                m.append(stderr.as_str());
                m
            },
        }
    }
}

/// What a command's outcome means: its standard output when it succeeded;
/// else the failure, with the trimmed standard error.
pub open spec fn run_result(command: Seq<char>, output: CommandOutput) -> Result<Seq<char>, (
    Option<i32>,
    Seq<char>,
)> {
    match output {
        CommandOutput::Finished { success, code, stdout, stderr } => if success {
            Ok(stdout@)
        } else {
            Err((code, trim_white(stderr@)))
        },
        CommandOutput::NotStarted { reason } => Err((None, reason@)),
    }
}

/// The next thing a script run does.
#[derive(Debug)]
pub enum ScriptStep {
    /// Run the command at this position.
    Run(usize),
    /// Stop, with the script's result.
    Stop(Result<(), ShellError>),
}

/// The position of the next command to run after `done` commands ran, the
/// last of them with success `last_ok`; `None` when the script stops.
pub open spec fn next_command(len: nat, done: nat, last_ok: bool) -> Option<nat> {
    if last_ok && done < len {
        Some(done)
    } else {
        None
    }
}

impl ShellExecutor {
    /// An executor with the given modes.
    pub fn new(dry_run: bool, verbose: bool) -> (r: ShellExecutor)
        ensures
            r.dry_run == dry_run,
            r.verbose == verbose,
    {
        ShellExecutor { dry_run, verbose }
    }

    /// How to run `cmd`: in a dry run no process at all; otherwise exactly
    /// one, `sh -c <cmd>`, with `cmd` passed as it is.
    pub fn run(&self, cmd: &str) -> (r: RunPlan)
        ensures
            self.dry_run ==> r == RunPlan::Skip,
            !self.dry_run ==> (r matches RunPlan::Execute { argv } && crate::text::views(argv@)
                == shell_argv(cmd@)),
    {
        if self.dry_run {
            RunPlan::Skip
        } else {
            RunPlan::Execute { argv: shell_command(cmd) }
        }
    }

    /// The result of running `cmd`, from how it ended.
    pub fn finish(&self, cmd: &str, output: CommandOutput) -> (r: Result<String, ShellError>)
        ensures
            match run_result(cmd@, output) {
                Ok(out) => r matches Ok(s) && s@ == out,
                Err((code, text)) => match output {
                    CommandOutput::NotStarted { reason } => r matches Err(
                        ShellError::NotStarted { command, reason: why },
                    ) && command@ == cmd@ && why@ == text,
                    CommandOutput::Finished { .. } => r matches Err(
                        ShellError::Failed { code: c, command, stderr },
                    ) && c == code && command@ == cmd@ && stderr@ == text,
                },
            },
    {
        match output {
            CommandOutput::Finished { success, code, stdout, stderr } => {
                if success {
                    Ok(stdout)
                } else {
                    Err(
                        ShellError::Failed {
                            code,
                            command: cmd.to_string(),
                            stderr: trim(stderr.as_str()),
                        },
                    )
                }
            },
            CommandOutput::NotStarted { reason } => Err(
                ShellError::NotStarted { command: cmd.to_string(), reason },
            ),
        }
    }

    /// The next step of running `commands` in order, after `done` of them
    /// ran and the last one ended with `last`: the script stops at the
    /// first failure, with it, and succeeds once every command succeeded.
    pub fn run_script(&self, commands: &[String], done: usize, last: Result<(), ShellError>) -> (r:
        ScriptStep)
        requires
            done <= commands@.len(),
        ensures
            match next_command(commands@.len() as nat, done as nat, last is Ok) {
                Some(i) => r == ScriptStep::Run(i as usize),
                None => match last {
                    Ok(()) => r matches ScriptStep::Stop(Ok(())),
                    Err(e) => r == ScriptStep::Stop(Err(e)),
                },
            },
    {
        match last {
            Err(e) => ScriptStep::Stop(Err(e)),
            Ok(()) => {
                if done < commands.len() {
                    ScriptStep::Run(done)
                } else {
                    ScriptStep::Stop(Ok(()))
                }
            },
        }
    }
}

/// The positions of the commands that a script run executes, from the
/// state where `done` commands ran and the last ended with `last_ok`, when
/// the command at each position `i` ends with success `ok[i]`.
pub open spec fn executed(len: nat, ok: Seq<bool>, done: nat, last_ok: bool) -> Seq<nat>
    decreases len - done,
{
    match next_command(len, done, last_ok) {
        Some(i) => seq![i] + executed(len, ok, (done + 1) as nat, ok[i as int]),
        None => Seq::empty(),
    }
}

/// Whether the script run that starts at that state ends in success.
pub open spec fn script_succeeds(len: nat, ok: Seq<bool>, done: nat, last_ok: bool) -> bool
    decreases len - done,
{
    match next_command(len, done, last_ok) {
        Some(i) => script_succeeds(len, ok, (done + 1) as nat, ok[i as int]),
        None => last_ok,
    }
}

/// Where the first failing command stands among the first `len`, or `len`.
pub open spec fn first_failure(ok: Seq<bool>, len: nat) -> nat
    decreases len,
{
    if len == 0 {
        0
    } else if first_failure(ok, (len - 1) as nat) < len - 1 {
        first_failure(ok, (len - 1) as nat)
    } else if !ok[len - 1] {
        (len - 1) as nat
    } else {
        len
    }
}

/// A script runs its commands in order, each once, up to and including the
/// first that fails, and succeeds exactly when all of them succeed.
pub proof fn lemma_script_runs_in_order(len: nat, ok: Seq<bool>)
    requires
        ok.len() == len,
    ensures
        executed(len, ok, 0, true) == Seq::new(
            if first_failure(ok, len) < len {
                first_failure(ok, len) + 1
            } else {
                len
            },
            |i: int| i as nat,
        ),
        script_succeeds(len, ok, 0, true) <==> forall|i: int| 0 <= i < len ==> ok[i],
{
    lemma_first_failure(ok, len);
    lemma_executed_from(len, ok, 0, true);
}

/// `first_failure` finds the first failure.
proof fn lemma_first_failure(ok: Seq<bool>, len: nat)
    requires
        len <= ok.len(),
    ensures
        first_failure(ok, len) <= len,
        forall|i: int| 0 <= i < first_failure(ok, len) ==> ok[i],
        first_failure(ok, len) < len ==> !ok[first_failure(ok, len) as int],
    decreases len,
{
    if len > 0 {
        lemma_first_failure(ok, (len - 1) as nat);
    }
}

/// The run from any state that follows only successes.
proof fn lemma_executed_from(len: nat, ok: Seq<bool>, done: nat, last_ok: bool)
    requires
        ok.len() == len,
        done <= len,
        last_ok,
        forall|i: int| 0 <= i < done ==> ok[i],
    ensures
        ({
            let f = first_failure(ok, len);
            let stop = if f < len {
                f + 1
            } else {
                len
            };
            &&& executed(len, ok, done, last_ok) == Seq::new(
                (stop - done) as nat,
                |i: int| (i + done) as nat,
            )
            &&& script_succeeds(len, ok, done, last_ok) <==> forall|i: int|
                0 <= i < len ==> ok[i]
        }),
    decreases len - done,
{
    lemma_first_failure(ok, len);
    let f = first_failure(ok, len);
    assert(done <= f) by {
        if f < done {
            assert(ok[f as int]);
        }
    }
    if done < len {
        if ok[done as int] {
            lemma_executed_from(len, ok, (done + 1) as nat, true);
            let stop = if f < len {
                f + 1
            } else {
                len
            };
            assert(executed(len, ok, done, last_ok) =~= Seq::new(
                (stop - done) as nat,
                |i: int| (i + done) as nat,
            ));
        } else {
            assert(f == done) by {
                if f > done {
                    assert(ok[done as int]);
                }
            }
            assert(executed(len, ok, (done + 1) as nat, false) == Seq::<nat>::empty());
            assert(executed(len, ok, done, last_ok) =~= Seq::new(1, |i: int| (i + done) as nat));
            assert(!script_succeeds(len, ok, (done + 1) as nat, false));
        }
    } else {
        assert(executed(len, ok, done, last_ok) =~= Seq::new(
            0,
            |i: int| (i + done) as nat,
        ));
    }
}

} // verus!
