//! Checker subprocesses for `script` and `program` assertions: what to run,
//! what came back, and how a finished run is settled.
use vstd::prelude::*;

verus! {

/// Default wall-clock bound of one checker run, in seconds.
pub const SCRIPT_TIMEOUT_DEFAULT_SECS: u64 = 30;

/// Bytes captured at most from each of the child's output pipes.
pub const SCRIPT_OUTPUT_CAP_BYTES: u64 = 1048576;

/// Seconds the output pipes are drained for after the child exits.
pub const DRAIN_GRACE_SECS: u64 = 2;

/// A checker subprocess to run. `env` is the child's whole environment.
pub struct ScriptSpec {
    pub program: String,
    pub args: Vec<String>,
    pub cwd: std::path::PathBuf,
    pub env: Vec<(String, String)>,
    pub stdin: Vec<u8>,
    pub timeout_secs: u64,
}

/// How the child finished.
#[derive(Debug, Clone, Copy, PartialEq, Eq, Structural)]
pub enum ExitDisposition {
    Exited(i32),
    Signaled,
    TimedOut,
}

/// What one run captured.
#[derive(Debug, Clone, PartialEq, Eq)]
pub struct ScriptOutput {
    pub stdout: Vec<u8>,
    pub stderr: Vec<u8>,
    pub exit: ExitDisposition,
}

/// A failure of the runner itself (not of the checker).
#[derive(Debug, Clone, PartialEq, Eq)]
pub enum ScriptError {
    Spawn { program: String, message: String },
    Stdin { message: String },
    Pipe { message: String },
}

/// The disposition of a child that exited with `code` (none when a signal
/// ended it).
pub fn exit_disposition(code: Option<i32>) -> (r: ExitDisposition)
    ensures
        r == match code {
            Some(c) => ExitDisposition::Exited(c),
            None => ExitDisposition::Signaled,
        },
{
    match code {
        Some(c) => ExitDisposition::Exited(c),
        None => ExitDisposition::Signaled,
    }
}

/// How writing the child's stdin ended: fine, the child closed its end
/// first (not a failure: the child chose not to read), or an I/O error.
#[derive(Debug, Clone, PartialEq, Eq)]
pub enum StdinEnd {
    Written,
    BrokenPipe,
    Failed(String),
}

/// How draining one output pipe ended: the bytes read, the grace window
/// ran out (nothing is kept), or a read error.
#[derive(Debug, Clone, PartialEq, Eq)]
pub enum DrainEnd {
    Read(Vec<u8>),
    GraceElapsed,
    Failed(String),
}

/// What the runner observed of one child, in the order it observes it.
pub enum RunEvents {
    /// The wall-clock bound ran out first; the child was killed and reaped.
    TimedOut,
    /// The child exited; waiting for it failed with this message.
    WaitFailed(String),
    /// The child exited with `code` (none when a signal ended it).
    Finished { code: Option<i32>, stdin: StdinEnd, stdout: DrainEnd, stderr: DrainEnd },
}

/// The bytes a drain keeps: what was read, cut to the first
/// [`SCRIPT_OUTPUT_CAP_BYTES`].
pub open spec fn drained(d: DrainEnd) -> Seq<u8> {
    match d {
        DrainEnd::Read(b) => if b@.len() > SCRIPT_OUTPUT_CAP_BYTES {
            b@.take(SCRIPT_OUTPUT_CAP_BYTES as int)
        } else {
            b@
        },
        _ => Seq::empty(),
    }
}

fn take_drain(d: DrainEnd) -> (r: Result<Vec<u8>, ScriptError>)
    ensures
        match d {
            DrainEnd::Read(_) => r matches Ok(x) && x@ == drained(d),
            DrainEnd::GraceElapsed => r matches Ok(x) && x@.len() == 0,
            DrainEnd::Failed(m) => r matches Err(ScriptError::Pipe { message }) && message@ == m@,
        },
{
    match d {
        DrainEnd::Read(mut b) => {
            if b.len() as u64 > SCRIPT_OUTPUT_CAP_BYTES {
                b.truncate(SCRIPT_OUTPUT_CAP_BYTES as usize);
            }
            Ok(b)
        },
        DrainEnd::GraceElapsed => Ok(Vec::new()),
        DrainEnd::Failed(m) => Err(ScriptError::Pipe { message: m }),
    }
}

/// Settles a run from what was observed: a timeout gives empty output with
/// `TimedOut`; a failed wait is a pipe error; otherwise a stdin write error
/// (other than the child closing its end) is reported, then a failed drain
/// of stdout, then of stderr; a drain cut short by the grace window keeps
/// nothing, and each output keeps at most its first
/// [`SCRIPT_OUTPUT_CAP_BYTES`] bytes.
pub fn settle_run(events: RunEvents) -> (r: Result<ScriptOutput, ScriptError>)
    ensures
        match events {
            RunEvents::TimedOut => r matches Ok(o) && o.stdout@.len() == 0 && o.stderr@.len() == 0
                && o.exit == ExitDisposition::TimedOut,
            RunEvents::WaitFailed(m) => r matches Err(ScriptError::Pipe { message }) && message@ == m@,
            RunEvents::Finished { code, stdin, stdout, stderr } => match stdin {
                StdinEnd::Failed(m) => r matches Err(ScriptError::Stdin { message }) && message@ == m@,
                _ => match stdout {
                    DrainEnd::Failed(m) => r matches Err(ScriptError::Pipe { message }) && message@ == m@,
                    _ => match stderr {
                        DrainEnd::Failed(m) => r matches Err(ScriptError::Pipe { message }) && message@ == m@,
                        _ => r matches Ok(o) && o.stdout@ == drained(stdout) && o.stderr@ == drained(stderr)
                            && o.exit == match code {
                            Some(c) => ExitDisposition::Exited(c),
                            None => ExitDisposition::Signaled,
                        },
                    },
                },
            },
        },
{
    match events {
        RunEvents::TimedOut => Ok(ScriptOutput { stdout: Vec::new(), stderr: Vec::new(), exit: ExitDisposition::TimedOut }),
        RunEvents::WaitFailed(m) => Err(ScriptError::Pipe { message: m }),
        RunEvents::Finished { code, stdin, stdout, stderr } => {
            let exit = exit_disposition(code);
            match stdin {
                StdinEnd::Failed(m) => {
                    return Err(ScriptError::Stdin { message: m });
                },
                _ => {},
            }
            let out = match take_drain(stdout) {
                Ok(b) => b,
                Err(e) => {
                    return Err(e);
                },
            };
            let err = match take_drain(stderr) {
                Ok(b) => b,
                Err(e) => {
                    return Err(e);
                },
            };
            Ok(ScriptOutput { stdout: out, stderr: err, exit })
        },
    }
}

} // verus!
