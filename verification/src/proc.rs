//! Starting, identifying, watching and stopping the server process.
//!
//! A process id on its own names nothing. Windows hands a freed id out again as
//! soon as its last handle closes, so a pid file can name the operator's game
//! client an hour after the server it was written for exited. Every action
//! therefore starts with [`claim`], which says whether the pid is the server.
//!
//! Keen ships a Windows dedicated server only. The judgements the Windows
//! process control makes live here: how a wait reads, and what a remote library
//! load came to. So does the backend for a host with no Windows server, which
//! claims nothing and refuses every action that needs a live process.

use vstd::prelude::*;

verus! {

/// `WaitForSingleObject` saying the object signaled.
pub const WAIT_OBJECT_0: u32 = 0;

/// `WaitForSingleObject` saying the wait ran out.
pub const WAIT_TIMEOUT: u32 = 258;

/// What a remote library load came to.
#[derive(Debug, Clone, Copy, PartialEq, Eq, Structural)]
pub enum LoadOutcome {
    /// The library is in the target's module list.
    Loaded,
    /// The loader thread did not finish inside the wait.
    TimedOut,
    /// The target exited while loading, with this status.
    ProcessExited(u32),
    /// The target is alive, the library is not in its module list, and the
    /// loader thread's exit code could not be read.
    ThreadCodeUnreadable,
    /// The target is alive and the library is not in its module list.
    Refused {
        /// The loader thread's exit code, as a hint.
        thread_code: u32,
    },
}

/// Judge a remote library load from the facts the calls establish.
///
/// The order is the order of evidence: a wait that ran out says nothing, a
/// target that exited reports its status, a library in the module list is
/// loaded whatever the thread code says, and only then is the thread code a
/// hint.
pub fn judge_load(
    thread_wait: u32,
    process_alive: bool,
    process_status: u32,
    thread_code: Option<u32>,
    in_module_list: bool,
) -> (outcome: LoadOutcome)
    ensures
        thread_wait == WAIT_TIMEOUT ==> outcome == LoadOutcome::TimedOut,
        thread_wait != WAIT_TIMEOUT && !process_alive ==> outcome == LoadOutcome::ProcessExited(process_status),
        thread_wait != WAIT_TIMEOUT && process_alive && in_module_list ==> outcome == LoadOutcome::Loaded,
        thread_wait != WAIT_TIMEOUT && process_alive && !in_module_list ==> outcome == (match thread_code {
            None => LoadOutcome::ThreadCodeUnreadable,
            Some(code) => LoadOutcome::Refused { thread_code: code },
        }),
{
    if thread_wait == WAIT_TIMEOUT {
        return LoadOutcome::TimedOut;
    }
    if !process_alive {
        return LoadOutcome::ProcessExited(process_status);
    }
    if in_module_list {
        return LoadOutcome::Loaded;
    }
    match thread_code {
        None => LoadOutcome::ThreadCodeUnreadable,
        Some(thread_code) => LoadOutcome::Refused { thread_code },
    }
}

/// The message every call on a host with no Windows server carries.
pub const UNSUPPORTED: &'static str = "Keen ships a Windows dedicated server only, so the dev loop drives the server through Windows process control. On Linux, run this loop inside Wine or Proton.";

/// What a wait for exit concluded.
#[derive(Debug, Clone, Copy, PartialEq, Eq, Structural)]
pub enum Exit {
    /// The process left on its own.
    Gone,
    /// The process is still running.
    Running,
}

/// A server handle on a host that cannot hold one.
pub struct Server {
    pid: u32,
}

/// What a recorded pid turned out to name.
pub enum Claim {
    /// Nothing alive holds the id.
    Gone,
    /// A live process holds the id and it is not the server. The text is the
    /// executable it is running.
    Other(String),
    /// The server, held open.
    Ours(Server),
}

/// The milliseconds a wait of `seconds` asks for: the product, held at the
/// largest `u32` when it does not fit.
pub open spec fn wait_ms(seconds: u64) -> u32 {
    if seconds * 1000 > u32::MAX {
        u32::MAX
    } else {
        (seconds * 1000) as u32
    }
}

/// The milliseconds a wait of `seconds` asks `WaitForSingleObject` for.
pub fn wait_milliseconds(seconds: u64) -> (r: u32)
    ensures
        r == wait_ms(seconds),
{
    if seconds > 4_294_967 {
        0xFFFF_FFFF
    } else {
        (seconds * 1000) as u32
    }
}

/// How a wait on a process reads: it ran out, so the process still runs, or
/// anything else, so it left.
pub fn exit_from_wait(result: u32) -> (r: Exit)
    ensures
        r == (if result == WAIT_TIMEOUT {
            Exit::Running
        } else {
            Exit::Gone
        }),
{
    if result == WAIT_TIMEOUT {
        Exit::Running
    } else {
        Exit::Gone
    }
}

impl Server {
    /// The process id.
    pub closed spec fn spec_pid(&self) -> u32 {
        self.pid
    }

    /// The process id.
    pub fn pid(&self) -> (r: u32)
        ensures
            r == self.spec_pid(),
    {
        self.pid
    }

    /// Report gone, because nothing was started.
    pub fn wait(&self, seconds: u64) -> (r: Exit)
        ensures
            r == Exit::Gone,
    {
        Exit::Gone
    }

    /// Refuse to terminate, because nothing was started.
    pub fn terminate(&self) -> (r: Result<(), String>)
        ensures
            r matches Err(m) && m@ == UNSUPPORTED@,
    {
        Err(crate::ui::owned(UNSUPPORTED))
    }
}

/// Open a recorded pid and say whether it is the server at `expected`.
///
/// A host with no Windows server started nothing, so every pid reads as gone.
pub fn claim(pid: u32, expected: &str) -> (r: Claim)
    ensures
        r is Gone,
{
    Claim::Gone
}

/// Ask a process to shut down cleanly.
///
/// # Errors
///
/// Always, on a host with no Windows server.
pub fn send_break(pid: u32) -> (r: Result<(), String>)
    ensures
        r matches Err(m) && m@ == UNSUPPORTED@,
{
    Err(crate::ui::owned(UNSUPPORTED))
}

/// Load a library into a running process.
///
/// # Errors
///
/// Always, on a host with no Windows server.
pub fn inject(pid: u32, library: &str) -> (r: Result<(), String>)
    ensures
        r matches Err(m) && m@ == UNSUPPORTED@,
{
    Err(crate::ui::owned(UNSUPPORTED))
}

/// Whether two executables are one file, given the paths and, for each,
/// where it resolves when it exists: the resolved paths when both exist,
/// else the paths with ASCII case folded, which is what Windows does with a
/// path it cannot open.
pub open spec fn same_file(left: Seq<char>, right: Seq<char>, left_real: Option<Seq<char>>, right_real: Option<Seq<char>>) -> bool {
    match (left_real, right_real) {
        (Some(a), Some(b)) => a == b,
        _ => crate::text::ascii_lowercase(left) == crate::text::ascii_lowercase(right),
    }
}

/// Whether two executables are one file, given where each resolves.
pub fn same_file_as(left: &str, right: &str, left_real: Option<&str>, right_real: Option<&str>) -> (r: bool)
    ensures
        r == same_file(
            left@,
            right@,
            match left_real {
                Some(a) => Some(a@),
                None => None,
            },
            match right_real {
                Some(b) => Some(b@),
                None => None,
            },
        ),
{
    match (left_real, right_real) {
        (Some(a), Some(b)) => crate::text::str_eq(a, b),
        _ => {
            let l = crate::text::to_ascii_lowercase(crate::text::chars_of(left).as_slice());
            let r = crate::text::to_ascii_lowercase(crate::text::chars_of(right).as_slice());
            crate::text::chars_eq(l.as_slice(), r.as_slice())
        },
    }
}

/// Whether two executable paths name the same file.
///
/// Both sides resolve when they exist, which folds case, separators and
/// links. When either does not exist the comparison falls back to the text,
/// case folded.
pub fn same_executable(left: &str, right: &str) -> (r: bool)
    ensures
        exists|left_real: Option<Seq<char>>, right_real: Option<Seq<char>>|
            r == same_file(left@, right@, left_real, right_real),
{
    let a = crate::steam::canonical_path(left);
    let b = crate::steam::canonical_path(right);
    match (&a, &b) {
        (Some(x), Some(y)) => same_file_as(left, right, Some(x.as_str()), Some(y.as_str())),
        _ => same_file_as(left, right, None, None),
    }
}

/// What a load verdict comes to for the caller: nothing for a loaded
/// library, else the sentence saying what happened.
pub open spec fn load_report(pid: u32, library: Seq<char>, outcome: LoadOutcome) -> Option<Seq<char>> {
    let p = crate::text::decimal(pid as nat);
    match outcome {
        LoadOutcome::Loaded => None,
        LoadOutcome::TimedOut => Some(
            "the loader thread in process "@ + p + " did not finish. The load may still complete."@,
        ),
        LoadOutcome::ProcessExited(status) => Some(
            "process "@ + p + " exited with status 0x"@ + crate::text::hex_fixed(status as nat, 8) + " while loading "@
                + library,
        ),
        LoadOutcome::ThreadCodeUnreadable => Some(
            "process "@ + p + " did not load "@ + library + " and the loader thread's exit code could not be read"@,
        ),
        LoadOutcome::Refused { thread_code } => Some(
            "process "@ + p + " did not load "@ + library + "; the loader thread returned 0x"@ + crate::text::hex_text(
                thread_code as nat,
            ) + ".                  The library's own dependencies are the usual cause."@,
        ),
    }
}

/// Turn a load verdict into the caller's result.
///
/// # Errors
///
/// Every verdict but a loaded library, with the sentence saying what
/// happened.
pub fn report_load(pid: u32, library: &str, outcome: LoadOutcome) -> (r: Result<(), String>)
    ensures
        match load_report(pid, library@, outcome) {
            None => r is Ok,
            Some(m) => r matches Err(e) && e@ == m,
        },
{
    let p = crate::text::decimal_string(pid as u64);
    let mut m = String::new();
    match outcome {
        LoadOutcome::Loaded => return Ok(()),
        LoadOutcome::TimedOut => {
            crate::text::push_str(&mut m, "the loader thread in process ");
            crate::text::push_str(&mut m, p.as_str());
            crate::text::push_str(&mut m, " did not finish. The load may still complete.");
        },
        LoadOutcome::ProcessExited(status) => {
            crate::text::push_str(&mut m, "process ");
            crate::text::push_str(&mut m, p.as_str());
            crate::text::push_str(&mut m, " exited with status 0x");
            crate::text::push_str(&mut m, crate::text::hex8_string(status).as_str());
            crate::text::push_str(&mut m, " while loading ");
            crate::text::push_str(&mut m, library);
        },
        LoadOutcome::ThreadCodeUnreadable => {
            crate::text::push_str(&mut m, "process ");
            crate::text::push_str(&mut m, p.as_str());
            crate::text::push_str(&mut m, " did not load ");
            crate::text::push_str(&mut m, library);
            crate::text::push_str(&mut m, " and the loader thread's exit code could not be read");
        },
        LoadOutcome::Refused { thread_code } => {
            crate::text::push_str(&mut m, "process ");
            crate::text::push_str(&mut m, p.as_str());
            crate::text::push_str(&mut m, " did not load ");
            crate::text::push_str(&mut m, library);
            crate::text::push_str(&mut m, "; the loader thread returned 0x");
            crate::text::push_str(&mut m, crate::text::hex_string(thread_code as u64).as_str());
            crate::text::push_str(&mut m, ".                  The library's own dependencies are the usual cause.");
        },
    }
    Err(m)
}

} // verus!
