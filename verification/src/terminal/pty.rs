//! Decisions around a pseudo-terminal: what the child is started with,
//! what the results of the system calls mean, and the steps by which a
//! child is ended and reaped.
//!
//! The system calls themselves are made by the caller.

use vstd::prelude::*;
use crate::text::strings_view;

verus! {

/// How many bytes are read from the terminal at most in one go.
pub const READ_BUFFER_LEN: usize = 65536;

/// Milliseconds that a child is given to exit after it was asked to.
pub const TEARDOWN_WAIT_MS: u64 = 100;

/// The exit code of a child that could not start its program.
pub const EXEC_FAILED_EXIT_CODE: i32 = 1;

/// Why an operation on the terminal failed.
#[derive(Clone, Copy, Debug, PartialEq, Eq, Structural)]
pub enum PtyError {
    /// The terminal could not be opened, or the child not be started.
    SpawnFailed,
    /// A system call on the terminal failed.
    IoError,
}

/// The shell that is started where none is named.
pub fn default_shell() -> (shell: &'static str)
    ensures
        shell@ == "/bin/zsh"@,
{
    "/bin/zsh"
}

/// The arguments with which a login shell is started.
pub fn login_shell_args() -> (args: Vec<String>)
    ensures
        strings_view(args@) == seq!["-l"@],
{
    let mut args: Vec<String> = Vec::new();
    args.push(String::from_str("-l"));
    assert(strings_view(args@) =~= seq!["-l"@]);
    args
}

/// The argument vector of the child: the program, then its arguments.
pub fn child_argv(program: &str, args: &Vec<String>) -> (argv: Vec<String>)
    ensures
        strings_view(argv@) == seq![program@] + strings_view(args@),
{
    let mut argv: Vec<String> = Vec::new();
    argv.push(String::from_str(program));
    let mut i: usize = 0;
    assert(strings_view(argv@) =~= seq![program@] + strings_view(args@).take(0));
    while i < args.len()
        invariant
            i <= args@.len(),
            strings_view(argv@) == seq![program@] + strings_view(args@).take(i as int),
        decreases args@.len() - i,
    {
        let ghost before = strings_view(argv@);
        argv.push(args[i].clone());
        assert(strings_view(argv@) =~= before.push(args@[i as int]@));
        assert(strings_view(args@).take(i + 1) =~= strings_view(args@).take(i as int).push(
            args@[i as int]@,
        ));
        assert(strings_view(argv@) =~= seq![program@] + strings_view(args@).take(i + 1));
        i += 1;
    }
    assert(strings_view(args@).take(args@.len() as int) =~= strings_view(args@));
    argv
}

/// The settings that the child finds in its environment: the kind of
/// terminal, and a locale with UTF-8.
pub fn child_environment() -> (vars: Vec<String>)
    ensures
        strings_view(vars@) == seq![
            "TERM=xterm-256color"@,
            "LANG=en_US.UTF-8"@,
            "LC_ALL=en_US.UTF-8"@,
        ],
{
    let mut vars: Vec<String> = Vec::new();
    vars.push(String::from_str("TERM=xterm-256color"));
    vars.push(String::from_str("LANG=en_US.UTF-8"));
    vars.push(String::from_str("LC_ALL=en_US.UTF-8"));
    assert(strings_view(vars@) =~= seq![
        "TERM=xterm-256color"@,
        "LANG=en_US.UTF-8"@,
        "LC_ALL=en_US.UTF-8"@,
    ]);
    vars
}

/// Which side of a fork a process is on.
#[derive(Clone, Copy, Debug, PartialEq, Eq, Structural)]
pub enum ForkSide {
    /// This is the child.
    Child,
    /// This is the parent of the child with this process id.
    Parent(i32),
}

/// What the result of a fork means: a failure where it is negative, the
/// child where it is 0, and else the parent, with the child's process id.
pub open spec fn fork_meaning(pid: i32) -> Result<ForkSide, PtyError> {
    if pid < 0 {
        Err(PtyError::SpawnFailed)
    } else if pid == 0 {
        Ok(ForkSide::Child)
    } else {
        Ok(ForkSide::Parent(pid))
    }
}

/// Reads the result of a fork.
pub fn fork_side(pid: i32) -> (side: Result<ForkSide, PtyError>)
    ensures
        side == fork_meaning(pid),
{
    if pid < 0 {
        Err(PtyError::SpawnFailed)
    } else if pid == 0 {
        Ok(ForkSide::Child)
    } else {
        Ok(ForkSide::Parent(pid))
    }
}

/// What the result of a read or a write means: so many bytes where it is
/// not negative; none where the call would have blocked; an error
/// otherwise.
pub open spec fn transfer_meaning(result: isize, would_block: bool) -> Result<usize, PtyError> {
    if result >= 0 {
        Ok(result as usize)
    } else if would_block {
        Ok(0)
    } else {
        Err(PtyError::IoError)
    }
}

/// Reads the result of a read from the terminal: the number of bytes
/// read, 0 at the end of the output and where nothing is there to read.
pub fn read_outcome(result: isize, would_block: bool) -> (r: Result<usize, PtyError>)
    ensures
        r == transfer_meaning(result, would_block),
{
    if result >= 0 {
        Ok(result as usize)
    } else if would_block {
        Ok(0)
    } else {
        Err(PtyError::IoError)
    }
}

/// Reads the result of a write to the terminal: the number of bytes
/// written, which may be fewer than were given, and 0 where the terminal
/// takes nothing now.
pub fn write_outcome(result: isize, would_block: bool) -> (r: Result<usize, PtyError>)
    ensures
        r == transfer_meaning(result, would_block),
{
    if result >= 0 {
        Ok(result as usize)
    } else if would_block {
        Ok(0)
    } else {
        Err(PtyError::IoError)
    }
}

/// Reads the result of setting the window size.
pub fn resize_outcome(result: i32) -> (r: Result<(), PtyError>)
    ensures
        r == (if result < 0 {
            Err::<(), PtyError>(PtyError::IoError)
        } else {
            Ok::<(), PtyError>(())
        }),
{
    if result < 0 {
        Err(PtyError::IoError)
    } else {
        Ok(())
    }
}

/// A step in ending a child.
#[derive(Clone, Copy, Debug, PartialEq, Eq, Structural)]
pub enum TeardownStep {
    /// Ask the child to end (SIGTERM).
    SendTerm,
    /// Look whether the child has ended, without waiting.
    CheckExited,
    /// Wait `TEARDOWN_WAIT_MS` milliseconds.
    Wait,
    /// Look again whether the child has ended, without waiting.
    CheckAgain,
    /// Make the child end (SIGKILL).
    SendKill,
    /// Wait until the child has ended.
    Reap,
    /// The child has ended and is reaped.
    Done,
}

/// The step that follows a step. `still_running` is what the step found
/// where it looked whether the child has ended, and counts for nothing in
/// the other steps.
pub open spec fn teardown_after(step: TeardownStep, still_running: bool) -> TeardownStep {
    match step {
        TeardownStep::SendTerm => TeardownStep::CheckExited,
        TeardownStep::CheckExited => if still_running {
            TeardownStep::Wait
        } else {
            TeardownStep::Done
        },
        TeardownStep::Wait => TeardownStep::CheckAgain,
        TeardownStep::CheckAgain => if still_running {
            TeardownStep::SendKill
        } else {
            TeardownStep::Done
        },
        TeardownStep::SendKill => TeardownStep::Reap,
        TeardownStep::Reap => TeardownStep::Done,
        TeardownStep::Done => TeardownStep::Done,
    }
}

/// Says which step follows.
pub fn teardown_next(step: TeardownStep, still_running: bool) -> (next: TeardownStep)
    ensures
        next == teardown_after(step, still_running),
{
    match step {
        TeardownStep::SendTerm => TeardownStep::CheckExited,
        TeardownStep::CheckExited => if still_running {
            TeardownStep::Wait
        } else {
            TeardownStep::Done
        },
        TeardownStep::Wait => TeardownStep::CheckAgain,
        TeardownStep::CheckAgain => if still_running {
            TeardownStep::SendKill
        } else {
            TeardownStep::Done
        },
        TeardownStep::SendKill => TeardownStep::Reap,
        TeardownStep::Reap => TeardownStep::Done,
        TeardownStep::Done => TeardownStep::Done,
    }
}

/// How many steps are left at most until the child is reaped.
pub open spec fn steps_left(step: TeardownStep) -> nat {
    match step {
        TeardownStep::SendTerm => 6,
        TeardownStep::CheckExited => 5,
        TeardownStep::Wait => 4,
        TeardownStep::CheckAgain => 3,
        TeardownStep::SendKill => 2,
        TeardownStep::Reap => 1,
        TeardownStep::Done => 0,
    }
}

/// Ending a child comes to its end whatever is found on the way: every
/// step leaves fewer steps to go, and it is over only once the child was
/// found to have ended or was waited for.
pub proof fn lemma_teardown_ends(step: TeardownStep, still_running: bool)
    requires
        step != TeardownStep::Done,
    ensures
        steps_left(teardown_after(step, still_running)) < steps_left(step),
        teardown_after(step, still_running) == TeardownStep::Done ==> (step
            == TeardownStep::Reap || ((step == TeardownStep::CheckExited || step
            == TeardownStep::CheckAgain) && !still_running)),
{
}

} // verus!
