//! The first process of a container: it starts the container's command and
//! reaps children until that command ends. Each report of `waitpid` is
//! turned into the next step here.
use vstd::prelude::*;

verus! {

/// A report of `waitpid` on any child.
#[derive(Debug, Clone, Copy, PartialEq, Eq)]
pub enum ChildReport {
    /// Process `pid` ended with exit code `code`.
    Exited { pid: i32, code: i32 },
    /// Process `pid` was ended by signal number `signal`.
    Signaled { pid: i32, signal: i32 },
    /// No child is left to wait for.
    NoChildren,
    /// Waiting failed for another reason.
    Failed,
    /// Any other change of state (a child stopped or continued).
    Other,
}

/// What the init process does next.
#[derive(Debug, Clone, Copy, PartialEq, Eq)]
pub enum InitStep {
    /// Wait for the next child.
    Wait,
    /// Exit with this code.
    Exit(u8),
}

/// The next step after a report, when the container's command is process
/// `command_pid`: its end (by exit code, or by signal as `128 + signal`) is
/// the init's exit code, kept to its low 8 bits; when no child is left or
/// waiting fails, the init exits with 0; other reports are waited past.
pub open spec fn spec_init_step(command_pid: i32, report: ChildReport) -> InitStep {
    match report {
        ChildReport::Exited { pid, code } => if pid == command_pid {
            InitStep::Exit(code as u8)
        } else {
            InitStep::Wait
        },
        ChildReport::Signaled { pid, signal } => if pid == command_pid {
            InitStep::Exit((128 + signal) as u8)
        } else {
            InitStep::Wait
        },
        ChildReport::NoChildren => InitStep::Exit(0),
        ChildReport::Failed => InitStep::Exit(0),
        ChildReport::Other => InitStep::Wait,
    }
}

/// When the container's command ends, init ends with it: an exit with code
/// `c` makes init exit with `c` taken modulo 256 (so code 0 gives 0), and an
/// end by signal `s` makes it exit with `128 + s` modulo 256; init never
/// waits on after its command has ended. The end of any other process is
/// waited past.
pub proof fn law_init_ends_with_its_command(command_pid: i32, other: i32, code: i32, signal: i32)
    requires
        other != command_pid,
    ensures
        spec_init_step(command_pid, ChildReport::Exited { pid: command_pid, code }) matches InitStep::Exit(e)
            && e as int == code % 256,
        spec_init_step(command_pid, ChildReport::Signaled { pid: command_pid, signal }) matches InitStep::Exit(e)
            && e as int == (128 + signal) % 256,
        spec_init_step(command_pid, ChildReport::Exited { pid: other, code }) == InitStep::Wait,
        spec_init_step(command_pid, ChildReport::Signaled { pid: other, signal }) == InitStep::Wait,
{
    assert((code as u8) as int == code % 256) by (bit_vector);
    assert(((128 + signal) as u8) as int == (128 + signal) % 256) by (bit_vector);
}

/// The next step of the init process after `report`.
pub fn init_step(command_pid: i32, report: ChildReport) -> (r: InitStep)
    ensures
        r == spec_init_step(command_pid, report),
{
    match report {
        ChildReport::Exited { pid, code } => {
            if pid == command_pid {
                InitStep::Exit(code as u8)
            } else {
                InitStep::Wait
            }
        },
        ChildReport::Signaled { pid, signal } => {
            if pid == command_pid {
                InitStep::Exit((128i64 + signal as i64) as u8)
            } else {
                InitStep::Wait
            }
        },
        ChildReport::NoChildren => InitStep::Exit(0),
        ChildReport::Failed => InitStep::Exit(0),
        ChildReport::Other => InitStep::Wait,
    }
}

} // verus!
