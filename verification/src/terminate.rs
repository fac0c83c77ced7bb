//! Terminating a process by its identifier.

use vstd::prelude::*;
use crate::host::{find_process, request_kill, system_processes};
use crate::snapshot::snapshot_system;

verus! {

/// What an attempt to terminate a process came to.
#[derive(Clone, Copy, Debug, PartialEq, Eq, Structural)]
pub enum Termination {
    /// The snapshot holds no process with the identifier.
    NotFound,
    /// The process was found and the operating system refused the request.
    Refused,
    /// The process was found and the operating system accepted the request.
    Accepted,
}

impl Termination {
    /// The outcome for a process that was found, given the operating
    /// system's answer to the request.
    pub open spec fn of_answer(accepted: bool) -> Termination {
        if accepted {
            Termination::Accepted
        } else {
            Termination::Refused
        }
    }

    /// Whether the attempt succeeded. Every failure counts alike.
    pub open spec fn is_success(self) -> bool {
        self is Accepted
    }

    /// The outcome for a process that was found, given the operating
    /// system's answer to the request.
    pub fn answered(accepted: bool) -> (outcome: Termination)
        ensures
            outcome == Termination::of_answer(accepted),
    {
        if accepted {
            Termination::Accepted
        } else {
            Termination::Refused
        }
    }

    /// Whether the attempt succeeded. Every failure counts alike: a caller
    /// cannot tell a missing process from a refused request.
    pub fn succeeded(self) -> (success: bool)
        ensures
            success == self.is_success(),
    {
        match self {
            Termination::Accepted => true,
            Termination::Refused => false,
            Termination::NotFound => false,
        }
    }
}

/// An attempt succeeds only if the process was found and the operating
/// system accepted the request.
pub proof fn lemma_success_needs_acceptance(accepted: bool)
    ensures
        Termination::of_answer(accepted).is_success() <==> accepted,
        !Termination::NotFound.is_success(),
{
}

/// Looks `pid` up in `system` and, if a process is found, asks the operating
/// system to terminate it at once. Nothing is requested for a process that
/// the snapshot does not hold.
pub fn attempt_kill(system: &sysinfo::System, pid: u32) -> (outcome: Termination)
    ensures
        outcome is NotFound <==> !system_processes(*system).contains_key(pid),
{
    match find_process(system, pid) {
        None => Termination::NotFound,
        Some(process) => Termination::answered(request_kill(process)),
    }
}

/// Terminates process `pid` as `system` shows it: `false` for a process
/// that the snapshot does not hold, else the operating system's answer.
pub fn kill_in(system: &sysinfo::System, pid: u32) -> (killed: bool)
    ensures
        !system_processes(*system).contains_key(pid) ==> !killed,
{
    attempt_kill(system, pid).succeeded()
}

/// Terminates process `pid`, looked up in a fresh snapshot of the host;
/// `true` only if the process was found and the operating system accepted
/// the request: a process that the snapshot does not hold is never
/// reported as terminated. Does not wait for the process to exit.
pub fn kill_process(pid: u32) -> (killed: bool)
    ensures
        killed ==> exists|system: sysinfo::System| #[trigger]
            system_processes(system).contains_key(pid),
{
    let system = snapshot_system();
    kill_in(&system, pid)
}

} // verus!
