//! The operating system, as `sysinfo` and `listeners` show it. Nothing in
//! this module is proved: each item states what the library takes on trust
//! from those crates.

use vstd::prelude::*;
use crate::model::{EnumerationError, ListeningSocket, ProcessRecord, Protocol};

verus! {

/// `sysinfo::System`: a snapshot of the host, the process table in it.
#[verifier::external_type_specification]
#[verifier::external_body]
pub struct ExSystem(sysinfo::System);

/// `sysinfo::Process`: one process of a snapshot.
#[verifier::external_type_specification]
#[verifier::external_body]
pub struct ExProcess(sysinfo::Process);

/// The process table that a snapshot holds: the name of each process in
/// it, by process identifier.
pub uninterp spec fn system_processes(system: sysinfo::System) -> Map<u32, Seq<char>>;

/// `sysinfo::System::new_all`: a snapshot with everything loaded. What it
/// holds depends on the host, so nothing is claimed of it.
#[verifier::external_body]
pub(crate) fn load_system() -> (system: sysinfo::System) {
    sysinfo::System::new_all()
}

/// `sysinfo::System::refresh_processes`, on all processes, dropping the dead
/// ones. What the snapshot holds afterwards depends on the host, so nothing
/// is claimed of it.
#[verifier::external_body]
pub(crate) fn refresh_processes(system: &mut sysinfo::System) {
    system.refresh_processes(sysinfo::ProcessesToUpdate::All, true);
}

/// `sysinfo::System::processes`, each entry as a record of its identifier
/// (`Pid::as_u32`) and its name (`Process::name`, lossily as text). Claimed:
/// every record is an entry of the snapshot's process table, and every
/// process of that table has a record. The order is that of a hash map walk
/// and is left open.
#[verifier::external_body]
pub(crate) fn process_records(system: &sysinfo::System) -> (records: Vec<ProcessRecord>)
    ensures
        forall|k: int|
            0 <= k < records.len() ==> system_processes(*system).contains_pair(
                (#[trigger] records@[k]).pid,
                records@[k].name@,
            ),
        forall|pid: u32| #[trigger]
            system_processes(*system).contains_key(pid) ==> exists|k: int|
                0 <= k < records.len() && (#[trigger] records@[k]).pid == pid,
{
    system.processes().iter().map(|(pid, process)| ProcessRecord {
        pid: pid.as_u32(),
        name: process.name().to_string_lossy().into_owned(),
    }).collect()
}

/// `sysinfo::System::process`, for the `Pid` made of `pid`. Claimed: a
/// process is found exactly when the snapshot's process table holds `pid`.
#[verifier::external_body]
pub(crate) fn find_process(system: &sysinfo::System, pid: u32) -> (found: Option<
    &sysinfo::Process,
>)
    ensures
        found is Some <==> system_processes(*system).contains_key(pid),
{
    system.process(sysinfo::Pid::from(pid as usize))
}

/// `sysinfo::Process::kill`: sends the kill signal and says whether it was
/// sent. The answer is the operating system's, so nothing is claimed of it.
#[verifier::external_body]
pub(crate) fn request_kill(process: &sysinfo::Process) -> (accepted: bool) {
    process.kill()
}

/// `listeners::get_all`, each listener as a socket of this library: its
/// process identifier, its protocol, its local address as text, its local
/// port, and the process name that came with it. What is found depends on
/// the host, so nothing is claimed of it.
#[verifier::external_body]
pub(crate) fn enumerate_sockets() -> (found: Result<Vec<ListeningSocket>, EnumerationError>) {
    match listeners::get_all() {
        Ok(all) => Ok(all.into_iter().map(|listener| ListeningSocket {
            pid: listener.process.pid,
            protocol: match listener.protocol {
                listeners::Protocol::TCP => Protocol::Tcp,
                listeners::Protocol::UDP => Protocol::Udp,
            },
            address: listener.socket.ip().to_string(),
            port: listener.socket.port(),
            name_hint: Some(listener.process.name),
        }).collect()),
        Err(_) => Err(EnumerationError),
    }
}

} // verus!
