//! Fresh snapshots of the host: the process table and the socket list.
//! Every call reads the operating system anew; nothing is kept between
//! calls.

use vstd::prelude::*;
use crate::host::{
    enumerate_sockets, load_system, process_records, refresh_processes, system_processes,
};
use crate::model::{EnumerationError, ListeningSocket};
use crate::process_table::{lemma_table_of_listing, ProcessTable};

verus! {

/// Takes a snapshot of the host with its process table loaded and
/// refreshed, processes that have exited dropped.
pub fn snapshot_system() -> (system: sysinfo::System) {
    let mut system = load_system();
    refresh_processes(&mut system);
    system
}

/// The process table of `system`, as a table of this library.
pub fn table_of_system(system: &sysinfo::System) -> (table: ProcessTable)
    ensures
        table@ == system_processes(*system),
{
    let records = process_records(system);
    proof {
        let models = records.deep_view();
        assert forall|k: int| 0 <= k < models.len() implies system_processes(
            *system,
        ).contains_pair((#[trigger] models[k]).pid, models[k].name) by {
            assert(models[k] == records@[k].deep_view());
        }
        assert forall|pid: u32| #[trigger]
            system_processes(*system).contains_key(pid) implies exists|k: int|
            0 <= k < models.len() && (#[trigger] models[k]).pid == pid by {
            let k = choose|k: int| 0 <= k < records.len() && (#[trigger] records@[k]).pid == pid;
            assert(models[k].pid == pid);
        }
        lemma_table_of_listing(models, system_processes(*system));
    }
    ProcessTable::from_records(records)
}

/// Reads the process table of the host afresh: the table is the process
/// table of a snapshot taken in this call. Which snapshot, the host decides.
pub fn refresh_process_table() -> (table: ProcessTable)
    ensures
        exists|system: sysinfo::System| table@ == #[trigger] system_processes(system),
{
    let system = snapshot_system();
    table_of_system(&system)
}

/// The sockets that an enumeration found, or none where it failed.
pub fn sockets_or_none(found: Result<Vec<ListeningSocket>, EnumerationError>) -> (sockets: Vec<
    ListeningSocket,
>)
    ensures
        match found {
            Ok(all) => sockets == all,
            Err(_) => sockets@.len() == 0,
        },
{
    match found {
        Ok(all) => all,
        Err(_) => Vec::new(),
    }
}

/// Enumerates the sockets that are open on the host, in the order in which
/// the operating system yields them. A failed enumeration gives no socket.
pub fn list_listening_sockets() -> (sockets: Vec<ListeningSocket>) {
    sockets_or_none(enumerate_sockets())
}

} // verus!
