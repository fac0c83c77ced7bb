//! Reports which sockets are open on this host, names the process that owns
//! each of them, and terminates a process by its identifier.
//!
//! The socket list and the process table are read from the operating system;
//! joining the two, naming each socket's owner and ordering the result are
//! verified.

pub mod host;
pub mod model;
pub mod process_table;
pub mod report;
pub mod snapshot;
pub mod sorting;
pub mod terminate;

pub use model::{EnumerationError, ListeningSocket, PortReport, ProcessRecord, Protocol};
pub use process_table::ProcessTable;
pub use report::{build_report, correlate, report_on, resolve_name};
pub use snapshot::{
    list_listening_sockets, refresh_process_table, snapshot_system, sockets_or_none,
    table_of_system,
};
pub use sorting::sort_by_port;
pub use terminate::{attempt_kill, kill_in, kill_process, Termination};
