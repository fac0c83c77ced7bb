//! Joining the socket list with the process table: one report per socket,
//! each with the name resolved for its owner, ordered by port.

use vstd::prelude::*;
use crate::host::system_processes;
use crate::model::{ListeningSocket, PortReport, ReportModel, SocketModel};
use crate::process_table::ProcessTable;
use crate::snapshot::{list_listening_sockets, refresh_process_table};
use crate::sorting::{
    is_stable_sort_by_port, lemma_stable_sort_is_unique, on_port, sort_by_port, sorted_by_port,
};

verus! {

/// The name reported for the owner of a socket: `System` where no process
/// owns it; else the name that the process table has for `pid`; else the
/// name that came with the socket; else the empty name.
pub open spec fn resolved_name(
    table: Map<u32, Seq<char>>,
    pid: u32,
    name_hint: Option<Seq<char>>,
) -> Seq<char> {
    if pid == 0 {
        "System"@
    } else if table.contains_key(pid) {
        table[pid]
    } else {
        match name_hint {
            Some(hint) => hint,
            None => Seq::empty(),
        }
    }
}

/// The report on one socket, given the process table.
pub open spec fn report_for(table: Map<u32, Seq<char>>, socket: SocketModel) -> ReportModel {
    ReportModel {
        pid: socket.pid,
        name: resolved_name(table, socket.pid, socket.name_hint),
        port: socket.port,
        protocol: socket.protocol.label(),
        address: socket.address,
    }
}

/// The reports on `sockets`, one for each, in the order of the sockets.
pub open spec fn emitted(table: Map<u32, Seq<char>>, sockets: Seq<SocketModel>) -> Seq<
    ReportModel,
> {
    Seq::new(sockets.len(), |i: int| report_for(table, sockets[i]))
}

/// `reports` is the port report on `sockets` under `table`: the reports on
/// the sockets, sorted by port, those on one port in the order of their
/// sockets.
pub open spec fn is_report(
    table: Map<u32, Seq<char>>,
    sockets: Seq<SocketModel>,
    reports: Seq<ReportModel>,
) -> bool {
    is_stable_sort_by_port(emitted(table, sockets), reports)
}

/// A port report holds one report for each socket.
pub proof fn lemma_report_has_one_entry_per_socket(
    table: Map<u32, Seq<char>>,
    sockets: Seq<SocketModel>,
    reports: Seq<ReportModel>,
)
    requires
        is_report(table, sockets, reports),
    ensures
        reports.len() == sockets.len(),
{
}

/// A port report is sorted by port, ascending.
pub proof fn lemma_report_is_sorted(
    table: Map<u32, Seq<char>>,
    sockets: Seq<SocketModel>,
    reports: Seq<ReportModel>,
)
    requires
        is_report(table, sockets, reports),
    ensures
        sorted_by_port(reports),
{
}

/// In a port report the reports on one port stand in the order of their
/// sockets: they are the reports on the sockets of that port, one after
/// the other.
pub proof fn lemma_report_keeps_socket_order_on_each_port(
    table: Map<u32, Seq<char>>,
    sockets: Seq<SocketModel>,
    reports: Seq<ReportModel>,
    port: u16,
)
    requires
        is_report(table, sockets, reports),
    ensures
        reports.filter(on_port(port)) == emitted(table, sockets).filter(on_port(port)),
{
}

/// A process table and a socket list have one port report.
pub proof fn lemma_report_is_unique(
    table: Map<u32, Seq<char>>,
    sockets: Seq<SocketModel>,
    first: Seq<ReportModel>,
    second: Seq<ReportModel>,
)
    requires
        is_report(table, sockets, first),
        is_report(table, sockets, second),
    ensures
        first == second,
{
    lemma_stable_sort_is_unique(emitted(table, sockets), first, second);
}

/// Every entry of a port report is the report on one of the sockets.
pub proof fn lemma_every_report_is_of_a_socket(
    table: Map<u32, Seq<char>>,
    sockets: Seq<SocketModel>,
    reports: Seq<ReportModel>,
    k: int,
)
    requires
        is_report(table, sockets, reports),
        0 <= k < reports.len(),
    ensures
        exists|j: int|
            0 <= j < sockets.len() && reports[k] == report_for(table, #[trigger] sockets[j]),
{
    let all = emitted(table, sockets);
    let port = reports[k].port;
    assert(on_port(port)(reports[k]));
    assert(reports.filter(on_port(port)).contains(reports[k]));
    assert(reports.filter(on_port(port)) == all.filter(on_port(port)));
    all.lemma_filter_contains_rev(on_port(port), reports[k]);
    let j = choose|j: int| 0 <= j < all.len() && all[j] == reports[k];
    assert(reports[k] == report_for(table, sockets[j]));
}

/// No socket is dropped from a port report, whether its owner is in the
/// process table or not.
pub proof fn lemma_every_socket_is_reported(
    table: Map<u32, Seq<char>>,
    sockets: Seq<SocketModel>,
    reports: Seq<ReportModel>,
    j: int,
)
    requires
        is_report(table, sockets, reports),
        0 <= j < sockets.len(),
    ensures
        exists|k: int|
            0 <= k < reports.len() && #[trigger] reports[k] == report_for(table, sockets[j]),
{
    let all = emitted(table, sockets);
    let port = all[j].port;
    assert(on_port(port)(all[j]));
    assert(all.filter(on_port(port)).contains(all[j]));
    assert(reports.filter(on_port(port)) == all.filter(on_port(port)));
    reports.lemma_filter_contains_rev(on_port(port), all[j]);
    let k = choose|k: int| 0 <= k < reports.len() && reports[k] == all[j];
    assert(reports[k] == report_for(table, sockets[j]));
}

/// A report on a socket that no process owns names `System`, whatever the
/// process table holds and whatever name came with the socket.
pub proof fn lemma_ownerless_socket_is_named_system(
    table: Map<u32, Seq<char>>,
    sockets: Seq<SocketModel>,
    reports: Seq<ReportModel>,
    k: int,
)
    requires
        is_report(table, sockets, reports),
        0 <= k < reports.len(),
        reports[k].pid == 0,
    ensures
        reports[k].name == "System"@,
{
    lemma_every_report_is_of_a_socket(table, sockets, reports, k);
}

/// A report on a socket whose owner is in the process table names the
/// owner as the table does, whatever name came with the socket.
pub proof fn lemma_live_owner_is_named_by_table(
    table: Map<u32, Seq<char>>,
    sockets: Seq<SocketModel>,
    reports: Seq<ReportModel>,
    k: int,
)
    requires
        is_report(table, sockets, reports),
        0 <= k < reports.len(),
        reports[k].pid != 0,
        table.contains_key(reports[k].pid),
    ensures
        reports[k].name == table[reports[k].pid],
{
    lemma_every_report_is_of_a_socket(table, sockets, reports, k);
}

/// A socket whose owner is not in the process table is reported under the
/// name that came with it.
pub proof fn lemma_stale_owner_is_named_by_hint(
    table: Map<u32, Seq<char>>,
    sockets: Seq<SocketModel>,
    reports: Seq<ReportModel>,
    j: int,
    hint: Seq<char>,
)
    requires
        is_report(table, sockets, reports),
        0 <= j < sockets.len(),
        sockets[j].pid != 0,
        !table.contains_key(sockets[j].pid),
        sockets[j].name_hint == Some(hint),
    ensures
        exists|k: int|
            0 <= k < reports.len() && #[trigger] reports[k] == report_for(table, sockets[j])
                && reports[k].name == hint,
{
    lemma_every_socket_is_reported(table, sockets, reports, j);
}

/// Resolves the name to report for the owner `pid` of a socket that came
/// with `name_hint`. The table is not consulted for `pid` 0.
pub fn resolve_name(table: &ProcessTable, pid: u32, name_hint: Option<String>) -> (name: String)
    ensures
        name@ == resolved_name(table@, pid, name_hint.deep_view()),
{
    if pid == 0 {
        "System".to_string()
    } else {
        match table.lookup(pid) {
            Some(found) => found.clone(),
            None => match name_hint {
                Some(hint) => hint,
                None => String::new(),
            },
        }
    }
}

/// Makes the report on `socket`.
pub fn report_on(table: &ProcessTable, socket: ListeningSocket) -> (report: PortReport)
    ensures
        report.deep_view() == report_for(table@, socket.deep_view()),
{
    let ListeningSocket { pid, protocol, address, port, name_hint } = socket;
    PortReport {
        pid,
        name: resolve_name(table, pid, name_hint),
        port,
        protocol: protocol.as_text(),
        address,
    }
}

/// Reports on every socket of `sockets`, sorted by port.
pub fn correlate(table: &ProcessTable, sockets: Vec<ListeningSocket>) -> (reports: Vec<PortReport>)
    ensures
        is_report(table@, sockets.deep_view(), reports.deep_view()),
        reports.len() == sockets.len(),
{
    let ghost all = sockets.deep_view();
    let ghost items = sockets@;
    let mut reports: Vec<PortReport> = Vec::new();
    for socket in it: sockets
        invariant
            it.seq() == items,
            all.len() == items.len(),
            forall|k: int| 0 <= k < items.len() ==> all[k] == #[trigger] items[k].deep_view(),
            reports.len() == it.index(),
            forall|k: int|
                0 <= k < reports.len() ==> (#[trigger] reports@[k]).deep_view() == report_for(
                    table@,
                    all[k],
                ),
    {
        let report = report_on(table, socket);
        reports.push(report);
    }
    assert(reports.deep_view() =~= emitted(table@, all));
    sort_by_port(&mut reports);
    reports
}

/// Reports on the sockets that are open on the host now. The process table
/// is read first, then the sockets; a failed socket enumeration gives the
/// empty report. What is returned is the port report on some socket list
/// under the process table of a snapshot: which ones, the host decides.
pub fn build_report() -> (reports: Vec<PortReport>)
    ensures
        exists|system: sysinfo::System, sockets: Seq<SocketModel>| #[trigger]
            is_report(system_processes(system), sockets, reports.deep_view()),
        sorted_by_port(reports.deep_view()),
        forall|k: int|
            0 <= k < reports.len() && (#[trigger] reports.deep_view()[k]).pid == 0
                ==> reports.deep_view()[k].name == "System"@,
{
    let table = refresh_process_table();
    let sockets = list_listening_sockets();
    let reports = correlate(&table, sockets);
    proof {
        let found = reports.deep_view();
        let system = choose|system: sysinfo::System|
            table@ == #[trigger] system_processes(system);
        assert(is_report(system_processes(system), sockets.deep_view(), found));
        lemma_report_is_sorted(table@, sockets.deep_view(), found);
        assert forall|k: int|
            0 <= k < found.len() && (#[trigger] found[k]).pid == 0 implies found[k].name
            == "System"@ by {
            lemma_ownerless_socket_is_named_system(table@, sockets.deep_view(), found, k);
        }
    }
    reports
}

} // verus!
