use port_manager::{
    correlate, report_on, resolve_name, ListeningSocket, PortReport, ProcessRecord, ProcessTable,
    Protocol,
};

fn socket(
    pid: u32,
    port: u16,
    protocol: Protocol,
    address: &str,
    hint: Option<&str>,
) -> ListeningSocket {
    ListeningSocket {
        pid,
        protocol,
        address: address.to_string(),
        port,
        name_hint: hint.map(|h| h.to_string()),
    }
}

fn report(pid: u32, name: &str, port: u16, protocol: &str, address: &str) -> PortReport {
    PortReport {
        pid,
        name: name.to_string(),
        port,
        protocol: protocol.to_string(),
        address: address.to_string(),
    }
}

fn table(entries: &[(u32, &str)]) -> ProcessTable {
    ProcessTable::from_records(
        entries
            .iter()
            .map(|(pid, name)| ProcessRecord { pid: *pid, name: name.to_string() })
            .collect(),
    )
}

#[test]
fn end_to_end_scenario() {
    let processes = table(&[(100, "alpha"), (200, "beta")]);
    let sockets = vec![
        socket(100, 8080, Protocol::Tcp, "127.0.0.1", None),
        socket(0, 53, Protocol::Udp, "0.0.0.0", None),
        socket(999, 3000, Protocol::Tcp, "0.0.0.0", Some("ghost")),
    ];
    let reports = correlate(&processes, sockets);
    assert_eq!(
        reports,
        vec![
            report(0, "System", 53, "UDP", "0.0.0.0"),
            report(999, "ghost", 3000, "TCP", "0.0.0.0"),
            report(100, "alpha", 8080, "TCP", "127.0.0.1"),
        ]
    );
}

#[test]
fn one_report_per_socket() {
    let processes = table(&[(7, "seven")]);
    for count in 0..40u16 {
        let sockets: Vec<ListeningSocket> = (0..count)
            .map(|i| socket(u32::from(i % 3) * 7, 1000 - i, Protocol::Tcp, "::1", None))
            .collect();
        assert_eq!(correlate(&processes, sockets).len(), usize::from(count));
    }
}

#[test]
fn no_socket_gives_the_empty_report() {
    let processes = table(&[(1, "init")]);
    assert_eq!(correlate(&processes, Vec::new()), Vec::new());
}

#[test]
fn stale_pid_still_gives_a_report() {
    let processes = table(&[]);
    let reports = correlate(&processes, vec![socket(4242, 80, Protocol::Tcp, "0.0.0.0", None)]);
    assert_eq!(reports, vec![report(4242, "", 80, "TCP", "0.0.0.0")]);
}

#[test]
fn reports_are_sorted_by_port() {
    let processes = table(&[]);
    let ports = [443u16, 80, 65535, 0, 8080, 22, 80, 1, 443, 3000];
    let sockets = ports
        .iter()
        .map(|port| socket(0, *port, Protocol::Tcp, "0.0.0.0", None))
        .collect();
    let reports = correlate(&processes, sockets);
    let sorted: Vec<u16> = reports.iter().map(|r| r.port).collect();
    assert_eq!(sorted, vec![0, 1, 22, 80, 80, 443, 443, 3000, 8080, 65535]);
}

#[test]
fn sockets_on_one_port_keep_their_order() {
    let processes = table(&[(1, "one"), (2, "two"), (3, "three")]);
    let sockets = vec![
        socket(3, 80, Protocol::Tcp, "10.0.0.3", None),
        socket(9, 22, Protocol::Tcp, "10.0.0.9", Some("late")),
        socket(1, 80, Protocol::Udp, "10.0.0.1", None),
        socket(2, 80, Protocol::Tcp, "10.0.0.2", None),
        socket(8, 22, Protocol::Udp, "10.0.0.8", Some("early")),
    ];
    let reports = correlate(&processes, sockets);
    assert_eq!(
        reports,
        vec![
            report(9, "late", 22, "TCP", "10.0.0.9"),
            report(8, "early", 22, "UDP", "10.0.0.8"),
            report(3, "three", 80, "TCP", "10.0.0.3"),
            report(1, "one", 80, "UDP", "10.0.0.1"),
            report(2, "two", 80, "TCP", "10.0.0.2"),
        ]
    );
}

#[test]
fn pid_zero_is_named_system() {
    let empty = table(&[]);
    assert_eq!(resolve_name(&empty, 0, None), "System");
    assert_eq!(resolve_name(&empty, 0, Some("kernel".to_string())), "System");
    let with_zero = table(&[(0, "swapper"), (1, "init")]);
    assert_eq!(resolve_name(&with_zero, 0, None), "System");
    assert_eq!(resolve_name(&with_zero, 0, Some("idle".to_string())), "System");
}

#[test]
fn table_name_wins_over_hint() {
    let processes = table(&[(100, "alpha"), (200, "beta")]);
    assert_eq!(resolve_name(&processes, 100, None), "alpha");
    assert_eq!(resolve_name(&processes, 100, Some("other".to_string())), "alpha");
    assert_eq!(resolve_name(&processes, 200, Some(String::new())), "beta");
}

#[test]
fn hint_names_a_process_that_is_gone() {
    let processes = table(&[(100, "alpha")]);
    assert_eq!(resolve_name(&processes, 999, Some("ghost".to_string())), "ghost");
    assert_eq!(resolve_name(&processes, u32::MAX, Some("far".to_string())), "far");
}

#[test]
fn no_hint_and_no_process_gives_the_empty_name() {
    let processes = table(&[(100, "alpha")]);
    assert_eq!(resolve_name(&processes, 999, None), "");
    assert_eq!(resolve_name(&processes, 999, Some(String::new())), "");
}

#[test]
fn report_carries_the_socket() {
    let processes = table(&[(31, "daemon")]);
    let made = report_on(&processes, socket(31, 5353, Protocol::Udp, "fe80::1", Some("hint")));
    assert_eq!(made, report(31, "daemon", 5353, "UDP", "fe80::1"));
    let made = report_on(&processes, socket(32, 5354, Protocol::Tcp, "192.168.1.2", Some("hint")));
    assert_eq!(made, report(32, "hint", 5354, "TCP", "192.168.1.2"));
}

#[test]
fn protocols_render_as_text() {
    assert_eq!(Protocol::Tcp.as_text(), "TCP");
    assert_eq!(Protocol::Udp.as_text(), "UDP");
}
