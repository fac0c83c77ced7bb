use port_manager::{sort_by_port, PortReport};

fn tagged(port: u16, tag: &str) -> PortReport {
    PortReport {
        pid: 1,
        name: tag.to_string(),
        port,
        protocol: "TCP".to_string(),
        address: "0.0.0.0".to_string(),
    }
}

fn order(reports: &[PortReport]) -> Vec<(u16, String)> {
    reports.iter().map(|r| (r.port, r.name.clone())).collect()
}

fn expect(pairs: &[(u16, &str)]) -> Vec<(u16, String)> {
    pairs.iter().map(|(port, tag)| (*port, tag.to_string())).collect()
}

#[test]
fn sorting_nothing_gives_nothing() {
    let mut reports: Vec<PortReport> = Vec::new();
    sort_by_port(&mut reports);
    assert!(reports.is_empty());
}

#[test]
fn sorting_one_report_keeps_it() {
    let mut reports = vec![tagged(9, "only")];
    sort_by_port(&mut reports);
    assert_eq!(order(&reports), expect(&[(9, "only")]));
}

#[test]
fn sorted_input_stays_as_it_is() {
    let mut reports = vec![tagged(1, "a"), tagged(2, "b"), tagged(2, "c"), tagged(3, "d")];
    sort_by_port(&mut reports);
    assert_eq!(order(&reports), expect(&[(1, "a"), (2, "b"), (2, "c"), (3, "d")]));
}

#[test]
fn reversed_input_is_turned_round() {
    let mut reports = vec![tagged(4, "d"), tagged(3, "c"), tagged(2, "b"), tagged(1, "a")];
    sort_by_port(&mut reports);
    assert_eq!(order(&reports), expect(&[(1, "a"), (2, "b"), (3, "c"), (4, "d")]));
}

#[test]
fn equal_ports_stay_in_input_order() {
    let mut reports = vec![
        tagged(80, "first"),
        tagged(22, "x"),
        tagged(80, "second"),
        tagged(80, "third"),
        tagged(22, "y"),
        tagged(80, "fourth"),
    ];
    sort_by_port(&mut reports);
    assert_eq!(
        order(&reports),
        expect(&[
            (22, "x"),
            (22, "y"),
            (80, "first"),
            (80, "second"),
            (80, "third"),
            (80, "fourth"),
        ])
    );
}

#[test]
fn all_equal_ports_change_nothing() {
    let mut reports: Vec<PortReport> = (0..50).map(|i| tagged(7, &format!("{i}"))).collect();
    let before = reports.clone();
    sort_by_port(&mut reports);
    assert_eq!(reports, before);
}

#[test]
fn sort_agrees_with_a_stable_sort() {
    let mut seed: u32 = 12345;
    for round in 0..50usize {
        let mut reports = Vec::new();
        for i in 0..(round * 3) {
            seed = seed.wrapping_mul(1664525).wrapping_add(1013904223);
            reports.push(tagged((seed >> 16) as u16 % 16, &format!("{i}")));
        }
        let mut expected = reports.clone();
        expected.sort_by_key(|r| r.port);
        sort_by_port(&mut reports);
        assert_eq!(reports, expected);
    }
}

#[test]
fn extreme_ports_are_ordered() {
    let mut reports = vec![tagged(65535, "top"), tagged(0, "bottom"), tagged(32768, "mid")];
    sort_by_port(&mut reports);
    assert_eq!(order(&reports), expect(&[(0, "bottom"), (32768, "mid"), (65535, "top")]));
}
