use port_manager::{ProcessRecord, ProcessTable};

fn record(pid: u32, name: &str) -> ProcessRecord {
    ProcessRecord { pid, name: name.to_string() }
}

#[test]
fn new_table_is_empty() {
    let table = ProcessTable::new();
    assert_eq!(table.lookup(0), None);
    assert_eq!(table.lookup(1), None);
    assert_eq!(table.lookup(u32::MAX), None);
}

#[test]
fn lookup_finds_what_was_entered() {
    let mut table = ProcessTable::new();
    table.insert(record(10, "ten"));
    table.insert(record(20, "twenty"));
    assert_eq!(table.lookup(10), Some(&"ten".to_string()));
    assert_eq!(table.lookup(20), Some(&"twenty".to_string()));
    assert_eq!(table.lookup(30), None);
}

#[test]
fn later_record_replaces_earlier() {
    let mut table = ProcessTable::new();
    table.insert(record(10, "old"));
    table.insert(record(10, "new"));
    assert_eq!(table.lookup(10), Some(&"new".to_string()));

    let table = ProcessTable::from_records(vec![
        record(5, "first"),
        record(6, "six"),
        record(5, "second"),
    ]);
    assert_eq!(table.lookup(5), Some(&"second".to_string()));
    assert_eq!(table.lookup(6), Some(&"six".to_string()));
}

#[test]
fn from_records_holds_every_record() {
    let records: Vec<ProcessRecord> =
        (1..200u32).map(|pid| record(pid, &format!("p{pid}"))).collect();
    let table = ProcessTable::from_records(records);
    for pid in 1..200u32 {
        assert_eq!(table.lookup(pid), Some(&format!("p{pid}")));
    }
    assert_eq!(table.lookup(0), None);
    assert_eq!(table.lookup(200), None);
}

#[test]
fn from_no_records_is_empty() {
    let table = ProcessTable::from_records(Vec::new());
    assert_eq!(table.lookup(1), None);
}
