//! A snapshot of the process table: which process identifiers are live, and
//! the name of each.

use std::collections::HashMap;
use vstd::prelude::*;
use crate::model::{ProcessRecord, RecordModel};

verus! {

/// The table that `records` make: each identifier with the name of the last
/// record that carries it.
pub open spec fn table_of(records: Seq<RecordModel>) -> Map<u32, Seq<char>>
    decreases records.len(),
{
    if records.len() == 0 {
        Map::empty()
    } else {
        table_of(records.drop_last()).insert(records.last().pid, records.last().name)
    }
}

/// Every record's process is in the table that the records make.
pub proof fn lemma_table_holds_each_record(records: Seq<RecordModel>, k: int)
    requires
        0 <= k < records.len(),
    ensures
        table_of(records).contains_key(records[k].pid),
    decreases records.len(),
{
    if k < records.len() - 1 {
        lemma_table_holds_each_record(records.drop_last(), k);
    }
}

/// The table that the records make holds nothing but records: every entry
/// is the identifier and the name of one of them.
pub proof fn lemma_table_holds_only_records(records: Seq<RecordModel>, pid: u32)
    requires
        table_of(records).contains_key(pid),
    ensures
        exists|k: int|
            0 <= k < records.len() && #[trigger] records[k] == (RecordModel {
                pid,
                name: table_of(records)[pid],
            }),
    decreases records.len(),
{
    if records.last().pid == pid {
        assert(records[records.len() - 1] == RecordModel { pid, name: table_of(records)[pid] });
    } else {
        lemma_table_holds_only_records(records.drop_last(), pid);
        let k = choose|k: int|
            0 <= k < records.len() - 1 && #[trigger] records.drop_last()[k] == (RecordModel {
                pid,
                name: table_of(records.drop_last())[pid],
            });
        assert(records[k] == RecordModel { pid, name: table_of(records)[pid] });
    }
}

/// Records that list a map, each entry of the map at least once and nothing
/// else, make that map.
pub proof fn lemma_table_of_listing(records: Seq<RecordModel>, listed: Map<u32, Seq<char>>)
    requires
        forall|k: int|
            0 <= k < records.len() ==> listed.contains_pair(
                (#[trigger] records[k]).pid,
                records[k].name,
            ),
        forall|pid: u32| #[trigger]
            listed.contains_key(pid) ==> exists|k: int|
                0 <= k < records.len() && (#[trigger] records[k]).pid == pid,
    ensures
        table_of(records) == listed,
{
    assert forall|pid: u32| listed.contains_key(pid) implies #[trigger] table_of(
        records,
    ).contains_key(pid) by {
        let k = choose|k: int| 0 <= k < records.len() && (#[trigger] records[k]).pid == pid;
        lemma_table_holds_each_record(records, k);
    }
    assert forall|pid: u32| #[trigger]
        table_of(records).contains_key(pid) implies listed.contains_pair(
        pid,
        table_of(records)[pid],
    ) by {
        lemma_table_holds_only_records(records, pid);
    }
    assert(table_of(records) =~= listed);
}

/// The names of the live processes, by process identifier.
pub struct ProcessTable {
    names: HashMap<u32, String>,
}

impl View for ProcessTable {
    type V = Map<u32, Seq<char>>;

    closed spec fn view(&self) -> Map<u32, Seq<char>> {
        Map::new(|pid: u32| self.names@.contains_key(pid), |pid: u32| self.names@[pid]@)
    }
}

impl ProcessTable {
    /// A table without any process.
    pub fn new() -> (table: ProcessTable)
        ensures
            table@ == Map::<u32, Seq<char>>::empty(),
    {
        let table = ProcessTable { names: HashMap::new() };
        assert(table@ =~= Map::<u32, Seq<char>>::empty());
        table
    }

    /// Enters `record`, in place of any earlier record of the same process.
    pub fn insert(&mut self, record: ProcessRecord)
        ensures
            final(self)@ == old(self)@.insert(record.pid, record.name@),
    {
        self.names.insert(record.pid, record.name);
        assert(self@ =~= old(self)@.insert(record.pid, record.name@));
    }

    /// The table that holds `records`.
    pub fn from_records(records: Vec<ProcessRecord>) -> (table: ProcessTable)
        ensures
            table@ == table_of(records.deep_view()),
    {
        let ghost all = records.deep_view();
        let ghost items = records@;
        let mut table = ProcessTable::new();
        for record in it: records
            invariant
                it.seq() == items,
                all.len() == items.len(),
                forall|k: int| 0 <= k < items.len() ==> all[k] == #[trigger] items[k].deep_view(),
                table@ == table_of(all.take(it.index() as int)),
        {
            proof {
                let seen = all.take(it.index() + 1);
                assert(seen.drop_last() == all.take(it.index() as int));
                assert(seen.last() == record.deep_view());
            }
            table.insert(record);
        }
        assert(all.take(all.len() as int) == all);
        table
    }

    /// The name of process `pid`, if the table holds it.
    pub fn lookup(&self, pid: u32) -> (name: Option<&String>)
        ensures
            match name {
                Some(found) => self@.contains_key(pid) && found@ == self@[pid],
                None => !self@.contains_key(pid),
            },
    {
        self.names.get(&pid)
    }
}

} // verus!
