use kv_store::codec::id_to_bin;
use kv_store::engine::Command;
use kv_store::engine::Keyspace;
use kv_store::engine::MetaKey;
use kv_store::log_store::append;
use kv_store::log_store::get_log_state;
use kv_store::log_store::last_log_id;
use kv_store::log_store::purge;
use kv_store::log_store::read_last_purged;
use kv_store::log_store::read_vote;
use kv_store::log_store::save_vote;
use kv_store::log_store::scan_item;
use kv_store::log_store::scan_start;
use kv_store::log_store::truncate;
use kv_store::log_store::try_get_log_entries;
use kv_store::range::Bound;
use kv_store::range::LogRange;
use kv_store::record::encode_entry;
use kv_store::record::encode_log_id;
use kv_store::record::encode_vote;
use kv_store::types::Corruption;
use kv_store::types::LogEntry;
use kv_store::types::LogId;
use kv_store::types::LogState;
use kv_store::types::StoreError;
use kv_store::types::Vote;
use std::collections::BTreeMap;

/// An ordered key-value engine held in memory: it carries out the commands
/// of a plan and answers the three questions the log store asks.
#[derive(Clone, Default)]
struct Engine {
    logs: BTreeMap<Vec<u8>, Vec<u8>>,
    meta: BTreeMap<String, Vec<u8>>,
    durable_logs: BTreeMap<Vec<u8>, Vec<u8>>,
    durable_meta: BTreeMap<String, Vec<u8>>,
    notified: usize,
}

impl Engine {
    fn run(&mut self, plan: &[Command]) {
        for command in plan {
            match command {
                Command::PutMeta { name, value } => {
                    self.meta.insert(name.name().to_string(), value.clone());
                }
                Command::PutLog { key, value } => {
                    self.logs.insert(key.clone(), value.clone());
                }
                Command::DeleteLog { key } => {
                    self.logs.remove(key);
                }
                Command::DeleteLogRange { from, to } => {
                    self.logs.retain(|k, _| !(from <= k && k < to));
                }
                Command::Flush => {
                    self.durable_logs = self.logs.clone();
                    self.durable_meta = self.meta.clone();
                }
                Command::FlushNotify => {
                    self.durable_logs = self.logs.clone();
                    self.durable_meta = self.meta.clone();
                    self.notified += 1;
                }
            }
        }
    }

    fn crash(&mut self) {
        self.logs = self.durable_logs.clone();
        self.meta = self.durable_meta.clone();
    }

    fn lookup(&self, name: MetaKey) -> Option<Vec<u8>> {
        self.meta.get(name.name()).cloned()
    }

    fn last(&self) -> Option<Vec<u8>> {
        self.logs.iter().next_back().map(|(_, v)| v.clone())
    }

    fn scan(&self, start: &[u8]) -> Vec<(Vec<u8>, Vec<u8>)> {
        self.logs
            .range(start.to_vec()..)
            .map(|(k, v)| (k.clone(), v.clone()))
            .collect()
    }

    fn read_range(&self, range: LogRange) -> Result<Vec<LogEntry>, StoreError> {
        match scan_start(&range) {
            None => Ok(Vec::new()),
            Some(start) => try_get_log_entries(&range, &self.scan(&start)),
        }
    }

    fn log_state(&self) -> Result<LogState, StoreError> {
        get_log_state(&self.last(), &self.lookup(MetaKey::LastPurged))
    }
}

fn entry(index: u64, term: u64, payload: &[u8]) -> LogEntry {
    LogEntry { index, term, payload: payload.to_vec() }
}

fn entries(from: u64, to: u64) -> Vec<LogEntry> {
    (from..=to).map(|i| entry(i, 1, format!("payload-{}", i).as_bytes())).collect()
}

fn closed(from: u64, to: u64) -> LogRange {
    LogRange { start: Bound::Included(from), end: Bound::Included(to) }
}

#[test]
fn keyspaces_and_metadata_have_their_names() {
    assert_eq!(Keyspace::Logs.name(), "logs");
    assert_eq!(Keyspace::Meta.name(), "meta");
    assert_eq!(MetaKey::Vote.name(), "vote");
    assert_eq!(MetaKey::LastPurged.name(), "last_purged_log_id");
}

#[test]
fn append_stores_each_entry_then_notifies_once() {
    let batch = vec![entry(5, 1, b"a"), entry(6, 1, b"b")];
    let plan = append(&batch);
    assert_eq!(
        plan,
        vec![
            Command::PutLog { key: id_to_bin(5), value: encode_entry(&batch[0]) },
            Command::PutLog { key: id_to_bin(6), value: encode_entry(&batch[1]) },
            Command::FlushNotify,
        ]
    );
    assert_eq!(append(&vec![]), vec![Command::FlushNotify]);
}

#[test]
fn truncate_removes_from_the_index_to_the_end() {
    assert_eq!(
        truncate(LogId { term: 1, index: 6 }),
        vec![
            Command::DeleteLogRange { from: id_to_bin(6), to: id_to_bin(u64::MAX) },
            Command::DeleteLog { key: id_to_bin(u64::MAX) },
        ]
    );
}

#[test]
fn purge_writes_the_marker_before_it_removes() {
    let upto = LogId { term: 1, index: 10 };
    assert_eq!(
        purge(upto),
        vec![
            Command::PutMeta { name: MetaKey::LastPurged, value: encode_log_id(upto) },
            Command::Flush,
            Command::DeleteLogRange { from: id_to_bin(0), to: id_to_bin(11) },
        ]
    );
}

#[test]
fn purge_up_to_the_greatest_index_removes_everything() {
    let upto = LogId { term: 1, index: u64::MAX };
    assert_eq!(
        purge(upto),
        vec![
            Command::PutMeta { name: MetaKey::LastPurged, value: encode_log_id(upto) },
            Command::Flush,
            Command::DeleteLogRange { from: id_to_bin(0), to: id_to_bin(u64::MAX) },
            Command::DeleteLog { key: id_to_bin(u64::MAX) },
        ]
    );
    let mut engine = Engine::default();
    engine.run(&append(&vec![entry(0, 1, b"x"), entry(u64::MAX, 1, b"y")]));
    engine.run(&purge(upto));
    assert!(engine.logs.is_empty());
}

#[test]
fn save_vote_stores_and_flushes() {
    let vote = Vote { term: 3, voted_for: Some(1) };
    assert_eq!(
        save_vote(&vote),
        vec![
            Command::PutMeta { name: MetaKey::Vote, value: encode_vote(&vote) },
            Command::Flush,
        ]
    );
}

#[test]
fn append_then_log_state_ends_at_the_last_entry() {
    let mut engine = Engine::default();
    engine.run(&append(&vec![entry(5, 2, b"a"), entry(6, 2, b"b"), entry(7, 3, b"c")]));
    let state = engine.log_state().unwrap();
    assert_eq!(state.last_log_id, Some(LogId { term: 3, index: 7 }));
    assert_eq!(state.last_purged_log_id, None);
}

#[test]
fn each_append_notifies_once_in_order() {
    let mut engine = Engine::default();
    engine.run(&append(&entries(1, 3)));
    assert_eq!(engine.notified, 1);
    engine.run(&append(&entries(4, 4)));
    assert_eq!(engine.notified, 2);
    engine.run(&append(&vec![]));
    assert_eq!(engine.notified, 3);
}

#[test]
fn appended_entries_survive_a_crash_once_notified() {
    let mut engine = Engine::default();
    engine.run(&append(&entries(1, 3)));
    engine.crash();
    assert_eq!(engine.read_range(closed(1, 3)), Ok(entries(1, 3)));
}

#[test]
fn purge_removes_the_prefix_and_moves_the_marker() {
    let mut engine = Engine::default();
    engine.run(&append(&entries(1, 20)));
    engine.run(&purge(LogId { term: 1, index: 10 }));
    assert_eq!(engine.read_range(closed(0, 10)), Ok(vec![]));
    assert_eq!(engine.read_range(closed(11, 20)), Ok(entries(11, 20)));
    let state = engine.log_state().unwrap();
    assert_eq!(state.last_purged_log_id, Some(LogId { term: 1, index: 10 }));
    assert_eq!(state.last_log_id, Some(LogId { term: 1, index: 20 }));
    // with the rest removed too, the log ends where it was purged
    engine.run(&truncate(LogId { term: 1, index: 11 }));
    let state = engine.log_state().unwrap();
    assert_eq!(state.last_purged_log_id, Some(LogId { term: 1, index: 10 }));
    assert_eq!(state.last_log_id, Some(LogId { term: 1, index: 10 }));
}

#[test]
fn purge_again_is_a_harmless_retry() {
    let mut engine = Engine::default();
    engine.run(&append(&entries(1, 20)));
    engine.run(&purge(LogId { term: 1, index: 10 }));
    let once = engine.logs.clone();
    engine.run(&purge(LogId { term: 1, index: 10 }));
    assert_eq!(engine.logs, once);
    engine.run(&purge(LogId { term: 1, index: 4 }));
    assert_eq!(engine.logs, once);
}

#[test]
fn marker_is_durable_before_anything_is_removed() {
    let mut engine = Engine::default();
    engine.run(&append(&entries(1, 5)));
    let plan = purge(LogId { term: 1, index: 3 });
    for done in 0..=plan.len() {
        let mut partial = engine.clone();
        partial.run(&plan[..done]);
        let removed = partial.logs.len() < 5;
        partial.crash();
        if removed {
            assert_eq!(
                read_last_purged(&partial.lookup(MetaKey::LastPurged)),
                Ok(Some(LogId { term: 1, index: 3 }))
            );
        }
    }
}

#[test]
fn truncate_removes_the_suffix() {
    let mut engine = Engine::default();
    engine.run(&append(&entries(1, 10)));
    engine.run(&truncate(LogId { term: 1, index: 6 }));
    let all = LogRange { start: Bound::Unbounded, end: Bound::Unbounded };
    assert_eq!(engine.read_range(all), Ok(entries(1, 5)));
    // a new suffix that starts at the same index becomes the tail
    engine.run(&append(&vec![entry(6, 2, b"new")]));
    assert_eq!(engine.read_range(closed(6, 6)), Ok(vec![entry(6, 2, b"new")]));
    assert_eq!(engine.log_state().unwrap().last_log_id, Some(LogId { term: 2, index: 6 }));
}

#[test]
fn truncate_reaches_the_greatest_index() {
    let mut engine = Engine::default();
    engine.run(&append(&vec![entry(3, 1, b"x"), entry(u64::MAX, 1, b"y")]));
    engine.run(&truncate(LogId { term: 1, index: 4 }));
    let all = LogRange { start: Bound::Unbounded, end: Bound::Unbounded };
    assert_eq!(engine.read_range(all), Ok(vec![entry(3, 1, b"x")]));
}

#[test]
fn saved_vote_is_read_back() {
    let mut engine = Engine::default();
    assert_eq!(read_vote(&engine.lookup(MetaKey::Vote)), Ok(None));
    let vote = Vote { term: 3, voted_for: Some(1) };
    engine.run(&save_vote(&vote));
    // a fresh handle over the same storage sees what is durable
    engine.crash();
    assert_eq!(read_vote(&engine.lookup(MetaKey::Vote)), Ok(Some(vote)));
    // a later vote overwrites it
    let later = Vote { term: 4, voted_for: None };
    engine.run(&save_vote(&later));
    assert_eq!(read_vote(&engine.lookup(MetaKey::Vote)), Ok(Some(later)));
}

#[test]
fn append_read_purge_read() {
    let mut engine = Engine::default();
    let plan = append(&vec![entry(1, 1, b"a")]);
    engine.run(&plan);
    assert_eq!(engine.notified, 1);
    assert_eq!(engine.read_range(closed(1, 1)), Ok(vec![entry(1, 1, b"a")]));
    engine.run(&purge(LogId { term: 1, index: 1 }));
    assert_eq!(engine.read_range(closed(1, 1)), Ok(vec![]));
    assert_eq!(
        engine.log_state().unwrap().last_purged_log_id,
        Some(LogId { term: 1, index: 1 })
    );
}

#[test]
fn empty_store_has_no_log_state() {
    let engine = Engine::default();
    assert_eq!(
        engine.log_state(),
        Ok(LogState { last_purged_log_id: None, last_log_id: None })
    );
    assert_eq!(get_log_state(&None, &None), Ok(LogState { last_purged_log_id: None, last_log_id: None }));
}

#[test]
fn log_state_prefers_the_last_entry_to_the_marker() {
    let last = Some(encode_entry(&entry(9, 4, b"z")));
    let marker = Some(encode_log_id(LogId { term: 2, index: 5 }));
    assert_eq!(
        get_log_state(&last, &marker),
        Ok(LogState {
            last_purged_log_id: Some(LogId { term: 2, index: 5 }),
            last_log_id: Some(LogId { term: 4, index: 9 }),
        })
    );
    assert_eq!(
        get_log_state(&None, &marker),
        Ok(LogState {
            last_purged_log_id: Some(LogId { term: 2, index: 5 }),
            last_log_id: Some(LogId { term: 2, index: 5 }),
        })
    );
}

#[test]
fn corrupt_records_fail_the_log_state() {
    let marker = Some(encode_log_id(LogId { term: 2, index: 5 }));
    assert_eq!(
        get_log_state(&Some(vec![1, 2, 3]), &marker),
        Err(StoreError::DecodeFailure(Corruption::Entry))
    );
    assert_eq!(
        get_log_state(&None, &Some(vec![1, 2, 3])),
        Err(StoreError::DecodeFailure(Corruption::LogId))
    );
    // the last entry is looked at first
    assert_eq!(
        get_log_state(&Some(vec![]), &Some(vec![])),
        Err(StoreError::DecodeFailure(Corruption::Entry))
    );
    assert_eq!(last_log_id(&Some(vec![0u8; 15])), Err(StoreError::DecodeFailure(Corruption::Entry)));
    assert_eq!(last_log_id(&None), Ok(None));
    assert_eq!(read_last_purged(&None), Ok(None));
    assert_eq!(read_vote(&Some(vec![9])), Err(StoreError::DecodeFailure(Corruption::Vote)));
}

#[test]
fn scan_starts_at_the_first_index_of_the_range() {
    assert_eq!(scan_start(&closed(5, 7)), Some(id_to_bin(5)));
    let range = LogRange { start: Bound::Excluded(5), end: Bound::Unbounded };
    assert_eq!(scan_start(&range), Some(id_to_bin(6)));
    let range = LogRange { start: Bound::Unbounded, end: Bound::Excluded(3) };
    assert_eq!(scan_start(&range), Some(id_to_bin(0)));
    let range = LogRange { start: Bound::Excluded(u64::MAX), end: Bound::Unbounded };
    assert_eq!(scan_start(&range), None);
}

#[test]
fn scan_stops_at_the_first_index_outside_the_range() {
    let range = closed(2, 3);
    let e2 = entry(2, 1, b"two");
    assert_eq!(scan_item(&range, &id_to_bin(2), &encode_entry(&e2)), Ok(Some(e2.clone())));
    assert_eq!(scan_item(&range, &id_to_bin(4), &encode_entry(&entry(4, 1, b""))), Ok(None));
    // what follows the first item outside the range is not looked at
    let items = vec![
        (id_to_bin(2), encode_entry(&e2)),
        (id_to_bin(4), vec![]),
        (id_to_bin(3), encode_entry(&entry(3, 1, b"late"))),
    ];
    assert_eq!(try_get_log_entries(&range, &items), Ok(vec![e2]));
    assert_eq!(try_get_log_entries(&range, &vec![]), Ok(vec![]));
}

#[test]
fn scan_fails_on_corrupt_items() {
    let range = closed(1, 9);
    assert_eq!(
        scan_item(&range, &[0, 0, 1], &[]),
        Err(StoreError::DecodeFailure(Corruption::Key))
    );
    assert_eq!(
        scan_item(&range, &[0u8; 9], &encode_entry(&entry(0, 1, b""))),
        Err(StoreError::DecodeFailure(Corruption::Key))
    );
    assert_eq!(
        scan_item(&range, &id_to_bin(1), &[0u8; 7]),
        Err(StoreError::DecodeFailure(Corruption::Entry))
    );
    let items = vec![
        (id_to_bin(1), encode_entry(&entry(1, 1, b"ok"))),
        (id_to_bin(2), vec![0u8; 3]),
    ];
    assert_eq!(
        try_get_log_entries(&range, &items),
        Err(StoreError::DecodeFailure(Corruption::Entry))
    );
}

#[test]
fn read_range_takes_a_window_of_the_log() {
    let mut engine = Engine::default();
    engine.run(&append(&entries(1, 10)));
    assert_eq!(engine.read_range(closed(3, 5)), Ok(entries(3, 5)));
    let range = LogRange { start: Bound::Excluded(8), end: Bound::Unbounded };
    assert_eq!(engine.read_range(range), Ok(entries(9, 10)));
    let range = LogRange { start: Bound::Unbounded, end: Bound::Excluded(3) };
    assert_eq!(engine.read_range(range), Ok(entries(1, 2)));
    assert_eq!(engine.read_range(closed(11, 20)), Ok(vec![]));
    // indices that differ in a high byte keep their order
    let mut engine = Engine::default();
    engine.run(&append(&vec![entry(255, 1, b"a"), entry(256, 1, b"b"), entry(65536, 1, b"c")]));
    assert_eq!(
        engine.read_range(closed(0, u64::MAX)),
        Ok(vec![entry(255, 1, b"a"), entry(256, 1, b"b"), entry(65536, 1, b"c")])
    );
}
