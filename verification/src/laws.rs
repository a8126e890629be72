//! What the plans of the log store do to the storage engine, and what the
//! readers then see: the properties that connect the operations.

use crate::codec::be_bytes;
use crate::codec::be_value;
use crate::codec::lemma_bytes_of_value;
use crate::codec::lemma_decode_encode;
use crate::codec::lemma_encode_preserves_order;
use crate::codec::lemma_lex_asymmetric;
use crate::codec::lemma_lex_irreflexive;
use crate::codec::lemma_lex_transitive;
use crate::codec::lex_le;
use crate::codec::lex_lt;
use crate::engine::CommandView;
use crate::engine::EngineState;
use crate::engine::Keyspaces;
use crate::engine::MetaKey;
use crate::engine::key_range;
use crate::log_store::append_plan;
use crate::log_store::last_purged_reply;
use crate::log_store::log_state_reply;
use crate::log_store::purge_plan;
use crate::log_store::put_entry;
use crate::log_store::save_vote_plan;
use crate::log_store::scan_reply;
use crate::log_store::truncate_plan;
use crate::log_store::vote_reply;
use crate::range::LogRange;
use crate::record::entry_record;
use crate::record::lemma_entry_round_trip;
use crate::record::lemma_log_id_round_trip;
use crate::record::lemma_vote_round_trip;
use crate::record::log_id_record;
use crate::record::parse_entry;
use crate::types::LogEntryView;
use crate::types::LogId;
use crate::types::LogState;
use crate::types::StoreError;
use crate::types::Vote;
use vstd::prelude::*;

verus! {

/// The key of an index lies in a range of encoded indices exactly when the
/// index lies between the two ends.
pub proof fn lemma_key_in_range(index: u64, from: u64, to: u64)
    ensures
        key_range(be_bytes(from), be_bytes(to)).contains(be_bytes(index)) <==> from <= index < to,
{
    lemma_encode_preserves_order(from, index);
    lemma_encode_preserves_order(index, to);
}

/// Truncation removes the suffix: of the entries stored before, exactly
/// those below `from.index` are left, each with its record unchanged. The
/// metadata and what is durable are not touched.
pub proof fn lemma_truncate_removes_suffix(state: EngineState, from: LogId, index: u64)
    ensures
        state.run(truncate_plan(from)).live.has_entry(index) <==> state.live.has_entry(index)
            && index < from.index,
        state.live.has_entry(index) && index < from.index ==> state.run(
            truncate_plan(from),
        ).live.record_at(index) == state.live.record_at(index),
        state.run(truncate_plan(from)).live.meta == state.live.meta,
        state.run(truncate_plan(from)).durable == state.durable,
        state.live.keys_are_indices() ==> state.run(truncate_plan(from)).live.keys_are_indices(),
{
    let plan = truncate_plan(from);
    let first = plan[0];
    let second = plan[1];
    assert(plan =~= seq![first].push(second));
    state.lemma_run_push(seq![first], second);
    state.lemma_run_one(first);
    lemma_key_in_range(index, from.index, u64::MAX);
    lemma_encode_preserves_order(index, u64::MAX);
}

/// Purging removes the prefix: of the entries stored before, exactly those
/// above `upto.index` are left, each with its record unchanged, and the marker
/// holds `upto`, durably.
pub proof fn lemma_purge_removes_prefix(state: EngineState, upto: LogId, index: u64)
    ensures
        state.run(purge_plan(upto)).live.has_entry(index) <==> state.live.has_entry(index) && index
            > upto.index,
        state.live.has_entry(index) && index > upto.index ==> state.run(
            purge_plan(upto),
        ).live.record_at(index) == state.live.record_at(index),
        state.run(purge_plan(upto)).live.lookup(MetaKey::LastPurged) == Some(log_id_record(upto)),
        state.run(purge_plan(upto)).durable.lookup(MetaKey::LastPurged) == Some(
            log_id_record(upto),
        ),
        state.run(purge_plan(upto)).live.lookup(MetaKey::Vote) == state.live.lookup(MetaKey::Vote),
        last_purged_reply(state.run(purge_plan(upto)).live.lookup(MetaKey::LastPurged)) == Ok::<
            Option<LogId>,
            StoreError,
        >(Some(upto)),
        state.live.keys_are_indices() ==> state.run(purge_plan(upto)).live.keys_are_indices(),
{
    let plan = purge_plan(upto);
    let c0 = plan[0];
    let c1 = plan[1];
    let c2 = plan[2];
    lemma_log_id_round_trip(upto);
    state.lemma_run_one(c0);
    state.lemma_run_push(seq![c0], c1);
    state.lemma_run_push(seq![c0, c1], c2);
    assert(seq![c0].push(c1) =~= seq![c0, c1]);
    lemma_encode_preserves_order(index, u64::MAX);
    if upto.index < u64::MAX {
        assert(plan =~= seq![c0, c1].push(c2));
        lemma_key_in_range(index, 0, (upto.index + 1) as u64);
    } else {
        let c3 = plan[3];
        assert(plan =~= seq![c0, c1, c2].push(c3));
        assert(seq![c0, c1].push(c2) =~= seq![c0, c1, c2]);
        state.lemma_run_push(seq![c0, c1, c2], c3);
        lemma_key_in_range(index, 0, u64::MAX);
    }
}

/// The marker goes first: however far the engine has come with the plan of a
/// purge, as long as the marker is not durable every entry is still there.
pub proof fn lemma_purge_marks_before_it_removes(state: EngineState, upto: LogId, done: int)
    requires
        0 <= done <= purge_plan(upto).len(),
    ensures
        state.run(purge_plan(upto).subrange(0, done)).live.logs == state.live.logs
            || state.run(purge_plan(upto).subrange(0, done)).durable.lookup(MetaKey::LastPurged)
            == Some(log_id_record(upto)),
{
    let plan = purge_plan(upto);
    let c0 = plan[0];
    let c1 = plan[1];
    let c2 = plan[2];
    state.lemma_run_one(c0);
    state.lemma_run_push(seq![c0], c1);
    state.lemma_run_push(seq![c0, c1], c2);
    assert(seq![c0].push(c1) =~= seq![c0, c1]);
    assert(seq![c0, c1].push(c2) =~= seq![c0, c1, c2]);
    if done == 0 {
        assert(plan.subrange(0, 0) =~= Seq::<CommandView>::empty());
    } else if done == 1 {
        assert(plan.subrange(0, 1) =~= seq![c0]);
    } else if done == 2 {
        assert(plan.subrange(0, 2) =~= seq![c0, c1]);
    } else if done == 3 {
        assert(plan.subrange(0, 3) =~= seq![c0, c1, c2]);
    } else {
        let c3 = plan[3];
        assert(plan.subrange(0, 4) =~= seq![c0, c1, c2].push(c3));
        state.lemma_run_push(seq![c0, c1, c2], c3);
    }
}

/// Purging again, up to the same position or a lower one, is a retry of the
/// removal that finds nothing left to remove.
pub proof fn lemma_purge_again_removes_nothing(state: EngineState, upto: LogId, again: LogId)
    requires
        again.index <= upto.index,
    ensures
        state.run(purge_plan(upto)).run(purge_plan(again)).live.logs == state.run(
            purge_plan(upto),
        ).live.logs,
        again == upto ==> state.run(purge_plan(upto)).run(purge_plan(again)).live == state.run(
            purge_plan(upto),
        ).live,
{
    let once = state.run(purge_plan(upto));
    let twice = once.run(purge_plan(again));
    assert forall|k: Seq<u8>| #[trigger]
        twice.live.logs.dom().contains(k) == once.live.logs.dom().contains(k) && (
        once.live.logs.dom().contains(k) ==> twice.live.logs[k] == once.live.logs[k]) by {
        lemma_purge_keeps(state, upto, k);
        lemma_purge_keeps(once, again, k);
        lemma_encode_preserves_order(again.index, upto.index);
        if upto.index < u64::MAX && again.index < upto.index {
            lemma_encode_preserves_order((again.index + 1) as u64, (upto.index + 1) as u64);
            if lex_lt(k, be_bytes((again.index + 1) as u64)) {
                lemma_lex_transitive(
                    k,
                    be_bytes((again.index + 1) as u64),
                    be_bytes((upto.index + 1) as u64),
                );
            }
        } else if again.index < upto.index {
            lemma_encode_preserves_order((again.index + 1) as u64, u64::MAX);
            if lex_lt(k, be_bytes((again.index + 1) as u64)) && (again.index + 1) as u64
                != u64::MAX {
                lemma_lex_transitive(k, be_bytes((again.index + 1) as u64), be_bytes(u64::MAX));
            }
        }
    }
    assert(twice.live.logs =~= once.live.logs);
    if again == upto {
        lemma_purge_removes_prefix(state, upto, 0);
        lemma_purge_meta(state, upto);
        lemma_purge_meta(once, upto);
        assert(twice.live.meta =~= once.live.meta);
    }
}

/// What a purge does to a key of the log keyspace, whether or not the key is
/// an encoded index: it is kept, with its value, exactly when it does not lie
/// in the range that is removed.
pub proof fn lemma_purge_keeps(state: EngineState, upto: LogId, key: Seq<u8>)
    ensures
        state.run(purge_plan(upto)).live.logs.contains_key(key) <==> state.live.logs.contains_key(
            key,
        ) && !(if upto.index < u64::MAX {
            key_range(be_bytes(0), be_bytes((upto.index + 1) as u64)).contains(key)
        } else {
            key_range(be_bytes(0), be_bytes(u64::MAX)).contains(key) || key == be_bytes(u64::MAX)
        }),
        state.run(purge_plan(upto)).live.logs.contains_key(key) ==> state.run(
            purge_plan(upto),
        ).live.logs[key] == state.live.logs[key],
{
    let plan = purge_plan(upto);
    let c0 = plan[0];
    let c1 = plan[1];
    let c2 = plan[2];
    state.lemma_run_one(c0);
    state.lemma_run_push(seq![c0], c1);
    state.lemma_run_push(seq![c0, c1], c2);
    assert(seq![c0].push(c1) =~= seq![c0, c1]);
    if upto.index < u64::MAX {
        assert(plan =~= seq![c0, c1].push(c2));
    } else {
        let c3 = plan[3];
        assert(plan =~= seq![c0, c1, c2].push(c3));
        assert(seq![c0, c1].push(c2) =~= seq![c0, c1, c2]);
        state.lemma_run_push(seq![c0, c1, c2], c3);
    }
}

/// What a purge does to the metadata keyspace: the marker is set, and
/// nothing else.
pub proof fn lemma_purge_meta(state: EngineState, upto: LogId)
    ensures
        state.run(purge_plan(upto)).live.meta == state.live.meta.insert(
            MetaKey::LastPurged,
            log_id_record(upto),
        ),
{
    let plan = purge_plan(upto);
    let c0 = plan[0];
    let c1 = plan[1];
    let c2 = plan[2];
    state.lemma_run_one(c0);
    state.lemma_run_push(seq![c0], c1);
    state.lemma_run_push(seq![c0, c1], c2);
    assert(seq![c0].push(c1) =~= seq![c0, c1]);
    if upto.index < u64::MAX {
        assert(plan =~= seq![c0, c1].push(c2));
    } else {
        let c3 = plan[3];
        assert(plan =~= seq![c0, c1, c2].push(c3));
        assert(seq![c0, c1].push(c2) =~= seq![c0, c1, c2]);
        state.lemma_run_push(seq![c0, c1, c2], c3);
    }
}

/// A saved vote is the vote that is read back, from the running engine and
/// after a crash alike, and saving it leaves the log and the marker as they were.
pub proof fn lemma_saved_vote_is_read_back(state: EngineState, vote: Vote)
    ensures
        vote_reply(state.run(save_vote_plan(vote)).live.lookup(MetaKey::Vote)) == Ok::<
            Option<Vote>,
            StoreError,
        >(Some(vote)),
        vote_reply(state.run(save_vote_plan(vote)).crash().live.lookup(MetaKey::Vote)) == Ok::<
            Option<Vote>,
            StoreError,
        >(Some(vote)),
        state.run(save_vote_plan(vote)).live.logs == state.live.logs,
        state.run(save_vote_plan(vote)).live.lookup(MetaKey::LastPurged) == state.live.lookup(
            MetaKey::LastPurged,
        ),
{
    let plan = save_vote_plan(vote);
    let c0 = plan[0];
    let c1 = plan[1];
    assert(plan =~= seq![c0].push(c1));
    state.lemma_run_one(c0);
    state.lemma_run_push(seq![c0], c1);
    lemma_vote_round_trip(vote);
}

/// The log keyspace after `entries` have been stored in it, in order.
pub open spec fn store_entries(logs: Map<Seq<u8>, Seq<u8>>, entries: Seq<LogEntryView>) -> Map<
    Seq<u8>,
    Seq<u8>,
>
    decreases entries.len(),
{
    if entries.len() == 0 {
        logs
    } else {
        store_entries(logs, entries.drop_last()).insert(
            be_bytes(entries.last().index),
            entry_record(entries.last()),
        )
    }
}

/// Storing entries touches the log keyspace alone.
proof fn lemma_run_puts(state: EngineState, entries: Seq<LogEntryView>)
    ensures
        state.run(entries.map_values(|e: LogEntryView| put_entry(e))) == (EngineState {
            live: Keyspaces {
                logs: store_entries(state.live.logs, entries),
                meta: state.live.meta,
            },
            durable: state.durable,
        }),
    decreases entries.len(),
{
    let puts = entries.map_values(|e: LogEntryView| put_entry(e));
    if entries.len() == 0 {
        assert(state.live == Keyspaces { logs: state.live.logs, meta: state.live.meta });
    } else {
        let front = entries.drop_last();
        lemma_run_puts(state, front);
        assert(puts =~= front.map_values(|e: LogEntryView| put_entry(e)).push(
            put_entry(entries.last()),
        ));
        state.lemma_run_push(
            front.map_values(|e: LogEntryView| put_entry(e)),
            put_entry(entries.last()),
        );
    }
}

/// Appending stores every entry and makes the result durable; the metadata is
/// not touched.
pub proof fn lemma_append_stores_entries(state: EngineState, entries: Seq<LogEntryView>)
    ensures
        state.run(append_plan(entries)).live.logs == store_entries(state.live.logs, entries),
        state.run(append_plan(entries)).live.meta == state.live.meta,
        state.run(append_plan(entries)).durable == state.run(append_plan(entries)).live,
{
    lemma_run_puts(state, entries);
    state.lemma_run_push(
        entries.map_values(|e: LogEntryView| put_entry(e)),
        CommandView::FlushNotify,
    );
}

/// An append asks for one durability barrier, after the last entry has been
/// stored, and reports its outcome once: the plan ends with the only
/// notification it holds, and everything before it stores an entry.
pub proof fn lemma_append_notifies_once(entries: Seq<LogEntryView>)
    ensures
        append_plan(entries).len() == entries.len() + 1,
        append_plan(entries).last() == CommandView::FlushNotify,
        forall|i: int|
            0 <= i < entries.len() ==> #[trigger] append_plan(entries)[i] == put_entry(entries[i]),
{
}

/// After entries have been stored, a key is there exactly when it was there
/// before or is the key of one of the entries.
pub proof fn lemma_stored_keys(logs: Map<Seq<u8>, Seq<u8>>, entries: Seq<LogEntryView>, key: Seq<u8>)
    ensures
        store_entries(logs, entries).contains_key(key) <==> logs.contains_key(key) || exists|
            j: int,
        |
            0 <= j < entries.len() && be_bytes((#[trigger] entries[j]).index) == key,
    decreases entries.len(),
{
    if entries.len() > 0 {
        let front = entries.drop_last();
        lemma_stored_keys(logs, front, key);
        let last = entries.len() - 1;
        if be_bytes(entries.last().index) == key {
            assert(entries[last].index == entries.last().index);
        } else if exists|j: int|
            0 <= j < entries.len() && be_bytes((#[trigger] entries[j]).index) == key {
            let j = choose|j: int|
                0 <= j < entries.len() && be_bytes((#[trigger] entries[j]).index) == key;
            assert(front[j] == entries[j]);
        } else if exists|j: int|
            0 <= j < front.len() && be_bytes((#[trigger] front[j]).index) == key {
            let j = choose|j: int|
                0 <= j < front.len() && be_bytes((#[trigger] front[j]).index) == key;
            assert(front[j] == entries[j]);
        }
    }
}

/// Storing entries leaves every key that is not the key of one of them with
/// the value it had.
pub proof fn lemma_stored_elsewhere(
    logs: Map<Seq<u8>, Seq<u8>>,
    entries: Seq<LogEntryView>,
    key: Seq<u8>,
)
    requires
        forall|j: int| 0 <= j < entries.len() ==> be_bytes((#[trigger] entries[j]).index) != key,
    ensures
        store_entries(logs, entries)[key] == logs[key],
    decreases entries.len(),
{
    if entries.len() > 0 {
        let front = entries.drop_last();
        let last = entries.len() - 1;
        assert(entries[last] == entries.last());
        assert forall|j: int| 0 <= j < front.len() implies be_bytes((#[trigger] front[j]).index)
            != key by {
            assert(front[j] == entries[j]);
        }
        lemma_stored_elsewhere(logs, front, key);
    }
}

/// After entries have been stored, the record of an entry lies under its
/// key, unless a later entry of the batch has the same index.
pub proof fn lemma_stored_record(logs: Map<Seq<u8>, Seq<u8>>, entries: Seq<LogEntryView>, at: int)
    requires
        0 <= at < entries.len(),
        forall|l: int| at < l < entries.len() ==> (#[trigger] entries[l]).index != entries[at].index,
    ensures
        store_entries(logs, entries)[be_bytes(entries[at].index)] == entry_record(entries[at]),
    decreases entries.len(),
{
    let front = entries.drop_last();
    let last = entries.len() - 1;
    if at < last {
        assert(entries[last] == entries.last());
        lemma_encode_preserves_order(entries[at].index, entries[last].index);
        assert(front[at] == entries[at]);
        assert forall|l: int| at < l < front.len() implies (#[trigger] front[l]).index
            != front[at].index by {
            assert(front[l] == entries[l]);
        }
        lemma_stored_record(logs, front, at);
    }
}

/// The last entry appended is the last entry of the log: when every key
/// stored before sorts before the key of the last entry of the batch, and no
/// other entry of the batch has a greater index, a reverse scan after the
/// append yields the record of that entry, and the log state ends at it.
pub proof fn lemma_appended_tail_is_last(
    state: EngineState,
    entries: Seq<LogEntryView>,
    reply: Option<(Seq<u8>, Seq<u8>)>,
    last_purged: Option<Seq<u8>>,
)
    requires
        entries.len() > 0,
        forall|k: Seq<u8>|
            state.live.logs.contains_key(k) ==> lex_lt(k, be_bytes(entries.last().index)),
        forall|j: int| 0 <= j < entries.len() ==> (#[trigger] entries[j]).index <= entries.last().index,
        state.run(append_plan(entries)).live.is_last(reply),
    ensures
        reply == Some((be_bytes(entries.last().index), entry_record(entries.last()))),
        match last_purged_reply(last_purged) {
            Ok(purged) => log_state_reply(Some(reply->Some_0.1), last_purged) == Ok::<
                LogState,
                StoreError,
            >(
                LogState {
                    last_purged_log_id: purged,
                    last_log_id: Some(entries.last().log_id()),
                },
            ),
            Err(e) => log_state_reply(Some(reply->Some_0.1), last_purged) == Err::<
                LogState,
                StoreError,
            >(e),
        },
{
    let after = state.run(append_plan(entries)).live;
    let tail = entries.last();
    let tail_key = be_bytes(tail.index);
    let last = entries.len() - 1;
    lemma_append_stores_entries(state, entries);
    assert(entries[last] == tail);
    assert(after.logs.contains_key(tail_key));
    assert(after.logs[tail_key] == entry_record(tail));
    let (key, value) = reply->Some_0;
    assert(lex_le(tail_key, key));
    lemma_stored_keys(state.live.logs, entries, key);
    if state.live.logs.contains_key(key) {
        lemma_lex_asymmetric(key, tail_key);
        lemma_lex_irreflexive(key);
    } else {
        let j = choose|j: int|
            0 <= j < entries.len() && be_bytes((#[trigger] entries[j]).index) == key;
        lemma_encode_preserves_order(tail.index, entries[j].index);
    }
    assert(key == tail_key);
    lemma_entry_round_trip(tail);
}

/// A log without entries ends where it was purged: when no entry is stored,
/// a reverse scan yields nothing and the log state reports the marker as the
/// last log position.
pub proof fn lemma_empty_log_ends_at_marker(
    keys: Keyspaces,
    reply: Option<(Seq<u8>, Seq<u8>)>,
    marker: Option<LogId>,
)
    requires
        keys.keys_are_indices(),
        forall|index: u64| !keys.has_entry(index),
        keys.is_last(reply),
        marker is Some ==> keys.lookup(MetaKey::LastPurged) == Some(log_id_record(marker->Some_0)),
        marker is None ==> keys.lookup(MetaKey::LastPurged) is None,
    ensures
        reply is None,
        log_state_reply(None, keys.lookup(MetaKey::LastPurged)) == Ok::<LogState, StoreError>(
            LogState { last_purged_log_id: marker, last_log_id: marker },
        ),
{
    if reply is Some {
        let key = reply->Some_0.0;
        lemma_bytes_of_value(key);
        assert(keys.has_entry(be_value(key)));
    }
    if marker is Some {
        lemma_log_id_round_trip(marker->Some_0);
    }
}

/// Every value of the log keyspace is a well-formed entry record.
pub open spec fn records_are_entries(keys: Keyspaces) -> bool {
    forall|k: Seq<u8>| keys.logs.contains_key(k) ==> parse_entry(#[trigger] keys.logs[k]) is Some
}

/// What a scan for `range` returns when the items are those of a forward scan
/// of a sound log keyspace from the key of `low`, an index that the start of
/// the range admits.
proof fn lemma_scan_from(
    keys: Keyspaces,
    range: LogRange,
    low: u64,
    items: Seq<(Seq<u8>, Seq<u8>)>,
)
    requires
        keys.keys_are_indices(),
        records_are_entries(keys),
        range.spec_first() is Some,
        range.spec_first()->Some_0 <= low,
        keys.is_scan(be_bytes(low), items),
    ensures
        scan_reply(range, items) is Ok,
        scan_reply(range, items)->Ok_0.len() <= items.len(),
        forall|j: int|
            0 <= j < scan_reply(range, items)->Ok_0.len() ==> {
                &&& (#[trigger] items[j]).0.len() == 8
                &&& range.spec_contains(be_value(items[j].0))
                &&& parse_entry(items[j].1) == Some(scan_reply(range, items)->Ok_0[j])
            },
        forall|index: u64|
            low <= index && range.spec_contains(index) && #[trigger] keys.has_entry(index)
                ==> exists|j: int|
                0 <= j < scan_reply(range, items)->Ok_0.len() && (#[trigger] items[j]).0
                    == be_bytes(index),
    decreases items.len(),
{
    if items.len() == 0 {
        assert forall|index: u64|
            low <= index && range.spec_contains(index) && #[trigger] keys.has_entry(
                index,
            ) implies false by {
            lemma_encode_preserves_order(low, index);
            assert(keys.logs.contains_key(be_bytes(index)) && lex_le(be_bytes(low), be_bytes(index)));
        }
    } else {
        let key = items[0].0;
        let value = items[0].1;
        let first = be_value(key);
        let rest = items.drop_first();
        assert(keys.logs.contains_key(key) && keys.logs[key] == value);
        lemma_bytes_of_value(key);
        lemma_encode_preserves_order(low, first);
        assert(low <= first);
        if !range.spec_contains(first) {
            assert forall|index: u64|
                low <= index && range.spec_contains(index) && #[trigger] keys.has_entry(
                    index,
                ) implies false by {
                lemma_encode_preserves_order(low, index);
                assert(keys.logs.contains_key(be_bytes(index)) && lex_le(
                    be_bytes(low),
                    be_bytes(index),
                ));
                let j = choose|j: int| 0 <= j < items.len() && (#[trigger] items[j]).0 == be_bytes(
                    index,
                );
                if j > 0 {
                    assert(lex_lt(items[0].0, items[j].0));
                }
                lemma_encode_preserves_order(first, index);
                range.lemma_below_member(first, index);
            }
        } else {
            let entry = parse_entry(value)->Some_0;
            assert forall|i: int| 0 <= i < rest.len() implies first < be_value(
                (#[trigger] rest[i]).0,
            ) && be_bytes(be_value(rest[i].0)) == rest[i].0 by {
                assert(rest[i] == items[i + 1]);
                assert(lex_lt(items[0].0, items[i + 1].0));
                lemma_bytes_of_value(rest[i].0);
                lemma_encode_preserves_order(first, be_value(rest[i].0));
            }
            if first == u64::MAX {
                assert(rest.len() == 0) by {
                    if rest.len() > 0 {
                        assert(first < be_value(rest[0].0));
                    }
                }
                assert(scan_reply(range, rest) == Ok::<Seq<LogEntryView>, StoreError>(
                    Seq::empty(),
                ));
            } else {
                let next = (first + 1) as u64;
                assert(keys.is_scan(be_bytes(next), rest)) by {
                    assert forall|i: int| 0 <= i < rest.len() implies {
                        &&& lex_le(be_bytes(next), (#[trigger] rest[i]).0)
                        &&& keys.logs.contains_key(rest[i].0)
                        &&& keys.logs[rest[i].0] == rest[i].1
                    } by {
                        assert(rest[i] == items[i + 1]);
                        lemma_encode_preserves_order(next, be_value(rest[i].0));
                    }
                    assert forall|i: int, j: int| 0 <= i < j < rest.len() implies lex_lt(
                        (#[trigger] rest[i]).0,
                        (#[trigger] rest[j]).0,
                    ) by {
                        assert(rest[i] == items[i + 1]);
                        assert(rest[j] == items[j + 1]);
                    }
                    assert forall|k: Seq<u8>|
                        keys.logs.contains_key(k) && lex_le(be_bytes(next), k) implies exists|
                        i: int,
                    |
                        0 <= i < rest.len() && (#[trigger] rest[i]).0 == k by {
                        lemma_bytes_of_value(k);
                        let v = be_value(k);
                        assert(be_bytes(v) == k);
                        lemma_encode_preserves_order(next, v);
                        lemma_encode_preserves_order(low, v);
                        lemma_encode_preserves_order(first, v);
                        assert(next <= v);
                        assert(lex_le(be_bytes(low), k));
                        let i = choose|i: int| 0 <= i < items.len() && (#[trigger] items[i]).0 == k;
                        assert(i > 0);
                        assert(rest[i - 1] == items[i]);
                    }
                }
                lemma_scan_from(keys, range, next, rest);
            }
            let tail = scan_reply(range, rest)->Ok_0;
            let all = seq![entry] + tail;
            assert(scan_reply(range, items) == Ok::<Seq<LogEntryView>, StoreError>(all));
            assert forall|j: int| 0 <= j < all.len() implies {
                &&& (#[trigger] items[j]).0.len() == 8
                &&& range.spec_contains(be_value(items[j].0))
                &&& parse_entry(items[j].1) == Some(all[j])
            } by {
                if j > 0 {
                    assert(rest[j - 1] == items[j]);
                    assert(all[j] == tail[j - 1]);
                }
            }
            assert forall|index: u64|
                low <= index && range.spec_contains(index) && #[trigger] keys.has_entry(
                    index,
                ) implies exists|j: int|
                0 <= j < all.len() && (#[trigger] items[j]).0 == be_bytes(index) by {
                if index == first {
                    assert(items[0].0 == be_bytes(index));
                } else {
                    lemma_encode_preserves_order(low, index);
                    assert(keys.logs.contains_key(be_bytes(index)) && lex_le(
                        be_bytes(low),
                        be_bytes(index),
                    ));
                    let at = choose|j: int|
                        0 <= j < items.len() && (#[trigger] items[j]).0 == be_bytes(index);
                    lemma_encode_preserves_order(first, index);
                    assert(at > 0);
                    assert(lex_lt(items[0].0, items[at].0));
                    assert(first < index);
                    let j = choose|j: int|
                        0 <= j < tail.len() && (#[trigger] rest[j]).0 == be_bytes(index);
                    assert(rest[j] == items[j + 1]);
                }
            }
        }
    }
}

/// Reading a range returns exactly the entries of the range, in ascending
/// order of index: when the items are those of a forward scan of a sound log
/// keyspace from the start of the range, the answer holds the entries of a
/// prefix of the items, each with its index in the range, and every stored
/// entry with its index in the range is among them.
pub proof fn lemma_read_range_is_exact(
    keys: Keyspaces,
    range: LogRange,
    items: Seq<(Seq<u8>, Seq<u8>)>,
)
    requires
        keys.keys_are_indices(),
        records_are_entries(keys),
        range.spec_first() is Some,
        keys.is_scan(be_bytes(range.spec_first()->Some_0), items),
    ensures
        scan_reply(range, items) is Ok,
        scan_reply(range, items)->Ok_0.len() <= items.len(),
        forall|j: int|
            0 <= j < scan_reply(range, items)->Ok_0.len() ==> {
                &&& (#[trigger] items[j]).0.len() == 8
                &&& range.spec_contains(be_value(items[j].0))
                &&& parse_entry(items[j].1) == Some(scan_reply(range, items)->Ok_0[j])
            },
        forall|index: u64|
            range.spec_contains(index) && #[trigger] keys.has_entry(index) ==> exists|j: int|
                0 <= j < scan_reply(range, items)->Ok_0.len() && (#[trigger] items[j]).0
                    == be_bytes(index),
{
    lemma_scan_from(keys, range, range.spec_first()->Some_0, items);
    assert forall|index: u64| range.spec_contains(index) implies range.spec_first()->Some_0
        <= index by {
        range.lemma_first(index);
    }
}

/// What a truncation does to a key of the log keyspace, whether or not the
/// key is an encoded index: it is kept, with its value, exactly when it does
/// not lie in the range that is removed.
pub proof fn lemma_truncate_keeps(state: EngineState, from: LogId, key: Seq<u8>)
    ensures
        state.run(truncate_plan(from)).live.logs.contains_key(key)
            <==> state.live.logs.contains_key(key) && !key_range(
            be_bytes(from.index),
            be_bytes(u64::MAX),
        ).contains(key) && key != be_bytes(u64::MAX),
        state.run(truncate_plan(from)).live.logs.contains_key(key) ==> state.run(
            truncate_plan(from),
        ).live.logs[key] == state.live.logs[key],
{
    let plan = truncate_plan(from);
    let first = plan[0];
    let second = plan[1];
    assert(plan =~= seq![first].push(second));
    state.lemma_run_push(seq![first], second);
    state.lemma_run_one(first);
}

/// Every value that lies in the log keyspace after entries have been stored
/// was there before or is the record of one of the entries, under its key.
pub proof fn lemma_stored_value(logs: Map<Seq<u8>, Seq<u8>>, entries: Seq<LogEntryView>, key: Seq<u8>)
    requires
        store_entries(logs, entries).contains_key(key),
    ensures
        (logs.contains_key(key) && store_entries(logs, entries)[key] == logs[key]) || exists|
            j: int,
        |
            0 <= j < entries.len() && be_bytes((#[trigger] entries[j]).index) == key
                && store_entries(logs, entries)[key] == entry_record(entries[j]),
    decreases entries.len(),
{
    if entries.len() > 0 {
        let front = entries.drop_last();
        let last = entries.len() - 1;
        if be_bytes(entries.last().index) == key {
            assert(entries[last] == entries.last());
        } else {
            lemma_stored_value(logs, front, key);
            if !(logs.contains_key(key) && store_entries(logs, front)[key] == logs[key]) {
                let j = choose|j: int|
                    0 <= j < front.len() && be_bytes((#[trigger] front[j]).index) == key
                        && store_entries(logs, front)[key] == entry_record(front[j]);
                assert(front[j] == entries[j]);
            }
        }
    }
}

/// The three writing operations keep a sound log keyspace sound: when every
/// key is an encoded index and every value an entry record before, the same
/// holds after an append, a truncation or a purge.
pub proof fn lemma_plans_keep_the_log_sound(
    state: EngineState,
    entries: Seq<LogEntryView>,
    id: LogId,
)
    requires
        state.live.keys_are_indices(),
        records_are_entries(state.live),
    ensures
        state.run(append_plan(entries)).live.keys_are_indices(),
        records_are_entries(state.run(append_plan(entries)).live),
        state.run(truncate_plan(id)).live.keys_are_indices(),
        records_are_entries(state.run(truncate_plan(id)).live),
        state.run(purge_plan(id)).live.keys_are_indices(),
        records_are_entries(state.run(purge_plan(id)).live),
{
    let appended = state.run(append_plan(entries)).live;
    lemma_append_stores_entries(state, entries);
    assert forall|k: Seq<u8>| #[trigger] appended.logs.contains_key(k) implies k.len() == 8
        && parse_entry(appended.logs[k]) is Some by {
        lemma_stored_value(state.live.logs, entries, k);
        if !(state.live.logs.contains_key(k) && appended.logs[k] == state.live.logs[k]) {
            let j = choose|j: int|
                0 <= j < entries.len() && be_bytes((#[trigger] entries[j]).index) == k
                    && appended.logs[k] == entry_record(entries[j]);
            lemma_decode_encode(entries[j].index);
            lemma_entry_round_trip(entries[j]);
        }
    }
    let truncated = state.run(truncate_plan(id)).live;
    assert forall|k: Seq<u8>| #[trigger] truncated.logs.contains_key(k) implies k.len() == 8
        && parse_entry(truncated.logs[k]) is Some by {
        lemma_truncate_keeps(state, id, k);
    }
    let purged = state.run(purge_plan(id)).live;
    assert forall|k: Seq<u8>| #[trigger] purged.logs.contains_key(k) implies k.len() == 8
        && parse_entry(purged.logs[k]) is Some by {
        lemma_purge_keeps(state, id, k);
    }
}

/// After a purge, reading a range returns none of the purged entries and
/// all of the others: every entry returned has an index above `upto.index`,
/// and every entry of the range that was stored before with such an index is
/// returned as it was stored.
pub proof fn lemma_read_after_purge(
    state: EngineState,
    upto: LogId,
    range: LogRange,
    items: Seq<(Seq<u8>, Seq<u8>)>,
)
    requires
        state.live.keys_are_indices(),
        records_are_entries(state.live),
        range.spec_first() is Some,
        state.run(purge_plan(upto)).live.is_scan(be_bytes(range.spec_first()->Some_0), items),
    ensures
        scan_reply(range, items) is Ok,
        forall|j: int|
            0 <= j < scan_reply(range, items)->Ok_0.len() ==> be_value((#[trigger] items[j]).0)
                > upto.index,
        forall|index: u64|
            range.spec_contains(index) && index > upto.index && #[trigger] state.live.has_entry(
                index,
            ) ==> exists|j: int|
                0 <= j < scan_reply(range, items)->Ok_0.len() && (#[trigger] items[j]).0
                    == be_bytes(index) && parse_entry(state.live.record_at(index)) == Some(
                    scan_reply(range, items)->Ok_0[j],
                ),
{
    let after = state.run(purge_plan(upto)).live;
    lemma_plans_keep_the_log_sound(state, Seq::empty(), upto);
    lemma_read_range_is_exact(after, range, items);
    let found = scan_reply(range, items)->Ok_0;
    assert forall|j: int| 0 <= j < found.len() implies be_value((#[trigger] items[j]).0)
        > upto.index by {
        let key = items[j].0;
        lemma_bytes_of_value(key);
        assert(after.logs.contains_key(key));
        lemma_purge_removes_prefix(state, upto, be_value(key));
        assert(after.has_entry(be_value(key)));
    }
    assert forall|index: u64|
        range.spec_contains(index) && index > upto.index && #[trigger] state.live.has_entry(
            index,
        ) implies exists|j: int|
        0 <= j < found.len() && (#[trigger] items[j]).0 == be_bytes(index) && parse_entry(
            state.live.record_at(index),
        ) == Some(found[j]) by {
        lemma_purge_removes_prefix(state, upto, index);
        assert(after.has_entry(index));
        let j = choose|j: int| 0 <= j < found.len() && (#[trigger] items[j]).0 == be_bytes(index);
        assert(after.logs[items[j].0] == items[j].1);
    }
}

/// After a truncation, reading a range returns none of the entries of the
/// suffix and all of the others: every entry returned has an index below
/// `from.index`, and every entry of the range that was stored before with
/// such an index is returned as it was stored.
pub proof fn lemma_read_after_truncate(
    state: EngineState,
    from: LogId,
    range: LogRange,
    items: Seq<(Seq<u8>, Seq<u8>)>,
)
    requires
        state.live.keys_are_indices(),
        records_are_entries(state.live),
        range.spec_first() is Some,
        state.run(truncate_plan(from)).live.is_scan(be_bytes(range.spec_first()->Some_0), items),
    ensures
        scan_reply(range, items) is Ok,
        forall|j: int|
            0 <= j < scan_reply(range, items)->Ok_0.len() ==> be_value((#[trigger] items[j]).0)
                < from.index,
        forall|index: u64|
            range.spec_contains(index) && index < from.index && #[trigger] state.live.has_entry(
                index,
            ) ==> exists|j: int|
                0 <= j < scan_reply(range, items)->Ok_0.len() && (#[trigger] items[j]).0
                    == be_bytes(index) && parse_entry(state.live.record_at(index)) == Some(
                    scan_reply(range, items)->Ok_0[j],
                ),
{
    let after = state.run(truncate_plan(from)).live;
    lemma_plans_keep_the_log_sound(state, Seq::empty(), from);
    lemma_read_range_is_exact(after, range, items);
    let found = scan_reply(range, items)->Ok_0;
    assert forall|j: int| 0 <= j < found.len() implies be_value((#[trigger] items[j]).0)
        < from.index by {
        let key = items[j].0;
        lemma_bytes_of_value(key);
        assert(after.logs.contains_key(key));
        lemma_truncate_removes_suffix(state, from, be_value(key));
        assert(after.has_entry(be_value(key)));
    }
    assert forall|index: u64|
        range.spec_contains(index) && index < from.index && #[trigger] state.live.has_entry(
            index,
        ) implies exists|j: int|
        0 <= j < found.len() && (#[trigger] items[j]).0 == be_bytes(index) && parse_entry(
            state.live.record_at(index),
        ) == Some(found[j]) by {
        lemma_truncate_removes_suffix(state, from, index);
        assert(after.has_entry(index));
        let j = choose|j: int| 0 <= j < found.len() && (#[trigger] items[j]).0 == be_bytes(index);
        assert(after.logs[items[j].0] == items[j].1);
    }
}

/// After an append, reading a range returns the appended entries of the
/// range: an entry of the batch whose index lies in the range, and which no
/// later entry of the batch replaces, is among the entries returned.
pub proof fn lemma_read_after_append(
    state: EngineState,
    entries: Seq<LogEntryView>,
    range: LogRange,
    items: Seq<(Seq<u8>, Seq<u8>)>,
    at: int,
)
    requires
        state.live.keys_are_indices(),
        records_are_entries(state.live),
        range.spec_first() is Some,
        state.run(append_plan(entries)).live.is_scan(be_bytes(range.spec_first()->Some_0), items),
        0 <= at < entries.len(),
        range.spec_contains(entries[at].index),
        forall|l: int| at < l < entries.len() ==> (#[trigger] entries[l]).index != entries[at].index,
    ensures
        scan_reply(range, items) is Ok,
        exists|j: int|
            0 <= j < scan_reply(range, items)->Ok_0.len() && scan_reply(range, items)->Ok_0[j]
                == entries[at],
{
    let after = state.run(append_plan(entries)).live;
    let index = entries[at].index;
    lemma_plans_keep_the_log_sound(state, entries, LogId { term: 0, index: 0 });
    lemma_read_range_is_exact(after, range, items);
    lemma_append_stores_entries(state, entries);
    lemma_stored_keys(state.live.logs, entries, be_bytes(index));
    lemma_stored_record(state.live.logs, entries, at);
    lemma_entry_round_trip(entries[at]);
    assert(after.has_entry(index));
    let found = scan_reply(range, items)->Ok_0;
    let j = choose|j: int| 0 <= j < found.len() && (#[trigger] items[j]).0 == be_bytes(index);
    assert(after.logs[items[j].0] == items[j].1);
    assert(found[j] == entries[at]);
}

} // verus!
