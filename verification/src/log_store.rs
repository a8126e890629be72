//! The log store: a durable, ordered sequence of log entries keyed by index,
//! with the last purged position and the current vote kept beside it.
//!
//! Each writing operation is a plan: the commands that the storage engine has
//! to carry out, in order, stopping at the first one that fails; the failure
//! is then what the operation returns, as `read_logs_err` gives it. Each
//! reading operation takes what the engine returned and turns it into the
//! answer.
//!
//! The store does not serialise concurrent writers and keeps no copy of the
//! log in memory. It does not enforce the order of the boundaries either: a
//! truncation does not look at the purge marker, so the caller keeps it above
//! the marker, and a purge at or below the marker is a retry of the removal.
//! A key of the log keyspace that is not eight bytes long is reported as
//! corrupt.

use crate::codec::be_bytes;
use crate::codec::be_value;
use crate::codec::bin_to_id;
use crate::codec::id_to_bin;
use crate::engine::Command;
use crate::engine::CommandView;
use crate::engine::MetaKey;
use crate::engine::plan_view;
use crate::range::LogRange;
use crate::record::decode_entry;
use crate::record::decode_log_id;
use crate::record::decode_vote;
use crate::record::encode_entry;
use crate::record::encode_log_id;
use crate::record::encode_vote;
use crate::record::entry_record;
use crate::record::log_id_record;
use crate::record::parse_entry;
use crate::record::parse_log_id;
use crate::record::parse_vote;
use crate::record::vote_record;
use crate::types::Corruption;
use crate::types::LogEntry;
use crate::types::LogEntryView;
use crate::types::LogId;
use crate::types::LogState;
use crate::types::StoreError;
use crate::types::Vote;
use vstd::prelude::*;

verus! {

/// The entries of a batch as mathematical values.
pub open spec fn entry_views(entries: Seq<LogEntry>) -> Seq<LogEntryView> {
    entries.map_values(|e: LogEntry| e@)
}

/// The command that stores one entry under its encoded index.
pub open spec fn put_entry(entry: LogEntryView) -> CommandView {
    CommandView::PutLog { key: be_bytes(entry.index), value: entry_record(entry) }
}

/// The plan of `append`: every entry is stored, in the order given, and then
/// one durability barrier is forced whose outcome goes to the completion
/// callback.
pub open spec fn append_plan(entries: Seq<LogEntryView>) -> Seq<CommandView> {
    entries.map_values(|e: LogEntryView| put_entry(e)).push(CommandView::FlushNotify)
}

/// The plan of `truncate`: every key from the encoded index on is removed.
pub open spec fn truncate_plan(from: LogId) -> Seq<CommandView> {
    seq![
        CommandView::DeleteLogRange { from: be_bytes(from.index), to: be_bytes(u64::MAX) },
        CommandView::DeleteLog { key: be_bytes(u64::MAX) },
    ]
}

/// The plan of `purge`: the marker is stored and made durable, and only then
/// is every key up to and including the encoded index removed.
pub open spec fn purge_plan(upto: LogId) -> Seq<CommandView> {
    if upto.index < u64::MAX {
        seq![
            CommandView::PutMeta { name: MetaKey::LastPurged, value: log_id_record(upto) },
            CommandView::Flush,
            CommandView::DeleteLogRange {
                from: be_bytes(0),
                to: be_bytes((upto.index + 1) as u64),
            },
        ]
    } else {
        seq![
            CommandView::PutMeta { name: MetaKey::LastPurged, value: log_id_record(upto) },
            CommandView::Flush,
            CommandView::DeleteLogRange { from: be_bytes(0), to: be_bytes(u64::MAX) },
            CommandView::DeleteLog { key: be_bytes(u64::MAX) },
        ]
    }
}

/// The plan of `save_vote`: the vote is stored and made durable.
pub open spec fn save_vote_plan(vote: Vote) -> Seq<CommandView> {
    seq![
        CommandView::PutMeta { name: MetaKey::Vote, value: vote_record(vote) },
        CommandView::Flush,
    ]
}

/// The failure reported when the storage engine fails to read or write; the
/// message is the engine's own.
pub fn read_logs_err(message: String) -> (e: StoreError)
    ensures
        e == StoreError::IoFailure(message),
{
    StoreError::IoFailure(message)
}

/// Plans the appending of `entries` to the log.
pub fn append(entries: &Vec<LogEntry>) -> (plan: Vec<Command>)
    ensures
        plan_view(plan@) == append_plan(entry_views(entries@)),
        plan@.len() == entries@.len() + 1,
        forall|i: int| 0 <= i < entries@.len() ==> (#[trigger] plan@[i])@ == put_entry(entries@[i]@),
        plan@[entries@.len() as int]@ == CommandView::FlushNotify,
{
    let mut plan: Vec<Command> = Vec::new();
    let n = entries.len();
    let mut i: usize = 0;
    while i < n
        invariant
            n == entries@.len(),
            i <= n,
            plan@.len() == i,
            forall|j: int| 0 <= j < i ==> (#[trigger] plan@[j])@ == put_entry(entries@[j]@),
        decreases n - i,
    {
        let entry = &entries[i];
        let key = id_to_bin(entry.index);
        let value = encode_entry(entry);
        plan.push(Command::PutLog { key, value });
        i = i + 1;
    }
    plan.push(Command::FlushNotify);
    assert(plan_view(plan@) =~= append_plan(entry_views(entries@)));
    plan
}

/// Plans the removal of every entry whose index is `from.index` or greater.
pub fn truncate(from: LogId) -> (plan: Vec<Command>)
    ensures
        plan@.len() == truncate_plan(from).len(),
        plan_view(plan@) == truncate_plan(from),
{
    let mut plan: Vec<Command> = Vec::new();
    plan.push(Command::DeleteLogRange { from: id_to_bin(from.index), to: id_to_bin(u64::MAX) });
    plan.push(Command::DeleteLog { key: id_to_bin(u64::MAX) });
    plan
}

/// Plans the removal of every entry whose index is `upto.index` or smaller,
/// after `upto` has been recorded as the last purged position.
pub fn purge(upto: LogId) -> (plan: Vec<Command>)
    ensures
        plan@.len() == purge_plan(upto).len(),
        plan_view(plan@) == purge_plan(upto),
{
    let mut plan: Vec<Command> = Vec::new();
    plan.push(Command::PutMeta { name: MetaKey::LastPurged, value: encode_log_id(upto) });
    plan.push(Command::Flush);
    if upto.index < u64::MAX {
        plan.push(Command::DeleteLogRange { from: id_to_bin(0), to: id_to_bin(upto.index + 1) });
    } else {
        plan.push(Command::DeleteLogRange { from: id_to_bin(0), to: id_to_bin(u64::MAX) });
        plan.push(Command::DeleteLog { key: id_to_bin(u64::MAX) });
    }
    plan
}

/// Plans the recording of `vote` as the current vote.
pub fn save_vote(vote: &Vote) -> (plan: Vec<Command>)
    ensures
        plan@.len() == save_vote_plan(*vote).len(),
        plan_view(plan@) == save_vote_plan(*vote),
{
    let mut plan: Vec<Command> = Vec::new();
    plan.push(Command::PutMeta { name: MetaKey::Vote, value: encode_vote(vote) });
    plan.push(Command::Flush);
    plan
}

/// What a lookup in the engine returned, as a mathematical value.
pub open spec fn stored_view(stored: Option<Vec<u8>>) -> Option<Seq<u8>> {
    match stored {
        None => None,
        Some(bytes) => Some(bytes@),
    }
}

/// The items of a scan of the log keyspace as mathematical values.
pub open spec fn item_views(items: Seq<(Vec<u8>, Vec<u8>)>) -> Seq<(Seq<u8>, Seq<u8>)> {
    items.map_values(|item: (Vec<u8>, Vec<u8>)| (item.0@, item.1@))
}

/// The answer of `read_vote` to what the engine holds under the vote's name.
pub open spec fn vote_reply(stored: Option<Seq<u8>>) -> Result<Option<Vote>, StoreError> {
    match stored {
        None => Ok(None),
        Some(bytes) => match parse_vote(bytes) {
            Some(vote) => Ok(Some(vote)),
            None => Err(StoreError::DecodeFailure(Corruption::Vote)),
        },
    }
}

/// The answer of `read_last_purged` to what the engine holds under the marker's name.
pub open spec fn last_purged_reply(stored: Option<Seq<u8>>) -> Result<Option<LogId>, StoreError> {
    match stored {
        None => Ok(None),
        Some(bytes) => match parse_log_id(bytes) {
            Some(id) => Ok(Some(id)),
            None => Err(StoreError::DecodeFailure(Corruption::LogId)),
        },
    }
}

/// The answer of `last_log_id` to the value of the greatest key of the log keyspace.
pub open spec fn last_log_id_reply(last_entry: Option<Seq<u8>>) -> Result<
    Option<LogId>,
    StoreError,
> {
    match last_entry {
        None => Ok(None),
        Some(bytes) => match parse_entry(bytes) {
            Some(entry) => Ok(Some(entry.log_id())),
            None => Err(StoreError::DecodeFailure(Corruption::Entry)),
        },
    }
}

/// The extent of a log whose last entry, if it has one, is at `last` and whose
/// marker is `last_purged`: a log without entries ends where it was purged.
pub open spec fn log_state_of(last: Option<LogId>, last_purged: Option<LogId>) -> LogState {
    LogState {
        last_purged_log_id: last_purged,
        last_log_id: match last {
            None => last_purged,
            Some(id) => Some(id),
        },
    }
}

/// The answer of `get_log_state` to the value of the greatest key of the log
/// keyspace and to what the engine holds under the marker's name.
pub open spec fn log_state_reply(last_entry: Option<Seq<u8>>, last_purged: Option<Seq<u8>>) -> Result<
    LogState,
    StoreError,
> {
    match last_log_id_reply(last_entry) {
        Err(e) => Err(e),
        Ok(last) => match last_purged_reply(last_purged) {
            Err(e) => Err(e),
            Ok(purged) => Ok(log_state_of(last, purged)),
        },
    }
}

/// What a scan does with one item: fail on a malformed key or value, stop at
/// the first index outside the range (`Ok(None)`), else yield the entry.
pub open spec fn scan_step(range: LogRange, key: Seq<u8>, value: Seq<u8>) -> Result<
    Option<LogEntryView>,
    StoreError,
> {
    if key.len() != 8 {
        Err(StoreError::DecodeFailure(Corruption::Key))
    } else if !range.spec_contains(be_value(key)) {
        Ok(None)
    } else {
        match parse_entry(value) {
            Some(entry) => Ok(Some(entry)),
            None => Err(StoreError::DecodeFailure(Corruption::Entry)),
        }
    }
}

/// The answer of `try_get_log_entries` to the items that a forward scan of the
/// log keyspace yields: the entries up to the first item outside the range.
pub open spec fn scan_reply(range: LogRange, items: Seq<(Seq<u8>, Seq<u8>)>) -> Result<
    Seq<LogEntryView>,
    StoreError,
>
    decreases items.len(),
{
    if items.len() == 0 {
        Ok(Seq::empty())
    } else {
        match scan_step(range, items[0].0, items[0].1) {
            Err(e) => Err(e),
            Ok(None) => Ok(Seq::empty()),
            Ok(Some(entry)) => match scan_reply(range, items.drop_first()) {
                Err(e) => Err(e),
                Ok(rest) => Ok(seq![entry] + rest),
            },
        }
    }
}

/// Reads the current vote from what the engine holds under the vote's name.
pub fn read_vote(stored: &Option<Vec<u8>>) -> (r: Result<Option<Vote>, StoreError>)
    ensures
        r == vote_reply(stored_view(*stored)),
{
    match stored {
        None => Ok(None),
        Some(bytes) => match decode_vote(bytes.as_slice()) {
            Ok(vote) => Ok(Some(vote)),
            Err(e) => Err(e),
        },
    }
}

/// Reads the last purged position from what the engine holds under the marker's name.
pub fn read_last_purged(stored: &Option<Vec<u8>>) -> (r: Result<Option<LogId>, StoreError>)
    ensures
        r == last_purged_reply(stored_view(*stored)),
{
    match stored {
        None => Ok(None),
        Some(bytes) => match decode_log_id(bytes.as_slice()) {
            Ok(id) => Ok(Some(id)),
            Err(e) => Err(e),
        },
    }
}

/// Reads the position of the last entry from the value of the greatest key of
/// the log keyspace.
pub fn last_log_id(last_entry: &Option<Vec<u8>>) -> (r: Result<Option<LogId>, StoreError>)
    ensures
        r == last_log_id_reply(stored_view(*last_entry)),
{
    match last_entry {
        None => Ok(None),
        Some(bytes) => match decode_entry(bytes.as_slice()) {
            Ok(entry) => Ok(Some(entry.log_id())),
            Err(e) => Err(e),
        },
    }
}

/// Computes the extent of the log from the value of the greatest key of the
/// log keyspace and from what the engine holds under the marker's name.
pub fn get_log_state(last_entry: &Option<Vec<u8>>, last_purged: &Option<Vec<u8>>) -> (r: Result<
    LogState,
    StoreError,
>)
    ensures
        r == log_state_reply(stored_view(*last_entry), stored_view(*last_purged)),
{
    let last = match last_log_id(last_entry) {
        Ok(last) => last,
        Err(e) => {
            return Err(e);
        },
    };
    let purged = match read_last_purged(last_purged) {
        Ok(purged) => purged,
        Err(e) => {
            return Err(e);
        },
    };
    let last_log_id = match last {
        None => purged,
        Some(id) => Some(id),
    };
    Ok(LogState { last_purged_log_id: purged, last_log_id })
}

/// The key at which a forward scan for `range` starts, or `None` when no index
/// can lie in the range.
pub fn scan_start(range: &LogRange) -> (start: Option<Vec<u8>>)
    ensures
        match range.spec_first() {
            Some(first) => start is Some && start->Some_0@ == be_bytes(first),
            None => start is None,
        },
{
    match range.first() {
        Some(first) => Some(id_to_bin(first)),
        None => None,
    }
}

/// Decides what a scan for `range` does with one item of the log keyspace.
pub fn scan_item(range: &LogRange, key: &[u8], value: &[u8]) -> (r: Result<
    Option<LogEntry>,
    StoreError,
>)
    ensures
        match scan_step(*range, key@, value@) {
            Err(e) => r == Err::<Option<LogEntry>, StoreError>(e),
            Ok(None) => r == Ok::<Option<LogEntry>, StoreError>(None),
            Ok(Some(entry)) => r is Ok && r->Ok_0 is Some && r->Ok_0->Some_0@ == entry,
        },
{
    if key.len() != 8 {
        return Err(StoreError::DecodeFailure(Corruption::Key));
    }
    let id = bin_to_id(key);
    if !range.contains(id) {
        return Ok(None);
    }
    match decode_entry(value) {
        Ok(entry) => Ok(Some(entry)),
        Err(e) => Err(e),
    }
}

/// Collects the entries of `range` from the items that a forward scan of the
/// log keyspace yields, starting at `scan_start(range)`.
pub fn try_get_log_entries(range: &LogRange, items: &Vec<(Vec<u8>, Vec<u8>)>) -> (r: Result<
    Vec<LogEntry>,
    StoreError,
>)
    ensures
        match scan_reply(*range, item_views(items@)) {
            Err(e) => r == Err::<Vec<LogEntry>, StoreError>(e),
            Ok(entries) => r is Ok && r->Ok_0@.len() == entries.len() && entry_views(r->Ok_0@)
                == entries,
        },
{
    let ghost all = item_views(items@);
    let mut res: Vec<LogEntry> = Vec::new();
    let n = items.len();
    let mut i: usize = 0;
    proof {
        assert(all.skip(0) == all);
        assert(entry_views(res@) == Seq::<LogEntryView>::empty());
        assert forall|rest: Seq<LogEntryView>|
            #[trigger] (Seq::<LogEntryView>::empty() + rest) == rest by {
            assert(Seq::<LogEntryView>::empty() + rest =~= rest);
        }
    }
    while i < n
        invariant
            n == items@.len(),
            i <= n,
            all == item_views(items@),
            scan_reply(*range, all) == match scan_reply(*range, all.skip(i as int)) {
                Err(e) => Err::<Seq<LogEntryView>, StoreError>(e),
                Ok(rest) => Ok(entry_views(res@) + rest),
            },
        decreases n - i,
    {
        let ghost tail = all.skip(i as int);
        assert(tail.len() > 0);
        assert(tail[0] == all[i as int]);
        assert(tail.drop_first() == all.skip(i + 1));
        let item = &items[i];
        match scan_item(range, item.0.as_slice(), item.1.as_slice()) {
            Err(e) => {
                return Err(e);
            },
            Ok(None) => {
                assert(entry_views(res@) + Seq::<LogEntryView>::empty() == entry_views(res@));
                return Ok(res);
            },
            Ok(Some(entry)) => {
                let ghost before = entry_views(res@);
                res.push(entry);
                assert(entry_views(res@) == before.push(entry@));
                assert forall|rest: Seq<LogEntryView>|
                    before + (seq![entry@] + rest) == #[trigger] (before.push(entry@) + rest) by {
                    assert(before + (seq![entry@] + rest) =~= before.push(entry@) + rest);
                }
            },
        }
        i = i + 1;
    }
    assert(all.skip(n as int).len() == 0);
    assert(entry_views(res@) + Seq::<LogEntryView>::empty() == entry_views(res@));
    Ok(res)
}

} // verus!
