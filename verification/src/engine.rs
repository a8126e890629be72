//! The storage engine as the log store sees it.
//!
//! The log store does not touch the engine itself. It hands out commands for
//! an ordered key-value engine with two keyspaces, one for log entries and one
//! for named metadata values, and reads what the engine gives back. This file
//! holds the commands and a mathematical model of the engine that says what
//! each command means.

use crate::codec::be_bytes;
use crate::codec::lex_le;
use crate::codec::lex_lt;
use vstd::prelude::*;

verus! {

/// The two keyspaces of the storage engine.
#[derive(Clone, Copy, Debug, PartialEq, Eq, Structural)]
pub enum Keyspace {
    /// Log entries, each under its encoded index.
    Logs,
    /// Named metadata values.
    Meta,
}

impl Keyspace {
    /// The name of the keyspace in the storage engine.
    pub open spec fn spec_name(self) -> Seq<char> {
        match self {
            Keyspace::Logs => "logs"@,
            Keyspace::Meta => "meta"@,
        }
    }

    /// The name of the keyspace in the storage engine.
    pub fn name(&self) -> (name: &'static str)
        ensures
            name@ == self.spec_name(),
    {
        match self {
            Keyspace::Logs => "logs",
            Keyspace::Meta => "meta",
        }
    }
}

/// The named values of the metadata keyspace.
#[derive(Clone, Copy, Debug, PartialEq, Eq, Structural)]
pub enum MetaKey {
    /// The current vote.
    Vote,
    /// The last purged log position.
    LastPurged,
}

impl MetaKey {
    /// The name of the value in the metadata keyspace.
    pub open spec fn spec_name(self) -> Seq<char> {
        match self {
            MetaKey::Vote => "vote"@,
            MetaKey::LastPurged => "last_purged_log_id"@,
        }
    }

    /// The name of the value in the metadata keyspace.
    pub fn name(&self) -> (name: &'static str)
        ensures
            name@ == self.spec_name(),
    {
        match self {
            MetaKey::Vote => "vote",
            MetaKey::LastPurged => "last_purged_log_id",
        }
    }
}

/// One write handed to the storage engine.
#[derive(Clone, Debug, PartialEq, Eq)]
pub enum Command {
    /// Store `value` under a name of the metadata keyspace.
    PutMeta { name: MetaKey, value: Vec<u8> },
    /// Store `value` under `key` in the log keyspace.
    PutLog { key: Vec<u8>, value: Vec<u8> },
    /// Remove `key` from the log keyspace.
    DeleteLog { key: Vec<u8> },
    /// Remove from the log keyspace every key from `from` up to, but not including, `to`.
    DeleteLogRange { from: Vec<u8>, to: Vec<u8> },
    /// Force everything written so far to durable storage and wait for it.
    Flush,
    /// Force everything written so far to durable storage off the caller's
    /// path, and report the outcome through the completion callback.
    FlushNotify,
}

/// A command as a mathematical value.
pub enum CommandView {
    PutMeta { name: MetaKey, value: Seq<u8> },
    PutLog { key: Seq<u8>, value: Seq<u8> },
    DeleteLog { key: Seq<u8> },
    DeleteLogRange { from: Seq<u8>, to: Seq<u8> },
    Flush,
    FlushNotify,
}

impl View for Command {
    type V = CommandView;

    open spec fn view(&self) -> CommandView {
        match *self {
            Command::PutMeta { name, value } => CommandView::PutMeta { name, value: value@ },
            Command::PutLog { key, value } => CommandView::PutLog { key: key@, value: value@ },
            Command::DeleteLog { key } => CommandView::DeleteLog { key: key@ },
            Command::DeleteLogRange { from, to } => CommandView::DeleteLogRange {
                from: from@,
                to: to@,
            },
            Command::Flush => CommandView::Flush,
            Command::FlushNotify => CommandView::FlushNotify,
        }
    }
}

/// The commands of a plan as mathematical values.
pub open spec fn plan_view(plan: Seq<Command>) -> Seq<CommandView> {
    plan.map_values(|c: Command| c@)
}

/// The contents of the two keyspaces.
pub struct Keyspaces {
    /// The log keyspace, ordered by its keys byte by byte.
    pub logs: Map<Seq<u8>, Seq<u8>>,
    /// The metadata keyspace.
    pub meta: Map<MetaKey, Seq<u8>>,
}

impl Keyspaces {
    /// Whether an entry is stored under the key of `index`.
    pub open spec fn has_entry(self, index: u64) -> bool {
        self.logs.contains_key(be_bytes(index))
    }

    /// The record stored under the key of `index`.
    pub open spec fn record_at(self, index: u64) -> Seq<u8> {
        self.logs[be_bytes(index)]
    }

    /// Every key of the log keyspace is an encoded index.
    pub open spec fn keys_are_indices(self) -> bool {
        forall|k: Seq<u8>| self.logs.contains_key(k) ==> k.len() == 8
    }

    /// What a lookup of `name` in the metadata keyspace returns.
    pub open spec fn lookup(self, name: MetaKey) -> Option<Seq<u8>> {
        self.meta.get(name)
    }

    /// Whether `reply` is what a reverse scan of the log keyspace yields first:
    /// the greatest key with its value, or nothing when the keyspace is empty.
    pub open spec fn is_last(self, reply: Option<(Seq<u8>, Seq<u8>)>) -> bool {
        match reply {
            None => forall|k: Seq<u8>| !self.logs.contains_key(k),
            Some((key, value)) => {
                &&& self.logs.contains_key(key)
                &&& self.logs[key] == value
                &&& forall|k: Seq<u8>| self.logs.contains_key(k) ==> lex_le(k, key)
            },
        }
    }

    /// Whether `items` is what a forward scan of the log keyspace from `start`
    /// yields: every key from `start` on with its value, in ascending order.
    pub open spec fn is_scan(self, start: Seq<u8>, items: Seq<(Seq<u8>, Seq<u8>)>) -> bool {
        &&& forall|i: int|
            0 <= i < items.len() ==> {
                &&& lex_le(start, (#[trigger] items[i]).0)
                &&& self.logs.contains_key(items[i].0)
                &&& self.logs[items[i].0] == items[i].1
            }
        &&& forall|i: int, j: int|
            0 <= i < j < items.len() ==> lex_lt((#[trigger] items[i]).0, (#[trigger] items[j]).0)
        &&& forall|k: Seq<u8>|
            self.logs.contains_key(k) && lex_le(start, k) ==> exists|i: int|
                0 <= i < items.len() && (#[trigger] items[i]).0 == k
    }
}

/// The state of the storage engine: what it holds now, and what of that is
/// known to survive a crash.
pub struct EngineState {
    pub live: Keyspaces,
    pub durable: Keyspaces,
}

/// The keys from `from` up to, but not including, `to`.
pub open spec fn key_range(from: Seq<u8>, to: Seq<u8>) -> Set<Seq<u8>> {
    Set::new(|k: Seq<u8>| lex_le(from, k) && lex_lt(k, to))
}

impl EngineState {
    /// The state after the engine has carried out `command`.
    pub open spec fn apply(self, command: CommandView) -> EngineState {
        match command {
            CommandView::PutMeta { name, value } => EngineState {
                live: Keyspaces { meta: self.live.meta.insert(name, value), ..self.live },
                ..self
            },
            CommandView::PutLog { key, value } => EngineState {
                live: Keyspaces { logs: self.live.logs.insert(key, value), ..self.live },
                ..self
            },
            CommandView::DeleteLog { key } => EngineState {
                live: Keyspaces { logs: self.live.logs.remove(key), ..self.live },
                ..self
            },
            CommandView::DeleteLogRange { from, to } => EngineState {
                live: Keyspaces {
                    logs: self.live.logs.remove_keys(key_range(from, to)),
                    ..self.live
                },
                ..self
            },
            CommandView::Flush | CommandView::FlushNotify => EngineState {
                durable: self.live,
                ..self
            },
        }
    }

    /// The state after the engine has carried out the commands of `plan` in order.
    pub open spec fn run(self, plan: Seq<CommandView>) -> EngineState
        decreases plan.len(),
    {
        if plan.len() == 0 {
            self
        } else {
            self.run(plan.drop_last()).apply(plan.last())
        }
    }

    /// Carrying out one command is running the plan that holds only it.
    pub proof fn lemma_run_one(self, command: CommandView)
        ensures
            self.run(seq![command]) == self.apply(command),
    {
        reveal_with_fuel(EngineState::run, 2);
        assert(seq![command].drop_last() =~= Seq::<CommandView>::empty());
    }

    /// Running a plan with one more command is running the plan and then
    /// carrying out the command.
    pub proof fn lemma_run_push(self, plan: Seq<CommandView>, command: CommandView)
        ensures
            self.run(plan.push(command)) == self.run(plan).apply(command),
    {
        assert(plan.push(command).drop_last() =~= plan);
    }

    /// The state after a crash: what was not made durable is lost.
    pub open spec fn crash(self) -> EngineState {
        EngineState { live: self.durable, durable: self.durable }
    }
}

} // verus!
