//! The byte form of the values the log store keeps.
//!
//! Every number is written as eight big-endian bytes. A log position is its
//! term followed by its index. A vote is its term, a presence byte and, when
//! a candidate was voted for, that candidate. A log entry is its term, its
//! index and then the payload, which runs to the end of the record.

use crate::codec::be_bytes;
use crate::codec::be_value;
use crate::codec::lemma_decode_encode;
use crate::codec::read_u64_at;
use crate::codec::write_u64_be;
use crate::types::Corruption;
use crate::types::LogEntry;
use crate::types::LogEntryView;
use crate::types::LogId;
use crate::types::StoreError;
use crate::types::Vote;
use vstd::prelude::*;
use vstd::slice::slice_subrange;
use vstd::slice::slice_to_vec;

verus! {

/// The stored form of a log position.
pub open spec fn log_id_record(id: LogId) -> Seq<u8> {
    be_bytes(id.term) + be_bytes(id.index)
}

/// The log position that a stored record holds, if the record is well formed.
pub open spec fn parse_log_id(bytes: Seq<u8>) -> Option<LogId> {
    if bytes.len() == 16 {
        Some(LogId { term: be_value(bytes.subrange(0, 8)), index: be_value(bytes.subrange(8, 16)) })
    } else {
        None
    }
}

/// The stored form of a vote.
pub open spec fn vote_record(vote: Vote) -> Seq<u8> {
    match vote.voted_for {
        None => be_bytes(vote.term) + seq![0u8],
        Some(node) => be_bytes(vote.term) + seq![1u8] + be_bytes(node),
    }
}

/// The vote that a stored record holds, if the record is well formed.
pub open spec fn parse_vote(bytes: Seq<u8>) -> Option<Vote> {
    if bytes.len() == 9 && bytes[8] == 0 {
        Some(Vote { term: be_value(bytes.subrange(0, 8)), voted_for: None })
    } else if bytes.len() == 17 && bytes[8] == 1 {
        Some(
            Vote {
                term: be_value(bytes.subrange(0, 8)),
                voted_for: Some(be_value(bytes.subrange(9, 17))),
            },
        )
    } else {
        None
    }
}

/// The stored form of a log entry.
pub open spec fn entry_record(entry: LogEntryView) -> Seq<u8> {
    be_bytes(entry.term) + be_bytes(entry.index) + entry.payload
}

/// The log entry that a stored record holds, if the record is well formed.
pub open spec fn parse_entry(bytes: Seq<u8>) -> Option<LogEntryView> {
    if bytes.len() >= 16 {
        Some(
            LogEntryView {
                term: be_value(bytes.subrange(0, 8)),
                index: be_value(bytes.subrange(8, 16)),
                payload: bytes.subrange(16, bytes.len() as int),
            },
        )
    } else {
        None
    }
}

/// Writes a log position in its stored form.
pub fn encode_log_id(id: LogId) -> (bytes: Vec<u8>)
    ensures
        bytes@ == log_id_record(id),
{
    let mut bytes = Vec::with_capacity(16);
    write_u64_be(&mut bytes, id.term);
    write_u64_be(&mut bytes, id.index);
    bytes
}

/// Reads a log position back from its stored form.
pub fn decode_log_id(bytes: &[u8]) -> (r: Result<LogId, StoreError>)
    ensures
        match parse_log_id(bytes@) {
            Some(id) => r == Ok::<LogId, StoreError>(id),
            None => r == Err::<LogId, StoreError>(StoreError::DecodeFailure(Corruption::LogId)),
        },
{
    if bytes.len() != 16 {
        return Err(StoreError::DecodeFailure(Corruption::LogId));
    }
    let term = read_u64_at(bytes, 0);
    let index = read_u64_at(bytes, 8);
    Ok(LogId { term, index })
}

/// Writes a vote in its stored form.
pub fn encode_vote(vote: &Vote) -> (bytes: Vec<u8>)
    ensures
        bytes@ == vote_record(*vote),
{
    let mut bytes = Vec::with_capacity(17);
    write_u64_be(&mut bytes, vote.term);
    match vote.voted_for {
        None => {
            bytes.push(0u8);
        },
        Some(node) => {
            bytes.push(1u8);
            write_u64_be(&mut bytes, node);
        },
    }
    bytes
}

/// Reads a vote back from its stored form.
pub fn decode_vote(bytes: &[u8]) -> (r: Result<Vote, StoreError>)
    ensures
        match parse_vote(bytes@) {
            Some(vote) => r == Ok::<Vote, StoreError>(vote),
            None => r == Err::<Vote, StoreError>(StoreError::DecodeFailure(Corruption::Vote)),
        },
{
    let len = bytes.len();
    if len == 9 && bytes[8] == 0 {
        let term = read_u64_at(bytes, 0);
        Ok(Vote { term, voted_for: None })
    } else if len == 17 && bytes[8] == 1 {
        let term = read_u64_at(bytes, 0);
        let node = read_u64_at(bytes, 9);
        Ok(Vote { term, voted_for: Some(node) })
    } else {
        Err(StoreError::DecodeFailure(Corruption::Vote))
    }
}

/// Writes a log entry in its stored form.
pub fn encode_entry(entry: &LogEntry) -> (bytes: Vec<u8>)
    ensures
        bytes@ == entry_record(entry@),
{
    let mut bytes = Vec::new();
    write_u64_be(&mut bytes, entry.term);
    write_u64_be(&mut bytes, entry.index);
    let ghost head = bytes@;
    let n = entry.payload.len();
    let mut i: usize = 0;
    while i < n
        invariant
            n == entry.payload@.len(),
            i <= n,
            bytes@ == head + entry.payload@.subrange(0, i as int),
        decreases n - i,
    {
        bytes.push(entry.payload[i]);
        i = i + 1;
    }
    assert(entry.payload@.subrange(0, n as int) == entry.payload@);
    bytes
}

/// Reads a log entry back from its stored form.
pub fn decode_entry(bytes: &[u8]) -> (r: Result<LogEntry, StoreError>)
    ensures
        match parse_entry(bytes@) {
            Some(entry) => r is Ok && r->Ok_0@ == entry,
            None => r == Err::<LogEntry, StoreError>(StoreError::DecodeFailure(Corruption::Entry)),
        },
{
    let len = bytes.len();
    if len < 16 {
        return Err(StoreError::DecodeFailure(Corruption::Entry));
    }
    let term = read_u64_at(bytes, 0);
    let index = read_u64_at(bytes, 8);
    let payload = slice_to_vec(slice_subrange(bytes, 16, len));
    Ok(LogEntry { index, term, payload })
}

/// A log position read back from its stored form is the one that was written.
pub proof fn lemma_log_id_round_trip(id: LogId)
    ensures
        log_id_record(id).len() == 16,
        parse_log_id(log_id_record(id)) == Some(id),
{
    lemma_decode_encode(id.term);
    lemma_decode_encode(id.index);
    let r = log_id_record(id);
    assert(r.subrange(0, 8) == be_bytes(id.term));
    assert(r.subrange(8, 16) == be_bytes(id.index));
}

/// A vote read back from its stored form is the one that was written.
pub proof fn lemma_vote_round_trip(vote: Vote)
    ensures
        parse_vote(vote_record(vote)) == Some(vote),
{
    lemma_decode_encode(vote.term);
    let r = vote_record(vote);
    assert(r.subrange(0, 8) == be_bytes(vote.term));
    match vote.voted_for {
        None => {},
        Some(node) => {
            lemma_decode_encode(node);
            assert(r.subrange(9, 17) == be_bytes(node));
        },
    }
}

/// A log entry read back from its stored form is the one that was written.
pub proof fn lemma_entry_round_trip(entry: LogEntryView)
    ensures
        parse_entry(entry_record(entry)) == Some(entry),
{
    lemma_decode_encode(entry.term);
    lemma_decode_encode(entry.index);
    let r = entry_record(entry);
    assert(r.subrange(0, 8) == be_bytes(entry.term));
    assert(r.subrange(8, 16) == be_bytes(entry.index));
    assert(r.subrange(16, r.len() as int) == entry.payload);
}

} // verus!
