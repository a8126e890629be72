use kv_store::record::decode_entry;
use kv_store::record::decode_log_id;
use kv_store::record::decode_vote;
use kv_store::record::encode_entry;
use kv_store::record::encode_log_id;
use kv_store::record::encode_vote;
use kv_store::log_store::read_logs_err;
use kv_store::types::Corruption;
use kv_store::types::LogEntry;
use kv_store::types::LogId;
use kv_store::types::StoreError;
use kv_store::types::Vote;

#[test]
fn log_id_record_is_term_then_index() {
    let bytes = encode_log_id(LogId { term: 2, index: 0x0102 });
    assert_eq!(bytes, vec![0, 0, 0, 0, 0, 0, 0, 2, 0, 0, 0, 0, 0, 0, 1, 2]);
}

#[test]
fn log_id_round_trip() {
    for id in [
        LogId { term: 0, index: 0 },
        LogId { term: 1, index: 10 },
        LogId { term: u64::MAX, index: u64::MAX },
        LogId { term: 7, index: 1 << 40 },
    ] {
        assert_eq!(decode_log_id(&encode_log_id(id)), Ok(id));
    }
}

#[test]
fn log_id_of_wrong_length_is_corrupt() {
    let expected = Err(StoreError::DecodeFailure(Corruption::LogId));
    assert_eq!(decode_log_id(&[]), expected);
    assert_eq!(decode_log_id(&[0u8; 15]), expected);
    assert_eq!(decode_log_id(&[0u8; 17]), expected);
}

#[test]
fn vote_record_without_candidate() {
    let bytes = encode_vote(&Vote { term: 3, voted_for: None });
    assert_eq!(bytes, vec![0, 0, 0, 0, 0, 0, 0, 3, 0]);
}

#[test]
fn vote_record_with_candidate() {
    let bytes = encode_vote(&Vote { term: 3, voted_for: Some(258) });
    assert_eq!(bytes, vec![0, 0, 0, 0, 0, 0, 0, 3, 1, 0, 0, 0, 0, 0, 0, 1, 2]);
}

#[test]
fn vote_round_trip() {
    for vote in [
        Vote { term: 0, voted_for: None },
        Vote { term: 3, voted_for: Some(1) },
        Vote { term: u64::MAX, voted_for: Some(u64::MAX) },
        Vote { term: 9, voted_for: Some(0) },
    ] {
        assert_eq!(decode_vote(&encode_vote(&vote)), Ok(vote));
    }
}

#[test]
fn malformed_vote_is_corrupt() {
    let expected = Err(StoreError::DecodeFailure(Corruption::Vote));
    assert_eq!(decode_vote(&[]), expected);
    assert_eq!(decode_vote(&[0u8; 8]), expected);
    // the presence byte says a candidate follows, and none does
    assert_eq!(decode_vote(&[0, 0, 0, 0, 0, 0, 0, 3, 1]), expected);
    // the presence byte says no candidate follows, and one does
    assert_eq!(decode_vote(&[0u8; 17]), expected);
    // a presence byte that is neither 0 nor 1
    assert_eq!(decode_vote(&[0, 0, 0, 0, 0, 0, 0, 3, 2]), expected);
    assert_eq!(decode_vote(&[1u8; 18]), expected);
}

#[test]
fn entry_record_is_term_index_payload() {
    let entry = LogEntry { index: 5, term: 2, payload: b"ab".to_vec() };
    assert_eq!(
        encode_entry(&entry),
        vec![0, 0, 0, 0, 0, 0, 0, 2, 0, 0, 0, 0, 0, 0, 0, 5, b'a', b'b']
    );
}

#[test]
fn entry_round_trip() {
    for entry in [
        LogEntry { index: 0, term: 0, payload: vec![] },
        LogEntry { index: 1, term: 1, payload: b"a".to_vec() },
        LogEntry { index: u64::MAX, term: 4, payload: vec![0xff; 300] },
    ] {
        assert_eq!(decode_entry(&encode_entry(&entry)), Ok(entry));
    }
}

#[test]
fn entry_log_id_is_term_and_index() {
    let entry = LogEntry { index: 5, term: 2, payload: vec![] };
    assert_eq!(entry.log_id(), LogId { term: 2, index: 5 });
}

#[test]
fn short_entry_is_corrupt() {
    let expected = Err(StoreError::DecodeFailure(Corruption::Entry));
    assert_eq!(decode_entry(&[]), expected);
    assert_eq!(decode_entry(&[0u8; 15]), expected);
    assert_eq!(
        decode_entry(&[0u8; 16]),
        Ok(LogEntry { index: 0, term: 0, payload: vec![] })
    );
}

#[test]
fn engine_failure_is_an_io_failure() {
    assert_eq!(
        read_logs_err("disk full".to_string()),
        StoreError::IoFailure("disk full".to_string())
    );
    assert_ne!(
        read_logs_err("x".to_string()),
        StoreError::DecodeFailure(Corruption::Entry)
    );
}
