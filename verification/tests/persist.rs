use stash::codec::{decode_encoded, encode_to_vec, Codec};
use stash::persist::{LogEntry, PersistStash, StashOp};

fn put(key: &str, value: &str) -> StashOp<String, String> {
    StashOp::Put(key.to_string(), value.to_string())
}

fn delete(key: &str) -> StashOp<String, String> {
    StashOp::Delete(key.to_string())
}

fn pair(key: &str, value: &str) -> (String, String) {
    (key.to_string(), value.to_string())
}

/// Writes a batch to the log: the writes are appended, then the stash is
/// told so.
fn write(stash: &mut PersistStash<String, String>, log: &mut Vec<LogEntry>, ops: Vec<StashOp<String, String>>) {
    let writes = stash.write_batch(&ops).unwrap();
    log.extend(writes);
    stash.batch_appended(ops, Ok::<(), String>(())).unwrap();
}

#[test]
fn replay_yields_the_latest_value_of_each_key() {
    let mut stash: PersistStash<String, String> = PersistStash::open();
    let mut log = Vec::new();
    assert_eq!(stash.replay(&log).unwrap(), Vec::<(String, String)>::new());
    write(&mut stash, &mut log, vec![put("b", "1"), put("a", "1")]);
    assert_eq!(log.len(), 2);
    assert_eq!(stash.replay(&log).unwrap(), vec![pair("a", "1"), pair("b", "1")]);
    write(&mut stash, &mut log, vec![put("a", "2")]);
    // One retraction of the old value and one insertion of the new one.
    assert_eq!(log.len(), 4);
    assert_eq!(stash.replay(&log).unwrap(), vec![pair("a", "2"), pair("b", "1")]);
    write(&mut stash, &mut log, vec![delete("b"), delete("missing")]);
    assert_eq!(log.len(), 5);
    assert_eq!(stash.replay(&log).unwrap(), vec![pair("a", "2")]);
    write(&mut stash, &mut log, vec![put("a", "2")]);
    assert_eq!(log.len(), 7);
    assert_eq!(stash.replay(&log).unwrap(), vec![pair("a", "2")]);
    // A deleted key has no value to retract when it is put again.
    write(&mut stash, &mut log, vec![put("b", "3")]);
    assert_eq!(log.len(), 8);
    assert_eq!(stash.replay(&log).unwrap(), vec![pair("a", "2"), pair("b", "3")]);
}

#[test]
fn writes_stand_at_the_time_of_their_batch() {
    let mut stash: PersistStash<String, String> = PersistStash::open();
    let first = vec![put("k", "a")];
    let writes = stash.write_batch(&first).unwrap();
    assert_eq!(writes.len(), 1);
    assert_eq!(
        (writes[0].key.clone(), writes[0].value.clone(), writes[0].time, writes[0].diff),
        (b"k".to_vec(), b"a".to_vec(), 0, 1)
    );
    stash.batch_appended(first, Ok::<(), String>(())).unwrap();
    let writes = stash.write_batch(&vec![put("k", "b"), delete("other")]).unwrap();
    assert_eq!(writes.len(), 2);
    assert_eq!(
        (writes[0].value.clone(), writes[0].time, writes[0].diff),
        (b"a".to_vec(), 1, -1)
    );
    assert_eq!(
        (writes[1].value.clone(), writes[1].time, writes[1].diff),
        (b"b".to_vec(), 1, 1)
    );
}

#[test]
fn a_failed_append_leaves_the_values_as_they_were() {
    let mut stash: PersistStash<String, String> = PersistStash::open();
    let mut log = Vec::new();
    write(&mut stash, &mut log, vec![put("k", "a")]);
    // The writes of this batch never reach the log.
    let lost = vec![put("k", "b")];
    let writes = stash.write_batch(&lost).unwrap();
    assert_eq!(writes.len(), 2);
    assert_eq!(
        stash.batch_appended(lost, Err("log unavailable".to_string())),
        Err("log unavailable".to_string())
    );
    // The next batch retracts the value that was written, not the lost one,
    // and stands at a later time.
    let writes = stash.write_batch(&vec![put("k", "c")]).unwrap();
    assert_eq!(
        (writes[0].value.clone(), writes[0].time, writes[0].diff),
        (b"a".to_vec(), 2, -1)
    );
    assert_eq!(
        (writes[1].value.clone(), writes[1].time, writes[1].diff),
        (b"c".to_vec(), 2, 1)
    );
    log.extend(writes);
    assert_eq!(stash.replay(&log).unwrap(), vec![pair("k", "c")]);
}

#[test]
fn a_batch_is_held_against_the_values_before_it() {
    let mut stash: PersistStash<String, String> = PersistStash::open();
    let mut log = Vec::new();
    write(&mut stash, &mut log, vec![put("k", "a")]);
    // Both puts retract the value that the key had before the batch.
    write(&mut stash, &mut log, vec![put("k", "b"), put("k", "c")]);
    assert_eq!(log.len(), 5);
    assert_eq!(
        stash.replay(&log).unwrap(),
        vec![pair("k", "a"), pair("k", "b"), pair("k", "c")]
    );
    // The values of the keys are brought up to date in order: the next put
    // retracts the value of the last put.
    write(&mut stash, &mut log, vec![put("k", "d")]);
    assert_eq!(
        stash.replay(&log).unwrap(),
        vec![pair("k", "a"), pair("k", "b"), pair("k", "d")]
    );
}

#[test]
fn open_starts_over_whatever_the_log_holds() {
    let mut log = vec![
        LogEntry {
            key: b"k".to_vec(),
            value: b"old".to_vec(),
            time: 7,
            diff: 1,
        },
        LogEntry {
            key: b"gone".to_vec(),
            value: b"v".to_vec(),
            time: 3,
            diff: 1,
        },
        LogEntry {
            key: b"gone".to_vec(),
            value: b"v".to_vec(),
            time: 9,
            diff: -1,
        },
    ];
    let mut stash: PersistStash<String, String> = PersistStash::open();
    assert_eq!(stash.replay(&log).unwrap(), vec![pair("k", "old")]);
    // The stash does not know of the old value, so it is not retracted.
    write(&mut stash, &mut log, vec![put("k", "new")]);
    assert_eq!(log.len(), 4);
    assert_eq!(
        stash.replay(&log).unwrap(),
        vec![pair("k", "new"), pair("k", "old")]
    );
}

#[test]
fn replay_reports_what_does_not_decode() {
    let log = vec![LogEntry {
        key: vec![0xff],
        value: b"v".to_vec(),
        time: 0,
        diff: 1,
    }];
    let stash: PersistStash<String, String> = PersistStash::open();
    assert_eq!(
        stash.replay(&log).unwrap_err().kind(),
        stash::error::StashErrorKind::Codec
    );
    let stash: PersistStash<Vec<u8>, String> = PersistStash::open();
    assert_eq!(stash.replay(&log).unwrap(), vec![(vec![0xff], "v".to_string())]);
}

#[test]
fn codec_round_trip() {
    for text in ["", "widgets", "héllo wörld", "日本語", "\u{10ffff}\0"] {
        let text = text.to_string();
        assert_eq!(decode_encoded(&text), Ok(text.clone()));
        assert_eq!(encode_to_vec(&text), text.as_bytes().to_vec());
        assert_eq!(String::decode(text.as_bytes()), Ok(text.clone()));
    }
    for bytes in [vec![], vec![0u8], vec![0xff, 0x00, 0x80]] {
        assert_eq!(decode_encoded(&bytes), Ok(bytes.clone()));
        assert_eq!(encode_to_vec(&bytes), bytes);
    }
    let mut buf = vec![1u8, 2];
    "ab".to_string().encode(&mut buf);
    vec![9u8].encode(&mut buf);
    assert_eq!(buf, vec![1, 2, b'a', b'b', 9]);
}

#[test]
fn codec_refuses_invalid_utf8() {
    for bytes in [
        vec![0xffu8],
        vec![0xc3],
        vec![0xc0, 0x80],
        vec![0xed, 0xa0, 0x80],
        vec![0xf4, 0x90, 0x80, 0x80],
        vec![b'a', 0x80],
    ] {
        assert!(String::decode(&bytes).is_err());
    }
}
