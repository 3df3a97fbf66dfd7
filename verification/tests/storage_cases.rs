use ferrocache::clock::signed_nanos;
use ferrocache::command::Command;
use ferrocache::persistence::aof::replay_at;
use ferrocache::protocol::encoder::encode_frame;
use ferrocache::protocol::parser::ProtocolError;
use ferrocache::protocol::Frame;
use ferrocache::storage::{MemoryStore, StoreError, Ttl};

const SECOND: i128 = 1_000_000_000;

#[test]
fn time_to_live_counts_down_whole_seconds() {
    let mut store = MemoryStore::new();
    let now = 50 * SECOND;
    store.set("k".to_string(), b"v".to_vec());
    assert!(store.expire_in("k", 10, now));
    assert_eq!(store.ttl_at("k", now), Ttl::Seconds(10));
    assert_eq!(store.ttl_at("k", now + 1), Ttl::Seconds(9));
    assert_eq!(store.ttl_at("k", now + 10 * SECOND - 1), Ttl::Seconds(0));
    assert_eq!(store.ttl_at("k", now + 10 * SECOND), Ttl::Missing);
    assert_eq!(store.get_at("k", now), Ok(None));
}

#[test]
fn expired_entries_are_invisible_and_cleaned() {
    let mut store = MemoryStore::new();
    let now = 10 * SECOND;
    store.set("a".to_string(), b"1".to_vec());
    store.set("b".to_string(), b"2".to_vec());
    store.set("c".to_string(), b"3".to_vec());
    assert!(store.expire_at("a", now + 1, now));
    assert!(store.expire_at("b", now + 2, now));
    assert_eq!(store.cleanup_expired_at(now + 1), 1);
    assert_eq!(store.exists_at(&["a".to_string(), "b".to_string(), "c".to_string()], now + 1), 2);
    assert_eq!(store.exists_at(&["b".to_string()], now + 2), 0);
    assert_eq!(store.cleanup_expired_at(now + 100), 0);
    assert_eq!(store.del_at(&["c".to_string(), "c".to_string()], now), 1);
}

#[test]
fn an_expiration_beyond_the_clock_deletes_the_key() {
    let mut store = MemoryStore::new();
    store.set("k".to_string(), b"v".to_vec());
    assert!(store.expire_in("k", u64::MAX, SECOND));
    assert_eq!(store.get_at("k", SECOND), Ok(None));
    store.set("k".to_string(), b"v".to_vec());
    assert!(store.expire_at_unix_at("k", u64::MAX, SECOND));
    assert_eq!(store.ttl_at("k", SECOND), Ttl::Missing);
    store.set("k".to_string(), b"v".to_vec());
    assert!(store.expire_at_unix_at("k", 100, SECOND));
    assert_eq!(store.ttl_at("k", SECOND), Ttl::Seconds(99));
}

#[test]
fn lists_keep_push_order_and_ranges() {
    let mut store = MemoryStore::new();
    let now = SECOND;
    assert_eq!(store.lpush_at("l".to_string(), vec![b"a".to_vec(), b"b".to_vec()], now), Ok(2));
    assert_eq!(store.rpush_at("l".to_string(), vec![b"c".to_vec()], now), Ok(3));
    assert_eq!(
        store.lrange_at("l", 0, -1, now),
        Ok(vec![b"b".to_vec(), b"a".to_vec(), b"c".to_vec()])
    );
    assert_eq!(store.lrange_at("l", -2, 10, now), Ok(vec![b"a".to_vec(), b"c".to_vec()]));
    assert_eq!(store.lrange_at("l", 2, 1, now), Ok(vec![]));
    assert_eq!(store.lrange_at("missing", 0, -1, now), Ok(vec![]));
    assert_eq!(store.rpop_at("l", now), Ok(Some(b"c".to_vec())));
    assert_eq!(store.lpop_at("l", now), Ok(Some(b"b".to_vec())));
    assert_eq!(store.lpop_at("l", now), Ok(Some(b"a".to_vec())));
    assert_eq!(store.exists_at(&["l".to_string()], now), 0);
    assert_eq!(store.lpop_at("l", now), Ok(None));
}

#[test]
fn an_empty_push_creates_an_empty_list() {
    let mut store = MemoryStore::new();
    assert_eq!(store.rpush("l".to_string(), vec![]), Ok(0));
    assert_eq!(store.exists_keys(&["l".to_string()]), 1);
    assert_eq!(store.rpop("l"), Ok(None));
    assert_eq!(store.exists_keys(&["l".to_string()]), 0);
}

#[test]
fn string_and_list_operations_refuse_each_other() {
    let mut store = MemoryStore::new();
    store.set("s".to_string(), b"v".to_vec());
    store.rpush("l".to_string(), vec![b"x".to_vec()]).unwrap();
    assert_eq!(store.rpush("s".to_string(), vec![b"x".to_vec()]), Err(StoreError::WrongType));
    assert_eq!(store.lpop("s"), Err(StoreError::WrongType));
    assert_eq!(store.lrange("s", 0, -1), Err(StoreError::WrongType));
    assert_eq!(store.get("l"), Err(StoreError::WrongType));
    assert_eq!(store.get("s"), Ok(Some(b"v".to_vec())));
}

#[test]
fn ttl_answers_redis_integers() {
    assert_eq!(Ttl::Missing.as_redis_integer(), -2);
    assert_eq!(Ttl::NoExpiration.as_redis_integer(), -1);
    assert_eq!(Ttl::Seconds(12).as_redis_integer(), 12);
    assert_eq!(Ttl::Seconds(u64::MAX).as_redis_integer(), i64::MAX);
}

#[test]
fn replay_runs_commands_and_skips_other_frames() {
    let mut log = Vec::new();
    let frames = [
        Frame::Array(vec![
            Frame::Bulk(b"SET".to_vec()),
            Frame::Bulk(b"a".to_vec()),
            Frame::Bulk(b"1".to_vec()),
        ]),
        Frame::Integer(3),
        Frame::Array(vec![Frame::Bulk(b"DEL".to_vec()), Frame::Bulk(b"a".to_vec())]),
        Frame::Array(vec![
            Frame::Bulk(b"SET".to_vec()),
            Frame::Bulk(b"b".to_vec()),
            Frame::Bulk(b"2".to_vec()),
        ]),
    ];
    for frame in &frames {
        log.extend_from_slice(&encode_frame(frame));
    }
    let mut store = MemoryStore::new();
    assert_eq!(replay_at(&log, &mut store, SECOND), Ok(3));
    assert_eq!(store.get_at("a", SECOND), Ok(None));
    assert_eq!(store.get_at("b", SECOND), Ok(Some(b"2".to_vec())));

    log.extend_from_slice(b"$9\r\nshort");
    let mut store = MemoryStore::new();
    assert_eq!(replay_at(&log, &mut store, SECOND), Err(ProtocolError::UnexpectedEof));
    assert_eq!(store.get_at("b", SECOND), Ok(Some(b"2".to_vec())));
}

#[test]
fn replaying_a_record_reruns_the_command() {
    let now = 5 * SECOND + SECOND / 2;
    let command = Command::Expire {
        key: "k".to_string(),
        seconds: 10,
    };
    let record = command.to_aof_frame_at(now).unwrap();
    let bytes = encode_frame(&record);

    let mut original = MemoryStore::new();
    original.set("k".to_string(), b"v".to_vec());
    let mut replayed = MemoryStore::new();
    replayed.set("k".to_string(), b"v".to_vec());

    command.execute_at(&mut original, now);
    assert_eq!(replay_at(&bytes, &mut replayed, now), Ok(1));
    assert_eq!(original.ttl_at("k", now), Ttl::Seconds(10));
    assert_eq!(replayed.ttl_at("k", now), Ttl::Seconds(10));
    assert_eq!(replayed.ttl_at("k", 16 * SECOND - 1), Ttl::Seconds(0));
    assert_eq!(replayed.ttl_at("k", 16 * SECOND), Ttl::Missing);
}

#[test]
fn a_clock_before_the_epoch_still_counts_down() {
    let mut store = MemoryStore::new();
    let now = -5 * SECOND;
    store.set("k".to_string(), b"v".to_vec());
    assert!(store.expire_in("k", 10, now));
    assert_eq!(store.ttl_at("k", now), Ttl::Seconds(10));
    assert_eq!(store.ttl_at("k", now + 3 * SECOND + 1), Ttl::Seconds(6));
    assert_eq!(store.get_at("k", 4 * SECOND), Ok(Some(b"v".to_vec())));
    assert_eq!(store.get_at("k", 5 * SECOND), Ok(None));
    store.set("p".to_string(), b"v".to_vec());
    assert!(store.expire_at_unix_at("p", 0, now));
    assert_eq!(store.ttl_at("p", now), Ttl::Seconds(5));
    assert_eq!(store.cleanup_expired_at(0), 1);
    assert_eq!(store.ttl_at("p", 0), Ttl::Missing);
}

#[test]
fn clock_readings_are_signed_around_the_epoch() {
    assert_eq!(signed_nanos(true, 2, 5), 2 * SECOND + 5);
    assert_eq!(signed_nanos(false, 2, 5), -(2 * SECOND + 5));
    assert_eq!(signed_nanos(false, 0, 0), 0);
}
