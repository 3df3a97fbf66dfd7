use ferrocache::persistence::aof::replay;
use ferrocache::protocol::encoder::encode_frame;
use ferrocache::protocol::parser::{decode_frame, Decoded};
use ferrocache::protocol::Frame;
use ferrocache::storage::MemoryStore;

fn read_one(input: &[u8]) -> Frame {
    match decode_frame(input, true) {
        Ok(Decoded::Frame(frame, _)) => frame,
        _ => panic!("no frame"),
    }
}

#[test]
fn reads_resp_array_command() {
    let frame = read_one(b"*2\r\n$4\r\nECHO\r\n$5\r\nhello\r\n");

    assert_eq!(
        frame,
        Frame::Array(vec![
            Frame::Bulk(b"ECHO".to_vec()),
            Frame::Bulk(b"hello".to_vec())
        ])
    );
}

#[test]
fn reads_inline_command() {
    let frame = read_one(b"PING hello\r\n");

    assert_eq!(
        frame,
        Frame::Array(vec![
            Frame::Bulk(b"PING".to_vec()),
            Frame::Bulk(b"hello".to_vec())
        ])
    );
}

#[test]
fn appends_and_replays_commands() {
    let mut store = MemoryStore::new();
    let mut log = Vec::new();
    log.extend_from_slice(&encode_frame(&Frame::Array(vec![
        Frame::Bulk(b"SET".to_vec()),
        Frame::Bulk(b"project".to_vec()),
        Frame::Bulk(b"ferrocache".to_vec()),
    ])));

    let replayed = replay(&log, &mut store).unwrap();

    assert_eq!(replayed, 1);
    assert_eq!(store.get("project").unwrap(), Some(b"ferrocache".to_vec()));
}
