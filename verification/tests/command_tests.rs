use ferrocache::command::{Command, CommandError};
use ferrocache::protocol::Frame;
use ferrocache::storage::MemoryStore;

#[test]
fn parses_set_command() {
    let frame = Frame::Array(vec![
        Frame::Bulk(b"SET".to_vec()),
        Frame::Bulk(b"project".to_vec()),
        Frame::Bulk(b"ferrocache".to_vec()),
    ]);

    let command = Command::from_frame(frame).unwrap();

    assert_eq!(
        command,
        Command::SetValue {
            key: "project".to_string(),
            value: b"ferrocache".to_vec()
        }
    );
}

#[test]
fn rejects_unknown_command() {
    let frame = Frame::Array(vec![Frame::Bulk(b"NOPE".to_vec())]);

    let error = Command::from_frame(frame).unwrap_err();

    assert!(matches!(error, CommandError::Unknown(command) if command == "NOPE"));
}

#[test]
fn parses_expire_command() {
    let frame = Frame::Array(vec![
        Frame::Bulk(b"EXPIRE".to_vec()),
        Frame::Bulk(b"project".to_vec()),
        Frame::Bulk(b"30".to_vec()),
    ]);

    let command = Command::from_frame(frame).unwrap();

    assert_eq!(
        command,
        Command::Expire {
            key: "project".to_string(),
            seconds: 30
        }
    );
}

#[test]
fn parses_expireat_command() {
    let frame = Frame::Array(vec![
        Frame::Bulk(b"EXPIREAT".to_vec()),
        Frame::Bulk(b"project".to_vec()),
        Frame::Bulk(b"1780000000".to_vec()),
    ]);

    let command = Command::from_frame(frame).unwrap();

    assert_eq!(
        command,
        Command::ExpireAt {
            key: "project".to_string(),
            unix_seconds: 1_780_000_000
        }
    );
}

#[test]
fn serializes_set_to_aof_frame() {
    let command = Command::SetValue {
        key: "project".to_string(),
        value: b"ferrocache".to_vec(),
    };

    assert_eq!(
        command.to_aof_frame(),
        Some(Frame::Array(vec![
            Frame::Bulk(b"SET".to_vec()),
            Frame::Bulk(b"project".to_vec()),
            Frame::Bulk(b"ferrocache".to_vec()),
        ]))
    );
}

#[test]
fn ttl_command_reports_missing_key() {
    let mut store = MemoryStore::new();
    let response = Command::Ttl {
        key: "missing".to_string(),
    }
    .execute(&mut store);

    assert_eq!(response, Frame::Integer(-2));
}
