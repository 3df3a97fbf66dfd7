use ferrocache::command::{error_reply, persist_failure_reply, Command, CommandError};
use ferrocache::protocol::Frame;
use ferrocache::session::{finish_recorded_at, plan, plan_at, Action};
use ferrocache::storage::MemoryStore;

fn bulks(items: &[&[u8]]) -> Frame {
    Frame::Array(items.iter().map(|item| Frame::Bulk(item.to_vec())).collect())
}

fn parse(items: &[&[u8]]) -> Result<Command, CommandError> {
    Command::from_frame(bulks(items))
}

#[test]
fn command_names_are_case_insensitive() {
    assert_eq!(parse(&[b"ping"]).unwrap(), Command::Ping(None));
    assert_eq!(parse(&[b"PiNg", b"x"]).unwrap(), Command::Ping(Some(b"x".to_vec())));
    assert_eq!(
        parse(&[b"get", b"k"]).unwrap(),
        Command::Get {
            key: "k".to_string()
        }
    );
    assert_eq!(
        parse(&[b"del", b"a", b"b"]).unwrap(),
        Command::Del {
            keys: vec!["a".to_string(), "b".to_string()]
        }
    );
}

#[test]
fn unknown_command_is_reported_in_upper_case() {
    let error = parse(&[b"nope", b"x"]).unwrap_err();
    assert!(matches!(error, CommandError::Unknown(name) if name == "NOPE"));
}

#[test]
fn reports_each_command_error() {
    assert!(matches!(Command::from_frame(Frame::Null), Err(CommandError::ExpectedArray)));
    assert!(matches!(
        Command::from_frame(Frame::Array(vec![Frame::Integer(1)])),
        Err(CommandError::ExpectedBulk)
    ));
    assert!(matches!(parse(&[]), Err(CommandError::Empty)));
    assert!(matches!(parse(&[b"\xff"]), Err(CommandError::InvalidUtf8)));
    assert!(matches!(parse(&[b"GET", b"\xfe"]), Err(CommandError::InvalidUtf8)));
    assert!(matches!(
        parse(&[b"EXPIRE", b"k", b"soon"]),
        Err(CommandError::InvalidInteger)
    ));
    assert!(matches!(
        parse(&[b"EXPIRE", b"k", b"-1"]),
        Err(CommandError::InvalidInteger)
    ));
    assert!(matches!(parse(&[b"ECHO"]), Err(CommandError::WrongArity("ECHO"))));
    assert!(matches!(parse(&[b"PING", b"a", b"b"]), Err(CommandError::WrongArity("PING"))));
    assert!(matches!(parse(&[b"SET", b"k"]), Err(CommandError::WrongArity("SET"))));
    assert!(matches!(parse(&[b"DEL"]), Err(CommandError::WrongArity("DEL"))));
    assert!(matches!(parse(&[b"EXISTS"]), Err(CommandError::WrongArity("EXISTS"))));
    assert!(matches!(parse(&[b"TTL"]), Err(CommandError::WrongArity("TTL"))));
    assert!(matches!(parse(&[b"PERSIST", b"a", b"b"]), Err(CommandError::WrongArity("PERSIST"))));
    assert!(matches!(parse(&[b"EXPIREAT", b"k"]), Err(CommandError::WrongArity("EXPIREAT"))));
}

#[test]
fn error_replies_carry_the_message() {
    assert_eq!(
        error_reply(&CommandError::Unknown("NOPE".to_string())),
        Frame::Error("ERR unknown command 'NOPE'".to_string())
    );
    assert_eq!(
        error_reply(&CommandError::WrongArity("GET")),
        Frame::Error("ERR wrong number of arguments for 'GET'".to_string())
    );
    assert_eq!(
        error_reply(&CommandError::InvalidInteger),
        Frame::Error("ERR value is not an integer or is out of range".to_string())
    );
    assert_eq!(CommandError::Empty.message(), "empty command");
    assert_eq!(
        persist_failure_reply(),
        Frame::Error("ERR failed to persist command".to_string())
    );
}

#[test]
fn records_only_commands_that_change_the_store() {
    let now: i128 = 1_000_000_000_500;
    assert_eq!(
        Command::Expire {
            key: "k".to_string(),
            seconds: 30
        }
        .to_aof_frame_at(now),
        Some(bulks(&[b"EXPIREAT", b"k", b"1031"]))
    );
    assert_eq!(
        Command::ExpireAt {
            key: "k".to_string(),
            unix_seconds: 7
        }
        .to_aof_frame_at(now),
        Some(bulks(&[b"EXPIREAT", b"k", b"7"]))
    );
    assert_eq!(
        Command::Del {
            keys: vec!["a".to_string(), "b".to_string()]
        }
        .to_aof_frame_at(now),
        Some(bulks(&[b"DEL", b"a", b"b"]))
    );
    assert_eq!(
        Command::Persist {
            key: "k".to_string()
        }
        .to_aof_frame_at(now),
        Some(bulks(&[b"PERSIST", b"k"]))
    );
    assert_eq!(
        Command::Get {
            key: "k".to_string()
        }
        .to_aof_frame_at(now),
        None
    );
    assert_eq!(Command::Ping(None).to_aof_frame_at(now), None);
}

#[test]
fn a_recorded_command_parses_back() {
    let now: i128 = 5_000_000_000;
    let command = Command::Expire {
        key: "k".to_string(),
        seconds: 10,
    };
    let recorded = command.to_aof_frame_at(now).unwrap();
    assert_eq!(
        Command::from_frame(recorded).unwrap(),
        Command::ExpireAt {
            key: "k".to_string(),
            unix_seconds: 15
        }
    );
}

#[test]
fn executes_every_command() {
    let mut store = MemoryStore::new();
    let now: i128 = 1_000 * 1_000_000_000;

    assert_eq!(
        Command::Ping(None).execute_at(&mut store, now),
        Frame::Simple("PONG".to_string())
    );
    assert_eq!(
        Command::Echo(b"hi".to_vec()).execute_at(&mut store, now),
        Frame::Bulk(b"hi".to_vec())
    );
    assert_eq!(
        Command::SetValue {
            key: "a".to_string(),
            value: b"1".to_vec()
        }
        .execute_at(&mut store, now),
        Frame::Simple("OK".to_string())
    );
    assert_eq!(
        Command::Get {
            key: "a".to_string()
        }
        .execute_at(&mut store, now),
        Frame::Bulk(b"1".to_vec())
    );
    assert_eq!(
        Command::Get {
            key: "b".to_string()
        }
        .execute_at(&mut store, now),
        Frame::Null
    );
    assert_eq!(
        Command::Exists {
            keys: vec!["a".to_string(), "a".to_string(), "b".to_string()]
        }
        .execute_at(&mut store, now),
        Frame::Integer(2)
    );
    assert_eq!(
        Command::Expire {
            key: "a".to_string(),
            seconds: 100
        }
        .execute_at(&mut store, now),
        Frame::Integer(1)
    );
    assert_eq!(
        Command::Ttl {
            key: "a".to_string()
        }
        .execute_at(&mut store, now + 500_000_000),
        Frame::Integer(99)
    );
    assert_eq!(
        Command::Persist {
            key: "a".to_string()
        }
        .execute_at(&mut store, now),
        Frame::Integer(1)
    );
    assert_eq!(
        Command::Persist {
            key: "a".to_string()
        }
        .execute_at(&mut store, now),
        Frame::Integer(0)
    );
    assert_eq!(
        Command::ExpireAt {
            key: "a".to_string(),
            unix_seconds: 1_001
        }
        .execute_at(&mut store, now),
        Frame::Integer(1)
    );
    assert_eq!(
        Command::Get {
            key: "a".to_string()
        }
        .execute_at(&mut store, now + 1_000_000_000),
        Frame::Null
    );
    assert_eq!(
        Command::Del {
            keys: vec!["a".to_string(), "b".to_string()]
        }
        .execute_at(&mut store, now),
        Frame::Integer(0)
    );
    assert_eq!(
        Command::Expire {
            key: "missing".to_string(),
            seconds: 5
        }
        .execute_at(&mut store, now),
        Frame::Integer(0)
    );
}

#[test]
fn reading_a_list_as_a_string_is_refused() {
    let mut store = MemoryStore::new();
    store.rpush("l".to_string(), vec![b"x".to_vec()]).unwrap();
    assert_eq!(
        Command::Get {
            key: "l".to_string()
        }
        .execute(&mut store),
        Frame::Error("WRONGTYPE Operation against a key holding the wrong kind of value".to_string())
    );
}

#[test]
fn plans_what_to_do_with_a_frame() {
    let now: i128 = 3_000_000_000;
    let set = bulks(&[b"SET", b"k", b"v"]);
    match plan_at(set, true, now) {
        Action::RecordAndRun { record, command } => {
            assert_eq!(record, bulks(&[b"SET", b"k", b"v"]));
            assert_eq!(
                command,
                Command::SetValue {
                    key: "k".to_string(),
                    value: b"v".to_vec()
                }
            );
        }
        _ => panic!("expected a recorded command"),
    }
    assert!(matches!(plan_at(bulks(&[b"SET", b"k", b"v"]), false, now), Action::Run(_)));
    assert!(matches!(plan_at(bulks(&[b"GET", b"k"]), true, now), Action::Run(_)));
    match plan_at(bulks(&[b"NOPE"]), true, now) {
        Action::Reject { error, reply } => {
            assert!(matches!(error, CommandError::Unknown(name) if name == "NOPE"));
            assert_eq!(reply, Frame::Error("ERR unknown command 'NOPE'".to_string()));
        }
        _ => panic!("expected a rejection"),
    }
}

#[test]
fn a_deadline_before_the_epoch_is_recorded_as_zero() {
    let now: i128 = -20_000_000_000;
    assert_eq!(
        Command::Expire {
            key: "k".to_string(),
            seconds: 10
        }
        .to_aof_frame_at(now),
        Some(bulks(&[b"EXPIREAT", b"k", b"0"]))
    );
    assert_eq!(
        Command::Expire {
            key: "k".to_string(),
            seconds: 30
        }
        .to_aof_frame_at(now + 1),
        Some(bulks(&[b"EXPIREAT", b"k", b"11"]))
    );
}

#[test]
fn a_recorded_command_runs_only_once_appended() {
    let now: i128 = 3_000_000_000;
    let set = Command::SetValue {
        key: "k".to_string(),
        value: b"v".to_vec(),
    };
    let mut store = MemoryStore::new();
    assert_eq!(
        finish_recorded_at(false, set.clone(), &mut store, now),
        persist_failure_reply()
    );
    assert_eq!(store.get_at("k", now), Ok(None));
    assert_eq!(
        finish_recorded_at(true, set, &mut store, now),
        Frame::Simple("OK".to_string())
    );
    assert_eq!(store.get_at("k", now), Ok(Some(b"v".to_vec())));
}

#[test]
fn a_rejected_frame_carries_its_error() {
    match plan(Frame::Simple("PING".to_string()), true) {
        Action::Reject { error, reply } => {
            assert!(matches!(error, CommandError::ExpectedArray));
            assert_eq!(reply, error_reply(&CommandError::ExpectedArray));
        }
        _ => panic!("expected a rejection"),
    }
}
