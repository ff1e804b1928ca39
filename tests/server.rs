use redis_starter_rust::commands::{Command, CommandError, CommandName, Outcome, ReplConfOption};
use redis_starter_rust::db::RedisState;
use redis_starter_rust::frame::Frame;
use redis_starter_rust::replication::{ReplicationInfo, EMPTY_RDB_FILE_BYTES, REPLICATION_ID};

const CLIENT: &str = "127.0.0.1:50000";

fn decode(bytes: &[u8]) -> Frame {
    let mut pos: usize = 0;
    let f = Frame::parse(bytes, &mut pos, false).expect("a complete frame");
    assert_eq!(pos, bytes.len());
    f
}

fn bulk(s: &str) -> Frame {
    Frame::Bulk(Some(s.as_bytes().to_vec()))
}

fn cmd(parts: &[&str]) -> Frame {
    Frame::Array(parts.iter().map(|p| bulk(p)).collect())
}

/// Runs one request given as bytes and returns the encoded replies.
fn run(state: &mut RedisState, request: &[u8], now: u128) -> (Vec<u8>, Outcome) {
    let frame = decode(request);
    let outcome = match Command::from_frame(frame) {
        Ok(c) => c.apply(&CLIENT.to_string(), state, now),
        Err(e) => Outcome { replies: vec![e.to_frame()], forwards: vec![] },
    };
    let mut out = Vec::new();
    for r in &outcome.replies {
        r.write_to(&mut out);
    }
    (out, outcome)
}

fn primary() -> RedisState {
    RedisState::new(None, "6379".to_string())
}

#[test]
fn ping_replies_pong() {
    let mut s = primary();
    assert_eq!(run(&mut s, b"*1\r\n$4\r\nPING\r\n", 0).0, b"+PONG\r\n".to_vec());
}

#[test]
fn set_then_get() {
    let mut s = primary();
    let (r1, o1) = run(&mut s, b"*3\r\n$3\r\nSET\r\n$3\r\nfoo\r\n$3\r\nbar\r\n", 10);
    assert_eq!(r1, b"+OK\r\n".to_vec());
    assert!(o1.forwards.is_empty());
    assert_eq!(run(&mut s, b"*2\r\n$3\r\nGET\r\n$3\r\nfoo\r\n", 11).0, b"$3\r\nbar\r\n".to_vec());
}

#[test]
fn expired_key_reads_as_null() {
    let mut s = primary();
    let t0: u128 = 1_700_000_000_000;
    let set = b"*5\r\n$3\r\nSET\r\n$1\r\nk\r\n$1\r\nv\r\n$2\r\nPX\r\n$3\r\n100\r\n";
    assert_eq!(run(&mut s, set, t0).0, b"+OK\r\n".to_vec());
    assert_eq!(run(&mut s, b"*2\r\n$3\r\nGET\r\n$1\r\nk\r\n", t0 + 200).0, b"$-1\r\n".to_vec());
    assert!(s.get(&"k".to_string()).is_none());
}

#[test]
fn ttl_boundary() {
    let mut s = primary();
    let t0: u128 = 5_000;
    run(&mut s, b"*5\r\n$3\r\nSET\r\n$1\r\nk\r\n$1\r\nv\r\n$2\r\nex\r\n$1\r\n2\r\n", t0);
    match s.get(&"k".to_string()) {
        Some(e) => assert_eq!(e.expiry, Some(7_000)),
        None => panic!("missing entry"),
    }
    assert_eq!(run(&mut s, b"*2\r\n$3\r\nGET\r\n$1\r\nk\r\n", 6_999).0, b"$1\r\nv\r\n".to_vec());
    assert_eq!(run(&mut s, b"*2\r\n$3\r\nGET\r\n$1\r\nk\r\n", 7_000).0, b"$-1\r\n".to_vec());
    assert_eq!(run(&mut s, b"*2\r\n$3\r\nGET\r\n$1\r\nk\r\n", 1).0, b"$-1\r\n".to_vec());
}

#[test]
fn deadline_past_the_clock_range_never_expires() {
    let mut s = primary();
    let far = format!("{}", u128::MAX);
    let f = cmd(&["SET", "k", "v", "PX", &far]);
    Command::from_frame(f).unwrap().apply(&CLIENT.to_string(), &mut s, 10);
    assert_eq!(s.get(&"k".to_string()).unwrap().expiry, None);
}

#[test]
fn inline_ping() {
    let mut s = primary();
    assert_eq!(run(&mut s, b"PING\r\n", 0).0, b"+PONG\r\n".to_vec());
}

#[test]
fn names_ignore_case() {
    let mut s = primary();
    assert_eq!(run(&mut s, b"*2\r\n$4\r\neChO\r\n$2\r\nhi\r\n", 0).0, b"$2\r\nhi\r\n".to_vec());
    assert_eq!(run(&mut s, b"*1\r\n$7\r\nCOMMAND\r\n", 0).0, b"*0\r\n".to_vec());
}

#[test]
fn unknown_command_is_an_error_reply() {
    let mut s = primary();
    assert_eq!(run(&mut s, b"*1\r\n$5\r\nHELLO\r\n", 0).0, b"-ERR: Command not supported\r\n".to_vec());
}

#[test]
fn each_command_error() {
    let e = |f: Frame| Command::from_frame(f).err();
    assert_eq!(e(Frame::Simple("PING".to_string())), Some(CommandError::NotAnArray));
    assert_eq!(e(Frame::Array(vec![])), Some(CommandError::NotAnArray));
    assert_eq!(e(Frame::Array(vec![Frame::Integer(1)])), Some(CommandError::NotAnArray));
    assert_eq!(e(Frame::Array(vec![Frame::Bulk(Some(vec![0xff]))])), Some(CommandError::InvalidUtf8));
    assert_eq!(e(cmd(&["ECHO"])), Some(CommandError::WrongArgCount(CommandName::Echo)));
    assert_eq!(
        e(Frame::Array(vec![bulk("ECHO"), Frame::Integer(3)])),
        Some(CommandError::WrongArgument(CommandName::Echo))
    );
    assert_eq!(e(cmd(&["GET", "a", "b"])), Some(CommandError::WrongArgCount(CommandName::Get)));
    assert_eq!(
        e(Frame::Array(vec![bulk("GET"), Frame::Bulk(Some(vec![0xc3]))])),
        Some(CommandError::InvalidUtf8)
    );
    assert_eq!(e(cmd(&["SET", "k"])), Some(CommandError::WrongArgCount(CommandName::SetCmd)));
    assert_eq!(e(cmd(&["SET", "k", "v", "EX"])), Some(CommandError::WrongArgCount(CommandName::SetCmd)));
    assert_eq!(e(cmd(&["SET", "k", "v", "XX", "1"])), Some(CommandError::InvalidExpiryUnit));
    assert_eq!(e(cmd(&["SET", "k", "v", "PX", "1s"])), Some(CommandError::InvalidNumber));
    assert_eq!(e(cmd(&["SET", "k", "v", "PX", ""])), Some(CommandError::InvalidNumber));
    let huge = format!("{}", u128::MAX);
    assert_eq!(e(cmd(&["SET", "k", "v", "EX", &huge])), Some(CommandError::InvalidNumber));
    assert_eq!(
        e(Frame::Array(vec![bulk("SET"), Frame::Bulk(None), bulk("v")])),
        Some(CommandError::WrongArgument(CommandName::SetCmd))
    );
    assert_eq!(e(cmd(&["INFO"])), Some(CommandError::WrongArgCount(CommandName::Info)));
    assert_eq!(e(cmd(&["REPLCONF", "capa"])), Some(CommandError::WrongArgCount(CommandName::ReplConf)));
    assert_eq!(e(cmd(&["REPLCONF", "nope", "x"])), Some(CommandError::WrongArgument(CommandName::ReplConf)));
    assert_eq!(
        e(Frame::Array(vec![bulk("REPLCONF"), bulk("capa"), bulk("eof"), Frame::Integer(1)])),
        Some(CommandError::WrongArgument(CommandName::ReplConf))
    );
    assert_eq!(e(cmd(&["PSYNC", "?"])), Some(CommandError::WrongArgCount(CommandName::Psync)));
    assert_eq!(e(cmd(&["PSYNC", "?", "x"])), Some(CommandError::InvalidNumber));
}

#[test]
fn error_messages() {
    assert_eq!(CommandError::WrongArgCount(CommandName::Echo).message(), "ERR: Wrong number of arguments for ECHO");
    assert_eq!(CommandError::WrongArgument(CommandName::Psync).message(), "ERR: Wrong argument for PSYNC");
    assert_eq!(CommandError::NotAnArray.message(), "ERR: Need a RESP array as command");
    let mut out = Vec::new();
    CommandError::InvalidExpiryUnit.to_frame().write_to(&mut out);
    assert_eq!(out, b"-ERR: Wrong expiry command\r\n".to_vec());
}

#[test]
fn set_with_simple_string_expiry() {
    let f = Frame::Array(vec![
        bulk("set"),
        bulk("k"),
        bulk("v"),
        Frame::Simple("px".to_string()),
        Frame::Simple("250".to_string()),
    ]);
    match Command::from_frame(f) {
        Ok(Command::SetCmd(s)) => {
            assert_eq!(s.key, "k");
            assert_eq!(s.val, b"v".to_vec());
            assert_eq!(s.expiry_duration_millis, Some(250));
        }
        other => panic!("unexpected {:?}", other.err()),
    }
}

#[test]
fn replconf_options() {
    match Command::from_frame(cmd(&["REPLCONF", "capa", "eof", "psync2"])) {
        Ok(Command::ReplConf(r)) => match r.option {
            ReplConfOption::Capabilities(c) => assert_eq!(c, vec!["eof".to_string(), "psync2".to_string()]),
            _ => panic!("wrong option"),
        },
        _ => panic!("not parsed"),
    }
    let mut s = primary();
    assert_eq!(run(&mut s, b"*3\r\n$8\r\nREPLCONF\r\n$14\r\nlistening-port\r\n$4\r\n6380\r\n", 0).0, b"+OK\r\n".to_vec());
    assert_eq!(
        run(&mut s, b"*3\r\n$8\r\nREPLCONF\r\n$6\r\ngetack\r\n$1\r\n*\r\n", 0).0,
        b"*3\r\n$8\r\nREPLCONF\r\n$3\r\nACK\r\n$1\r\n0\r\n".to_vec()
    );
    match Command::from_frame(cmd(&["REPLCONF", "getack", "*"])) {
        Ok(Command::ReplConf(r)) => assert!(r.apply_replica().is_some()),
        _ => panic!("not parsed"),
    }
    match Command::from_frame(cmd(&["REPLCONF", "capa", "psync2"])) {
        Ok(Command::ReplConf(r)) => assert!(r.apply_replica().is_none()),
        _ => panic!("not parsed"),
    }
}

#[test]
fn info_replication_text() {
    let mut s = primary();
    let expected = format!(
        "# Replication\nrole:master\nconnected_slaves:0\nmaster_repl_offset:0\nmaster_replid:{}\nsecond_repl_offset:0\nrepl_backlog_active:false\nrepl_backlog_size:0\nrepl_backlog_first_byte_offset:0\nrepl_backlog_histlen:0\n",
        REPLICATION_ID
    );
    let mut want = Vec::new();
    Frame::Bulk(Some(expected.clone().into_bytes())).write_to(&mut want);
    assert_eq!(run(&mut s, b"*2\r\n$4\r\nINFO\r\n$11\r\nreplication\r\n", 0).0, want);
    assert_eq!(run(&mut s, b"*2\r\n$4\r\nINFO\r\n$6\r\nmemory\r\n", 0).0, b"-ERR: Invalid section\r\n".to_vec());
    let replica = ReplicationInfo::new(Some("127.0.0.1:6379".to_string()), "6380".to_string());
    let text = String::from_utf8(replica.get_info_bytes()).unwrap();
    assert!(text.starts_with("# Replication\nrole:slave\nconnected_slaves:0\n"));
    assert_eq!(REPLICATION_ID.len(), 40);
}

#[test]
fn psync_full_resync_registers_the_peer() {
    let mut s = primary();
    let (out, o) = run(&mut s, b"*3\r\n$5\r\nPSYNC\r\n$1\r\n?\r\n$2\r\n-1\r\n", 0);
    let mut want = format!("+FULLRESYNC {} 0\r\n$88\r\n", REPLICATION_ID).into_bytes();
    want.extend_from_slice(&EMPTY_RDB_FILE_BYTES);
    assert_eq!(out, want);
    assert_eq!(o.replies.len(), 2);
    assert_eq!(s.get_replicas(), vec![CLIENT.to_string()]);
    assert!(String::from_utf8(s.get_replication_info().get_info_bytes()).unwrap().contains("connected_slaves:1\n"));
    let same = format!("*3\r\n$5\r\nPSYNC\r\n$40\r\n{}\r\n$1\r\n0\r\n", REPLICATION_ID);
    assert_eq!(run(&mut s, same.as_bytes(), 0).0, b"-ERR: Partial resync not supported\r\n".to_vec());
    let mut r = RedisState::new(Some("127.0.0.1:6379".to_string()), "6380".to_string());
    assert_eq!(run(&mut r, b"*3\r\n$5\r\nPSYNC\r\n$1\r\n?\r\n$2\r\n-1\r\n", 0).0, b"-ERR: Not a primary\r\n".to_vec());
    assert!(r.get_replicas().is_empty());
}

#[test]
fn set_after_psync_is_forwarded_to_the_replica() {
    let mut s = primary();
    run(&mut s, b"*3\r\n$5\r\nPSYNC\r\n$1\r\n?\r\n$2\r\n-1\r\n", 0);
    let (out, o) = run(&mut s, b"*3\r\n$3\r\nSET\r\n$1\r\nx\r\n$1\r\n1\r\n", 0);
    assert_eq!(out, b"+OK\r\n".to_vec());
    assert_eq!(o.forwards.len(), 1);
    assert_eq!(o.forwards[0].0, CLIENT);
    assert_eq!(o.forwards[0].1.encode(), b"*3\r\n$3\r\nSET\r\n$1\r\nx\r\n$1\r\n1\r\n".to_vec());
}

#[test]
fn store_operations() {
    let mut s = primary();
    s.insert("a".to_string(), b"1".to_vec(), None);
    s.insert("b".to_string(), b"2".to_vec(), Some(9));
    s.insert("a".to_string(), b"3".to_vec(), Some(4));
    let a = s.get(&"a".to_string()).unwrap();
    assert_eq!(a.value, b"3".to_vec());
    assert_eq!(a.expiry, Some(4));
    s.remove(&"a".to_string());
    assert!(s.get(&"a".to_string()).is_none());
    assert_eq!(s.get(&"b".to_string()).unwrap().value, b"2".to_vec());
    s.remove(&"zzz".to_string());
    assert!(s.get(&"b".to_string()).is_some());
}
