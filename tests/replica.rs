use redis_starter_rust::commands::{Command, Outcome};
use redis_starter_rust::db::RedisState;
use redis_starter_rust::frame::Frame;
use redis_starter_rust::get_unix_ts_millis;
use redis_starter_rust::replication::{ReplicationInfo, ReplicationWorker, WorkerAction, REPLICATION_ID};

const REPLICA_ADDR: &str = "127.0.0.1:6380";

fn decode(bytes: &[u8], expect_file: bool) -> (Frame, usize) {
    let mut pos: usize = 0;
    let f = Frame::parse(bytes, &mut pos, expect_file).expect("a complete frame");
    (f, pos)
}

/// The primary runs a frame sent by the replica and answers with bytes.
fn primary_runs(primary: &mut RedisState, frame: &Frame) -> (Vec<u8>, Outcome) {
    let (f, _) = decode(&frame.encode(), false);
    let outcome = Command::from_frame(f).unwrap().apply(&REPLICA_ADDR.to_string(), primary, 0);
    let mut out = Vec::new();
    for r in &outcome.replies {
        r.write_to(&mut out);
    }
    (out, outcome)
}

fn sent(action: WorkerAction) -> Frame {
    match action {
        WorkerAction::Send(f) => f,
        _ => panic!("expected a frame to send"),
    }
}

fn new_worker() -> ReplicationWorker {
    let info = ReplicationInfo::new(Some("127.0.0.1:6379".to_string()), "6380".to_string());
    ReplicationWorker::new(info)
}

#[test]
fn handshake_then_fan_out() {
    let mut primary = RedisState::new(None, "6379".to_string());
    let mut local = RedisState::new(Some("127.0.0.1:6379".to_string()), "6380".to_string());
    let mut worker = new_worker();
    assert_eq!(worker.upstream(), Some("127.0.0.1:6379".to_string()));

    let ping = worker.start();
    assert_eq!(ping.encode(), b"*1\r\n$4\r\nPING\r\n".to_vec());
    let (reply, _) = primary_runs(&mut primary, &ping);
    assert_eq!(reply, b"+PONG\r\n".to_vec());

    let port = sent(worker.on_frame(decode(&reply, false).0).unwrap());
    assert_eq!(port.encode(), b"*3\r\n$8\r\nREPLCONF\r\n$14\r\nlistening-port\r\n$4\r\n6380\r\n".to_vec());
    let (reply, _) = primary_runs(&mut primary, &port);
    assert_eq!(reply, b"+OK\r\n".to_vec());

    let capa = sent(worker.on_frame(decode(&reply, false).0).unwrap());
    assert_eq!(capa.encode(), b"*3\r\n$8\r\nREPLCONF\r\n$4\r\ncapa\r\n$6\r\npsync2\r\n".to_vec());
    let (reply, _) = primary_runs(&mut primary, &capa);
    assert_eq!(reply, b"+OK\r\n".to_vec());

    let psync = sent(worker.on_frame(decode(&reply, false).0).unwrap());
    assert_eq!(psync.encode(), b"*3\r\n$5\r\nPSYNC\r\n$1\r\n?\r\n$2\r\n-1\r\n".to_vec());
    let (reply, _) = primary_runs(&mut primary, &psync);
    let line = format!("+FULLRESYNC {} 0\r\n", REPLICATION_ID);
    assert!(reply.starts_with(line.as_bytes()));
    assert_eq!(reply.len(), line.len() + 5 + 88);

    let (resync, used) = decode(&reply, false);
    assert!(matches!(worker.on_frame(resync), Ok(WorkerAction::Skip)));
    assert!(worker.expects_file());
    let (file, rest) = decode(&reply[used..], true);
    assert_eq!(rest, 5 + 88);
    match &file {
        Frame::File(b) => assert_eq!(b.len(), 88),
        _ => panic!("expected the snapshot"),
    }
    assert!(matches!(worker.on_frame(file), Ok(WorkerAction::Skip)));
    assert!(!worker.expects_file());

    // A client writes on the primary; the write is forwarded to the replica.
    let set = Frame::Array(vec![
        Frame::Bulk(Some(b"SET".to_vec())),
        Frame::Bulk(Some(b"x".to_vec())),
        Frame::Bulk(Some(b"1".to_vec())),
    ]);
    let outcome = Command::from_frame(set).unwrap().apply(&"127.0.0.1:50001".to_string(), &mut primary, 0);
    assert_eq!(outcome.forwards.len(), 1);
    assert_eq!(outcome.forwards[0].0, REPLICA_ADDR);
    let bytes = outcome.forwards[0].1.encode();
    assert_eq!(bytes, b"*3\r\n$3\r\nSET\r\n$1\r\nx\r\n$1\r\n1\r\n".to_vec());

    match worker.on_frame(decode(&bytes, false).0) {
        Ok(WorkerAction::Apply(cmd)) => cmd.apply_replica(&mut local, 0),
        _ => panic!("expected a write to apply"),
    }
    let get = Frame::Array(vec![Frame::Bulk(Some(b"GET".to_vec())), Frame::Bulk(Some(b"x".to_vec()))]);
    let o = Command::from_frame(get).unwrap().apply(&"local".to_string(), &mut local, 1);
    assert_eq!(o.replies[0].encode(), b"$1\r\n1\r\n".to_vec());

    // Anything but a write is skipped on the stream.
    let ping = Frame::Array(vec![Frame::Bulk(Some(b"PING".to_vec()))]);
    assert!(matches!(worker.on_frame(ping), Ok(WorkerAction::Skip)));
}

#[test]
fn handshake_rejects_unexpected_replies() {
    let mut w = new_worker();
    assert!(w.on_frame(Frame::Simple("PONG".to_string())).is_err());
    w.start();
    assert!(w.on_frame(Frame::Simple("OK".to_string())).is_err());
    assert!(w.on_frame(Frame::Error("PONG".to_string())).is_err());
    assert!(matches!(w.on_frame(Frame::Simple("pong".to_string())), Ok(WorkerAction::Send(_))));
    assert!(w.on_frame(Frame::Simple("PONG".to_string())).is_err());
    assert!(matches!(w.on_frame(Frame::Simple("ok".to_string())), Ok(WorkerAction::Send(_))));
    assert!(matches!(w.on_frame(Frame::Simple("OK".to_string())), Ok(WorkerAction::Send(_))));
    assert!(w.on_frame(Frame::Simple("CONTINUE".to_string())).is_err());
    assert!(matches!(w.on_frame(Frame::Simple("FULLRESYNC abc 0".to_string())), Ok(WorkerAction::Skip)));
    assert!(w.on_frame(Frame::Bulk(Some(vec![1]))).is_err());
}

#[test]
fn replication_info_accessors() {
    let mut info = ReplicationInfo::new(None, "6379".to_string());
    assert!(info.is_master());
    assert_eq!(info.get_replication_id(), REPLICATION_ID);
    assert_eq!(info.get_replication_offset(), 0);
    assert_eq!(info.get_listening_port(), "6379");
    assert_eq!(info.get_replicaof_addr(), None);
    info.add_replica("a:1".to_string());
    info.add_replica("b:2".to_string());
    assert_eq!(info.get_replicas(), vec!["a:1".to_string(), "b:2".to_string()]);
    let copy = info.copy();
    assert_eq!(copy.get_replicas().len(), 2);
    let text = String::from_utf8(copy.get_info_bytes()).unwrap();
    assert!(text.contains("connected_slaves:2\n"));
    let replica = ReplicationInfo::new(Some("h:1".to_string()), "7".to_string());
    assert!(!replica.is_master());
}

#[test]
fn clock_reads_after_the_epoch() {
    assert!(get_unix_ts_millis() > 1_600_000_000_000);
}
