use redis_starter_rust::connection::FrameBuffer;
use redis_starter_rust::frame::{Error, Frame};

fn parse_all(bytes: &[u8], expect_file: bool) -> (Result<Frame, Error>, usize) {
    let mut pos: usize = 0;
    let r = Frame::parse(bytes, &mut pos, expect_file);
    (r, pos)
}

fn round_trip(f: &Frame, expect_file: bool) {
    let bytes = f.encode();
    let (r, pos) = parse_all(&bytes, expect_file);
    let back = r.expect("the encoding decodes");
    assert_eq!(pos, bytes.len());
    assert_eq!(back.encode(), bytes);
}

#[test]
fn encodes_each_kind() {
    assert_eq!(Frame::Simple("OK".to_string()).encode(), b"+OK\r\n".to_vec());
    assert_eq!(Frame::Error("ERR: x".to_string()).encode(), b"-ERR: x\r\n".to_vec());
    assert_eq!(Frame::Integer(-42).encode(), b":-42\r\n".to_vec());
    assert_eq!(Frame::Integer(i64::MIN).encode(), b":-9223372036854775808\r\n".to_vec());
    assert_eq!(Frame::Bulk(None).encode(), b"$-1\r\n".to_vec());
    assert_eq!(Frame::Bulk(Some(b"bar".to_vec())).encode(), b"$3\r\nbar\r\n".to_vec());
    assert_eq!(Frame::File(b"abcd".to_vec()).encode(), b"$4\r\nabcd".to_vec());
    assert_eq!(Frame::Null.encode(), Vec::<u8>::new());
    assert_eq!(Frame::Array(vec![]).encode(), b"*0\r\n".to_vec());
    let set = Frame::Array(vec![
        Frame::Bulk(Some(b"SET".to_vec())),
        Frame::Bulk(Some(b"x".to_vec())),
        Frame::Bulk(Some(b"1".to_vec())),
    ]);
    assert_eq!(set.encode(), b"*3\r\n$3\r\nSET\r\n$1\r\nx\r\n$1\r\n1\r\n".to_vec());
    assert_eq!(set.len(), 27);
}

#[test]
fn round_trips_every_writable_kind() {
    round_trip(&Frame::Simple("PONG".to_string()), false);
    round_trip(&Frame::Simple("héllo wörld".to_string()), false);
    round_trip(&Frame::Error("ERR: bad".to_string()), false);
    round_trip(&Frame::Integer(0), false);
    round_trip(&Frame::Integer(i64::MAX), false);
    round_trip(&Frame::Integer(i64::MIN), false);
    round_trip(&Frame::Bulk(None), false);
    round_trip(&Frame::Bulk(Some(vec![0, 13, 10, 255])), false);
    round_trip(&Frame::File(vec![1, 2, 3]), true);
    round_trip(
        &Frame::Array(vec![
            Frame::Integer(7),
            Frame::Array(vec![Frame::Bulk(None), Frame::Simple("a".to_string())]),
            Frame::Bulk(Some(vec![])),
        ]),
        false,
    );
}

#[test]
fn decodes_values() {
    match parse_all(b"+PONG\r\n", false) {
        (Ok(Frame::Simple(s)), 7) => assert_eq!(s, "PONG"),
        other => panic!("unexpected {:?}", other),
    }
    match parse_all(b"-ERR x\r\n", false) {
        (Ok(Frame::Error(s)), 8) => assert_eq!(s, "ERR x"),
        other => panic!("unexpected {:?}", other),
    }
    match parse_all(b":-17\r\n", false) {
        (Ok(Frame::Integer(-17)), 6) => {}
        other => panic!("unexpected {:?}", other),
    }
    match parse_all(b"$-1\r\n", false) {
        (Ok(Frame::Bulk(None)), 5) => {}
        other => panic!("unexpected {:?}", other),
    }
    match parse_all(b"$3\r\nabcextra", true) {
        (Ok(Frame::File(b)), 7) => assert_eq!(b, b"abc".to_vec()),
        other => panic!("unexpected {:?}", other),
    }
}

#[test]
fn every_proper_prefix_is_incomplete() {
    let f = Frame::Array(vec![
        Frame::Bulk(Some(b"SET".to_vec())),
        Frame::Simple("ok".to_string()),
        Frame::Integer(-5),
        Frame::Bulk(None),
    ]);
    let bytes = f.encode();
    for k in 0..bytes.len() {
        let mut pos: usize = 0;
        match Frame::parse(&bytes[..k], &mut pos, false) {
            Err(Error::Incomplete) => assert_eq!(pos, 0),
            other => panic!("prefix {} gave {:?}", k, other),
        }
    }
    let file = Frame::File(b"snapshot".to_vec()).encode();
    for k in 0..file.len() {
        let mut pos: usize = 0;
        assert!(matches!(Frame::parse(&file[..k], &mut pos, true), Err(Error::Incomplete)));
    }
}

#[test]
fn check_agrees_with_parse() {
    let mut pos: usize = 0;
    assert!(Frame::check(b"*1\r\n$4\r\nPING\r\n", &mut pos, false).is_ok());
    assert_eq!(pos, 14);
    let mut pos: usize = 0;
    assert!(matches!(Frame::check(b"*1\r\n$4\r\nPI", &mut pos, false), Err(Error::Incomplete)));
    assert_eq!(pos, 0);
    let mut pos: usize = 0;
    assert!(matches!(Frame::check(b"$x\r\n", &mut pos, false), Err(Error::Other(_))));
    assert_eq!(pos, 0);
}

#[test]
fn rejects_malformed_frames() {
    assert!(matches!(parse_all(b"$1a\r\nx\r\n", false).0, Err(Error::Other(_))));
    assert!(matches!(parse_all(b"$\r\n\r\n", false).0, Err(Error::Other(_))));
    assert!(matches!(parse_all(b"$1\r\nxyz", false).0, Err(Error::Other(_))));
    assert!(matches!(parse_all(b"*-1\r\n", false).0, Err(Error::Other(_))));
    assert!(matches!(parse_all(b":12a\r\n", false).0, Err(Error::Other(_))));
    assert!(matches!(parse_all(b":9223372036854775808\r\n", false).0, Err(Error::Other(_))));
    assert!(matches!(parse_all(b"+\xff\r\n", false).0, Err(Error::Other(_))));
    assert!(matches!(parse_all(b"$99999999999999999999999\r\n", false).0, Err(Error::Other(_))));
    assert!(matches!(parse_all(b"", false).0, Err(Error::Incomplete)));
}

#[test]
fn inline_command_splits_on_single_spaces() {
    match parse_all(b"SET a  b\r\n", false) {
        (Ok(Frame::Array(items)), 10) => {
            let tokens: Vec<Vec<u8>> = items
                .into_iter()
                .map(|f| match f {
                    Frame::Bulk(Some(b)) => b,
                    other => panic!("unexpected {:?}", other),
                })
                .collect();
            assert_eq!(tokens, vec![b"SET".to_vec(), b"a".to_vec(), vec![], b"b".to_vec()]);
        }
        other => panic!("unexpected {:?}", other),
    }
}

#[test]
fn buffer_takes_frames_off_the_front() {
    let mut buf = FrameBuffer::new();
    assert!(buf.is_empty());
    buf.extend(b"+OK\r\n:1");
    match buf.parse_frame(false) {
        Ok(Some(Frame::Simple(s))) => assert_eq!(s, "OK"),
        other => panic!("unexpected {:?}", other),
    }
    assert!(matches!(buf.parse_frame(false), Ok(None)));
    assert!(matches!(buf.closed(), Err(Error::Other(_))));
    buf.extend(b"\r\n");
    assert!(matches!(buf.parse_frame(false), Ok(Some(Frame::Integer(1)))));
    assert!(buf.is_empty());
    assert!(matches!(buf.closed(), Ok(None)));
    buf.extend(b"&oops");
    assert!(matches!(buf.parse_frame(false), Ok(None)));
    buf.extend(b"\r\n$x\r\n");
    assert!(matches!(buf.parse_frame(false), Ok(Some(Frame::Array(_)))));
    assert!(matches!(buf.parse_frame(false), Err(Error::Other(_))));
}
