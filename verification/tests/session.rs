use redis_starter_rust::proto::resp2::{ClientMessage, ProtocolError, Resp2, ServerMessage};
use redis_starter_rust::session::{dispatch, session_step};
use redis_starter_rust::store::Store;

#[test]
fn dispatch_ping_replies_pong() {
    let mut store = Store::new();
    let reply = dispatch(&mut store, ClientMessage::Ping, 0);
    assert_eq!(reply, Some(ServerMessage::SimpleString(b"PONG".to_vec())));
}

#[test]
fn dispatch_echo_replies_bulk() {
    let mut store = Store::new();
    let reply = dispatch(&mut store, ClientMessage::Echo(b"hi".to_vec()), 0);
    assert_eq!(reply, Some(ServerMessage::BulkString(b"hi".to_vec())));
}

#[test]
fn dispatch_command_replies_nothing() {
    let mut store = Store::new();
    let reply = dispatch(&mut store, ClientMessage::Command(b"DOCS".to_vec()), 0);
    assert_eq!(reply, None);
}

#[test]
fn dispatch_get_missing_replies_null() {
    let mut store = Store::new();
    let reply = dispatch(&mut store, ClientMessage::Get(b"foo".to_vec()), 0);
    assert_eq!(reply, Some(ServerMessage::NullString));
}

#[test]
fn scenario_ping_pong() {
    // Client sends PING; the server replies +PONG followed by the terminator.
    let mut codec = Resp2::new();
    let mut store = Store::new();
    codec.feed(&b"PING\r\n".to_vec());
    session_step(&mut codec, &mut store, 0).unwrap();
    assert_eq!(codec.take_output(), b"+PONG\r\n".to_vec());
}

#[test]
fn scenario_array_echo() {
    // Client sends the array form of ECHO hi; the server echoes a bulk string.
    let mut codec = Resp2::new();
    let mut store = Store::new();
    codec.feed(&b"*2\r\n$4\r\nECHO\r\n$2\r\nhi\r\n".to_vec());
    session_step(&mut codec, &mut store, 0).unwrap();
    assert_eq!(codec.take_output(), b"$2\r\nhi\r\n".to_vec());
}

#[test]
fn scenario_set_then_get() {
    // Client sets foo to bar in array form, then gets it inline.
    let mut codec = Resp2::new();
    let mut store = Store::new();
    codec.feed(&b"*3\r\n$3\r\nSET\r\n$3\r\nfoo\r\n$3\r\nbar\r\n".to_vec());
    session_step(&mut codec, &mut store, 0).unwrap();
    assert_eq!(codec.take_output(), b"+OK\r\n".to_vec());
    codec.feed(&b"GET foo\r\n".to_vec());
    session_step(&mut codec, &mut store, 1).unwrap();
    assert_eq!(codec.take_output(), b"$3\r\nbar\r\n".to_vec());
}

#[test]
fn scenario_expired_key_is_null() {
    // SET foo bar PX 10, then a GET 50 milliseconds later: the entry has
    // expired and the server replies with the null string.
    let mut codec = Resp2::new();
    let mut store = Store::new();
    codec.feed(&b"SET foo bar PX 10\r\n".to_vec());
    session_step(&mut codec, &mut store, 0).unwrap();
    assert_eq!(codec.take_output(), b"+OK\r\n".to_vec());
    codec.feed(&b"GET foo\r\n".to_vec());
    session_step(&mut codec, &mut store, 50).unwrap();
    assert_eq!(codec.take_output(), b"$-1\r\n".to_vec());
}

#[test]
fn scenario_malformed_frame_no_reply() {
    // A length prefix that overshoots the element: the read cannot complete,
    // no reply is written, and the connection ends once the peer stops
    // sending (the caller treats a dangling incomplete frame as fatal).
    let mut codec = Resp2::new();
    let mut store = Store::new();
    codec.feed(&b"*2\r\n$4\r\nECHO\r\n$99\r\nhi\r\n".to_vec());
    assert_eq!(
        session_step(&mut codec, &mut store, 0),
        Err(ProtocolError::Incomplete)
    );
    assert_eq!(codec.take_output(), Vec::<u8>::new());
}

#[test]
fn scenario_unrecognized_command_no_reply() {
    // COMMAND is acknowledged but unimplemented: no reply is queued and the
    // session goes on.
    let mut codec = Resp2::new();
    let mut store = Store::new();
    codec.feed(&b"COMMAND DOCS\r\nPING\r\n".to_vec());
    session_step(&mut codec, &mut store, 0).unwrap();
    assert_eq!(codec.take_output(), Vec::<u8>::new());
    session_step(&mut codec, &mut store, 1).unwrap();
    assert_eq!(codec.take_output(), b"+PONG\r\n".to_vec());
}
