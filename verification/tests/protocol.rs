use redis_starter_rust::proto::resp2::{
    read_bulk_str_element, read_length, read_line, read_literal, read_n, ClientMessage,
    ProtocolError, Resp2, ServerMessage, SetOptions,
};

#[test]
fn serialize_null_exact_bytes() {
    let mut codec = Resp2::new();
    codec.write_message(&ServerMessage::NullString).unwrap();
    assert_eq!(codec.take_output(), b"$-1\r\n".to_vec());
}

#[test]
fn serialize_simple_exact_bytes() {
    let mut codec = Resp2::new();
    codec
        .write_message(&ServerMessage::SimpleString(b"PONG".to_vec()))
        .unwrap();
    assert_eq!(codec.take_output(), b"+PONG\r\n".to_vec());
}

#[test]
fn serialize_bulk_exact_bytes() {
    let mut codec = Resp2::new();
    codec
        .write_message(&ServerMessage::BulkString(b"hello ther".to_vec()))
        .unwrap();
    assert_eq!(codec.take_output(), b"$10\r\nhello ther\r\n".to_vec());
}

#[test]
fn serialize_empty_bulk() {
    let mut codec = Resp2::new();
    codec
        .write_message(&ServerMessage::BulkString(Vec::new()))
        .unwrap();
    assert_eq!(codec.take_output(), b"$0\r\n\r\n".to_vec());
}

#[test]
fn bulk_round_trip() {
    // Serializing a bulk reply and reading it back as a frame element
    // reproduces exactly the payload and consumes exactly the bytes written.
    let mut codec = Resp2::new();
    codec
        .write_message(&ServerMessage::BulkString(b"bar".to_vec()))
        .unwrap();
    let out = codec.take_output();
    let (payload, end) = read_bulk_str_element(&out, 0).unwrap();
    assert_eq!(payload, b"bar".to_vec());
    assert_eq!(end, out.len());
}

#[test]
fn read_line_trims_terminator() {
    let buf = b"PING\r\nrest".to_vec();
    let (line, p) = read_line(&buf, 0).unwrap();
    assert_eq!(line, b"PING".to_vec());
    assert_eq!(p, 6);
}

#[test]
fn read_length_accepts_plus_sign() {
    let buf = b"+2\r\n".to_vec();
    let (n, p) = read_length(&buf, 0).unwrap();
    assert_eq!(n, 2);
    assert_eq!(p, 4);
}

#[test]
fn read_length_rejects_garbage() {
    let buf = b"2x\r\n".to_vec();
    assert_eq!(read_length(&buf, 0), Err(ProtocolError::ParseInt));
}

#[test]
fn read_length_rejects_huge_number() {
    let buf = b"99999999999999999999999999999999\r\n".to_vec();
    assert_eq!(read_length(&buf, 0), Err(ProtocolError::ParseInt));
}

#[test]
fn read_n_exact() {
    let buf = b"abcdef".to_vec();
    let (data, p) = read_n(&buf, 1, 3).unwrap();
    assert_eq!(data, b"bcd".to_vec());
    assert_eq!(p, 4);
}

#[test]
fn read_n_incomplete() {
    let buf = b"ab".to_vec();
    assert_eq!(read_n(&buf, 0, 3), Err(ProtocolError::Incomplete));
}

#[test]
fn read_literal_mismatch() {
    let buf = b"PING\r\n".to_vec();
    assert_eq!(read_literal(&buf, 0, &b"$".to_vec()), Err(ProtocolError::ParsingFailed));
    assert_eq!(read_literal(&buf, 0, &b"P".to_vec()), Ok(1));
}

#[test]
fn inline_ping_parses() {
    let mut codec = Resp2::new();
    codec.feed(&b"PING\r\n".to_vec());
    assert_eq!(codec.read_message().unwrap(), ClientMessage::Ping);
}

#[test]
fn verb_is_case_insensitive() {
    let mut codec = Resp2::new();
    codec.feed(&b"PiNg\r\n".to_vec());
    assert_eq!(codec.read_message().unwrap(), ClientMessage::Ping);
}

#[test]
fn array_form_echo_parses() {
    let mut codec = Resp2::new();
    codec.feed(&b"*2\r\n$4\r\nECHO\r\n$2\r\nhi\r\n".to_vec());
    assert_eq!(codec.read_message().unwrap(), ClientMessage::Echo(b"hi".to_vec()));
}

#[test]
fn echo_joins_trailing_tokens() {
    let mut codec = Resp2::new();
    codec.feed(&b"ECHO hello   there\r\n".to_vec());
    assert_eq!(
        codec.read_message().unwrap(),
        ClientMessage::Echo(b"hello there".to_vec())
    );
}

#[test]
fn echo_with_no_argument_is_empty() {
    let mut codec = Resp2::new();
    codec.feed(&b"ECHO\r\n".to_vec());
    assert_eq!(codec.read_message().unwrap(), ClientMessage::Echo(Vec::new()));
}

#[test]
fn command_verb_keeps_first_argument() {
    let mut codec = Resp2::new();
    codec.feed(&b"COMMAND DOCS\r\n".to_vec());
    assert_eq!(
        codec.read_message().unwrap(),
        ClientMessage::Command(b"DOCS".to_vec())
    );
}

#[test]
fn set_with_px_option() {
    let mut codec = Resp2::new();
    codec.feed(&b"SET foo bar PX 10\r\n".to_vec());
    assert_eq!(
        codec.read_message().unwrap(),
        ClientMessage::SetCmd(b"foo".to_vec(), b"bar".to_vec(), SetOptions { px: Some(10) })
    );
}

#[test]
fn set_with_unknown_option_is_ignored() {
    let mut codec = Resp2::new();
    codec.feed(&b"SET foo bar EX 10\r\n".to_vec());
    assert_eq!(
        codec.read_message().unwrap(),
        ClientMessage::SetCmd(b"foo".to_vec(), b"bar".to_vec(), SetOptions { px: None })
    );
}

#[test]
fn set_with_bad_px_value_is_fatal() {
    let mut codec = Resp2::new();
    codec.feed(&b"SET foo bar PX soon\r\n".to_vec());
    assert_eq!(codec.read_message(), Err(ProtocolError::ParseInt));
}

#[test]
fn unknown_verb_is_fatal() {
    let mut codec = Resp2::new();
    codec.feed(&b"FLUSHALL\r\n".to_vec());
    assert_eq!(codec.read_message(), Err(ProtocolError::Generic));
}

#[test]
fn missing_arguments_are_fatal() {
    let mut codec = Resp2::new();
    codec.feed(&b"GET\r\n".to_vec());
    assert_eq!(codec.read_message(), Err(ProtocolError::Generic));
    let mut codec = Resp2::new();
    codec.feed(&b"SET foo\r\n".to_vec());
    assert_eq!(codec.read_message(), Err(ProtocolError::Generic));
}

#[test]
fn blank_line_means_connection_closed() {
    let mut codec = Resp2::new();
    codec.feed(&b"\r\n".to_vec());
    assert_eq!(codec.read_message(), Err(ProtocolError::ClientConnectionClosed));
}

#[test]
fn empty_buffer_needs_more_bytes() {
    let mut codec = Resp2::new();
    assert_eq!(codec.read_message(), Err(ProtocolError::Incomplete));
}

#[test]
fn bad_element_count_is_fatal() {
    let mut codec = Resp2::new();
    codec.feed(&b"*x\r\n".to_vec());
    assert_eq!(codec.read_message(), Err(ProtocolError::ParseInt));
}

#[test]
fn missing_dollar_is_fatal() {
    let mut codec = Resp2::new();
    codec.feed(&b"*1\r\nPING\r\n".to_vec());
    assert_eq!(codec.read_message(), Err(ProtocolError::ParsingFailed));
}

#[test]
fn partial_request_then_rest() {
    let mut codec = Resp2::new();
    codec.feed(&b"PI".to_vec());
    assert_eq!(codec.read_message(), Err(ProtocolError::Incomplete));
    codec.feed(&b"NG\r\n".to_vec());
    assert_eq!(codec.read_message().unwrap(), ClientMessage::Ping);
}

#[test]
fn two_requests_in_one_buffer() {
    let mut codec = Resp2::new();
    codec.feed(&b"PING\r\nECHO hi\r\n".to_vec());
    assert_eq!(codec.read_message().unwrap(), ClientMessage::Ping);
    assert_eq!(codec.read_message().unwrap(), ClientMessage::Echo(b"hi".to_vec()));
}
