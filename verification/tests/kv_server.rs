use rust_learning_path::cmd::{command_is, execute, Store};
use rust_learning_path::connection::{serve_step, write_response, Step};
use rust_learning_path::protocol::{RespError, RespValue};

fn args(parts: &[&[u8]]) -> Vec<Vec<u8>> {
    parts.iter().map(|p| p.to_vec()).collect()
}

fn simple(v: &RespValue) -> &str {
    match v {
        RespValue::SimpleString(s) => s,
        other => panic!("expected a simple string, got {:?}", other),
    }
}

fn error(v: &RespValue) -> &str {
    match v {
        RespValue::Error(s) => s,
        other => panic!("expected an error, got {:?}", other),
    }
}

fn bulk(v: &RespValue) -> Option<&Vec<u8>> {
    match v {
        RespValue::BulkString(b) => b.as_ref(),
        other => panic!("expected a bulk string, got {:?}", other),
    }
}

#[test]
fn ping_answers_pong_in_any_case_and_with_extra_arguments() {
    let mut db = Store::new();
    assert_eq!(simple(&execute(args(&[b"PING"]), &mut db)), "PONG");
    assert_eq!(simple(&execute(args(&[b"pInG", b"extra"]), &mut db)), "PONG");
}

#[test]
fn law_get_after_set_returns_the_value() {
    let mut db = Store::new();
    assert_eq!(simple(&execute(args(&[b"SET", b"k", b"v1"]), &mut db)), "OK");
    assert_eq!(bulk(&execute(args(&[b"get", b"k"]), &mut db)), Some(&b"v1".to_vec()));
    assert_eq!(simple(&execute(args(&[b"set", "键".as_bytes(), b"\x00\xff"]), &mut db)), "OK");
    assert_eq!(bulk(&execute(args(&[b"GET", "键".as_bytes()]), &mut db)), Some(&b"\x00\xff".to_vec()));
    assert_eq!(simple(&execute(args(&[b"SET", b"k", b"v2"]), &mut db)), "OK");
    assert_eq!(bulk(&execute(args(&[b"GET", b"k"]), &mut db)), Some(&b"v2".to_vec()));
}

#[test]
fn law_set_keeps_other_keys() {
    let mut db = Store::new();
    execute(args(&[b"SET", b"a", b"1"]), &mut db);
    execute(args(&[b"SET", b"b", b"2"]), &mut db);
    assert_eq!(bulk(&execute(args(&[b"GET", b"a"]), &mut db)), Some(&b"1".to_vec()));
    assert_eq!(bulk(&execute(args(&[b"GET", b"c"]), &mut db)), None);
}

#[test]
fn law_only_set_writes_and_errors_keep_the_store() {
    let mut db = Store::new();
    assert_eq!(error(&execute(args(&[b"SET", b"k"]), &mut db)), "ERR wrong number of arguments for 'SET'");
    assert_eq!(error(&execute(args(&[b"SET", b"\xff", b"v"]), &mut db)), "ERR key must be UTF-8");
    assert_eq!(error(&execute(args(&[b"DEL", b"k"]), &mut db)), "ERR unknown command");
    assert_eq!(bulk(&execute(args(&[b"GET", b"k"]), &mut db)), None);
    assert_eq!(error(&execute(args(&[b"GET", b"\xff"]), &mut db)), "ERR key must be UTF-8");
}

#[test]
fn command_errors() {
    let mut db = Store::new();
    assert_eq!(error(&execute(Vec::new(), &mut db)), "ERR empty command");
    assert_eq!(error(&execute(args(&[b"GET"]), &mut db)), "ERR wrong number of arguments for 'GET'");
    assert_eq!(error(&execute(args(&[b"GET", b"a", b"b"]), &mut db)), "ERR wrong number of arguments for 'GET'");
    assert_eq!(error(&execute(args(&[b"GET", b"\xc3\x28"]), &mut db)), "ERR key must be UTF-8");
    assert_eq!(error(&execute(args(&[b"PINGX"]), &mut db)), "ERR unknown command");
}

#[test]
fn law_command_names_ignore_ascii_case_only() {
    assert!(command_is(b"ping", b"PING"));
    assert!(command_is(b"PiNg", b"PING"));
    assert!(!command_is(b"PIN", b"PING"));
    assert!(!command_is("ＰＩＮＧ".as_bytes(), b"PING"));
    assert!(!command_is(b"P\xffNG", b"PING"));
}

#[test]
fn responses_are_written_like_the_connection_writes_them() {
    let mut out = Vec::new();
    write_response(&mut out, &RespValue::Integer(-42));
    write_response(&mut out, &RespValue::Array(Vec::new()));
    write_response(&mut out, &RespValue::BulkString(None));
    write_response(&mut out, &RespValue::BulkString(Some(b"ab".to_vec())));
    write_response(&mut out, &RespValue::SimpleString("OK".to_string()));
    write_response(&mut out, &RespValue::Error("ERR x".to_string()));
    assert_eq!(
        out,
        b":-42\r\n-ERR nested arrays not supported in response\r\n$-1\r\n$2\r\nab\r\n+OK\r\n-ERR x\r\n".to_vec()
    );
}

#[test]
fn error_messages_display_like_the_error_type() {
    assert_eq!(RespError::Io("EOF".to_string()).message(), "IO错误: EOF");
    assert_eq!(RespError::Parse("x".to_string()).message(), "协议解析错误: x");
    assert_eq!(RespError::Eof.message(), "连接已关闭");
}

#[test]
fn a_session_serves_pipelined_commands() {
    let mut db = Store::new();
    let mut buf = b"*3\r\n$3\r\nSET\r\n$1\r\nk\r\n$2\r\nhi\r\n*2\r\n$3\r\nGET\r\n$1\r\nk\r\n*1\r\n$4".to_vec();
    let mut sent = Vec::new();
    loop {
        match serve_step(&buf, false, &mut db) {
            Step::Reply { bytes, consumed } => {
                sent.extend_from_slice(&bytes);
                buf.drain(..consumed);
            }
            Step::NeedMore => break,
            Step::Close { .. } => panic!("closed early"),
        }
    }
    assert_eq!(sent, b"+OK\r\n$2\r\nhi\r\n".to_vec());
    assert_eq!(buf, b"*1\r\n$4".to_vec());
    match serve_step(&buf, true, &mut db) {
        Step::Close { bytes } => {
            let mut want = b"-".to_vec();
            want.extend_from_slice("ERR 协议解析错误: 行未以 CRLF 结尾".as_bytes());
            want.extend_from_slice(b"\r\n");
            assert_eq!(bytes, want);
        }
        other => panic!("{:?}", other),
    }
    match serve_step(b"*1\r\n$4\r\nPI", true, &mut db) {
        Step::Close { bytes } => {
            let mut want = b"-".to_vec();
            want.extend_from_slice("ERR IO错误: early eof".as_bytes());
            want.extend_from_slice(b"\r\n");
            assert_eq!(bytes, want);
        }
        other => panic!("{:?}", other),
    }
}

#[test]
fn a_refused_request_is_answered_and_closes() {
    let mut db = Store::new();
    match serve_step(b"GET k\r\n", false, &mut db) {
        Step::Close { bytes } => {
            let mut want = b"-".to_vec();
            want.extend_from_slice("ERR 协议解析错误: 期望数组标识 '*'".as_bytes());
            want.extend_from_slice(b"\r\n");
            assert_eq!(bytes, want);
        }
        other => panic!("{:?}", other),
    }
}

#[test]
fn a_client_leaving_between_lines_closes_silently() {
    let mut db = Store::new();
    match serve_step(b"*1\r\n$", true, &mut db) {
        Step::Close { bytes } => assert!(bytes.is_empty()),
        other => panic!("{:?}", other),
    }
    match serve_step(b"", true, &mut db) {
        Step::Close { bytes } => {
            let mut want = b"-".to_vec();
            want.extend_from_slice("ERR IO错误: EOF".as_bytes());
            want.extend_from_slice(b"\r\n");
            assert_eq!(bytes, want);
        }
        other => panic!("{:?}", other),
    }
}
