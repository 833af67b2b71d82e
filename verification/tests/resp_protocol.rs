use rust_learning_path::decimal::{parse_i64, push_i64_text, push_nat_digits};
use rust_learning_path::protocol::{
    parse_decimal_i64, read_array_of_bulk_strings, write_bulk_string, write_error,
    write_nil_bulk, write_simple_string, Decoded, RespError, RespValue,
};

fn complete(buf: &[u8], eof: bool) -> (Vec<Vec<u8>>, usize) {
    match read_array_of_bulk_strings(buf, eof) {
        Decoded::Complete { args, consumed } => (args, consumed),
        other => panic!("expected a complete command, got {:?}", other),
    }
}

fn parse_failure(buf: &[u8], eof: bool) -> String {
    match read_array_of_bulk_strings(buf, eof) {
        Decoded::Failed(RespError::Parse(m)) => m,
        other => panic!("expected a parse error, got {:?}", other),
    }
}

fn io_failure(buf: &[u8], eof: bool) -> String {
    match read_array_of_bulk_strings(buf, eof) {
        Decoded::Failed(RespError::Io(m)) => m,
        other => panic!("expected an I/O error, got {:?}", other),
    }
}

fn is_incomplete(buf: &[u8], eof: bool) -> bool {
    matches!(read_array_of_bulk_strings(buf, eof), Decoded::Incomplete)
}

fn encode_command(args: &[&[u8]]) -> Vec<u8> {
    let mut out = format!("*{}\r\n", args.len()).into_bytes();
    for a in args {
        out.extend_from_slice(format!("${}\r\n", a.len()).as_bytes());
        out.extend_from_slice(a);
        out.extend_from_slice(b"\r\n");
    }
    out
}

#[test]
fn decodes_a_get_command() {
    let buf = b"*2\r\n$3\r\nGET\r\n$1\r\nk\r\n";
    let (args, consumed) = complete(buf, false);
    assert_eq!(args, vec![b"GET".to_vec(), b"k".to_vec()]);
    assert_eq!(consumed, buf.len());
}

#[test]
fn decoding_stops_at_the_end_of_the_first_command() {
    let mut buf = b"*1\r\n$4\r\nPING\r\n".to_vec();
    let first = buf.len();
    buf.extend_from_slice(b"*1\r\n$4\r\nPI");
    let (args, consumed) = complete(&buf, false);
    assert_eq!(args, vec![b"PING".to_vec()]);
    assert_eq!(consumed, first);
}

#[test]
fn law_encoded_commands_decode_back() {
    let cases: Vec<Vec<&[u8]>> = vec![
        vec![],
        vec![b""],
        vec![b"SET", b"key", b"va\r\nlue"],
        vec![b"a", b"\x00\xff\n", b"0123456789012"],
    ];
    for args in cases {
        let enc = encode_command(&args);
        for eof in [false, true] {
            let mut buf = enc.clone();
            buf.extend_from_slice(b"trailing");
            let (got, consumed) = complete(&buf, eof);
            let want: Vec<Vec<u8>> = args.iter().map(|a| a.to_vec()).collect();
            assert_eq!(got, want);
            assert_eq!(consumed, enc.len());
        }
    }
}

#[test]
fn law_closed_stream_never_waits() {
    let prefixes: Vec<&[u8]> = vec![b"", b"*", b"*2", b"*2\r", b"*2\r\n", b"*2\r\n$", b"*2\r\n$3\r\nGE", b"*2\r\n$3\r\nGET\r"];
    for p in prefixes {
        assert!(is_incomplete(p, false), "prefix {:?} should wait", p);
        assert!(!is_incomplete(p, true), "prefix {:?} should settle", p);
    }
}

#[test]
fn empty_closed_stream_is_an_eof_io_error() {
    assert_eq!(io_failure(b"", true), "EOF");
}

#[test]
fn truncated_argument_is_an_early_eof() {
    assert_eq!(io_failure(b"*2\r\n", true), "early eof");
    assert_eq!(io_failure(b"*1\r\n$3\r\nab", true), "early eof");
    assert_eq!(io_failure(b"*1\r\n$3\r\nabc\r", true), "early eof");
}

#[test]
fn missing_length_line_is_eof() {
    assert!(matches!(read_array_of_bulk_strings(b"*1\r\n$", true), Decoded::Failed(RespError::Eof)));
}

#[test]
fn parse_errors_name_the_broken_rule() {
    assert_eq!(parse_failure(b"+OK\r\n", false), "期望数组标识 '*'");
    assert_eq!(parse_failure(b"*2", true), "行未以 CRLF 结尾");
    assert_eq!(parse_failure(b"*2\n", false), "行未以 CRLF 结尾");
    assert_eq!(parse_failure(b"\x2a\n", false), "行未以 CRLF 结尾");
    assert_eq!(parse_failure(b"*-1\r\n", false), "数组元素个数不能为负");
    assert_eq!(parse_failure(b"*x\r\n", false), "数字解析失败");
    assert_eq!(parse_failure(b"*\xff\r\n", false), "数字包含非 UTF-8 字节");
    assert_eq!(parse_failure(b"*1\r\n:1\r\n", false), "命令参数必须为批量字符串");
    assert_eq!(parse_failure(b"*1\r\n$-1\r\n", false), "命令参数不允许为 nil");
    assert_eq!(parse_failure(b"*1\r\n$-2\r\n", false), "非法的批量字符串长度");
    assert_eq!(parse_failure(b"*1\r\n$1\r\naXY", false), "批量字符串未正确以 CRLF 结尾");
}

#[test]
fn header_numbers_follow_the_i64_grammar() {
    let (args, _) = complete(b"*+1\r\n$04\r\nPING\r\n", false);
    assert_eq!(args, vec![b"PING".to_vec()]);
    let (args, _) = complete(b"*0\r\n", false);
    assert!(args.is_empty());
}

#[test]
fn parse_i64_edge_cases() {
    assert_eq!(parse_i64(b"9223372036854775807"), Some(i64::MAX));
    assert_eq!(parse_i64(b"-9223372036854775808"), Some(i64::MIN));
    assert_eq!(parse_i64(b"9223372036854775808"), None);
    assert_eq!(parse_i64(b"-9223372036854775809"), None);
    assert_eq!(parse_i64(b"00000000000000000000000000042"), Some(42));
    assert_eq!(parse_i64(b"+7"), Some(7));
    assert_eq!(parse_i64(b"-0"), Some(0));
    assert_eq!(parse_i64(b""), None);
    assert_eq!(parse_i64(b"+"), None);
    assert_eq!(parse_i64(b"-"), None);
    assert_eq!(parse_i64(b" 1"), None);
    assert_eq!(parse_i64(b"1a"), None);
    assert_eq!(parse_i64(b"-+1"), None);
    for s in ["0", "1", "-1", "123456", "-99999999999"] {
        assert_eq!(parse_i64(s.as_bytes()), s.parse::<i64>().ok());
    }
}

#[test]
fn parse_decimal_i64_reports_utf8_before_grammar() {
    assert!(matches!(parse_decimal_i64(b"12"), Ok(12)));
    match parse_decimal_i64(b"1\xc3") {
        Err(RespError::Parse(m)) => assert_eq!(m, "数字包含非 UTF-8 字节"),
        other => panic!("{:?}", other),
    }
    match parse_decimal_i64("１".as_bytes()) {
        Err(RespError::Parse(m)) => assert_eq!(m, "数字解析失败"),
        other => panic!("{:?}", other),
    }
}

#[test]
fn law_integer_text_reads_back() {
    for n in [0i64, 1, -1, 9, 10, -10, 4096, i64::MAX, i64::MIN] {
        let mut out = Vec::new();
        push_i64_text(&mut out, n);
        assert_eq!(out, n.to_string().into_bytes());
        assert_eq!(parse_i64(&out), Some(n));
    }
    let mut out = Vec::new();
    push_nat_digits(&mut out, 0);
    push_nat_digits(&mut out, 1200);
    assert_eq!(out, b"01200");
}

#[test]
fn reply_writers_frame_their_payloads() {
    let mut out = Vec::new();
    write_simple_string(&mut out, "PONG");
    write_error(&mut out, "ERR 错");
    write_bulk_string(&mut out, b"hello");
    write_bulk_string(&mut out, b"");
    write_nil_bulk(&mut out);
    let mut want = b"+PONG\r\n-ERR ".to_vec();
    want.extend_from_slice("错".as_bytes());
    want.extend_from_slice(b"\r\n$5\r\nhello\r\n$0\r\n\r\n$-1\r\n");
    assert_eq!(out, want);
}

#[test]
fn law_decided_requests_stay_decided() {
    let decided: Vec<&[u8]> = vec![
        b"*1\r\n$4\r\nPING\r\n",
        b"+",
        b"*-3\r\n",
        b"*1\r\n$1\r\nabc",
        b"*1\r\n$-1\r\n",
    ];
    for s in decided {
        let before = format!("{:?}", read_array_of_bulk_strings(s, false));
        for extra in [&b""[..], b"*2\r\n", b"\r\n\r\n\xff"] {
            let mut longer = s.to_vec();
            longer.extend_from_slice(extra);
            for eof in [false, true] {
                assert_eq!(format!("{:?}", read_array_of_bulk_strings(&longer, eof)), before);
            }
        }
    }
}

#[test]
fn utf8_checks_match_std_on_malformed_sequences() {
    for bad in [&b"\xc0\x80"[..], b"\xed\xa0\x80", b"\xf4\x90\x80\x80", b"\x80", b"1\xe2\x82"] {
        assert!(std::str::from_utf8(bad).is_err());
        match parse_decimal_i64(bad) {
            Err(RespError::Parse(m)) => assert_eq!(m, "数字包含非 UTF-8 字节"),
            other => panic!("{:?}", other),
        }
    }
}

#[test]
fn law_prefix_never_complete() {
    let enc = encode_command(&[b"SET", b"k", b"value"]);
    for k in 0..enc.len() {
        for eof in [false, true] {
            assert!(
                !matches!(read_array_of_bulk_strings(&enc[..k], eof), Decoded::Complete { .. }),
                "prefix of length {} read as complete",
                k
            );
        }
    }
}

#[test]
fn resp_values_clone_deeply() {
    let v = RespValue::Array(vec![
        RespValue::Integer(3),
        RespValue::BulkString(Some(b"ab".to_vec())),
        RespValue::Array(vec![RespValue::SimpleString("x".to_string()), RespValue::BulkString(None)]),
        RespValue::Error("e".to_string()),
    ]);
    assert_eq!(format!("{:?}", v.clone()), format!("{:?}", v));
}
