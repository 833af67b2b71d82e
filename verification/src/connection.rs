//! One turn of a client connection: read a command from what the client has sent,
//! run it, and say what to send back and whether to go on.
use vstd::prelude::*;
use vstd::string::StringSliceAdditionalSpecFns;
use vstd::utf8::encode_utf8;
use crate::cmd::{command_spec, execute, reply_is, Reply, Store};
use crate::decimal::{int_text, push_i64_text};
use crate::protocol::{
    args_view, bulk_frame, crlf, decode_spec, nil_bulk, push_crlf, read_array_of_bulk_strings, write_bulk_string,
    write_error, write_nil_bulk, write_simple_string, DecodeModel, Decoded, RespError, RespFault,
    RespValue,
};

verus! {

/// The text that a `RespError` displays.
pub open spec fn fault_text(e: RespFault) -> Seq<char> {
    match e {
        RespFault::Io(m) => "IO错误: "@ + m,
        RespFault::Parse(m) => "协议解析错误: "@ + m,
        RespFault::Eof => "连接已关闭"@,
    }
}

impl RespError {
    /// The text that this error displays.
    pub fn message(&self) -> (s: String)
        ensures
            s@ == fault_text(self@),
    {
        match self {
            RespError::Io(m) => {
                let mut s = "IO错误: ".to_owned();
                s.append(m.as_str());
                s
            },
            RespError::Parse(m) => {
                let mut s = "协议解析错误: ".to_owned();
                s.append(m.as_str());
                s
            },
            RespError::Eof => "连接已关闭".to_owned(),
        }
    }
}

/// The bytes written for a reply value.
pub open spec fn response_bytes(v: &RespValue) -> Seq<u8> {
    match v {
        RespValue::SimpleString(s) => seq![43u8] + encode_utf8(s@) + crlf(),
        RespValue::BulkString(Some(b)) => bulk_frame(b@),
        RespValue::BulkString(None) => nil_bulk(),
        RespValue::Error(e) => seq![45u8] + encode_utf8(e@) + crlf(),
        RespValue::Integer(n) => seq![58u8] + int_text(*n as int) + crlf(),
        RespValue::Array(_) => seq![45u8] + encode_utf8(
            "ERR nested arrays not supported in response"@,
        ) + crlf(),
    }
}

/// The bytes written for a command's reply.
pub open spec fn reply_bytes(m: Reply) -> Seq<u8> {
    match m {
        Reply::Simple(s) => seq![43u8] + encode_utf8(s) + crlf(),
        Reply::Bulk(Some(b)) => bulk_frame(b),
        Reply::Bulk(None) => nil_bulk(),
        Reply::Error(s) => seq![45u8] + encode_utf8(s) + crlf(),
    }
}

/// A reply value that is the reply `m` is written as `m`'s bytes.
pub proof fn lemma_reply_bytes(v: &RespValue, m: Reply)
    requires
        reply_is(v, m),
    ensures
        response_bytes(v) == reply_bytes(m),
{
}

/// Writes a reply value; an array, which no command returns, is answered with an error.
pub fn write_response(out: &mut Vec<u8>, v: &RespValue)
    ensures
        final(out)@ == old(out)@ + response_bytes(v),
{
    match v {
        RespValue::SimpleString(s) => write_simple_string(out, s.as_str()),
        RespValue::BulkString(Some(b)) => write_bulk_string(out, b.as_slice()),
        RespValue::BulkString(None) => write_nil_bulk(out),
        RespValue::Error(e) => write_error(out, e.as_str()),
        RespValue::Integer(n) => {
            out.push(58);
            push_i64_text(out, *n);
            push_crlf(out);
            assert(out@ =~= old(out)@ + response_bytes(v));
        },
        RespValue::Array(_) => write_error(out, "ERR nested arrays not supported in response"),
    }
}

/// The bytes that refuse a malformed request: an error reply `ERR` and the error's text.
pub open spec fn refusal_bytes(e: RespFault) -> Seq<u8> {
    seq![45u8] + encode_utf8("ERR "@ + fault_text(e)) + crlf()
}

/// What the connection does next.
#[derive(Debug)]
pub enum Step {
    /// Send `bytes`, drop the first `consumed` bytes received, and read the next command.
    Reply { bytes: Vec<u8>, consumed: usize },
    /// Wait for more bytes from the client.
    NeedMore,
    /// Send `bytes` (possibly none) and close the connection.
    Close { bytes: Vec<u8> },
}

/// Decides one turn of a connection, given all bytes received and not yet consumed,
/// and whether the client has closed its side.
pub fn serve_step(buf: &[u8], eof: bool, db: &mut Store) -> (r: Step)
    ensures
        match decode_spec(buf@, eof) {
            DecodeModel::Incomplete => r is NeedMore && final(db)@ == old(db)@,
            DecodeModel::Failed(e) => {
                &&& r matches Step::Close { bytes } && bytes@ == (if e is Eof {
                    Seq::<u8>::empty()
                } else {
                    refusal_bytes(e)
                })
                &&& final(db)@ == old(db)@
            },
            DecodeModel::Complete(args, n) => {
                &&& r matches Step::Reply { bytes, consumed } && consumed == n && bytes@
                    == reply_bytes(command_spec(args, old(db)@).0)
                &&& final(db)@ == command_spec(args, old(db)@).1
            },
        },
{
    match read_array_of_bulk_strings(buf, eof) {
        Decoded::Incomplete => Step::NeedMore,
        Decoded::Failed(RespError::Eof) => Step::Close { bytes: Vec::new() },
        Decoded::Failed(e) => {
            let mut msg = "ERR ".to_owned();
            let text = e.message();
            msg.append(text.as_str());
            let mut bytes: Vec<u8> = Vec::new();
            write_error(&mut bytes, msg.as_str());
            assert(bytes@ =~= refusal_bytes(e@));
            Step::Close { bytes }
        },
        Decoded::Complete { args, consumed } => {
            let ghost a = args_view(args@);
            let reply = execute(args, db);
            let mut bytes: Vec<u8> = Vec::new();
            write_response(&mut bytes, &reply);
            proof {
                lemma_reply_bytes(&reply, command_spec(a, old(db)@).0);
                assert(bytes@ =~= reply_bytes(command_spec(a, old(db)@).0));
            }
            Step::Reply { bytes, consumed }
        },
    }
}

} // verus!
