//! The RESP wire format: reading a command (an array of bulk strings) out of the
//! bytes that a client has sent, and writing the replies.
//!
//! The reader works on everything received so far. `eof` says whether the client
//! has closed its side, so that no more bytes will come: then a request that stops
//! short is an error; otherwise the reader asks for more bytes.
use vstd::prelude::*;
use vstd::string::StringSliceAdditionalSpecFns;
use vstd::utf8::valid_utf8;
use crate::decimal::{
    all_digits, int_text, law_integer_text_reads_back, lemma_nat_digits, nat_digits, parse_i64,
    parse_i64_spec, push_nat_digits,
};

verus! {

/// Why reading a request failed.
#[derive(Debug)]
pub enum RespError {
    /// The byte stream broke off; the text is the I/O error's message.
    Io(String),
    /// The bytes do not follow the protocol; the text says which rule they break.
    Parse(String),
    /// The client closed the connection where a line was to begin.
    Eof,
}

/// A RESP value.
#[derive(Debug)]
pub enum RespValue {
    SimpleString(String),
    BulkString(Option<Vec<u8>>),
    Array(Vec<RespValue>),
    Error(String),
    Integer(i64),
}

impl Clone for RespValue {
    /// A copy of the value, nested arrays included.
    fn clone(&self) -> (r: Self)
        decreases self,
    {
        match self {
            RespValue::SimpleString(s) => RespValue::SimpleString(s.clone()),
            RespValue::BulkString(None) => RespValue::BulkString(None),
            RespValue::BulkString(Some(b)) => {
                let c = vstd::slice::slice_to_vec(b.as_slice());
                RespValue::BulkString(Some(c))
            },
            RespValue::Array(items) => {
                let n = items.len();
                let mut out: Vec<RespValue> = Vec::new();
                let mut i: usize = 0;
                while i < n
                    invariant
                        i <= n,
                        n == items@.len(),
                        out@.len() == i,
                        *self == RespValue::Array(*items),
                    decreases n - i,
                {
                    proof {
                        assert(decreases_to!(*self => self->Array_0));
                        assert(decreases_to!(self->Array_0 => self->Array_0@));
                        assert(decreases_to!(self->Array_0@ => self->Array_0@[i as int]));
                    }
                    let item = items[i].clone();
                    out.push(item);
                    i = i + 1;
                }
                RespValue::Array(out)
            },
            RespValue::Error(e) => RespValue::Error(e.clone()),
            RespValue::Integer(n) => RespValue::Integer(*n),
        }
    }
}

/// A `RespError` as a mathematical value.
pub enum RespFault {
    Io(Seq<char>),
    Parse(Seq<char>),
    Eof,
}

impl View for RespError {
    type V = RespFault;

    open spec fn view(&self) -> RespFault {
        match self {
            RespError::Io(m) => RespFault::Io(m@),
            RespError::Parse(m) => RespFault::Parse(m@),
            RespError::Eof => RespFault::Eof,
        }
    }
}

pub open spec fn fault_request_truncated() -> RespFault {
    RespFault::Io("EOF"@)
}

pub open spec fn fault_early_eof() -> RespFault {
    RespFault::Io("early eof"@)
}

pub open spec fn fault_line_not_crlf() -> RespFault {
    RespFault::Parse("行未以 CRLF 结尾"@)
}

pub open spec fn fault_number_not_utf8() -> RespFault {
    RespFault::Parse("数字包含非 UTF-8 字节"@)
}

pub open spec fn fault_bad_number() -> RespFault {
    RespFault::Parse("数字解析失败"@)
}

pub open spec fn fault_expected_array() -> RespFault {
    RespFault::Parse("期望数组标识 '*'"@)
}

pub open spec fn fault_negative_count() -> RespFault {
    RespFault::Parse("数组元素个数不能为负"@)
}

pub open spec fn fault_expected_bulk() -> RespFault {
    RespFault::Parse("命令参数必须为批量字符串"@)
}

pub open spec fn fault_nil_argument() -> RespFault {
    RespFault::Parse("命令参数不允许为 nil"@)
}

pub open spec fn fault_bad_bulk_length() -> RespFault {
    RespFault::Parse("非法的批量字符串长度"@)
}

pub open spec fn fault_bulk_not_crlf() -> RespFault {
    RespFault::Parse("批量字符串未正确以 CRLF 结尾"@)
}

fn parse_error(msg: &str) -> (e: RespError)
    ensures
        e@ == RespFault::Parse(msg@),
{
    RespError::Parse(msg.to_owned())
}

fn io_error(msg: &str) -> (e: RespError)
    ensures
        e@ == RespFault::Io(msg@),
{
    RespError::Io(msg.to_owned())
}

/// The position of the first `\n` in `s` at or after `from`.
pub open spec fn first_newline(s: Seq<u8>, from: int) -> Option<int>
    decreases s.len() - from,
{
    if from < 0 || from >= s.len() {
        None
    } else if s[from] == 10 {
        Some(from)
    } else {
        first_newline(s, from + 1)
    }
}

/// What reading one line at `p` gives.
pub enum LineModel {
    /// The line's bytes without its `\r\n`, and where the next item begins.
    Line(Seq<u8>, int),
    Incomplete,
    Failed(RespFault),
}

/// Reading a line at `p` takes the bytes up to and including the next `\n`; they
/// must end in `\r\n`. With nothing at all before the stream ends, the client has
/// gone away (`Eof`); with some bytes but no `\n`, the line is malformed.
pub open spec fn line_at(s: Seq<u8>, p: int, eof: bool) -> LineModel {
    match first_newline(s, p) {
        Some(j) => if j - p + 1 >= 2 && s[j - 1] == 13 {
            LineModel::Line(s.subrange(p, j - 1), j + 1)
        } else {
            LineModel::Failed(fault_line_not_crlf())
        },
        None => if !eof {
            LineModel::Incomplete
        } else if p >= s.len() {
            LineModel::Failed(RespFault::Eof)
        } else {
            LineModel::Failed(fault_line_not_crlf())
        },
    }
}

/// A decimal number in a header: UTF-8 first, then the `i64` grammar.
pub open spec fn decimal_spec(b: Seq<u8>) -> Result<i64, RespFault> {
    if !valid_utf8(b) {
        Err(fault_number_not_utf8())
    } else {
        match parse_i64_spec(b) {
            Some(v) => Ok(v),
            None => Err(fault_bad_number()),
        }
    }
}

/// What reading one command argument at `p` gives.
pub enum ItemModel {
    /// The argument's bytes, and where the next item begins.
    Item(Seq<u8>, int),
    Incomplete,
    Failed(RespFault),
}

/// One argument: `$`, a length line, that many bytes, then `\r\n`.
pub open spec fn bulk_at(s: Seq<u8>, p: int, eof: bool) -> ItemModel {
    if p >= s.len() {
        if eof {
            ItemModel::Failed(fault_early_eof())
        } else {
            ItemModel::Incomplete
        }
    } else if s[p] != 36 {
        ItemModel::Failed(fault_expected_bulk())
    } else {
        match line_at(s, p + 1, eof) {
            LineModel::Incomplete => ItemModel::Incomplete,
            LineModel::Failed(e) => ItemModel::Failed(e),
            LineModel::Line(line, q) => match decimal_spec(line) {
                Err(e) => ItemModel::Failed(e),
                Ok(n) => if n == -1 {
                    ItemModel::Failed(fault_nil_argument())
                } else if n < -1 {
                    ItemModel::Failed(fault_bad_bulk_length())
                } else if q + n + 2 > s.len() {
                    if eof {
                        ItemModel::Failed(fault_early_eof())
                    } else {
                        ItemModel::Incomplete
                    }
                } else if s[q + n] != 13 || s[q + n + 1] != 10 {
                    ItemModel::Failed(fault_bulk_not_crlf())
                } else {
                    ItemModel::Item(s.subrange(q, q + n), q + n + 2)
                },
            },
        }
    }
}

/// What reading a whole command gives.
pub enum DecodeModel {
    /// The arguments, and how many bytes the command took.
    Complete(Seq<Seq<u8>>, int),
    Incomplete,
    Failed(RespFault),
}

/// Reads `k` more arguments from `p` on, after those already in `acc`.
pub open spec fn items_from(s: Seq<u8>, p: int, k: nat, eof: bool, acc: Seq<Seq<u8>>) -> DecodeModel
    decreases k,
{
    if k == 0 {
        DecodeModel::Complete(acc, p)
    } else {
        match bulk_at(s, p, eof) {
            ItemModel::Item(x, q) => items_from(s, q, (k - 1) as nat, eof, acc.push(x)),
            ItemModel::Incomplete => DecodeModel::Incomplete,
            ItemModel::Failed(e) => DecodeModel::Failed(e),
        }
    }
}

/// A command: `*`, a count line, then that many arguments.
pub open spec fn decode_spec(s: Seq<u8>, eof: bool) -> DecodeModel {
    if s.len() == 0 {
        if eof {
            DecodeModel::Failed(fault_request_truncated())
        } else {
            DecodeModel::Incomplete
        }
    } else if s[0] != 42 {
        DecodeModel::Failed(fault_expected_array())
    } else {
        match line_at(s, 1, eof) {
            LineModel::Incomplete => DecodeModel::Incomplete,
            LineModel::Failed(e) => DecodeModel::Failed(e),
            LineModel::Line(line, q) => match decimal_spec(line) {
                Err(e) => DecodeModel::Failed(e),
                Ok(n) => if n < 0 {
                    DecodeModel::Failed(fault_negative_count())
                } else {
                    items_from(s, q, n as nat, eof, Seq::empty())
                },
            },
        }
    }
}

/// The outcome of reading one line.
pub enum LineRead {
    /// The line's content ends at the first index; the next item begins at the second.
    Line(usize, usize),
    Incomplete,
    Failed(RespError),
}

/// The outcome of reading one argument.
pub enum ItemRead {
    /// The argument's bytes lie between the two indices; `\r\n` follows them.
    Item(usize, usize),
    Incomplete,
    Failed(RespError),
}

/// The outcome of reading one command.
#[derive(Debug)]
pub enum Decoded {
    Complete { args: Vec<Vec<u8>>, consumed: usize },
    Incomplete,
    Failed(RespError),
}

/// The arguments as byte sequences.
pub open spec fn args_view(args: Seq<Vec<u8>>) -> Seq<Seq<u8>> {
    args.map_values(|a: Vec<u8>| a@)
}

impl Decoded {
    pub open spec fn model(&self) -> DecodeModel {
        match self {
            Decoded::Complete { args, consumed } => DecodeModel::Complete(
                args_view(args@),
                *consumed as int,
            ),
            Decoded::Incomplete => DecodeModel::Incomplete,
            Decoded::Failed(e) => DecodeModel::Failed(e@),
        }
    }
}

/// Reads one line that begins at `p`.
pub fn read_crlf_line(buf: &[u8], p: usize, eof: bool) -> (r: LineRead)
    requires
        p <= buf@.len(),
    ensures
        match r {
            LineRead::Line(end, next) => {
                &&& p <= end
                &&& next == end + 2
                &&& next <= buf@.len()
                &&& line_at(buf@, p as int, eof) == LineModel::Line(
                    buf@.subrange(p as int, end as int),
                    next as int,
                )
            },
            LineRead::Incomplete => line_at(buf@, p as int, eof) == LineModel::Incomplete,
            LineRead::Failed(e) => line_at(buf@, p as int, eof) == LineModel::Failed(e@),
        },
{
    let len = buf.len();
    let mut i = p;
    while i < len
        invariant
            p <= i <= len,
            len == buf@.len(),
            first_newline(buf@, p as int) == first_newline(buf@, i as int),
        decreases len - i,
    {
        if buf[i] == 10 {
            if i > p && buf[i - 1] == 13 {
                return LineRead::Line(i - 1, i + 1);
            } else {
                return LineRead::Failed(parse_error("行未以 CRLF 结尾"));
            }
        }
        i = i + 1;
    }
    if !eof {
        LineRead::Incomplete
    } else if p >= len {
        LineRead::Failed(RespError::Eof)
    } else {
        LineRead::Failed(parse_error("行未以 CRLF 结尾"))
    }
}

/// Reads a header number: the bytes must be UTF-8 and then a decimal `i64`.
pub fn parse_decimal_i64(bytes: &[u8]) -> (r: Result<i64, RespError>)
    ensures
        match r {
            Ok(v) => decimal_spec(bytes@) == Ok::<i64, RespFault>(v),
            Err(e) => decimal_spec(bytes@) == Err::<i64, RespFault>(e@),
        },
{
    match core::str::from_utf8(bytes) {
        Ok(_) => {},
        Err(_) => {
            return Err(parse_error("数字包含非 UTF-8 字节"));
        },
    }
    match parse_i64(bytes) {
        Some(v) => Ok(v),
        None => Err(parse_error("数字解析失败")),
    }
}

/// Reads one argument that begins at `p`.
pub fn read_bulk_string(buf: &[u8], p: usize, eof: bool) -> (r: ItemRead)
    requires
        p <= buf@.len(),
    ensures
        match r {
            ItemRead::Item(start, end) => {
                &&& start <= end
                &&& end + 2 <= buf@.len()
                &&& bulk_at(buf@, p as int, eof) == ItemModel::Item(
                    buf@.subrange(start as int, end as int),
                    end + 2,
                )
            },
            ItemRead::Incomplete => bulk_at(buf@, p as int, eof) == ItemModel::Incomplete,
            ItemRead::Failed(e) => bulk_at(buf@, p as int, eof) == ItemModel::Failed(e@),
        },
{
    let len = buf.len();
    if p >= len {
        if eof {
            return ItemRead::Failed(io_error("early eof"));
        } else {
            return ItemRead::Incomplete;
        }
    }
    if buf[p] != 36 {
        return ItemRead::Failed(parse_error("命令参数必须为批量字符串"));
    }
    match read_crlf_line(buf, p + 1, eof) {
        LineRead::Incomplete => ItemRead::Incomplete,
        LineRead::Failed(e) => ItemRead::Failed(e),
        LineRead::Line(end, q) => {
            let n = match parse_decimal_i64(&buf[p + 1..end]) {
                Ok(n) => n,
                Err(e) => {
                    return ItemRead::Failed(e);
                },
            };
            if n == -1 {
                return ItemRead::Failed(parse_error("命令参数不允许为 nil"));
            }
            if n < -1 {
                return ItemRead::Failed(parse_error("非法的批量字符串长度"));
            }
            let avail: usize = len - q;
            if (n as u64) > (avail as u64) || avail - (n as usize) < 2 {
                if eof {
                    return ItemRead::Failed(io_error("early eof"));
                } else {
                    return ItemRead::Incomplete;
                }
            }
            let e: usize = q + n as usize;
            if buf[e] != 13 || buf[e + 1] != 10 {
                return ItemRead::Failed(parse_error("批量字符串未正确以 CRLF 结尾"));
            }
            ItemRead::Item(q, e)
        },
    }
}

/// Reads one command, an array of bulk strings, from the start of `buf`.
pub fn read_array_of_bulk_strings(buf: &[u8], eof: bool) -> (r: Decoded)
    ensures
        r.model() == decode_spec(buf@, eof),
        r matches Decoded::Complete { consumed, .. } ==> consumed <= buf@.len(),
{
    let len = buf.len();
    if len == 0 {
        if eof {
            return Decoded::Failed(io_error("EOF"));
        } else {
            return Decoded::Incomplete;
        }
    }
    if buf[0] != 42 {
        return Decoded::Failed(parse_error("期望数组标识 '*'"));
    }
    let (end, q) = match read_crlf_line(buf, 1, eof) {
        LineRead::Incomplete => {
            return Decoded::Incomplete;
        },
        LineRead::Failed(e) => {
            return Decoded::Failed(e);
        },
        LineRead::Line(end, q) => (end, q),
    };
    let n = match parse_decimal_i64(&buf[1..end]) {
        Ok(n) => n,
        Err(e) => {
            return Decoded::Failed(e);
        },
    };
    if n < 0 {
        return Decoded::Failed(parse_error("数组元素个数不能为负"));
    }
    let total: u64 = n as u64;
    let mut args: Vec<Vec<u8>> = Vec::new();
    let mut pos: usize = q;
    let mut k: u64 = 0;
    assert(args_view(args@) =~= Seq::<Seq<u8>>::empty());
    while k < total
        invariant
            k <= total,
            pos <= len,
            len == buf@.len(),
            decode_spec(buf@, eof) == items_from(
                buf@,
                pos as int,
                (total - k) as nat,
                eof,
                args_view(args@),
            ),
        decreases total - k,
    {
        match read_bulk_string(buf, pos, eof) {
            ItemRead::Item(start, end) => {
                let item = vstd::slice::slice_to_vec(&buf[start..end]);
                let ghost before = args@;
                args.push(item);
                assert(args_view(args@) =~= args_view(before).push(item@));
                pos = end + 2;
                k = k + 1;
            },
            ItemRead::Incomplete => {
                return Decoded::Incomplete;
            },
            ItemRead::Failed(e) => {
                return Decoded::Failed(e);
            },
        }
    }
    Decoded::Complete { args, consumed: pos }
}

/// `\r\n`.
pub open spec fn crlf() -> Seq<u8> {
    seq![13u8, 10u8]
}

/// Appends the bytes of `b` to `out`.
pub fn append_bytes(out: &mut Vec<u8>, b: &[u8])
    ensures
        final(out)@ == old(out)@ + b@,
{
    let n = b.len();
    let mut i: usize = 0;
    while i < n
        invariant
            i <= n,
            n == b@.len(),
            out@ == old(out)@ + b@.subrange(0, i as int),
        decreases n - i,
    {
        out.push(b[i]);
        i = i + 1;
        assert(out@ =~= old(out)@ + b@.subrange(0, i as int));
    }
    assert(b@.subrange(0, n as int) =~= b@);
}

/// Appends `\r\n`.
pub fn push_crlf(out: &mut Vec<u8>)
    ensures
        final(out)@ == old(out)@ + crlf(),
{
    out.push(13);
    out.push(10);
    assert(out@ =~= old(out)@ + crlf());
}

/// Writes a simple string reply: `+`, the text, `\r\n`.
pub fn write_simple_string(out: &mut Vec<u8>, s: &str)
    ensures
        final(out)@ == old(out)@ + seq![43u8] + s.spec_bytes() + crlf(),
{
    out.push(43);
    append_bytes(out, s.as_bytes());
    push_crlf(out);
    assert(out@ =~= old(out)@ + seq![43u8] + s.spec_bytes() + crlf());
}

/// Writes an error reply: `-`, the text, `\r\n`.
pub fn write_error(out: &mut Vec<u8>, s: &str)
    ensures
        final(out)@ == old(out)@ + seq![45u8] + s.spec_bytes() + crlf(),
{
    out.push(45);
    append_bytes(out, s.as_bytes());
    push_crlf(out);
    assert(out@ =~= old(out)@ + seq![45u8] + s.spec_bytes() + crlf());
}

/// The header and framing of a bulk string reply.
pub open spec fn bulk_frame(data: Seq<u8>) -> Seq<u8> {
    seq![36u8] + nat_digits(data.len()) + crlf() + data + crlf()
}

/// Writes a bulk string reply: `$`, the length in decimal, `\r\n`, the bytes, `\r\n`.
pub fn write_bulk_string(out: &mut Vec<u8>, data: &[u8])
    ensures
        final(out)@ == old(out)@ + bulk_frame(data@),
{
    out.push(36);
    push_nat_digits(out, data.len() as u64);
    push_crlf(out);
    append_bytes(out, data);
    push_crlf(out);
    assert(out@ =~= old(out)@ + bulk_frame(data@));
}

/// The nil bulk string, `$-1\r\n`.
pub open spec fn nil_bulk() -> Seq<u8> {
    seq![36u8, 45u8, 49u8, 13u8, 10u8]
}

/// Writes the nil bulk string reply.
pub fn write_nil_bulk(out: &mut Vec<u8>)
    ensures
        final(out)@ == old(out)@ + nil_bulk(),
{
    out.push(36);
    out.push(45);
    out.push(49);
    push_crlf(out);
    assert(out@ =~= old(out)@ + nil_bulk());
}

/// The request that carries `args`: `*`, the count, `\r\n`, then each argument
/// framed as a bulk string.
pub open spec fn encode_command(args: Seq<Seq<u8>>) -> Seq<u8> {
    seq![42u8] + nat_digits(args.len()) + crlf() + encode_items(args)
}

/// The arguments framed as bulk strings, one after another.
pub open spec fn encode_items(args: Seq<Seq<u8>>) -> Seq<u8>
    decreases args.len(),
{
    if args.len() == 0 {
        Seq::empty()
    } else {
        bulk_frame(args[0]) + encode_items(args.drop_first())
    }
}

/// No argument is longer than a header number can say.
pub open spec fn lengths_fit(args: Seq<Seq<u8>>) -> bool {
    forall|i: int| 0 <= i < args.len() ==> (#[trigger] args[i]).len() <= i64::MAX
}

/// `x` stands in `s` at `p`.
pub open spec fn stands_at(s: Seq<u8>, p: int, x: Seq<u8>) -> bool {
    0 <= p && p + x.len() <= s.len() && s.subrange(p, p + x.len()) == x
}

proof fn lemma_stands_at_index(s: Seq<u8>, p: int, x: Seq<u8>, i: int)
    requires
        stands_at(s, p, x),
        0 <= i < x.len(),
    ensures
        s[p + i] == x[i],
{
    assert(s.subrange(p, p + x.len())[i] == s[p + i]);
}

proof fn lemma_first_newline(s: Seq<u8>, from: int, j: int)
    requires
        0 <= from <= j < s.len(),
        s[j] == 10,
        forall|k: int| from <= k < j ==> s[k] != 10,
    ensures
        first_newline(s, from) == Some(j),
    decreases j - from,
{
    if from < j {
        lemma_first_newline(s, from + 1, j);
    }
}

/// ASCII digits are well-formed UTF-8.
pub proof fn lemma_digits_valid_utf8(d: Seq<u8>)
    requires
        all_digits(d),
    ensures
        vstd::utf8::valid_utf8(d),
{
    assert(d.subrange(0, 0) =~= Seq::<u8>::empty());
    assert forall|i: int| 0 <= 0 <= i < d.len() <= d.len() implies
        #[trigger] vstd::utf8::is_leading_byte_width_1(d[i]) by {
        assert(crate::decimal::is_digit(d[i]));
    }
    vstd::utf8::partial_valid_utf8_extend_ascii_block(d, 0, d.len() as int);
    assert(d.subrange(0, d.len() as int) =~= d);
}

proof fn lemma_decimal_of_digits(n: nat)
    requires
        n <= i64::MAX,
    ensures
        decimal_spec(nat_digits(n)) == Ok::<i64, RespFault>(n as i64),
{
    lemma_nat_digits(n);
    lemma_digits_valid_utf8(nat_digits(n));
    law_integer_text_reads_back(n as i64);
    assert(int_text(n as i64 as int) == nat_digits(n));
}

proof fn lemma_digit_line(s: Seq<u8>, p: int, d: Seq<u8>, eof: bool)
    requires
        all_digits(d),
        stands_at(s, p, d + crlf()),
    ensures
        line_at(s, p, eof) == LineModel::Line(d, p + d.len() + 2),
{
    let x = d + crlf();
    let j = p + d.len() + 1;
    assert forall|k: int| p <= k < j implies s[k] != 10 by {
        lemma_stands_at_index(s, p, x, k - p);
        if k - p < d.len() {
            assert(crate::decimal::is_digit(d[k - p]));
        }
    }
    lemma_stands_at_index(s, p, x, d.len() + 1int);
    lemma_stands_at_index(s, p, x, d.len() as int);
    lemma_first_newline(s, p, j);
    assert forall|k: int| 0 <= k < d.len() implies s.subrange(p, j - 1)[k] == d[k] by {
        lemma_stands_at_index(s, p, x, k);
    }
    assert(s.subrange(p, j - 1) =~= d);
}

proof fn lemma_bulk_encoded(s: Seq<u8>, p: int, a: Seq<u8>, eof: bool)
    requires
        a.len() <= i64::MAX,
        stands_at(s, p, bulk_frame(a)),
    ensures
        bulk_at(s, p, eof) == ItemModel::Item(a, p + bulk_frame(a).len()),
{
    let f = bulk_frame(a);
    let d = nat_digits(a.len());
    lemma_nat_digits(a.len());
    let dl = d.len() as int;
    let q = p + 1 + dl + 2;
    let n = a.len() as int;
    lemma_stands_at_index(s, p, f, 0);
    assert forall|k: int| 0 <= k < d.len() + 2 implies s.subrange(p + 1, p + 1 + dl + 2)[k]
        == (d + crlf())[k] by {
        lemma_stands_at_index(s, p, f, 1 + k);
    }
    assert(s.subrange(p + 1, p + 1 + dl + 2) =~= d + crlf());
    lemma_digit_line(s, p + 1, d, eof);
    lemma_decimal_of_digits(a.len());
    assert forall|k: int| 0 <= k < n implies s.subrange(q, q + n)[k] == a[k] by {
        lemma_stands_at_index(s, p, f, 1 + dl + 2 + k);
    }
    assert(s.subrange(q, q + n) =~= a);
    lemma_stands_at_index(s, p, f, 1 + dl + 2 + n);
    lemma_stands_at_index(s, p, f, 1 + dl + 2 + n + 1);
}

proof fn lemma_items_encoded(s: Seq<u8>, p: int, args: Seq<Seq<u8>>, eof: bool, acc: Seq<Seq<u8>>)
    requires
        lengths_fit(args),
        stands_at(s, p, encode_items(args)),
    ensures
        items_from(s, p, args.len(), eof, acc) == DecodeModel::Complete(
            acc + args,
            p + encode_items(args).len(),
        ),
    decreases args.len(),
{
    if args.len() == 0 {
        assert(acc + args =~= acc);
    } else {
        let e = encode_items(args);
        let f = bulk_frame(args[0]);
        let rest = args.drop_first();
        let e2 = encode_items(rest);
        assert(e == f + e2);
        assert forall|k: int| 0 <= k < f.len() implies s.subrange(p, p + f.len())[k] == f[k] by {
            lemma_stands_at_index(s, p, e, k);
        }
        assert(s.subrange(p, p + f.len()) =~= f);
        assert(args[0].len() <= i64::MAX);
        lemma_bulk_encoded(s, p, args[0], eof);
        assert forall|k: int| 0 <= k < e2.len() implies s.subrange(p + f.len(), p + f.len()
            + e2.len())[k] == e2[k] by {
            lemma_stands_at_index(s, p, e, f.len() + k);
        }
        assert(s.subrange(p + f.len(), p + f.len() + e2.len()) =~= e2);
        assert(lengths_fit(rest)) by {
            assert forall|i: int| 0 <= i < rest.len() implies (#[trigger] rest[i]).len()
                <= i64::MAX by {
                assert(rest[i] == args[i + 1]);
            }
        }
        lemma_items_encoded(s, p + f.len(), rest, eof, acc.push(args[0]));
        assert(acc.push(args[0]) + rest =~= acc + args);
    }
}

/// Every command sent as an array of bulk strings is read back as exactly its
/// arguments, taking exactly its own bytes, whatever follows it and whether or not
/// the client has closed its side.
pub proof fn law_decode_encoded_command(args: Seq<Seq<u8>>, rest: Seq<u8>, eof: bool)
    requires
        args.len() <= i64::MAX,
        lengths_fit(args),
    ensures
        decode_spec(encode_command(args) + rest, eof) == DecodeModel::Complete(
            args,
            encode_command(args).len() as int,
        ),
{
    let c = encode_command(args);
    let s = c + rest;
    let d = nat_digits(args.len());
    lemma_nat_digits(args.len());
    let e = encode_items(args);
    let q: int = 1 + d.len() as int + 2;
    assert(s[0] == 42u8);
    assert(s.subrange(1, 1 + d.len() as int + 2) =~= d + crlf());
    lemma_digit_line(s, 1, d, eof);
    lemma_decimal_of_digits(args.len());
    assert(s.subrange(q, q + e.len() as int) =~= e);
    lemma_items_encoded(s, q, args, eof, Seq::empty());
    assert(Seq::<Seq<u8>>::empty() + args =~= args);
}

proof fn lemma_items_settled(s: Seq<u8>, p: int, k: nat, acc: Seq<Seq<u8>>)
    ensures
        !(items_from(s, p, k, true, acc) is Incomplete),
    decreases k,
{
    if k > 0 {
        if let ItemModel::Item(x, q) = bulk_at(s, p, true) {
            lemma_items_settled(s, q, (k - 1) as nat, acc.push(x));
        }
    }
}

/// Once the client has closed its side, every request is either read or refused:
/// the reader never waits for more.
pub proof fn law_closed_stream_settles(s: Seq<u8>)
    ensures
        !(decode_spec(s, true) is Incomplete),
{
    if s.len() > 0 && s[0] == 42 {
        if let LineModel::Line(line, q) = line_at(s, 1, true) {
            if let Ok(n) = decimal_spec(line) {
                if n >= 0 {
                    lemma_items_settled(s, q, n as nat, Seq::empty());
                }
            }
        }
    }
}

proof fn lemma_first_newline_extended(s: Seq<u8>, t: Seq<u8>, from: int)
    requires
        0 <= from,
        first_newline(s, from) is Some,
    ensures
        first_newline(s + t, from) == first_newline(s, from),
    decreases s.len() - from,
{
    assert((s + t)[from] == s[from]);
    if s[from] != 10 {
        lemma_first_newline_extended(s, t, from + 1);
    }
}

proof fn lemma_line_extended(s: Seq<u8>, t: Seq<u8>, p: int, eof: bool)
    requires
        0 <= p,
        !(line_at(s, p, false) is Incomplete),
    ensures
        line_at(s + t, p, eof) == line_at(s, p, false),
{
    lemma_first_newline_extended(s, t, p);
    lemma_first_newline_bounds(s, p);
    if let Some(j) = first_newline(s, p) {
        if j - p + 1 >= 2 {
            assert((s + t)[j - 1] == s[j - 1]);
            assert((s + t).subrange(p, j - 1) =~= s.subrange(p, j - 1));
        }
    }
}

proof fn lemma_bulk_extended(s: Seq<u8>, t: Seq<u8>, p: int, eof: bool)
    requires
        0 <= p,
        !(bulk_at(s, p, false) is Incomplete),
    ensures
        bulk_at(s + t, p, eof) == bulk_at(s, p, false),
{
    if p < s.len() {
        assert((s + t)[p] == s[p]);
        if s[p] == 36 {
            lemma_line_extended(s, t, p + 1, eof);
            lemma_line_next(s, p + 1, false);
            if let LineModel::Line(line, q) = line_at(s, p + 1, false) {
                if let Ok(n) = decimal_spec(line) {
                    if n >= 0 && q + n + 2 <= s.len() {
                        assert((s + t)[q + n] == s[q + n]);
                        assert((s + t)[q + n + 1] == s[q + n + 1]);
                        assert((s + t).subrange(q, q + n) =~= s.subrange(q, q + n));
                    }
                }
            }
        }
    }
}

proof fn lemma_line_next(s: Seq<u8>, p: int, eof: bool)
    requires
        0 <= p,
    ensures
        line_at(s, p, eof) matches LineModel::Line(_, q) ==> q > p,
{
    lemma_first_newline_bounds(s, p);
}

proof fn lemma_first_newline_bounds(s: Seq<u8>, from: int)
    ensures
        first_newline(s, from) matches Some(j) ==> from <= j < s.len() && s[j] == 10,
    decreases s.len() - from,
{
    if 0 <= from < s.len() && s[from] != 10 {
        lemma_first_newline_bounds(s, from + 1);
    }
}

proof fn lemma_items_extended(
    s: Seq<u8>,
    t: Seq<u8>,
    p: int,
    k: nat,
    eof: bool,
    acc: Seq<Seq<u8>>,
)
    requires
        0 <= p,
        !(items_from(s, p, k, false, acc) is Incomplete),
    ensures
        items_from(s + t, p, k, eof, acc) == items_from(s, p, k, false, acc),
    decreases k,
{
    if k > 0 {
        lemma_bulk_extended(s, t, p, eof);
        if let ItemModel::Item(x, q) = bulk_at(s, p, false) {
            lemma_line_next(s, p + 1, false);
            lemma_items_extended(s, t, q, (k - 1) as nat, eof, acc.push(x));
        }
    }
}

/// What the reader decides without waiting for the stream to end stays decided:
/// more bytes, or the client closing its side, never change a command that was read
/// or an error that was found. So reading what has arrived so far, again as more
/// arrives, gives what reading the whole stream at once would give.
pub proof fn law_decided_requests_stay_decided(s: Seq<u8>, t: Seq<u8>, eof: bool)
    requires
        !(decode_spec(s, false) is Incomplete),
    ensures
        decode_spec(s + t, eof) == decode_spec(s, false),
{
    if s.len() > 0 {
        assert((s + t)[0] == s[0]);
        if s[0] == 42 {
            lemma_line_extended(s, t, 1, eof);
            if let LineModel::Line(line, q) = line_at(s, 1, false) {
                if let Ok(n) = decimal_spec(line) {
                    if n >= 0 {
                        lemma_line_next(s, 1, false);
                        lemma_items_extended(s, t, q, n as nat, eof, Seq::empty());
                    }
                }
            }
        }
    }
}

proof fn lemma_items_within(s: Seq<u8>, p: int, k: nat, eof: bool, acc: Seq<Seq<u8>>)
    requires
        0 <= p <= s.len(),
    ensures
        items_from(s, p, k, eof, acc) matches DecodeModel::Complete(_, q) ==> q <= s.len(),
    decreases k,
{
    if k > 0 {
        if let ItemModel::Item(x, q) = bulk_at(s, p, eof) {
            lemma_first_newline_bounds(s, p + 1);
            lemma_items_within(s, q, (k - 1) as nat, eof, acc.push(x));
        }
    }
}

/// A command that is read never takes more bytes than were received.
proof fn lemma_decode_within(s: Seq<u8>, eof: bool)
    ensures
        decode_spec(s, eof) matches DecodeModel::Complete(_, n) ==> n <= s.len(),
{
    lemma_first_newline_bounds(s, 1);
    if let LineModel::Line(line, q) = line_at(s, 1, eof) {
        if let Ok(n) = decimal_spec(line) {
            if n >= 0 {
                lemma_items_within(s, q, n as nat, eof, Seq::empty());
            }
        }
    }
}

proof fn lemma_items_without_eof(s: Seq<u8>, p: int, k: nat, acc: Seq<Seq<u8>>)
    requires
        items_from(s, p, k, true, acc) is Complete,
    ensures
        items_from(s, p, k, false, acc) == items_from(s, p, k, true, acc),
    decreases k,
{
    if k > 0 {
        if let ItemModel::Item(x, q) = bulk_at(s, p, true) {
            lemma_items_without_eof(s, q, (k - 1) as nat, acc.push(x));
        }
    }
}

/// A command read from a closed stream is read the same while the stream is open:
/// the end of the stream only ever turns waiting into an error.
proof fn lemma_complete_without_eof(s: Seq<u8>)
    requires
        decode_spec(s, true) is Complete,
    ensures
        decode_spec(s, false) == decode_spec(s, true),
{
    if let LineModel::Line(line, q) = line_at(s, 1, true) {
        if let Ok(n) = decimal_spec(line) {
            if n >= 0 {
                lemma_items_without_eof(s, q, n as nat, Seq::empty());
            }
        }
    }
}

/// No strict prefix of a well-formed command is read as a command, whether or not the
/// stream has ended there: it is waited on, or refused.
pub proof fn law_prefix_never_complete(args: Seq<Seq<u8>>, k: int, eof: bool)
    requires
        args.len() <= i64::MAX,
        lengths_fit(args),
        0 <= k < encode_command(args).len(),
    ensures
        !(decode_spec(encode_command(args).take(k), eof) is Complete),
{
    let c = encode_command(args);
    let s = c.take(k);
    let t = c.skip(k);
    assert(s + t =~= c);
    law_decode_encoded_command(args, Seq::empty(), false);
    assert(c + Seq::<u8>::empty() =~= c);
    lemma_decode_within(s, false);
    if !(decode_spec(s, false) is Incomplete) {
        law_decided_requests_stay_decided(s, t, false);
        assert(false);
    }
    if eof && decode_spec(s, true) is Complete {
        lemma_complete_without_eof(s);
    }
}

} // verus!
