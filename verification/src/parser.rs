//! The RESP wire codec: framing values out of a byte buffer and serializing
//! values back.  The decoder consumes exactly one frame per call and reports
//! "need more bytes" on a partial frame; the encoder emits the canonical
//! byte form of each value, including the raw snapshot frame used during a
//! full resync handover.
use vstd::prelude::*;
use vstd::string::*;

use crate::util::{
    dec_rep, dec_rep_i64, dec_val, parse_i64_spec, i64_to_dec, u64_to_dec, parse_i64,
    lemma_i64_dec_round_trip,
};

verus! {

/// The canonical value type for data flowing through the system: inputs are
/// decoded into these, outputs are encoded from them.
#[derive(Debug, PartialEq)]
pub enum RedisValueRef {
    /// A `+`-framed simple string reply.
    SimpleString(Vec<u8>),
    /// A `-`-framed error reply.
    Error(Vec<u8>),
    /// A `:`-framed signed integer.
    Int(i64),
    /// A `$`-framed bulk string.
    String(Vec<u8>),
    /// A `*`-framed array of values.
    Array(Vec<RedisValueRef>),
    /// The null array, `*-1`.
    NullArray,
    /// The null bulk string, `$-1`.
    NullBulkString,
    /// A raw snapshot frame: a bulk-string header and payload with no
    /// trailing line break, used only during full-resync handover.
    RDBFile(Vec<u8>),
    /// Several frames sent back to back as one reply.
    MultiValue(Vec<RedisValueRef>),
    /// An internal error note; not a wire type.
    ErrorMsg(Vec<u8>),
}

/// The mathematical shape of a `RedisValueRef`: the same tree over sequences.
pub enum RespSpec {
    SimpleString(Seq<u8>),
    Error(Seq<u8>),
    Int(int),
    String(Seq<u8>),
    Array(Seq<RespSpec>),
    NullArray,
    NullBulkString,
    RDBFile(Seq<u8>),
    MultiValue(Seq<RespSpec>),
    ErrorMsg(Seq<u8>),
}

/// The abstraction of one value: every byte field becomes its sequence.
pub open spec fn vw(v: RedisValueRef) -> RespSpec
    decreases v,
{
    match v {
        RedisValueRef::SimpleString(s) => RespSpec::SimpleString(s@),
        RedisValueRef::Error(e) => RespSpec::Error(e@),
        RedisValueRef::Int(i) => RespSpec::Int(i as int),
        RedisValueRef::String(s) => RespSpec::String(s@),
        RedisValueRef::Array(items) => RespSpec::Array(vws(items@)),
        RedisValueRef::NullArray => RespSpec::NullArray,
        RedisValueRef::NullBulkString => RespSpec::NullBulkString,
        RedisValueRef::RDBFile(b) => RespSpec::RDBFile(b@),
        RedisValueRef::MultiValue(items) => RespSpec::MultiValue(vws(items@)),
        RedisValueRef::ErrorMsg(e) => RespSpec::ErrorMsg(e@),
    }
}

/// The abstraction of a run of values, element by element.
pub open spec fn vws(items: Seq<RedisValueRef>) -> Seq<RespSpec>
    decreases items,
{
    Seq::new(items.len(), |i: int| if 0 <= i < items.len() {
        vw(items[i])
    } else {
        arbitrary()
    })
}

/// The two line-break bytes that end every textual frame.
pub open spec fn crlf() -> Seq<u8> {
    seq![0x0du8, 0x0au8]
}

/// The canonical wire bytes of one value.
pub open spec fn encode_spec(v: RespSpec) -> Seq<u8>
    decreases v, 0nat,
{
    match v {
        RespSpec::SimpleString(s) => seq![0x2bu8] + s + crlf(),
        RespSpec::Error(e) => seq![0x2du8] + e + crlf(),
        RespSpec::ErrorMsg(e) => seq![0x2du8] + e + crlf(),
        RespSpec::Int(i) => seq![0x3au8] + dec_rep_i64(i) + crlf(),
        RespSpec::String(s) => seq![0x24u8] + dec_rep(s.len()) + crlf() + s + crlf(),
        RespSpec::Array(items) => seq![0x2au8] + dec_rep(items.len()) + crlf() + encode_elems(
            items,
        ),
        RespSpec::NullArray => seq![0x2au8, 0x2du8, 0x31u8] + crlf(),
        RespSpec::NullBulkString => seq![0x24u8, 0x2du8, 0x31u8] + crlf(),
        RespSpec::RDBFile(b) => seq![0x24u8] + dec_rep(b.len()) + crlf() + b,
        RespSpec::MultiValue(items) => encode_elems(items),
    }
}

/// The wire bytes of a run of values, one frame after another.
pub open spec fn encode_elems(items: Seq<RespSpec>) -> Seq<u8>
    decreases items, 1nat,
{
    if items.len() == 0 {
        Seq::empty()
    } else {
        encode_spec(items.first()) + encode_elems(items.drop_first())
    }
}

/// Append the canonical encoding of `v` to `out`.
pub fn write_redis_value(v: &RedisValueRef, out: &mut Vec<u8>)
    ensures
        final(out)@ == old(out)@ + encode_spec(vw(*v)),
    decreases *v,
{
    match v {
        RedisValueRef::SimpleString(s) => {
            out.push(0x2b);
            extend_bytes(out, s);
            push_crlf(out);
        },
        RedisValueRef::Error(e) => {
            out.push(0x2d);
            extend_bytes(out, e);
            push_crlf(out);
        },
        RedisValueRef::ErrorMsg(e) => {
            out.push(0x2d);
            extend_bytes(out, e);
            push_crlf(out);
        },
        RedisValueRef::Int(i) => {
            out.push(0x3a);
            let digits = i64_to_dec(*i);
            extend_bytes(out, &digits);
            push_crlf(out);
        },
        RedisValueRef::String(s) => {
            out.push(0x24);
            let digits = u64_to_dec(s.len() as u64);
            extend_bytes(out, &digits);
            push_crlf(out);
            extend_bytes(out, s);
            push_crlf(out);
        },
        RedisValueRef::NullArray => {
            out.push(0x2a);
            out.push(0x2d);
            out.push(0x31);
            push_crlf(out);
        },
        RedisValueRef::NullBulkString => {
            out.push(0x24);
            out.push(0x2d);
            out.push(0x31);
            push_crlf(out);
        },
        RedisValueRef::RDBFile(b) => {
            out.push(0x24);
            let digits = u64_to_dec(b.len() as u64);
            extend_bytes(out, &digits);
            push_crlf(out);
            extend_bytes(out, b);
        },
        RedisValueRef::Array(items) => {
            out.push(0x2a);
            let digits = u64_to_dec(items.len() as u64);
            extend_bytes(out, &digits);
            push_crlf(out);
            write_elems(items, out);
            proof {
                let ws = match vw(*v) {
                    RespSpec::Array(ws) => ws,
                    _ => arbitrary(),
                };
                assert(ws.len() == items@.len());
            }
        },
        RedisValueRef::MultiValue(items) => {
            write_elems(items, out);
        },
    }
    assert(out@ =~= old(out)@ + encode_spec(vw(*v)));
}

/// Append the encodings of each element of `items`, in order, to `out`.
fn write_elems(items: &Vec<RedisValueRef>, out: &mut Vec<u8>)
    ensures
        final(out)@ == old(out)@ + encode_elems(vws(items@)),
    decreases items@,
{
    let ghost ws = vws(items@);
    let mut j: usize = 0;
    while j < items.len()
        invariant
            0 <= j <= items.len(),
            ws == vws(items@),
            out@ == old(out)@ + encode_elems(ws.take(j as int)),
        decreases items.len() - j,
    {
        write_redis_value(&items[j], out);
        proof {
            lemma_encode_elems_push(ws.take(j as int), ws[j as int]);
            assert(ws.take(j + 1) =~= ws.take(j as int).push(ws[j as int]));
        }
        j += 1;
    }
    assert(ws.take(ws.len() as int) =~= ws);
}

/// Encoding a run then one more value appends that value's frame.
proof fn lemma_encode_elems_push(items: Seq<RespSpec>, v: RespSpec)
    ensures
        encode_elems(items.push(v)) == encode_elems(items) + encode_spec(v),
    decreases items.len(),
{
    if items.len() == 0 {
        reveal_with_fuel(encode_elems, 3);
        assert(items.push(v).drop_first() =~= Seq::<RespSpec>::empty());
        assert(items.push(v).first() == v);
        assert(items =~= Seq::<RespSpec>::empty());
        assert(encode_elems(items.push(v)) =~= encode_elems(items) + encode_spec(v));
    } else {
        lemma_encode_elems_push(items.drop_first(), v);
        assert(items.push(v).drop_first() =~= items.drop_first().push(v));
        assert(items.push(v).first() == items.first());
        assert(encode_elems(items.push(v)) =~= encode_elems(items) + encode_spec(v));
    }
}

/// What can go wrong while framing a value out of a byte stream.
#[derive(Debug, PartialEq, Eq, Structural)]
pub enum RESPError {
    /// The stream ended inside a frame.
    UnexpectedEnd,
    /// The first byte of a frame names no known type.
    UnknownStartingByte,
    /// The transport failed underneath the framer.
    IOError,
    /// A length or integer field did not parse as a signed number.
    IntParseFailure,
    /// A bulk-string length below minus one.
    BadBulkStringSize(i64),
    /// An array count below minus one.
    BadArraySize(i64),
}

/// The outcome of decoding one frame from the front of a byte sequence:
/// an error, too few bytes, or a value with the count of bytes it occupied.
pub enum PRes {
    Bad(RESPError),
    More,
    Done(int, RespSpec),
}

/// The outcome of reading one integer field.
pub enum IRes {
    Fail,
    More,
    Val(int, int),
}

/// The outcome of decoding a counted run of frames.
pub enum ERes {
    Bad(RESPError),
    More,
    Done(int, Seq<RespSpec>),
}

/// The first position of `x` in `s`, if any.
pub open spec fn find_byte_spec(s: Seq<u8>, x: u8) -> Option<int>
    decreases s.len(),
{
    if s.len() == 0 {
        None
    } else if s[0] == x {
        Some(0)
    } else {
        match find_byte_spec(s.drop_first(), x) {
            Some(i) => Some(i + 1),
            None => None,
        }
    }
}

/// One line of input: the bytes before the first carriage return, and the
/// count consumed including the line break; nothing when the line break has
/// not arrived yet.
pub open spec fn dword(b: Seq<u8>) -> Option<(int, Seq<u8>)> {
    match find_byte_spec(b, 0x0du8) {
        Some(end) => if end + 2 <= b.len() {
            Some((end + 2, b.take(end)))
        } else {
            None
        },
        None => None,
    }
}

/// One integer field: a line parsed as a signed decimal.
pub open spec fn dint(b: Seq<u8>) -> IRes {
    match dword(b) {
        Some((n, w)) => match parse_i64_spec(w) {
            Some(i) => IRes::Val(n, i as int),
            None => IRes::Fail,
        },
        None => IRes::More,
    }
}

/// Decode one frame from the front of `b`.
pub open spec fn dparse(b: Seq<u8>) -> PRes
    decreases b.len(), 0nat,
{
    if b.len() == 0 {
        PRes::More
    } else {
        let rest = b.drop_first();
        if b[0] == 0x2bu8 {
            match dword(rest) {
                Some((n, w)) => PRes::Done(1 + n, RespSpec::String(w)),
                None => PRes::More,
            }
        } else if b[0] == 0x2du8 {
            match dword(rest) {
                Some((n, w)) => PRes::Done(1 + n, RespSpec::Error(w)),
                None => PRes::More,
            }
        } else if b[0] == 0x3au8 {
            match dint(rest) {
                IRes::Val(n, i) => PRes::Done(1 + n, RespSpec::Int(i)),
                IRes::More => PRes::More,
                IRes::Fail => PRes::Bad(RESPError::IntParseFailure),
            }
        } else if b[0] == 0x24u8 {
            match dbulk(rest) {
                PRes::Done(n, w) => PRes::Done(1 + n, w),
                other => other,
            }
        } else if b[0] == 0x2au8 {
            match darray(rest) {
                PRes::Done(n, w) => PRes::Done(1 + n, w),
                other => other,
            }
        } else {
            PRes::Bad(RESPError::UnknownStartingByte)
        }
    }
}

/// Decode a bulk string whose `$` has been consumed: a signed length line,
/// then that many payload bytes and a line break.
pub open spec fn dbulk(b: Seq<u8>) -> PRes {
    match dint(b) {
        IRes::More => PRes::More,
        IRes::Fail => PRes::Bad(RESPError::IntParseFailure),
        IRes::Val(n, size) => if size == -1 {
            PRes::Done(n, RespSpec::NullBulkString)
        } else if size >= 0 {
            if b.len() < n + size + 2 {
                PRes::More
            } else {
                PRes::Done(n + size + 2, RespSpec::String(b.subrange(n, n + size)))
            }
        } else {
            PRes::Bad(RESPError::BadBulkStringSize(size as i64))
        },
    }
}

/// Decode an array whose `*` has been consumed: a signed count line, then
/// that many frames.
pub open spec fn darray(b: Seq<u8>) -> PRes
    decreases b.len(), 0nat,
{
    if b.len() == 0 {
        PRes::More
    } else {
    match dint(b) {
        IRes::More => PRes::More,
        IRes::Fail => PRes::Bad(RESPError::IntParseFailure),
        IRes::Val(n, count) => if count == -1 {
            PRes::Done(n, RespSpec::NullArray)
        } else if count >= 0 {
            let step = if 1 <= n <= b.len() {
                n
            } else {
                1
            };
            match delems(b.skip(step), count as nat) {
                ERes::More => PRes::More,
                ERes::Bad(e) => PRes::Bad(e),
                ERes::Done(m, vs) => PRes::Done(step + m, RespSpec::Array(vs)),
            }
        } else {
            PRes::Bad(RESPError::BadArraySize(count as i64))
        },
    }
    }
}

/// Decode `k` frames from the front of `b`, one after another.
pub open spec fn delems(b: Seq<u8>, k: nat) -> ERes
    decreases b.len(), 1nat,
{
    if k == 0 {
        ERes::Done(0, Seq::empty())
    } else if b.len() == 0 {
        ERes::More
    } else {
        match dparse(b) {
            PRes::More => ERes::More,
            PRes::Bad(e) => ERes::Bad(e),
            PRes::Done(n, w) => {
                let step = if 1 <= n <= b.len() {
                    n
                } else {
                    1
                };
                match delems(b.skip(step), (k - 1) as nat) {
                    ERes::More => ERes::More,
                    ERes::Bad(e) => ERes::Bad(e),
                    ERes::Done(m, vs) => ERes::Done(step + m, seq![w] + vs),
                }
            },
        }
    }
}

/// Relies on memchr::memchr: the result is the first position of the byte
/// in the slice that starts at `pos`, or nothing when it does not occur.
#[verifier::external_body]
fn find_byte_from(hay: &[u8], pos: usize, needle: u8) -> (r: Option<usize>)
    requires
        pos <= hay@.len(),
    ensures
        r matches Some(i) ==> Some(i as int) == find_byte_spec(hay@.skip(pos as int), needle),
        r is None ==> find_byte_spec(hay@.skip(pos as int), needle) is None,
{
    memchr::memchr(needle, &hay[pos..])
}

/// Copy the bytes of `buf` between `a` and `b` into a fresh vector.
pub fn copy_range(buf: &[u8], a: usize, b: usize) -> (r: Vec<u8>)
    requires
        a <= b <= buf@.len(),
    ensures
        r@ == buf@.subrange(a as int, b as int),
{
    let mut out: Vec<u8> = Vec::new();
    let mut i: usize = a;
    while i < b
        invariant
            a <= i <= b <= buf@.len(),
            out@ == buf@.subrange(a as int, i as int),
        decreases b - i,
    {
        out.push(buf[i]);
        assert(buf@.subrange(a as int, i + 1) =~= buf@.subrange(a as int, i as int).push(
            buf@[i as int],
        ));
        i += 1;
    }
    out
}

/// Read one line starting at `pos`: its content and the absolute position
/// just past the line break.
fn word(buf: &[u8], pos: usize) -> (r: Option<(usize, Vec<u8>)>)
    requires
        pos <= buf@.len(),
    ensures
        match dword(buf@.skip(pos as int)) {
            Some((n, w)) => r matches Some((p, cont)) && p == pos + n && cont@ == w && pos + 2 <= p
                <= buf@.len(),
            None => r is None,
        },
{
    let blen = buf.len();
    match find_byte_from(buf, pos, 0x0d) {
        Some(end) => {
            proof {
                lemma_find_byte_in_range(buf@.skip(pos as int), 0x0d);
            }
            if blen >= 2 && pos <= blen - 2 && end <= blen - 2 - pos {
                let content = copy_range(buf, pos, pos + end);
                assert(buf@.skip(pos as int).take(end as int) =~= buf@.subrange(
                    pos as int,
                    pos + end,
                ));
                Some((pos + end + 2, content))
            } else {
                None
            }
        },
        None => None,
    }
}

/// A found byte position lies inside the sequence.
proof fn lemma_find_byte_in_range(s: Seq<u8>, x: u8)
    requires
        find_byte_spec(s, x) is Some,
    ensures
        0 <= find_byte_spec(s, x).unwrap() < s.len(),
        s[find_byte_spec(s, x).unwrap()] == x,
    decreases s.len(),
{
    if s.len() > 0 && s[0] != x {
        if find_byte_spec(s.drop_first(), x) is Some {
            lemma_find_byte_in_range(s.drop_first(), x);
        }
    }
}

/// Read one integer field starting at `pos`: the value and the absolute
/// position just past its line break.
fn parse_int(buf: &[u8], pos: usize) -> (r: Result<Option<(usize, i64)>, RESPError>)
    requires
        pos <= buf@.len(),
    ensures
        match dint(buf@.skip(pos as int)) {
            IRes::Val(n, i) => r matches Ok(Some((p, v))) && p == pos + n && v as int == i && pos
                + 2 <= p <= buf@.len(),
            IRes::More => r == Ok::<Option<(usize, i64)>, RESPError>(None),
            IRes::Fail => r == Err::<Option<(usize, i64)>, RESPError>(RESPError::IntParseFailure),
        },
{
    match word(buf, pos) {
        Some((p, w)) => match parse_i64(w.as_slice()) {
            Some(i) => Ok(Some((p, i))),
            None => Err(RESPError::IntParseFailure),
        },
        None => Ok(None),
    }
}

/// How an exec framing result must reflect the outcome `pr` of the spec
/// decoder run at absolute position `pos` of a buffer of length `blen`.
pub open spec fn pres_matches(
    r: Result<Option<(usize, RedisValueRef)>, RESPError>,
    pr: PRes,
    pos: int,
    blen: int,
) -> bool {
    match pr {
        PRes::Done(n, w) => r matches Ok(Some((p, v))) && p == pos + n && vw(v) == w && pos < p
            <= blen,
        PRes::More => r == Ok::<Option<(usize, RedisValueRef)>, RESPError>(None),
        PRes::Bad(e) => r == Err::<Option<(usize, RedisValueRef)>, RESPError>(e),
    }
}

/// Frame a simple string whose marker byte sits just before `pos`.
fn simple_string(buf: &[u8], pos: usize) -> (r: Result<
    Option<(usize, RedisValueRef)>,
    RESPError,
>)
    requires
        pos <= buf@.len(),
    ensures
        match dword(buf@.skip(pos as int)) {
            Some((n, w)) => r matches Ok(Some((p, v))) && p == pos + n && vw(v)
                == RespSpec::String(w) && pos < p <= buf@.len(),
            None => r == Ok::<Option<(usize, RedisValueRef)>, RESPError>(None),
        },
{
    match word(buf, pos) {
        Some((p, w)) => Ok(Some((p, RedisValueRef::String(w)))),
        None => Ok(None),
    }
}

/// Frame an error reply whose marker byte sits just before `pos`.
fn error(buf: &[u8], pos: usize) -> (r: Result<Option<(usize, RedisValueRef)>, RESPError>)
    requires
        pos <= buf@.len(),
    ensures
        match dword(buf@.skip(pos as int)) {
            Some((n, w)) => r matches Ok(Some((p, v))) && p == pos + n && vw(v) == RespSpec::Error(
                w,
            ) && pos < p <= buf@.len(),
            None => r == Ok::<Option<(usize, RedisValueRef)>, RESPError>(None),
        },
{
    match word(buf, pos) {
        Some((p, w)) => Ok(Some((p, RedisValueRef::Error(w)))),
        None => Ok(None),
    }
}

/// Frame an integer reply whose marker byte sits just before `pos`.
fn resp_int(buf: &[u8], pos: usize) -> (r: Result<Option<(usize, RedisValueRef)>, RESPError>)
    requires
        pos <= buf@.len(),
    ensures
        match dint(buf@.skip(pos as int)) {
            IRes::Val(n, i) => r matches Ok(Some((p, v))) && p == pos + n && vw(v)
                == RespSpec::Int(i) && pos < p <= buf@.len(),
            IRes::More => r == Ok::<Option<(usize, RedisValueRef)>, RESPError>(None),
            IRes::Fail => r == Err::<Option<(usize, RedisValueRef)>, RESPError>(
                RESPError::IntParseFailure,
            ),
        },
{
    match parse_int(buf, pos) {
        Ok(Some((p, i))) => Ok(Some((p, RedisValueRef::Int(i)))),
        Ok(None) => Ok(None),
        Err(e) => Err(e),
    }
}

/// Frame a bulk string whose `$` sits just before `pos`: a length line, a
/// null marker, or the payload when it has fully arrived.
fn bulk_string(buf: &[u8], pos: usize) -> (r: Result<Option<(usize, RedisValueRef)>, RESPError>)
    requires
        pos <= buf@.len(),
    ensures
        pres_matches(r, dbulk(buf@.skip(pos as int)), pos as int, buf@.len() as int),
{
    let blen = buf.len();
    match parse_int(buf, pos) {
        Err(e) => Err(e),
        Ok(None) => Ok(None),
        Ok(Some((p, size))) => {
            if size == -1 {
                Ok(Some((p, RedisValueRef::NullBulkString)))
            } else if size >= 0 {
                if (blen as u128) < (p as u128) + (size as u128) + 2 {
                    Ok(None)
                } else {
                    let size_us = size as usize;
                    let content = copy_range(buf, p, p + size_us);
                    proof {
                        let b = buf@.skip(pos as int);
                        let n = p - pos;
                        assert(b.subrange(n as int, n + size) =~= buf@.subrange(
                            p as int,
                            p + size,
                        ));
                    }
                    Ok(Some((p + size_us + 2, RedisValueRef::String(content))))
                }
            } else {
                Err(RESPError::BadBulkStringSize(size))
            }
        },
    }
}

/// Frame an array whose `*` sits just before `pos`: a count line, then that
/// many frames in order.
fn array(buf: &[u8], pos: usize) -> (r: Result<Option<(usize, RedisValueRef)>, RESPError>)
    requires
        pos <= buf@.len(),
    ensures
        pres_matches(r, darray(buf@.skip(pos as int)), pos as int, buf@.len() as int),
    decreases buf@.len() - pos, 0nat,
{
    let ghost b = buf@.skip(pos as int);
    match parse_int(buf, pos) {
        Err(e) => Err(e),
        Ok(None) => Ok(None),
        Ok(Some((p, count))) => {
            if count == -1 {
                Ok(Some((p, RedisValueRef::NullArray)))
            } else if count >= 0 {
                let mut values: Vec<RedisValueRef> = Vec::new();
                let mut curr: usize = p;
                let mut j: i64 = 0;
                proof {
                    assert(b.skip(p - pos) =~= buf@.skip(p as int));
                }
                while j < count
                    invariant
                        0 <= j <= count,
                        pos < p <= curr <= buf@.len(),
                        values@.len() == j,
                        b == buf@.skip(pos as int),
                        dint(b) == IRes::Val(p - pos, count as int),
                        pos + 2 <= p,
                        match delems(buf@.skip(curr as int), (count - j) as nat) {
                            ERes::Done(m, vs) => delems(b.skip(p - pos), count as nat)
                                == ERes::Done((curr - p) + m, vws(values@) + vs),
                            ERes::More => delems(b.skip(p - pos), count as nat) == ERes::More,
                            ERes::Bad(e) => delems(b.skip(p - pos), count as nat) == ERes::Bad(e),
                        },
                    decreases count - j,
                {
                    let ghost k = (count - j) as nat;
                    let ghost bc = buf@.skip(curr as int);
                    match parse(buf, curr) {
                        Err(e) => {
                            proof {
                                assert(delems(bc, k) == ERes::Bad(e));
                            }
                            return Err(e);
                        },
                        Ok(None) => {
                            proof {
                                assert(delems(bc, k) == ERes::More);
                            }
                            return Ok(None);
                        },
                        Ok(Some((np, v))) => {
                            proof {
                                let n = np - curr;
                                assert(dparse(bc) == PRes::Done(n as int, vw(v)));
                                assert(1 <= n <= bc.len());
                                assert(bc.skip(n as int) =~= buf@.skip(np as int));
                                assert(vws(values@.push(v)) =~= vws(values@).push(vw(v)));
                                assert(vws(values@) + seq![vw(v)] =~= vws(values@).push(vw(v)));
                                match delems(buf@.skip(np as int), (k - 1) as nat) {
                                    ERes::Done(m, vs) => {
                                        assert(delems(bc, k) == ERes::Done(
                                            n + m,
                                            seq![vw(v)] + vs,
                                        ));
                                        assert(vws(values@.push(v)) + vs =~= vws(values@) + (seq![
                                            vw(v),
                                        ] + vs));
                                    },
                                    ERes::More => {},
                                    ERes::Bad(e) => {},
                                }
                            }
                            values.push(v);
                            curr = np;
                            j = j + 1;
                        },
                    }
                }
                proof {
                    assert(delems(buf@.skip(curr as int), 0) == ERes::Done(
                        0,
                        Seq::<RespSpec>::empty(),
                    ));
                    assert(vws(values@) + Seq::<RespSpec>::empty() =~= vws(values@));
                    assert(delems(b.skip(p - pos), count as nat) == ERes::Done(
                        (curr - p) as int,
                        vws(values@),
                    ));
                }
                Ok(Some((curr, RedisValueRef::Array(values))))
            } else {
                Err(RESPError::BadArraySize(count))
            }
        },
    }
}

/// Frame one value starting at `pos`: dispatch on the marker byte.
fn parse(buf: &[u8], pos: usize) -> (r: Result<Option<(usize, RedisValueRef)>, RESPError>)
    requires
        pos <= buf@.len(),
    ensures
        pres_matches(r, dparse(buf@.skip(pos as int)), pos as int, buf@.len() as int),
    decreases buf@.len() - pos, 1nat,
{
    if pos >= buf.len() {
        assert(buf@.skip(pos as int).len() == 0);
        return Ok(None);
    }
    let t = buf[pos];
    proof {
        assert(buf@.skip(pos as int)[0] == buf@[pos as int]);
        assert(buf@.skip(pos as int).drop_first() =~= buf@.skip(pos + 1));
    }
    if t == 0x2b {
        simple_string(buf, pos + 1)
    } else if t == 0x2d {
        error(buf, pos + 1)
    } else if t == 0x24 {
        bulk_string(buf, pos + 1)
    } else if t == 0x3a {
        resp_int(buf, pos + 1)
    } else if t == 0x2a {
        array(buf, pos + 1)
    } else {
        Err(RESPError::UnknownStartingByte)
    }
}

/// The streaming framer: it decodes one frame at a time off the front of a
/// growing buffer and serializes replies back into bytes.
pub struct RespParser;

impl RespParser {
    /// Frame one value off the front of `buf`.  On success the consumed
    /// bytes are removed from `buf`; on "need more bytes" or an error the
    /// buffer is left untouched.
    pub fn decode(&mut self, buf: &mut Vec<u8>) -> (r: Result<Option<RedisValueRef>, RESPError>)
        ensures
            match dparse(old(buf)@) {
                PRes::Done(n, w) => r matches Ok(Some(v)) && vw(v) == w && final(buf)@ == old(
                    buf,
                )@.skip(n),
                PRes::More => r == Ok::<Option<RedisValueRef>, RESPError>(None) && final(buf)@
                    == old(buf)@,
                PRes::Bad(e) => r == Err::<Option<RedisValueRef>, RESPError>(e) && final(buf)@
                    == old(buf)@,
            },
    {
        proof {
            assert(buf@.skip(0) =~= buf@);
        }
        match parse(buf.as_slice(), 0) {
            Err(e) => Err(e),
            Ok(None) => Ok(None),
            Ok(Some((p, v))) => {
                let rest = copy_range(buf.as_slice(), p, buf.len());
                assert(rest@ =~= buf@.skip(p as int));
                *buf = rest;
                Ok(Some(v))
            },
        }
    }

    /// Serialize one value, appending its canonical frame to `dst`.
    pub fn encode(&mut self, item: RedisValueRef, dst: &mut Vec<u8>)
        ensures
            final(dst)@ == old(dst)@ + encode_spec(vw(item)),
    {
        write_redis_value(&item, dst);
    }
}

/// The values whose canonical encoding frames back to themselves: the
/// decoder renders simple strings, snapshot frames, frame runs and internal
/// notes as other shapes, and an error line must hold no carriage return.
pub open spec fn wire_exact(w: RespSpec) -> bool
    decreases w,
{
    match w {
        RespSpec::String(s) => s.len() <= i64::MAX,
        RespSpec::Error(e) => !e.contains(0x0du8),
        RespSpec::Int(i) => i64::MIN <= i <= i64::MAX,
        RespSpec::Array(items) => items.len() <= i64::MAX && (forall|i: int|
            0 <= i < items.len() ==> wire_exact(#[trigger] items[i])),
        RespSpec::NullArray => true,
        RespSpec::NullBulkString => true,
        _ => false,
    }
}

/// Finding a byte after a run that lacks it lands on that byte.
proof fn lemma_find_byte_after(a: Seq<u8>, c: Seq<u8>, x: u8)
    requires
        !a.contains(x),
    ensures
        find_byte_spec(a + seq![x] + c, x) == Some(a.len() as int),
    decreases a.len(),
{
    let s = a + seq![x] + c;
    if a.len() == 0 {
        assert(s[0] == x);
    } else {
        assert(s[0] == a[0]);
        assert(a.contains(x) <==> exists|i: int| 0 <= i < a.len() && a[i] == x);
        assert(s[0] != x);
        assert(!a.drop_first().contains(x)) by {
            if a.drop_first().contains(x) {
                let i = choose|i: int| 0 <= i < a.drop_first().len() && a.drop_first()[i] == x;
                assert(a[i + 1] == x);
            }
        }
        lemma_find_byte_after(a.drop_first(), c, x);
        assert(s.drop_first() =~= a.drop_first() + seq![x] + c);
    }
}

/// A decimal numeral holds no carriage return.
proof fn lemma_dec_no_cr(i: int)
    requires
        i64::MIN <= i <= i64::MAX,
    ensures
        !dec_rep_i64(i).contains(0x0du8),
{
    if i < 0 {
        crate::util::lemma_dec_rep_digits((-i) as nat);
        if dec_rep_i64(i).contains(0x0du8) {
            let j = choose|j: int|
                0 <= j < dec_rep_i64(i).len() && dec_rep_i64(i)[j] == 0x0du8;
            assert(j > 0 ==> dec_rep((-i) as nat)[j - 1] == 0x0du8);
        }
    } else {
        crate::util::lemma_dec_rep_digits(i as nat);
        if dec_rep_i64(i).contains(0x0du8) {
            let j = choose|j: int|
                0 <= j < dec_rep_i64(i).len() && dec_rep_i64(i)[j] == 0x0du8;
        }
    }
}

/// Reading one line out of a frame that starts with a clean line yields
/// exactly that line.
proof fn lemma_dword_of(wd: Seq<u8>, rest: Seq<u8>)
    requires
        !wd.contains(0x0du8),
    ensures
        dword(wd + crlf() + rest) == Some(((wd.len() + 2) as int, wd)),
{
    let b = wd + crlf() + rest;
    assert(b =~= wd + seq![0x0du8] + (seq![0x0au8] + rest));
    lemma_find_byte_after(wd, seq![0x0au8] + rest, 0x0du8);
    assert(b.take(wd.len() as int) =~= wd);
}

/// No canonical frame of a wire-exact value is empty.
proof fn lemma_encode_nonempty(w: RespSpec)
    requires
        wire_exact(w),
    ensures
        encode_spec(w).len() >= 1,
{
}

/// Round trip: decoding a canonical frame, however the buffer continues,
/// consumes exactly that frame and yields the encoded value back.
/// Round trip for an error line.
#[verifier::spinoff_prover]
proof fn lemma_rt_error(e: Seq<u8>, rest: Seq<u8>)
    requires
        !e.contains(0x0du8),
    ensures
        dparse(encode_spec(RespSpec::Error(e)) + rest) == PRes::Done(
            encode_spec(RespSpec::Error(e)).len() as int,
            RespSpec::Error(e),
        ),
{
    let b = encode_spec(RespSpec::Error(e)) + rest;
    assert(b[0] == 0x2du8);
    assert(b.drop_first() =~= e + crlf() + rest);
    lemma_dword_of(e, rest);
}

/// Round trip for an integer line.
#[verifier::spinoff_prover]
proof fn lemma_rt_int(i: int, rest: Seq<u8>)
    requires
        i64::MIN <= i <= i64::MAX,
    ensures
        dparse(encode_spec(RespSpec::Int(i)) + rest) == PRes::Done(
            encode_spec(RespSpec::Int(i)).len() as int,
            RespSpec::Int(i),
        ),
{
    let b = encode_spec(RespSpec::Int(i)) + rest;
    assert(b[0] == 0x3au8);
    assert(b.drop_first() =~= dec_rep_i64(i) + crlf() + rest);
    lemma_dec_no_cr(i);
    lemma_dword_of(dec_rep_i64(i), rest);
    lemma_i64_dec_round_trip(i as i64);
    assert(dec_rep_i64(i as i64 as int) == dec_rep_i64(i));
}

/// Round trip for a bulk string.
#[verifier::spinoff_prover]
proof fn lemma_rt_string(sq: Seq<u8>, rest: Seq<u8>)
    requires
        sq.len() <= i64::MAX,
    ensures
        dparse(encode_spec(RespSpec::String(sq)) + rest) == PRes::Done(
            encode_spec(RespSpec::String(sq)).len() as int,
            RespSpec::String(sq),
        ),
{
    let enc = encode_spec(RespSpec::String(sq));
    let b = enc + rest;
    assert(b[0] == 0x24u8);
    let b2 = b.drop_first();
    assert(b2 =~= dec_rep(sq.len()) + crlf() + (sq + crlf() + rest));
    let sl = sq.len() as i64;
    lemma_i64_dec_round_trip(sl);
    assert(dec_rep_i64(sl as int) == dec_rep(sq.len()));
    lemma_dec_no_cr(sl as int);
    lemma_dword_of(dec_rep(sq.len()), sq + crlf() + rest);
    let n = dec_rep(sq.len()).len() + 2;
    assert(dint(b2) == IRes::Val(n as int, sl as int));
    assert(b2.len() >= n + sq.len() + 2);
    assert(b2.subrange(n as int, (n + sq.len()) as int) =~= sq);
    assert(dbulk(b2) == PRes::Done((n + sq.len() + 2) as int, RespSpec::String(sq)));
    assert(enc.len() == 1 + n + sq.len() + 2);
}

/// Round trip for the null bulk string.
#[verifier::spinoff_prover]
proof fn lemma_rt_null_bulk(rest: Seq<u8>)
    ensures
        dparse(encode_spec(RespSpec::NullBulkString) + rest) == PRes::Done(
            5,
            RespSpec::NullBulkString,
        ),
{
    let b = encode_spec(RespSpec::NullBulkString) + rest;
    assert(b[0] == 0x24u8);
    let b2 = b.drop_first();
    let wd = seq![0x2du8, 0x31u8];
    assert(b2 =~= wd + crlf() + rest);
    assert(!wd.contains(0x0du8)) by {
        if wd.contains(0x0du8) {
            let j = choose|j: int| 0 <= j < wd.len() && wd[j] == 0x0du8;
        }
    }
    lemma_dword_of(wd, rest);
    assert(wd.skip(1) =~= seq![0x31u8]);
    assert(wd.skip(1).drop_last() =~= Seq::<u8>::empty());
    assert(dec_val(Seq::<u8>::empty()) == 0);
    assert(dec_val(wd.skip(1)) == 1);
    assert(parse_i64_spec(wd) == Some(-1i64));
    assert(dbulk(b2) == PRes::Done(4, RespSpec::NullBulkString));
}

/// Round trip for the null array.
#[verifier::spinoff_prover]
proof fn lemma_rt_null_array(rest: Seq<u8>)
    ensures
        dparse(encode_spec(RespSpec::NullArray) + rest) == PRes::Done(5, RespSpec::NullArray),
{
    let b = encode_spec(RespSpec::NullArray) + rest;
    assert(b[0] == 0x2au8);
    let b2 = b.drop_first();
    let wd = seq![0x2du8, 0x31u8];
    assert(b2 =~= wd + crlf() + rest);
    assert(!wd.contains(0x0du8)) by {
        if wd.contains(0x0du8) {
            let j = choose|j: int| 0 <= j < wd.len() && wd[j] == 0x0du8;
        }
    }
    lemma_dword_of(wd, rest);
    assert(wd.skip(1) =~= seq![0x31u8]);
    assert(wd.skip(1).drop_last() =~= Seq::<u8>::empty());
    assert(dec_val(Seq::<u8>::empty()) == 0);
    assert(dec_val(wd.skip(1)) == 1);
    assert(parse_i64_spec(wd) == Some(-1i64));
    assert(darray(b2) == PRes::Done(4, RespSpec::NullArray));
}

/// Round trip: decoding a canonical frame, however the buffer continues,
/// consumes exactly that frame and yields the encoded value back.
#[verifier::spinoff_prover]
#[verifier::rlimit(100)]
pub proof fn lemma_round_trip(w: RespSpec, rest: Seq<u8>)
    requires
        wire_exact(w),
    ensures
        dparse(encode_spec(w) + rest) == PRes::Done(encode_spec(w).len() as int, w),
    decreases w, 0nat,
{
    let enc = encode_spec(w);
    let b = enc + rest;
    match w {
        RespSpec::Error(e) => {
            lemma_rt_error(e, rest);
        },
        RespSpec::Int(i) => {
            lemma_rt_int(i, rest);
        },
        RespSpec::String(s) => {
            lemma_rt_string(s, rest);
        },
        RespSpec::NullBulkString => {
            lemma_rt_null_bulk(rest);
        },
        RespSpec::NullArray => {
            lemma_rt_null_array(rest);
        },
        RespSpec::Array(items) => {
            assert(b[0] == 0x2au8);
            let b2 = b.drop_first();
            assert(b2 =~= dec_rep(items.len()) + crlf() + (encode_elems(items) + rest));
            let cnt = items.len() as i64;
            lemma_i64_dec_round_trip(cnt);
            assert(dec_rep_i64(cnt as int) == dec_rep(items.len()));
            lemma_dec_no_cr(cnt as int);
            lemma_dword_of(dec_rep(items.len()), encode_elems(items) + rest);
            let n = dec_rep(items.len()).len() + 2;
            assert(dint(b2) == IRes::Val(n as int, cnt as int));
            assert(b2.skip(n as int) =~= encode_elems(items) + rest);
            lemma_round_trip_elems(items, rest);
            assert(darray(b2) == PRes::Done(
                (n + encode_elems(items).len()) as int,
                RespSpec::Array(items),
            ));
            assert(enc.len() == 1 + n + encode_elems(items).len());
        },
        _ => {},
    }
}

/// Round trip for a run of frames: decoding the concatenation of canonical
/// frames yields the encoded values back, in order.
proof fn lemma_round_trip_elems(items: Seq<RespSpec>, rest: Seq<u8>)
    requires
        forall|i: int| 0 <= i < items.len() ==> wire_exact(#[trigger] items[i]),
    ensures
        delems(encode_elems(items) + rest, items.len()) == ERes::Done(
            encode_elems(items).len() as int,
            items,
        ),
    decreases items, 1nat,
{
    if items.len() == 0 {
        assert(delems(encode_elems(items) + rest, 0) == ERes::Done(0, Seq::<RespSpec>::empty()));
        assert(items =~= Seq::<RespSpec>::empty());
    } else {
        let first = items.first();
        let tail = items.drop_first();
        let e1 = encode_spec(first);
        let etail = encode_elems(tail);
        let b = encode_elems(items) + rest;
        assert(b =~= e1 + (etail + rest));
        lemma_round_trip(first, etail + rest);
        assert(dparse(b) == PRes::Done(e1.len() as int, first));
        lemma_encode_nonempty(first);
        assert(b.len() == e1.len() + etail.len() + rest.len());
        assert(b.skip(e1.len() as int) =~= etail + rest);
        lemma_round_trip_elems(tail, rest);
        assert(delems(etail + rest, tail.len()) == ERes::Done(etail.len() as int, tail));
        assert(seq![first] + tail =~= items);
        assert(delems(b, items.len()) == ERes::Done(
            (e1.len() + etail.len()) as int,
            seq![first] + tail,
        ));
    }
}

/// Round trip with nothing following: decoding the canonical frame of a
/// wire-exact value yields the value back and consumes the whole frame.
pub proof fn lemma_decode_encode(w: RespSpec)
    requires
        wire_exact(w),
    ensures
        dparse(encode_spec(w)) == PRes::Done(encode_spec(w).len() as int, w),
{
    lemma_round_trip(w, Seq::empty());
    assert(encode_spec(w) + Seq::<u8>::empty() =~= encode_spec(w));
}

impl RedisValueRef {
    /// The payload of a string-shaped value; any other shape comes back as
    /// an error reply.
    pub fn expect_string(self) -> (r: Result<Vec<u8>, RedisValueRef>)
        ensures
            match self {
                RedisValueRef::String(s) => r == Ok::<Vec<u8>, RedisValueRef>(s),
                RedisValueRef::SimpleString(s) => r == Ok::<Vec<u8>, RedisValueRef>(s),
                _ => r matches Err(e) && e matches RedisValueRef::Error(_),
            },
    {
        match self {
            RedisValueRef::String(s) => Ok(s),
            RedisValueRef::SimpleString(s) => Ok(s),
            _ => Err(RedisValueRef::Error(("Expected string value").as_bytes_vec())),
        }
    }

    /// A copy of the payload of a string-shaped value; any other shape comes
    /// back as an error reply.
    pub fn as_string(&self) -> (r: Result<Vec<u8>, RedisValueRef>)
        ensures
            match self {
                RedisValueRef::String(s) => r matches Ok(c) && c@ == s@,
                RedisValueRef::SimpleString(s) => r matches Ok(c) && c@ == s@,
                _ => r matches Err(e) && e matches RedisValueRef::Error(_),
            },
    {
        match self {
            RedisValueRef::String(s) => Ok(copy_bytes(s)),
            RedisValueRef::SimpleString(s) => Ok(copy_bytes(s)),
            _ => Err(RedisValueRef::Error(("Expected string value").as_bytes_vec())),
        }
    }
}

/// A copy of the string value at position `i` of a run whose members are
/// all bulk strings.
pub fn copy_value_string(items: &Vec<RedisValueRef>, i: usize) -> (r: RedisValueRef)
    requires
        i < items@.len(),
        vws(items@)[i as int] matches RespSpec::String(_),
    ensures
        vw(r) == vws(items@)[i as int],
{
    proof {
        assert(vws(items@)[i as int] == vw(items@[i as int]));
    }
    match &items[i] {
        RedisValueRef::String(s) => RedisValueRef::String(copy_bytes(s)),
        _ => {
            proof {
                assert(false);
            }
            RedisValueRef::NullBulkString
        },
    }
}

/// Copy a byte string.
pub fn copy_bytes(src: &Vec<u8>) -> (r: Vec<u8>)
    ensures
        r@ == src@,
{
    let mut out: Vec<u8> = Vec::new();
    extend_bytes(&mut out, src);
    assert(out@ =~= src@);
    out
}

/// Append a byte-string literal to `out`.
pub fn extend_lit(out: &mut Vec<u8>, src: &[u8])
    ensures
        final(out)@ == old(out)@ + src@,
{
    let mut i: usize = 0;
    while i < src.len()
        invariant
            0 <= i <= src.len(),
            out@ == old(out)@ + src@.take(i as int),
        decreases src.len() - i,
    {
        out.push(src[i]);
        assert(src@.take(i + 1) =~= src@.take(i as int).push(src@[i as int]));
        i += 1;
    }
    assert(src@.take(src@.len() as int) =~= src@);
}

/// Append two line-break bytes.
fn push_crlf(out: &mut Vec<u8>)
    ensures
        final(out)@ == old(out)@ + crlf(),
{
    out.push(0x0d);
    out.push(0x0a);
    assert(out@ =~= old(out)@ + crlf());
}

/// Append a copy of `src` to `out`.
pub fn extend_bytes(out: &mut Vec<u8>, src: &Vec<u8>)
    ensures
        final(out)@ == old(out)@ + src@,
{
    let mut i: usize = 0;
    while i < src.len()
        invariant
            0 <= i <= src.len(),
            out@ == old(out)@ + src@.take(i as int),
        decreases src.len() - i,
    {
        out.push(src[i]);
        assert(src@.take(i + 1) =~= src@.take(i as int).push(src@[i as int]));
        i += 1;
    }
    assert(src@.take(src@.len() as int) =~= src@);
}

} // verus!
