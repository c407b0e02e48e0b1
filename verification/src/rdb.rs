//! The snapshot file reader: a binary grammar of a magic header, metadata
//! records, one optional database section of key/value entries with
//! optional expiries, a terminator and a checksum.  Lengths come in
//! six-bit, fourteen-bit and thirty-two-bit forms; special encodings
//! carry little-endian integers rendered in decimal; compressed strings
//! are rejected with a defined error.
use vstd::prelude::*;
use vstd::string::*;

use crate::parser::copy_range;
use crate::util::{dec_rep, u64_to_dec};

verus! {

/// Why a snapshot failed to read.
#[derive(Debug, PartialEq, Eq, Structural)]
pub enum RdbError {
    /// The input ended inside a structure.
    Incomplete,
    /// A marker byte is not the one the grammar demands here.
    BadTag,
    /// A compressed string, which this reader rejects.
    Compressed,
    /// A special encoding this reader does not know.
    BadEncoding,
}

/// The file's opening: its magic and its version text.
#[derive(Debug, PartialEq)]
pub struct Header {
    pub magic: Vec<u8>,
    pub version: Vec<u8>,
}

/// One opaque key/value pair.
#[derive(Debug, PartialEq)]
pub struct KeyValue {
    pub key: Vec<u8>,
    pub value: Vec<u8>,
}

/// One database entry: its pair and its optional absolute expiry in
/// milliseconds.
#[derive(Debug, PartialEq)]
pub struct DatabaseEntry {
    pub kv: KeyValue,
    pub expire: Option<u64>,
}

/// A whole snapshot, parsed.
#[derive(Debug, PartialEq)]
pub struct Rdb {
    pub header: Header,
    pub metadata: Vec<KeyValue>,
    pub entries: Vec<DatabaseEntry>,
}

/// The mathematical shape of a parsed snapshot.
pub struct RdbSpec {
    pub magic: Seq<u8>,
    pub version: Seq<u8>,
    pub metadata: Seq<(Seq<u8>, Seq<u8>)>,
    pub entries: Seq<((Seq<u8>, Seq<u8>), Option<u64>)>,
}

/// A length field, or the selector of a special string encoding.
pub enum LenOrEnc {
    Length(int),
    Encoding(u8),
}

/// Parse a length field: two selector bits, then six, fourteen or
/// thirty-two length bits; the special-encoding selector is no length.
pub open spec fn d_length(b: Seq<u8>, p: int) -> Result<(int, int), RdbError> {
    if !(0 <= p < b.len()) {
        Err(RdbError::Incomplete)
    } else {
        let t = b[p] >> 6;
        if t == 0 {
            Ok((p + 1, (b[p] & 0x3F) as int))
        } else if t == 1 {
            if p + 2 <= b.len() {
                Ok((p + 2, (b[p] & 0x3F) * 256 + b[p + 1]))
            } else {
                Err(RdbError::Incomplete)
            }
        } else if t == 2 {
            if p + 5 <= b.len() {
                Ok(
                    (
                        p + 5,
                        ((b[p + 1] as int) * 0x1000000) + ((b[p + 2] as int) * 0x10000) + ((b[p
                            + 3] as int) * 0x100) + (b[p + 4] as int),
                    ),
                )
            } else {
                Err(RdbError::Incomplete)
            }
        } else {
            Err(RdbError::BadEncoding)
        }
    }
}

/// Parse a length field or a special-encoding selector.
pub open spec fn d_length_or_encoding(b: Seq<u8>, p: int) -> Result<(int, LenOrEnc), RdbError> {
    if !(0 <= p < b.len()) {
        Err(RdbError::Incomplete)
    } else {
        let t = b[p] >> 6;
        if t == 3 {
            Ok((p + 1, LenOrEnc::Encoding((b[p] & 0x3F) as u8)))
        } else {
            match d_length(b, p) {
                Ok((p2, n)) => Ok((p2, LenOrEnc::Length(n))),
                Err(e) => Err(e),
            }
        }
    }
}

/// Parse a specially encoded string: an integer of one, two or four
/// little-endian bytes, rendered in decimal; compression is refused.
pub open spec fn d_string_encoded(b: Seq<u8>, p: int, enc: u8) -> Result<(int, Seq<u8>), RdbError> {
    if enc == 0 {
        if 0 <= p && p + 1 <= b.len() {
            Ok((p + 1, dec_rep(b[p] as nat)))
        } else {
            Err(RdbError::Incomplete)
        }
    } else if enc == 1 {
        if 0 <= p && p + 2 <= b.len() {
            Ok((p + 2, dec_rep((b[p] + b[p + 1] * 0x100) as nat)))
        } else {
            Err(RdbError::Incomplete)
        }
    } else if enc == 2 {
        if 0 <= p && p + 4 <= b.len() {
            Ok(
                (
                    p + 4,
                    dec_rep(
                        (b[p] + b[p + 1] * 0x100 + b[p + 2] * 0x10000 + b[p + 3]
                            * 0x1000000) as nat,
                    ),
                ),
            )
        } else {
            Err(RdbError::Incomplete)
        }
    } else if enc == 3 {
        Err(RdbError::Compressed)
    } else {
        Err(RdbError::BadEncoding)
    }
}

/// Parse one opaque byte run: length-prefixed raw bytes, or a special
/// integer encoding.
pub open spec fn d_encoded_value(b: Seq<u8>, p: int) -> Result<(int, Seq<u8>), RdbError> {
    match d_length_or_encoding(b, p) {
        Ok((p2, le)) => match le {
            LenOrEnc::Length(n) => if p2 + n <= b.len() {
                Ok((p2 + n, b.subrange(p2, p2 + n)))
            } else {
                Err(RdbError::Incomplete)
            },
            LenOrEnc::Encoding(enc) => d_string_encoded(b, p2, enc),
        },
        Err(e) => Err(e),
    }
}

/// Parse one marker byte.
pub open spec fn d_tag(b: Seq<u8>, p: int, t: u8) -> Result<int, RdbError> {
    if !(0 <= p < b.len()) {
        Err(RdbError::Incomplete)
    } else if b[p] == t {
        Ok(p + 1)
    } else {
        Err(RdbError::BadTag)
    }
}

/// Parse one metadata record: its marker and its two byte runs.
pub open spec fn d_metadata(b: Seq<u8>, p: int) -> Result<(int, (Seq<u8>, Seq<u8>)), RdbError> {
    match d_tag(b, p, 0xFA) {
        Ok(p1) => match d_encoded_value(b, p1) {
            Ok((p2, k)) => match d_encoded_value(b, p2) {
                Ok((p3, v)) => Ok((p3, (k, v))),
                Err(e) => Err(e),
            },
            Err(e) => Err(e),
        },
        Err(e) => Err(e),
    }
}

/// Parse metadata records while they keep coming.
pub open spec fn d_metadata_list(b: Seq<u8>, p: int) -> (int, Seq<(Seq<u8>, Seq<u8>)>)
    decreases b.len() - p,
{
    if !(0 <= p < b.len()) {
        (p, Seq::empty())
    } else {
        match d_metadata(b, p) {
            Ok((p2, kv)) => {
                let q = if p < p2 <= b.len() {
                    p2
                } else {
                    p + 1
                };
                let rec = d_metadata_list(b, q);
                (rec.0, seq![kv] + rec.1)
            },
            Err(_) => (p, Seq::empty()),
        }
    }
}

/// Parse the database section's header: its index and its two table
/// sizes.
pub open spec fn d_database_header(b: Seq<u8>, p: int) -> Result<(int, (int, int, int)), RdbError> {
    match d_length(b, p) {
        Ok((p1, index)) => match d_tag(b, p1, 0xFB) {
            Ok(p2) => match d_length(b, p2) {
                Ok((p3, size)) => match d_length(b, p3) {
                    Ok((p4, expire_size)) => Ok((p4, (index, size, expire_size))),
                    Err(e) => Err(e),
                },
                Err(e) => Err(e),
            },
            Err(e) => Err(e),
        },
        Err(e) => Err(e),
    }
}

/// Parse one stored pair: its marker, its key and its value.
pub open spec fn d_database_value(b: Seq<u8>, p: int) -> Result<(int, (Seq<u8>, Seq<u8>)), RdbError> {
    match d_tag(b, p, 0x00) {
        Ok(p1) => match d_encoded_value(b, p1) {
            Ok((p2, k)) => match d_encoded_value(b, p2) {
                Ok((p3, v)) => Ok((p3, (k, v))),
                Err(e) => Err(e),
            },
            Err(e) => Err(e),
        },
        Err(e) => Err(e),
    }
}

/// An eight-byte little-endian count starting at `p`.
pub open spec fn le64_at(b: Seq<u8>, p: int) -> int {
    b[p] + b[p + 1] * 0x100 + b[p + 2] * 0x10000 + b[p + 3] * 0x1000000 + b[p + 4]
        * 0x100000000 + b[p + 5] * 0x10000000000 + b[p + 6] * 0x1000000000000 + b[p + 7]
        * 0x100000000000000
}

/// A four-byte little-endian count starting at `p`.
pub open spec fn le32_at(b: Seq<u8>, p: int) -> int {
    b[p] + b[p + 1] * 0x100 + b[p + 2] * 0x10000 + b[p + 3] * 0x1000000
}

/// Parse one entry: an optional expiry marker with its stamp, then the
/// stored pair.  The millisecond form is tried first, then the second
/// form — whose stamp is scaled to absolute milliseconds — then the bare
/// pair.
pub open spec fn d_entry(b: Seq<u8>, p: int) -> Result<
    (int, ((Seq<u8>, Seq<u8>), Option<u64>)),
    RdbError,
> {
    if 0 <= p < b.len() && b[p] == 0xFC {
        if p + 9 <= b.len() {
            match d_database_value(b, p + 9) {
                Ok((p2, kv)) => Ok((p2, (kv, Some(le64_at(b, p + 1) as u64)))),
                Err(e) => Err(e),
            }
        } else {
            Err(RdbError::Incomplete)
        }
    } else if 0 <= p < b.len() && b[p] == 0xFD {
        if p + 5 <= b.len() {
            match d_database_value(b, p + 5) {
                Ok((p2, kv)) => Ok((p2, (kv, Some((le32_at(b, p + 1) * 1000) as u64)))),
                Err(e) => Err(e),
            }
        } else {
            Err(RdbError::Incomplete)
        }
    } else {
        match d_database_value(b, p) {
            Ok((p2, kv)) => Ok((p2, (kv, None::<u64>))),
            Err(e) => Err(e),
        }
    }
}

/// Parse entries until the terminator marker.
pub open spec fn d_entries(b: Seq<u8>, p: int) -> Result<
    (int, Seq<((Seq<u8>, Seq<u8>), Option<u64>)>),
    RdbError,
>
    decreases b.len() - p,
{
    if !(0 <= p < b.len()) {
        Err(RdbError::Incomplete)
    } else if b[p] == 0xFF {
        Ok((p + 1, Seq::empty()))
    } else {
        match d_entry(b, p) {
            Ok((p2, e)) => {
                let q = if p < p2 <= b.len() {
                    p2
                } else {
                    p + 1
                };
                match d_entries(b, q) {
                    Ok((p3, rest)) => Ok((p3, seq![e] + rest)),
                    Err(er) => Err(er),
                }
            },
            Err(e) => Err(e),
        }
    }
}

/// Parse a whole snapshot: header, metadata, the optional database
/// section, the terminator and the checksum.
pub open spec fn d_rdb(b: Seq<u8>) -> Result<RdbSpec, RdbError> {
    if !(b.len() >= 5 && b.subrange(0, 5) == ("REDIS").spec_bytes()) {
        Err(RdbError::BadTag)
    } else if !(b.len() >= 9) {
        Err(RdbError::Incomplete)
    } else {
        let version = b.subrange(5, 9);
        let md = d_metadata_list(b, 9);
        let p = md.0;
        if 0 <= p < b.len() && b[p] == 0xFE {
            match d_length(b, p + 1) {
                Ok((p1, _index)) => match d_tag(b, p1, 0xFB) {
                    Ok(p2) => match d_length(b, p2) {
                        Ok((p3, _size)) => match d_length(b, p3) {
                            Ok((p4, _es)) => match d_entries(b, p4) {
                                Ok((p5, entries)) => if p5 + 8 <= b.len() {
                                    Ok(
                                        RdbSpec {
                                            magic: ("REDIS").spec_bytes(),
                                            version: version,
                                            metadata: md.1,
                                            entries: entries,
                                        },
                                    )
                                } else {
                                    Err(RdbError::Incomplete)
                                },
                                Err(e) => Err(e),
                            },
                            Err(e) => Err(e),
                        },
                        Err(e) => Err(e),
                    },
                    Err(e) => Err(e),
                },
                Err(e) => Err(e),
            }
        } else {
            match d_tag(b, p, 0xFF) {
                Ok(p1) => if p1 + 8 <= b.len() {
                    Ok(
                        RdbSpec {
                            magic: ("REDIS").spec_bytes(),
                            version: version,
                            metadata: md.1,
                            entries: Seq::empty(),
                        },
                    )
                } else {
                    Err(RdbError::Incomplete)
                },
                Err(e) => Err(e),
            }
        }
    }
}

/// A parsed length lies past its field and is never negative.
proof fn lemma_d_length_bounds(b: Seq<u8>, p: int)
    ensures
        d_length(b, p) matches Ok(r2) ==> p < r2.0 <= b.len() && 0 <= r2.1 < 0x100000000,
{
}

/// A parsed byte run ends past where it began, within the input.
proof fn lemma_d_encoded_bounds(b: Seq<u8>, p: int)
    ensures
        d_encoded_value(b, p) matches Ok(r2) ==> p < r2.0 <= b.len(),
{
    lemma_d_length_bounds(b, p);
}

/// A parsed metadata record ends past where it began, within the input.
proof fn lemma_d_metadata_bounds(b: Seq<u8>, p: int)
    ensures
        d_metadata(b, p) matches Ok(r2) ==> p < r2.0 <= b.len(),
{
    lemma_d_encoded_bounds(b, p + 1);
    match d_encoded_value(b, p + 1) {
        Ok((p2, _)) => {
            lemma_d_encoded_bounds(b, p2);
        },
        Err(_) => {},
    }
}

/// A parsed stored pair ends past where it began, within the input.
proof fn lemma_d_database_value_bounds(b: Seq<u8>, p: int)
    ensures
        d_database_value(b, p) matches Ok(r2) ==> p < r2.0 <= b.len(),
{
    lemma_d_encoded_bounds(b, p + 1);
    match d_encoded_value(b, p + 1) {
        Ok((p2, _)) => {
            lemma_d_encoded_bounds(b, p2);
        },
        Err(_) => {},
    }
}

/// A parsed entry ends past where it began, within the input.
proof fn lemma_d_entry_bounds(b: Seq<u8>, p: int)
    ensures
        d_entry(b, p) matches Ok(r2) ==> p < r2.0 <= b.len(),
{
    lemma_d_database_value_bounds(b, p);
    lemma_d_database_value_bounds(b, p + 9);
    lemma_d_database_value_bounds(b, p + 5);
}

/// Read one length field.
pub fn length(buf: &[u8], p: usize) -> (r: Result<(usize, u32), RdbError>)
    ensures
        match d_length(buf@, p as int) {
            Ok((p2, n)) => r matches Ok(rr) && rr.0 == p2 && rr.1 == n,
            Err(e) => r == Err::<(usize, u32), RdbError>(e),
        },
{
    if p >= buf.len() {
        return Err(RdbError::Incomplete);
    }
    let t = buf[p] >> 6;
    if t == 0 {
        Ok((p + 1, (buf[p] & 0x3F) as u32))
    } else if t == 1 {
        if buf.len() >= 2 && p <= buf.len() - 2 {
            Ok((p + 2, ((buf[p] & 0x3F) as u32) * 256 + (buf[p + 1] as u32)))
        } else {
            Err(RdbError::Incomplete)
        }
    } else if t == 2 {
        if buf.len() >= 5 && p <= buf.len() - 5 {
            let n = ((buf[p + 1] as u32) * 0x1000000) + ((buf[p + 2] as u32) * 0x10000) + ((buf[p
                + 3] as u32) * 0x100) + (buf[p + 4] as u32);
            Ok((p + 5, n))
        } else {
            Err(RdbError::Incomplete)
        }
    } else {
        Err(RdbError::BadEncoding)
    }
}

/// Read one specially encoded string.
pub fn string_encoded(buf: &[u8], p: usize, enc: u8) -> (r: Result<(usize, Vec<u8>), RdbError>)
    ensures
        match d_string_encoded(buf@, p as int, enc) {
            Ok((p2, s)) => r matches Ok(rr) && rr.0 == p2 && rr.1@ == s,
            Err(e) => r matches Err(e2) && e2 == e,
        },
{
    if enc == 0 {
        if p < buf.len() {
            Ok((p + 1, u64_to_dec(buf[p] as u64)))
        } else {
            Err(RdbError::Incomplete)
        }
    } else if enc == 1 {
        if buf.len() >= 2 && p <= buf.len() - 2 {
            let v = (buf[p] as u64) + (buf[p + 1] as u64) * 0x100;
            Ok((p + 2, u64_to_dec(v)))
        } else {
            Err(RdbError::Incomplete)
        }
    } else if enc == 2 {
        if buf.len() >= 4 && p <= buf.len() - 4 {
            let v = (buf[p] as u64) + (buf[p + 1] as u64) * 0x100 + (buf[p + 2] as u64) * 0x10000
                + (buf[p + 3] as u64) * 0x1000000;
            Ok((p + 4, u64_to_dec(v)))
        } else {
            Err(RdbError::Incomplete)
        }
    } else if enc == 3 {
        Err(RdbError::Compressed)
    } else {
        Err(RdbError::BadEncoding)
    }
}

/// Read one opaque byte run.
pub fn encoded_value(buf: &[u8], p: usize) -> (r: Result<(usize, Vec<u8>), RdbError>)
    ensures
        match d_encoded_value(buf@, p as int) {
            Ok((p2, s)) => r matches Ok(rr) && rr.0 == p2 && rr.1@ == s,
            Err(e) => r matches Err(e2) && e2 == e,
        },
{
    if p >= buf.len() {
        return Err(RdbError::Incomplete);
    }
    let t = buf[p] >> 6;
    if t == 3 {
        string_encoded(buf, p + 1, buf[p] & 0x3F)
    } else {
        match length(buf, p) {
            Ok((p2, n)) => {
                if n as usize <= buf.len() && p2 <= buf.len() - (n as usize) {
                    let content = copy_range(buf, p2, p2 + (n as usize));
                    Ok((p2 + (n as usize), content))
                } else {
                    Err(RdbError::Incomplete)
                }
            },
            Err(e) => Err(e),
        }
    }
}

/// Read one marker byte.
fn tag(buf: &[u8], p: usize, t: u8) -> (r: Result<usize, RdbError>)
    ensures
        match d_tag(buf@, p as int, t) {
            Ok(p2) => r matches Ok(rr) && rr == p2,
            Err(e) => r matches Err(e2) && e2 == e,
        },
{
    if p >= buf.len() {
        Err(RdbError::Incomplete)
    } else if buf[p] == t {
        Ok(p + 1)
    } else {
        Err(RdbError::BadTag)
    }
}

/// Read one metadata record.
pub fn metadata(buf: &[u8], p: usize) -> (r: Result<(usize, KeyValue), RdbError>)
    ensures
        match d_metadata(buf@, p as int) {
            Ok((p2, kv)) => r matches Ok(rr) && rr.0 == p2 && rr.1.key@ == kv.0 && rr.1.value@
                == kv.1,
            Err(e) => r matches Err(e2) && e2 == e,
        },
{
    let p1 = match tag(buf, p, 0xFA) {
        Ok(p1) => p1,
        Err(e) => {
            return Err(e);
        },
    };
    let (p2, key) = match encoded_value(buf, p1) {
        Ok(r2) => r2,
        Err(e) => {
            return Err(e);
        },
    };
    let (p3, value) = match encoded_value(buf, p2) {
        Ok(r3) => r3,
        Err(e) => {
            return Err(e);
        },
    };
    Ok((p3, KeyValue { key, value }))
}

/// Read the database section's header.
pub fn database_header(buf: &[u8], p: usize) -> (r: Result<(usize, (u32, u32, u32)), RdbError>)
    ensures
        match d_database_header(buf@, p as int) {
            Ok((p2, h)) => r matches Ok(rr) && rr.0 == p2 && rr.1.0 == h.0 && rr.1.1 == h.1
                && rr.1.2 == h.2,
            Err(e) => r matches Err(e2) && e2 == e,
        },
{
    let (p1, index) = match length(buf, p) {
        Ok(r1) => r1,
        Err(e) => {
            return Err(e);
        },
    };
    let p2 = match tag(buf, p1, 0xFB) {
        Ok(p2) => p2,
        Err(e) => {
            return Err(e);
        },
    };
    let (p3, size) = match length(buf, p2) {
        Ok(r3) => r3,
        Err(e) => {
            return Err(e);
        },
    };
    let (p4, expire_size) = match length(buf, p3) {
        Ok(r4) => r4,
        Err(e) => {
            return Err(e);
        },
    };
    Ok((p4, (index, size, expire_size)))
}

/// Read one stored pair.
pub fn database_value(buf: &[u8], p: usize) -> (r: Result<(usize, KeyValue), RdbError>)
    ensures
        match d_database_value(buf@, p as int) {
            Ok((p2, kv)) => r matches Ok(rr) && rr.0 == p2 && rr.1.key@ == kv.0 && rr.1.value@
                == kv.1,
            Err(e) => r matches Err(e2) && e2 == e,
        },
{
    let p1 = match tag(buf, p, 0x00) {
        Ok(p1) => p1,
        Err(e) => {
            return Err(e);
        },
    };
    let (p2, key) = match encoded_value(buf, p1) {
        Ok(r2) => r2,
        Err(e) => {
            return Err(e);
        },
    };
    let (p3, value) = match encoded_value(buf, p2) {
        Ok(r3) => r3,
        Err(e) => {
            return Err(e);
        },
    };
    Ok((p3, KeyValue { key, value }))
}

/// Read one entry, with its optional expiry marker.
pub fn entry(buf: &[u8], p: usize) -> (r: Result<(usize, DatabaseEntry), RdbError>)
    ensures
        match d_entry(buf@, p as int) {
            Ok((p2, e)) => r matches Ok(rr) && rr.0 == p2 && rr.1.kv.key@ == e.0.0
                && rr.1.kv.value@ == e.0.1 && rr.1.expire == e.1,
            Err(e) => r matches Err(e2) && e2 == e,
        },
{
    if p < buf.len() && buf[p] == 0xFC {
        if buf.len() >= 9 && p <= buf.len() - 9 {
            let stamp = (buf[p + 1] as u64) | ((buf[p + 2] as u64) << 8) | ((buf[p
                + 3] as u64) << 16) | ((buf[p + 4] as u64) << 24) | ((buf[p + 5] as u64) << 32)
                | ((buf[p + 6] as u64) << 40) | ((buf[p + 7] as u64) << 48) | ((buf[p
                + 8] as u64) << 56);
            proof {
                let b = buf@;
                let q = p as int;
                let x1 = b[q + 1];
                let x2 = b[q + 2];
                let x3 = b[q + 3];
                let x4 = b[q + 4];
                let x5 = b[q + 5];
                let x6 = b[q + 6];
                let x7 = b[q + 7];
                let x8 = b[q + 8];
                assert((((x1 as u64) | ((x2 as u64) << 8) | ((x3 as u64) << 16) | ((
                x4 as u64) << 24) | ((x5 as u64) << 32) | ((x6 as u64) << 40) | ((
                x7 as u64) << 48) | ((x8 as u64) << 56)) as int) == x1 + x2 * 0x100 + x3
                    * 0x10000 + x4 * 0x1000000 + x5 * 0x100000000 + x6 * 0x10000000000 + x7
                    * 0x1000000000000 + x8 * 0x100000000000000) by (bit_vector);
            }
            match database_value(buf, p + 9) {
                Ok((p2, kv)) => Ok((p2, DatabaseEntry { kv, expire: Some(stamp) })),
                Err(e) => Err(e),
            }
        } else {
            Err(RdbError::Incomplete)
        }
    } else if p < buf.len() && buf[p] == 0xFD {
        if buf.len() >= 5 && p <= buf.len() - 5 {
            let stamp32 = (buf[p + 1] as u64) | ((buf[p + 2] as u64) << 8) | ((buf[p
                + 3] as u64) << 16) | ((buf[p + 4] as u64) << 24);
            proof {
                let b = buf@;
                let q = p as int;
                let x1 = b[q + 1];
                let x2 = b[q + 2];
                let x3 = b[q + 3];
                let x4 = b[q + 4];
                assert((((x1 as u64) | ((x2 as u64) << 8) | ((x3 as u64) << 16) | ((
                x4 as u64) << 24)) as int) == x1 + x2 * 0x100 + x3 * 0x10000 + x4
                    * 0x1000000) by (bit_vector);
            }
            proof {
                assert(stamp32 < 0x100000000u64);
            }
            let stamp = stamp32 * 1000;
            match database_value(buf, p + 5) {
                Ok((p2, kv)) => Ok((p2, DatabaseEntry { kv, expire: Some(stamp) })),
                Err(e) => Err(e),
            }
        } else {
            Err(RdbError::Incomplete)
        }
    } else {
        match database_value(buf, p) {
            Ok((p2, kv)) => Ok((p2, DatabaseEntry { kv, expire: None })),
            Err(e) => Err(e),
        }
    }
}

/// The views of a run of parsed pairs.
pub open spec fn kv_views(s: Seq<KeyValue>) -> Seq<(Seq<u8>, Seq<u8>)> {
    Seq::new(s.len(), |i: int| (s[i].key@, s[i].value@))
}

/// The views of a run of parsed entries.
pub open spec fn entry_views(s: Seq<DatabaseEntry>) -> Seq<((Seq<u8>, Seq<u8>), Option<u64>)> {
    Seq::new(s.len(), |i: int| ((s[i].kv.key@, s[i].kv.value@), s[i].expire))
}

/// Read metadata records while they keep coming.
#[verifier::spinoff_prover]
fn read_metadata(buf: &[u8], start: usize) -> (r: (usize, Vec<KeyValue>))
    requires
        start <= buf@.len(),
    ensures
        d_metadata_list(buf@, start as int).0 == r.0,
        d_metadata_list(buf@, start as int).1 =~= kv_views(r.1@),
        start <= r.0 <= buf@.len(),
{
    let ghost b = buf@;
    let mut md: Vec<KeyValue> = Vec::new();
    let mut p: usize = start;
    proof {
        assert(kv_views(md@) =~= Seq::<(Seq<u8>, Seq<u8>)>::empty());
        assert(kv_views(md@) + d_metadata_list(b, start as int).1 =~= d_metadata_list(
            b,
            start as int,
        ).1);
    }
    loop
        invariant
            start <= p <= b.len(),
            b == buf@,
            d_metadata_list(b, start as int).0 == d_metadata_list(b, p as int).0,
            d_metadata_list(b, start as int).1 =~= kv_views(md@) + d_metadata_list(
                b,
                p as int,
            ).1,
        decreases b.len() - p,
    {
        if p >= buf.len() {
            proof {
                assert(d_metadata_list(b, p as int) == (
                p as int, Seq::<(Seq<u8>, Seq<u8>)>::empty()));
                assert(kv_views(md@) + Seq::<(Seq<u8>, Seq<u8>)>::empty() =~= kv_views(md@));
            }
            return (p, md);
        }
        let step = metadata(buf, p);
        match step {
            Ok((p2, kv)) => {
                proof {
                    lemma_d_metadata_bounds(b, p as int);
                }
                let ghost mv0 = kv_views(md@);
                let ghost kvk = kv.key@;
                let ghost kvv = kv.value@;
                md.push(kv);
                proof {
                    assert(kv_views(md@) =~= mv0.push((kvk, kvv)));
                    assert(d_metadata_list(b, p as int).1 =~= seq![(kvk, kvv)]
                        + d_metadata_list(b, p2 as int).1);
                    assert(kv_views(md@) + d_metadata_list(b, p2 as int).1 =~= mv0 + (seq![
                        (kvk, kvv),
                    ] + d_metadata_list(b, p2 as int).1));
                }
                p = p2;
            },
            Err(_) => {
                proof {
                    assert(d_metadata_list(b, p as int) == (
                    p as int, Seq::<(Seq<u8>, Seq<u8>)>::empty()));
                    assert(kv_views(md@) + Seq::<(Seq<u8>, Seq<u8>)>::empty() =~= kv_views(
                        md@,
                    ));
                }
                return (p, md);
            },
        }
    }
}

/// Read entries until the terminator marker.
#[verifier::spinoff_prover]
#[verifier::rlimit(100)]
fn read_entries(buf: &[u8], start: usize) -> (r: Result<(usize, Vec<DatabaseEntry>), RdbError>)
    requires
        start <= buf@.len(),
    ensures
        match d_entries(buf@, start as int) {
            Ok((pend, rest)) => r matches Ok(rr) && rr.0 == pend && entry_views(rr.1@) =~= rest
                && pend <= buf@.len(),
            Err(e) => r matches Err(e2) && e2 == e,
        },
{
    let ghost b = buf@;
    let mut entries: Vec<DatabaseEntry> = Vec::new();
    let mut q: usize = start;
    proof {
        assert(entry_views(entries@) =~= Seq::<((Seq<u8>, Seq<u8>), Option<u64>)>::empty());
    }
    loop
        invariant
            start <= q <= b.len(),
            b == buf@,
            match d_entries(b, q as int) {
                Ok((pend, rest)) => d_entries(b, start as int) matches Ok(whole) && whole.0
                    == pend && whole.1 =~= entry_views(entries@) + rest,
                Err(e) => d_entries(b, start as int) matches Err(e2) && e2 == e,
            },
        decreases b.len() - q,
    {
        if q >= buf.len() {
            return Err(RdbError::Incomplete);
        }
        if buf[q] == 0xFF {
            proof {
                assert(d_entries(b, q as int) matches Ok(done) && done.0 == q + 1 && done.1
                    =~= Seq::<((Seq<u8>, Seq<u8>), Option<u64>)>::empty());
                assert(entry_views(entries@) + Seq::<(
                    (Seq<u8>, Seq<u8>),
                    Option<u64>,
                )>::empty() =~= entry_views(entries@));
            }
            return Ok((q + 1, entries));
        }
        match entry(buf, q) {
            Ok((q2, e)) => {
                proof {
                    lemma_d_entry_bounds(b, q as int);
                }
                let ghost ev0 = entry_views(entries@);
                let ghost ek = e.kv.key@;
                let ghost ev = e.kv.value@;
                let ghost ex = e.expire;
                entries.push(e);
                proof {
                    assert(entry_views(entries@) =~= ev0.push(((ek, ev), ex)));
                    match d_entries(b, q2 as int) {
                        Ok((pend, rest)) => {
                            assert(d_entries(b, q as int) matches Ok(w2) && w2.0 == pend
                                && w2.1 =~= seq![((ek, ev), ex)] + rest);
                            assert(ev0 + (seq![((ek, ev), ex)] + rest) =~= entry_views(
                                entries@,
                            ) + rest);
                        },
                        Err(_) => {},
                    }
                }
                q = q2;
            },
            Err(e) => {
                return Err(e);
            },
        }
    }
}

/// Read a whole snapshot file.
#[verifier::spinoff_prover]
#[verifier::rlimit(100)]
pub fn parse_rdb(buf: &[u8]) -> (r: Result<Rdb, RdbError>)
    ensures
        match d_rdb(buf@) {
            Ok(sp) => r matches Ok(rdb) && rdb.header.magic@ == sp.magic && rdb.header.version@
                == sp.version && kv_views(rdb.metadata@) =~= sp.metadata && entry_views(
                rdb.entries@,
            ) =~= sp.entries,
            Err(e) => r matches Err(e2) && e2 == e,
        },
{
    let ghost b = buf@;
    if buf.len() < 5 {
        return Err(RdbError::BadTag);
    }
    let magic_txt = ("REDIS").as_bytes_vec();
    let head = copy_range(buf, 0, 5);
    if !crate::util::bytes_eq(head.as_slice(), magic_txt.as_slice()) {
        proof {
            assert(b.subrange(0, 5) != ("REDIS").spec_bytes());
        }
        return Err(RdbError::BadTag);
    }
    if buf.len() < 9 {
        return Err(RdbError::Incomplete);
    }
    let version = copy_range(buf, 5, 9);
    let (p, md) = read_metadata(buf, 9);
    let has_db = p < buf.len() && buf[p] == 0xFE;
    if has_db {
        let (p1, _index) = match length(buf, p + 1) {
            Ok(r1) => r1,
            Err(e) => {
                return Err(e);
            },
        };
        let p2 = match tag(buf, p1, 0xFB) {
            Ok(r2) => r2,
            Err(e) => {
                return Err(e);
            },
        };
        let (p3, _size) = match length(buf, p2) {
            Ok(r3) => r3,
            Err(e) => {
                return Err(e);
            },
        };
        let (p4, _es) = match length(buf, p3) {
            Ok(r4) => r4,
            Err(e) => {
                return Err(e);
            },
        };
        proof {
            lemma_d_length_bounds(b, p + 1);
            lemma_d_length_bounds(b, p2 as int);
            lemma_d_length_bounds(b, p3 as int);
        }
        match read_entries(buf, p4) {
            Ok((p5, entries)) => {
                if buf.len() >= 8 && p5 <= buf.len() - 8 {
                    let r = Rdb {
                        header: Header { magic: head, version },
                        metadata: md,
                        entries,
                    };
                    proof {
                        assert(b.subrange(0, 5) =~= ("REDIS").spec_bytes());
                    }
                    Ok(r)
                } else {
                    Err(RdbError::Incomplete)
                }
            },
            Err(e) => Err(e),
        }
    } else {
        let p1 = match tag(buf, p, 0xFF) {
            Ok(r1) => r1,
            Err(e) => {
                return Err(e);
            },
        };
        if buf.len() >= 8 && p1 <= buf.len() - 8 {
            let r = Rdb {
                header: Header { magic: head, version },
                metadata: md,
                entries: Vec::new(),
            };
            proof {
                assert(b.subrange(0, 5) =~= ("REDIS").spec_bytes());
                assert(entry_views(r.entries@) =~= Seq::<(
                    (Seq<u8>, Seq<u8>),
                    Option<u64>,
                )>::empty());
            }
            Ok(r)
        } else {
            Err(RdbError::Incomplete)
        }
    }
}


} // verus!
