//! The wire encoding layer: a compact binary format for the small set of
//! value shapes this protocol puts on the wire (unsigned integers, booleans,
//! double bit patterns, UTF-8 strings, arrays, and a nil unit).
//!
//! Each shape has a spec-level encoder on sequences, a spec-level parser,
//! an executable emitter and reader proved against them, and a round-trip
//! lemma showing the parser inverts the encoder.

use vstd::prelude::*;

verus! {

use vstd::slice::{slice_subrange, slice_to_vec};
use vstd::string::{StrSliceExecFns, StringSliceAdditionalSpecFns};
use vstd::utf8::{encode_utf8, decode_utf8, valid_utf8, encode_utf8_valid_utf8,
    encode_utf8_decode_utf8};

// ----------------------------------------------------------------
// Big-endian byte splitting and joining
// ----------------------------------------------------------------

pub open spec fn be2(n: u16) -> Seq<u8> {
    seq![((n >> 8) & 0xff) as u8, (n & 0xff) as u8]
}

pub open spec fn be4(n: u32) -> Seq<u8> {
    seq![
        ((n >> 24) & 0xff) as u8,
        ((n >> 16) & 0xff) as u8,
        ((n >> 8) & 0xff) as u8,
        (n & 0xff) as u8,
    ]
}

pub open spec fn be8(n: u64) -> Seq<u8> {
    seq![
        ((n >> 56) & 0xff) as u8,
        ((n >> 48) & 0xff) as u8,
        ((n >> 40) & 0xff) as u8,
        ((n >> 32) & 0xff) as u8,
        ((n >> 24) & 0xff) as u8,
        ((n >> 16) & 0xff) as u8,
        ((n >> 8) & 0xff) as u8,
        (n & 0xff) as u8,
    ]
}

pub open spec fn join2(a: u8, b: u8) -> u16 {
    (((a as u16) << 8) | (b as u16)) as u16
}

pub open spec fn join4(a: u8, b: u8, c: u8, d: u8) -> u32 {
    (((a as u32) << 24) | ((b as u32) << 16) | ((c as u32) << 8) | (d as u32)) as u32
}

pub open spec fn join8(a: u8, b: u8, c: u8, d: u8, e: u8, f: u8, g: u8, h: u8) -> u64 {
    (((a as u64) << 56) | ((b as u64) << 48) | ((c as u64) << 40) | ((d as u64) << 32)
        | ((e as u64) << 24) | ((f as u64) << 16) | ((g as u64) << 8) | (h as u64)) as u64
}

pub proof fn lemma_join2_be2(n: u16)
    ensures
        join2(((n >> 8) & 0xff) as u8, (n & 0xff) as u8) == n,
{
    assert(((((((n >> 8) & 0xff) as u8) as u16) << 8) | (((n & 0xff) as u8) as u16)) == n)
        by (bit_vector);
}

pub proof fn lemma_join4_be4(n: u32)
    ensures
        join4(
            ((n >> 24) & 0xff) as u8,
            ((n >> 16) & 0xff) as u8,
            ((n >> 8) & 0xff) as u8,
            (n & 0xff) as u8,
        ) == n,
{
    assert((((((n >> 24) & 0xff) as u8 as u32) << 24) | ((((n >> 16) & 0xff) as u8 as u32) << 16)
        | ((((n >> 8) & 0xff) as u8 as u32) << 8) | ((n & 0xff) as u8 as u32)) == n)
        by (bit_vector);
}

pub proof fn lemma_join8_be8(n: u64)
    ensures
        join8(
            ((n >> 56) & 0xff) as u8,
            ((n >> 48) & 0xff) as u8,
            ((n >> 40) & 0xff) as u8,
            ((n >> 32) & 0xff) as u8,
            ((n >> 24) & 0xff) as u8,
            ((n >> 16) & 0xff) as u8,
            ((n >> 8) & 0xff) as u8,
            (n & 0xff) as u8,
        ) == n,
{
    assert((((((n >> 56) & 0xff) as u8 as u64) << 56) | ((((n >> 48) & 0xff) as u8 as u64) << 48)
        | ((((n >> 40) & 0xff) as u8 as u64) << 40) | ((((n >> 32) & 0xff) as u8 as u64) << 32)
        | ((((n >> 24) & 0xff) as u8 as u64) << 24) | ((((n >> 16) & 0xff) as u8 as u64) << 16)
        | ((((n >> 8) & 0xff) as u8 as u64) << 8) | ((n & 0xff) as u8 as u64)) == n)
        by (bit_vector);
}

// ----------------------------------------------------------------
// Unsigned integers: shortest form among fixint / u8 / u16 / u32 / u64
// ----------------------------------------------------------------

pub open spec fn enc_uint(n: u64) -> Seq<u8> {
    if n < 0x80 {
        seq![n as u8]
    } else if n < 0x100 {
        seq![0xccu8, n as u8]
    } else if n < 0x10000 {
        seq![0xcdu8] + be2(n as u16)
    } else if n < 0x100000000 {
        seq![0xceu8] + be4(n as u32)
    } else {
        seq![0xcfu8] + be8(n)
    }
}

/// Parses any of the integer forms, minimal or not; returns the value and
/// the number of bytes consumed.
pub open spec fn parse_uint(s: Seq<u8>) -> Option<(u64, int)> {
    if s.len() >= 1 && s[0] < 0x80 {
        Some((s[0] as u64, 1int))
    } else if s.len() >= 2 && s[0] == 0xcc {
        Some((s[1] as u64, 2int))
    } else if s.len() >= 3 && s[0] == 0xcd {
        Some((join2(s[1], s[2]) as u64, 3int))
    } else if s.len() >= 5 && s[0] == 0xce {
        Some((join4(s[1], s[2], s[3], s[4]) as u64, 5int))
    } else if s.len() >= 9 && s[0] == 0xcf {
        Some((join8(s[1], s[2], s[3], s[4], s[5], s[6], s[7], s[8]), 9int))
    } else {
        None
    }
}

pub proof fn lemma_parse_uint_round(n: u64, rest: Seq<u8>)
    ensures
        parse_uint(enc_uint(n) + rest) == Some((n, enc_uint(n).len() as int)),
{
    let s = enc_uint(n) + rest;
    if n < 0x80 {
        assert(s[0] == n as u8);
        assert((n as u8) < 0x80 && (n as u8) as u64 == n) by (bit_vector)
            requires n < 0x80;
    } else if n < 0x100 {
        assert(s[0] == 0xccu8 && s[1] == n as u8);
        assert((n as u8) as u64 == n) by (bit_vector)
            requires 0x80 <= n < 0x100;
    } else if n < 0x10000 {
        let m = n as u16;
        assert(s[0] == 0xcdu8);
        assert(s[1] == ((m >> 8) & 0xff) as u8);
        assert(s[2] == (m & 0xff) as u8);
        lemma_join2_be2(m);
        assert((n as u16) as u64 == n) by (bit_vector)
            requires 0x100 <= n < 0x10000;
    } else if n < 0x100000000 {
        let m = n as u32;
        assert(s[0] == 0xceu8);
        assert(s[1] == ((m >> 24) & 0xff) as u8);
        assert(s[2] == ((m >> 16) & 0xff) as u8);
        assert(s[3] == ((m >> 8) & 0xff) as u8);
        assert(s[4] == (m & 0xff) as u8);
        lemma_join4_be4(m);
        assert((n as u32) as u64 == n) by (bit_vector)
            requires 0x10000 <= n < 0x100000000;
    } else {
        assert(s[0] == 0xcfu8);
        assert(s[1] == ((n >> 56) & 0xff) as u8);
        assert(s[2] == ((n >> 48) & 0xff) as u8);
        assert(s[3] == ((n >> 40) & 0xff) as u8);
        assert(s[4] == ((n >> 32) & 0xff) as u8);
        assert(s[5] == ((n >> 24) & 0xff) as u8);
        assert(s[6] == ((n >> 16) & 0xff) as u8);
        assert(s[7] == ((n >> 8) & 0xff) as u8);
        assert(s[8] == (n & 0xff) as u8);
        lemma_join8_be8(n);
        assert(!(n < 0x80) ==> s[0] != 0xcbu8);
    }
}

pub fn emit_uint(out: &mut Vec<u8>, n: u64)
    ensures
        final(out)@ == old(out)@ + enc_uint(n),
{
    if n < 0x80 {
        out.push(n as u8);
        assert(final(out)@ =~= old(out)@ + enc_uint(n));
    } else if n < 0x100 {
        out.push(0xccu8);
        out.push(n as u8);
        assert(final(out)@ =~= old(out)@ + enc_uint(n));
    } else if n < 0x10000 {
        out.push(0xcdu8);
        out.push((((n as u16) >> 8) & 0xff) as u8);
        out.push(((n as u16) & 0xff) as u8);
        assert(final(out)@ =~= old(out)@ + enc_uint(n));
    } else if n < 0x100000000 {
        out.push(0xceu8);
        out.push((((n as u32) >> 24) & 0xff) as u8);
        out.push((((n as u32) >> 16) & 0xff) as u8);
        out.push((((n as u32) >> 8) & 0xff) as u8);
        out.push(((n as u32) & 0xff) as u8);
        assert(final(out)@ =~= old(out)@ + enc_uint(n));
    } else {
        out.push(0xcfu8);
        out.push(((n >> 56) & 0xff) as u8);
        out.push(((n >> 48) & 0xff) as u8);
        out.push(((n >> 40) & 0xff) as u8);
        out.push(((n >> 32) & 0xff) as u8);
        out.push(((n >> 24) & 0xff) as u8);
        out.push(((n >> 16) & 0xff) as u8);
        out.push(((n >> 8) & 0xff) as u8);
        out.push((n & 0xff) as u8);
        assert(final(out)@ =~= old(out)@ + enc_uint(n));
    }
}

pub fn read_uint(buf: &Vec<u8>, pos: usize) -> (r: Option<(u64, usize)>)
    requires
        pos <= buf@.len(),
    ensures
        (match r {
            Some(p) => {
                &&& pos <= p.1 <= buf@.len()
                &&& parse_uint(buf@.skip(pos as int)) == Some((p.0, p.1 - pos))
            },
            None => parse_uint(buf@.skip(pos as int)) is None,
        }),
{
    let n = buf.len();
    let ghost tail = buf@.skip(pos as int);
    if pos >= n {
        return None;
    }
    let m = buf[pos];
    assert(tail[0] == buf@[pos as int]);
    if m < 0x80 {
        Some((m as u64, pos + 1))
    } else if m == 0xcc {
        if n - pos < 2 {
            return None;
        }
        assert(tail[1] == buf@[pos + 1int]);
        Some((buf[pos + 1] as u64, pos + 2))
    } else if m == 0xcd {
        if n - pos < 3 {
            return None;
        }
        assert(tail[1] == buf@[pos + 1int] && tail[2] == buf@[pos + 2int]);
        let v = ((buf[pos + 1] as u16) << 8) | (buf[pos + 2] as u16);
        Some((v as u64, pos + 3))
    } else if m == 0xce {
        if n - pos < 5 {
            return None;
        }
        assert(tail[1] == buf@[pos + 1int] && tail[2] == buf@[pos + 2int]
            && tail[3] == buf@[pos + 3int] && tail[4] == buf@[pos + 4int]);
        let v = ((buf[pos + 1] as u32) << 24) | ((buf[pos + 2] as u32) << 16)
            | ((buf[pos + 3] as u32) << 8) | (buf[pos + 4] as u32);
        Some((v as u64, pos + 5))
    } else if m == 0xcf {
        if n - pos < 9 {
            return None;
        }
        assert(tail[1] == buf@[pos + 1int] && tail[2] == buf@[pos + 2int]
            && tail[3] == buf@[pos + 3int] && tail[4] == buf@[pos + 4int]
            && tail[5] == buf@[pos + 5int] && tail[6] == buf@[pos + 6int]
            && tail[7] == buf@[pos + 7int] && tail[8] == buf@[pos + 8int]);
        let v = ((buf[pos + 1] as u64) << 56) | ((buf[pos + 2] as u64) << 48)
            | ((buf[pos + 3] as u64) << 40) | ((buf[pos + 4] as u64) << 32)
            | ((buf[pos + 5] as u64) << 24) | ((buf[pos + 6] as u64) << 16)
            | ((buf[pos + 7] as u64) << 8) | (buf[pos + 8] as u64);
        Some((v, pos + 9))
    } else {
        None
    }
}

// ----------------------------------------------------------------
// Nil, booleans, and double-precision bit patterns
// ----------------------------------------------------------------

pub open spec fn enc_nil() -> Seq<u8> {
    seq![0xc0u8]
}

pub open spec fn parse_nil(s: Seq<u8>) -> Option<int> {
    if s.len() >= 1 && s[0] == 0xc0 {
        Some(1int)
    } else {
        None
    }
}

pub open spec fn enc_bool(b: bool) -> Seq<u8> {
    if b {
        seq![0xc3u8]
    } else {
        seq![0xc2u8]
    }
}

pub open spec fn parse_bool(s: Seq<u8>) -> Option<(bool, int)> {
    if s.len() >= 1 && s[0] == 0xc2 {
        Some((false, 1int))
    } else if s.len() >= 1 && s[0] == 0xc3 {
        Some((true, 1int))
    } else {
        None
    }
}

/// A double on the wire: marker then the eight bit-pattern bytes, big endian.
/// The bit pattern is carried as a `u64` and never interpreted numerically.
pub open spec fn enc_f64_bits(bits: u64) -> Seq<u8> {
    seq![0xcbu8] + be8(bits)
}

pub open spec fn parse_f64_bits(s: Seq<u8>) -> Option<(u64, int)> {
    if s.len() >= 9 && s[0] == 0xcb {
        Some((join8(s[1], s[2], s[3], s[4], s[5], s[6], s[7], s[8]), 9int))
    } else {
        None
    }
}

pub proof fn lemma_parse_f64_bits_round(bits: u64, rest: Seq<u8>)
    ensures
        parse_f64_bits(enc_f64_bits(bits) + rest) == Some((bits, 9int)),
{
    let s = enc_f64_bits(bits) + rest;
    assert(s[0] == 0xcbu8);
    assert(s[1] == ((bits >> 56) & 0xff) as u8);
    assert(s[2] == ((bits >> 48) & 0xff) as u8);
    assert(s[3] == ((bits >> 40) & 0xff) as u8);
    assert(s[4] == ((bits >> 32) & 0xff) as u8);
    assert(s[5] == ((bits >> 24) & 0xff) as u8);
    assert(s[6] == ((bits >> 16) & 0xff) as u8);
    assert(s[7] == ((bits >> 8) & 0xff) as u8);
    assert(s[8] == (bits & 0xff) as u8);
    lemma_join8_be8(bits);
}

pub fn emit_nil(out: &mut Vec<u8>)
    ensures
        final(out)@ == old(out)@ + enc_nil(),
{
    out.push(0xc0u8);
    assert(final(out)@ =~= old(out)@ + enc_nil());
}

pub fn emit_bool(out: &mut Vec<u8>, b: bool)
    ensures
        final(out)@ == old(out)@ + enc_bool(b),
{
    if b {
        out.push(0xc3u8);
    } else {
        out.push(0xc2u8);
    }
    assert(final(out)@ =~= old(out)@ + enc_bool(b));
}

pub fn emit_f64_bits(out: &mut Vec<u8>, bits: u64)
    ensures
        final(out)@ == old(out)@ + enc_f64_bits(bits),
{
    out.push(0xcbu8);
    out.push(((bits >> 56) & 0xff) as u8);
    out.push(((bits >> 48) & 0xff) as u8);
    out.push(((bits >> 40) & 0xff) as u8);
    out.push(((bits >> 32) & 0xff) as u8);
    out.push(((bits >> 24) & 0xff) as u8);
    out.push(((bits >> 16) & 0xff) as u8);
    out.push(((bits >> 8) & 0xff) as u8);
    out.push((bits & 0xff) as u8);
    assert(final(out)@ =~= old(out)@ + enc_f64_bits(bits));
}

pub fn read_nil(buf: &Vec<u8>, pos: usize) -> (r: Option<usize>)
    requires
        pos <= buf@.len(),
    ensures
        (match r {
            Some(end) => {
                &&& pos <= end <= buf@.len()
                &&& parse_nil(buf@.skip(pos as int)) == Some(end - pos)
            },
            None => parse_nil(buf@.skip(pos as int)) is None,
        }),
{
    if pos < buf.len() && buf[pos] == 0xc0 {
        assert(buf@.skip(pos as int)[0] == buf@[pos as int]);
        Some(pos + 1)
    } else {
        assert(pos < buf@.len() ==> buf@.skip(pos as int)[0] == buf@[pos as int]);
        None
    }
}

pub fn read_bool(buf: &Vec<u8>, pos: usize) -> (r: Option<(bool, usize)>)
    requires
        pos <= buf@.len(),
    ensures
        (match r {
            Some(p) => {
                &&& pos <= p.1 <= buf@.len()
                &&& parse_bool(buf@.skip(pos as int)) == Some((p.0, p.1 - pos))
            },
            None => parse_bool(buf@.skip(pos as int)) is None,
        }),
{
    if pos < buf.len() {
        assert(buf@.skip(pos as int)[0] == buf@[pos as int]);
        if buf[pos] == 0xc2 {
            Some((false, pos + 1))
        } else if buf[pos] == 0xc3 {
            Some((true, pos + 1))
        } else {
            None
        }
    } else {
        None
    }
}

pub fn read_f64_bits(buf: &Vec<u8>, pos: usize) -> (r: Option<(u64, usize)>)
    requires
        pos <= buf@.len(),
    ensures
        (match r {
            Some(p) => {
                &&& pos <= p.1 <= buf@.len()
                &&& parse_f64_bits(buf@.skip(pos as int)) == Some((p.0, p.1 - pos))
            },
            None => parse_f64_bits(buf@.skip(pos as int)) is None,
        }),
{
    let n = buf.len();
    let ghost tail = buf@.skip(pos as int);
    if pos >= n {
        return None;
    }
    assert(tail[0] == buf@[pos as int]);
    if buf[pos] != 0xcb || n - pos < 9 {
        return None;
    }
    assert(tail[1] == buf@[pos + 1int] && tail[2] == buf@[pos + 2int]
        && tail[3] == buf@[pos + 3int] && tail[4] == buf@[pos + 4int]
        && tail[5] == buf@[pos + 5int] && tail[6] == buf@[pos + 6int]
        && tail[7] == buf@[pos + 7int] && tail[8] == buf@[pos + 8int]);
    let v = ((buf[pos + 1] as u64) << 56) | ((buf[pos + 2] as u64) << 48)
        | ((buf[pos + 3] as u64) << 40) | ((buf[pos + 4] as u64) << 32)
        | ((buf[pos + 5] as u64) << 24) | ((buf[pos + 6] as u64) << 16)
        | ((buf[pos + 7] as u64) << 8) | (buf[pos + 8] as u64);
    Some((v, pos + 9))
}

// ----------------------------------------------------------------
// Strings: header with the UTF-8 byte length, then the UTF-8 bytes
// ----------------------------------------------------------------

/// Header for a string whose UTF-8 encoding is `n` bytes long.
/// Meaningful only for `0 <= n < 2^32`.
pub open spec fn str_header(n: int) -> Seq<u8> {
    if n < 32 {
        seq![(0xa0 + n) as u8]
    } else if n < 0x100 {
        seq![0xd9u8, n as u8]
    } else if n < 0x10000 {
        seq![0xdau8] + be2(n as u16)
    } else {
        seq![0xdbu8] + be4(n as u32)
    }
}

pub open spec fn parse_str_header(s: Seq<u8>) -> Option<(int, int)> {
    if s.len() >= 1 && 0xa0 <= s[0] <= 0xbf {
        Some(((s[0] - 0xa0) as int, 1int))
    } else if s.len() >= 2 && s[0] == 0xd9 {
        Some((s[1] as int, 2int))
    } else if s.len() >= 3 && s[0] == 0xda {
        Some((join2(s[1], s[2]) as int, 3int))
    } else if s.len() >= 5 && s[0] == 0xdb {
        Some((join4(s[1], s[2], s[3], s[4]) as int, 5int))
    } else {
        None
    }
}

/// A string fits on the wire when its UTF-8 byte length has a header form.
pub open spec fn str_encodable(t: Seq<char>) -> bool {
    encode_utf8(t).len() < 0x100000000
}

pub open spec fn enc_str(t: Seq<char>) -> Seq<u8> {
    str_header(encode_utf8(t).len() as int) + encode_utf8(t)
}

pub open spec fn parse_str(s: Seq<u8>) -> Option<(Seq<char>, int)> {
    match parse_str_header(s) {
        Some((len, h)) => if len >= 0 && h + len <= s.len() {
            let b = s.subrange(h, h + len);
            if valid_utf8(b) {
                Some((decode_utf8(b), h + len))
            } else {
                None
            }
        } else {
            None
        },
        None => None,
    }
}

pub proof fn lemma_parse_str_round(t: Seq<char>, rest: Seq<u8>)
    requires
        str_encodable(t),
    ensures
        parse_str(enc_str(t) + rest) == Some((t, enc_str(t).len() as int)),
{
    broadcast use encode_utf8_valid_utf8, encode_utf8_decode_utf8;

    let b = encode_utf8(t);
    let n = b.len() as int;
    let h = str_header(n);
    let s = enc_str(t) + rest;
    if n < 32 {
        assert(s[0] == (0xa0 + n) as u8);
        assert(parse_str_header(s) == Some((n, 1int)));
    } else if n < 0x100 {
        assert(s[0] == 0xd9u8 && s[1] == n as u8);
        assert(parse_str_header(s) == Some((n, 2int)));
    } else if n < 0x10000 {
        assert(s[0] == 0xdau8);
        assert(s[1] == (((n as u16) >> 8) & 0xff) as u8);
        assert(s[2] == ((n as u16) & 0xff) as u8);
        lemma_join2_be2(n as u16);
        assert(parse_str_header(s) == Some((n, 3int)));
    } else {
        assert(s[0] == 0xdbu8);
        assert(s[1] == (((n as u32) >> 24) & 0xff) as u8);
        assert(s[2] == (((n as u32) >> 16) & 0xff) as u8);
        assert(s[3] == (((n as u32) >> 8) & 0xff) as u8);
        assert(s[4] == ((n as u32) & 0xff) as u8);
        lemma_join4_be4(n as u32);
        assert(parse_str_header(s) == Some((n, 5int)));
    }
    let hl = h.len() as int;
    assert(s.subrange(hl, hl + n) =~= b);
    assert(decode_utf8(b) == t);
}

/// Appends the raw bytes of `b` to `out`.
pub fn emit_raw(out: &mut Vec<u8>, b: &Vec<u8>)
    ensures
        final(out)@ == old(out)@ + b@,
{
    let mut i: usize = 0;
    while i < b.len()
        invariant
            i <= b@.len(),
            out@ == old(out)@ + b@.subrange(0, i as int),
        decreases b@.len() - i,
    {
        out.push(b[i]);
        assert(out@ =~= old(out)@ + b@.subrange(0, i + 1int));
        i = i + 1;
    }
    assert(out@ =~= old(out)@ + b@);
}

pub fn emit_str(out: &mut Vec<u8>, s: &str) -> (ok: bool)
    ensures
        ok == str_encodable(s@),
        ok ==> final(out)@ == old(out)@ + enc_str(s@),
        !ok ==> final(out)@ == old(out)@,
{
    let bytes = s.as_bytes_vec();
    let blen = bytes.len();
    if (blen as u64) >= 0x100000000u64 {
        return false;
    }
    let ghost n = blen as int;
    if blen < 32 {
        out.push(0xa0u8 + (blen as u8));
        assert(out@ =~= old(out)@ + str_header(n));
    } else if blen < 0x100 {
        out.push(0xd9u8);
        out.push(blen as u8);
        assert(out@ =~= old(out)@ + str_header(n));
    } else if blen < 0x10000 {
        out.push(0xdau8);
        out.push((((blen as u16) >> 8) & 0xff) as u8);
        out.push(((blen as u16) & 0xff) as u8);
        assert(out@ =~= old(out)@ + str_header(n));
    } else {
        out.push(0xdbu8);
        out.push((((blen as u32) >> 24) & 0xff) as u8);
        out.push((((blen as u32) >> 16) & 0xff) as u8);
        out.push((((blen as u32) >> 8) & 0xff) as u8);
        out.push(((blen as u32) & 0xff) as u8);
        assert(out@ =~= old(out)@ + str_header(n));
    }
    emit_raw(out, &bytes);
    assert(final(out)@ =~= old(out)@ + enc_str(s@));
    true
}

/// Relies on `String::from_utf8`: it succeeds exactly when the input is
/// valid UTF-8, and then returns the string whose UTF-8 encoding is that
/// input, unchanged.
#[verifier::external_body]
fn string_from_utf8(bytes: Vec<u8>) -> (r: Option<String>)
    ensures
        r is Some <==> valid_utf8(bytes@),
        (r matches Some(s) ==> encode_utf8(s@) == bytes@),
{
    String::from_utf8(bytes).ok()
}

pub fn read_str(buf: &Vec<u8>, pos: usize) -> (r: Option<(String, usize)>)
    requires
        pos <= buf@.len(),
    ensures
        (match r {
            Some(p) => {
                &&& pos <= p.1 <= buf@.len()
                &&& parse_str(buf@.skip(pos as int)) == Some((p.0@, p.1 - pos as int))
            },
            None => parse_str(buf@.skip(pos as int)) is None,
        }),
{
    broadcast use vstd::seq_lib::group_seq_properties;

    let n = buf.len();
    let ghost tail = buf@.skip(pos as int);
    if pos >= n {
        return None;
    }
    assert(tail[0] == buf@[pos as int]);
    let m = buf[pos];
    let len: usize;
    let h: usize;
    if 0xa0 <= m && m <= 0xbf {
        len = (m - 0xa0) as usize;
        h = 1;
    } else if m == 0xd9 {
        if n - pos < 2 {
            return None;
        }
        assert(tail[1] == buf@[pos + 1int]);
        len = buf[pos + 1] as usize;
        h = 2;
    } else if m == 0xda {
        if n - pos < 3 {
            return None;
        }
        assert(tail[1] == buf@[pos + 1int] && tail[2] == buf@[pos + 2int]);
        len = (((buf[pos + 1] as u16) << 8) | (buf[pos + 2] as u16)) as usize;
        h = 3;
    } else if m == 0xdb {
        if n - pos < 5 {
            return None;
        }
        assert(tail[1] == buf@[pos + 1int] && tail[2] == buf@[pos + 2int]
            && tail[3] == buf@[pos + 3int] && tail[4] == buf@[pos + 4int]);
        len = (((buf[pos + 1] as u32) << 24) | ((buf[pos + 2] as u32) << 16)
            | ((buf[pos + 3] as u32) << 8) | (buf[pos + 4] as u32)) as usize;
        h = 5;
    } else {
        return None;
    }
    assert(parse_str_header(tail) == Some((len as int, h as int)));
    if len > n - pos - h {
        return None;
    }
    let start = pos + h;
    let bytes = slice_to_vec(slice_subrange(buf.as_slice(), start, start + len));
    assert(bytes@ =~= tail.subrange(h as int, h + len as int));
    match string_from_utf8(bytes) {
        Some(st) => {
            proof {
                broadcast use encode_utf8_valid_utf8, encode_utf8_decode_utf8;

                assert(st@ == decode_utf8(tail.subrange(h as int, h + len as int)));
            }
            Some((st, start + len))
        },
        None => None,
    }
}

// ----------------------------------------------------------------
// Arrays: element count header, then the elements back to back
// ----------------------------------------------------------------

/// Header for an array of `n` elements. Meaningful only for `0 <= n < 2^32`.
pub open spec fn arr_header(n: int) -> Seq<u8> {
    if n < 16 {
        seq![(0x90 + n) as u8]
    } else if n < 0x10000 {
        seq![0xdcu8] + be2(n as u16)
    } else {
        seq![0xddu8] + be4(n as u32)
    }
}

pub open spec fn parse_arr_header(s: Seq<u8>) -> Option<(int, int)> {
    if s.len() >= 1 && 0x90 <= s[0] <= 0x9f {
        Some(((s[0] - 0x90) as int, 1int))
    } else if s.len() >= 3 && s[0] == 0xdc {
        Some((join2(s[1], s[2]) as int, 3int))
    } else if s.len() >= 5 && s[0] == 0xdd {
        Some((join4(s[1], s[2], s[3], s[4]) as int, 5int))
    } else {
        None
    }
}

pub proof fn lemma_parse_arr_header_round(n: int, rest: Seq<u8>)
    requires
        0 <= n < 0x100000000,
    ensures
        parse_arr_header(arr_header(n) + rest) == Some((n, arr_header(n).len() as int)),
{
    let s = arr_header(n) + rest;
    if n < 16 {
        assert(s[0] == (0x90 + n) as u8);
    } else if n < 0x10000 {
        assert(s[0] == 0xdcu8);
        assert(s[1] == (((n as u16) >> 8) & 0xff) as u8);
        assert(s[2] == ((n as u16) & 0xff) as u8);
        lemma_join2_be2(n as u16);
    } else {
        assert(s[0] == 0xddu8);
        assert(s[1] == (((n as u32) >> 24) & 0xff) as u8);
        assert(s[2] == (((n as u32) >> 16) & 0xff) as u8);
        assert(s[3] == (((n as u32) >> 8) & 0xff) as u8);
        assert(s[4] == ((n as u32) & 0xff) as u8);
        lemma_join4_be4(n as u32);
    }
}

pub fn emit_arr_header(out: &mut Vec<u8>, n: usize)
    requires
        (n as int) < 0x100000000,
    ensures
        final(out)@ == old(out)@ + arr_header(n as int),
{
    if n < 16 {
        out.push(0x90u8 + (n as u8));
        assert(final(out)@ =~= old(out)@ + arr_header(n as int));
    } else if n < 0x10000 {
        out.push(0xdcu8);
        out.push((((n as u16) >> 8) & 0xff) as u8);
        out.push(((n as u16) & 0xff) as u8);
        assert(final(out)@ =~= old(out)@ + arr_header(n as int));
    } else {
        out.push(0xddu8);
        out.push((((n as u32) >> 24) & 0xff) as u8);
        out.push((((n as u32) >> 16) & 0xff) as u8);
        out.push((((n as u32) >> 8) & 0xff) as u8);
        out.push(((n as u32) & 0xff) as u8);
        assert(final(out)@ =~= old(out)@ + arr_header(n as int));
    }
}

pub fn read_arr_header(buf: &Vec<u8>, pos: usize) -> (r: Option<(usize, usize)>)
    requires
        pos <= buf@.len(),
    ensures
        (match r {
            Some(p) => {
                &&& pos <= p.1 <= buf@.len()
                &&& parse_arr_header(buf@.skip(pos as int)) == Some((p.0 as int, p.1 - pos))
            },
            None => parse_arr_header(buf@.skip(pos as int)) is None,
        }),
{
    let n = buf.len();
    let ghost tail = buf@.skip(pos as int);
    if pos >= n {
        return None;
    }
    assert(tail[0] == buf@[pos as int]);
    let m = buf[pos];
    if 0x90 <= m && m <= 0x9f {
        Some(((m - 0x90) as usize, pos + 1))
    } else if m == 0xdc {
        if n - pos < 3 {
            return None;
        }
        assert(tail[1] == buf@[pos + 1int] && tail[2] == buf@[pos + 2int]);
        let v = ((buf[pos + 1] as u16) << 8) | (buf[pos + 2] as u16);
        Some((v as usize, pos + 3))
    } else if m == 0xdd {
        if n - pos < 5 {
            return None;
        }
        assert(tail[1] == buf@[pos + 1int] && tail[2] == buf@[pos + 2int]
            && tail[3] == buf@[pos + 3int] && tail[4] == buf@[pos + 4int]);
        let v = ((buf[pos + 1] as u32) << 24) | ((buf[pos + 2] as u32) << 16)
            | ((buf[pos + 3] as u32) << 8) | (buf[pos + 4] as u32);
        Some((v as usize, pos + 5))
    } else {
        None
    }
}

/// Stepping over the first segment of a suffix that splits into two.
pub proof fn lemma_skip_peel(s: Seq<u8>, a: Seq<u8>, b: Seq<u8>, p: int)
    requires
        0 <= p <= s.len(),
        s.skip(p) == a + b,
    ensures
        s.skip(p + a.len()) == b,
{
    assert(s.skip(p).len() == a.len() + b.len());
    assert(s.skip(p + a.len() as int) =~= b) by {
        assert forall|i: int| 0 <= i < b.len() implies s.skip(p + a.len() as int)[i] == b[i] by {
            assert(s.skip(p)[a.len() + i] == s[p + a.len() + i]);
            assert((a + b)[a.len() + i] == b[i]);
            assert(s.skip(p + a.len() as int)[i] == s[p + a.len() + i]);
        }
    }
}

/// Skipping twice is skipping the sum.
pub proof fn lemma_skip_skip(s: Seq<u8>, p: int, j: int)
    requires
        0 <= p,
        0 <= j,
        p + j <= s.len(),
    ensures
        s.skip(p).skip(j) == s.skip(p + j),
{
    assert(s.skip(p).skip(j) =~= s.skip(p + j)) by {
        assert forall|i: int| 0 <= i < s.len() - p - j implies s.skip(p).skip(j)[i] == s.skip(
            p + j,
        )[i] by {
            assert(s.skip(p).skip(j)[i] == s.skip(p)[j + i]);
            assert(s.skip(p)[j + i] == s[p + j + i]);
            assert(s.skip(p + j)[i] == s[p + j + i]);
        }
    }
}

// ----------------------------------------------------------------
// Byte blobs: a byte vector carried as an array of small integers
// ----------------------------------------------------------------

pub open spec fn enc_u8_items(b: Seq<u8>) -> Seq<u8>
    decreases b.len(),
{
    if b.len() == 0 {
        Seq::empty()
    } else {
        enc_uint(b[0] as u64) + enc_u8_items(b.drop_first())
    }
}

pub proof fn lemma_enc_u8_items_push(b: Seq<u8>, x: u8)
    ensures
        enc_u8_items(b.push(x)) == enc_u8_items(b) + enc_uint(x as u64),
    decreases b.len(),
{
    if b.len() == 0 {
        assert(b.push(x).drop_first() =~= Seq::<u8>::empty());
        assert(b.push(x)[0] == x);
        assert(enc_u8_items(b.push(x)) == enc_uint(x as u64) + enc_u8_items(
            b.push(x).drop_first(),
        ));
        assert(enc_u8_items(b.push(x).drop_first()) == Seq::<u8>::empty());
        assert(enc_u8_items(b) == Seq::<u8>::empty());
        assert(enc_uint(x as u64) + Seq::<u8>::empty() =~= Seq::<u8>::empty() + enc_uint(
            x as u64,
        ));
    } else {
        assert(b.push(x).drop_first() =~= b.drop_first().push(x));
        assert(b.push(x)[0] == b[0]);
        assert(enc_u8_items(b.push(x)) == enc_uint(b[0] as u64) + enc_u8_items(
            b.drop_first().push(x),
        ));
        lemma_enc_u8_items_push(b.drop_first(), x);
        assert(enc_uint(b[0] as u64) + (enc_u8_items(b.drop_first()) + enc_uint(x as u64))
            =~= (enc_uint(b[0] as u64) + enc_u8_items(b.drop_first())) + enc_uint(x as u64));
    }
}

pub open spec fn blob_encodable(b: Seq<u8>) -> bool {
    b.len() < 0x100000000
}

pub open spec fn enc_blob(b: Seq<u8>) -> Seq<u8> {
    arr_header(b.len() as int) + enc_u8_items(b)
}

pub open spec fn parse_u8_items(s: Seq<u8>, n: nat) -> Option<(Seq<u8>, int)>
    decreases n,
{
    if n == 0 {
        Some((Seq::empty(), 0int))
    } else {
        match parse_uint(s) {
            Some((v, k)) => if v < 0x100 {
                match parse_u8_items(s.skip(k), (n - 1) as nat) {
                    Some(p) => Some((seq![v as u8] + p.0, k + p.1)),
                    None => None,
                }
            } else {
                None
            },
            None => None,
        }
    }
}

pub open spec fn parse_blob(s: Seq<u8>) -> Option<(Seq<u8>, int)> {
    match parse_arr_header(s) {
        Some((n, h)) => if n >= 0 {
            match parse_u8_items(s.skip(h), n as nat) {
                Some(p) => Some((p.0, h + p.1)),
                None => None,
            }
        } else {
            None
        },
        None => None,
    }
}

pub proof fn lemma_parse_u8_items_round(b: Seq<u8>, rest: Seq<u8>)
    ensures
        parse_u8_items(enc_u8_items(b) + rest, b.len()) == Some((
            b,
            enc_u8_items(b).len() as int,
        )),
    decreases b.len(),
{
    if b.len() == 0 {
        assert(b =~= Seq::<u8>::empty());
    } else {
        let head = enc_uint(b[0] as u64);
        let tail_enc = enc_u8_items(b.drop_first());
        let s = enc_u8_items(b) + rest;
        assert(s =~= head + (tail_enc + rest));
        lemma_parse_uint_round(b[0] as u64, tail_enc + rest);
        let k = head.len() as int;
        assert(parse_uint(s) == Some((b[0] as u64, k)));
        assert(s.skip(k) =~= tail_enc + rest);
        lemma_parse_u8_items_round(b.drop_first(), rest);
        assert(seq![b[0]] + b.drop_first() =~= b);
    }
}

pub proof fn lemma_parse_blob_round(b: Seq<u8>, rest: Seq<u8>)
    requires
        blob_encodable(b),
    ensures
        parse_blob(enc_blob(b) + rest) == Some((b, enc_blob(b).len() as int)),
{
    let h = arr_header(b.len() as int);
    let s = enc_blob(b) + rest;
    assert(s =~= h + (enc_u8_items(b) + rest));
    lemma_parse_arr_header_round(b.len() as int, enc_u8_items(b) + rest);
    assert(parse_arr_header(s) == Some((b.len() as int, h.len() as int)));
    assert(s.skip(h.len() as int) =~= enc_u8_items(b) + rest);
    lemma_parse_u8_items_round(b, rest);
}

pub fn emit_blob(out: &mut Vec<u8>, b: &Vec<u8>) -> (ok: bool)
    ensures
        ok == blob_encodable(b@),
        ok ==> final(out)@ == old(out)@ + enc_blob(b@),
        !ok ==> final(out)@ == old(out)@,
{
    if (b.len() as u64) >= 0x100000000u64 {
        return false;
    }
    emit_arr_header(out, b.len());
    let ghost mid = out@;
    let mut i: usize = 0;
    while i < b.len()
        invariant
            i <= b@.len(),
            out@ == mid + enc_u8_items(b@.subrange(0, i as int)),
        decreases b@.len() - i,
    {
        emit_uint(out, b[i] as u64);
        proof {
            lemma_enc_u8_items_push(b@.subrange(0, i as int), b@[i as int]);
            assert(b@.subrange(0, i as int).push(b@[i as int]) =~= b@.subrange(0, i + 1int));
        }
        i = i + 1;
    }
    assert(b@.subrange(0, b@.len() as int) =~= b@);
    assert(final(out)@ =~= old(out)@ + enc_blob(b@));
    true
}

/// Reads `n` consecutive small-integer items, the element run of a blob.
pub fn read_u8_items(buf: &Vec<u8>, pos: usize, n: usize) -> (r: Option<(Vec<u8>, usize)>)
    requires
        pos <= buf@.len(),
    ensures
        (match r {
            Some(p) => {
                &&& pos <= p.1 <= buf@.len()
                &&& parse_u8_items(buf@.skip(pos as int), n as nat) == Some((
                    p.0@,
                    p.1 - pos as int,
                ))
            },
            None => parse_u8_items(buf@.skip(pos as int), n as nat) is None,
        }),
    decreases n,
{
    if n == 0 {
        let empty: Vec<u8> = Vec::new();
        assert(empty@ =~= Seq::<u8>::empty());
        return Some((empty, pos));
    }
    let (v, k) = match read_uint(buf, pos) {
        Some(p) => p,
        None => {
            return None;
        },
    };
    if v >= 0x100 {
        return None;
    }
    assert(buf@.skip(pos as int).skip(k - pos as int) =~= buf@.skip(k as int));
    match read_u8_items(buf, k, n - 1) {
        Some((mut w, end)) => {
            let ghost w0 = w@;
            w.insert(0, v as u8);
            assert(w@ =~= seq![v as u8] + w0);
            Some((w, end))
        },
        None => None,
    }
}

pub fn read_blob(buf: &Vec<u8>, pos: usize) -> (r: Option<(Vec<u8>, usize)>)
    requires
        pos <= buf@.len(),
    ensures
        (match r {
            Some(p) => {
                &&& pos <= p.1 <= buf@.len()
                &&& parse_blob(buf@.skip(pos as int)) == Some((p.0@, p.1 - pos as int))
            },
            None => parse_blob(buf@.skip(pos as int)) is None,
        }),
{
    let (count, hend) = match read_arr_header(buf, pos) {
        Some(p) => p,
        None => {
            return None;
        },
    };
    assert(buf@.skip(pos as int).skip(hend - pos as int) =~= buf@.skip(hend as int));
    match read_u8_items(buf, hend, count) {
        Some((items, end)) => Some((items, end)),
        None => None,
    }
}

} // verus!
