//! Canonical binary codec: big-endian integers, length-prefixed UTF-8
//! strings, booleans and optional strings, with exact round-trip proofs.
//!
//! All stored values and keys are built from these primitives. Big-endian
//! byte order is used so that byte-lexicographic ordering of encoded keys
//! matches numeric ordering of the values they encode.
#![allow(unused_imports)]
use vstd::prelude::*;
use vstd::utf8::{decode_utf8, encode_utf8, valid_utf8};

verus! {

// ---------------------------------------------------------------------------
// Big-endian u32
// ---------------------------------------------------------------------------

/// The four big-endian bytes of a 32-bit unsigned integer.
pub open spec fn spec_be4(x: u32) -> Seq<u8> {
    seq![
        ((x >> 24) & 0xff) as u8,
        ((x >> 16) & 0xff) as u8,
        ((x >> 8) & 0xff) as u8,
        (x & 0xff) as u8,
    ]
}

/// The 32-bit unsigned integer read from four big-endian bytes.
pub open spec fn spec_be4_val(b: Seq<u8>) -> u32
    recommends
        b.len() == 4,
{
    ((b[0] as u32) << 24) | ((b[1] as u32) << 16) | ((b[2] as u32) << 8) | (b[3] as u32)
}

/// Reading back the big-endian bytes of a 32-bit value yields that value.
pub proof fn lemma_be4_roundtrip(x: u32)
    ensures
        spec_be4(x).len() == 4,
        spec_be4_val(spec_be4(x)) == x,
{
    let b0 = ((x >> 24) & 0xff) as u8;
    let b1 = ((x >> 16) & 0xff) as u8;
    let b2 = ((x >> 8) & 0xff) as u8;
    let b3 = (x & 0xff) as u8;
    assert(((b0 as u32) << 24) | ((b1 as u32) << 16) | ((b2 as u32) << 8) | (b3 as u32) == x)
        by (bit_vector)
        requires
            b0 == ((x >> 24) & 0xff) as u8,
            b1 == ((x >> 16) & 0xff) as u8,
            b2 == ((x >> 8) & 0xff) as u8,
            b3 == (x & 0xff) as u8,
    ;
}

/// Appends the four big-endian bytes of `x` to `out`.
pub fn push_be4(out: &mut Vec<u8>, x: u32)
    ensures
        final(out)@ == old(out)@ + spec_be4(x),
{
    out.push(((x >> 24) & 0xff) as u8);
    out.push(((x >> 16) & 0xff) as u8);
    out.push(((x >> 8) & 0xff) as u8);
    out.push((x & 0xff) as u8);
    assert(out@ =~= old(out)@ + spec_be4(x));
}

// ---------------------------------------------------------------------------
// Big-endian u64
// ---------------------------------------------------------------------------

/// The eight big-endian bytes of a 64-bit unsigned integer.
pub open spec fn spec_be8(x: u64) -> Seq<u8> {
    seq![
        ((x >> 56) & 0xff) as u8,
        ((x >> 48) & 0xff) as u8,
        ((x >> 40) & 0xff) as u8,
        ((x >> 32) & 0xff) as u8,
        ((x >> 24) & 0xff) as u8,
        ((x >> 16) & 0xff) as u8,
        ((x >> 8) & 0xff) as u8,
        (x & 0xff) as u8,
    ]
}

/// The 64-bit unsigned integer read from eight big-endian bytes.
pub open spec fn spec_be8_val(b: Seq<u8>) -> u64
    recommends
        b.len() == 8,
{
    ((b[0] as u64) << 56) | ((b[1] as u64) << 48) | ((b[2] as u64) << 40) | ((b[3] as u64) << 32)
        | ((b[4] as u64) << 24) | ((b[5] as u64) << 16) | ((b[6] as u64) << 8) | (b[7] as u64)
}

/// Reading back the big-endian bytes of a 64-bit value yields that value.
pub proof fn lemma_be8_roundtrip(x: u64)
    ensures
        spec_be8(x).len() == 8,
        spec_be8_val(spec_be8(x)) == x,
{
    let b0 = ((x >> 56) & 0xff) as u8;
    let b1 = ((x >> 48) & 0xff) as u8;
    let b2 = ((x >> 40) & 0xff) as u8;
    let b3 = ((x >> 32) & 0xff) as u8;
    let b4 = ((x >> 24) & 0xff) as u8;
    let b5 = ((x >> 16) & 0xff) as u8;
    let b6 = ((x >> 8) & 0xff) as u8;
    let b7 = (x & 0xff) as u8;
    assert(((b0 as u64) << 56) | ((b1 as u64) << 48) | ((b2 as u64) << 40) | ((b3 as u64) << 32)
        | ((b4 as u64) << 24) | ((b5 as u64) << 16) | ((b6 as u64) << 8) | (b7 as u64) == x)
        by (bit_vector)
        requires
            b0 == ((x >> 56) & 0xff) as u8,
            b1 == ((x >> 48) & 0xff) as u8,
            b2 == ((x >> 40) & 0xff) as u8,
            b3 == ((x >> 32) & 0xff) as u8,
            b4 == ((x >> 24) & 0xff) as u8,
            b5 == ((x >> 16) & 0xff) as u8,
            b6 == ((x >> 8) & 0xff) as u8,
            b7 == (x & 0xff) as u8,
    ;
}

/// Appends the eight big-endian bytes of `x` to `out`.
pub fn push_be8(out: &mut Vec<u8>, x: u64)
    ensures
        final(out)@ == old(out)@ + spec_be8(x),
{
    out.push(((x >> 56) & 0xff) as u8);
    out.push(((x >> 48) & 0xff) as u8);
    out.push(((x >> 40) & 0xff) as u8);
    out.push(((x >> 32) & 0xff) as u8);
    out.push(((x >> 24) & 0xff) as u8);
    out.push(((x >> 16) & 0xff) as u8);
    out.push(((x >> 8) & 0xff) as u8);
    out.push((x & 0xff) as u8);
    assert(out@ =~= old(out)@ + spec_be8(x));
}

// ---------------------------------------------------------------------------
// Signed 64-bit timestamps, in offset-binary form
// ---------------------------------------------------------------------------
// A signed value is stored by adding 2^63 and writing the result as an
// unsigned big-endian word: this keeps byte-lexicographic order equal to
// numeric order, which two's-complement big-endian bytes would not.

/// The offset-binary (biased by 2^63) unsigned image of a signed value.
pub open spec fn spec_ob64(x: i64) -> u64 {
    (x + 0x8000_0000_0000_0000) as u64
}

/// The signed value behind an offset-binary unsigned image.
pub open spec fn spec_ob64_val(u: u64) -> i64 {
    (u - 0x8000_0000_0000_0000) as i64
}

/// The offset-binary map and its inverse compose to the identity.
pub proof fn lemma_ob64_roundtrip(x: i64)
    ensures
        spec_ob64_val(spec_ob64(x)) == x,
{
}

/// Computes the offset-binary image of a signed value.
pub fn ob64_of_i64(x: i64) -> (r: u64)
    ensures
        r == spec_ob64(x),
{
    ((x as i128) + 0x8000_0000_0000_0000i128) as u64
}

/// Recovers the signed value from its offset-binary image.
pub fn i64_of_ob64(u: u64) -> (r: i64)
    ensures
        r == spec_ob64_val(u),
{
    ((u as i128) - 0x8000_0000_0000_0000i128) as i64
}

// ---------------------------------------------------------------------------
// Field encoders over byte sequences
// ---------------------------------------------------------------------------

/// Encoding of a signed 64-bit value: offset-binary, big-endian.
pub open spec fn spec_enc_i64(x: i64) -> Seq<u8> {
    spec_be8(spec_ob64(x))
}

/// Encoding of a byte string: a 4-byte big-endian length prefix, then the bytes.
pub open spec fn spec_enc_lp_bytes(bs: Seq<u8>) -> Seq<u8>
    recommends
        bs.len() < 0x1_0000_0000,
{
    spec_be4(bs.len() as u32) + bs
}

/// Encoding of a character string: its UTF-8 bytes, length-prefixed.
pub open spec fn spec_enc_string(s: Seq<char>) -> Seq<u8> {
    spec_enc_lp_bytes(encode_utf8(s))
}

/// Encoding of a boolean: one byte, zero or one.
pub open spec fn spec_enc_bool(v: bool) -> Seq<u8> {
    seq![if v { 1u8 } else { 0u8 }]
}

/// Encoding of an optional string: a tag byte, then the string if present.
pub open spec fn spec_enc_opt_string(o: Option<Seq<char>>) -> Seq<u8> {
    match o {
        Option::None => seq![0u8],
        Option::Some(s) => seq![1u8] + spec_enc_string(s),
    }
}

/// A string is encodable when its UTF-8 form fits the 4-byte length prefix.
pub open spec fn str_encodable(s: Seq<char>) -> bool {
    encode_utf8(s).len() < 0x1_0000_0000
}

/// An optional string is encodable when its payload, if any, is.
pub open spec fn opt_str_encodable(o: Option<Seq<char>>) -> bool {
    match o {
        Option::None => true,
        Option::Some(s) => str_encodable(s),
    }
}

// ---------------------------------------------------------------------------
// Field decoders: each consumes a prefix and returns the value and the rest
// ---------------------------------------------------------------------------

/// Reads a 32-bit unsigned value from the front of `b`.
pub open spec fn spec_dec_u32(b: Seq<u8>) -> Option<(u32, Seq<u8>)> {
    if b.len() >= 4 {
        Option::Some((spec_be4_val(b.take(4)), b.skip(4)))
    } else {
        Option::None
    }
}

/// Reads a signed 64-bit value (offset-binary) from the front of `b`.
pub open spec fn spec_dec_i64(b: Seq<u8>) -> Option<(i64, Seq<u8>)> {
    if b.len() >= 8 {
        Option::Some((spec_ob64_val(spec_be8_val(b.take(8))), b.skip(8)))
    } else {
        Option::None
    }
}

/// Reads a length-prefixed byte string from the front of `b`.
pub open spec fn spec_dec_lp_bytes(b: Seq<u8>) -> Option<(Seq<u8>, Seq<u8>)> {
    match spec_dec_u32(b) {
        Option::None => Option::None,
        Option::Some((n, r)) => if r.len() >= n {
            Option::Some((r.take(n as int), r.skip(n as int)))
        } else {
            Option::None
        },
    }
}

/// Reads a length-prefixed UTF-8 string from the front of `b`.
pub open spec fn spec_dec_string(b: Seq<u8>) -> Option<(Seq<char>, Seq<u8>)> {
    match spec_dec_lp_bytes(b) {
        Option::None => Option::None,
        Option::Some((bs, r)) => if valid_utf8(bs) {
            Option::Some((decode_utf8(bs), r))
        } else {
            Option::None
        },
    }
}

/// Reads a boolean byte from the front of `b`; bytes other than 0 and 1 fail.
pub open spec fn spec_dec_bool(b: Seq<u8>) -> Option<(bool, Seq<u8>)> {
    if b.len() >= 1 {
        if b[0] == 0 {
            Option::Some((false, b.skip(1)))
        } else if b[0] == 1 {
            Option::Some((true, b.skip(1)))
        } else {
            Option::None
        }
    } else {
        Option::None
    }
}

/// Reads an optional string from the front of `b`.
pub open spec fn spec_dec_opt_string(b: Seq<u8>) -> Option<(Option<Seq<char>>, Seq<u8>)> {
    if b.len() >= 1 {
        if b[0] == 0 {
            Option::Some((Option::None, b.skip(1)))
        } else if b[0] == 1 {
            match spec_dec_string(b.skip(1)) {
                Option::None => Option::None,
                Option::Some((s, r)) => Option::Some((Option::Some(s), r)),
            }
        } else {
            Option::None
        }
    } else {
        Option::None
    }
}

// ---------------------------------------------------------------------------
// Round-trip lemmas: decoding an encoding yields the value and the rest
// ---------------------------------------------------------------------------

/// Decoding a 32-bit encoding followed by anything yields the value and the rest.
pub proof fn lemma_dec_enc_u32(x: u32, rest: Seq<u8>)
    ensures
        spec_dec_u32(spec_be4(x) + rest) == Option::Some((x, rest)),
{
    lemma_be4_roundtrip(x);
    assert((spec_be4(x) + rest).take(4) =~= spec_be4(x));
    assert((spec_be4(x) + rest).skip(4) =~= rest);
}

/// Decoding a signed 64-bit encoding followed by anything yields the value and the rest.
pub proof fn lemma_dec_enc_i64(x: i64, rest: Seq<u8>)
    ensures
        spec_dec_i64(spec_enc_i64(x) + rest) == Option::Some((x, rest)),
{
    lemma_be8_roundtrip(spec_ob64(x));
    lemma_ob64_roundtrip(x);
    assert((spec_enc_i64(x) + rest).take(8) =~= spec_be8(spec_ob64(x)));
    assert((spec_enc_i64(x) + rest).skip(8) =~= rest);
}

/// Decoding a length-prefixed byte-string encoding yields the bytes and the rest.
pub proof fn lemma_dec_enc_lp_bytes(bs: Seq<u8>, rest: Seq<u8>)
    requires
        bs.len() < 0x1_0000_0000,
    ensures
        spec_dec_lp_bytes(spec_enc_lp_bytes(bs) + rest) == Option::Some((bs, rest)),
{
    let n = bs.len() as u32;
    assert(spec_enc_lp_bytes(bs) + rest =~= spec_be4(n) + (bs + rest));
    lemma_dec_enc_u32(n, bs + rest);
    assert((bs + rest).take(n as int) =~= bs);
    assert((bs + rest).skip(n as int) =~= rest);
}

/// Decoding a string encoding yields the characters and the rest.
pub proof fn lemma_dec_enc_string(s: Seq<char>, rest: Seq<u8>)
    requires
        str_encodable(s),
    ensures
        spec_dec_string(spec_enc_string(s) + rest) == Option::Some((s, rest)),
{
    broadcast use vstd::utf8::encode_utf8_valid_utf8;
    broadcast use vstd::utf8::encode_utf8_decode_utf8;

    lemma_dec_enc_lp_bytes(encode_utf8(s), rest);
}

/// Decoding a boolean encoding yields the value and the rest.
pub proof fn lemma_dec_enc_bool(v: bool, rest: Seq<u8>)
    ensures
        spec_dec_bool(spec_enc_bool(v) + rest) == Option::Some((v, rest)),
{
    assert((spec_enc_bool(v) + rest).skip(1) =~= rest);
}

/// Decoding an optional-string encoding yields the value and the rest.
pub proof fn lemma_dec_enc_opt_string(o: Option<Seq<char>>, rest: Seq<u8>)
    requires
        opt_str_encodable(o),
    ensures
        spec_dec_opt_string(spec_enc_opt_string(o) + rest) == Option::Some((o, rest)),
{
    match o {
        Option::None => {
            assert((spec_enc_opt_string(o) + rest).skip(1) =~= rest);
        },
        Option::Some(s) => {
            assert((spec_enc_opt_string(o) + rest).skip(1) =~= spec_enc_string(s) + rest);
            lemma_dec_enc_string(s, rest);
        },
    }
}

// ---------------------------------------------------------------------------
// Executable writers
// ---------------------------------------------------------------------------

/// Appends the offset-binary big-endian encoding of a signed value to `out`.
pub fn push_i64(out: &mut Vec<u8>, x: i64)
    ensures
        final(out)@ == old(out)@ + spec_enc_i64(x),
{
    let u = ob64_of_i64(x);
    push_be8(out, u);
}

/// Appends a length-prefixed byte string to `out`.
/// Returns false, leaving `out` unchanged, when the prefix cannot hold the length.
pub fn push_lp_bytes(out: &mut Vec<u8>, bs: &[u8]) -> (r: bool)
    ensures
        r ==> bs@.len() < 0x1_0000_0000 && final(out)@ == old(out)@ + spec_enc_lp_bytes(bs@),
        !r ==> bs@.len() >= 0x1_0000_0000 && final(out)@ == old(out)@,
{
    let n = bs.len();
    if n as u64 >= 0x1_0000_0000u64 {
        return false;
    }
    push_be4(out, n as u32);
    out.extend_from_slice(bs);
    assert(out@ =~= old(out)@ + spec_enc_lp_bytes(bs@));
    true
}

/// Appends a length-prefixed UTF-8 string to `out`.
/// Returns false, leaving `out` unchanged, when the string is too long to encode.
pub fn push_string(out: &mut Vec<u8>, s: &str) -> (r: bool)
    ensures
        r ==> str_encodable(s@) && final(out)@ == old(out)@ + spec_enc_string(s@),
        !r ==> !str_encodable(s@) && final(out)@ == old(out)@,
{
    let bs = s.as_bytes();
    push_lp_bytes(out, bs)
}

/// Appends a boolean byte to `out`.
pub fn push_bool(out: &mut Vec<u8>, v: bool)
    ensures
        final(out)@ == old(out)@ + spec_enc_bool(v),
{
    out.push(if v { 1u8 } else { 0u8 });
    assert(out@ =~= old(out)@ + spec_enc_bool(v));
}

/// Appends a tagged optional string to `out`.
/// Returns false, leaving `out` unchanged, when the string is too long to encode.
pub fn push_opt_string(out: &mut Vec<u8>, o: &Option<String>, Ghost(ov): Ghost<Option<Seq<char>>>) -> (r: bool)
    requires
        match *o {
            Option::None => ov is None,
            Option::Some(s) => ov == Option::Some(s@),
        },
    ensures
        r ==> opt_str_encodable(ov) && final(out)@ == old(out)@ + spec_enc_opt_string(ov),
        !r ==> !opt_str_encodable(ov) && final(out)@ == old(out)@,
{
    match o {
        Option::None => {
            out.push(0u8);
            assert(out@ =~= old(out)@ + spec_enc_opt_string(ov));
            true
        },
        Option::Some(s) => {
            let ghost before = out@;
            out.push(1u8);
            let ok = push_string(out, s.as_str());
            if ok {
                assert(out@ =~= before + spec_enc_opt_string(ov));
                true
            } else {
                out.pop();
                assert(out@ =~= before);
                false
            }
        },
    }
}

// ---------------------------------------------------------------------------
// Executable readers
// ---------------------------------------------------------------------------

/// Relies on `String::from_utf8`: it succeeds exactly on valid UTF-8 input,
/// returning the string those bytes encode.
#[verifier::external_body]
pub(crate) fn string_from_utf8(v: Vec<u8>) -> (r: Option<String>)
    ensures
        match r {
            Option::Some(s) => valid_utf8(v@) && s@ == decode_utf8(v@),
            Option::None => !valid_utf8(v@),
        },
{
    String::from_utf8(v).ok()
}

/// Reads a 32-bit unsigned value at `pos`, returning it and the next position.
pub fn read_u32(b: &[u8], pos: usize) -> (r: Option<(u32, usize)>)
    requires
        pos <= b@.len(),
    ensures
        match r {
            Option::Some(p) => pos < p.1 <= b@.len() && spec_dec_u32(b@.skip(pos as int))
                == Option::Some((p.0, b@.skip(p.1 as int))),
            Option::None => spec_dec_u32(b@.skip(pos as int)) is None,
        },
{
    let ghost s = b@.skip(pos as int);
    if b.len() - pos >= 4 {
        let x: u32 = ((b[pos] as u32) << 24) | ((b[pos + 1] as u32) << 16) | ((b[pos + 2] as u32)
            << 8) | (b[pos + 3] as u32);
        proof {
            assert(s.take(4) =~= b@.subrange(pos as int, pos as int + 4));
            assert(s.skip(4) =~= b@.skip(pos as int + 4));
        }
        Some((x, pos + 4))
    } else {
        None
    }
}

/// Reads a signed 64-bit (offset-binary) value at `pos`.
pub fn read_i64(b: &[u8], pos: usize) -> (r: Option<(i64, usize)>)
    requires
        pos <= b@.len(),
    ensures
        match r {
            Option::Some(p) => pos < p.1 <= b@.len() && spec_dec_i64(b@.skip(pos as int))
                == Option::Some((p.0, b@.skip(p.1 as int))),
            Option::None => spec_dec_i64(b@.skip(pos as int)) is None,
        },
{
    let ghost s = b@.skip(pos as int);
    if b.len() - pos >= 8 {
        let u: u64 = ((b[pos] as u64) << 56) | ((b[pos + 1] as u64) << 48) | ((b[pos + 2] as u64)
            << 40) | ((b[pos + 3] as u64) << 32) | ((b[pos + 4] as u64) << 24) | ((b[pos + 5]
            as u64) << 16) | ((b[pos + 6] as u64) << 8) | (b[pos + 7] as u64);
        let x = i64_of_ob64(u);
        proof {
            assert(s.take(8) =~= b@.subrange(pos as int, pos as int + 8));
            assert(s.skip(8) =~= b@.skip(pos as int + 8));
        }
        Some((x, pos + 8))
    } else {
        None
    }
}

/// Reads a length-prefixed byte string at `pos`.
pub fn read_lp_bytes(b: &[u8], pos: usize) -> (r: Option<(Vec<u8>, usize)>)
    requires
        pos <= b@.len(),
    ensures
        match r {
            Option::Some(p) => pos < p.1 <= b@.len() && spec_dec_lp_bytes(b@.skip(pos as int))
                == Option::Some((p.0@, b@.skip(p.1 as int))),
            Option::None => spec_dec_lp_bytes(b@.skip(pos as int)) is None,
        },
{
    let ghost s = b@.skip(pos as int);
    match read_u32(b, pos) {
        Option::None => None,
        Option::Some((n, p1)) => {
            if (n as usize) <= b.len() - p1 {
                let p2 = p1 + n as usize;
                let part = vstd::slice::slice_subrange(b, p1, p2);
                let out = vstd::slice::slice_to_vec(part);
                proof {
                    let rest = b@.skip(p1 as int);
                    assert(rest.take(n as int) =~= b@.subrange(p1 as int, p2 as int));
                    assert(rest.skip(n as int) =~= b@.skip(p2 as int));
                }
                Some((out, p2))
            } else {
                None
            }
        },
    }
}

/// Reads a length-prefixed UTF-8 string at `pos`; fails on invalid UTF-8.
pub fn read_string(b: &[u8], pos: usize) -> (r: Option<(String, usize)>)
    requires
        pos <= b@.len(),
    ensures
        match r {
            Option::Some(p) => pos < p.1 <= b@.len() && spec_dec_string(b@.skip(pos as int))
                == Option::Some((p.0@, b@.skip(p.1 as int))),
            Option::None => spec_dec_string(b@.skip(pos as int)) is None,
        },
{
    match read_lp_bytes(b, pos) {
        Option::None => None,
        Option::Some((bs, p1)) => match string_from_utf8(bs) {
            Option::None => None,
            Option::Some(st) => Some((st, p1)),
        },
    }
}

/// Reads a boolean byte at `pos`; bytes other than 0 and 1 fail.
pub fn read_bool(b: &[u8], pos: usize) -> (r: Option<(bool, usize)>)
    requires
        pos <= b@.len(),
    ensures
        match r {
            Option::Some(p) => pos < p.1 <= b@.len() && spec_dec_bool(b@.skip(pos as int))
                == Option::Some((p.0, b@.skip(p.1 as int))),
            Option::None => spec_dec_bool(b@.skip(pos as int)) is None,
        },
{
    let ghost s = b@.skip(pos as int);
    if b.len() - pos >= 1 {
        let t = b[pos];
        proof {
            assert(s.skip(1) =~= b@.skip(pos as int + 1));
        }
        if t == 0 {
            Some((false, pos + 1))
        } else if t == 1 {
            Some((true, pos + 1))
        } else {
            None
        }
    } else {
        None
    }
}

/// Reads a tagged optional string at `pos`.
pub fn read_opt_string(b: &[u8], pos: usize) -> (r: Option<(Option<String>, usize)>)
    requires
        pos <= b@.len(),
    ensures
        match r {
            Option::Some(p) => pos < p.1 <= b@.len() && ({
                let dv = match p.0 {
                    Option::None => Option::<Seq<char>>::None,
                    Option::Some(st) => Option::Some(st@),
                };
                spec_dec_opt_string(b@.skip(pos as int)) == Option::Some((dv, b@.skip(p.1 as int)))
            }),
            Option::None => spec_dec_opt_string(b@.skip(pos as int)) is None,
        },
{
    let ghost s = b@.skip(pos as int);
    if b.len() - pos >= 1 {
        let t = b[pos];
        proof {
            assert(s.skip(1) =~= b@.skip(pos as int + 1));
        }
        if t == 0 {
            Some((None, pos + 1))
        } else if t == 1 {
            match read_string(b, pos + 1) {
                Option::None => None,
                Option::Some((st, p1)) => Some((Some(st), p1)),
            }
        } else {
            None
        }
    } else {
        None
    }
}

/// Strict byte-lexicographic order: the order an embedded store iterates
/// keys in.
pub open spec fn lex_less(a: Seq<u8>, b: Seq<u8>) -> bool
    decreases a.len(),
{
    if b.len() == 0 {
        false
    } else if a.len() == 0 {
        true
    } else if a[0] < b[0] {
        true
    } else if a[0] > b[0] {
        false
    } else {
        lex_less(a.skip(1), b.skip(1))
    }
}

/// Big-endian encoding turns numeric order into byte order: the reason
/// every integer key is stored big-endian.
pub proof fn lemma_be4_order(x: u32, y: u32)
    ensures
        lex_less(spec_be4(x), spec_be4(y)) <==> x < y,
{
    let x0 = ((x >> 24) & 0xff) as u8;
    let x1 = ((x >> 16) & 0xff) as u8;
    let x2 = ((x >> 8) & 0xff) as u8;
    let x3 = (x & 0xff) as u8;
    let y0 = ((y >> 24) & 0xff) as u8;
    let y1 = ((y >> 16) & 0xff) as u8;
    let y2 = ((y >> 8) & 0xff) as u8;
    let y3 = (y & 0xff) as u8;
    assert((x < y) <==> (x0 < y0 || (x0 == y0 && (x1 < y1 || (x1 == y1 && (x2 < y2 || (x2 == y2
        && x3 < y3))))))) by (bit_vector)
        requires
            x0 == ((x >> 24) & 0xff) as u8,
            x1 == ((x >> 16) & 0xff) as u8,
            x2 == ((x >> 8) & 0xff) as u8,
            x3 == (x & 0xff) as u8,
            y0 == ((y >> 24) & 0xff) as u8,
            y1 == ((y >> 16) & 0xff) as u8,
            y2 == ((y >> 8) & 0xff) as u8,
            y3 == (y & 0xff) as u8,
    ;
    let xs = spec_be4(x);
    let ys = spec_be4(y);
    assert(xs.skip(1) =~= seq![x1, x2, x3]);
    assert(ys.skip(1) =~= seq![y1, y2, y3]);
    assert(seq![x1, x2, x3].skip(1) =~= seq![x2, x3]);
    assert(seq![y1, y2, y3].skip(1) =~= seq![y2, y3]);
    assert(seq![x2, x3].skip(1) =~= seq![x3]);
    assert(seq![y2, y3].skip(1) =~= seq![y3]);
    assert(seq![x3].skip(1) =~= Seq::<u8>::empty());
    assert(seq![y3].skip(1) =~= Seq::<u8>::empty());
    reveal_with_fuel(lex_less, 2);
    assert(lex_less(seq![x3], seq![y3]) <==> x3 < y3);
    assert(lex_less(seq![x2, x3], seq![y2, y3]) <==> (x2 < y2 || (x2 == y2 && x3 < y3)));
    assert(lex_less(seq![x1, x2, x3], seq![y1, y2, y3]) <==> (x1 < y1 || (x1 == y1 && (x2 < y2 || (
    x2 == y2 && x3 < y3)))));
    assert(lex_less(xs, ys) <==> (x0 < y0 || (x0 == y0 && (x1 < y1 || (x1 == y1 && (x2 < y2 || (x2
        == y2 && x3 < y3)))))));
}

/// Whether two strings are equal, decided on their UTF-8 bytes.
pub fn str_eq(a: &str, b: &str) -> (r: bool)
    ensures
        r == (a@ == b@),
{
    broadcast use vstd::utf8::encode_utf8_decode_utf8;

    let ab = a.as_bytes();
    let bb = b.as_bytes();
    if ab.len() != bb.len() {
        assert(a@ != b@) by {
            if a@ == b@ {
                assert(encode_utf8(a@) == encode_utf8(b@));
            }
        }
        return false;
    }
    let mut i: usize = 0;
    while i < ab.len()
        invariant
            i <= ab@.len(),
            ab@.len() == bb@.len(),
            ab@ == encode_utf8(a@),
            bb@ == encode_utf8(b@),
            forall|j: int| 0 <= j < i ==> ab@[j] == bb@[j],
        decreases ab@.len() - i,
    {
        if ab[i] != bb[i] {
            assert(a@ != b@) by {
                if a@ == b@ {
                    assert(encode_utf8(a@) == encode_utf8(b@));
                }
            }
            return false;
        }
        i += 1;
    }
    proof {
        assert(ab@ =~= bb@);
        assert(decode_utf8(encode_utf8(a@)) == a@);
        assert(decode_utf8(encode_utf8(b@)) == b@);
    }
    true
}

} // verus!
