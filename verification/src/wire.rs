//! Byte-level primitives of the wire protocol: little-endian unsigned
//! integers, sign-magnitude signed integers, and length-prefixed UTF-8 text.
//!
//! Every primitive has a spec-level encoding, a spec-level decoder over a byte
//! sequence and an index, and exec functions proved to match them. Decoding is
//! total: any malformed input yields a typed error and consumes nothing.

use vstd::prelude::*;
use vstd::utf8::{decode_utf8, encode_utf8, valid_utf8};

verus! {

/// Why a packet was rejected by the decoder.
#[derive(Clone, Copy, Debug, PartialEq, Eq, Structural)]
pub enum DecodeError {
    /// The input ended before the announced content did.
    UnexpectedEnd,
    /// The leading message tag is neither an action's nor a perception's.
    UnknownMessage,
    /// A step carried a tag outside the closed set of step kinds.
    UnknownStep,
    /// A percept carried a tag outside the closed set of percept kinds.
    UnknownPercept,
    /// A signed number carried a sign byte or magnitude no encoder produces.
    InvalidNumber,
    /// Text was not valid UTF-8.
    InvalidText,
    /// Bytes were left over after the message ended.
    TrailingData,
}

// --- spec encodings ---------------------------------------------------------

pub open spec fn u16_le(x: u16) -> Seq<u8> {
    seq![(x & 0xff) as u8, ((x >> 8) & 0xff) as u8]
}

pub open spec fn u64_le(x: u64) -> Seq<u8> {
    seq![
        (x & 0xff) as u8,
        ((x >> 8) & 0xff) as u8,
        ((x >> 16) & 0xff) as u8,
        ((x >> 24) & 0xff) as u8,
        ((x >> 32) & 0xff) as u8,
        ((x >> 40) & 0xff) as u8,
        ((x >> 48) & 0xff) as u8,
        ((x >> 56) & 0xff) as u8,
    ]
}

/// The magnitude of a signed value, as the unsigned type.
pub open spec fn i64_mag(x: i64) -> u64 {
    if x >= 0 {
        x as u64
    } else {
        (-(x as int)) as u64
    }
}

/// Sign byte followed by the magnitude.
pub open spec fn i64_sm(x: i64) -> Seq<u8> {
    seq![if x >= 0 { 0u8 } else { 1u8 }] + u64_le(i64_mag(x))
}

/// Length-prefixed UTF-8 bytes of a character sequence.
pub open spec fn text_bytes(t: Seq<char>) -> Seq<u8> {
    u16_le(encode_utf8(t).len() as u16) + encode_utf8(t)
}

/// Whether the text is short enough for its length prefix.
pub open spec fn text_wf(t: Seq<char>) -> bool {
    encode_utf8(t).len() <= u16::MAX
}

// --- spec decoders ----------------------------------------------------------

pub open spec fn spec_u16_of(b: Seq<u8>) -> u16
    recommends
        b.len() == 2,
{
    (b[0] as u16) | ((b[1] as u16) << 8)
}

pub open spec fn spec_u64_of(b: Seq<u8>) -> u64
    recommends
        b.len() == 8,
{
    (b[0] as u64) | ((b[1] as u64) << 8) | ((b[2] as u64) << 16) | ((b[3] as u64) << 24) | (
    (b[4] as u64) << 32) | ((b[5] as u64) << 40) | ((b[6] as u64) << 48) | ((b[7] as u64) << 56)
}

pub open spec fn dec_u8(b: Seq<u8>, i: int) -> Result<(u8, int), DecodeError> {
    if 0 <= i && i + 1 <= b.len() {
        Ok((b[i], i + 1))
    } else {
        Err(DecodeError::UnexpectedEnd)
    }
}

pub open spec fn dec_u16(b: Seq<u8>, i: int) -> Result<(u16, int), DecodeError> {
    if 0 <= i && i + 2 <= b.len() {
        Ok((spec_u16_of(b.subrange(i, i + 2)), i + 2))
    } else {
        Err(DecodeError::UnexpectedEnd)
    }
}

pub open spec fn dec_u64(b: Seq<u8>, i: int) -> Result<(u64, int), DecodeError> {
    if 0 <= i && i + 8 <= b.len() {
        Ok((spec_u64_of(b.subrange(i, i + 8)), i + 8))
    } else {
        Err(DecodeError::UnexpectedEnd)
    }
}

pub open spec fn dec_i64(b: Seq<u8>, i: int) -> Result<(i64, int), DecodeError> {
    match dec_u8(b, i) {
        Ok((sign, j)) => match dec_u64(b, j) {
            Ok((mag, k)) => if sign == 0 {
                if mag <= i64::MAX as u64 {
                    Ok((mag as i64, k))
                } else {
                    Err(DecodeError::InvalidNumber)
                }
            } else if sign == 1 {
                if 1 <= mag <= (i64::MAX as u64) + 1 {
                    Ok(((-(mag as int)) as i64, k))
                } else {
                    Err(DecodeError::InvalidNumber)
                }
            } else {
                Err(DecodeError::InvalidNumber)
            },
            Err(e) => Err(e),
        },
        Err(e) => Err(e),
    }
}

pub open spec fn dec_text(b: Seq<u8>, i: int) -> Result<(Seq<char>, int), DecodeError> {
    match dec_u16(b, i) {
        Ok((n, j)) => if j + n <= b.len() {
            if valid_utf8(b.subrange(j, j + n)) {
                Ok((decode_utf8(b.subrange(j, j + n)), j + n))
            } else {
                Err(DecodeError::InvalidText)
            }
        } else {
            Err(DecodeError::UnexpectedEnd)
        },
        Err(e) => Err(e),
    }
}

// --- round-trip lemmas ------------------------------------------------------

pub proof fn lemma_u16_round_trip(x: u16)
    ensures
        spec_u16_of(u16_le(x)) == x,
{
    assert(((x & 0xff) as u8) as u16 | ((((x >> 8) & 0xff) as u8) as u16) << 8 == x)
        by (bit_vector);
}

pub proof fn lemma_u64_round_trip(x: u64)
    ensures
        spec_u64_of(u64_le(x)) == x,
{
    assert((((x & 0xff) as u8) as u64) | ((((x >> 8) & 0xff) as u8) as u64) << 8 | ((((x >> 16)
        & 0xff) as u8) as u64) << 16 | ((((x >> 24) & 0xff) as u8) as u64) << 24 | ((((x >> 32)
        & 0xff) as u8) as u64) << 32 | ((((x >> 40) & 0xff) as u8) as u64) << 40 | ((((x >> 48)
        & 0xff) as u8) as u64) << 48 | ((((x >> 56) & 0xff) as u8) as u64) << 56 == x)
        by (bit_vector);
}

/// Parsing an unsigned 64-bit value where its encoding was laid down yields
/// that value back.
pub proof fn lemma_dec_u64(b: Seq<u8>, i: int, x: u64)
    requires
        0 <= i,
        i + 8 <= b.len(),
        b.subrange(i, i + 8) =~= u64_le(x),
    ensures
        dec_u64(b, i) == Ok::<_, DecodeError>((x, i + 8)),
{
    lemma_u64_round_trip(x);
}

pub proof fn lemma_dec_u16(b: Seq<u8>, i: int, x: u16)
    requires
        0 <= i,
        i + 2 <= b.len(),
        b.subrange(i, i + 2) =~= u16_le(x),
    ensures
        dec_u16(b, i) == Ok::<_, DecodeError>((x, i + 2)),
{
    lemma_u16_round_trip(x);
}

/// Parsing a signed value where its sign-magnitude encoding was laid down
/// yields that value back.
pub proof fn lemma_dec_i64(b: Seq<u8>, i: int, x: i64)
    requires
        0 <= i,
        i + 9 <= b.len(),
        b.subrange(i, i + 9) =~= i64_sm(x),
    ensures
        dec_i64(b, i) == Ok::<_, DecodeError>((x, i + 9)),
{
    let s = b.subrange(i, i + 9);
    assert(b[i] == s[0]);
    assert(b.subrange(i + 1, i + 9) =~= s.subrange(1, 9));
    assert(s.subrange(1, 9) =~= u64_le(i64_mag(x)));
    lemma_dec_u64(b, i + 1, i64_mag(x));
    if x >= 0 {
        assert(i64_mag(x) <= i64::MAX as u64);
    } else {
        assert(1 <= i64_mag(x) <= (i64::MAX as u64) + 1);
    }
}

/// Parsing text where its length-prefixed encoding was laid down yields the
/// same characters back.
pub proof fn lemma_dec_text(b: Seq<u8>, i: int, t: Seq<char>)
    requires
        0 <= i,
        text_wf(t),
        i + text_bytes(t).len() <= b.len(),
        b.subrange(i, i + text_bytes(t).len()) =~= text_bytes(t),
    ensures
        dec_text(b, i) == Ok::<_, DecodeError>((t, i + text_bytes(t).len())),
{
    let u = encode_utf8(t);
    let n = u.len() as u16;
    let s = b.subrange(i, i + text_bytes(t).len());
    assert(b.subrange(i, i + 2) =~= s.subrange(0, 2));
    assert(s.subrange(0, 2) =~= u16_le(n));
    lemma_dec_u16(b, i, n);
    assert(b.subrange(i + 2, i + 2 + n) =~= s.subrange(2, 2 + n));
    assert(s.subrange(2, 2 + n) =~= u);
    vstd::utf8::encode_utf8_valid_utf8(t);
    vstd::utf8::encode_utf8_decode_utf8(t);
}

// --- exec encoders ----------------------------------------------------------

pub fn put_u16(out: &mut Vec<u8>, x: u16)
    ensures
        final(out)@ == old(out)@ + u16_le(x),
{
    out.push((x & 0xff) as u8);
    out.push(((x >> 8) & 0xff) as u8);
    assert(out@ =~= old(out)@ + u16_le(x));
}

pub fn put_u64(out: &mut Vec<u8>, x: u64)
    ensures
        final(out)@ == old(out)@ + u64_le(x),
{
    out.push((x & 0xff) as u8);
    out.push(((x >> 8) & 0xff) as u8);
    out.push(((x >> 16) & 0xff) as u8);
    out.push(((x >> 24) & 0xff) as u8);
    out.push(((x >> 32) & 0xff) as u8);
    out.push(((x >> 40) & 0xff) as u8);
    out.push(((x >> 48) & 0xff) as u8);
    out.push(((x >> 56) & 0xff) as u8);
    assert(out@ =~= old(out)@ + u64_le(x));
}

pub fn put_i64(out: &mut Vec<u8>, x: i64)
    ensures
        final(out)@ == old(out)@ + i64_sm(x),
{
    if x >= 0 {
        out.push(0u8);
        put_u64(out, x as u64);
    } else {
        out.push(1u8);
        let below: i64 = -(x + 1);
        let mag: u64 = (below as u64) + 1;
        assert(mag == i64_mag(x));
        put_u64(out, mag);
    }
    assert(out@ =~= old(out)@ + i64_sm(x));
}

// --- exec decoders ----------------------------------------------------------

pub fn take_u8(b: &[u8], i: usize) -> (r: Result<(u8, usize), DecodeError>)
    ensures
        match dec_u8(b@, i as int) {
            Ok((x, j)) => r == Ok::<_, DecodeError>((x, j as usize)),
            Err(e) => r == Err::<(u8, usize), _>(e),
        },
{
    if i < b.len() {
        Ok((b[i], i + 1))
    } else {
        Err(DecodeError::UnexpectedEnd)
    }
}

pub fn take_u16(b: &[u8], i: usize) -> (r: Result<(u16, usize), DecodeError>)
    ensures
        match dec_u16(b@, i as int) {
            Ok((x, j)) => r == Ok::<_, DecodeError>((x, j as usize)),
            Err(e) => r == Err::<(u16, usize), _>(e),
        },
{
    if i < b.len() && 2 <= b.len() - i {
        let x: u16 = (b[i] as u16) | ((b[i + 1] as u16) << 8);
        assert(x == spec_u16_of(b@.subrange(i as int, i as int + 2)));
        Ok((x, i + 2))
    } else {
        Err(DecodeError::UnexpectedEnd)
    }
}

pub fn take_u64(b: &[u8], i: usize) -> (r: Result<(u64, usize), DecodeError>)
    ensures
        match dec_u64(b@, i as int) {
            Ok((x, j)) => r == Ok::<_, DecodeError>((x, j as usize)),
            Err(e) => r == Err::<(u64, usize), _>(e),
        },
{
    if i < b.len() && 8 <= b.len() - i {
        let x: u64 = (b[i] as u64) | ((b[i + 1] as u64) << 8) | ((b[i + 2] as u64) << 16) | ((b[i
            + 3] as u64) << 24) | ((b[i + 4] as u64) << 32) | ((b[i + 5] as u64) << 40) | ((b[i
            + 6] as u64) << 48) | ((b[i + 7] as u64) << 56);
        assert(x == spec_u64_of(b@.subrange(i as int, i as int + 8)));
        Ok((x, i + 8))
    } else {
        Err(DecodeError::UnexpectedEnd)
    }
}

pub fn take_i64(b: &[u8], i: usize) -> (r: Result<(i64, usize), DecodeError>)
    ensures
        match dec_i64(b@, i as int) {
            Ok((x, j)) => r == Ok::<_, DecodeError>((x, j as usize)),
            Err(e) => r == Err::<(i64, usize), _>(e),
        },
{
    proof {
        assert(b.len() == b@.len());
    }
    let (sign, j) = match take_u8(b, i) {
        Ok(p) => p,
        Err(e) => { return Err(e) },
    };
    let (mag, k) = match take_u64(b, j) {
        Ok(p) => p,
        Err(e) => { return Err(e) },
    };
    if sign == 0 {
        if mag <= i64::MAX as u64 {
            Ok((mag as i64, k))
        } else {
            Err(DecodeError::InvalidNumber)
        }
    } else if sign == 1 {
        if 1 <= mag && mag <= (i64::MAX as u64) + 1 {
            let x: i64 = if mag == (i64::MAX as u64) + 1 {
                i64::MIN
            } else {
                -((mag as i64))
            };
            assert(x as int == -(mag as int));
            Ok((x, k))
        } else {
            Err(DecodeError::InvalidNumber)
        }
    } else {
        Err(DecodeError::InvalidNumber)
    }
}

// --- text through std -------------------------------------------------------

/// Relies on `String::from_utf8`: it returns `Ok` exactly on valid UTF-8
/// input, and the returned string's characters are the input's decoding.
#[verifier::external_body]
pub fn string_from_utf8(v: Vec<u8>) -> (r: Option<String>)
    ensures
        r is Some <==> valid_utf8(v@),
        r matches Some(s) ==> s@ == decode_utf8(v@),
{
    String::from_utf8(v).ok()
}

pub fn put_text(out: &mut Vec<u8>, t: &str) -> (r: bool)
    ensures
        r == text_wf(t@),
        r ==> final(out)@ == old(out)@ + text_bytes(t@),
        !r ==> final(out)@ == old(out)@,
{
    let bytes = t.as_bytes_vec();
    if bytes.len() > u16::MAX as usize {
        return false;
    }
    put_u16(out, bytes.len() as u16);
    let mut k: usize = 0;
    while k < bytes.len()
        invariant
            k <= bytes.len(),
            bytes@ == encode_utf8(t@),
            bytes.len() <= u16::MAX,
            out@ == old(out)@ + u16_le(bytes.len() as u16) + bytes@.subrange(0, k as int),
        decreases bytes.len() - k,
    {
        out.push(bytes[k]);
        k += 1;
        assert(out@ =~= old(out)@ + u16_le(bytes.len() as u16) + bytes@.subrange(0, k as int));
    }
    assert(bytes@.subrange(0, bytes.len() as int) =~= bytes@);
    assert(out@ =~= old(out)@ + text_bytes(t@));
    true
}

pub fn take_text(b: &[u8], i: usize) -> (r: Result<(String, usize), DecodeError>)
    ensures
        match dec_text(b@, i as int) {
            Ok((t, j)) => r matches Ok((s, k)) && s@ == t && k as int == j,
            Err(e) => r matches Err(e2) && e2 == e,
        },
{
    let (n, j) = match take_u16(b, i) {
        Ok(p) => p,
        Err(e) => { return Err(e) },
    };
    if j < b.len() && n as usize <= b.len() - j || n == 0 && j <= b.len() {
        let mut raw: Vec<u8> = Vec::new();
        let mut k: usize = 0;
        while k < n as usize
            invariant
                k <= n as usize,
                j + n as usize <= b.len(),
                raw@ =~= b@.subrange(j as int, j as int + k as int),
            decreases n as usize - k,
        {
            raw.push(b[j + k]);
            k += 1;
            assert(raw@ =~= b@.subrange(j as int, j as int + k as int));
        }
        assert(raw@ =~= b@.subrange(j as int, j as int + n as int));
        match string_from_utf8(raw) {
            Some(s) => Ok((s, j + n as usize)),
            None => Err(DecodeError::InvalidText),
        }
    } else {
        Err(DecodeError::UnexpectedEnd)
    }
}

} // verus!
