//! Wire-codec primitives. Every message of the catalog is laid out as a
//! fixed-order concatenation of these pieces: fixed-width little-endian
//! integers, single-byte booleans, and length-prefixed byte strings (text is
//! carried as length-prefixed UTF-8). The spec functions here define the
//! byte-level layout; the readers and writers are proved against them, and
//! the uniqueness lemmas show that a byte sequence determines the value, so
//! that decoding inverts encoding.

use vstd::prelude::*;
use vstd::utf8::decode_utf8;
use vstd::utf8::decode_utf8_encode_utf8;
use vstd::utf8::encode_utf8;
use vstd::utf8::encode_utf8_decode_utf8;
use vstd::utf8::encode_utf8_valid_utf8;
use vstd::utf8::valid_utf8;

verus! {

/// Malformed or truncated wire payload. Always recoverable at the transport
/// boundary by dropping or resynchronizing the stream.
#[derive(Debug, PartialEq, Eq, Clone, Copy, Structural)]
pub struct DecodeError;

/// The little-endian byte layout of a `u64`.
pub open spec fn spec_enc_u64(x: u64) -> Seq<u8> {
    seq![
        (x & 0xff) as u8,
        ((x >> 8) & 0xff) as u8,
        ((x >> 16) & 0xff) as u8,
        ((x >> 24) & 0xff) as u8,
        ((x >> 32) & 0xff) as u8,
        ((x >> 40) & 0xff) as u8,
        ((x >> 48) & 0xff) as u8,
        ((x >> 56) & 0xff) as u8,
    ]
}

/// The little-endian byte layout of a `u32`.
pub open spec fn spec_enc_u32(x: u32) -> Seq<u8> {
    seq![
        (x & 0xff) as u8,
        ((x >> 8) & 0xff) as u8,
        ((x >> 16) & 0xff) as u8,
        ((x >> 24) & 0xff) as u8,
    ]
}

/// An `i64` travels as the little-endian layout of its two's-complement bits.
pub open spec fn spec_enc_i64(x: i64) -> Seq<u8> {
    spec_enc_u64(x as u64)
}

/// An `i32` travels as the little-endian layout of its two's-complement bits.
pub open spec fn spec_enc_i32(x: i32) -> Seq<u8> {
    spec_enc_u32(x as u32)
}

/// A `u8` travels as itself.
pub open spec fn spec_enc_u8(x: u8) -> Seq<u8> {
    seq![x]
}

/// A boolean travels as one byte, 1 for true and 0 for false; a decoder
/// rejects every other byte.
pub open spec fn spec_enc_bool(b: bool) -> Seq<u8> {
    seq![if b { 1u8 } else { 0u8 }]
}

/// A byte string travels as its length in a `u64` followed by its bytes.
pub open spec fn spec_enc_bytes(s: Seq<u8>) -> Seq<u8> {
    spec_enc_u64(s.len() as u64) + s
}

/// Text travels as the length-prefixed UTF-8 encoding of its characters.
pub open spec fn spec_enc_str(s: Seq<char>) -> Seq<u8> {
    spec_enc_bytes(encode_utf8(s))
}

/// A byte string that a peer on any supported machine can hold in memory;
/// lengths beyond this cannot come out of an encoder.
pub open spec fn bytes_fit(s: Seq<u8>) -> bool {
    s.len() <= usize::MAX
}

/// Text whose UTF-8 encoding a peer can hold in memory.
pub open spec fn str_fits(s: Seq<char>) -> bool {
    encode_utf8(s).len() <= usize::MAX
}

/// The bytes of `part` stand in `s` at position `at`.
pub open spec fn piece_at(s: Seq<u8>, at: int, part: Seq<u8>) -> bool {
    0 <= at && at + part.len() <= s.len() && s.subrange(at, at + part.len()) == part
}

/// A piece made of two parts splits into a piece for each part.
pub proof fn lemma_piece_split(s: Seq<u8>, at: int, a: Seq<u8>, b: Seq<u8>)
    requires
        piece_at(s, at, a + b),
    ensures
        piece_at(s, at, a),
        piece_at(s, at + a.len(), b),
{
    let ab = a + b;
    assert forall|i: int| 0 <= i < a.len() implies s[at + i] == a[i] by {
        assert(s.subrange(at, at + ab.len())[i] == ab[i]);
    }
    assert forall|i: int| 0 <= i < b.len() implies s[at + a.len() + i] == b[i] by {
        assert(s.subrange(at, at + ab.len())[a.len() + i] == ab[a.len() + i]);
    }
    assert(s.subrange(at, at + a.len()) =~= a);
    assert(s.subrange(at + a.len(), at + a.len() + b.len()) =~= b);
}

/// Adjacent pieces join into a piece for the concatenation.
pub proof fn lemma_piece_join(s: Seq<u8>, at: int, a: Seq<u8>, b: Seq<u8>)
    requires
        piece_at(s, at, a),
        piece_at(s, at + a.len(), b),
    ensures
        piece_at(s, at, a + b),
{
    assert(s.subrange(at, at + a.len() + b.len()) =~= a + b);
}

/// Every sequence is a piece of itself, at position 0.
pub proof fn lemma_piece_self(s: Seq<u8>)
    ensures
        piece_at(s, 0, s),
{
    assert(s.subrange(0, s.len() as int) =~= s);
}

/// A piece that starts at 0 and spans the whole sequence is the sequence.
pub proof fn lemma_piece_whole(s: Seq<u8>, p: Seq<u8>)
    requires
        piece_at(s, 0, p),
        p.len() == s.len(),
    ensures
        s == p,
{
    assert(s =~= p);
}

/// The little-endian `u64` layout is injective.
pub proof fn lemma_enc_u64_inj(x: u64, y: u64)
    requires
        spec_enc_u64(x) == spec_enc_u64(y),
    ensures
        x == y,
{
    assert(spec_enc_u64(x)[0] == spec_enc_u64(y)[0]);
    assert(spec_enc_u64(x)[1] == spec_enc_u64(y)[1]);
    assert(spec_enc_u64(x)[2] == spec_enc_u64(y)[2]);
    assert(spec_enc_u64(x)[3] == spec_enc_u64(y)[3]);
    assert(spec_enc_u64(x)[4] == spec_enc_u64(y)[4]);
    assert(spec_enc_u64(x)[5] == spec_enc_u64(y)[5]);
    assert(spec_enc_u64(x)[6] == spec_enc_u64(y)[6]);
    assert(spec_enc_u64(x)[7] == spec_enc_u64(y)[7]);
    assert(x == y) by (bit_vector)
        requires
            (x & 0xff) as u8 == (y & 0xff) as u8,
            ((x >> 8) & 0xff) as u8 == ((y >> 8) & 0xff) as u8,
            ((x >> 16) & 0xff) as u8 == ((y >> 16) & 0xff) as u8,
            ((x >> 24) & 0xff) as u8 == ((y >> 24) & 0xff) as u8,
            ((x >> 32) & 0xff) as u8 == ((y >> 32) & 0xff) as u8,
            ((x >> 40) & 0xff) as u8 == ((y >> 40) & 0xff) as u8,
            ((x >> 48) & 0xff) as u8 == ((y >> 48) & 0xff) as u8,
            ((x >> 56) & 0xff) as u8 == ((y >> 56) & 0xff) as u8,
    ;
}

/// The little-endian `u32` layout is injective.
pub proof fn lemma_enc_u32_inj(x: u32, y: u32)
    requires
        spec_enc_u32(x) == spec_enc_u32(y),
    ensures
        x == y,
{
    assert(spec_enc_u32(x)[0] == spec_enc_u32(y)[0]);
    assert(spec_enc_u32(x)[1] == spec_enc_u32(y)[1]);
    assert(spec_enc_u32(x)[2] == spec_enc_u32(y)[2]);
    assert(spec_enc_u32(x)[3] == spec_enc_u32(y)[3]);
    assert(x == y) by (bit_vector)
        requires
            (x & 0xff) as u8 == (y & 0xff) as u8,
            ((x >> 8) & 0xff) as u8 == ((y >> 8) & 0xff) as u8,
            ((x >> 16) & 0xff) as u8 == ((y >> 16) & 0xff) as u8,
            ((x >> 24) & 0xff) as u8 == ((y >> 24) & 0xff) as u8,
    ;
}

/// Two `u64` pieces at one position carry one value.
pub proof fn lemma_u64_unique(s: Seq<u8>, at: int, x: u64, y: u64)
    requires
        piece_at(s, at, spec_enc_u64(x)),
        piece_at(s, at, spec_enc_u64(y)),
    ensures
        x == y,
{
    lemma_enc_u64_inj(x, y);
}

/// Two `u32` pieces at one position carry one value.
pub proof fn lemma_u32_unique(s: Seq<u8>, at: int, x: u32, y: u32)
    requires
        piece_at(s, at, spec_enc_u32(x)),
        piece_at(s, at, spec_enc_u32(y)),
    ensures
        x == y,
{
    lemma_enc_u32_inj(x, y);
}

/// Two `i64` pieces at one position carry one value.
pub proof fn lemma_i64_unique(s: Seq<u8>, at: int, x: i64, y: i64)
    requires
        piece_at(s, at, spec_enc_i64(x)),
        piece_at(s, at, spec_enc_i64(y)),
    ensures
        x == y,
{
    lemma_enc_u64_inj(x as u64, y as u64);
    assert(x == y) by (bit_vector)
        requires
            x as u64 == y as u64,
    ;
}

/// Two `i32` pieces at one position carry one value.
pub proof fn lemma_i32_unique(s: Seq<u8>, at: int, x: i32, y: i32)
    requires
        piece_at(s, at, spec_enc_i32(x)),
        piece_at(s, at, spec_enc_i32(y)),
    ensures
        x == y,
{
    lemma_enc_u32_inj(x as u32, y as u32);
    assert(x == y) by (bit_vector)
        requires
            x as u32 == y as u32,
    ;
}

/// Two `u8` pieces at one position carry one value.
pub proof fn lemma_u8_unique(s: Seq<u8>, at: int, x: u8, y: u8)
    requires
        piece_at(s, at, spec_enc_u8(x)),
        piece_at(s, at, spec_enc_u8(y)),
    ensures
        x == y,
{
    assert(spec_enc_u8(x)[0] == spec_enc_u8(y)[0]);
}

/// Two boolean pieces at one position carry one value.
pub proof fn lemma_bool_unique(s: Seq<u8>, at: int, x: bool, y: bool)
    requires
        piece_at(s, at, spec_enc_bool(x)),
        piece_at(s, at, spec_enc_bool(y)),
    ensures
        x == y,
{
    assert(spec_enc_bool(x)[0] == spec_enc_bool(y)[0]);
}

/// Two byte-string pieces at one position carry one value.
pub proof fn lemma_bytes_unique(s: Seq<u8>, at: int, a: Seq<u8>, b: Seq<u8>)
    requires
        piece_at(s, at, spec_enc_bytes(a)),
        piece_at(s, at, spec_enc_bytes(b)),
        a.len() <= u64::MAX,
        b.len() <= u64::MAX,
    ensures
        a == b,
{
    lemma_piece_split(s, at, spec_enc_u64(a.len() as u64), a);
    lemma_piece_split(s, at, spec_enc_u64(b.len() as u64), b);
    lemma_u64_unique(s, at, a.len() as u64, b.len() as u64);
    assert(a.len() == b.len());
    assert(a =~= b);
}

/// Two text pieces at one position carry one value.
pub proof fn lemma_str_unique(s: Seq<u8>, at: int, a: Seq<char>, b: Seq<char>)
    requires
        piece_at(s, at, spec_enc_str(a)),
        piece_at(s, at, spec_enc_str(b)),
        str_fits(a),
        str_fits(b),
    ensures
        a == b,
{
    lemma_bytes_unique(s, at, encode_utf8(a), encode_utf8(b));
    encode_utf8_decode_utf8(a);
    encode_utf8_decode_utf8(b);
}

/// Appends the little-endian layout of a `u64`.
pub fn write_u64(out: &mut Vec<u8>, x: u64)
    ensures
        final(out)@ == old(out)@ + spec_enc_u64(x),
{
    out.push((x & 0xff) as u8);
    out.push(((x >> 8) & 0xff) as u8);
    out.push(((x >> 16) & 0xff) as u8);
    out.push(((x >> 24) & 0xff) as u8);
    out.push(((x >> 32) & 0xff) as u8);
    out.push(((x >> 40) & 0xff) as u8);
    out.push(((x >> 48) & 0xff) as u8);
    out.push(((x >> 56) & 0xff) as u8);
    assert(out@ =~= old(out)@ + spec_enc_u64(x));
}

/// Appends the little-endian layout of a `u32`.
pub fn write_u32(out: &mut Vec<u8>, x: u32)
    ensures
        final(out)@ == old(out)@ + spec_enc_u32(x),
{
    out.push((x & 0xff) as u8);
    out.push(((x >> 8) & 0xff) as u8);
    out.push(((x >> 16) & 0xff) as u8);
    out.push(((x >> 24) & 0xff) as u8);
    assert(out@ =~= old(out)@ + spec_enc_u32(x));
}

/// Appends the layout of an `i64`.
pub fn write_i64(out: &mut Vec<u8>, x: i64)
    ensures
        final(out)@ == old(out)@ + spec_enc_i64(x),
{
    write_u64(out, x as u64);
}

/// Appends the layout of an `i32`.
pub fn write_i32(out: &mut Vec<u8>, x: i32)
    ensures
        final(out)@ == old(out)@ + spec_enc_i32(x),
{
    write_u32(out, x as u32);
}

/// Appends one byte.
pub fn write_u8(out: &mut Vec<u8>, x: u8)
    ensures
        final(out)@ == old(out)@ + spec_enc_u8(x),
{
    out.push(x);
    assert(out@ =~= old(out)@ + spec_enc_u8(x));
}

/// Appends the one-byte layout of a boolean.
pub fn write_bool(out: &mut Vec<u8>, b: bool)
    ensures
        final(out)@ == old(out)@ + spec_enc_bool(b),
{
    out.push(if b { 1u8 } else { 0u8 });
    assert(out@ =~= old(out)@ + spec_enc_bool(b));
}

/// Appends a length-prefixed byte string.
pub fn write_bytes(out: &mut Vec<u8>, s: &Vec<u8>)
    ensures
        final(out)@ == old(out)@ + spec_enc_bytes(s@),
        bytes_fit(s@),
{
    write_u64(out, s.len() as u64);
    out.extend_from_slice(s.as_slice());
    assert(out@ =~= old(out)@ + spec_enc_bytes(s@));
}

/// Appends length-prefixed UTF-8 text.
pub fn write_str(out: &mut Vec<u8>, s: &String)
    ensures
        final(out)@ == old(out)@ + spec_enc_str(s@),
        str_fits(s@),
{
    let bytes = s.as_str().as_bytes();
    write_u64(out, bytes.len() as u64);
    out.extend_from_slice(bytes);
    assert(out@ =~= old(out)@ + spec_enc_str(s@));
}

/// Reads the `u64` whose layout stands at `at`. Fails exactly when fewer
/// than 8 bytes remain.
pub fn read_u64(bytes: &Vec<u8>, at: usize) -> (r: Result<(u64, usize), DecodeError>)
    ensures
        match r {
            Ok((x, end)) => piece_at(bytes@, at as int, spec_enc_u64(x)) && end == at + 8,
            Err(_) => at + 8 > bytes@.len(),
        },
{
    if bytes.len() < 8 || at > bytes.len() - 8 {
        return Err(DecodeError);
    }
    let b0 = bytes[at];
    let b1 = bytes[at + 1];
    let b2 = bytes[at + 2];
    let b3 = bytes[at + 3];
    let b4 = bytes[at + 4];
    let b5 = bytes[at + 5];
    let b6 = bytes[at + 6];
    let b7 = bytes[at + 7];
    let x = (b0 as u64) | ((b1 as u64) << 8) | ((b2 as u64) << 16) | ((b3 as u64) << 24) | ((
    b4 as u64) << 32) | ((b5 as u64) << 40) | ((b6 as u64) << 48) | ((b7 as u64) << 56);
    proof {
        assert((x & 0xff) as u8 == b0 && ((x >> 8) & 0xff) as u8 == b1 && ((x >> 16) & 0xff) as u8
            == b2 && ((x >> 24) & 0xff) as u8 == b3 && ((x >> 32) & 0xff) as u8 == b4 && ((x >> 40)
            & 0xff) as u8 == b5 && ((x >> 48) & 0xff) as u8 == b6 && ((x >> 56) & 0xff) as u8 == b7)
            by (bit_vector)
            requires
                x == (b0 as u64) | ((b1 as u64) << 8) | ((b2 as u64) << 16) | ((b3 as u64) << 24)
                    | ((b4 as u64) << 32) | ((b5 as u64) << 40) | ((b6 as u64) << 48) | ((
                b7 as u64) << 56),
        ;
        assert(bytes@.subrange(at as int, at as int + 8) =~= spec_enc_u64(x));
    }
    Ok((x, at + 8))
}

/// Reads the `u32` whose layout stands at `at`. Fails exactly when fewer
/// than 4 bytes remain.
pub fn read_u32(bytes: &Vec<u8>, at: usize) -> (r: Result<(u32, usize), DecodeError>)
    ensures
        match r {
            Ok((x, end)) => piece_at(bytes@, at as int, spec_enc_u32(x)) && end == at + 4,
            Err(_) => at + 4 > bytes@.len(),
        },
{
    if bytes.len() < 4 || at > bytes.len() - 4 {
        return Err(DecodeError);
    }
    let b0 = bytes[at];
    let b1 = bytes[at + 1];
    let b2 = bytes[at + 2];
    let b3 = bytes[at + 3];
    let x = (b0 as u32) | ((b1 as u32) << 8) | ((b2 as u32) << 16) | ((b3 as u32) << 24);
    proof {
        assert((x & 0xff) as u8 == b0 && ((x >> 8) & 0xff) as u8 == b1 && ((x >> 16) & 0xff) as u8
            == b2 && ((x >> 24) & 0xff) as u8 == b3) by (bit_vector)
            requires
                x == (b0 as u32) | ((b1 as u32) << 8) | ((b2 as u32) << 16) | ((b3 as u32) << 24),
        ;
        assert(bytes@.subrange(at as int, at as int + 4) =~= spec_enc_u32(x));
    }
    Ok((x, at + 4))
}

/// Reads the `i64` whose layout stands at `at`.
pub fn read_i64(bytes: &Vec<u8>, at: usize) -> (r: Result<(i64, usize), DecodeError>)
    ensures
        match r {
            Ok((x, end)) => piece_at(bytes@, at as int, spec_enc_i64(x)) && end == at + 8,
            Err(_) => at + 8 > bytes@.len(),
        },
{
    match read_u64(bytes, at) {
        Ok((x, end)) => {
            let v = x as i64;
            proof {
                assert(v as u64 == x) by (bit_vector)
                    requires
                        v == x as i64,
                ;
            }
            Ok((v, end))
        },
        Err(e) => Err(e),
    }
}

/// Reads the `i32` whose layout stands at `at`.
pub fn read_i32(bytes: &Vec<u8>, at: usize) -> (r: Result<(i32, usize), DecodeError>)
    ensures
        match r {
            Ok((x, end)) => piece_at(bytes@, at as int, spec_enc_i32(x)) && end == at + 4,
            Err(_) => at + 4 > bytes@.len(),
        },
{
    match read_u32(bytes, at) {
        Ok((x, end)) => {
            let v = x as i32;
            proof {
                assert(v as u32 == x) by (bit_vector)
                    requires
                        v == x as i32,
                ;
            }
            Ok((v, end))
        },
        Err(e) => Err(e),
    }
}

/// Reads the byte at `at`. Fails exactly when no byte remains.
pub fn read_u8(bytes: &Vec<u8>, at: usize) -> (r: Result<(u8, usize), DecodeError>)
    ensures
        match r {
            Ok((x, end)) => piece_at(bytes@, at as int, spec_enc_u8(x)) && end == at + 1,
            Err(_) => at + 1 > bytes@.len(),
        },
{
    if at >= bytes.len() {
        return Err(DecodeError);
    }
    let x = bytes[at];
    assert(bytes@.subrange(at as int, at as int + 1) =~= spec_enc_u8(x));
    Ok((x, at + 1))
}

/// Reads the boolean whose layout stands at `at`. Fails when no byte
/// remains or the byte is neither 0 nor 1.
pub fn read_bool(bytes: &Vec<u8>, at: usize) -> (r: Result<(bool, usize), DecodeError>)
    ensures
        match r {
            Ok((b, end)) => piece_at(bytes@, at as int, spec_enc_bool(b)) && end == at + 1,
            Err(_) => at + 1 > bytes@.len() || (bytes@[at as int] != 0 && bytes@[at as int] != 1),
        },
{
    if at >= bytes.len() {
        return Err(DecodeError);
    }
    let x = bytes[at];
    if x == 0 {
        assert(bytes@.subrange(at as int, at as int + 1) =~= spec_enc_bool(false));
        Ok((false, at + 1))
    } else if x == 1 {
        assert(bytes@.subrange(at as int, at as int + 1) =~= spec_enc_bool(true));
        Ok((true, at + 1))
    } else {
        Err(DecodeError)
    }
}

/// Reads the length-prefixed byte string standing at `at`. Fails exactly
/// when no byte string that fits in memory is laid out there.
pub fn read_bytes(bytes: &Vec<u8>, at: usize) -> (r: Result<(Vec<u8>, usize), DecodeError>)
    ensures
        match r {
            Ok((v, end)) => piece_at(bytes@, at as int, spec_enc_bytes(v@)) && end == at + 8
                + v@.len(),
            Err(_) => forall|s: Seq<u8>|
                bytes_fit(s) ==> !piece_at(bytes@, at as int, spec_enc_bytes(s)),
        },
{
    let (n, mid) = match read_u64(bytes, at) {
        Ok(ok) => ok,
        Err(e) => {
            proof {
                assert forall|s: Seq<u8>|
                    bytes_fit(s) && piece_at(bytes@, at as int, spec_enc_bytes(s)) implies false by {
                    lemma_piece_split(bytes@, at as int, spec_enc_u64(s.len() as u64), s);
                }
            }
            return Err(e);
        },
    };
    let blen = bytes.len();
    if n > (blen - mid) as u64 {
        proof {
            assert forall|s: Seq<u8>|
                bytes_fit(s) && piece_at(bytes@, at as int, spec_enc_bytes(s)) implies false by {
                lemma_piece_split(bytes@, at as int, spec_enc_u64(s.len() as u64), s);
                lemma_u64_unique(bytes@, at as int, n, s.len() as u64);
            }
        }
        return Err(DecodeError);
    }
    let n_usize = n as usize;
    let mut out: Vec<u8> = Vec::new();
    let mut i: usize = 0;
    while i < n_usize
        invariant
            i <= n_usize,
            n_usize == n,
            mid == at + 8,
            blen == bytes@.len(),
            mid + n_usize <= blen,
            out@ =~= bytes@.subrange(mid as int, mid as int + i),
        decreases n_usize - i,
    {
        out.push(bytes[mid + i]);
        i = i + 1;
        assert(out@ =~= bytes@.subrange(mid as int, mid as int + i));
    }
    proof {
        assert(piece_at(bytes@, mid as int, out@));
        lemma_piece_join(bytes@, at as int, spec_enc_u64(n), out@);
        assert(spec_enc_u64(n) + out@ == spec_enc_bytes(out@));
    }
    Ok((out, mid + n_usize))
}

/// Relies on `core::str::from_utf8`: it succeeds exactly on valid UTF-8 and
/// yields the text those bytes spell; `str::to_owned` keeps that text.
#[verifier::external_body]
fn string_from_utf8(bytes: &Vec<u8>) -> (r: Option<String>)
    ensures
        match r {
            Some(s) => valid_utf8(bytes@) && s@ == decode_utf8(bytes@),
            None => !valid_utf8(bytes@),
        },
{
    match core::str::from_utf8(bytes.as_slice()) {
        Ok(s) => Some(s.to_owned()),
        Err(_) => None,
    }
}

/// Reads the length-prefixed UTF-8 text standing at `at`. Fails exactly
/// when no text that fits in memory is laid out there.
pub fn read_string(bytes: &Vec<u8>, at: usize) -> (r: Result<(String, usize), DecodeError>)
    ensures
        match r {
            Ok((s, end)) => piece_at(bytes@, at as int, spec_enc_str(s@)) && end == at + 8
                + encode_utf8(s@).len(),
            Err(_) => forall|cs: Seq<char>|
                str_fits(cs) ==> !piece_at(bytes@, at as int, spec_enc_str(cs)),
        },
{
    let (raw, end) = match read_bytes(bytes, at) {
        Ok(ok) => ok,
        Err(e) => {
            proof {
                assert forall|cs: Seq<char>|
                    str_fits(cs) && piece_at(bytes@, at as int, spec_enc_str(cs)) implies false by {
                    assert(bytes_fit(encode_utf8(cs)));
                }
            }
            return Err(e);
        },
    };
    match string_from_utf8(&raw) {
        Some(s) => {
            proof {
                decode_utf8_encode_utf8(raw@);
            }
            Ok((s, end))
        },
        None => {
            proof {
                assert forall|cs: Seq<char>|
                    str_fits(cs) && piece_at(bytes@, at as int, spec_enc_str(cs)) implies false by {
                    encode_utf8_valid_utf8(cs);
                    lemma_bytes_unique(bytes@, at as int, raw@, encode_utf8(cs));
                }
            }
            Err(DecodeError)
        },
    }
}

} // verus!
