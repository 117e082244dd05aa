//! The compact length prefix: SCALE's variable-length form of a `u32`, which this
//! library takes from parity-scale-codec and describes here byte for byte.
use vstd::prelude::*;

verus! {

/// Two bytes, little-endian, of a value below 2^16.
pub open spec fn le_bytes2(x: int) -> Seq<u8> {
    seq![(x % 256) as u8, (x / 256 % 256) as u8]
}

/// Four bytes, little-endian, of a value below 2^32.
pub open spec fn le_bytes4(x: int) -> Seq<u8> {
    seq![(x % 256) as u8, (x / 256 % 256) as u8, (x / 65536 % 256) as u8, (x / 16777216 % 256) as u8]
}

/// The value of four little-endian bytes starting at `i`.
pub open spec fn le_value4(b: Seq<u8>, i: int) -> int {
    b[i] + 256 * (b[i + 1] + 256 * (b[i + 2] + 256 * b[i + 3]))
}

/// The compact encoding of `n`: the two low bits of the first byte give the mode
/// (one, two or four bytes holding `n` shifted left by two, or a marker byte followed
/// by the four bytes of `n`), and each value uses the shortest mode that holds it.
pub open spec fn compact_u32(n: u32) -> Seq<u8> {
    if n < 64 {
        seq![(n * 4) as u8]
    } else if n < 16384 {
        le_bytes2(n * 4 + 1)
    } else if n < 1073741824 {
        le_bytes4(n * 4 + 2)
    } else {
        seq![3u8] + le_bytes4(n as int)
    }
}

/// What reading a compact `u32` from the front of `b` gives: the value and the number
/// of bytes it took, or `None` where `b` does not start with a canonical encoding.
pub open spec fn compact_read(b: Seq<u8>) -> Option<(u32, nat)> {
    if b.len() == 0 {
        None
    } else if b[0] % 4 == 0 {
        Some(((b[0] / 4) as u32, 1))
    } else if b[0] % 4 == 1 {
        if b.len() < 2 {
            None
        } else {
            let x = (b[0] + 256 * b[1]) / 4;
            if 64 <= x { Some((x as u32, 2)) } else { None }
        }
    } else if b[0] % 4 == 2 {
        if b.len() < 4 {
            None
        } else {
            let x = le_value4(b, 0) / 4;
            if 16384 <= x { Some((x as u32, 4)) } else { None }
        }
    } else if b[0] == 3 && b.len() >= 5 {
        let x = le_value4(b, 1);
        if 1073741824 <= x { Some((x as u32, 5)) } else { None }
    } else {
        None
    }
}

proof fn lemma_le_bytes2(x: int)
    requires
        0 <= x < 65536,
    ensures
        le_bytes2(x)[0] + 256 * le_bytes2(x)[1] == x,
        le_bytes2(x)[0] % 4 == x % 4,
{
    assert(x / 256 % 256 == x / 256) by (nonlinear_arith)
        requires 0 <= x < 65536;
    assert(x % 256 + 256 * (x / 256) == x) by (nonlinear_arith);
    assert(x % 256 % 4 == x % 4) by (nonlinear_arith)
        requires 0 <= x;
}

pub proof fn lemma_le_bytes4(x: int)
    requires
        0 <= x < 4294967296,
    ensures
        le_value4(le_bytes4(x), 0) == x,
        le_bytes4(x)[0] % 4 == x % 4,
{
    let b = le_bytes4(x);
    assert(x / 16777216 % 256 == x / 16777216) by (nonlinear_arith)
        requires 0 <= x < 4294967296;
    assert(x / 256 % 256 + 256 * (x / 65536) == x / 256) by (nonlinear_arith)
        requires 0 <= x;
    assert(x / 65536 % 256 + 256 * (x / 16777216) == x / 65536) by (nonlinear_arith)
        requires 0 <= x;
    assert(x % 256 + 256 * (x / 256) == x) by (nonlinear_arith);
    assert(x % 256 % 4 == x % 4) by (nonlinear_arith)
        requires 0 <= x;
}

/// Reading back the compact encoding of `n`, whatever follows it, gives `n` and the
/// encoding's length.
pub proof fn lemma_compact_read_encoded(n: u32, rest: Seq<u8>)
    ensures
        compact_read(compact_u32(n) + rest) == Some((n, compact_u32(n).len())),
        1 <= compact_u32(n).len() <= 5,
{
    let b = compact_u32(n) + rest;
    if n < 64 {
        assert(b[0] == n * 4);
    } else if n < 16384 {
        lemma_le_bytes2(n * 4 + 1);
        assert(b[0] == le_bytes2(n * 4 + 1)[0]);
        assert(b[1] == le_bytes2(n * 4 + 1)[1]);
    } else if n < 1073741824 {
        lemma_le_bytes4(n * 4 + 2);
        assert(le_value4(b, 0) == le_value4(le_bytes4(n * 4 + 2), 0));
    } else {
        lemma_le_bytes4(n as int);
        assert(le_value4(b, 1) == le_value4(le_bytes4(n as int), 0));
    }
}

/// Relies on parity-scale-codec's `Encode` for `Compact<u32>`, which appends the
/// compact form of the value to the output.
#[verifier::external_body]
pub(crate) fn push_compact(dest: &mut Vec<u8>, n: u32)
    ensures
        final(dest)@ == old(dest)@ + compact_u32(n),
{
    parity_scale_codec::Encode::encode_to(&parity_scale_codec::Compact(n), dest)
}

/// Relies on parity-scale-codec's `Decode` for `Compact<u32>` over a byte slice: it
/// reads a canonical compact value from the front and fails on anything else. The
/// result holds the value and the number of bytes left after it.
#[verifier::external_body]
pub(crate) fn read_compact(input: &[u8]) -> (r: Option<(u32, usize)>)
    ensures
        match compact_read(input@) {
            Some((n, k)) => r == Some((n, (input@.len() - k) as usize)),
            None => r.is_none(),
        },
{
    let mut rest = input;
    match <parity_scale_codec::Compact<u32> as parity_scale_codec::Decode>::decode(&mut rest) {
        Ok(c) => Some((c.0, rest.len())),
        Err(_) => None,
    }
}

} // verus!
