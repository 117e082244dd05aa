//! The wire format of one digest item: a four-byte little-endian discriminant, then
//! the engine id and a compact-length-prefixed payload as the variant calls for.
use vstd::prelude::*;
use crate::compact::{
    compact_read, compact_u32, le_bytes4, le_value4, lemma_compact_read_encoded, lemma_le_bytes4,
    push_compact, read_compact,
};
use crate::item::{DigestItem, DigestItemRef, DigestItemType, ItemView};

verus! {

/// Why bytes could not be decoded as a digest item.
#[derive(Debug, PartialEq, Eq, Clone, Copy, Structural)]
pub enum DecodeError {
    /// The leading four bytes are none of the five discriminants.
    UnknownDiscriminant,
    /// Fewer bytes remain than a fixed-size field or the length prefix needs.
    TruncatedInput,
    /// A declared payload length exceeds the bytes that remain.
    LengthOverflow,
}

/// The discriminant of each item type.
pub open spec fn type_code(t: DigestItemType) -> u32 {
    match t {
        DigestItemType::Other => 0,
        DigestItemType::Consensus => 4,
        DigestItemType::Seal => 5,
        DigestItemType::PreRuntime => 6,
        DigestItemType::RuntimeEnvironmentUpdated => 8,
    }
}

/// The item type that a discriminant stands for, if any.
pub open spec fn type_of_code(c: int) -> Option<DigestItemType> {
    if c == 0 {
        Some(DigestItemType::Other)
    } else if c == 4 {
        Some(DigestItemType::Consensus)
    } else if c == 5 {
        Some(DigestItemType::Seal)
    } else if c == 6 {
        Some(DigestItemType::PreRuntime)
    } else if c == 8 {
        Some(DigestItemType::RuntimeEnvironmentUpdated)
    } else {
        None
    }
}

/// The item type of an item.
pub open spec fn item_type(x: ItemView) -> DigestItemType {
    match x {
        ItemView::PreRuntime(..) => DigestItemType::PreRuntime,
        ItemView::Consensus(..) => DigestItemType::Consensus,
        ItemView::Seal(..) => DigestItemType::Seal,
        ItemView::Other(..) => DigestItemType::Other,
        ItemView::RuntimeEnvironmentUpdated => DigestItemType::RuntimeEnvironmentUpdated,
    }
}

/// A payload with its compact length prefix.
pub open spec fn prefixed(p: Seq<u8>) -> Seq<u8> {
    compact_u32(p.len() as u32) + p
}

/// An item can be encoded: each engine id is four bytes and each payload length fits a `u32`.
pub open spec fn encodable(x: ItemView) -> bool {
    match x {
        ItemView::PreRuntime(id, p) => id.len() == 4 && p.len() <= u32::MAX,
        ItemView::Consensus(id, p) => id.len() == 4 && p.len() <= u32::MAX,
        ItemView::Seal(id, p) => id.len() == 4 && p.len() <= u32::MAX,
        ItemView::Other(p) => p.len() <= u32::MAX,
        ItemView::RuntimeEnvironmentUpdated => true,
    }
}

/// The bytes of an item on the wire.
#[verifier::opaque]
pub open spec fn encoding(x: ItemView) -> Seq<u8> {
    le_bytes4(type_code(item_type(x)) as int) + match x {
        ItemView::PreRuntime(id, p) => id + prefixed(p),
        ItemView::Consensus(id, p) => id + prefixed(p),
        ItemView::Seal(id, p) => id + prefixed(p),
        ItemView::Other(p) => prefixed(p),
        ItemView::RuntimeEnvironmentUpdated => Seq::empty(),
    }
}

/// Reading a length-prefixed payload at `pos`: the payload and the position after it.
pub open spec fn payload_at(b: Seq<u8>, pos: int) -> Result<(Seq<u8>, nat), DecodeError> {
    match compact_read(b.skip(pos)) {
        None => Err(DecodeError::TruncatedInput),
        Some((n, k)) => {
            let start = pos + k;
            if n > b.len() - start {
                Err(DecodeError::LengthOverflow)
            } else {
                Ok((b.subrange(start, start + n), (start + n) as nat))
            }
        },
    }
}

/// Reading an engine id at offset four and a payload after it, as an item of type `t`.
pub open spec fn with_id_at(b: Seq<u8>, t: DigestItemType) -> Result<(ItemView, nat), DecodeError> {
    if b.len() < 8 {
        Err(DecodeError::TruncatedInput)
    } else {
        match payload_at(b, 8) {
            Err(e) => Err(e),
            Ok((p, end)) => {
                let id = b.subrange(4, 8);
                Ok(
                    (
                        match t {
                            DigestItemType::PreRuntime => ItemView::PreRuntime(id, p),
                            DigestItemType::Consensus => ItemView::Consensus(id, p),
                            _ => ItemView::Seal(id, p),
                        },
                        end,
                    ),
                )
            },
        }
    }
}

/// What decoding one item from the front of `b` gives: the item and the number of
/// bytes it took, or the error.
pub open spec fn decoding(b: Seq<u8>) -> Result<(ItemView, nat), DecodeError> {
    if b.len() < 4 {
        Err(DecodeError::TruncatedInput)
    } else {
        match type_of_code(le_value4(b, 0)) {
            None => Err(DecodeError::UnknownDiscriminant),
            Some(DigestItemType::RuntimeEnvironmentUpdated) => Ok(
                (ItemView::RuntimeEnvironmentUpdated, 4),
            ),
            Some(DigestItemType::Other) => match payload_at(b, 4) {
                Err(e) => Err(e),
                Ok((p, end)) => Ok((ItemView::Other(p), end)),
            },
            Some(t) => with_id_at(b, t),
        }
    }
}

impl DigestItemType {
    /// The discriminant of this type on the wire.
    pub fn code(&self) -> (r: u32)
        ensures
            r == type_code(*self),
    {
        match self {
            DigestItemType::Other => 0,
            DigestItemType::Consensus => 4,
            DigestItemType::Seal => 5,
            DigestItemType::PreRuntime => 6,
            DigestItemType::RuntimeEnvironmentUpdated => 8,
        }
    }

    /// The type that a discriminant stands for, or `None` for an unused value.
    pub fn from_code(c: u32) -> (r: Option<DigestItemType>)
        ensures
            r == type_of_code(c as int),
    {
        if c == 0 {
            Some(DigestItemType::Other)
        } else if c == 4 {
            Some(DigestItemType::Consensus)
        } else if c == 5 {
            Some(DigestItemType::Seal)
        } else if c == 6 {
            Some(DigestItemType::PreRuntime)
        } else if c == 8 {
            Some(DigestItemType::RuntimeEnvironmentUpdated)
        } else {
            None
        }
    }
}

fn push_u32_le(dest: &mut Vec<u8>, n: u32)
    ensures
        final(dest)@ == old(dest)@ + le_bytes4(n as int),
{
    dest.push((n % 256) as u8);
    dest.push((n / 256 % 256) as u8);
    dest.push((n / 65536 % 256) as u8);
    dest.push((n / 16777216 % 256) as u8);
    assert(final(dest)@ =~= old(dest)@ + le_bytes4(n as int));
}

fn push_bytes(dest: &mut Vec<u8>, src: &[u8])
    ensures
        final(dest)@ == old(dest)@ + src@,
{
    let ghost start = dest@;
    let mut i: usize = 0;
    while i < src.len()
        invariant
            i <= src@.len(),
            dest@ == start + src@.subrange(0, i as int),
        decreases src@.len() - i,
    {
        dest.push(src[i]);
        i += 1;
        assert(dest@ =~= start + src@.subrange(0, i as int));
    }
    assert(src@.subrange(0, i as int) =~= src@);
}

fn push_prefixed(dest: &mut Vec<u8>, p: &[u8])
    requires
        p@.len() <= u32::MAX,
    ensures
        final(dest)@ == old(dest)@ + prefixed(p@),
{
    push_compact(dest, p.len() as u32);
    push_bytes(dest, p);
    assert(final(dest)@ =~= old(dest)@ + prefixed(p@));
}

impl<'a> DigestItemRef<'a> {
    /// Encodes the item: its discriminant, then the engine id and the length-prefixed
    /// payload as the variant has them.
    pub fn encode(&self) -> (r: Vec<u8>)
        requires
            encodable(self@),
        ensures
            r@ == encoding(self@),
    {
        let mut v: Vec<u8> = Vec::new();
        match self {
            DigestItemRef::Consensus(id, data) => {
                push_u32_le(&mut v, DigestItemType::Consensus.code());
                push_bytes(&mut v, id.as_slice());
                push_prefixed(&mut v, data);
            },
            DigestItemRef::Seal(id, sig) => {
                push_u32_le(&mut v, DigestItemType::Seal.code());
                push_bytes(&mut v, id.as_slice());
                push_prefixed(&mut v, sig);
            },
            DigestItemRef::PreRuntime(id, data) => {
                push_u32_le(&mut v, DigestItemType::PreRuntime.code());
                push_bytes(&mut v, id.as_slice());
                push_prefixed(&mut v, data);
            },
            DigestItemRef::Other(data) => {
                push_u32_le(&mut v, DigestItemType::Other.code());
                push_prefixed(&mut v, data);
            },
            DigestItemRef::RuntimeEnvironmentUpdated => {
                push_u32_le(&mut v, DigestItemType::RuntimeEnvironmentUpdated.code());
            },
        }
        reveal(encoding);
        assert(v@ =~= encoding(self@));
        v
    }
}

/// Reads a length-prefixed payload that starts at `pos`.
fn read_payload(input: &[u8], pos: usize) -> (r: Result<(Vec<u8>, usize), DecodeError>)
    requires
        pos <= input@.len(),
    ensures
        match payload_at(input@, pos as int) {
            Ok((p, end)) => r matches Ok((v, e)) && v@ == p && e == end,
            Err(err) => r == Err::<(Vec<u8>, usize), DecodeError>(err),
        },
{
    let (_, tail) = input.split_at(pos);
    assert(tail@ =~= input@.skip(pos as int));
    match read_compact(tail) {
        None => Err(DecodeError::TruncatedInput),
        Some((n, left)) => {
            let start = input.len() - left;
            if n as usize > left {
                Err(DecodeError::LengthOverflow)
            } else {
                let end = start + n as usize;
                let p = vstd::slice::slice_to_vec(vstd::slice::slice_subrange(input, start, end));
                Ok((p, end))
            }
        },
    }
}

fn read_engine_id(input: &[u8]) -> (r: [u8; 4])
    requires
        input@.len() >= 8,
    ensures
        r@ == input@.subrange(4, 8),
{
    let r = [input[4], input[5], input[6], input[7]];
    assert(r@ =~= input@.subrange(4, 8));
    r
}

impl DigestItem {
    /// Encodes the item; the same bytes as the encoding of its referencing view.
    pub fn encode(&self) -> (r: Vec<u8>)
        requires
            encodable(self@),
        ensures
            r@ == encoding(self@),
    {
        self.dref().encode()
    }

    /// Decodes one item from the front of `input`. On success returns the item and the
    /// number of bytes it took; whatever follows is left for the caller.
    pub fn decode(input: &[u8]) -> (r: Result<(DigestItem, usize), DecodeError>)
        ensures
            r matches Ok((_, n)) ==> n <= input@.len(),
            match decoding(input@) {
                Ok((x, k)) => r matches Ok((item, n)) && item@ == x && n == k,
                Err(e) => r == Err::<(DigestItem, usize), DecodeError>(e),
            },
    {
        if input.len() < 4 {
            return Err(DecodeError::TruncatedInput);
        }
        let code: u32 = input[0] as u32 + 256 * (input[1] as u32 + 256 * (input[2] as u32 + 256
            * input[3] as u32));
        match DigestItemType::from_code(code) {
            None => Err(DecodeError::UnknownDiscriminant),
            Some(DigestItemType::RuntimeEnvironmentUpdated) => Ok(
                (DigestItem::RuntimeEnvironmentUpdated, 4),
            ),
            Some(DigestItemType::Other) => match read_payload(input, 4) {
                Err(e) => Err(e),
                Ok((p, end)) => Ok((DigestItem::Other(p), end)),
            },
            Some(t) => {
                if input.len() < 8 {
                    return Err(DecodeError::TruncatedInput);
                }
                let id = read_engine_id(input);
                match read_payload(input, 8) {
                    Err(e) => Err(e),
                    Ok((p, end)) => match t {
                        DigestItemType::PreRuntime => Ok((DigestItem::PreRuntime(id, p), end)),
                        DigestItemType::Consensus => Ok((DigestItem::Consensus(id, p), end)),
                        _ => Ok((DigestItem::Seal(id, p), end)),
                    },
                }
            },
        }
    }
}

proof fn lemma_payload_at(b: Seq<u8>, pos: int, p: Seq<u8>, rest: Seq<u8>)
    requires
        0 <= pos <= b.len(),
        p.len() <= u32::MAX,
        b.skip(pos) == prefixed(p) + rest,
    ensures
        payload_at(b, pos) == Ok::<(Seq<u8>, nat), DecodeError>((p, (pos + prefixed(p).len()) as nat)),
{
    let c = compact_u32(p.len() as u32);
    lemma_compact_read_encoded(p.len() as u32, p + rest);
    assert(b.skip(pos) =~= c + (p + rest));
    let start = pos + c.len();
    assert(b.subrange(start, start + p.len()) =~= p) by {
        assert forall|i: int| 0 <= i < p.len() implies b.subrange(start, start + p.len())[i] == p[i] by {
            assert(b.skip(pos)[c.len() + i] == b[start + i]);
        }
    }
}

proof fn lemma_payload_cut(b: Seq<u8>, pos: int, p: Seq<u8>)
    requires
        0 <= pos <= b.len(),
        0 < p.len() <= u32::MAX,
        b.skip(pos) == prefixed(p).drop_last(),
    ensures
        payload_at(b, pos) == Err::<(Seq<u8>, nat), DecodeError>(DecodeError::LengthOverflow),
{
    let c = compact_u32(p.len() as u32);
    lemma_compact_read_encoded(p.len() as u32, p.drop_last());
    assert(b.skip(pos) =~= c + p.drop_last());
}

/// Bytes that follow an encoded item are left alone: decoding stops at the item's end.
pub proof fn lemma_decoding_encoded(x: ItemView, rest: Seq<u8>)
    requires
        encodable(x),
    ensures
        decoding(encoding(x) + rest) == Ok::<(ItemView, nat), DecodeError>((x, encoding(x).len())),
{
    reveal(encoding);
    let b = encoding(x) + rest;
    let code = type_code(item_type(x)) as int;
    lemma_le_bytes4(code);
    assert(le_value4(b, 0) == le_value4(le_bytes4(code), 0));
    match x {
        ItemView::PreRuntime(id, p) => {
            assert(b.skip(8) =~= prefixed(p) + rest);
            assert(b.subrange(4, 8) =~= id);
            lemma_payload_at(b, 8, p, rest);
        },
        ItemView::Consensus(id, p) => {
            assert(b.skip(8) =~= prefixed(p) + rest);
            assert(b.subrange(4, 8) =~= id);
            lemma_payload_at(b, 8, p, rest);
        },
        ItemView::Seal(id, p) => {
            assert(b.skip(8) =~= prefixed(p) + rest);
            assert(b.subrange(4, 8) =~= id);
            lemma_payload_at(b, 8, p, rest);
        },
        ItemView::Other(p) => {
            assert(b.skip(4) =~= prefixed(p) + rest);
            lemma_payload_at(b, 4, p, rest);
        },
        ItemView::RuntimeEnvironmentUpdated => {},
    }
}

/// Decoding the encoding of any encodable item gives that item back, taking all of
/// its bytes.
pub proof fn lemma_round_trip(x: DigestItem)
    requires
        encodable(x@),
    ensures
        decoding(encoding(x@)) == Ok::<(ItemView, nat), DecodeError>((x@, encoding(x@).len())),
{
    lemma_decoding_encoded(x@, Seq::empty());
    assert(encoding(x@) + Seq::empty() =~= encoding(x@));
}

/// The encoding of each variant starts with its discriminant as four little-endian
/// bytes: 0 for `Other`, 4 for `Consensus`, 5 for `Seal`, 6 for `PreRuntime` and 8 for
/// `RuntimeEnvironmentUpdated`.
pub proof fn lemma_discriminant_prefix(x: DigestItem)
    ensures
        encoding(x@).take(4) == match x {
            DigestItem::Other(..) => seq![0u8, 0, 0, 0],
            DigestItem::Consensus(..) => seq![4u8, 0, 0, 0],
            DigestItem::Seal(..) => seq![5u8, 0, 0, 0],
            DigestItem::PreRuntime(..) => seq![6u8, 0, 0, 0],
            DigestItem::RuntimeEnvironmentUpdated => seq![8u8, 0, 0, 0],
        },
{
    reveal(encoding);
    let e = encoding(x@);
    assert(e.take(4) =~= le_bytes4(type_code(item_type(x@)) as int));
    match x {
        DigestItem::Other(..) => assert(e.take(4) =~= seq![0u8, 0, 0, 0]),
        DigestItem::Consensus(..) => assert(e.take(4) =~= seq![4u8, 0, 0, 0]),
        DigestItem::Seal(..) => assert(e.take(4) =~= seq![5u8, 0, 0, 0]),
        DigestItem::PreRuntime(..) => assert(e.take(4) =~= seq![6u8, 0, 0, 0]),
        DigestItem::RuntimeEnvironmentUpdated => assert(e.take(4) =~= seq![8u8, 0, 0, 0]),
    }
}

/// Bytes whose leading four, read as a little-endian `u32`, are 1, 2, 3, 7 or 9 and
/// above are refused with `UnknownDiscriminant`.
pub proof fn lemma_unknown_discriminant(b: Seq<u8>)
    requires
        b.len() >= 4,
        le_value4(b, 0) == 1 || le_value4(b, 0) == 2 || le_value4(b, 0) == 3 || le_value4(b, 0)
            == 7 || le_value4(b, 0) >= 9,
    ensures
        decoding(b) == Err::<(ItemView, nat), DecodeError>(DecodeError::UnknownDiscriminant),
{
}

/// Decoding the encoding of an item with its last byte removed fails with
/// `TruncatedInput` or `LengthOverflow`.
#[verifier::rlimit(40)]
pub proof fn lemma_truncation(x: DigestItem)
    requires
        encodable(x@),
    ensures
        decoding(encoding(x@).drop_last()) == Err::<(ItemView, nat), DecodeError>(DecodeError::TruncatedInput)
            || decoding(encoding(x@).drop_last()) == Err::<(ItemView, nat), DecodeError>(DecodeError::LengthOverflow),
{
    reveal(encoding);
    let e = encoding(x@);
    let t = e.drop_last();
    let code = type_code(item_type(x@)) as int;
    lemma_le_bytes4(code);
    match x@ {
        ItemView::PreRuntime(id, p) => {
            lemma_compact_read_encoded(p.len() as u32, p);
            assert(le_value4(t, 0) == le_value4(le_bytes4(code), 0));
            if p.len() > 0 {
                assert(t.skip(8) =~= prefixed(p).drop_last());
                lemma_payload_cut(t, 8, p);
            }
        },
        ItemView::Consensus(id, p) => {
            lemma_compact_read_encoded(p.len() as u32, p);
            assert(le_value4(t, 0) == le_value4(le_bytes4(code), 0));
            if p.len() > 0 {
                assert(t.skip(8) =~= prefixed(p).drop_last());
                lemma_payload_cut(t, 8, p);
            }
        },
        ItemView::Seal(id, p) => {
            lemma_compact_read_encoded(p.len() as u32, p);
            assert(le_value4(t, 0) == le_value4(le_bytes4(code), 0));
            if p.len() > 0 {
                assert(t.skip(8) =~= prefixed(p).drop_last());
                lemma_payload_cut(t, 8, p);
            }
        },
        ItemView::Other(p) => {
            lemma_compact_read_encoded(p.len() as u32, p);
            assert(le_value4(t, 0) == le_value4(le_bytes4(code), 0));
            if p.len() > 0 {
                assert(t.skip(4) =~= prefixed(p).drop_last());
                lemma_payload_cut(t, 4, p);
            } else {
                assert(t.skip(4).len() == 0);
            }
        },
        ItemView::RuntimeEnvironmentUpdated => {},
    }
}

} // verus!
