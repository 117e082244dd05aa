//! Opaque queries: picking the payload out of an item by variant and engine id, and
//! handing it to a caller-chosen decoder.
use vstd::prelude::*;
use crate::codec::item_type;
use crate::item::{ConsensusEngineId, DigestItem, DigestItemRef, DigestItemType, ItemView, OpaqueDigestItemId, SelectorView};

verus! {

/// The payload of an item that a selector picks out, or `None` where it does not.
pub open spec fn raw_payload(x: ItemView, sel: SelectorView) -> Option<Seq<u8>> {
    match (sel, x) {
        (SelectorView::PreRuntime(w), ItemView::PreRuntime(v, s)) => if v == w { Some(s) } else { None },
        (SelectorView::Consensus(w), ItemView::Consensus(v, s)) => if v == w { Some(s) } else { None },
        (SelectorView::Seal(w), ItemView::Seal(v, s)) => if v == w { Some(s) } else { None },
        (SelectorView::Other, ItemView::Other(s)) => Some(s),
        _ => None,
    }
}

/// The item type that a selector asks for.
pub open spec fn selector_type(sel: SelectorView) -> DigestItemType {
    match sel {
        SelectorView::PreRuntime(..) => DigestItemType::PreRuntime,
        SelectorView::Consensus(..) => DigestItemType::Consensus,
        SelectorView::Seal(..) => DigestItemType::Seal,
        SelectorView::Other => DigestItemType::Other,
    }
}

/// The engine id that a selector asks for, if its kind carries one.
pub open spec fn selector_engine(sel: SelectorView) -> Option<Seq<u8>> {
    match sel {
        SelectorView::PreRuntime(w) => Some(w),
        SelectorView::Consensus(w) => Some(w),
        SelectorView::Seal(w) => Some(w),
        SelectorView::Other => None,
    }
}

/// The engine id of an item, if its variant carries one.
pub open spec fn item_engine(x: ItemView) -> Option<Seq<u8>> {
    match x {
        ItemView::PreRuntime(v, _) => Some(v),
        ItemView::Consensus(v, _) => Some(v),
        ItemView::Seal(v, _) => Some(v),
        _ => None,
    }
}

/// The payload of an item; empty for `RuntimeEnvironmentUpdated`, which has none.
pub open spec fn item_payload(x: ItemView) -> Seq<u8> {
    match x {
        ItemView::PreRuntime(_, s) => s,
        ItemView::Consensus(_, s) => s,
        ItemView::Seal(_, s) => s,
        ItemView::Other(s) => s,
        ItemView::RuntimeEnvironmentUpdated => Seq::empty(),
    }
}

/// The engine id and payload of a `PreRuntime` item.
pub open spec fn pre_runtime_of(x: ItemView) -> Option<(Seq<u8>, Seq<u8>)> {
    match x {
        ItemView::PreRuntime(v, s) => Some((v, s)),
        _ => None,
    }
}

/// The engine id and payload of a `Consensus` item.
pub open spec fn consensus_of(x: ItemView) -> Option<(Seq<u8>, Seq<u8>)> {
    match x {
        ItemView::Consensus(v, s) => Some((v, s)),
        _ => None,
    }
}

/// The engine id and payload of a `Seal` item.
pub open spec fn seal_of(x: ItemView) -> Option<(Seq<u8>, Seq<u8>)> {
    match x {
        ItemView::Seal(v, s) => Some((v, s)),
        _ => None,
    }
}

/// The payload of an `Other` item.
pub open spec fn other_of(x: ItemView) -> Option<Seq<u8>> {
    match x {
        ItemView::Other(s) => Some(s),
        _ => None,
    }
}

/// An engine id and a borrowed payload, as byte sequences.
pub open spec fn pair_view(r: Option<(ConsensusEngineId, &[u8])>) -> Option<(Seq<u8>, Seq<u8>)> {
    match r {
        Some((id, s)) => Some((id@, s@)),
        None => None,
    }
}

/// A borrowed payload, as a byte sequence.
pub open spec fn bytes_view(r: Option<&[u8]>) -> Option<Seq<u8>> {
    match r {
        Some(s) => Some(s@),
        None => None,
    }
}

/// `r` is what a typed query gives for the payload `raw`: `None` where there is no
/// payload, and otherwise what `decode` returned on a slice holding it. A failed
/// decode is `None` as well, the same as no payload.
pub open spec fn decoded_from<T, F: Fn(&[u8]) -> Option<T>>(
    raw: Option<Seq<u8>>,
    decode: F,
    r: Option<T>,
) -> bool {
    match raw {
        None => r.is_none(),
        Some(p) => exists|s: &[u8]| s@ == p && #[trigger] decode.ensures((s,), r),
    }
}

fn same_engine(a: &ConsensusEngineId, b: &ConsensusEngineId) -> (r: bool)
    ensures
        r == (a@ == b@),
{
    let r = a[0] == b[0] && a[1] == b[1] && a[2] == b[2] && a[3] == b[3];
    if r {
        assert(a@ =~= b@);
    } else {
        assert(a@ != b@) by {
            if a@ == b@ {
                assert(a@[0] == b@[0] && a@[1] == b@[1] && a@[2] == b@[2] && a@[3] == b@[3]);
            }
        }
    }
    r
}

impl<'a> DigestItemRef<'a> {
    /// Cast this digest item into `PreRuntime`.
    pub fn as_pre_runtime(&self) -> (r: Option<(ConsensusEngineId, &'a [u8])>)
        ensures
            pair_view(r) == pre_runtime_of(self@),
    {
        match self {
            DigestItemRef::PreRuntime(id, data) => Some((**id, *data)),
            _ => None,
        }
    }

    /// Cast this digest item into `Consensus`.
    pub fn as_consensus(&self) -> (r: Option<(ConsensusEngineId, &'a [u8])>)
        ensures
            pair_view(r) == consensus_of(self@),
    {
        match self {
            DigestItemRef::Consensus(id, data) => Some((**id, *data)),
            _ => None,
        }
    }

    /// Cast this digest item into `Seal`.
    pub fn as_seal(&self) -> (r: Option<(ConsensusEngineId, &'a [u8])>)
        ensures
            pair_view(r) == seal_of(self@),
    {
        match self {
            DigestItemRef::Seal(id, data) => Some((**id, *data)),
            _ => None,
        }
    }

    /// Cast this digest item into `Other`.
    pub fn as_other(&self) -> (r: Option<&'a [u8]>)
        ensures
            bytes_view(r) == other_of(self@),
    {
        match self {
            DigestItemRef::Other(data) => Some(*data),
            _ => None,
        }
    }

    /// Try to match this digest item to the given opaque item identifier; if it matches,
    /// return the opaque data it contains.
    pub fn try_as_raw(&self, id: OpaqueDigestItemId) -> (r: Option<&'a [u8]>)
        ensures
            bytes_view(r) == raw_payload(self@, id@),
    {
        match (id, self) {
            (OpaqueDigestItemId::Consensus(w), DigestItemRef::Consensus(v, s)) => {
                if same_engine(v, w) { Some(*s) } else { None }
            },
            (OpaqueDigestItemId::Seal(w), DigestItemRef::Seal(v, s)) => {
                if same_engine(v, w) { Some(*s) } else { None }
            },
            (OpaqueDigestItemId::PreRuntime(w), DigestItemRef::PreRuntime(v, s)) => {
                if same_engine(v, w) { Some(*s) } else { None }
            },
            (OpaqueDigestItemId::Other, DigestItemRef::Other(s)) => Some(*s),
            _ => None,
        }
    }

    /// Try to match this digest item to the given opaque item identifier; if it matches,
    /// decode its data with `decode`. A failed decode gives `None`, as does a mismatch.
    pub fn try_to<T, F: Fn(&[u8]) -> Option<T>>(&self, id: OpaqueDigestItemId, decode: F) -> (r: Option<T>)
        requires
            forall|s: &[u8]| #[trigger] decode.requires((s,)),
        ensures
            decoded_from(raw_payload(self@, id@), decode, r),
    {
        match self.try_as_raw(id) {
            None => None,
            Some(s) => decode(s),
        }
    }

    /// Try to match this to a `Seal` of engine `id` and decode its data.
    ///
    /// Returns `None` if this isn't a seal item, the `id` doesn't match or decoding fails.
    pub fn seal_try_to<T, F: Fn(&[u8]) -> Option<T>>(&self, id: &ConsensusEngineId, decode: F) -> (r: Option<T>)
        requires
            forall|s: &[u8]| #[trigger] decode.requires((s,)),
        ensures
            decoded_from(raw_payload(self@, SelectorView::Seal(id@)), decode, r),
    {
        match self {
            DigestItemRef::Seal(v, s) => if same_engine(v, id) { decode(*s) } else { None },
            _ => None,
        }
    }

    /// Try to match this to a `Consensus` item of engine `id` and decode its data.
    ///
    /// Returns `None` if this isn't a consensus item, the `id` doesn't match or decoding fails.
    pub fn consensus_try_to<T, F: Fn(&[u8]) -> Option<T>>(&self, id: &ConsensusEngineId, decode: F) -> (r: Option<T>)
        requires
            forall|s: &[u8]| #[trigger] decode.requires((s,)),
        ensures
            decoded_from(raw_payload(self@, SelectorView::Consensus(id@)), decode, r),
    {
        match self {
            DigestItemRef::Consensus(v, s) => if same_engine(v, id) { decode(*s) } else { None },
            _ => None,
        }
    }

    /// Try to match this to a `PreRuntime` item of engine `id` and decode its data.
    ///
    /// Returns `None` if this isn't a pre-runtime item, the `id` doesn't match or decoding fails.
    pub fn pre_runtime_try_to<T, F: Fn(&[u8]) -> Option<T>>(&self, id: &ConsensusEngineId, decode: F) -> (r: Option<T>)
        requires
            forall|s: &[u8]| #[trigger] decode.requires((s,)),
        ensures
            decoded_from(raw_payload(self@, SelectorView::PreRuntime(id@)), decode, r),
    {
        match self {
            DigestItemRef::PreRuntime(v, s) => if same_engine(v, id) { decode(*s) } else { None },
            _ => None,
        }
    }
}

impl DigestItem {
    /// Returns `Some` if this entry is the `PreRuntime` entry.
    pub fn as_pre_runtime(&self) -> (r: Option<(ConsensusEngineId, &[u8])>)
        ensures
            pair_view(r) == pre_runtime_of(self@),
    {
        self.dref().as_pre_runtime()
    }

    /// Returns `Some` if this entry is the `Consensus` entry.
    pub fn as_consensus(&self) -> (r: Option<(ConsensusEngineId, &[u8])>)
        ensures
            pair_view(r) == consensus_of(self@),
    {
        self.dref().as_consensus()
    }

    /// Returns `Some` if this entry is the `Seal` entry.
    pub fn as_seal(&self) -> (r: Option<(ConsensusEngineId, &[u8])>)
        ensures
            pair_view(r) == seal_of(self@),
    {
        self.dref().as_seal()
    }

    /// Returns `Some` if this entry is an `Other` entry.
    pub fn as_other(&self) -> (r: Option<&[u8]>)
        ensures
            bytes_view(r) == other_of(self@),
    {
        self.dref().as_other()
    }

    /// Returns the opaque data contained in the item if this entry has the id given.
    pub fn try_as_raw(&self, id: OpaqueDigestItemId) -> (r: Option<&[u8]>)
        ensures
            bytes_view(r) == raw_payload(self@, id@),
    {
        self.dref().try_as_raw(id)
    }

    /// Returns the data contained in the item, decoded with `decode`, if this entry has the
    /// id given. A failed decode gives `None`, as does a mismatch.
    pub fn try_to<T, F: Fn(&[u8]) -> Option<T>>(&self, id: OpaqueDigestItemId, decode: F) -> (r: Option<T>)
        requires
            forall|s: &[u8]| #[trigger] decode.requires((s,)),
        ensures
            decoded_from(raw_payload(self@, id@), decode, r),
    {
        self.dref().try_to(id, decode)
    }

    /// Try to match this to a `Seal` of engine `id` and decode its data.
    ///
    /// Returns `None` if this isn't a seal item, the `id` doesn't match or decoding fails.
    pub fn seal_try_to<T, F: Fn(&[u8]) -> Option<T>>(&self, id: &ConsensusEngineId, decode: F) -> (r: Option<T>)
        requires
            forall|s: &[u8]| #[trigger] decode.requires((s,)),
        ensures
            decoded_from(raw_payload(self@, SelectorView::Seal(id@)), decode, r),
    {
        self.dref().seal_try_to(id, decode)
    }

    /// Try to match this to a `Consensus` item of engine `id` and decode its data.
    ///
    /// Returns `None` if this isn't a consensus item, the `id` doesn't match or decoding fails.
    pub fn consensus_try_to<T, F: Fn(&[u8]) -> Option<T>>(&self, id: &ConsensusEngineId, decode: F) -> (r: Option<T>)
        requires
            forall|s: &[u8]| #[trigger] decode.requires((s,)),
        ensures
            decoded_from(raw_payload(self@, SelectorView::Consensus(id@)), decode, r),
    {
        self.dref().consensus_try_to(id, decode)
    }

    /// Try to match this to a `PreRuntime` item of engine `id` and decode its data.
    ///
    /// Returns `None` if this isn't a pre-runtime item, the `id` doesn't match or decoding fails.
    pub fn pre_runtime_try_to<T, F: Fn(&[u8]) -> Option<T>>(&self, id: &ConsensusEngineId, decode: F) -> (r: Option<T>)
        requires
            forall|s: &[u8]| #[trigger] decode.requires((s,)),
        ensures
            decoded_from(raw_payload(self@, SelectorView::PreRuntime(id@)), decode, r),
    {
        self.dref().pre_runtime_try_to(id, decode)
    }
}

/// A selector picks out an item exactly when it asks for the item's type and, for the
/// types that carry one, the item's engine id; it then yields the item's whole payload,
/// and otherwise nothing.
pub proof fn lemma_selector_matching(x: DigestItem, sel: OpaqueDigestItemId)
    ensures
        raw_payload(x@, sel@) == if selector_type(sel@) == item_type(x@) && selector_engine(sel@)
            == item_engine(x@) {
            Some(item_payload(x@))
        } else {
            None
        },
{
}

/// A typed query gives `None` alike when the selector does not match and when it
/// matches but the decoder fails on the payload.
pub proof fn lemma_typed_decode_ambiguity<T, F: Fn(&[u8]) -> Option<T>>(
    x: DigestItem,
    sel: OpaqueDigestItemId,
    decode: F,
    r: Option<T>,
)
    requires
        decoded_from(raw_payload(x@, sel@), decode, r),
        raw_payload(x@, sel@) is None || forall|s: &[u8], o: Option<T>|
            s@ == raw_payload(x@, sel@)->Some_0 && #[trigger] decode.ensures((s,), o) ==> o is None,
    ensures
        r is None,
{
}

} // verus!
