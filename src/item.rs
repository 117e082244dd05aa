//! The item model: owned items, borrowed views of them, variant tags and selectors.
use vstd::prelude::*;

verus! {

/// Consensus engine unique ID.
pub type ConsensusEngineId = [u8; 4];

/// The mathematical value of a digest item: engine ids and payloads as byte sequences.
pub enum ItemView {
    PreRuntime(Seq<u8>, Seq<u8>),
    Consensus(Seq<u8>, Seq<u8>),
    Seal(Seq<u8>, Seq<u8>),
    Other(Seq<u8>),
    RuntimeEnvironmentUpdated,
}

/// The mathematical value of a selector.
pub enum SelectorView {
    PreRuntime(Seq<u8>),
    Consensus(Seq<u8>),
    Seal(Seq<u8>),
    Other,
}

/// Digest item that is able to encode/decode 'system' digest items and
/// provide opaque access to other items.
#[derive(Debug, PartialEq, Eq, Clone)]
pub enum DigestItem {
    /// A pre-runtime digest: a message from the consensus engine to the runtime.
    PreRuntime(ConsensusEngineId, Vec<u8>),
    /// A message from the runtime to the consensus engine.
    Consensus(ConsensusEngineId, Vec<u8>),
    /// A seal, only used by native code and never seen by runtimes.
    Seal(ConsensusEngineId, Vec<u8>),
    /// Some other thing. Unsupported and experimental.
    Other(Vec<u8>),
    /// An indication for light clients that the runtime execution environment is updated.
    RuntimeEnvironmentUpdated,
}

/// A 'referencing view' for a digest item: same variants, borrowing the bytes.
#[derive(Debug, PartialEq, Eq, Clone)]
pub enum DigestItemRef<'a> {
    /// A pre-runtime digest.
    PreRuntime(&'a ConsensusEngineId, &'a [u8]),
    /// A message from the runtime to the consensus engine.
    Consensus(&'a ConsensusEngineId, &'a [u8]),
    /// A seal.
    Seal(&'a ConsensusEngineId, &'a [u8]),
    /// Any 'non-system' digest item, opaque to the native code.
    Other(&'a [u8]),
    /// Runtime code or heap pages updated.
    RuntimeEnvironmentUpdated,
}

/// Type of a digest item, i.e. its tag on the wire.
#[derive(Debug, PartialEq, Eq, Clone, Copy, Structural)]
pub enum DigestItemType {
    Other,
    Consensus,
    Seal,
    PreRuntime,
    RuntimeEnvironmentUpdated,
}

/// Type of a digest item that carries raw data, with the consensus engine id where the
/// variant has one. Used to pick out digest items of interest.
#[derive(Copy, Debug, Clone, Eq, PartialEq, Ord, PartialOrd)]
pub enum OpaqueDigestItemId<'a> {
    /// Selects `DigestItem::PreRuntime` items of this engine.
    PreRuntime(&'a ConsensusEngineId),
    /// Selects `DigestItem::Consensus` items of this engine.
    Consensus(&'a ConsensusEngineId),
    /// Selects `DigestItem::Seal` items of this engine.
    Seal(&'a ConsensusEngineId),
    /// Selects `DigestItem::Other` items.
    Other,
}

impl View for DigestItem {
    type V = ItemView;

    open spec fn view(&self) -> ItemView {
        match self {
            DigestItem::PreRuntime(id, data) => ItemView::PreRuntime(id@, data@),
            DigestItem::Consensus(id, data) => ItemView::Consensus(id@, data@),
            DigestItem::Seal(id, data) => ItemView::Seal(id@, data@),
            DigestItem::Other(data) => ItemView::Other(data@),
            DigestItem::RuntimeEnvironmentUpdated => ItemView::RuntimeEnvironmentUpdated,
        }
    }
}

impl<'a> View for DigestItemRef<'a> {
    type V = ItemView;

    open spec fn view(&self) -> ItemView {
        match self {
            DigestItemRef::PreRuntime(id, data) => ItemView::PreRuntime(id@, data@),
            DigestItemRef::Consensus(id, data) => ItemView::Consensus(id@, data@),
            DigestItemRef::Seal(id, data) => ItemView::Seal(id@, data@),
            DigestItemRef::Other(data) => ItemView::Other(data@),
            DigestItemRef::RuntimeEnvironmentUpdated => ItemView::RuntimeEnvironmentUpdated,
        }
    }
}

impl<'a> View for OpaqueDigestItemId<'a> {
    type V = SelectorView;

    open spec fn view(&self) -> SelectorView {
        match self {
            OpaqueDigestItemId::PreRuntime(id) => SelectorView::PreRuntime(id@),
            OpaqueDigestItemId::Consensus(id) => SelectorView::Consensus(id@),
            OpaqueDigestItemId::Seal(id) => SelectorView::Seal(id@),
            OpaqueDigestItemId::Other => SelectorView::Other,
        }
    }
}

impl DigestItem {
    /// Returns a 'referencing view' for this digest item.
    pub fn dref(&self) -> (r: DigestItemRef<'_>)
        ensures
            r@ == self@,
    {
        match self {
            DigestItem::PreRuntime(v, s) => DigestItemRef::PreRuntime(v, s.as_slice()),
            DigestItem::Consensus(v, s) => DigestItemRef::Consensus(v, s.as_slice()),
            DigestItem::Seal(v, s) => DigestItemRef::Seal(v, s.as_slice()),
            DigestItem::Other(v) => DigestItemRef::Other(v.as_slice()),
            DigestItem::RuntimeEnvironmentUpdated => DigestItemRef::RuntimeEnvironmentUpdated,
        }
    }
}

} // verus!
