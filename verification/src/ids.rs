//! Identifiers for transactions and peer connections.

use vstd::prelude::*;

verus! {

/// A transaction identifier: the transaction's 256-bit content hash, held as
/// four 64-bit words (most significant first). Identity of a transaction is
/// this hash; equal bodies have equal hashes.
#[derive(Clone, Copy, PartialEq, Eq, Structural, Debug)]
pub struct TxId {
    pub w0: u64,
    pub w1: u64,
    pub w2: u64,
    pub w3: u64,
}

/// A handle naming one active peer connection. Valid only for that
/// connection's lifetime, and never reused for a different connection while
/// it is open.
#[derive(Clone, Copy, PartialEq, Eq, Structural, Debug)]
pub struct PeerId {
    pub index: u64,
}

impl TxId {
    /// Builds an identifier from its four words.
    pub fn new(w0: u64, w1: u64, w2: u64, w3: u64) -> (id: TxId)
        ensures
            id == (TxId { w0, w1, w2, w3 }),
    {
        TxId { w0, w1, w2, w3 }
    }
}

impl PeerId {
    /// Builds a peer handle from the connection index.
    pub fn new(index: u64) -> (p: PeerId)
        ensures
            p == (PeerId { index }),
    {
        PeerId { index }
    }
}

} // verus!
