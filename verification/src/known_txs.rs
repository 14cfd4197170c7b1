//! Per-peer record of which transactions each peer already knows.
//!
//! One entry per active peer holds a bounded filter of transaction
//! identifiers the peer has sent us or been sent by us. The record decides
//! which peers are skipped as rebroadcast targets, and tracks outbound
//! sends. A peer's entry is dropped when its connection closes; while the
//! connection is open the entry is bounded by a fixed per-peer capacity
//! with first-in-first-out eviction.

use vstd::prelude::*;

use crate::ids::{PeerId, TxId};
use crate::tx_filter::{filter_insert, lemma_filter_insert_marks, TxFilter};

verus! {

struct PeerEntry {
    peer: PeerId,
    filter: TxFilter,
}

spec fn lookup(entries: Seq<PeerEntry>, p: PeerId) -> Seq<TxId>
    decreases entries.len(),
{
    if entries.len() == 0 {
        Seq::empty()
    } else if entries[0].peer == p {
        entries[0].filter@
    } else {
        lookup(entries.drop_first(), p)
    }
}

proof fn lemma_lookup_skip(entries: Seq<PeerEntry>, p: PeerId, i: int)
    requires
        0 <= i <= entries.len(),
        forall|j: int| 0 <= j < i ==> entries[j].peer != p,
    ensures
        lookup(entries, p) == lookup(entries.subrange(i, entries.len() as int), p),
    decreases i,
{
    if i > 0 {
        lemma_lookup_skip(entries.drop_first(), p, i - 1);
        assert(entries.drop_first().subrange(i - 1, entries.drop_first().len() as int) =~= entries
            .subrange(i, entries.len() as int));
    } else {
        assert(entries.subrange(0, entries.len() as int) =~= entries);
    }
}

proof fn lemma_lookup_absent(entries: Seq<PeerEntry>, p: PeerId)
    requires
        forall|j: int| 0 <= j < entries.len() ==> entries[j].peer != p,
    ensures
        lookup(entries, p) == Seq::<TxId>::empty(),
    decreases entries.len(),
{
    if entries.len() > 0 {
        lemma_lookup_absent(entries.drop_first(), p);
    }
}

proof fn lemma_lookup_update(entries: Seq<PeerEntry>, i: int, e: PeerEntry)
    requires
        0 <= i < entries.len(),
        entries[i].peer == e.peer,
        forall|j: int| 0 <= j < i ==> entries[j].peer != e.peer,
    ensures
        lookup(entries.update(i, e), e.peer) == e.filter@,
        forall|q: PeerId|
            q != e.peer ==> lookup(entries.update(i, e), q) == lookup(entries, q),
    decreases i,
{
    let u = entries.update(i, e);
    if i == 0 {
        assert(u[0] == e);
        assert forall|q: PeerId| q != e.peer implies lookup(u, q) == lookup(entries, q) by {
            assert(u.drop_first() =~= entries.drop_first());
            assert(lookup(u, q) == lookup(u.drop_first(), q));
            assert(lookup(entries, q) == lookup(entries.drop_first(), q));
        }
    } else {
        assert(u[0] == entries[0]);
        assert(u.drop_first() =~= entries.drop_first().update(i - 1, e));
        lemma_lookup_update(entries.drop_first(), i - 1, e);
        assert(lookup(u, e.peer) == lookup(u.drop_first(), e.peer));
        assert(lookup(u.drop_first(), e.peer) == e.filter@);
        assert forall|q: PeerId| q != e.peer implies lookup(u, q) == lookup(entries, q) by {
            if entries[0].peer == q {
                assert(lookup(u, q) == u[0].filter@);
                assert(lookup(entries, q) == entries[0].filter@);
            } else {
                assert(lookup(u, q) == lookup(u.drop_first(), q));
                assert(lookup(u.drop_first(), q) == lookup(entries.drop_first(), q));
                assert(lookup(entries, q) == lookup(entries.drop_first(), q));
            }
        }
    }
}

proof fn lemma_lookup_push(entries: Seq<PeerEntry>, e: PeerEntry)
    requires
        forall|j: int| 0 <= j < entries.len() ==> entries[j].peer != e.peer,
    ensures
        lookup(entries.push(e), e.peer) == e.filter@,
        forall|q: PeerId| q != e.peer ==> lookup(entries.push(e), q) == lookup(entries, q),
    decreases entries.len(),
{
    let u = entries.push(e);
    if entries.len() == 0 {
        assert(u[0] == e);
        assert(lookup(u, e.peer) == e.filter@);
        assert forall|q: PeerId| q != e.peer implies lookup(u, q) == lookup(entries, q) by {
            assert(u.drop_first() =~= entries);
            assert(lookup(u, q) == lookup(u.drop_first(), q));
        }
    } else {
        assert(u[0] == entries[0]);
        assert(entries[0].peer != e.peer);
        assert(u.drop_first() =~= entries.drop_first().push(e));
        lemma_lookup_push(entries.drop_first(), e);
        assert(lookup(u, e.peer) == lookup(u.drop_first(), e.peer));
        assert(lookup(u.drop_first(), e.peer) == e.filter@);
        assert forall|q: PeerId| q != e.peer implies lookup(u, q) == lookup(entries, q) by {
            if entries[0].peer == q {
                assert(lookup(u, q) == u[0].filter@);
                assert(lookup(entries, q) == entries[0].filter@);
            } else {
                assert(lookup(u, q) == lookup(u.drop_first(), q));
                assert(lookup(u.drop_first(), q) == lookup(entries.drop_first(), q));
                assert(lookup(entries, q) == lookup(entries.drop_first(), q));
            }
        }
    }
}

proof fn lemma_lookup_remove(entries: Seq<PeerEntry>, i: int)
    requires
        0 <= i < entries.len(),
        forall|j: int, k: int|
            0 <= j < entries.len() && 0 <= k < entries.len() && j != k ==> entries[j].peer
                != entries[k].peer,
    ensures
        lookup(entries.remove(i), entries[i].peer) == Seq::<TxId>::empty(),
        forall|q: PeerId|
            q != entries[i].peer ==> lookup(entries.remove(i), q) == lookup(entries, q),
    decreases i,
{
    let u = entries.remove(i);
    let p = entries[i].peer;
    let ed = entries.drop_first();
    if i == 0 {
        assert(u =~= ed);
        assert forall|j: int| 0 <= j < u.len() implies u[j].peer != p by {
            assert(u[j] == entries[j + 1]);
        }
        lemma_lookup_absent(u, p);
        assert forall|q: PeerId| q != p implies lookup(u, q) == lookup(entries, q) by {
            assert(lookup(entries, q) == lookup(ed, q));
        }
    } else {
        assert(u[0] == entries[0]);
        assert(u.drop_first() =~= ed.remove(i - 1));
        assert forall|j: int, k: int|
            0 <= j < ed.len() && 0 <= k < ed.len() && j != k implies ed[j].peer != ed[k].peer by {
            assert(ed[j] == entries[j + 1]);
            assert(ed[k] == entries[k + 1]);
        }
        lemma_lookup_remove(ed, i - 1);
        assert(ed[i - 1] == entries[i]);
        assert(entries[0].peer != p);
        assert(lookup(u, p) == lookup(u.drop_first(), p));
        assert(lookup(u.drop_first(), p) == Seq::<TxId>::empty());
        assert forall|q: PeerId| q != p implies lookup(u, q) == lookup(entries, q) by {
            if entries[0].peer == q {
                assert(lookup(u, q) == u[0].filter@);
                assert(lookup(entries, q) == entries[0].filter@);
            } else {
                assert(lookup(u, q) == lookup(u.drop_first(), q));
                assert(lookup(u.drop_first(), q) == lookup(ed.remove(i - 1), q));
                assert(lookup(entries, q) == lookup(ed, q));
            }
        }
    }
}

/// Tracks, for each active peer, the bounded set of transaction
/// identifiers that peer is already known to know.
pub struct KnownTxs {
    entries: Vec<PeerEntry>,
    per_peer_cap: usize,
}

impl KnownTxs {
    /// The identifiers currently recorded for `p`, oldest first; empty for
    /// a peer with no entry.
    pub closed spec fn peer_ids(self, p: PeerId) -> Seq<TxId> {
        lookup(self.entries@, p)
    }

    /// Whether `p` is recorded as knowing `id`.
    pub open spec fn knows(self, p: PeerId, id: TxId) -> bool {
        self.peer_ids(p).contains(id)
    }

    /// The whole record as a total map from peer to recorded identifiers.
    pub open spec fn as_map(self) -> Map<PeerId, Seq<TxId>> {
        Map::new(|p: PeerId| true, |p: PeerId| self.peer_ids(p))
    }

    /// The fixed number of identifiers remembered per peer.
    pub closed spec fn per_peer_capacity(self) -> nat {
        self.per_peer_cap as nat
    }

    /// Well-formedness: at most one entry per peer, every per-peer filter
    /// well-formed with the shared capacity.
    pub closed spec fn wf(self) -> bool {
        &&& forall|j: int, k: int|
            0 <= j < self.entries@.len() && 0 <= k < self.entries@.len() && j != k
                ==> self.entries@[j].peer != self.entries@[k].peer
        &&& forall|j: int|
            0 <= j < self.entries@.len() ==> (#[trigger] self.entries@[j]).filter.wf()
                && self.entries@[j].filter.capacity() == self.per_peer_cap
        &&& self.per_peer_cap >= 1
    }

    /// Creates an empty record remembering at most `per_peer_capacity`
    /// identifiers for each peer.
    pub fn new(per_peer_capacity: usize) -> (k: KnownTxs)
        requires
            per_peer_capacity >= 1,
        ensures
            k.wf(),
            k.per_peer_capacity() == per_peer_capacity,
            forall|p: PeerId| #[trigger] k.peer_ids(p) == Seq::<TxId>::empty(),
    {
        let k = KnownTxs { entries: Vec::new(), per_peer_cap: per_peer_capacity };
        proof {
            assert forall|p: PeerId| #[trigger] k.peer_ids(p) == Seq::<TxId>::empty() by {
                lemma_lookup_absent(k.entries@, p);
            }
        }
        k
    }

    fn find(&self, peer: PeerId) -> (pos: Option<usize>)
        ensures
            match pos {
                Some(i) => i < self.entries@.len() && self.entries@[i as int].peer == peer
                    && forall|j: int| 0 <= j < i ==> self.entries@[j].peer != peer,
                None => forall|j: int| 0 <= j < self.entries@.len() ==> self.entries@[j].peer
                    != peer,
            },
    {
        let mut i: usize = 0;
        while i < self.entries.len()
            invariant
                i <= self.entries.len(),
                forall|j: int| 0 <= j < i ==> self.entries@[j].peer != peer,
            decreases self.entries.len() - i,
        {
            if self.entries[i].peer == peer {
                return Some(i);
            }
            i += 1;
        }
        None
    }

    /// Records that `peer` now knows `id` and reports whether that was
    /// already recorded before this call. Entries for other peers are
    /// untouched.
    pub fn mark_and_check(&mut self, peer: PeerId, id: TxId) -> (was_known: bool)
        requires
            old(self).wf(),
        ensures
            final(self).wf(),
            final(self).per_peer_capacity() == old(self).per_peer_capacity(),
            was_known == old(self).knows(peer, id),
            final(self).peer_ids(peer) == filter_insert(
                old(self).peer_ids(peer),
                id,
                old(self).per_peer_capacity(),
            ),
            final(self).knows(peer, id),
            forall|q: PeerId| q != peer ==> final(self).peer_ids(q) == old(self).peer_ids(q),
    {
        proof {
            lemma_filter_insert_marks(
                old(self).peer_ids(peer),
                id,
                old(self).per_peer_capacity(),
            );
        }
        match self.find(peer) {
            Some(i) => {
                let ghost before = self.entries@;
                let was_known = self.entries[i].filter.insert(id);
                proof {
                    lemma_lookup_skip(before, peer, i as int);
                    assert(before.subrange(i as int, before.len() as int)[0] == before[i as int]);
                    assert(self.entries@ =~= before.update(i as int, self.entries@[i as int]));
                    lemma_lookup_update(before, i as int, self.entries@[i as int]);
                }
                was_known
            },
            None => {
                proof {
                    lemma_lookup_absent(self.entries@, peer);
                }
                let mut filter = TxFilter::new(self.per_peer_cap);
                let _ = filter.insert(id);
                let ghost before = self.entries@;
                let entry = PeerEntry { peer, filter };
                self.entries.push(entry);
                proof {
                    lemma_lookup_push(before, self.entries@[before.len() as int]);
                    assert(self.entries@ =~= before.push(self.entries@[before.len() as int]));
                }
                false
            },
        }
    }

    /// Drops every identifier recorded for `peer`: called when the peer's
    /// connection is recognized as closed. Entries for other peers are
    /// untouched.
    pub fn remove_peer(&mut self, peer: PeerId)
        requires
            old(self).wf(),
        ensures
            final(self).wf(),
            final(self).per_peer_capacity() == old(self).per_peer_capacity(),
            final(self).peer_ids(peer) == Seq::<TxId>::empty(),
            forall|q: PeerId| q != peer ==> final(self).peer_ids(q) == old(self).peer_ids(q),
    {
        match self.find(peer) {
            Some(i) => {
                let ghost before = self.entries@;
                self.entries.remove(i);
                proof {
                    assert(self.entries@ =~= before.remove(i as int));
                    lemma_lookup_remove(before, i as int);
                }
            },
            None => {
                proof {
                    lemma_lookup_absent(self.entries@, peer);
                }
            },
        }
    }
}

} // verus!
