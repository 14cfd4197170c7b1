//! Process-wide dedup filter over transaction identifiers.
//!
//! The filter records which transaction identifiers have already been
//! handled, so that a transaction relayed again (by the same or another
//! peer) is discarded without a second pool submission. Memory is bounded
//! by a fixed capacity: recording a fresh identifier in a full filter
//! evicts the oldest entry (first-in, first-out).

use vstd::prelude::*;

use crate::ids::TxId;

verus! {

/// The sequence of identifiers a filter holds after `id` is recorded in a
/// filter holding `s` with capacity `cap`: an identifier already present
/// leaves the filter unchanged; a fresh one is appended, evicting the
/// oldest entry when the filter is full.
pub open spec fn filter_insert(s: Seq<TxId>, id: TxId, cap: nat) -> Seq<TxId> {
    if s.contains(id) {
        s
    } else if s.len() < cap {
        s.push(id)
    } else {
        s.drop_first().push(id)
    }
}

/// Recording an identifier always leaves it present in the filter, whatever
/// was present before: even an insert that evicts the oldest entry keeps the
/// identifier it recorded.
pub proof fn lemma_filter_insert_marks(s: Seq<TxId>, id: TxId, cap: nat)
    ensures
        filter_insert(s, id, cap).contains(id),
{
    if s.contains(id) {
    } else if s.len() < cap {
        assert(s.push(id)[s.len() as int] == id);
    } else {
        let t = s.drop_first().push(id);
        assert(t[t.len() - 1] == id);
    }
}

proof fn lemma_push_fresh_no_dup(s: Seq<TxId>, id: TxId)
    requires
        s.no_duplicates(),
        !s.contains(id),
    ensures
        s.push(id).no_duplicates(),
{
    let t = s.push(id);
    assert forall|i: int, j: int|
        0 <= i < t.len() && 0 <= j < t.len() && i != j implies t[i] != t[j] by {
        if i < s.len() && j < s.len() {
        } else if i < s.len() {
            assert(s.contains(s[i]));
        } else if j < s.len() {
            assert(s.contains(s[j]));
        }
    }
}

proof fn lemma_drop_first_keeps_fresh(s: Seq<TxId>, id: TxId)
    requires
        s.no_duplicates(),
        !s.contains(id),
        s.len() >= 1,
    ensures
        s.drop_first().no_duplicates(),
        !s.drop_first().contains(id),
{
    let t = s.drop_first();
    assert forall|k: int| 0 <= k < t.len() implies t[k] != id by {
        assert(t[k] == s[k + 1]);
        assert(s.contains(s[k + 1]));
    }
    assert forall|i: int, j: int|
        0 <= i < t.len() && 0 <= j < t.len() && i != j implies t[i] != t[j] by {
        assert(t[i] == s[i + 1]);
        assert(t[j] == s[j + 1]);
    }
}

/// A bounded set of transaction identifiers with first-in-first-out
/// eviction. Its view is the sequence of held identifiers, oldest first,
/// free of duplicates.
pub struct TxFilter {
    ids: Vec<TxId>,
    cap: usize,
}

impl View for TxFilter {
    type V = Seq<TxId>;

    closed spec fn view(&self) -> Seq<TxId> {
        self.ids@
    }
}

impl TxFilter {
    /// The fixed number of identifiers the filter can hold at once.
    pub closed spec fn capacity(self) -> nat {
        self.cap as nat
    }

    /// Well-formedness: no identifier is held twice, and the filter never
    /// holds more than its capacity, which is at least one.
    pub open spec fn wf(self) -> bool {
        &&& self@.no_duplicates()
        &&& self@.len() <= self.capacity()
        &&& self.capacity() >= 1
    }

    /// Creates an empty filter that holds at most `capacity` identifiers.
    pub fn new(capacity: usize) -> (f: TxFilter)
        requires
            capacity >= 1,
        ensures
            f.wf(),
            f@ == Seq::<TxId>::empty(),
            f.capacity() == capacity,
    {
        TxFilter { ids: Vec::new(), cap: capacity }
    }

    /// Reports whether `id` is currently held.
    pub fn contains(&self, id: &TxId) -> (r: bool)
        ensures
            r == self@.contains(*id),
    {
        let mut i: usize = 0;
        while i < self.ids.len()
            invariant
                i <= self.ids.len(),
                forall|j: int| 0 <= j < i ==> self.ids@[j] != *id,
            decreases self.ids.len() - i,
        {
            if self.ids[i] == *id {
                proof {
                    assert(self@[i as int] == *id);
                }
                return true;
            }
            i += 1;
        }
        false
    }

    /// Records `id` as known, evicting the oldest entry if the filter was
    /// full, and reports whether it was already known before this call.
    pub fn insert(&mut self, id: TxId) -> (was_known: bool)
        requires
            old(self).wf(),
        ensures
            final(self).wf(),
            final(self).capacity() == old(self).capacity(),
            was_known == old(self)@.contains(id),
            final(self)@ == filter_insert(old(self)@, id, old(self).capacity()),
    {
        if self.contains(&id) {
            return true;
        }
        if self.ids.len() == self.cap {
            self.ids.remove(0);
            proof {
                assert(self.ids@ =~= old(self)@.drop_first());
                lemma_drop_first_keeps_fresh(old(self)@, id);
            }
        }
        proof {
            lemma_push_fresh_no_dup(self.ids@, id);
        }
        self.ids.push(id);
        proof {
            assert(self.ids@ =~= filter_insert(old(self)@, id, old(self).capacity()));
        }
        false
    }
}

} // verus!
