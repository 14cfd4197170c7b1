//! The transaction relay processor: admission, gossip and peer discipline.
//!
//! One inbound relay message — a transaction identifier plus the cycle cost
//! its sender claims — is turned into exactly one outcome. A transaction
//! already seen is discarded. A novel one is submitted to the transaction
//! pool by the caller; on success with a matching cost it is rebroadcast to
//! a bounded set of peers that do not yet know it, on a cost mismatch or a
//! deterministically invalid transaction the origin peer is banned for a
//! fixed duration, and on a transient rejection nothing further happens.
//!
//! The pool call itself and the delivery of the encoded payload are outside
//! work: the caller submits the transaction between [`TransactionProcess::begin`]
//! and [`TransactionProcess::settle`], and performs the sends and bans that
//! the returned [`Outcome`] commands.

use vstd::prelude::*;

use crate::ids::{PeerId, TxId};
use crate::known_txs::KnownTxs;
use crate::tx_filter::{filter_insert, lemma_filter_insert_marks, TxFilter};
use crate::wire::{encode_relay_transaction, frame_of, MAX_ENCODABLE_BODY_LEN};

verus! {

/// Upper bound on the number of peers one broadcast fans out to.
pub const MAX_RELAY_PEERS: usize = 128;

/// Fixed ban duration for a misbehaving peer: three days, in seconds.
pub const DEFAULT_BAN_TIME_SECS: u64 = 3600 * 24 * 3;

/// The transaction pool's classification of a rejected submission.
#[derive(Clone, Copy, PartialEq, Eq, Structural, Debug)]
pub enum PoolError {
    /// The transaction is malformed independent of node state (bad
    /// signature, malformed script, consensus violation): resubmitting it
    /// can never succeed.
    Invalid,
    /// The transaction cannot currently be admitted because of local state
    /// (a conflicting or missing input): it may succeed later or elsewhere.
    Transient,
}

impl PoolError {
    /// Whether the rejection condemns the transaction itself, rather than
    /// the node's current state.
    pub fn is_bad_tx(&self) -> (bad: bool)
        ensures
            bad == (*self == PoolError::Invalid),
    {
        matches!(self, PoolError::Invalid)
    }
}

/// A one-shot command to the connection layer to ban one peer.
#[derive(Clone, Copy, PartialEq, Eq, Structural, Debug)]
pub struct BanCmd {
    /// The peer to ban.
    pub peer: PeerId,
    /// How long the ban lasts, in seconds.
    pub duration_secs: u64,
}

/// The terminal outcome of processing one relay message.
#[derive(Debug)]
pub enum Outcome {
    /// The transaction was already known: discarded with no further action.
    Deduped,
    /// The pool accepted the transaction and the claimed cost was exact:
    /// deliver `payload` — encoded once — to every peer in `targets`.
    BroadcastAccepted {
        /// The fanout: selected peers, in connection order, none of them
        /// the origin.
        targets: Vec<PeerId>,
        /// The authoritative cycle cost computed by the pool.
        cycles: u64,
        /// The frame holding the transaction body and `cycles`: the same
        /// bytes for every target.
        payload: Vec<u8>,
    },
    /// The pool accepted the transaction but the claimed cost was wrong:
    /// ban the origin peer; nothing is broadcast.
    CostMismatch {
        /// The ban to issue.
        ban: BanCmd,
    },
    /// The pool classified the transaction as invalid: ban the origin peer
    /// and emit an operational alert; nothing is broadcast.
    InvalidRejected {
        /// The ban to issue.
        ban: BanCmd,
        /// The offending transaction, for the alert.
        tx_id: TxId,
    },
    /// The pool rejected the transaction for reasons of local state: no
    /// ban, no broadcast, no alert.
    TransientRejected,
}

/// Whether an outcome commands a ban.
pub open spec fn outcome_bans(outcome: Outcome) -> bool {
    outcome matches Outcome::CostMismatch { .. } || outcome matches Outcome::InvalidRejected {
        ..
    }
}

/// The shared mutable state of the relay core: the process-wide dedup
/// filter and the per-peer knowledge record. Each is locked briefly and
/// independently by the surrounding node; no call here touches both at
/// once, and none holds either across a pool call.
pub struct RelayState {
    /// Identifiers of transactions already handled, shared by all peers.
    pub tx_filter: TxFilter,
    /// Which transactions each peer already knows.
    pub known_txs: KnownTxs,
}

impl RelayState {
    /// Both components well-formed.
    pub open spec fn wf(self) -> bool {
        self.tx_filter.wf() && self.known_txs.wf()
    }

    /// Creates fresh relay state. `filter_capacity` bounds the dedup
    /// filter; `per_peer_capacity` bounds what is remembered of each peer.
    pub fn new(filter_capacity: usize, per_peer_capacity: usize) -> (state: RelayState)
        requires
            filter_capacity >= 1,
            per_peer_capacity >= 1,
        ensures
            state.wf(),
            state.tx_filter@ == Seq::<TxId>::empty(),
            state.tx_filter.capacity() == filter_capacity,
            state.known_txs.per_peer_capacity() == per_peer_capacity,
            forall|p: PeerId| #[trigger] state.known_txs.peer_ids(p) == Seq::<TxId>::empty(),
    {
        RelayState {
            tx_filter: TxFilter::new(filter_capacity),
            known_txs: KnownTxs::new(per_peer_capacity),
        }
    }

    /// Atomic check-and-set on the dedup filter: marks `hash` as known and
    /// reports whether it already was. The per-peer record is untouched.
    pub fn already_known(&mut self, hash: TxId) -> (known: bool)
        requires
            old(self).wf(),
        ensures
            final(self).wf(),
            known == old(self).tx_filter@.contains(hash),
            final(self).tx_filter@ == filter_insert(
                old(self).tx_filter@,
                hash,
                old(self).tx_filter.capacity(),
            ),
            final(self).tx_filter.capacity() == old(self).tx_filter.capacity(),
            final(self).tx_filter@.contains(hash),
            final(self).known_txs == old(self).known_txs,
    {
        proof {
            lemma_filter_insert_marks(self.tx_filter@, hash, self.tx_filter.capacity());
        }
        self.tx_filter.insert(hash)
    }
}

/// One marking step of fanout selection: `p`'s record gains `id`, every
/// other peer's record is untouched.
pub open spec fn fanout_step(
    m: Map<PeerId, Seq<TxId>>,
    per_peer_cap: nat,
    id: TxId,
    p: PeerId,
) -> Map<PeerId, Seq<TxId>> {
    m.insert(p, filter_insert(m[p], id, per_peer_cap))
}

/// Fanout selection over the connected-peer snapshot `peers`, walked in
/// connection order with `budget` selections left. Every examined peer is
/// marked as now knowing `id`; a peer is selected if it did not already
/// know `id` and is not the origin. Selection stops once the budget is
/// spent, leaving later peers unexamined. Returns the selected peers in
/// order and the per-peer record afterwards.
pub open spec fn spec_fanout(
    m: Map<PeerId, Seq<TxId>>,
    per_peer_cap: nat,
    origin: PeerId,
    id: TxId,
    peers: Seq<PeerId>,
    budget: nat,
) -> (Seq<PeerId>, Map<PeerId, Seq<TxId>>)
    decreases peers.len(),
{
    if peers.len() == 0 || budget == 0 {
        (Seq::empty(), m)
    } else {
        let p = peers[0];
        let marked = fanout_step(m, per_peer_cap, id, p);
        if !m[p].contains(id) && p != origin {
            let rest = spec_fanout(
                marked,
                per_peer_cap,
                origin,
                id,
                peers.drop_first(),
                (budget - 1) as nat,
            );
            (seq![p] + rest.0, rest.1)
        } else {
            spec_fanout(marked, per_peer_cap, origin, id, peers.drop_first(), budget)
        }
    }
}

/// Selects the rebroadcast targets for `id` among `connected`, marking
/// every examined peer as now knowing it, and returns them in connection
/// order: at most [`MAX_RELAY_PEERS`] peers, never the origin, none that
/// already knew the transaction.
pub fn select_fanout(
    known: &mut KnownTxs,
    origin: PeerId,
    id: TxId,
    connected: &Vec<PeerId>,
) -> (targets: Vec<PeerId>)
    requires
        old(known).wf(),
    ensures
        final(known).wf(),
        final(known).per_peer_capacity() == old(known).per_peer_capacity(),
        targets@ == spec_fanout(
            old(known).as_map(),
            old(known).per_peer_capacity(),
            origin,
            id,
            connected@,
            MAX_RELAY_PEERS as nat,
        ).0,
        final(known).as_map() == spec_fanout(
            old(known).as_map(),
            old(known).per_peer_capacity(),
            origin,
            id,
            connected@,
            MAX_RELAY_PEERS as nat,
        ).1,
        targets@.len() <= MAX_RELAY_PEERS,
        !targets@.contains(origin),
        targets@.no_duplicates(),
{
    let ghost m0 = known.as_map();
    let ghost ppc = known.per_peer_capacity();
    let ghost full = spec_fanout(m0, ppc, origin, id, connected@, MAX_RELAY_PEERS as nat);
    let mut targets: Vec<PeerId> = Vec::new();
    let mut i: usize = 0;
    proof {
        assert(connected@.skip(0) =~= connected@);
        assert(targets@ + full.0 =~= full.0);
    }
    while i < connected.len() && targets.len() < MAX_RELAY_PEERS
        invariant
            i <= connected@.len(),
            targets@.len() <= MAX_RELAY_PEERS,
            known.wf(),
            known.per_peer_capacity() == ppc,
            full.0 == targets@ + spec_fanout(
                known.as_map(),
                ppc,
                origin,
                id,
                connected@.skip(i as int),
                (MAX_RELAY_PEERS - targets@.len()) as nat,
            ).0,
            full.1 == spec_fanout(
                known.as_map(),
                ppc,
                origin,
                id,
                connected@.skip(i as int),
                (MAX_RELAY_PEERS - targets@.len()) as nat,
            ).1,
        decreases connected@.len() - i,
    {
        let ghost mprev = known.as_map();
        let ghost rem = connected@.skip(i as int);
        let ghost budget = (MAX_RELAY_PEERS - targets@.len()) as nat;
        let p = connected[i];
        let was_known = known.mark_and_check(p, id);
        proof {
            assert(rem[0] == connected@[i as int]);
            assert(rem.drop_first() =~= connected@.skip(i as int + 1));
            assert forall|q: PeerId| #[trigger] known.as_map()[q] == fanout_step(
                mprev,
                ppc,
                id,
                p,
            )[q] by {}
            assert(known.as_map() =~= fanout_step(mprev, ppc, id, p));
            assert(was_known == mprev[p].contains(id));
        }
        if !was_known && p != origin {
            let ghost rest = spec_fanout(
                known.as_map(),
                ppc,
                origin,
                id,
                connected@.skip(i as int + 1),
                (budget - 1) as nat,
            );
            proof {
                assert(spec_fanout(mprev, ppc, origin, id, rem, budget).0 == seq![p] + rest.0);
                assert(spec_fanout(mprev, ppc, origin, id, rem, budget).1 == rest.1);
                assert((targets@ + (seq![p] + rest.0)) =~= (targets@.push(p) + rest.0));
            }
            targets.push(p);
        } else {
            proof {
                assert(spec_fanout(mprev, ppc, origin, id, rem, budget) == spec_fanout(
                    known.as_map(),
                    ppc,
                    origin,
                    id,
                    connected@.skip(i as int + 1),
                    budget,
                ));
            }
        }
        i += 1;
    }
    proof {
        if i == connected@.len() {
            assert(connected@.skip(i as int) =~= Seq::<PeerId>::empty());
        }
        assert(targets@ + Seq::<PeerId>::empty() =~= targets@);
        lemma_fanout_no_self(m0, ppc, origin, id, connected@, MAX_RELAY_PEERS as nat);
        lemma_fanout_no_duplicates(m0, ppc, origin, id, connected@, MAX_RELAY_PEERS as nat);
        lemma_fanout_bounded(m0, ppc, origin, id, connected@, MAX_RELAY_PEERS as nat);
    }
    targets
}

/// One relay message being processed: the identifier and claimed cycle
/// cost of the announced transaction, and the peer that sent it. Decoding
/// of the wire frame happens upstream; a message that reaches this type is
/// well-formed.
pub struct TransactionProcess {
    /// The announced transaction's identifier.
    pub tx_id: TxId,
    /// The cycle cost the origin peer claims, an untrusted input.
    pub claimed_cycles: u64,
    /// The peer the message came from.
    pub peer: PeerId,
}

impl TransactionProcess {
    /// Packages one decoded relay message for processing.
    pub fn new(tx_id: TxId, claimed_cycles: u64, peer: PeerId) -> (process: TransactionProcess)
        ensures
            process == (TransactionProcess { tx_id, claimed_cycles, peer }),
    {
        TransactionProcess { tx_id, claimed_cycles, peer }
    }

    /// First step: the dedup check-and-set. Marks the transaction as seen
    /// and reports whether it is novel. Only on `true` does the caller
    /// submit the transaction to the pool and then call
    /// [`Self::settle`]; on `false` the outcome is [`Outcome::Deduped`] and
    /// nothing else happens — in particular no pool submission.
    pub fn begin(&self, state: &mut RelayState) -> (novel: bool)
        requires
            old(state).wf(),
        ensures
            final(state).wf(),
            novel == !old(state).tx_filter@.contains(self.tx_id),
            final(state).tx_filter@ == filter_insert(
                old(state).tx_filter@,
                self.tx_id,
                old(state).tx_filter.capacity(),
            ),
            final(state).tx_filter.capacity() == old(state).tx_filter.capacity(),
            final(state).tx_filter@.contains(self.tx_id),
            final(state).known_txs == old(state).known_txs,
    {
        !state.already_known(self.tx_id)
    }

    /// Second step: classifies the pool's verdict on the submitted
    /// transaction and resolves the message to its terminal outcome.
    ///
    /// A broadcast is commanded if and only if the pool accepted the
    /// transaction and the computed cost exactly equals the claimed one —
    /// `tx_body` and that cost are then encoded once, and the same frame
    /// is handed back for every selected peer; the body must fit the wire
    /// format's buffer cap (see [`MAX_ENCODABLE_BODY_LEN`]). A ban of the
    /// origin peer is commanded if and only if the cost was
    /// misannounced or the transaction is deterministically invalid; a
    /// transient rejection commands nothing. Only a broadcast touches the
    /// per-peer record, and nothing here touches the dedup filter.
    pub fn settle(
        &self,
        state: &mut RelayState,
        tx_body: &Vec<u8>,
        pool_result: Result<u64, PoolError>,
        connected: &Vec<PeerId>,
    ) -> (outcome: Outcome)
        requires
            old(state).wf(),
            tx_body@.len() < MAX_ENCODABLE_BODY_LEN,
        ensures
            final(state).wf(),
            final(state).tx_filter == old(state).tx_filter,
            final(state).known_txs.per_peer_capacity() == old(
                state,
            ).known_txs.per_peer_capacity(),
            outcome matches Outcome::BroadcastAccepted { .. } <==> pool_result == Ok::<
                u64,
                PoolError,
            >(self.claimed_cycles),
            outcome_bans(outcome) <==> (pool_result is Ok && pool_result != Ok::<u64, PoolError>(
                self.claimed_cycles,
            )) || pool_result == Err::<u64, PoolError>(PoolError::Invalid),
            match outcome {
                Outcome::Deduped => false,
                Outcome::BroadcastAccepted { targets, cycles, payload } => {
                    &&& cycles == self.claimed_cycles
                    &&& pool_result == Ok::<u64, PoolError>(cycles)
                    &&& payload@ == frame_of(tx_body@, cycles)
                    &&& targets@ == spec_fanout(
                        old(state).known_txs.as_map(),
                        old(state).known_txs.per_peer_capacity(),
                        self.peer,
                        self.tx_id,
                        connected@,
                        MAX_RELAY_PEERS as nat,
                    ).0
                    &&& final(state).known_txs.as_map() == spec_fanout(
                        old(state).known_txs.as_map(),
                        old(state).known_txs.per_peer_capacity(),
                        self.peer,
                        self.tx_id,
                        connected@,
                        MAX_RELAY_PEERS as nat,
                    ).1
                    &&& targets@.len() <= MAX_RELAY_PEERS
                    &&& !targets@.contains(self.peer)
                    &&& targets@.no_duplicates()
                },
                Outcome::CostMismatch { ban } => {
                    &&& pool_result is Ok
                    &&& pool_result != Ok::<u64, PoolError>(self.claimed_cycles)
                    &&& ban == (BanCmd { peer: self.peer, duration_secs: DEFAULT_BAN_TIME_SECS })
                    &&& final(state).known_txs == old(state).known_txs
                },
                Outcome::InvalidRejected { ban, tx_id } => {
                    &&& pool_result == Err::<u64, PoolError>(PoolError::Invalid)
                    &&& ban == (BanCmd { peer: self.peer, duration_secs: DEFAULT_BAN_TIME_SECS })
                    &&& tx_id == self.tx_id
                    &&& final(state).known_txs == old(state).known_txs
                },
                Outcome::TransientRejected => {
                    &&& pool_result == Err::<u64, PoolError>(PoolError::Transient)
                    &&& final(state).known_txs == old(state).known_txs
                },
            },
    {
        match pool_result {
            Ok(cycles) => {
                if cycles == self.claimed_cycles {
                    let payload = encode_relay_transaction(tx_body, cycles);
                    let targets = select_fanout(
                        &mut state.known_txs,
                        self.peer,
                        self.tx_id,
                        connected,
                    );
                    Outcome::BroadcastAccepted { targets, cycles, payload }
                } else {
                    Outcome::CostMismatch {
                        ban: BanCmd { peer: self.peer, duration_secs: DEFAULT_BAN_TIME_SECS },
                    }
                }
            },
            Err(err) => {
                if err.is_bad_tx() {
                    Outcome::InvalidRejected {
                        ban: BanCmd { peer: self.peer, duration_secs: DEFAULT_BAN_TIME_SECS },
                        tx_id: self.tx_id,
                    }
                } else {
                    Outcome::TransientRejected
                }
            },
        }
    }
}

/// The dedup filter after `n` relays of the same transaction have gone
/// through the check-and-set, starting from `s`.
pub open spec fn filter_after_relays(s: Seq<TxId>, id: TxId, cap: nat, n: nat) -> Seq<TxId>
    decreases n,
{
    if n == 0 {
        s
    } else {
        filter_insert(filter_after_relays(s, id, cap, (n - 1) as nat), id, cap)
    }
}

/// Idempotence: once a transaction has been admitted, relaying it again —
/// by the same or any other peer, before its entry is evicted — finds it
/// already known, so it is discarded without a second pool submission, and
/// the repeat leaves the filter exactly as it was.
pub proof fn lemma_duplicate_relay_discarded(s: Seq<TxId>, id: TxId, cap: nat)
    ensures
        filter_insert(s, id, cap).contains(id),
        filter_insert(filter_insert(s, id, cap), id, cap) == filter_insert(s, id, cap),
{
    lemma_filter_insert_marks(s, id, cap);
}

/// Serialized concurrency: the dedup filter's check-and-set is performed
/// under mutual exclusion, so `n` concurrent relays of one never-before-
/// seen transaction interleave as `n` successive check-and-sets. Whichever
/// relay runs first finds the transaction fresh and submits it to the
/// pool; every relay that runs after it finds it known and is discarded —
/// exactly one submission, whatever the interleaving.
pub proof fn lemma_concurrent_relays_submit_once(s: Seq<TxId>, id: TxId, cap: nat, n: nat)
    requires
        !s.contains(id),
        n >= 1,
    ensures
        filter_after_relays(s, id, cap, n) == filter_insert(s, id, cap),
        forall|k: nat|
            1 <= k < n ==> #[trigger] filter_after_relays(s, id, cap, k).contains(id),
    decreases n,
{
    lemma_filter_insert_marks(s, id, cap);
    let one = filter_insert(s, id, cap);
    if n == 1 {
        assert(filter_after_relays(s, id, cap, 0) == s);
        assert(filter_after_relays(s, id, cap, 1) == filter_insert(s, id, cap));
    } else {
        lemma_concurrent_relays_submit_once(s, id, cap, (n - 1) as nat);
        assert(filter_after_relays(s, id, cap, n) == filter_insert(one, id, cap));
        assert(one.contains(id));
        assert(filter_insert(one, id, cap) == one);
        assert forall|k: nat|
            1 <= k < n implies #[trigger] filter_after_relays(s, id, cap, k).contains(id) by {
            if k == n - 1 {
                assert(filter_after_relays(s, id, cap, k) == one);
            }
        }
    }
}

/// No self-relay: the fanout for a broadcast triggered by a peer never
/// contains that peer, whatever was known beforehand.
pub proof fn lemma_fanout_no_self(
    m: Map<PeerId, Seq<TxId>>,
    per_peer_cap: nat,
    origin: PeerId,
    id: TxId,
    peers: Seq<PeerId>,
    budget: nat,
)
    ensures
        !spec_fanout(m, per_peer_cap, origin, id, peers, budget).0.contains(origin),
    decreases peers.len(),
{
    if peers.len() == 0 || budget == 0 {
    } else {
        let p = peers[0];
        let marked = fanout_step(m, per_peer_cap, id, p);
        if !m[p].contains(id) && p != origin {
            let rest = spec_fanout(
                marked,
                per_peer_cap,
                origin,
                id,
                peers.drop_first(),
                (budget - 1) as nat,
            );
            lemma_fanout_no_self(marked, per_peer_cap, origin, id, peers.drop_first(), (budget
                - 1) as nat);
            let sel = seq![p] + rest.0;
            assert forall|k: int| 0 <= k < sel.len() implies sel[k] != origin by {
                if k == 0 {
                    assert(sel[0] == p);
                } else {
                    assert(sel[k] == rest.0[k - 1]);
                    assert(rest.0.contains(rest.0[k - 1]));
                }
            }
        } else {
            lemma_fanout_no_self(marked, per_peer_cap, origin, id, peers.drop_first(), budget);
        }
    }
}

/// Fanout bound: a broadcast reaches at most `budget` peers — in
/// particular at most [`MAX_RELAY_PEERS`] when selection starts with the
/// full budget.
pub proof fn lemma_fanout_bounded(
    m: Map<PeerId, Seq<TxId>>,
    per_peer_cap: nat,
    origin: PeerId,
    id: TxId,
    peers: Seq<PeerId>,
    budget: nat,
)
    ensures
        spec_fanout(m, per_peer_cap, origin, id, peers, budget).0.len() <= budget,
    decreases peers.len(),
{
    if peers.len() == 0 || budget == 0 {
    } else {
        let p = peers[0];
        let marked = fanout_step(m, per_peer_cap, id, p);
        if !m[p].contains(id) && p != origin {
            lemma_fanout_bounded(marked, per_peer_cap, origin, id, peers.drop_first(), (budget
                - 1) as nat);
        } else {
            lemma_fanout_bounded(marked, per_peer_cap, origin, id, peers.drop_first(), budget);
        }
    }
}

/// A peer recorded as already knowing the transaction is never selected:
/// each peer is sent a given transaction at most once per "became known"
/// event in its record.
pub proof fn lemma_fanout_skips_known(
    m: Map<PeerId, Seq<TxId>>,
    per_peer_cap: nat,
    origin: PeerId,
    id: TxId,
    peers: Seq<PeerId>,
    budget: nat,
    q: PeerId,
)
    requires
        m[q].contains(id),
    ensures
        !spec_fanout(m, per_peer_cap, origin, id, peers, budget).0.contains(q),
    decreases peers.len(),
{
    if peers.len() == 0 || budget == 0 {
    } else {
        let p = peers[0];
        let marked = fanout_step(m, per_peer_cap, id, p);
        assert(marked[q].contains(id)) by {
            if p == q {
                lemma_filter_insert_marks(m[q], id, per_peer_cap);
            }
        }
        if !m[p].contains(id) && p != origin {
            let rest = spec_fanout(
                marked,
                per_peer_cap,
                origin,
                id,
                peers.drop_first(),
                (budget - 1) as nat,
            );
            lemma_fanout_skips_known(marked, per_peer_cap, origin, id, peers.drop_first(), (budget
                - 1) as nat, q);
            let sel = seq![p] + rest.0;
            assert(p != q);
            assert forall|k: int| 0 <= k < sel.len() implies sel[k] != q by {
                if k == 0 {
                    assert(sel[0] == p);
                } else {
                    assert(sel[k] == rest.0[k - 1]);
                    assert(rest.0.contains(rest.0[k - 1]));
                }
            }
        } else {
            lemma_fanout_skips_known(marked, per_peer_cap, origin, id, peers.drop_first(), budget,
                q);
        }
    }
}

/// The fanout is a set: no peer is selected twice by one broadcast.
pub proof fn lemma_fanout_no_duplicates(
    m: Map<PeerId, Seq<TxId>>,
    per_peer_cap: nat,
    origin: PeerId,
    id: TxId,
    peers: Seq<PeerId>,
    budget: nat,
)
    ensures
        spec_fanout(m, per_peer_cap, origin, id, peers, budget).0.no_duplicates(),
    decreases peers.len(),
{
    if peers.len() == 0 || budget == 0 {
    } else {
        let p = peers[0];
        let marked = fanout_step(m, per_peer_cap, id, p);
        if !m[p].contains(id) && p != origin {
            let rest = spec_fanout(
                marked,
                per_peer_cap,
                origin,
                id,
                peers.drop_first(),
                (budget - 1) as nat,
            );
            lemma_fanout_no_duplicates(marked, per_peer_cap, origin, id, peers.drop_first(), (
            budget - 1) as nat);
            assert(marked[p].contains(id)) by {
                lemma_filter_insert_marks(m[p], id, per_peer_cap);
            }
            lemma_fanout_skips_known(marked, per_peer_cap, origin, id, peers.drop_first(), (budget
                - 1) as nat, p);
            let sel = seq![p] + rest.0;
            assert forall|a: int, b: int|
                0 <= a < sel.len() && 0 <= b < sel.len() && a != b implies sel[a] != sel[b] by {
                if a == 0 {
                    assert(sel[b] == rest.0[b - 1]);
                    assert(rest.0.contains(rest.0[b - 1]));
                } else if b == 0 {
                    assert(sel[a] == rest.0[a - 1]);
                    assert(rest.0.contains(rest.0[a - 1]));
                } else {
                    assert(sel[a] == rest.0[a - 1]);
                    assert(sel[b] == rest.0[b - 1]);
                }
            }
        } else {
            lemma_fanout_no_duplicates(marked, per_peer_cap, origin, id, peers.drop_first(),
                budget);
        }
    }
}

} // verus!
