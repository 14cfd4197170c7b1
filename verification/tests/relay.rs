//! End-to-end tests of the relay processor: the five outcome scenarios,
//! the fanout rules, and the dedup filter's behaviour under repeats.

use tx_relay::relayer::{
    Outcome, PoolError, TransactionProcess, DEFAULT_BAN_TIME_SECS, MAX_RELAY_PEERS,
};
use tx_relay::{PeerId, RelayState, TxId};

fn tx(n: u64) -> TxId {
    TxId::new(n, n ^ 0x5555, n.wrapping_mul(31), n + 1)
}

fn peers(indices: std::ops::Range<u64>) -> Vec<PeerId> {
    indices.map(PeerId::new).collect()
}

fn tx_body() -> Vec<u8> {
    vec![7, 42, 0, 13, 255, 1, 2, 3]
}

#[test]
fn scenario_happy_path_broadcasts_to_all_others() {
    let mut state = RelayState::new(1000, 1000);
    let origin = PeerId::new(0);
    let connected = peers(0..10); // ten connected peers, origin among them
    let proc_ = TransactionProcess::new(tx(1), 500, origin);

    assert!(proc_.begin(&mut state));
    let outcome = proc_.settle(&mut state, &tx_body(), Ok(500), &connected);
    match outcome {
        Outcome::BroadcastAccepted { targets, cycles, payload } => {
            assert_eq!(cycles, 500);
            // nine peers considered eligible, all selected (9 <= cap)
            assert_eq!(targets, peers(1..10));
            // the payload is a frame around the body, not the raw body
            assert!(!payload.is_empty());
            assert_ne!(payload, tx_body());
        }
        other => panic!("expected a broadcast, got {:?}", other),
    }
}

#[test]
fn broadcast_payload_is_reproducible() {
    // equal body and cost give byte-identical frames, as interoperability
    // of the wire encoding requires
    let mut first_state = RelayState::new(16, 16);
    let mut second_state = RelayState::new(16, 16);
    let connected = peers(0..3);
    let process = TransactionProcess::new(tx(20), 500, PeerId::new(0));
    let first = process.settle(&mut first_state, &tx_body(), Ok(500), &connected);
    let second = process.settle(&mut second_state, &tx_body(), Ok(500), &connected);
    match (first, second) {
        (
            Outcome::BroadcastAccepted { payload: a, .. },
            Outcome::BroadcastAccepted { payload: b, .. },
        ) => assert_eq!(a, b),
        other => panic!("expected two broadcasts, got {:?}", other),
    }
}

#[test]
fn scenario_duplicate_is_discarded_without_submission() {
    let mut state = RelayState::new(1000, 1000);
    let first = TransactionProcess::new(tx(2), 500, PeerId::new(1));
    assert!(first.begin(&mut state));
    // the same transaction again, from another peer: no pool call is owed
    let second = TransactionProcess::new(tx(2), 500, PeerId::new(2));
    assert!(!second.begin(&mut state));
}

#[test]
fn scenario_cost_mismatch_bans_origin_without_broadcast() {
    let mut state = RelayState::new(1000, 1000);
    let origin = PeerId::new(3);
    let connected = peers(0..10);
    let proc_ = TransactionProcess::new(tx(3), 600, origin);

    assert!(proc_.begin(&mut state));
    let outcome = proc_.settle(&mut state, &tx_body(), Ok(500), &connected);
    match outcome {
        Outcome::CostMismatch { ban } => {
            assert_eq!(ban.peer, origin);
            assert_eq!(ban.duration_secs, DEFAULT_BAN_TIME_SECS);
        }
        other => panic!("expected a cost-mismatch ban, got {:?}", other),
    }
}

#[test]
fn scenario_invalid_bans_origin_with_alert_data() {
    let mut state = RelayState::new(1000, 1000);
    let origin = PeerId::new(4);
    let connected = peers(0..10);
    let proc_ = TransactionProcess::new(tx(4), 500, origin);

    assert!(proc_.begin(&mut state));
    let outcome = proc_.settle(&mut state, &tx_body(), Err(PoolError::Invalid), &connected);
    match outcome {
        Outcome::InvalidRejected { ban, tx_id } => {
            assert_eq!(ban.peer, origin);
            assert_eq!(ban.duration_secs, DEFAULT_BAN_TIME_SECS);
            assert_eq!(tx_id, tx(4));
        }
        other => panic!("expected an invalid-rejection ban, got {:?}", other),
    }
}

#[test]
fn scenario_transient_rejection_is_penalty_free() {
    let mut state = RelayState::new(1000, 1000);
    let proc_ = TransactionProcess::new(tx(5), 500, PeerId::new(5));

    assert!(proc_.begin(&mut state));
    let outcome = proc_.settle(&mut state, &tx_body(), Err(PoolError::Transient), &peers(0..10));
    assert!(matches!(outcome, Outcome::TransientRejected));
}

#[test]
fn cost_match_gate_is_exact() {
    // claimed 1000, computed 1000: broadcast
    let mut state = RelayState::new(1000, 1000);
    let origin = PeerId::new(0);
    let exact = TransactionProcess::new(tx(6), 1000, origin);
    assert!(exact.begin(&mut state));
    let outcome = exact.settle(&mut state, &tx_body(), Ok(1000), &peers(0..4));
    assert!(matches!(outcome, Outcome::BroadcastAccepted { .. }));

    // claimed 999, computed 1000: ban, no broadcast
    let off_by_one = TransactionProcess::new(tx(7), 999, origin);
    assert!(off_by_one.begin(&mut state));
    let outcome = off_by_one.settle(&mut state, &tx_body(), Ok(1000), &peers(0..4));
    match outcome {
        Outcome::CostMismatch { ban } => assert_eq!(ban.peer, origin),
        other => panic!("expected a cost-mismatch ban, got {:?}", other),
    }
}

#[test]
fn fanout_never_contains_origin() {
    let mut state = RelayState::new(1000, 1000);
    let origin = PeerId::new(5); // in the middle of the snapshot
    let proc_ = TransactionProcess::new(tx(8), 100, origin);
    assert!(proc_.begin(&mut state));
    let outcome = proc_.settle(&mut state, &tx_body(), Ok(100), &peers(0..10));
    match outcome {
        Outcome::BroadcastAccepted { targets, .. } => {
            assert!(!targets.contains(&origin));
            assert_eq!(targets.len(), 9);
        }
        other => panic!("expected a broadcast, got {:?}", other),
    }
}

#[test]
fn fanout_is_capped_at_max_relay_peers() {
    let mut state = RelayState::new(1000, 1000);
    let origin = PeerId::new(0);
    let connected = peers(0..200); // more eligible peers than the cap
    let proc_ = TransactionProcess::new(tx(9), 100, origin);
    assert!(proc_.begin(&mut state));
    let outcome = proc_.settle(&mut state, &tx_body(), Ok(100), &connected);
    match outcome {
        Outcome::BroadcastAccepted { targets, .. } => {
            assert_eq!(targets.len(), MAX_RELAY_PEERS);
            // the first eligible peers in connection order are taken
            assert_eq!(targets, peers(1..(MAX_RELAY_PEERS as u64 + 1)));
        }
        other => panic!("expected a broadcast, got {:?}", other),
    }
}

#[test]
fn fanout_skips_peers_that_already_know() {
    let mut state = RelayState::new(1000, 1000);
    let origin = PeerId::new(0);
    let aware = PeerId::new(2); // this peer announced the transaction too
    assert!(!state.known_txs.mark_and_check(aware, tx(10)));
    let proc_ = TransactionProcess::new(tx(10), 100, origin);
    assert!(proc_.begin(&mut state));
    let outcome = proc_.settle(&mut state, &tx_body(), Ok(100), &peers(0..5));
    match outcome {
        Outcome::BroadcastAccepted { targets, .. } => {
            assert_eq!(targets, vec![PeerId::new(1), PeerId::new(3), PeerId::new(4)]);
        }
        other => panic!("expected a broadcast, got {:?}", other),
    }
}

#[test]
fn broadcast_marks_targets_so_none_is_sent_twice() {
    let mut state = RelayState::new(1000, 1000);
    let connected = peers(0..6);
    let first = TransactionProcess::new(tx(11), 100, PeerId::new(0));
    assert!(first.begin(&mut state));
    match first.settle(&mut state, &tx_body(), Ok(100), &connected) {
        Outcome::BroadcastAccepted { targets, .. } => assert_eq!(targets.len(), 5),
        other => panic!("expected a broadcast, got {:?}", other),
    }
    // every connected peer now knows the transaction: a second broadcast
    // of it (the origin included this time) selects nobody
    let second = TransactionProcess::new(tx(11), 100, PeerId::new(1));
    match second.settle(&mut state, &tx_body(), Ok(100), &connected) {
        Outcome::BroadcastAccepted { targets, .. } => assert!(targets.is_empty()),
        other => panic!("expected a broadcast, got {:?}", other),
    }
}

#[test]
fn interleaved_relays_of_one_transaction_submit_once() {
    let mut state = RelayState::new(1000, 1000);
    let mut submissions = 0;
    for origin in 0..5u64 {
        let proc_ = TransactionProcess::new(tx(12), 100, PeerId::new(origin));
        if proc_.begin(&mut state) {
            submissions += 1;
        }
    }
    assert_eq!(submissions, 1);
}

#[test]
fn dedup_filter_evicts_oldest_when_full() {
    let mut filter = tx_relay::TxFilter::new(2);
    assert!(!filter.insert(tx(1)));
    assert!(!filter.insert(tx(2)));
    assert!(filter.contains(&tx(1)));
    // a third identifier evicts the oldest
    assert!(!filter.insert(tx(3)));
    assert!(!filter.contains(&tx(1)));
    assert!(filter.contains(&tx(2)));
    assert!(filter.contains(&tx(3)));
    // the evicted identifier counts as novel again
    assert!(!filter.insert(tx(1)));
}

#[test]
fn dedup_filter_reports_repeats() {
    let mut filter = tx_relay::TxFilter::new(8);
    assert!(!filter.insert(tx(1)));
    assert!(filter.insert(tx(1)));
    assert!(filter.insert(tx(1)));
}

#[test]
fn peer_knowledge_is_per_peer_and_dropped_on_disconnect() {
    let mut known = tx_relay::KnownTxs::new(16);
    let (a, b) = (PeerId::new(1), PeerId::new(2));
    assert!(!known.mark_and_check(a, tx(1)));
    assert!(known.mark_and_check(a, tx(1)));
    // another peer's record is independent
    assert!(!known.mark_and_check(b, tx(1)));
    // disconnecting a peer forgets its record and nobody else's
    known.remove_peer(a);
    assert!(!known.mark_and_check(a, tx(1)));
    assert!(known.mark_and_check(b, tx(1)));
}

#[test]
fn peer_knowledge_is_bounded_per_peer() {
    let mut known = tx_relay::KnownTxs::new(1);
    let p = PeerId::new(1);
    assert!(!known.mark_and_check(p, tx(1)));
    // a second identifier evicts the first from this peer's record
    assert!(!known.mark_and_check(p, tx(2)));
    assert!(!known.mark_and_check(p, tx(1)));
}

#[test]
fn ban_policy_constants() {
    assert_eq!(DEFAULT_BAN_TIME_SECS, 259_200);
    assert_eq!(MAX_RELAY_PEERS, 128);
}
