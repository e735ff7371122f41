use perp_backend::liquidation::{
    classify_revert, decide, describe_unknown_revert, try_decide, CheckOutcome,
    ConcurrencyGovernor, Decision, ExecutionMode, LiquidationRound, RevertReason,
    MAX_CONCURRENT_RPC_CALLS,
};
use perp_backend::nonce::{NonceSequencer, NONCE_RESYNC_INTERVAL_SECS};
use perp_backend::tracker::{ActivePositionTracker, PositionEvent};

fn id(tag: u8) -> [u8; 32] {
    [tag; 32]
}

#[test]
fn allocated_nonces_are_contiguous_and_rising() {
    let mut s = NonceSequencer::new(41);
    let nonces: Vec<u64> = (0..6).map(|_| s.allocate()).collect();
    assert_eq!(nonces, vec![41, 42, 43, 44, 45, 46]);
    assert_eq!(s.peek(), 47);
}

#[test]
fn a_reconciled_sequencer_issues_the_chain_count() {
    let mut s = NonceSequencer::new(10);
    s.allocate();
    s.allocate();
    assert_eq!(s.reconcile(7), Some(12));
    assert_eq!(s.allocate(), 7);
    assert_eq!(s.reconcile(8), None);
    assert_eq!(s.allocate(), 8);
    assert_eq!(s.reconcile(100), Some(9));
    assert_eq!(s.peek(), 100);
    assert_eq!(NONCE_RESYNC_INTERVAL_SECS, 60);
}

#[test]
fn a_sequencer_at_the_end_of_its_range_hands_out_nothing() {
    let mut s = NonceSequencer::new(u64::MAX - 1);
    assert!(s.can_allocate());
    assert_eq!(s.try_allocate(), Some(u64::MAX - 1));
    assert!(!s.can_allocate());
    assert_eq!(s.try_allocate(), None);
    assert_eq!(s.peek(), u64::MAX);
}

#[test]
fn the_policy_is_chosen_by_the_network() {
    let local = ConcurrencyGovernor::new(true);
    assert_eq!(local.mode(), ExecutionMode::Sequential);
    assert_eq!(local.max_in_flight(), 1);
    assert!(!local.uses_nonce_sequencer());
    let public = ConcurrencyGovernor::new(false);
    assert_eq!(public.mode(), ExecutionMode::Concurrent);
    assert_eq!(public.max_in_flight(), 5);
    assert_eq!(MAX_CONCURRENT_RPC_CALLS, 5);
    assert!(public.uses_nonce_sequencer());
}

#[test]
fn only_an_insolvent_position_is_liquidated() {
    let public = ConcurrencyGovernor::new(false);
    let local = ConcurrencyGovernor::new(true);
    let mut s = NonceSequencer::new(3);
    assert_eq!(decide(&public, &mut s, CheckOutcome::Solvent), Decision::Skip);
    assert_eq!(decide(&public, &mut s, CheckOutcome::Failed), Decision::Skip);
    assert_eq!(s.peek(), 3);
    assert_eq!(decide(&public, &mut s, CheckOutcome::Insolvent), Decision::Submit { nonce: Some(3) });
    assert_eq!(decide(&public, &mut s, CheckOutcome::Insolvent), Decision::Submit { nonce: Some(4) });
    assert_eq!(decide(&local, &mut s, CheckOutcome::Insolvent), Decision::Submit { nonce: None });
    assert_eq!(decide(&local, &mut s, CheckOutcome::Solvent), Decision::Skip);
    assert_eq!(s.peek(), 5);
}

#[test]
fn nothing_is_decided_where_a_nonce_is_needed_and_none_is_left() {
    let public = ConcurrencyGovernor::new(false);
    let local = ConcurrencyGovernor::new(true);
    let mut s = NonceSequencer::new(u64::MAX);
    assert_eq!(try_decide(&public, &mut s, CheckOutcome::Insolvent), None);
    assert_eq!(try_decide(&public, &mut s, CheckOutcome::Solvent), Some(Decision::Skip));
    assert_eq!(
        try_decide(&local, &mut s, CheckOutcome::Insolvent),
        Some(Decision::Submit { nonce: None })
    );
    let mut s = NonceSequencer::new(1);
    assert_eq!(
        try_decide(&public, &mut s, CheckOutcome::Insolvent),
        Some(Decision::Submit { nonce: Some(1) })
    );
}

#[test]
fn the_tracker_follows_live_events() {
    let mut t = ActivePositionTracker::new();
    assert!(t.is_empty());
    t.apply(&PositionEvent::Opened { position_id: id(1), user: [0xa1; 20] });
    t.apply(&PositionEvent::Opened { position_id: id(2), user: [0xa2; 20] });
    t.apply(&PositionEvent::Other);
    assert_eq!(t.len(), 2);
    assert_eq!(t.owner_of(&id(1)), Some([0xa1; 20]));
    assert_eq!(t.snapshot(), vec![id(1), id(2)]);
    t.apply(&PositionEvent::Opened { position_id: id(1), user: [0xa3; 20] });
    assert_eq!(t.len(), 2);
    assert_eq!(t.owner_of(&id(1)), Some([0xa3; 20]));
    t.apply(&PositionEvent::Closed { position_id: id(1) });
    t.apply(&PositionEvent::Closed { position_id: id(1) });
    assert!(!t.contains(&id(1)));
    assert!(t.contains(&id(2)));
    t.apply(&PositionEvent::Liquidated { position_id: id(2) });
    t.apply(&PositionEvent::Liquidated { position_id: id(9) });
    assert!(t.is_empty());
    assert_eq!(t.snapshot(), Vec::<[u8; 32]>::new());
    assert_eq!(t.owner_of(&id(2)), None);
}

#[test]
fn no_more_than_the_limit_are_in_flight() {
    for limit in 0..8usize {
        for total in 0..12u8 {
            let snapshot: Vec<[u8; 32]> = (0..total).map(id).collect();
            let mut round = LiquidationRound::with_limit(snapshot.clone(), limit);
            let mut started = Vec::new();
            let mut step = 0usize;
            while !round.is_finished() && step < 200 {
                while let Some(next) = round.start_next() {
                    started.push(next);
                    assert!(round.in_flight() <= limit);
                }
                if step % 3 != 0 {
                    round.finish_one();
                }
                assert!(round.in_flight() <= limit);
                step += 1;
            }
            if limit > 0 {
                assert!(round.is_finished());
                assert_eq!(started, snapshot);
            } else {
                assert!(started.is_empty());
            }
        }
    }
}

#[test]
fn a_concurrent_round_admits_five_and_a_sequential_round_one() {
    let snapshot: Vec<[u8; 32]> = (0..7).map(id).collect();
    let mut round = LiquidationRound::begin(snapshot.clone(), &ConcurrencyGovernor::new(false));
    for tag in 0..5 {
        assert_eq!(round.start_next(), Some(id(tag)));
    }
    assert_eq!(round.start_next(), None);
    assert_eq!(round.in_flight(), 5);
    assert!(round.finish_one());
    assert_eq!(round.start_next(), Some(id(5)));
    assert_eq!(round.start_next(), None);

    let mut round = LiquidationRound::begin(snapshot, &ConcurrencyGovernor::new(true));
    assert_eq!(round.start_next(), Some(id(0)));
    assert_eq!(round.start_next(), None);
    assert!(round.finish_one());
    assert!(!round.finish_one());
    assert_eq!(round.start_next(), Some(id(1)));
    assert!(!round.is_finished());
}

#[test]
fn a_round_over_nothing_is_finished() {
    let mut round = LiquidationRound::begin(Vec::new(), &ConcurrencyGovernor::new(false));
    assert!(round.is_finished());
    assert_eq!(round.start_next(), None);
    assert!(!round.finish_one());
}

#[test]
fn only_the_insolvent_position_gets_a_transaction_and_both_stay_tracked() {
    let governor = ConcurrencyGovernor::new(false);
    let mut sequencer = NonceSequencer::new(0);
    let mut tracker = ActivePositionTracker::new();
    tracker.apply(&PositionEvent::Opened { position_id: id(1), user: [0x01; 20] });
    tracker.apply(&PositionEvent::Opened { position_id: id(2), user: [0x02; 20] });

    let mut round = LiquidationRound::begin(tracker.snapshot(), &governor);
    let mut submitted = Vec::new();
    while let Some(position) = round.start_next() {
        let outcome = if position == id(1) { CheckOutcome::Insolvent } else { CheckOutcome::Solvent };
        if let Decision::Submit { nonce } = decide(&governor, &mut sequencer, outcome) {
            submitted.push((position, nonce));
        }
    }
    while round.finish_one() {}
    assert!(round.is_finished());
    assert_eq!(submitted, vec![(id(1), Some(0))]);
    assert!(tracker.contains(&id(1)));
    assert!(tracker.contains(&id(2)));
    assert_eq!(tracker.owner_of(&id(2)), Some([0x02; 20]));
}

#[test]
fn a_revert_is_named_by_the_first_shape_that_fits() {
    assert_eq!(classify_revert(true, true, true), RevertReason::PositionNotLiquidatable);
    assert_eq!(classify_revert(true, false, false), RevertReason::PositionNotLiquidatable);
    assert_eq!(classify_revert(false, true, true), RevertReason::PositionNotFound);
    assert_eq!(classify_revert(false, false, true), RevertReason::NotPositionOwner);
    assert_eq!(classify_revert(false, false, false), RevertReason::Unknown);
}

#[test]
fn an_unknown_revert_is_reported_as_opaque_data() {
    assert_eq!(describe_unknown_revert(&[0xde, 0xad, 0x01]), "Unknown Custom Revert: 0xdead01");
    assert_eq!(describe_unknown_revert(&[]), "Unknown Custom Revert: 0x");
}
