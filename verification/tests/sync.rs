use perp_backend::sync::{ChainSyncController, EventKind, LiveSubscriptions, SyncStep};

#[test]
fn a_replay_from_the_head_is_one_range_of_one_block() {
    let mut c = ChainSyncController::new(100, 100);
    assert!(!c.is_live());
    assert_eq!(c.next_step(), SyncStep::QueryChunk { from_block: 100, to_block: 100 });
    assert_eq!(c.chunk_applied(), 500);
    assert_eq!(c.next_step(), SyncStep::Subscribe { from_block: 101 });
    assert!(c.subscribed());
    assert!(c.is_live());
    assert_eq!(c.next_step(), SyncStep::Follow);
}

#[test]
fn a_long_replay_is_cut_into_ranges_of_two_thousand_blocks() {
    let mut c = ChainSyncController::new(0, 4500);
    let mut ranges = Vec::new();
    while let SyncStep::QueryChunk { from_block, to_block } = c.next_step() {
        ranges.push((from_block, to_block));
        c.chunk_applied();
    }
    assert_eq!(ranges, vec![(0, 1999), (2000, 3999), (4000, 4500)]);
    assert_eq!(c.next_step(), SyncStep::Subscribe { from_block: 4501 });
}

#[test]
fn a_range_ends_at_the_head_when_exactly_two_thousand_blocks_are_left() {
    let mut c = ChainSyncController::new(1, 2000);
    assert_eq!(c.next_step(), SyncStep::QueryChunk { from_block: 1, to_block: 2000 });
    c.chunk_applied();
    assert_eq!(c.next_step(), SyncStep::Subscribe { from_block: 2001 });
    let mut c = ChainSyncController::new(1, 2001);
    assert_eq!(c.next_step(), SyncStep::QueryChunk { from_block: 1, to_block: 2000 });
    c.chunk_applied();
    assert_eq!(c.next_step(), SyncStep::QueryChunk { from_block: 2001, to_block: 2001 });
}

#[test]
fn a_start_behind_the_head_goes_live_at_once() {
    let mut c = ChainSyncController::new(200, 100);
    assert_eq!(c.next_step(), SyncStep::Subscribe { from_block: 101 });
    c.chunk_applied();
    assert_eq!(c.next_step(), SyncStep::Subscribe { from_block: 101 });
    assert!(c.subscribed());
}

#[test]
fn the_controller_does_not_go_live_before_the_replay_is_done() {
    let mut c = ChainSyncController::new(0, 3000);
    assert!(!c.subscribed());
    assert!(!c.is_live());
    c.chunk_applied();
    assert!(!c.subscribed());
    c.chunk_applied();
    assert!(c.subscribed());
}

#[test]
fn a_live_controller_stays_live() {
    let mut c = ChainSyncController::new(5, 5);
    c.chunk_applied();
    c.subscribed();
    c.chunk_applied();
    assert!(c.is_live());
    assert!(c.subscribed());
    assert_eq!(c.next_step(), SyncStep::Follow);
}

#[test]
fn the_replay_does_not_overflow_near_the_end_of_the_range() {
    let head = u64::MAX - 1;
    let mut c = ChainSyncController::new(head - 2500, head);
    assert_eq!(
        c.next_step(),
        SyncStep::QueryChunk { from_block: head - 2500, to_block: head - 501 }
    );
    c.chunk_applied();
    assert_eq!(c.next_step(), SyncStep::QueryChunk { from_block: head - 500, to_block: head });
    c.chunk_applied();
    assert_eq!(c.next_step(), SyncStep::Subscribe { from_block: u64::MAX });
}

#[test]
fn a_subscription_that_failed_is_followed_no_more() {
    let all = [
        EventKind::PositionOpened,
        EventKind::PositionClosed,
        EventKind::PositionLiquidated,
        EventKind::NoteCreated,
        EventKind::NoteClaimed,
        EventKind::PublicPositionOpened,
    ];
    let mut live = LiveSubscriptions::new();
    assert!(all.iter().all(|k| live.is_followed(*k)));
    live.ended(EventKind::NoteCreated);
    live.ended(EventKind::NoteCreated);
    assert!(!live.is_followed(EventKind::NoteCreated));
    assert_eq!(all.iter().filter(|k| live.is_followed(**k)).count(), 5);
    assert!(live.any_followed());
    for kind in all {
        live.ended(kind);
    }
    assert!(!live.any_followed());
}
