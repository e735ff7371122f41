//! The controller of the synchronization: history is replayed from a
//! start block to the head in bounded block ranges, and only then are
//! the live subscriptions opened, at the block after the head.

use vstd::prelude::*;
use crate::indexer::{BLOCK_CHUNK_SIZE, DELAY_BETWEEN_CHUNKS_MS};

verus! {

/// The two phases of the synchronization; there is no way back from the
/// second to the first.
#[derive(Clone, Copy, Debug, PartialEq, Eq, Structural)]
pub enum SyncPhase {
    Backfilling,
    LiveSyncing,
}

/// What the controller asks for next.
#[derive(Clone, Copy, Debug, PartialEq, Eq, Structural)]
pub enum SyncStep {
    /// Query every event type over the blocks `from_block..=to_block`.
    QueryChunk { from_block: u64, to_block: u64 },
    /// Open one subscription per event type, starting at `from_block`.
    Subscribe { from_block: u64 },
    /// The subscriptions are open; events are dispatched as they come.
    Follow,
}

/// The last block of the range that starts at `cursor`: at most
/// `BLOCK_CHUNK_SIZE` blocks, and none behind the head.
pub open spec fn chunk_end(cursor: int, head: int) -> int {
    if cursor + BLOCK_CHUNK_SIZE - 1 < head {
        cursor + BLOCK_CHUNK_SIZE - 1
    } else {
        head
    }
}

/// The block ranges that are still to be replayed, in order, when the
/// next block to replay is `cursor`.
pub open spec fn backfill_plan(cursor: int, head: int) -> Seq<(int, int)>
    decreases head - cursor + 1,
{
    if cursor > head {
        Seq::empty()
    } else {
        seq![(cursor, chunk_end(cursor, head))] + backfill_plan(chunk_end(cursor, head) + 1, head)
    }
}

/// The ranges of a plan are not empty, hold at most `BLOCK_CHUNK_SIZE`
/// blocks each, follow one another without gap or overlap in rising
/// order, start at the cursor and end at the head.
pub proof fn lemma_backfill_plan_covers(cursor: int, head: int)
    requires
        cursor <= head,
    ensures
        backfill_plan(cursor, head).len() >= 1,
        backfill_plan(cursor, head)[0].0 == cursor,
        backfill_plan(cursor, head).last().1 == head,
        forall|i: int|
            0 <= i < backfill_plan(cursor, head).len() ==> {
                let range = #[trigger] backfill_plan(cursor, head)[i];
                range.0 <= range.1 < range.0 + BLOCK_CHUNK_SIZE
            },
        forall|i: int|
            0 <= i < backfill_plan(cursor, head).len() - 1 ==> (#[trigger] backfill_plan(
                cursor,
                head,
            )[i]).1 + 1 == backfill_plan(cursor, head)[i + 1].0,
    decreases head - cursor,
{
    let plan = backfill_plan(cursor, head);
    let end = chunk_end(cursor, head);
    let rest = backfill_plan(end + 1, head);
    assert(plan == seq![(cursor, end)] + rest);
    if end < head {
        lemma_backfill_plan_covers(end + 1, head);
        assert forall|i: int| 0 <= i < plan.len() implies {
            let range = #[trigger] plan[i];
            range.0 <= range.1 < range.0 + BLOCK_CHUNK_SIZE
        } by {
            if i > 0 {
                assert(plan[i] == rest[i - 1]);
            }
        }
        assert forall|i: int| 0 <= i < plan.len() - 1 implies (#[trigger] plan[i]).1 + 1 == plan[i
            + 1].0 by {
            assert(plan[i + 1] == rest[i]);
            if i > 0 {
                assert(plan[i] == rest[i - 1]);
            }
        }
        assert(plan.last() == rest.last());
    } else {
        assert(rest =~= Seq::empty());
        assert(plan =~= seq![(cursor, end)]);
    }
}

/// Drives the replay of history and the hand-over to live events.
pub struct ChainSyncController {
    head: u64,
    cursor: u64,
    phase: SyncPhase,
}

impl ChainSyncController {
    #[verifier::type_invariant]
    spec fn head_has_a_successor(&self) -> bool {
        self.head < u64::MAX
    }

    /// The head block, read once before the replay began.
    pub closed spec fn head(&self) -> int {
        self.head as int
    }

    /// The next block to replay.
    pub closed spec fn cursor(&self) -> int {
        self.cursor as int
    }

    /// The phase.
    pub closed spec fn phase(&self) -> SyncPhase {
        self.phase
    }

    /// Whether a block range is left to replay.
    pub open spec fn asks_for_chunk(&self) -> bool {
        self.phase() is Backfilling && self.cursor() <= self.head()
    }

    /// The block ranges that are still to be replayed.
    pub open spec fn pending(&self) -> Seq<(int, int)> {
        backfill_plan(self.cursor(), self.head())
    }

    /// The step that the controller asks for in a given state.
    pub open spec fn step_in(cursor: int, head: int, phase: SyncPhase) -> SyncStep {
        if phase is LiveSyncing {
            SyncStep::Follow
        } else if cursor <= head {
            SyncStep::QueryChunk { from_block: cursor as u64, to_block: chunk_end(cursor, head) as u64 }
        } else {
            SyncStep::Subscribe { from_block: (head + 1) as u64 }
        }
    }

    /// A controller that replays `start_block..=head` and then goes
    /// live at `head + 1`.
    pub fn new(start_block: u64, head: u64) -> (c: Self)
        requires
            head < u64::MAX,
        ensures
            c.head() == head,
            c.cursor() == start_block,
            c.phase() is Backfilling,
    {
        ChainSyncController { head, cursor: start_block, phase: SyncPhase::Backfilling }
    }

    /// Whether the subscriptions are open.
    pub fn is_live(&self) -> (live: bool)
        ensures
            live == (self.phase() is LiveSyncing),
    {
        match self.phase {
            SyncPhase::LiveSyncing => true,
            SyncPhase::Backfilling => false,
        }
    }

    /// What to do next: while blocks are left to replay, query the next
    /// range; when none is left, subscribe at the block after the head;
    /// once live, follow the subscriptions.
    pub fn next_step(&self) -> (step: SyncStep)
        ensures
            step == Self::step_in(self.cursor(), self.head(), self.phase()),
            step matches SyncStep::QueryChunk { from_block, to_block } ==> {
                &&& self.pending().len() >= 1
                &&& self.pending()[0] == (from_block as int, to_block as int)
            },
            step is Subscribe ==> self.pending().len() == 0,
    {
        proof {
            use_type_invariant(self);
        }
        match self.phase {
            SyncPhase::LiveSyncing => SyncStep::Follow,
            SyncPhase::Backfilling => {
                if self.cursor <= self.head {
                    let to_block = if self.head - self.cursor > BLOCK_CHUNK_SIZE - 1 {
                        self.cursor + (BLOCK_CHUNK_SIZE - 1)
                    } else {
                        self.head
                    };
                    SyncStep::QueryChunk { from_block: self.cursor, to_block }
                } else {
                    SyncStep::Subscribe { from_block: self.head + 1 }
                }
            },
        }
    }

    /// Notes that the range asked for was queried and wholly applied:
    /// the cursor moves to the block behind it. Returns the pause to
    /// make before the next query, in milliseconds. Where no range was
    /// asked for, nothing moves.
    pub fn chunk_applied(&mut self) -> (pause_ms: u64)
        ensures
            pause_ms == DELAY_BETWEEN_CHUNKS_MS,
            final(self).head() == old(self).head(),
            final(self).phase() == old(self).phase(),
            final(self).cursor() == if old(self).asks_for_chunk() {
                chunk_end(old(self).cursor(), old(self).head()) + 1
            } else {
                old(self).cursor()
            },
            old(self).asks_for_chunk() ==> final(self).pending() == old(self).pending().drop_first(),
    {
        proof {
            use_type_invariant(&*self);
        }
        match self.phase {
            SyncPhase::LiveSyncing => {},
            SyncPhase::Backfilling => {
                if self.cursor <= self.head {
                    let to_block = if self.head - self.cursor > BLOCK_CHUNK_SIZE - 1 {
                        self.cursor + (BLOCK_CHUNK_SIZE - 1)
                    } else {
                        self.head
                    };
                    let ghost before = self.pending();
                    self.cursor = to_block + 1;
                    assert(self.pending() =~= before.drop_first());
                }
            },
        }
        DELAY_BETWEEN_CHUNKS_MS
    }

    /// Notes that the subscriptions were opened. The phase changes only
    /// when no block is left to replay; it returns whether the
    /// controller is live now.
    pub fn subscribed(&mut self) -> (live: bool)
        ensures
            final(self).head() == old(self).head(),
            final(self).cursor() == old(self).cursor(),
            live == (final(self).phase() is LiveSyncing),
            live == (old(self).phase() is LiveSyncing || old(self).cursor() > old(self).head()),
    {
        match self.phase {
            SyncPhase::LiveSyncing => true,
            SyncPhase::Backfilling => {
                if self.cursor > self.head {
                    self.phase = SyncPhase::LiveSyncing;
                    true
                } else {
                    false
                }
            },
        }
    }
}

/// The event types that the indexing process subscribes to.
#[derive(Clone, Copy, Debug, PartialEq, Eq, Structural)]
pub enum EventKind {
    PositionOpened,
    PositionClosed,
    PositionLiquidated,
    NoteCreated,
    NoteClaimed,
    PublicPositionOpened,
}

/// Which live subscriptions are still followed. A subscription that
/// reported a transport error is followed no more, and nothing opens it
/// again.
#[derive(Clone, Copy, Debug, PartialEq, Eq, Structural)]
pub struct LiveSubscriptions {
    position_opened: bool,
    position_closed: bool,
    position_liquidated: bool,
    note_created: bool,
    note_claimed: bool,
    public_position_opened: bool,
}

impl LiveSubscriptions {
    /// Whether the subscription of `kind` is followed.
    pub closed spec fn follows(&self, kind: EventKind) -> bool {
        match kind {
            EventKind::PositionOpened => self.position_opened,
            EventKind::PositionClosed => self.position_closed,
            EventKind::PositionLiquidated => self.position_liquidated,
            EventKind::NoteCreated => self.note_created,
            EventKind::NoteClaimed => self.note_claimed,
            EventKind::PublicPositionOpened => self.public_position_opened,
        }
    }

    /// All six subscriptions, just opened.
    pub fn new() -> (subscriptions: Self)
        ensures
            forall|kind: EventKind| subscriptions.follows(kind),
    {
        LiveSubscriptions {
            position_opened: true,
            position_closed: true,
            position_liquidated: true,
            note_created: true,
            note_claimed: true,
            public_position_opened: true,
        }
    }

    /// Whether the subscription of `kind` is followed.
    pub fn is_followed(&self, kind: EventKind) -> (b: bool)
        ensures
            b == self.follows(kind),
    {
        match kind {
            EventKind::PositionOpened => self.position_opened,
            EventKind::PositionClosed => self.position_closed,
            EventKind::PositionLiquidated => self.position_liquidated,
            EventKind::NoteCreated => self.note_created,
            EventKind::NoteClaimed => self.note_claimed,
            EventKind::PublicPositionOpened => self.public_position_opened,
        }
    }

    /// Whether any subscription is followed.
    pub fn any_followed(&self) -> (b: bool)
        ensures
            b == exists|kind: EventKind| self.follows(kind),
    {
        let b = self.position_opened || self.position_closed || self.position_liquidated
            || self.note_created || self.note_claimed || self.public_position_opened;
        proof {
            if b {
                assert(self.follows(EventKind::PositionOpened) || self.follows(EventKind::PositionClosed)
                    || self.follows(EventKind::PositionLiquidated) || self.follows(
                    EventKind::NoteCreated,
                ) || self.follows(EventKind::NoteClaimed) || self.follows(
                    EventKind::PublicPositionOpened,
                ));
            }
        }
        b
    }

    /// Notes that the subscription of `kind` reported a transport error
    /// or came to its end: it is followed no more; the others go on.
    pub fn ended(&mut self, kind: EventKind)
        ensures
            forall|other: EventKind|
                final(self).follows(other) == (other != kind && old(self).follows(other)),
    {
        match kind {
            EventKind::PositionOpened => {
                self.position_opened = false;
            },
            EventKind::PositionClosed => {
                self.position_closed = false;
            },
            EventKind::PositionLiquidated => {
                self.position_liquidated = false;
            },
            EventKind::NoteCreated => {
                self.note_created = false;
            },
            EventKind::NoteClaimed => {
                self.note_claimed = false;
            },
            EventKind::PublicPositionOpened => {
                self.public_position_opened = false;
            },
        }
    }
}

} // verus!
