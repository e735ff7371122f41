//! The liquidation round: on every price update the tracked positions
//! are checked for solvency, a bounded number at a time, and each
//! insolvent one is sent a liquidation.

use vstd::prelude::*;
use vstd::string::StringExecFns;
use crate::hex_codec::{prefixed_hex, prefixed_hex_chars};
use crate::nonce::{is_allocation, NonceSequencer};

verus! {

/// The most solvency checks that run at once in concurrent mode.
pub const MAX_CONCURRENT_RPC_CALLS: usize = 5;

/// How a round is executed; chosen once, at start.
#[derive(Clone, Copy, Debug, PartialEq, Eq, Structural)]
pub enum ExecutionMode {
    /// One position at a time, each transaction confirmed before the
    /// next check begins; the signer numbers the transactions itself.
    Sequential,
    /// Up to `MAX_CONCURRENT_RPC_CALLS` positions at a time; the
    /// sequencer numbers the transactions.
    Concurrent,
}

/// The execution policy of the process.
#[derive(Clone, Copy, Debug, PartialEq, Eq, Structural)]
pub struct ConcurrencyGovernor {
    mode: ExecutionMode,
}

impl ConcurrencyGovernor {
    /// The mode.
    pub closed spec fn spec_mode(&self) -> ExecutionMode {
        self.mode
    }

    /// The most operations in flight at once: one in sequential mode,
    /// `MAX_CONCURRENT_RPC_CALLS` in concurrent mode.
    pub open spec fn spec_max_in_flight(&self) -> usize {
        match self.spec_mode() {
            ExecutionMode::Sequential => 1,
            ExecutionMode::Concurrent => MAX_CONCURRENT_RPC_CALLS,
        }
    }

    /// The policy of a process: sequential on a local network,
    /// concurrent elsewhere.
    pub fn new(is_local_net: bool) -> (g: Self)
        ensures
            g.spec_mode() == if is_local_net {
                ExecutionMode::Sequential
            } else {
                ExecutionMode::Concurrent
            },
    {
        ConcurrencyGovernor {
            mode: if is_local_net {
                ExecutionMode::Sequential
            } else {
                ExecutionMode::Concurrent
            },
        }
    }

    #[verifier::when_used_as_spec(spec_mode)]
    pub fn mode(&self) -> (mode: ExecutionMode)
        ensures
            mode == self.spec_mode(),
    {
        self.mode
    }

    #[verifier::when_used_as_spec(spec_max_in_flight)]
    pub fn max_in_flight(&self) -> (limit: usize)
        ensures
            limit == self.spec_max_in_flight(),
    {
        match self.mode {
            ExecutionMode::Sequential => 1,
            ExecutionMode::Concurrent => MAX_CONCURRENT_RPC_CALLS,
        }
    }

    /// Whether the nonce sequencer numbers the transactions, and is
    /// reconciled against the chain from time to time.
    pub fn uses_nonce_sequencer(&self) -> (b: bool)
        ensures
            b == (self.spec_mode() is Concurrent),
    {
        match self.mode {
            ExecutionMode::Sequential => false,
            ExecutionMode::Concurrent => true,
        }
    }
}

/// What a solvency check of one position reported.
#[derive(Clone, Copy, Debug, PartialEq, Eq, Structural)]
pub enum CheckOutcome {
    Solvent,
    Insolvent,
    /// The call failed; nothing is known of the position.
    Failed,
}

/// What follows a solvency check.
#[derive(Clone, Copy, Debug, PartialEq, Eq, Structural)]
pub enum Decision {
    /// The position is left alone until the next price update.
    Skip,
    /// A liquidation is submitted, under `nonce` if the sequencer
    /// numbers the transactions.
    Submit { nonce: Option<u64> },
}

/// Whether a liquidation follows a check: only where the position was
/// seen insolvent.
pub open spec fn wants_liquidation(outcome: CheckOutcome) -> bool {
    outcome is Insolvent
}

/// What follows a solvency check, and what it does to the counter
/// that stood at `before`: a liquidation follows an insolvent position
/// and nothing else; in concurrent mode it carries the nonce that was
/// allocated for it, in sequential mode none, and the counter stays.
pub open spec fn is_decision(
    mode: ExecutionMode,
    outcome: CheckOutcome,
    before: u64,
    decision: Decision,
    after: u64,
) -> bool {
    if !wants_liquidation(outcome) {
        decision is Skip && after == before
    } else {
        match mode {
            ExecutionMode::Sequential => decision == (Decision::Submit { nonce: None }) && after
                == before,
            ExecutionMode::Concurrent => {
                &&& decision matches Decision::Submit { nonce: Some(n) }
                &&& is_allocation(before, n, after)
            },
        }
    }
}

/// Whether a decision needs a nonce from the sequencer.
pub open spec fn needs_nonce(mode: ExecutionMode, outcome: CheckOutcome) -> bool {
    wants_liquidation(outcome) && mode is Concurrent
}

/// Decides what follows a solvency check. In concurrent mode the nonce
/// of a liquidation is allocated here, right before the submission.
pub fn decide(
    governor: &ConcurrencyGovernor,
    sequencer: &mut NonceSequencer,
    outcome: CheckOutcome,
) -> (decision: Decision)
    requires
        needs_nonce(governor.spec_mode(), outcome) ==> old(sequencer).next_nonce() < u64::MAX,
    ensures
        is_decision(
            governor.spec_mode(),
            outcome,
            old(sequencer).next_nonce(),
            decision,
            final(sequencer).next_nonce(),
        ),
{
    match outcome {
        CheckOutcome::Insolvent => {
            if governor.uses_nonce_sequencer() {
                Decision::Submit { nonce: Some(sequencer.allocate()) }
            } else {
                Decision::Submit { nonce: None }
            }
        },
        _ => Decision::Skip,
    }
}

/// As `decide`, for a caller that cannot know whether the sequencer has
/// a value left: where one is needed and none is left, nothing is
/// decided and nothing changes.
pub fn try_decide(
    governor: &ConcurrencyGovernor,
    sequencer: &mut NonceSequencer,
    outcome: CheckOutcome,
) -> (r: Option<Decision>)
    ensures
        match r {
            Some(decision) => is_decision(
                governor.spec_mode(),
                outcome,
                old(sequencer).next_nonce(),
                decision,
                final(sequencer).next_nonce(),
            ),
            None => {
                &&& needs_nonce(governor.spec_mode(), outcome)
                &&& old(sequencer).next_nonce() == u64::MAX
                &&& final(sequencer).next_nonce() == u64::MAX
            },
        },
{
    let needs = match outcome {
        CheckOutcome::Insolvent => governor.uses_nonce_sequencer(),
        _ => false,
    };
    if needs && !sequencer.can_allocate() {
        None
    } else {
        Some(decide(governor, sequencer, outcome))
    }
}

/// The state of a round as numbers: how many positions it covers, how
/// many operations were started, how many are in flight, and at most
/// how many may be.
pub struct RoundView {
    pub total: nat,
    pub started: nat,
    pub in_flight: nat,
    pub limit: nat,
}

/// What can happen in a round.
pub enum RoundEvent {
    /// The round was asked to start the next operation.
    StartNext,
    /// An operation came to its end.
    Finish,
}

impl RoundView {
    /// What every state of a round satisfies: no more operations are in
    /// flight than the limit admits, and none that was not started.
    pub open spec fn wf(self) -> bool {
        &&& self.in_flight <= self.limit
        &&& self.in_flight <= self.started <= self.total
    }

    /// Whether the next operation is admitted: a position is left and
    /// fewer operations are in flight than the limit.
    pub open spec fn admits(self) -> bool {
        self.started < self.total && self.in_flight < self.limit
    }

    /// The state after an event.
    pub open spec fn after(self, event: RoundEvent) -> RoundView {
        match event {
            RoundEvent::StartNext => if self.admits() {
                RoundView {
                    started: self.started + 1,
                    in_flight: self.in_flight + 1,
                    ..self
                }
            } else {
                self
            },
            RoundEvent::Finish => if self.in_flight > 0 {
                RoundView { in_flight: (self.in_flight - 1) as nat, ..self }
            } else {
                self
            },
        }
    }

    /// The state after a run of events.
    pub open spec fn after_all(self, events: Seq<RoundEvent>) -> RoundView
        decreases events.len(),
    {
        if events.len() == 0 {
            self
        } else {
            self.after(events[0]).after_all(events.drop_first())
        }
    }

    /// Whether every position was handled.
    pub open spec fn finished(self) -> bool {
        self.started == self.total && self.in_flight == 0
    }
}

/// Whatever the limit and however many positions a round covers, no
/// run of events brings more operations in flight than the limit.
pub proof fn lemma_in_flight_never_exceeds_limit(round: RoundView, events: Seq<RoundEvent>)
    requires
        round.wf(),
    ensures
        round.after_all(events).wf(),
        round.after_all(events).in_flight <= round.limit,
        round.after_all(events).limit == round.limit,
        round.after_all(events).total == round.total,
    decreases events.len(),
{
    if events.len() > 0 {
        lemma_in_flight_never_exceeds_limit(round.after(events[0]), events.drop_first());
    }
}

/// One round of solvency checks over a snapshot of the tracked
/// positions, behind a counting admission gate.
#[derive(Debug)]
pub struct LiquidationRound {
    queue: Vec<[u8; 32]>,
    started: usize,
    in_flight: usize,
    limit: usize,
}

impl View for LiquidationRound {
    type V = RoundView;

    closed spec fn view(&self) -> RoundView {
        RoundView {
            total: self.queue@.len(),
            started: self.started as nat,
            in_flight: self.in_flight as nat,
            limit: self.limit as nat,
        }
    }
}

impl LiquidationRound {
    #[verifier::type_invariant]
    spec fn gate_holds(&self) -> bool {
        self@.wf()
    }

    /// The positions of the round, in the order in which they are
    /// started.
    pub closed spec fn queue(&self) -> Seq<[u8; 32]> {
        self.queue@
    }

    /// A round over `snapshot` that admits at most `limit` operations
    /// at once.
    pub fn with_limit(snapshot: Vec<[u8; 32]>, limit: usize) -> (round: Self)
        ensures
            round.queue() == snapshot@,
            round@ == (RoundView { total: snapshot@.len(), started: 0, in_flight: 0, limit: limit as nat }),
            round@.wf(),
    {
        LiquidationRound { queue: snapshot, started: 0, in_flight: 0, limit }
    }

    /// A round over `snapshot` under the policy of `governor`.
    pub fn begin(snapshot: Vec<[u8; 32]>, governor: &ConcurrencyGovernor) -> (round: Self)
        ensures
            round.queue() == snapshot@,
            round@ == (RoundView {
                total: snapshot@.len(),
                started: 0,
                in_flight: 0,
                limit: governor.spec_max_in_flight() as nat,
            }),
            round@.wf(),
    {
        Self::with_limit(snapshot, governor.max_in_flight())
    }

    /// The number of operations in flight.
    pub fn in_flight(&self) -> (n: usize)
        ensures
            n == self@.in_flight,
            self@.wf(),
    {
        proof {
            use_type_invariant(self);
        }
        self.in_flight
    }

    /// Starts the operation of the next position if it is admitted:
    /// it returns the position to check, and counts it in flight. It
    /// returns nothing when the limit is reached or no position is left.
    pub fn start_next(&mut self) -> (r: Option<[u8; 32]>)
        ensures
            final(self)@ == old(self)@.after(RoundEvent::StartNext),
            final(self)@.wf(),
            final(self).queue() == old(self).queue(),
            match r {
                Some(id) => old(self)@.admits() && id == old(self).queue()[old(self)@.started as int],
                None => !old(self)@.admits(),
            },
    {
        proof {
            use_type_invariant(&*self);
        }
        if self.started < self.queue.len() && self.in_flight < self.limit {
            let id = self.queue[self.started];
            let started = self.started + 1;
            let in_flight = self.in_flight + 1;
            self.started = started;
            self.in_flight = in_flight;
            Some(id)
        } else {
            None
        }
    }

    /// Notes that an operation came to its end, whatever its outcome,
    /// and frees its place. It returns whether an
    /// operation was in flight.
    pub fn finish_one(&mut self) -> (released: bool)
        ensures
            final(self)@ == old(self)@.after(RoundEvent::Finish),
            final(self)@.wf(),
            final(self).queue() == old(self).queue(),
            released == (old(self)@.in_flight > 0),
    {
        proof {
            use_type_invariant(&*self);
        }
        if self.in_flight > 0 {
            self.in_flight = self.in_flight - 1;
            true
        } else {
            false
        }
    }

    /// Whether every position was started and every operation ended.
    pub fn is_finished(&self) -> (b: bool)
        ensures
            b == self@.finished(),
    {
        self.started == self.queue.len() && self.in_flight == 0
    }
}

/// Why the chain refused a liquidation, as far as it can be named.
#[derive(Clone, Copy, Debug, PartialEq, Eq, Structural)]
pub enum RevertReason {
    PositionNotLiquidatable,
    PositionNotFound,
    NotPositionOwner,
    /// The payload has none of the known shapes.
    Unknown,
}

/// Names a revert by the first known shape that its payload decodes
/// as, trying them in the order of the variants.
pub fn classify_revert(
    decodes_as_not_liquidatable: bool,
    decodes_as_not_found: bool,
    decodes_as_not_owner: bool,
) -> (reason: RevertReason)
    ensures
        reason == if decodes_as_not_liquidatable {
            RevertReason::PositionNotLiquidatable
        } else if decodes_as_not_found {
            RevertReason::PositionNotFound
        } else if decodes_as_not_owner {
            RevertReason::NotPositionOwner
        } else {
            RevertReason::Unknown
        },
{
    if decodes_as_not_liquidatable {
        RevertReason::PositionNotLiquidatable
    } else if decodes_as_not_found {
        RevertReason::PositionNotFound
    } else if decodes_as_not_owner {
        RevertReason::NotPositionOwner
    } else {
        RevertReason::Unknown
    }
}

/// The line that reports a revert of unknown shape: its payload as
/// opaque data, in hex.
pub fn describe_unknown_revert(data: &[u8]) -> (line: String)
    ensures
        line@ == "Unknown Custom Revert: "@ + prefixed_hex_chars(data@),
{
    let mut line = String::from_str("Unknown Custom Revert: ");
    let payload = prefixed_hex(data);
    line.append(payload.as_str());
    line
}

} // verus!
