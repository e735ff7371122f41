//! The sequence numbers of the liquidator's transactions: one counter,
//! owned by one sequencer, handed out one value at a time.

use vstd::prelude::*;

verus! {

/// The time between two reconciliations against the chain, in seconds.
pub const NONCE_RESYNC_INTERVAL_SECS: u64 = 60;

/// Issues the signer's transaction nonces in rising order. Whoever
/// holds the sequencer holds it alone, so two calls never overlap.
#[derive(Debug)]
pub struct NonceSequencer {
    next: u64,
}

/// One allocation: the counter stood at `before`, the caller got
/// `nonce`, and the counter stands at `after`.
pub open spec fn is_allocation(before: u64, nonce: u64, after: u64) -> bool {
    nonce == before && after == before + 1
}

/// The counter after a reconciliation against the on-chain count.
pub open spec fn reconciled(local: u64, on_chain: u64) -> u64 {
    on_chain
}

/// `nonces` are the values of a run of allocations that takes the
/// counter through `counters`, whoever made each call.
pub open spec fn is_run_of_allocations(counters: Seq<u64>, nonces: Seq<u64>) -> bool {
    &&& counters.len() == nonces.len() + 1
    &&& forall|i: int|
        0 <= i < nonces.len() ==> is_allocation(counters[i], #[trigger] nonces[i], counters[i + 1])
}

/// However many allocations are made, and in whatever order the callers
/// come to their turn, the values handed out are contiguous from the
/// counter's first value, rising, and pairwise distinct.
pub proof fn lemma_allocations_are_contiguous(counters: Seq<u64>, nonces: Seq<u64>)
    requires
        is_run_of_allocations(counters, nonces),
    ensures
        forall|i: int| 0 <= i < nonces.len() ==> #[trigger] nonces[i] == counters[0] + i,
        forall|i: int, j: int| 0 <= i < j < nonces.len() ==> #[trigger] nonces[i] < #[trigger] nonces[j],
        forall|i: int, j: int|
            0 <= i < nonces.len() && 0 <= j < nonces.len() && i != j ==> #[trigger] nonces[i]
                != #[trigger] nonces[j],
{
    assert forall|i: int| 0 <= i < nonces.len() implies #[trigger] nonces[i] == counters[0] + i by {
        lemma_counter_after(counters, nonces, i);
    }
}

proof fn lemma_counter_after(counters: Seq<u64>, nonces: Seq<u64>, i: int)
    requires
        is_run_of_allocations(counters, nonces),
        0 <= i < nonces.len(),
    ensures
        counters[i] == counters[0] + i,
        nonces[i] == counters[0] + i,
    decreases i,
{
    if i > 0 {
        lemma_counter_after(counters, nonces, i - 1);
        assert(is_allocation(counters[i - 1], nonces[i - 1], counters[i]));
    }
    assert(is_allocation(counters[i], nonces[i], counters[i + 1]));
}

/// After a reconciliation the next value handed out is the on-chain
/// count, whatever the counter held before.
pub proof fn lemma_allocation_after_reconcile(local: u64, on_chain: u64, nonce: u64, after: u64)
    requires
        is_allocation(reconciled(local, on_chain), nonce, after),
    ensures
        nonce == on_chain,
{
}

impl NonceSequencer {
    /// The value that the next allocation hands out.
    pub closed spec fn next_nonce(&self) -> u64 {
        self.next
    }

    /// A sequencer whose first value is `initial`, the signer's
    /// on-chain transaction count at start.
    pub fn new(initial: u64) -> (s: Self)
        ensures
            s.next_nonce() == initial,
    {
        NonceSequencer { next: initial }
    }

    /// Reads the counter without moving it.
    pub fn peek(&self) -> (n: u64)
        ensures
            n == self.next_nonce(),
    {
        self.next
    }

    /// Whether a value is left to hand out.
    pub fn can_allocate(&self) -> (b: bool)
        ensures
            b == (self.next_nonce() < u64::MAX),
    {
        self.next < u64::MAX
    }

    /// Hands out the current value and moves the counter by one.
    pub fn allocate(&mut self) -> (nonce: u64)
        requires
            old(self).next_nonce() < u64::MAX,
        ensures
            is_allocation(old(self).next_nonce(), nonce, final(self).next_nonce()),
    {
        let nonce = self.next;
        self.next = nonce + 1;
        nonce
    }

    /// Hands out the current value if one is left, and nothing once the
    /// counter has reached the end of its range.
    pub fn try_allocate(&mut self) -> (r: Option<u64>)
        ensures
            match r {
                Some(nonce) => is_allocation(old(self).next_nonce(), nonce, final(self).next_nonce()),
                None => old(self).next_nonce() == u64::MAX && final(self).next_nonce() == u64::MAX,
            },
    {
        if self.next < u64::MAX {
            Some(self.allocate())
        } else {
            None
        }
    }

    /// Sets the counter to the signer's on-chain transaction count.
    /// Returns the stale value where the two differed, for the record.
    pub fn reconcile(&mut self, on_chain: u64) -> (stale: Option<u64>)
        ensures
            final(self).next_nonce() == reconciled(old(self).next_nonce(), on_chain),
            stale == if old(self).next_nonce() != on_chain {
                Some(old(self).next_nonce())
            } else {
                None
            },
    {
        if self.next != on_chain {
            let stale = self.next;
            self.next = on_chain;
            Some(stale)
        } else {
            None
        }
    }
}

} // verus!
