//! The positions that are open right now, as the liquidation process
//! has seen them open: a mirror built from live events alone.

use vstd::prelude::*;
use crate::byte_order::bytes_equal;

verus! {

/// An event of the clearing house, as far as the tracker reads it.
#[derive(Clone, Copy, Debug, PartialEq, Eq)]
pub enum PositionEvent {
    Opened { position_id: [u8; 32], user: [u8; 20] },
    Closed { position_id: [u8; 32] },
    Liquidated { position_id: [u8; 32] },
    /// Any other event of the contract.
    Other,
}

/// One tracked position and the account that opened it.
#[derive(Clone, Copy, Debug, PartialEq, Eq)]
pub struct ActivePositionRecord {
    pub position_id: [u8; 32],
    pub owner: [u8; 20],
}

/// The tracked positions as mathematics: from each id to its owner.
pub type TrackerView = Map<Seq<u8>, Seq<u8>>;

/// The tracked positions after an event: an opening tracks the
/// position under its user, replacing an earlier owner; a closing or a
/// liquidation drops it; any other event changes nothing.
pub open spec fn active_after(active: TrackerView, event: PositionEvent) -> TrackerView {
    match event {
        PositionEvent::Opened { position_id, user } => active.insert(position_id@, user@),
        PositionEvent::Closed { position_id } => active.remove(position_id@),
        PositionEvent::Liquidated { position_id } => active.remove(position_id@),
        PositionEvent::Other => active,
    }
}

/// The order of the ids after an opening: a new id goes to the end, a
/// known one keeps its place.
pub open spec fn ids_after_opening(ids: Seq<Seq<u8>>, id: Seq<u8>) -> Seq<Seq<u8>> {
    if ids.contains(id) {
        ids
    } else {
        ids.push(id)
    }
}

/// The order of the ids after a closing or a liquidation: the id
/// leaves, the others keep their order.
pub open spec fn ids_after_closing(ids: Seq<Seq<u8>>, id: Seq<u8>) -> Seq<Seq<u8>> {
    if ids.contains(id) {
        ids.remove(ids.index_of(id))
    } else {
        ids
    }
}

/// The order of the ids after an event.
pub open spec fn ids_after(ids: Seq<Seq<u8>>, event: PositionEvent) -> Seq<Seq<u8>> {
    match event {
        PositionEvent::Opened { position_id, user } => ids_after_opening(ids, position_id@),
        PositionEvent::Closed { position_id } => ids_after_closing(ids, position_id@),
        PositionEvent::Liquidated { position_id } => ids_after_closing(ids, position_id@),
        PositionEvent::Other => ids,
    }
}

/// No id occurs twice in `ids`.
pub open spec fn no_id_twice(ids: Seq<Seq<u8>>) -> bool {
    forall|i: int, j: int| 0 <= i < j < ids.len() ==> #[trigger] ids[i] != #[trigger] ids[j]
}

/// The tracker: starts empty and changes by events alone.
#[derive(Debug)]
pub struct ActivePositionTracker {
    records: Vec<ActivePositionRecord>,
}

impl View for ActivePositionTracker {
    type V = TrackerView;

    closed spec fn view(&self) -> TrackerView {
        Map::new(
            |id: Seq<u8>| self.ids().contains(id),
            |id: Seq<u8>| self.records[self.ids().index_of(id)].owner@,
        )
    }
}

impl ActivePositionTracker {
    #[verifier::type_invariant]
    spec fn tracks_each_once(&self) -> bool {
        no_id_twice(self.ids())
    }

    /// The tracked ids, in the order in which a snapshot lists them.
    pub closed spec fn ids(&self) -> Seq<Seq<u8>> {
        Seq::new(self.records.len() as nat, |i: int| self.records[i].position_id@)
    }

    proof fn lemma_owner_at(&self, i: int)
        requires
            no_id_twice(self.ids()),
            0 <= i < self.ids().len(),
        ensures
            self.ids().index_of(self.ids()[i]) == i,
            self@.contains_key(self.ids()[i]),
            self@[self.ids()[i]] == self.records[i].owner@,
    {
        let ids = self.ids();
        assert(ids.contains(ids[i]));
        let j = ids.index_of(ids[i]);
        if j < i {
            assert(ids[j] != ids[i]);
        } else if i < j {
            assert(ids[i] != ids[j]);
        }
    }

    /// A tracker that has seen no event.
    pub fn new() -> (t: Self)
        ensures
            t@ == Map::<Seq<u8>, Seq<u8>>::empty(),
            t.ids() == Seq::<Seq<u8>>::empty(),
    {
        let t = ActivePositionTracker { records: Vec::new() };
        assert(t.ids() =~= Seq::<Seq<u8>>::empty());
        assert(t@ =~= Map::<Seq<u8>, Seq<u8>>::empty());
        t
    }

    /// The number of tracked positions.
    pub fn len(&self) -> (n: usize)
        ensures
            n == self.ids().len(),
    {
        self.records.len()
    }

    /// Whether no position is tracked.
    pub fn is_empty(&self) -> (b: bool)
        ensures
            b == (self.ids().len() == 0),
    {
        self.records.len() == 0
    }

    fn locate(&self, position_id: &[u8; 32]) -> (r: Option<usize>)
        ensures
            match r {
                Some(i) => i < self.ids().len() && self.ids()[i as int] == position_id@,
                None => !self.ids().contains(position_id@),
            },
    {
        let mut i: usize = 0;
        while i < self.records.len()
            invariant
                i <= self.records.len(),
                forall|j: int| 0 <= j < i ==> #[trigger] self.ids()[j] != position_id@,
            decreases self.records.len() - i,
        {
            if bytes_equal(self.records[i].position_id.as_slice(), position_id.as_slice()) {
                assert(self.ids()[i as int] == position_id@);
                return Some(i);
            }
            assert(self.ids()[i as int] != position_id@);
            i += 1;
        }
        None
    }

    /// Whether the position is tracked.
    pub fn contains(&self, position_id: &[u8; 32]) -> (b: bool)
        ensures
            b == self@.contains_key(position_id@),
    {
        self.locate(position_id).is_some()
    }

    /// The account that opened the position, if it is tracked.
    pub fn owner_of(&self, position_id: &[u8; 32]) -> (r: Option<[u8; 20]>)
        ensures
            match r {
                Some(owner) => self@.contains_key(position_id@) && owner@ == self@[position_id@],
                None => !self@.contains_key(position_id@),
            },
    {
        match self.locate(position_id) {
            Some(i) => {
                proof {
                    use_type_invariant(self);
                    self.lemma_owner_at(i as int);
                }
                Some(self.records[i].owner)
            },
            None => None,
        }
    }

    /// Tracks a position under its owner; a position that is tracked
    /// already keeps its place and gets the new owner.
    pub fn insert(&mut self, position_id: [u8; 32], owner: [u8; 20])
        ensures
            final(self)@ == old(self)@.insert(position_id@, owner@),
            final(self).ids() == ids_after_opening(old(self).ids(), position_id@),
    {
        proof {
            use_type_invariant(&*self);
        }
        let found = self.locate(&position_id);
        let ghost before = *self;
        let mut records: Vec<ActivePositionRecord> = Vec::new();
        core::mem::swap(&mut self.records, &mut records);
        match found {
            Some(i) => {
                records.set(i, ActivePositionRecord { position_id, owner });
            },
            None => {
                records.push(ActivePositionRecord { position_id, owner });
            },
        }
        let ghost ids = Seq::new(records.len() as nat, |j: int| records[j].position_id@);
        proof {
            if found is Some {
                assert(ids =~= before.ids());
            } else {
                assert(ids =~= before.ids().push(position_id@));
            }
        }
        core::mem::swap(&mut self.records, &mut records);
        proof {
            assert(self.ids() =~= ids);
            let at = match found {
                Some(i) => i as int,
                None => before.ids().len() as int,
            };
            assert(self.ids()[at] == position_id@);
            self.lemma_owner_at(at);
            assert forall|id: Seq<u8>| self@.contains_key(id) <==> before@.insert(
                position_id@,
                owner@,
            ).contains_key(id) by {
                if before.ids().contains(id) {
                    let j = before.ids().index_of(id);
                    assert(self.ids()[j] == id);
                }
                if self.ids().contains(id) && id != position_id@ {
                    let j = self.ids().index_of(id);
                    assert(before.ids()[j] == id);
                }
            }
            assert forall|id: Seq<u8>| self@.contains_key(id) implies #[trigger] self@[id]
                == before@.insert(position_id@, owner@)[id] by {
                let j = self.ids().index_of(id);
                self.lemma_owner_at(j);
                if id != position_id@ {
                    assert(before.ids()[j] == id);
                    before.lemma_owner_at(j);
                }
            }
            assert(self@ =~= before@.insert(position_id@, owner@));
        }
    }

    /// Stops tracking a position; the others keep their order.
    pub fn remove(&mut self, position_id: &[u8; 32])
        ensures
            final(self)@ == old(self)@.remove(position_id@),
            final(self).ids() == ids_after_closing(old(self).ids(), position_id@),
    {
        proof {
            use_type_invariant(&*self);
        }
        let found = self.locate(position_id);
        let ghost before = *self;
        match found {
            Some(i) => {
                proof {
                    before.lemma_owner_at(i as int);
                }
                let mut records: Vec<ActivePositionRecord> = Vec::new();
                core::mem::swap(&mut self.records, &mut records);
                records.remove(i);
                let ghost ids = Seq::new(records.len() as nat, |j: int| records[j].position_id@);
                proof {
                    assert(ids =~= before.ids().remove(i as int));
                    assert forall|a: int, b: int| 0 <= a < b < ids.len() implies #[trigger] ids[a]
                        != #[trigger] ids[b] by {
                        let a0 = if a < i { a } else { a + 1 };
                        let b0 = if b < i { b } else { b + 1 };
                        assert(ids[a] == before.ids()[a0]);
                        assert(ids[b] == before.ids()[b0]);
                    }
                }
                core::mem::swap(&mut self.records, &mut records);
                proof {
                    assert(self.ids() =~= ids);
                    assert forall|id: Seq<u8>| self@.contains_key(id) <==> before@.remove(
                        position_id@,
                    ).contains_key(id) by {
                        if before.ids().contains(id) && id != position_id@ {
                            let j = before.ids().index_of(id);
                            assert(ids[if j < i { j } else { j - 1 }] == id);
                        }
                        if ids.contains(id) {
                            let j = ids.index_of(id);
                            let j0 = if j < i { j } else { j + 1 };
                            assert(before.ids()[j0] == id);
                            assert(before.ids()[j0] != before.ids()[i as int]);
                        }
                    }
                    assert forall|id: Seq<u8>| self@.contains_key(id) implies #[trigger] self@[id]
                        == before@.remove(position_id@)[id] by {
                        let j = ids.index_of(id);
                        self.lemma_owner_at(j);
                        let j0 = if j < i { j } else { j + 1 };
                        assert(before.ids()[j0] == id);
                        before.lemma_owner_at(j0);
                    }
                    assert(self@ =~= before@.remove(position_id@));
                }
            },
            None => {
                assert(self@ =~= before@.remove(position_id@));
            },
        }
    }

    /// Applies an event of the clearing house.
    pub fn apply(&mut self, event: &PositionEvent)
        ensures
            final(self)@ == active_after(old(self)@, *event),
            final(self).ids() == ids_after(old(self).ids(), *event),
    {
        match event {
            PositionEvent::Opened { position_id, user } => self.insert(*position_id, *user),
            PositionEvent::Closed { position_id } => self.remove(position_id),
            PositionEvent::Liquidated { position_id } => self.remove(position_id),
            PositionEvent::Other => {},
        }
    }

    /// The ids of all tracked positions, each once, for one round of
    /// solvency checks. The tracker itself is not touched by a round.
    pub fn snapshot(&self) -> (ids: Vec<[u8; 32]>)
        ensures
            ids@.len() == self.ids().len(),
            forall|i: int| 0 <= i < ids@.len() ==> (#[trigger] ids@[i])@ == self.ids()[i],
            no_id_twice(self.ids()),
            forall|id: Seq<u8>| self@.contains_key(id) <==> self.ids().contains(id),
    {
        proof {
            use_type_invariant(self);
        }
        let mut ids: Vec<[u8; 32]> = Vec::new();
        let mut i: usize = 0;
        while i < self.records.len()
            invariant
                i <= self.records.len(),
                ids@.len() == i,
                forall|j: int| 0 <= j < i ==> (#[trigger] ids@[j])@ == self.ids()[j],
            decreases self.records.len() - i,
        {
            ids.push(self.records[i].position_id);
            i += 1;
        }
        ids
    }
}

} // verus!
