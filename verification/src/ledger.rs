//! The derived state as mathematics: six maps keyed by byte strings, the
//! transitions that the chain's events cause, and what holds of them.

use vstd::prelude::*;
use crate::byte_order::{lemma_lex_total, lex_less};
use crate::models::{HistoricalPositionView, PositionStatus, PositionView, UnspentNoteView};

verus! {

/// The record kept of a position under its id, tagged by its stage.
pub enum PositionDataView {
    Open(PositionView),
    Historical(HistoricalPositionView),
}

/// Some position of `list` has the id `id`.
pub open spec fn holds_position(list: Seq<PositionView>, id: Seq<u8>) -> bool {
    exists|i: int| 0 <= i < list.len() && (#[trigger] list[i]).id_key() == id
}

/// `i` is the first place of `list` whose position has the id `id`.
pub open spec fn is_first_position(list: Seq<PositionView>, id: Seq<u8>, i: int) -> bool {
    &&& 0 <= i < list.len()
    &&& list[i].id_key() == id
    &&& forall|j: int| 0 <= j < i ==> (#[trigger] list[j]).id_key() != id
}

/// The first place of `list` whose position has the id `id`.
pub open spec fn first_position(list: Seq<PositionView>, id: Seq<u8>) -> int {
    choose|i: int| is_first_position(list, id, i)
}

/// No two positions of `list` share an id.
pub open spec fn distinct_ids(list: Seq<PositionView>) -> bool {
    forall|i: int, j: int|
        0 <= i < j < list.len() ==> (#[trigger] list[i]).id_key() != (#[trigger] list[j]).id_key()
}

/// Some entry of `list` is the settlement of the position `id`.
pub open spec fn holds_settlement(list: Seq<HistoricalPositionView>, id: Seq<u8>) -> bool {
    exists|i: int| 0 <= i < list.len() && (#[trigger] list[i]).position.id_key() == id
}

/// Exactly one entry of `list` is the settlement of the position `id`.
pub open spec fn holds_one_settlement(list: Seq<HistoricalPositionView>, id: Seq<u8>) -> bool {
    exists|i: int|
        {
            &&& 0 <= i < list.len()
            &&& (#[trigger] list[i]).position.id_key() == id
            &&& forall|j: int|
                0 <= j < list.len() && j != i ==> (#[trigger] list[j]).position.id_key() != id
        }
}

/// Some note of `list` has the id `id`.
pub open spec fn holds_note(list: Seq<UnspentNoteView>, id: Seq<u8>) -> bool {
    exists|i: int| 0 <= i < list.len() && (#[trigger] list[i]).id_key() == id
}

/// `i` is the first place of `list` whose note has the id `id`.
pub open spec fn is_first_note(list: Seq<UnspentNoteView>, id: Seq<u8>, i: int) -> bool {
    &&& 0 <= i < list.len()
    &&& list[i].id_key() == id
    &&& forall|j: int| 0 <= j < i ==> (#[trigger] list[j]).id_key() != id
}

/// The first place of `list` whose note has the id `id`.
pub open spec fn first_note(list: Seq<UnspentNoteView>, id: Seq<u8>) -> int {
    choose|i: int| is_first_note(list, id, i)
}

/// The first place with a given id is unique.
pub proof fn lemma_first_position_is_unique(list: Seq<PositionView>, id: Seq<u8>, i: int)
    requires
        is_first_position(list, id, i),
    ensures
        holds_position(list, id),
        first_position(list, id) == i,
{
    let c = first_position(list, id);
    assert(is_first_position(list, id, c));
    if c < i {
        assert(list[c].id_key() != id);
    } else if i < c {
        assert(list[i].id_key() != id);
    }
}

/// The first place with a given note id is unique.
pub proof fn lemma_first_note_is_unique(list: Seq<UnspentNoteView>, id: Seq<u8>, i: int)
    requires
        is_first_note(list, id, i),
    ensures
        holds_note(list, id),
        first_note(list, id) == i,
{
    let c = first_note(list, id);
    assert(is_first_note(list, id, c));
    if c < i {
        assert(list[c].id_key() != id);
    } else if i < c {
        assert(list[i].id_key() != id);
    }
}

/// A list that holds an id has a first place for it.
pub proof fn lemma_first_position_exists(list: Seq<PositionView>, id: Seq<u8>)
    requires
        holds_position(list, id),
    ensures
        is_first_position(list, id, first_position(list, id)),
{
    let w = choose|i: int| 0 <= i < list.len() && (#[trigger] list[i]).id_key() == id;
    lemma_least_position(list, id, w);
}

proof fn lemma_least_position(list: Seq<PositionView>, id: Seq<u8>, w: int)
    requires
        0 <= w < list.len(),
        list[w].id_key() == id,
    ensures
        is_first_position(list, id, first_position(list, id)),
    decreases w,
{
    if exists|j: int| 0 <= j < w && (#[trigger] list[j]).id_key() == id {
        let j = choose|j: int| 0 <= j < w && (#[trigger] list[j]).id_key() == id;
        lemma_least_position(list, id, j);
    } else {
        assert(is_first_position(list, id, w));
    }
}

/// A list that holds a note id has a first place for it.
pub proof fn lemma_first_note_exists(list: Seq<UnspentNoteView>, id: Seq<u8>)
    requires
        holds_note(list, id),
    ensures
        is_first_note(list, id, first_note(list, id)),
{
    let w = choose|i: int| 0 <= i < list.len() && (#[trigger] list[i]).id_key() == id;
    lemma_least_note(list, id, w);
}

proof fn lemma_least_note(list: Seq<UnspentNoteView>, id: Seq<u8>, w: int)
    requires
        0 <= w < list.len(),
        list[w].id_key() == id,
    ensures
        is_first_note(list, id, first_note(list, id)),
    decreases w,
{
    if exists|j: int| 0 <= j < w && (#[trigger] list[j]).id_key() == id {
        let j = choose|j: int| 0 <= j < w && (#[trigger] list[j]).id_key() == id;
        lemma_least_note(list, id, j);
    } else {
        assert(is_first_note(list, id, w));
    }
}

/// What a closing event reports of a position.
pub struct Settlement {
    pub status: PositionStatus,
    pub final_pnl: Seq<char>,
    pub owner_address: Seq<char>,
}

/// One change of the derived state.
pub enum LedgerOp {
    /// A position was opened for `owner`.
    AddOpenPosition { owner: Seq<u8>, position: PositionView },
    /// The position `id` was closed or liquidated.
    MoveToHistorical { id: Seq<u8>, settlement: Settlement },
    /// A note was created for the receiver hash `receiver`.
    AddUnspentNote { receiver: Seq<u8>, note: UnspentNoteView },
    /// The note `id` was claimed.
    RemoveUnspentNote { id: Seq<u8> },
    /// A user stored a blob under their key.
    SetUserMetadata { owner: Seq<u8>, blob: Seq<u8> },
}

/// The derived state: open and historical positions by owner, unspent
/// notes by receiver hash, metadata by owner, the owner of each open
/// position, and the record of every position ever seen.
pub struct LedgerView {
    pub open: Map<Seq<u8>, Seq<PositionView>>,
    pub historical: Map<Seq<u8>, Seq<HistoricalPositionView>>,
    pub unspent_notes: Map<Seq<u8>, Seq<UnspentNoteView>>,
    pub user_metadata: Map<Seq<u8>, Seq<u8>>,
    pub owner_of: Map<Seq<u8>, Seq<u8>>,
    pub records: Map<Seq<u8>, PositionDataView>,
}

impl LedgerView {
    /// The state before any event.
    pub open spec fn empty() -> LedgerView {
        LedgerView {
            open: Map::empty(),
            historical: Map::empty(),
            unspent_notes: Map::empty(),
            user_metadata: Map::empty(),
            owner_of: Map::empty(),
            records: Map::empty(),
        }
    }

    /// The open positions of `owner`, oldest first.
    pub open spec fn open_positions(self, owner: Seq<u8>) -> Seq<PositionView> {
        if self.open.contains_key(owner) {
            self.open[owner]
        } else {
            Seq::empty()
        }
    }

    /// The settled positions of `owner`, newest first.
    pub open spec fn historical_positions(self, owner: Seq<u8>) -> Seq<HistoricalPositionView> {
        if self.historical.contains_key(owner) {
            self.historical[owner]
        } else {
            Seq::empty()
        }
    }

    /// The unclaimed notes of the receiver hash `receiver`, oldest first.
    pub open spec fn notes_of(self, receiver: Seq<u8>) -> Seq<UnspentNoteView> {
        if self.unspent_notes.contains_key(receiver) {
            self.unspent_notes[receiver]
        } else {
            Seq::empty()
        }
    }

    /// Opening: the position joins its owner's open list unless a position
    /// of that id is there already; the id now leads to this owner, and
    /// the record under the id is this position, tagged open.
    pub open spec fn add_open_position(self, owner: Seq<u8>, position: PositionView) -> LedgerView {
        let list = self.open_positions(owner);
        let id = position.id_key();
        LedgerView {
            open: self.open.insert(
                owner,
                if holds_position(list, id) {
                    list
                } else {
                    list.push(position)
                },
            ),
            owner_of: self.owner_of.insert(id, owner),
            records: self.records.insert(id, PositionDataView::Open(position)),
            ..self
        }
    }

    /// Whether closing `id` finds the position: its id leads to an owner
    /// whose open list holds it.
    pub open spec fn can_settle(self, id: Seq<u8>) -> bool {
        self.owner_of.contains_key(id) && holds_position(self.open_positions(self.owner_of[id]), id)
    }

    /// The entry that closing `id` writes.
    pub open spec fn settled_entry(self, id: Seq<u8>, settlement: Settlement) -> HistoricalPositionView {
        let list = self.open_positions(self.owner_of[id]);
        HistoricalPositionView {
            position: list[first_position(list, id)],
            status: settlement.status,
            final_pnl: settlement.final_pnl,
            owner_address: settlement.owner_address,
        }
    }

    /// Closing: nothing happens unless the position is found. Else it
    /// leaves its owner's open list, its settlement becomes the first
    /// entry of the owner's history, the id leads to no owner any more,
    /// and the record under the id is the settlement.
    pub open spec fn move_to_historical(self, id: Seq<u8>, settlement: Settlement) -> LedgerView {
        if !self.can_settle(id) {
            self
        } else {
            let owner = self.owner_of[id];
            let list = self.open_positions(owner);
            let entry = self.settled_entry(id, settlement);
            LedgerView {
                open: self.open.insert(owner, list.remove(first_position(list, id))),
                historical: self.historical.insert(
                    owner,
                    seq![entry] + self.historical_positions(owner),
                ),
                owner_of: self.owner_of.remove(id),
                records: self.records.insert(id, PositionDataView::Historical(entry)),
                ..self
            }
        }
    }

    /// Creating a note: it is appended to the list of its receiver hash,
    /// whether or not a note of that id is there already.
    pub open spec fn add_unspent_note(self, receiver: Seq<u8>, note: UnspentNoteView) -> LedgerView {
        LedgerView {
            unspent_notes: self.unspent_notes.insert(receiver, self.notes_of(receiver).push(note)),
            ..self
        }
    }

    /// Some receiver hash holds a note of the id `id`.
    pub open spec fn has_note(self, id: Seq<u8>) -> bool {
        exists|k: Seq<u8>| self.unspent_notes.contains_key(k) && holds_note(#[trigger] self.unspent_notes[k], id)
    }

    /// `k` is the least receiver hash, in the order of a walk, whose list
    /// holds a note of the id `id`.
    pub open spec fn is_first_bucket(self, id: Seq<u8>, k: Seq<u8>) -> bool {
        &&& self.unspent_notes.contains_key(k)
        &&& holds_note(self.unspent_notes[k], id)
        &&& forall|other: Seq<u8>|
            self.unspent_notes.contains_key(other) && holds_note(#[trigger] self.unspent_notes[other], id)
                ==> !lex_less(other, k)
    }

    /// The least receiver hash whose list holds a note of the id `id`.
    pub open spec fn first_bucket(self, id: Seq<u8>) -> Seq<u8> {
        choose|k: Seq<u8>| self.is_first_bucket(id, k)
    }

    /// Claiming: nothing happens unless some list holds a note of that
    /// id. Else the first such note of the first such list leaves, and
    /// no other list changes.
    pub open spec fn remove_unspent_note(self, id: Seq<u8>) -> LedgerView {
        if !self.has_note(id) {
            self
        } else {
            let k = self.first_bucket(id);
            let list = self.unspent_notes[k];
            LedgerView {
                unspent_notes: self.unspent_notes.insert(k, list.remove(first_note(list, id))),
                ..self
            }
        }
    }

    /// Storing metadata replaces what the owner had stored.
    pub open spec fn set_user_metadata(self, owner: Seq<u8>, blob: Seq<u8>) -> LedgerView {
        LedgerView { user_metadata: self.user_metadata.insert(owner, blob), ..self }
    }

    /// The state after one change.
    pub open spec fn apply(self, op: LedgerOp) -> LedgerView {
        match op {
            LedgerOp::AddOpenPosition { owner, position } => self.add_open_position(owner, position),
            LedgerOp::MoveToHistorical { id, settlement } => self.move_to_historical(id, settlement),
            LedgerOp::AddUnspentNote { receiver, note } => self.add_unspent_note(receiver, note),
            LedgerOp::RemoveUnspentNote { id } => self.remove_unspent_note(id),
            LedgerOp::SetUserMetadata { owner, blob } => self.set_user_metadata(owner, blob),
        }
    }

    /// The state after a run of changes, the first of `ops` first.
    pub open spec fn apply_all(self, ops: Seq<LedgerOp>) -> LedgerView
        decreases ops.len(),
    {
        if ops.len() == 0 {
            self
        } else {
            self.apply(ops[0]).apply_all(ops.drop_first())
        }
    }

    /// What every reachable state satisfies: no open list holds an id
    /// twice; an id that leads to an owner is in that owner's open list;
    /// and every position in a list has a record under its id.
    pub open spec fn wf(self) -> bool {
        &&& forall|owner: Seq<u8>|
            self.open.contains_key(owner) ==> distinct_ids(#[trigger] self.open[owner])
        &&& forall|id: Seq<u8>|
            self.owner_of.contains_key(id) ==> holds_position(
                self.open_positions(#[trigger] self.owner_of[id]),
                id,
            )
        &&& forall|owner: Seq<u8>, i: int|
            self.open.contains_key(owner) && 0 <= i < self.open[owner].len()
                ==> self.records.contains_key((#[trigger] self.open[owner][i]).id_key())
        &&& forall|owner: Seq<u8>, i: int|
            self.historical.contains_key(owner) && 0 <= i < self.historical[owner].len()
                ==> self.records.contains_key(
                (#[trigger] self.historical[owner][i]).position.id_key(),
            )
    }

    /// `i` is a place in the open list of `owner`.
    pub open spec fn open_at(self, owner: Seq<u8>, i: int) -> bool {
        self.open.contains_key(owner) && 0 <= i < self.open[owner].len()
    }

    /// `i` is a place in the history of `owner`.
    pub open spec fn settled_at(self, owner: Seq<u8>, i: int) -> bool {
        self.historical.contains_key(owner) && 0 <= i < self.historical[owner].len()
    }

    /// Every position is in one place only: an open position is indexed
    /// under the owner in whose list it stands, a settled position is
    /// open nowhere, and no position is settled twice.
    pub open spec fn exclusive(self) -> bool {
        &&& forall|owner: Seq<u8>, i: int| #[trigger]
            self.open_at(owner, i) ==> {
                &&& self.owner_of.contains_key(self.open[owner][i].id_key())
                &&& self.owner_of[self.open[owner][i].id_key()] == owner
            }
        &&& forall|o1: Seq<u8>, i: int, o2: Seq<u8>, j: int|
            #[trigger] self.settled_at(o1, i) && #[trigger] self.open_at(o2, j)
                ==> self.historical[o1][i].position.id_key() != self.open[o2][j].id_key()
        &&& forall|o1: Seq<u8>, i: int, o2: Seq<u8>, j: int|
            #[trigger] self.settled_at(o1, i) && #[trigger] self.settled_at(o2, j)
                && self.historical[o1][i].position.id_key()
                == self.historical[o2][j].position.id_key() ==> o1 == o2 && i == j
    }

    /// What the chain sends: an opening is the first of its id, or a
    /// second delivery for the same owner while the position is open.
    /// Closings, notes and metadata come as they will.
    pub open spec fn expects(self, op: LedgerOp) -> bool {
        match op {
            LedgerOp::AddOpenPosition { owner, position } => {
                ||| self.is_unseen(position.id_key())
                ||| self.owner_of.contains_key(position.id_key()) && self.owner_of[position.id_key()]
                    == owner
            },
            _ => true,
        }
    }

    /// Every change of a run is what the chain is expected to send in
    /// the state that it meets.
    pub open spec fn expects_all(self, ops: Seq<LedgerOp>) -> bool
        decreases ops.len(),
    {
        ops.len() == 0 || (self.expects(ops[0]) && self.apply(ops[0]).expects_all(ops.drop_first()))
    }

    /// The id `id` has not been seen: it leads to no owner, and no list
    /// holds it.
    pub open spec fn is_unseen(self, id: Seq<u8>) -> bool {
        &&& !self.owner_of.contains_key(id)
        &&& forall|owner: Seq<u8>| !holds_position(#[trigger] self.open_positions(owner), id)
        &&& forall|owner: Seq<u8>| !holds_settlement(#[trigger] self.historical_positions(owner), id)
    }
}

/// The least receiver hash that holds a note id is unique.
pub proof fn lemma_first_bucket_is_unique(s: LedgerView, id: Seq<u8>, k: Seq<u8>)
    requires
        s.is_first_bucket(id, k),
    ensures
        s.has_note(id),
        s.first_bucket(id) == k,
{
    let c = s.first_bucket(id);
    assert(s.is_first_bucket(id, c));
    lemma_lex_total(c, k);
}

} // verus!
