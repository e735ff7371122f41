//! What holds of the ledger's transitions, whatever events arrive.

use vstd::prelude::*;
use crate::ledger::{
    distinct_ids, first_note, first_position, holds_note, holds_one_settlement, holds_position,
    holds_settlement, is_first_position, lemma_first_note_exists, lemma_first_position_exists,
    lemma_first_position_is_unique, LedgerOp, LedgerView, PositionDataView, Settlement,
};
use crate::models::{HistoricalPositionView, PositionView};

verus! {

/// The ledger that has seen no event is well formed, and holds every
/// position in one place only.
pub proof fn lemma_empty_is_wf()
    ensures
        LedgerView::empty().wf(),
        LedgerView::empty().exclusive(),
{
}

/// Opening a position keeps the ledger well formed.
pub proof fn lemma_add_open_position_keeps_wf(s: LedgerView, owner: Seq<u8>, position: PositionView)
    requires
        s.wf(),
    ensures
        s.add_open_position(owner, position).wf(),
{
    let t = s.add_open_position(owner, position);
    let id = position.id_key();
    let list = s.open_positions(owner);
    let grown = t.open[owner];
    assert forall|i: int| 0 <= i < list.len() implies #[trigger] grown[i] == list[i] by {}
    assert forall|o: Seq<u8>| t.open.contains_key(o) implies distinct_ids(#[trigger] t.open[o]) by {
        if o == owner {
            if s.open.contains_key(owner) {
                assert(distinct_ids(s.open[owner]));
            }
            assert forall|i: int, j: int| 0 <= i < j < grown.len() implies (#[trigger] grown[i]).id_key()
                != (#[trigger] grown[j]).id_key() by {
                if j < list.len() {
                    assert(list[i].id_key() != list[j].id_key());
                } else {
                    assert(grown[i] == list[i]);
                }
            }
        } else {
            assert(t.open[o] == s.open[o]);
        }
    }
    assert forall|k: Seq<u8>| t.owner_of.contains_key(k) implies holds_position(
        t.open_positions(#[trigger] t.owner_of[k]),
        k,
    ) by {
        if k == id {
            if holds_position(list, id) {
            } else {
                assert(grown[list.len() as int].id_key() == id);
            }
        } else {
            let o = s.owner_of[k];
            assert(holds_position(s.open_positions(o), k));
            if o == owner {
                let w = choose|i: int| 0 <= i < list.len() && (#[trigger] list[i]).id_key() == k;
                assert(grown[w].id_key() == k);
            } else {
                assert(t.open_positions(o) == s.open_positions(o));
            }
        }
    }
    assert forall|o: Seq<u8>, i: int|
        t.open.contains_key(o) && 0 <= i < t.open[o].len() implies t.records.contains_key(
        (#[trigger] t.open[o][i]).id_key(),
    ) by {
        if o == owner {
            if i < list.len() {
                assert(grown[i] == list[i]);
                assert(s.records.contains_key(s.open[owner][i].id_key()));
            }
        } else {
            assert(s.records.contains_key(s.open[o][i].id_key()));
        }
    }
    assert forall|o: Seq<u8>, i: int|
        t.historical.contains_key(o) && 0 <= i < t.historical[o].len() implies t.records.contains_key(
        (#[trigger] t.historical[o][i]).position.id_key(),
    ) by {
        assert(s.records.contains_key(s.historical[o][i].position.id_key()));
    }
}

/// Settling a position keeps the ledger well formed.
pub proof fn lemma_move_to_historical_keeps_wf(s: LedgerView, id: Seq<u8>, settlement: Settlement)
    requires
        s.wf(),
    ensures
        s.move_to_historical(id, settlement).wf(),
{
    if s.can_settle(id) {
        let t = s.move_to_historical(id, settlement);
        let owner = s.owner_of[id];
        let list = s.open_positions(owner);
        lemma_first_position_exists(list, id);
        let at = first_position(list, id);
        let rest = list.remove(at);
        let entry = s.settled_entry(id, settlement);
        assert(s.open.contains_key(owner));
        assert(distinct_ids(s.open[owner]));
        assert forall|o: Seq<u8>| t.open.contains_key(o) implies distinct_ids(#[trigger] t.open[o]) by {
            if o == owner {
                assert forall|i: int, j: int| 0 <= i < j < rest.len() implies (#[trigger] rest[i]).id_key()
                    != (#[trigger] rest[j]).id_key() by {
                    let i0 = if i < at { i } else { i + 1 };
                    let j0 = if j < at { j } else { j + 1 };
                    assert(rest[i] == list[i0]);
                    assert(rest[j] == list[j0]);
                    assert(list[i0].id_key() != list[j0].id_key());
                }
            } else {
                assert(t.open[o] == s.open[o]);
            }
        }
        assert forall|k: Seq<u8>| t.owner_of.contains_key(k) implies holds_position(
            t.open_positions(#[trigger] t.owner_of[k]),
            k,
        ) by {
            let o = s.owner_of[k];
            assert(holds_position(s.open_positions(o), k));
            if o == owner {
                let w = choose|i: int| 0 <= i < list.len() && (#[trigger] list[i]).id_key() == k;
                let w1 = if w < at { w } else { w - 1 };
                assert(rest[w1] == list[w]);
                assert(rest[w1].id_key() == k);
            } else {
                assert(t.open_positions(o) == s.open_positions(o));
            }
        }
        assert forall|o: Seq<u8>, i: int|
            t.open.contains_key(o) && 0 <= i < t.open[o].len() implies t.records.contains_key(
            (#[trigger] t.open[o][i]).id_key(),
        ) by {
            if o == owner {
                let i0 = if i < at { i } else { i + 1 };
                assert(rest[i] == list[i0]);
                assert(s.records.contains_key(s.open[owner][i0].id_key()));
            } else {
                assert(s.records.contains_key(s.open[o][i].id_key()));
            }
        }
        assert forall|o: Seq<u8>, i: int|
            t.historical.contains_key(o) && 0 <= i < t.historical[o].len() implies t.records.contains_key(
            (#[trigger] t.historical[o][i]).position.id_key(),
        ) by {
            if o == owner {
                if i == 0 {
                    assert(t.historical[o][0] == entry);
                } else {
                    assert(t.historical[o][i] == s.historical_positions(owner)[i - 1]);
                    assert(s.records.contains_key(s.historical[owner][i - 1].position.id_key()));
                }
            } else {
                assert(s.records.contains_key(s.historical[o][i].position.id_key()));
            }
        }
    }
}

/// Every change keeps the ledger well formed.
pub proof fn lemma_apply_keeps_wf(s: LedgerView, op: LedgerOp)
    requires
        s.wf(),
    ensures
        s.apply(op).wf(),
{
    match op {
        LedgerOp::AddOpenPosition { owner, position } => {
            lemma_add_open_position_keeps_wf(s, owner, position);
        },
        LedgerOp::MoveToHistorical { id, settlement } => {
            lemma_move_to_historical_keeps_wf(s, id, settlement);
        },
        LedgerOp::AddUnspentNote { receiver, note } => {},
        LedgerOp::RemoveUnspentNote { id } => {},
        LedgerOp::SetUserMetadata { owner, blob } => {},
    }
}

/// Every run of changes keeps the ledger well formed: each state that
/// events lead to from the empty ledger is well formed.
pub proof fn lemma_apply_all_keeps_wf(s: LedgerView, ops: Seq<LedgerOp>)
    requires
        s.wf(),
    ensures
        s.apply_all(ops).wf(),
    decreases ops.len(),
{
    if ops.len() > 0 {
        lemma_apply_keeps_wf(s, ops[0]);
        lemma_apply_all_keeps_wf(s.apply(ops[0]), ops.drop_first());
    }
}

/// While the chain sends what is expected of it, every position stays
/// in one place only.
pub proof fn lemma_apply_keeps_exclusive(s: LedgerView, op: LedgerOp)
    requires
        s.wf(),
        s.exclusive(),
        s.expects(op),
    ensures
        s.apply(op).exclusive(),
{
    let t = s.apply(op);
    match op {
        LedgerOp::AddOpenPosition { owner, position } => {
            let id = position.id_key();
            let list = s.open_positions(owner);
            let grown = t.open[owner];
            assert forall|i: int| 0 <= i < list.len() implies #[trigger] grown[i] == list[i] by {}
            assert forall|o: Seq<u8>, i: int| #[trigger] t.open_at(o, i) implies {
                &&& t.owner_of.contains_key(t.open[o][i].id_key())
                &&& t.owner_of[t.open[o][i].id_key()] == o
            } by {
                if o == owner {
                    if i < list.len() {
                        assert(s.open_at(o, i));
                    }
                } else {
                    assert(s.open_at(o, i));
                    if s.open[o][i].id_key() == id {
                        assert(holds_position(s.open_positions(o), id));
                    }
                }
            }
            assert forall|o1: Seq<u8>, i: int, o2: Seq<u8>, j: int|
                #[trigger] t.settled_at(o1, i) && #[trigger] t.open_at(o2, j) implies t.historical[o1][i].position.id_key()
                != t.open[o2][j].id_key() by {
                assert(s.settled_at(o1, i));
                if o2 == owner && j >= list.len() {
                    // the position that was just added
                    if s.is_unseen(id) {
                        assert(!holds_settlement(s.historical_positions(o1), id));
                    } else {
                        assert(holds_position(s.open_positions(owner), id));
                    }
                } else {
                    assert(s.open_at(o2, j));
                    if o2 == owner {
                        assert(grown[j] == list[j]);
                    }
                }
            }
            assert forall|o1: Seq<u8>, i: int, o2: Seq<u8>, j: int|
                #[trigger] t.settled_at(o1, i) && #[trigger] t.settled_at(o2, j)
                    && t.historical[o1][i].position.id_key()
                    == t.historical[o2][j].position.id_key() implies o1 == o2 && i == j by {
                assert(s.settled_at(o1, i) && s.settled_at(o2, j));
            }
        },
        LedgerOp::MoveToHistorical { id, settlement } => {
            if s.can_settle(id) {
                let owner = s.owner_of[id];
                let list = s.open_positions(owner);
                lemma_first_position_exists(list, id);
                let at = first_position(list, id);
                let rest = list.remove(at);
                let entry = s.settled_entry(id, settlement);
                let old_history = s.historical_positions(owner);
                assert(s.open.contains_key(owner));
                assert(distinct_ids(s.open[owner]));
                assert(s.open_at(owner, at));
                // the id was open, so it was settled nowhere, and it is open nowhere now
                assert forall|o: Seq<u8>, j: int| #[trigger] t.open_at(o, j) implies t.open[o][j].id_key()
                    != id by {
                    if o == owner {
                        let j0 = if j < at { j } else { j + 1 };
                        assert(rest[j] == list[j0]);
                        if j0 < at {
                            assert(list[j0].id_key() != list[at].id_key());
                        } else {
                            assert(list[at].id_key() != list[j0].id_key());
                        }
                    } else {
                        assert(s.open_at(o, j));
                    }
                }
                assert forall|o: Seq<u8>, j: int| #[trigger] t.open_at(o, j) implies {
                    &&& t.owner_of.contains_key(t.open[o][j].id_key())
                    &&& t.owner_of[t.open[o][j].id_key()] == o
                } by {
                    if o == owner {
                        let j0 = if j < at { j } else { j + 1 };
                        assert(rest[j] == list[j0]);
                        assert(s.open_at(o, j0));
                    } else {
                        assert(s.open_at(o, j));
                    }
                }
                assert forall|o1: Seq<u8>, i: int, o2: Seq<u8>, j: int|
                    #[trigger] t.settled_at(o1, i) && #[trigger] t.open_at(o2, j) implies t.historical[o1][i].position.id_key()
                    != t.open[o2][j].id_key() by {
                    if o1 == owner && i == 0 {
                        assert(t.historical[o1][0] == entry);
                    } else {
                        let i0 = if o1 == owner { i - 1 } else { i };
                        assert(s.settled_at(o1, i0));
                        assert(t.historical[o1][i] == s.historical[o1][i0]);
                        if o2 == owner {
                            let j0 = if j < at { j } else { j + 1 };
                            assert(rest[j] == list[j0]);
                            assert(s.open_at(o2, j0));
                        } else {
                            assert(s.open_at(o2, j));
                        }
                    }
                }
                assert forall|o1: Seq<u8>, i: int, o2: Seq<u8>, j: int|
                    #[trigger] t.settled_at(o1, i) && #[trigger] t.settled_at(o2, j)
                        && t.historical[o1][i].position.id_key()
                        == t.historical[o2][j].position.id_key() implies o1 == o2 && i == j by {
                    let new1 = o1 == owner && i == 0;
                    let new2 = o2 == owner && j == 0;
                    let i0 = if o1 == owner { i - 1 } else { i };
                    let j0 = if o2 == owner { j - 1 } else { j };
                    if !new1 {
                        assert(s.settled_at(o1, i0));
                        assert(t.historical[o1][i] == s.historical[o1][i0]);
                    }
                    if !new2 {
                        assert(s.settled_at(o2, j0));
                        assert(t.historical[o2][j] == s.historical[o2][j0]);
                    }
                    if new1 {
                        assert(t.historical[o1][0] == entry);
                    }
                    if new2 {
                        assert(t.historical[o2][0] == entry);
                    }
                }
            }
        },
        LedgerOp::AddUnspentNote { receiver, note } => {
            assert forall|o: Seq<u8>, i: int| t.open_at(o, i) == s.open_at(o, i) by {}
            assert forall|o: Seq<u8>, i: int| t.settled_at(o, i) == s.settled_at(o, i) by {}
        },
        LedgerOp::RemoveUnspentNote { id } => {
            assert forall|o: Seq<u8>, i: int| t.open_at(o, i) == s.open_at(o, i) by {}
            assert forall|o: Seq<u8>, i: int| t.settled_at(o, i) == s.settled_at(o, i) by {}
        },
        LedgerOp::SetUserMetadata { owner, blob } => {
            assert forall|o: Seq<u8>, i: int| t.open_at(o, i) == s.open_at(o, i) by {}
            assert forall|o: Seq<u8>, i: int| t.settled_at(o, i) == s.settled_at(o, i) by {}
        },
    }
}

/// While the chain sends what is expected of it, every state that a
/// run of changes leads to holds every position in one place only.
pub proof fn lemma_apply_all_keeps_exclusive(s: LedgerView, ops: Seq<LedgerOp>)
    requires
        s.wf(),
        s.exclusive(),
        s.expects_all(ops),
    ensures
        s.apply_all(ops).wf(),
        s.apply_all(ops).exclusive(),
    decreases ops.len(),
{
    if ops.len() > 0 {
        lemma_apply_keeps_wf(s, ops[0]);
        lemma_apply_keeps_exclusive(s, ops[0]);
        lemma_apply_all_keeps_exclusive(s.apply(ops[0]), ops.drop_first());
    }
}

/// Where every position is in one place only, an id leads to an owner
/// if and only if the position is open, and then to the owner in whose
/// list it stands.
pub proof fn lemma_indexed_iff_open(s: LedgerView, id: Seq<u8>, owner: Seq<u8>)
    requires
        s.wf(),
        s.exclusive(),
    ensures
        holds_position(s.open_positions(owner), id) <==> s.owner_of.contains_key(id)
            && s.owner_of[id] == owner,
        holds_position(s.open_positions(owner), id) ==> forall|other: Seq<u8>|
            !holds_settlement(#[trigger] s.historical_positions(other), id),
{
    if holds_position(s.open_positions(owner), id) {
        let i = choose|i: int|
            0 <= i < s.open_positions(owner).len() && (#[trigger] s.open_positions(owner)[i]).id_key()
                == id;
        assert(s.open_at(owner, i));
        assert forall|other: Seq<u8>| !holds_settlement(#[trigger] s.historical_positions(other), id) by {
            if holds_settlement(s.historical_positions(other), id) {
                let j = choose|j: int|
                    0 <= j < s.historical_positions(other).len() && (
                    #[trigger] s.historical_positions(other)[j]).position.id_key() == id;
                assert(s.settled_at(other, j));
            }
        }
    }
}

/// A record under a position id is never deleted, only written again.
pub proof fn lemma_records_are_kept(s: LedgerView, op: LedgerOp, id: Seq<u8>)
    requires
        s.records.contains_key(id),
    ensures
        s.apply(op).records.contains_key(id),
{
}

/// Changes to positions leave every note where it is, and changes to
/// notes leave every position where it is.
pub proof fn lemma_positions_and_notes_are_apart(s: LedgerView, op: LedgerOp)
    ensures
        (op is AddOpenPosition || op is MoveToHistorical) ==> s.apply(op).unspent_notes
            == s.unspent_notes,
        (op is AddUnspentNote || op is RemoveUnspentNote) ==> {
            &&& s.apply(op).open == s.open
            &&& s.apply(op).historical == s.historical
            &&& s.apply(op).owner_of == s.owner_of
            &&& s.apply(op).records == s.records
        },
{
}

/// A second delivery of an opening changes nothing.
pub proof fn lemma_second_open_changes_nothing(s: LedgerView, owner: Seq<u8>, position: PositionView)
    ensures
        s.add_open_position(owner, position).add_open_position(owner, position)
            == s.add_open_position(owner, position),
{
    let t = s.add_open_position(owner, position);
    let u = t.add_open_position(owner, position);
    let id = position.id_key();
    let list = s.open_positions(owner);
    if !holds_position(list, id) {
        assert(t.open[owner][list.len() as int].id_key() == id);
    }
    assert(holds_position(t.open_positions(owner), id));
    assert(u.open =~= t.open);
    assert(u.owner_of =~= t.owner_of);
    assert(u.records =~= t.records);
}

/// A second delivery of a closing changes nothing, whatever it reports:
/// the history keeps its length.
pub proof fn lemma_second_close_changes_nothing(
    s: LedgerView,
    id: Seq<u8>,
    first: Settlement,
    second: Settlement,
)
    ensures
        s.move_to_historical(id, first).move_to_historical(id, second) == s.move_to_historical(
            id,
            first,
        ),
        forall|owner: Seq<u8>|
            s.move_to_historical(id, first).move_to_historical(id, second).historical_positions(
                owner,
            ).len() == (#[trigger] s.move_to_historical(id, first).historical_positions(owner)).len(),
{
}

/// A closing of an id that leads to no owner changes nothing.
pub proof fn lemma_close_of_unknown_changes_nothing(s: LedgerView, id: Seq<u8>, settlement: Settlement)
    requires
        !s.owner_of.contains_key(id),
    ensures
        s.move_to_historical(id, settlement) == s,
{
}

/// The changes that a position's life sends: the same opening `opens`
/// times, then the closings of its id.
pub open spec fn opened_then_closed(
    owner: Seq<u8>,
    position: PositionView,
    opens: nat,
    closings: Seq<Settlement>,
) -> Seq<LedgerOp> {
    Seq::new(opens, |i: int| LedgerOp::AddOpenPosition { owner, position }) + Seq::new(
        closings.len(),
        |i: int| LedgerOp::MoveToHistorical { id: position.id_key(), settlement: closings[i] },
    )
}

/// A run of changes can be applied in two parts.
pub proof fn lemma_apply_all_in_parts(s: LedgerView, first: Seq<LedgerOp>, second: Seq<LedgerOp>)
    ensures
        s.apply_all(first + second) == s.apply_all(first).apply_all(second),
    decreases first.len(),
{
    if first.len() == 0 {
        assert(first + second =~= second);
    } else {
        assert((first + second).drop_first() =~= first.drop_first() + second);
        lemma_apply_all_in_parts(s.apply(first[0]), first.drop_first(), second);
    }
}

proof fn lemma_repeated_opens(s: LedgerView, owner: Seq<u8>, position: PositionView, opens: nat)
    requires
        opens >= 1,
    ensures
        s.apply_all(Seq::new(opens, |i: int| LedgerOp::AddOpenPosition { owner, position }))
            == s.add_open_position(owner, position),
    decreases opens,
{
    let ops = Seq::new(opens, |i: int| LedgerOp::AddOpenPosition { owner, position });
    let rest = Seq::new((opens - 1) as nat, |i: int| LedgerOp::AddOpenPosition { owner, position });
    assert(ops.drop_first() =~= rest);
    if opens == 1 {
        assert(s.apply(ops[0]).apply_all(rest) == s.apply(ops[0]));
    } else {
        lemma_repeated_opens(s.add_open_position(owner, position), owner, position, (opens - 1) as nat);
        lemma_second_open_changes_nothing(s, owner, position);
    }
}

proof fn lemma_repeated_closes(s: LedgerView, id: Seq<u8>, closings: Seq<Settlement>)
    requires
        closings.len() >= 1,
    ensures
        s.apply_all(
            Seq::new(
                closings.len(),
                |i: int| LedgerOp::MoveToHistorical { id, settlement: closings[i] },
            ),
        ) == s.move_to_historical(id, closings[0]),
    decreases closings.len(),
{
    let ops = Seq::new(
        closings.len(),
        |i: int| LedgerOp::MoveToHistorical { id, settlement: closings[i] },
    );
    let later = closings.drop_first();
    let rest = Seq::new(later.len(), |i: int| LedgerOp::MoveToHistorical { id, settlement: later[i] });
    assert(ops.drop_first() =~= rest);
    let t = s.move_to_historical(id, closings[0]);
    if closings.len() == 1 {
        assert(t.apply_all(rest) == t);
    } else {
        lemma_repeated_closes(t, id, later);
        lemma_second_close_changes_nothing(s, id, closings[0], later[0]);
    }
}

/// A position that is opened and then closed is settled exactly once
/// and is open no more, however often each event is delivered: of an id
/// that the ledger has not seen, any number of openings followed by any
/// number of closings leaves the position in no open list, once in its
/// owner's history with what the first closing reported, and in no
/// other history.
pub proof fn lemma_opened_then_closed(
    s: LedgerView,
    owner: Seq<u8>,
    position: PositionView,
    opens: nat,
    closings: Seq<Settlement>,
)
    requires
        s.is_unseen(position.id_key()),
        opens >= 1,
        closings.len() >= 1,
    ensures
        ({
            let id = position.id_key();
            let t = s.apply_all(opened_then_closed(owner, position, opens, closings));
            let entry = HistoricalPositionView {
                position,
                status: closings[0].status,
                final_pnl: closings[0].final_pnl,
                owner_address: closings[0].owner_address,
            };
            &&& t == s.add_open_position(owner, position).move_to_historical(id, closings[0])
            &&& forall|o: Seq<u8>| !holds_position(#[trigger] t.open_positions(o), id)
            &&& t.historical_positions(owner) == seq![entry] + s.historical_positions(owner)
            &&& holds_one_settlement(t.historical_positions(owner), id)
            &&& forall|o: Seq<u8>| o != owner ==> !holds_settlement(#[trigger] t.historical_positions(o), id)
            &&& !t.owner_of.contains_key(id)
            &&& t.records[id] == PositionDataView::Historical(entry)
        }),
{
    let id = position.id_key();
    let opening = Seq::new(opens, |i: int| LedgerOp::AddOpenPosition { owner, position });
    let closing = Seq::new(
        closings.len(),
        |i: int| LedgerOp::MoveToHistorical { id, settlement: closings[i] },
    );
    lemma_apply_all_in_parts(s, opening, closing);
    lemma_repeated_opens(s, owner, position, opens);
    let s1 = s.add_open_position(owner, position);
    lemma_repeated_closes(s1, id, closings);
    let t = s1.move_to_historical(id, closings[0]);
    let list = s.open_positions(owner);
    assert(!holds_position(list, id));
    let grown = s1.open_positions(owner);
    assert(grown == list.push(position));
    assert(grown[list.len() as int].id_key() == id);
    assert forall|j: int| 0 <= j < list.len() implies (#[trigger] grown[j]).id_key() != id by {
        assert(grown[j] == list[j]);
    }
    assert(is_first_position(grown, id, list.len() as int));
    lemma_first_position_is_unique(grown, id, list.len() as int);
    assert(grown.remove(list.len() as int) =~= list);
    let entry = s1.settled_entry(id, closings[0]);
    assert forall|o: Seq<u8>| !holds_position(#[trigger] t.open_positions(o), id) by {
        if o == owner {
            assert(t.open_positions(o) == list);
        } else {
            assert(t.open_positions(o) == s.open_positions(o));
        }
    }
    let history = t.historical_positions(owner);
    assert(history == seq![entry] + s.historical_positions(owner));
    assert(history[0].position.id_key() == id);
    assert forall|j: int| 0 <= j < history.len() && j != 0 implies (#[trigger] history[j]).position.id_key()
        != id by {
        assert(history[j] == s.historical_positions(owner)[j - 1]);
        assert(!holds_settlement(s.historical_positions(owner), id));
    }
    assert forall|o: Seq<u8>| o != owner implies !holds_settlement(
        #[trigger] t.historical_positions(o),
        id,
    ) by {
        assert(t.historical_positions(o) == s.historical_positions(o));
    }
}

/// The history is newest first: of two open positions of one owner, the
/// one that is settled later stands before the other, and both stand
/// before all that was settled earlier.
pub proof fn lemma_history_is_newest_first(
    s: LedgerView,
    a: Seq<u8>,
    b: Seq<u8>,
    first: Settlement,
    second: Settlement,
)
    requires
        a != b,
        s.can_settle(a),
        s.can_settle(b),
        s.owner_of[a] == s.owner_of[b],
    ensures
        ({
            let owner = s.owner_of[a];
            let t = s.move_to_historical(a, first).move_to_historical(b, second);
            t.historical_positions(owner) == seq![
                s.settled_entry(b, second),
                s.settled_entry(a, first),
            ] + s.historical_positions(owner)
        }),
{
    let owner = s.owner_of[a];
    let list = s.open_positions(owner);
    lemma_first_position_exists(list, a);
    lemma_first_position_exists(list, b);
    let at_a = first_position(list, a);
    let at_b = first_position(list, b);
    let s1 = s.move_to_historical(a, first);
    let rest = list.remove(at_a);
    assert(s1.open_positions(owner) == rest);
    let at_b1 = if at_b < at_a { at_b } else { at_b - 1 };
    assert(rest[at_b1] == list[at_b]);
    assert forall|j: int| 0 <= j < at_b1 implies (#[trigger] rest[j]).id_key() != b by {
        let j0 = if j < at_a { j } else { j + 1 };
        assert(rest[j] == list[j0]);
        assert(list[j0].id_key() != b);
    }
    assert(is_first_position(rest, b, at_b1));
    lemma_first_position_is_unique(rest, b, at_b1);
    assert(s1.can_settle(b));
    assert(s1.settled_entry(b, second) == s.settled_entry(b, second));
    let t = s1.move_to_historical(b, second);
    assert(t.historical_positions(owner) =~= seq![
        s.settled_entry(b, second),
        s.settled_entry(a, first),
    ] + s.historical_positions(owner));
}

/// A claim of a note that no list holds changes nothing.
pub proof fn lemma_claim_of_unknown_changes_nothing(s: LedgerView, id: Seq<u8>)
    requires
        !s.has_note(id),
    ensures
        s.remove_unspent_note(id) == s,
{
}

/// A claim takes one note away, and only from the first list that
/// held a note of that id.
pub proof fn lemma_claim_takes_one_note(s: LedgerView, id: Seq<u8>)
    requires
        s.is_first_bucket(id, s.first_bucket(id)),
    ensures
        ({
            let k = s.first_bucket(id);
            let t = s.remove_unspent_note(id);
            &&& t.notes_of(k).len() + 1 == s.notes_of(k).len()
            &&& forall|other: Seq<u8>| other != k ==> #[trigger] t.notes_of(other) == s.notes_of(other)
        }),
{
    let k = s.first_bucket(id);
    assert(s.has_note(id));
    let list = s.unspent_notes[k];
    lemma_first_note_exists(list, id);
    let t = s.remove_unspent_note(id);
    assert forall|other: Seq<u8>| other != k implies #[trigger] t.notes_of(other) == s.notes_of(other) by {}
}

} // verus!
