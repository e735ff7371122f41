//! From the chain's events to the ledger: the controller that replays
//! history in bounded block ranges and then follows the head, and the
//! handlers that turn each event into one change of the ledger.

use vstd::prelude::*;
use vstd::string::StringExecFns;
use crate::byte_order::bytes_equal;
use crate::database::{id_key, Database};
use crate::decimal::{signed_decimal, signed_decimal_chars, unsigned_decimal, unsigned_decimal_chars};
use crate::digest::keccak256_digest;
use crate::hex_codec::{lemma_prefixed_hex_decodes, prefixed_hex, prefixed_hex_chars};
use crate::keys::{note_id, note_preimage, owner_key_from_address, padded_address};
use crate::ledger::{LedgerOp, LedgerView, Settlement};
use crate::ledger_laws::lemma_apply_all_in_parts;
use crate::models::{Note, NoteView, Position, PositionStatus, PositionView, UnspentNote, UnspentNoteView};

verus! {

/// The most blocks that one historical query spans.
pub const BLOCK_CHUNK_SIZE: u64 = 2_000;

/// The pause between two historical queries, in milliseconds.
pub const DELAY_BETWEEN_CHUNKS_MS: u64 = 500;

/// A position was opened through the privacy proxy, for a hashed key.
/// Amounts are 32-byte words, as the chain reports them.
#[derive(Clone, Copy, Debug, PartialEq, Eq)]
pub struct PositionOpened {
    pub position_id: [u8; 32],
    pub owner_pub_key: [u8; 32],
    pub is_long: bool,
    pub entry_price: [u8; 32],
    pub margin: [u8; 32],
    pub size: [u8; 32],
}

/// A position was opened at the clearing house, for an account.
#[derive(Clone, Copy, Debug, PartialEq, Eq)]
pub struct PublicPositionOpened {
    pub position_id: [u8; 32],
    pub user: [u8; 20],
    pub is_long: bool,
    pub entry_price: [u8; 32],
    pub margin: [u8; 32],
    pub size: [u8; 32],
}

/// A position was closed by its owner, with a profit or loss in two's
/// complement.
#[derive(Clone, Copy, Debug, PartialEq, Eq)]
pub struct PositionClosed {
    pub position_id: [u8; 32],
    pub user: [u8; 20],
    pub pnl: [u8; 32],
}

/// A position was liquidated.
#[derive(Clone, Copy, Debug, PartialEq, Eq)]
pub struct PositionLiquidated {
    pub position_id: [u8; 32],
    pub user: [u8; 20],
}

/// A note was created in the token pool.
#[derive(Clone, Copy, Debug, PartialEq, Eq)]
pub struct NoteCreated {
    pub note_nonce: u64,
    pub receiver_hash: [u8; 32],
    pub amount: [u8; 32],
}

/// A note was claimed from the token pool.
#[derive(Clone, Copy, Debug, PartialEq, Eq)]
pub struct NoteClaimed {
    pub note_id: [u8; 32],
}

/// An event of a live subscription.
#[derive(Clone, Copy, Debug, PartialEq, Eq)]
pub enum ChainEvent {
    PositionOpened(PositionOpened),
    PositionClosed(PositionClosed),
    PositionLiquidated(PositionLiquidated),
    NoteCreated(NoteCreated),
    NoteClaimed(NoteClaimed),
    PublicPositionOpened(PublicPositionOpened),
}

/// What the historical queries of one block range returned, by event
/// type and in the order returned.
#[derive(Debug, PartialEq, Eq)]
pub struct ChunkEvents {
    pub positions_opened: Vec<PositionOpened>,
    pub positions_closed: Vec<PositionClosed>,
    pub positions_liquidated: Vec<PositionLiquidated>,
    pub notes_created: Vec<NoteCreated>,
    pub notes_claimed: Vec<NoteClaimed>,
}

/// The position that an opening event describes: its id as hex text,
/// its amounts as decimal text.
pub open spec fn opened_position(
    position_id: Seq<u8>,
    is_long: bool,
    entry_price: Seq<u8>,
    margin: Seq<u8>,
    size: Seq<u8>,
) -> PositionView {
    PositionView {
        position_id: prefixed_hex_chars(position_id),
        is_long,
        entry_price: unsigned_decimal_chars(entry_price),
        margin: unsigned_decimal_chars(margin),
        size: unsigned_decimal_chars(size),
    }
}

/// The note that a creation event describes, given the note's id.
pub open spec fn created_note(id: Seq<u8>, log: NoteCreated) -> UnspentNoteView {
    UnspentNoteView {
        note_id: prefixed_hex_chars(id),
        note: NoteView {
            note_nonce: log.note_nonce,
            receiver_hash: prefixed_hex_chars(log.receiver_hash@),
            value: unsigned_decimal_chars(log.amount@),
        },
    }
}

impl PositionOpened {
    /// The change that this event causes.
    pub open spec fn op(self) -> LedgerOp {
        LedgerOp::AddOpenPosition {
            owner: self.owner_pub_key@,
            position: opened_position(
                self.position_id@,
                self.is_long,
                self.entry_price@,
                self.margin@,
                self.size@,
            ),
        }
    }
}

impl PublicPositionOpened {
    /// The change that this event causes: none when the proxy itself is
    /// the user, else an opening under the user's padded address.
    pub open spec fn op(self, proxy_address: Seq<u8>) -> Option<LedgerOp> {
        if self.user@ == proxy_address {
            None
        } else {
            Some(
                LedgerOp::AddOpenPosition {
                    owner: padded_address(self.user@),
                    position: opened_position(
                        self.position_id@,
                        self.is_long,
                        self.entry_price@,
                        self.margin@,
                        self.size@,
                    ),
                },
            )
        }
    }
}

impl PositionClosed {
    /// The change that this event causes.
    pub open spec fn op(self) -> LedgerOp {
        LedgerOp::MoveToHistorical {
            id: id_key(self.position_id@),
            settlement: Settlement {
                status: PositionStatus::Closed,
                final_pnl: signed_decimal_chars(self.pnl@),
                owner_address: prefixed_hex_chars(self.user@),
            },
        }
    }
}

impl PositionLiquidated {
    /// The change that this event causes; a liquidation reports no
    /// profit or loss, so the word `Liquidated` stands in its place.
    pub open spec fn op(self) -> LedgerOp {
        LedgerOp::MoveToHistorical {
            id: id_key(self.position_id@),
            settlement: Settlement {
                status: PositionStatus::Liquidated,
                final_pnl: "Liquidated"@,
                owner_address: prefixed_hex_chars(self.user@),
            },
        }
    }
}

impl NoteCreated {
    /// The change that this event causes, given the note's id.
    pub open spec fn op_with_id(self, id: Seq<u8>) -> LedgerOp {
        LedgerOp::AddUnspentNote { receiver: self.receiver_hash@, note: created_note(id, self) }
    }

    /// The change that this event causes for a note of the token
    /// `token_address`.
    pub open spec fn op(self, token_address: Seq<u8>) -> LedgerOp {
        self.op_with_id(keccak256_digest(note_preimage(token_address, self.note_nonce)))
    }
}

impl NoteClaimed {
    /// The change that this event causes.
    pub open spec fn op(self) -> LedgerOp {
        LedgerOp::RemoveUnspentNote { id: id_key(self.note_id@) }
    }
}

impl ChainEvent {
    /// The change that this event causes, if any.
    pub open spec fn op(self, token_address: Seq<u8>, proxy_address: Seq<u8>) -> Option<LedgerOp> {
        match self {
            ChainEvent::PositionOpened(log) => Some(log.op()),
            ChainEvent::PositionClosed(log) => Some(log.op()),
            ChainEvent::PositionLiquidated(log) => Some(log.op()),
            ChainEvent::NoteCreated(log) => Some(log.op(token_address)),
            ChainEvent::NoteClaimed(log) => Some(log.op()),
            ChainEvent::PublicPositionOpened(log) => log.op(proxy_address),
        }
    }
}

impl ChunkEvents {
    /// The changes that a block range causes: all openings, then all
    /// closings, liquidations, created notes and claimed notes, each
    /// type in the order returned.
    pub open spec fn ops(self, token_address: Seq<u8>) -> Seq<LedgerOp> {
        Seq::new(self.positions_opened@.len(), |i: int| self.positions_opened@[i].op()) + Seq::new(
            self.positions_closed@.len(),
            |i: int| self.positions_closed@[i].op(),
        ) + Seq::new(self.positions_liquidated@.len(), |i: int| self.positions_liquidated@[i].op())
            + Seq::new(
            self.notes_created@.len(),
            |i: int| self.notes_created@[i].op(token_address),
        ) + Seq::new(self.notes_claimed@.len(), |i: int| self.notes_claimed@[i].op())
    }
}

/// Records a position that was opened through the privacy proxy.
pub fn handle_position_opened(db: &mut Database, log: &PositionOpened)
    ensures
        final(db)@ == old(db)@.apply(log.op()),
{
    let position = Position {
        position_id: prefixed_hex(log.position_id.as_slice()),
        is_long: log.is_long,
        entry_price: unsigned_decimal(&log.entry_price),
        margin: unsigned_decimal(&log.margin),
        size: unsigned_decimal(&log.size),
    };
    db.add_open_position(log.owner_pub_key.as_slice(), position);
}

/// Records a position that an account opened at the clearing house
/// itself. Openings by the privacy proxy are left to the proxy's own
/// event.
pub fn handle_public_pos_opened(db: &mut Database, log: &PublicPositionOpened, proxy_address: &[u8; 20])
    ensures
        final(db)@ == match log.op(proxy_address@) {
            Some(op) => old(db)@.apply(op),
            None => old(db)@,
        },
{
    if same_address(&log.user, proxy_address) {
        return ;
    }
    let position = Position {
        position_id: prefixed_hex(log.position_id.as_slice()),
        is_long: log.is_long,
        entry_price: unsigned_decimal(&log.entry_price),
        margin: unsigned_decimal(&log.margin),
        size: unsigned_decimal(&log.size),
    };
    let owner_id = owner_key_from_address(&log.user);
    db.add_open_position(owner_id.as_slice(), position);
}

fn same_address(a: &[u8; 20], b: &[u8; 20]) -> (r: bool)
    ensures
        r == (a@ == b@),
{
    bytes_equal(a.as_slice(), b.as_slice())
}

/// Settles a position that its owner closed.
pub fn handle_position_closed(db: &mut Database, log: &PositionClosed)
    ensures
        final(db)@ == old(db)@.apply(log.op()),
{
    db.move_to_historical(
        log.position_id.as_slice(),
        PositionStatus::Closed,
        signed_decimal(&log.pnl),
        prefixed_hex(log.user.as_slice()),
    );
}

/// Settles a position that was liquidated.
pub fn handle_position_liquidated(db: &mut Database, log: &PositionLiquidated)
    ensures
        final(db)@ == old(db)@.apply(log.op()),
{
    let pnl = String::from_str("Liquidated");
    db.move_to_historical(
        log.position_id.as_slice(),
        PositionStatus::Liquidated,
        pnl,
        prefixed_hex(log.user.as_slice()),
    );
}

/// Records a created note under the id `id`, in the list of the
/// event's receiver hash.
pub fn record_created_note(db: &mut Database, id: &[u8; 32], log: &NoteCreated)
    ensures
        final(db)@ == old(db)@.apply(log.op_with_id(id@)),
{
    let unspent_note = UnspentNote {
        note_id: prefixed_hex(id.as_slice()),
        note: Note {
            note_nonce: log.note_nonce,
            receiver_hash: prefixed_hex(log.receiver_hash.as_slice()),
            value: unsigned_decimal(&log.amount),
        },
    };
    proof {
        lemma_prefixed_hex_decodes(log.receiver_hash@);
    }
    let _ = db.add_unspent_note(&unspent_note);
}

/// Records a created note of the token `token_address`; the note's id
/// is the digest of the token's address and the note's nonce.
pub fn handle_note_created(db: &mut Database, log: &NoteCreated, token_address: &[u8; 20])
    ensures
        final(db)@ == old(db)@.apply(log.op(token_address@)),
{
    let id = note_id(token_address, log.note_nonce);
    record_created_note(db, &id, log);
}

/// Takes a claimed note out of the ledger.
pub fn handle_note_claimed(db: &mut Database, log: &NoteClaimed)
    ensures
        final(db)@ == old(db)@.apply(log.op()),
{
    db.remove_unspent_note(log.note_id.as_slice());
}

/// Hands an event of a live subscription to its handler.
pub fn dispatch(
    db: &mut Database,
    event: &ChainEvent,
    token_address: &[u8; 20],
    proxy_address: &[u8; 20],
)
    ensures
        final(db)@ == match event.op(token_address@, proxy_address@) {
            Some(op) => old(db)@.apply(op),
            None => old(db)@,
        },
{
    match event {
        ChainEvent::PositionOpened(log) => handle_position_opened(db, log),
        ChainEvent::PositionClosed(log) => handle_position_closed(db, log),
        ChainEvent::PositionLiquidated(log) => handle_position_liquidated(db, log),
        ChainEvent::NoteCreated(log) => handle_note_created(db, log, token_address),
        ChainEvent::NoteClaimed(log) => handle_note_claimed(db, log),
        ChainEvent::PublicPositionOpened(log) => handle_public_pos_opened(db, log, proxy_address),
    }
}

proof fn lemma_apply_one_more(s: LedgerView, ops: Seq<LedgerOp>, done: int)
    requires
        0 <= done < ops.len(),
    ensures
        s.apply_all(ops.subrange(0, done + 1)) == s.apply_all(ops.subrange(0, done)).apply(ops[done]),
{
    let head = ops.subrange(0, done);
    let one = seq![ops[done]];
    assert(ops.subrange(0, done + 1) =~= head + one);
    lemma_apply_all_in_parts(s, head, one);
    let t = s.apply_all(head);
    assert(one.drop_first() =~= Seq::<LedgerOp>::empty());
    assert(t.apply_all(one) == t.apply(one[0]).apply_all(one.drop_first()));
}

/// Applies what the historical queries of one block range returned:
/// every event is handed to its handler, type by type.
pub fn apply_chunk(db: &mut Database, chunk: &ChunkEvents, token_address: &[u8; 20])
    ensures
        final(db)@ == old(db)@.apply_all(chunk.ops(token_address@)),
{
    let ghost s0 = db@;
    let ghost opened = Seq::new(
        chunk.positions_opened@.len(),
        |i: int| chunk.positions_opened@[i].op(),
    );
    let ghost closed = Seq::new(
        chunk.positions_closed@.len(),
        |i: int| chunk.positions_closed@[i].op(),
    );
    let ghost liquidated = Seq::new(
        chunk.positions_liquidated@.len(),
        |i: int| chunk.positions_liquidated@[i].op(),
    );
    let ghost created = Seq::new(
        chunk.notes_created@.len(),
        |i: int| chunk.notes_created@[i].op(token_address@),
    );
    let ghost claimed = Seq::new(chunk.notes_claimed@.len(), |i: int| chunk.notes_claimed@[i].op());

    let mut i: usize = 0;
    assert(opened.subrange(0, 0) =~= Seq::<LedgerOp>::empty());
    while i < chunk.positions_opened.len()
        invariant
            i <= chunk.positions_opened.len(),
            opened.len() == chunk.positions_opened@.len(),
            forall|j: int| 0 <= j < opened.len() ==> opened[j] == chunk.positions_opened@[j].op(),
            db@ == s0.apply_all(opened.subrange(0, i as int)),
        decreases chunk.positions_opened.len() - i,
    {
        proof {
            lemma_apply_one_more(s0, opened, i as int);
        }
        handle_position_opened(db, &chunk.positions_opened[i]);
        i += 1;
    }
    assert(opened.subrange(0, i as int) =~= opened);
    let ghost s1 = db@;

    let mut i: usize = 0;
    assert(closed.subrange(0, 0) =~= Seq::<LedgerOp>::empty());
    while i < chunk.positions_closed.len()
        invariant
            i <= chunk.positions_closed.len(),
            closed.len() == chunk.positions_closed@.len(),
            forall|j: int| 0 <= j < closed.len() ==> closed[j] == chunk.positions_closed@[j].op(),
            db@ == s1.apply_all(closed.subrange(0, i as int)),
        decreases chunk.positions_closed.len() - i,
    {
        proof {
            lemma_apply_one_more(s1, closed, i as int);
        }
        handle_position_closed(db, &chunk.positions_closed[i]);
        i += 1;
    }
    assert(closed.subrange(0, i as int) =~= closed);
    let ghost s2 = db@;

    let mut i: usize = 0;
    assert(liquidated.subrange(0, 0) =~= Seq::<LedgerOp>::empty());
    while i < chunk.positions_liquidated.len()
        invariant
            i <= chunk.positions_liquidated.len(),
            liquidated.len() == chunk.positions_liquidated@.len(),
            forall|j: int|
                0 <= j < liquidated.len() ==> liquidated[j] == chunk.positions_liquidated@[j].op(),
            db@ == s2.apply_all(liquidated.subrange(0, i as int)),
        decreases chunk.positions_liquidated.len() - i,
    {
        proof {
            lemma_apply_one_more(s2, liquidated, i as int);
        }
        handle_position_liquidated(db, &chunk.positions_liquidated[i]);
        i += 1;
    }
    assert(liquidated.subrange(0, i as int) =~= liquidated);
    let ghost s3 = db@;

    let mut i: usize = 0;
    assert(created.subrange(0, 0) =~= Seq::<LedgerOp>::empty());
    while i < chunk.notes_created.len()
        invariant
            i <= chunk.notes_created.len(),
            created.len() == chunk.notes_created@.len(),
            forall|j: int|
                0 <= j < created.len() ==> created[j] == chunk.notes_created@[j].op(token_address@),
            db@ == s3.apply_all(created.subrange(0, i as int)),
        decreases chunk.notes_created.len() - i,
    {
        proof {
            lemma_apply_one_more(s3, created, i as int);
        }
        handle_note_created(db, &chunk.notes_created[i], token_address);
        i += 1;
    }
    assert(created.subrange(0, i as int) =~= created);
    let ghost s4 = db@;

    let mut i: usize = 0;
    assert(claimed.subrange(0, 0) =~= Seq::<LedgerOp>::empty());
    while i < chunk.notes_claimed.len()
        invariant
            i <= chunk.notes_claimed.len(),
            claimed.len() == chunk.notes_claimed@.len(),
            forall|j: int| 0 <= j < claimed.len() ==> claimed[j] == chunk.notes_claimed@[j].op(),
            db@ == s4.apply_all(claimed.subrange(0, i as int)),
        decreases chunk.notes_claimed.len() - i,
    {
        proof {
            lemma_apply_one_more(s4, claimed, i as int);
        }
        handle_note_claimed(db, &chunk.notes_claimed[i]);
        i += 1;
    }
    assert(claimed.subrange(0, i as int) =~= claimed);
    proof {
        lemma_apply_all_in_parts(s0, opened, closed);
        lemma_apply_all_in_parts(s0, opened + closed, liquidated);
        lemma_apply_all_in_parts(s0, opened + closed + liquidated, created);
        lemma_apply_all_in_parts(s0, opened + closed + liquidated + created, claimed);
        assert(chunk.ops(token_address@) == opened + closed + liquidated + created + claimed);
    }
}

} // verus!
