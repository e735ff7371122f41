//! The records of the ledger. Every on-chain number is carried as a
//! decimal string, so that no precision is lost on the way.

use vstd::prelude::*;
use vstd::utf8::encode_utf8;

verus! {

/// Where a position stands in its life.
#[derive(Clone, Copy, Debug, PartialEq, Eq, Structural)]
pub enum PositionStatus {
    Open,
    Closed,
    Liquidated,
}

/// A leveraged exposure, identified by the hex text of its 32-byte id.
#[derive(Debug, PartialEq, Eq)]
pub struct Position {
    pub position_id: String,
    pub is_long: bool,
    pub entry_price: String,
    pub margin: String,
    pub size: String,
}

/// What a [`Position`] holds, as plain values.
pub struct PositionView {
    pub position_id: Seq<char>,
    pub is_long: bool,
    pub entry_price: Seq<char>,
    pub margin: Seq<char>,
    pub size: Seq<char>,
}

impl PositionView {
    /// The key under which the position is indexed: the bytes of its id.
    pub open spec fn id_key(self) -> Seq<u8> {
        encode_utf8(self.position_id)
    }
}

impl View for Position {
    type V = PositionView;

    open spec fn view(&self) -> PositionView {
        PositionView {
            position_id: self.position_id@,
            is_long: self.is_long,
            entry_price: self.entry_price@,
            margin: self.margin@,
            size: self.size@,
        }
    }
}

impl DeepView for Position {
    type V = PositionView;

    open spec fn deep_view(&self) -> PositionView {
        self@
    }
}

impl Clone for Position {
    fn clone(&self) -> (r: Self)
        ensures
            r == *self,
    {
        Position {
            position_id: self.position_id.clone(),
            is_long: self.is_long,
            entry_price: self.entry_price.clone(),
            margin: self.margin.clone(),
            size: self.size.clone(),
        }
    }
}

/// A position that was closed or liquidated, with its settlement.
#[derive(Debug, PartialEq, Eq)]
pub struct HistoricalPosition {
    pub position: Position,
    pub status: PositionStatus,
    pub final_pnl: String,
    pub owner_address: String,
}

/// What a [`HistoricalPosition`] holds, as plain values.
pub struct HistoricalPositionView {
    pub position: PositionView,
    pub status: PositionStatus,
    pub final_pnl: Seq<char>,
    pub owner_address: Seq<char>,
}

impl View for HistoricalPosition {
    type V = HistoricalPositionView;

    open spec fn view(&self) -> HistoricalPositionView {
        HistoricalPositionView {
            position: self.position@,
            status: self.status,
            final_pnl: self.final_pnl@,
            owner_address: self.owner_address@,
        }
    }
}

impl DeepView for HistoricalPosition {
    type V = HistoricalPositionView;

    open spec fn deep_view(&self) -> HistoricalPositionView {
        self@
    }
}

impl Clone for HistoricalPosition {
    fn clone(&self) -> (r: Self)
        ensures
            r == *self,
    {
        HistoricalPosition {
            position: self.position.clone(),
            status: self.status,
            final_pnl: self.final_pnl.clone(),
            owner_address: self.owner_address.clone(),
        }
    }
}

/// A claimable value, addressed by the hash of its receiver.
#[derive(Debug, PartialEq, Eq)]
pub struct Note {
    pub note_nonce: u64,
    pub receiver_hash: String,
    pub value: String,
}

/// What a [`Note`] holds, as plain values.
pub struct NoteView {
    pub note_nonce: u64,
    pub receiver_hash: Seq<char>,
    pub value: Seq<char>,
}

impl View for Note {
    type V = NoteView;

    open spec fn view(&self) -> NoteView {
        NoteView { note_nonce: self.note_nonce, receiver_hash: self.receiver_hash@, value: self.value@ }
    }
}

impl Clone for Note {
    fn clone(&self) -> (r: Self)
        ensures
            r == *self,
    {
        Note {
            note_nonce: self.note_nonce,
            receiver_hash: self.receiver_hash.clone(),
            value: self.value.clone(),
        }
    }
}

/// A note that nobody has claimed yet, with the hex text of its id.
#[derive(Debug, PartialEq, Eq)]
pub struct UnspentNote {
    pub note_id: String,
    pub note: Note,
}

/// What an [`UnspentNote`] holds, as plain values.
pub struct UnspentNoteView {
    pub note_id: Seq<char>,
    pub note: NoteView,
}

impl UnspentNoteView {
    /// The bytes of the note's id, by which a claim finds it.
    pub open spec fn id_key(self) -> Seq<u8> {
        encode_utf8(self.note_id)
    }
}

impl View for UnspentNote {
    type V = UnspentNoteView;

    open spec fn view(&self) -> UnspentNoteView {
        UnspentNoteView { note_id: self.note_id@, note: self.note@ }
    }
}

impl DeepView for UnspentNote {
    type V = UnspentNoteView;

    open spec fn deep_view(&self) -> UnspentNoteView {
        self@
    }
}

impl Clone for UnspentNote {
    fn clone(&self) -> (r: Self)
        ensures
            r == *self,
    {
        UnspentNote { note_id: self.note_id.clone(), note: self.note.clone() }
    }
}

/// What the service remembers of a user between sessions.
#[derive(Clone, Copy, Debug, PartialEq, Eq, Structural)]
pub struct UserMetadata {
    pub last_used_nullifier_nonce: u64,
}

/// One page of a longer list.
#[derive(Debug, PartialEq, Eq)]
pub struct PaginatedResponse<T> {
    pub items: Vec<T>,
    pub has_more: bool,
    pub next_cursor: Option<String>,
}

} // verus!
