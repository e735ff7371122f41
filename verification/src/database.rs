//! The ledger itself: open and historical positions by owner, unspent
//! notes by receiver hash, and the indices that lead from a position id
//! to its owner and to its record.

use vstd::prelude::*;
use vstd::slice::slice_to_vec;
use vstd::string::StrSliceExecFns;
use vstd::utf8::encode_utf8;
use crate::byte_map::ByteMap;
use crate::byte_order::{
    bytes_equal, lemma_lex_irreflexive, lemma_lex_transitive, lex_less, strictly_ascending,
};
use crate::hex_codec::{
    decode_prefixed_hex, hex_decoded, is_hex_decoding, is_hex_text, prefixed_hex,
    prefixed_hex_chars, strip_hex_prefix, HexError,
};
use crate::ledger::{
    first_note, first_position, holds_note, holds_position, is_first_note, is_first_position,
    lemma_first_bucket_is_unique, lemma_first_note_is_unique, lemma_first_position_is_unique,
    LedgerView, PositionDataView, Settlement,
};
use crate::models::{HistoricalPosition, PaginatedResponse, Position, PositionStatus, UnspentNote};
use crate::decimal::decimal_chars;
use crate::pagination::{cursor_text, page_bounds, page_end, page_has_more, page_start};

verus! {

/// The record kept of a position under its id, tagged by its stage.
#[derive(Debug, PartialEq, Eq)]
pub enum PositionData {
    Open(Position),
    Historical(HistoricalPosition),
}

impl View for PositionData {
    type V = PositionDataView;

    open spec fn view(&self) -> PositionDataView {
        match self {
            PositionData::Open(p) => PositionDataView::Open(p@),
            PositionData::Historical(h) => PositionDataView::Historical(h@),
        }
    }
}

impl Clone for PositionData {
    fn clone(&self) -> (r: Self)
        ensures
            r == *self,
    {
        match self {
            PositionData::Open(p) => PositionData::Open(p.clone()),
            PositionData::Historical(h) => PositionData::Historical(h.clone()),
        }
    }
}

/// The key under which a raw id is indexed: the bytes of its text, `0x`
/// and lower-case hex digits.
pub open spec fn id_key(raw: Seq<u8>) -> Seq<u8> {
    encode_utf8(prefixed_hex_chars(raw))
}

/// The part of a list that one page shows.
pub open spec fn page_items<T>(all: Seq<T>, cursor: Option<usize>, page_size: int) -> Seq<T> {
    if page_start(cursor) >= all.len() {
        Seq::empty()
    } else {
        all.subrange(page_start(cursor), page_end(all.len() as int, cursor, page_size))
    }
}

/// `keys` lists the set `domain`: each member once, in strictly
/// ascending order.
pub open spec fn is_key_list(keys: Seq<Seq<u8>>, domain: Set<Seq<u8>>) -> bool {
    &&& strictly_ascending(keys)
    &&& forall|k: Seq<u8>| domain.contains(k) <==> keys.contains(k)
}

proof fn lemma_key_list(list: Vec<Vec<u8>>, keys: Seq<Seq<u8>>, domain: Set<Seq<u8>>)
    requires
        list@.len() == keys.len(),
        forall|i: int| 0 <= i < list@.len() ==> (#[trigger] list@[i])@ == keys[i],
        strictly_ascending(keys),
        forall|k: Seq<u8>| domain.contains(k) <==> keys.contains(k),
    ensures
        is_key_list(list.deep_view(), domain),
{
    assert forall|i: int| 0 <= i < list@.len() implies #[trigger] list.deep_view()[i] == keys[i] by {
        assert(list@[i].deep_view() =~= list@[i]@);
    }
    assert(list.deep_view() =~= keys);
}

/// The most bytes that a user may store as metadata.
pub const MAX_METADATA_BYTES: usize = 4096;

/// The derived state of the chain, kept in six ordered maps.
pub struct Database {
    open_positions: ByteMap<Vec<Position>>,
    historical_positions: ByteMap<Vec<HistoricalPosition>>,
    unspent_notes: ByteMap<Vec<UnspentNote>>,
    user_metadata: ByteMap<Vec<u8>>,
    position_id_to_owner: ByteMap<Vec<u8>>,
    positions_by_id: ByteMap<PositionData>,
}

impl View for Database {
    type V = LedgerView;

    closed spec fn view(&self) -> LedgerView {
        LedgerView {
            open: Map::new(
                |k: Seq<u8>| self.open_positions@.contains_key(k),
                |k: Seq<u8>| self.open_positions@[k].deep_view(),
            ),
            historical: Map::new(
                |k: Seq<u8>| self.historical_positions@.contains_key(k),
                |k: Seq<u8>| self.historical_positions@[k].deep_view(),
            ),
            unspent_notes: Map::new(
                |k: Seq<u8>| self.unspent_notes@.contains_key(k),
                |k: Seq<u8>| self.unspent_notes@[k].deep_view(),
            ),
            user_metadata: Map::new(
                |k: Seq<u8>| self.user_metadata@.contains_key(k),
                |k: Seq<u8>| self.user_metadata@[k]@,
            ),
            owner_of: Map::new(
                |k: Seq<u8>| self.position_id_to_owner@.contains_key(k),
                |k: Seq<u8>| self.position_id_to_owner@[k]@,
            ),
            records: Map::new(
                |k: Seq<u8>| self.positions_by_id@.contains_key(k),
                |k: Seq<u8>| self.positions_by_id@[k]@,
            ),
        }
    }
}

/// The first place of `list` whose position has the id `id`.
fn find_position(list: &Vec<Position>, id: &[u8]) -> (r: Option<usize>)
    ensures
        match r {
            Some(i) => is_first_position(list.deep_view(), id@, i as int),
            None => !holds_position(list.deep_view(), id@),
        },
{
    let mut i: usize = 0;
    while i < list.len()
        invariant
            i <= list.len(),
            forall|j: int| 0 <= j < i ==> (#[trigger] list.deep_view()[j]).id_key() != id@,
        decreases list.len() - i,
    {
        if bytes_equal(list[i].position_id.as_str().as_bytes(), id) {
            assert(list.deep_view()[i as int].id_key() == id@);
            return Some(i);
        }
        assert(list.deep_view()[i as int].id_key() != id@);
        i += 1;
    }
    None
}

/// The first place of `list` whose note has the id `id`.
fn find_note(list: &Vec<UnspentNote>, id: &[u8]) -> (r: Option<usize>)
    ensures
        match r {
            Some(i) => is_first_note(list.deep_view(), id@, i as int),
            None => !holds_note(list.deep_view(), id@),
        },
{
    let mut i: usize = 0;
    while i < list.len()
        invariant
            i <= list.len(),
            forall|j: int| 0 <= j < i ==> (#[trigger] list.deep_view()[j]).id_key() != id@,
        decreases list.len() - i,
    {
        if bytes_equal(list[i].note_id.as_str().as_bytes(), id) {
            assert(list.deep_view()[i as int].id_key() == id@);
            return Some(i);
        }
        assert(list.deep_view()[i as int].id_key() != id@);
        i += 1;
    }
    None
}

impl Database {
    /// A ledger that has seen no event.
    pub fn new() -> (db: Self)
        ensures
            db@ == LedgerView::empty(),
    {
        let db = Database {
            open_positions: ByteMap::new(),
            historical_positions: ByteMap::new(),
            unspent_notes: ByteMap::new(),
            user_metadata: ByteMap::new(),
            position_id_to_owner: ByteMap::new(),
            positions_by_id: ByteMap::new(),
        };
        proof {
            assert(db@.open =~= Map::empty());
            assert(db@.historical =~= Map::empty());
            assert(db@.unspent_notes =~= Map::empty());
            assert(db@.user_metadata =~= Map::empty());
            assert(db@.owner_of =~= Map::empty());
            assert(db@.records =~= Map::empty());
        }
        db
    }

    /// Records an opened position for `owner_pub_key`. A second delivery
    /// of the same opening leaves the owner's list as it is.
    pub fn add_open_position(&mut self, owner_pub_key: &[u8], position: Position)
        ensures
            final(self)@ == old(self)@.add_open_position(owner_pub_key@, position@),
    {
        let ghost before = self@;
        let id = position.position_id.as_str().as_bytes_vec();
        let mut list = match self.open_positions.remove(owner_pub_key) {
            Some(list) => list,
            None => Vec::new(),
        };
        assert(list.deep_view() =~= before.open_positions(owner_pub_key@));
        if find_position(&list, id.as_slice()).is_none() {
            list.push(position.clone());
            assert(list.deep_view() =~= before.open_positions(owner_pub_key@).push(position@));
        }
        self.open_positions.insert(owner_pub_key, list);
        self.position_id_to_owner.insert(id.as_slice(), slice_to_vec(owner_pub_key));
        self.positions_by_id.insert(id.as_slice(), PositionData::Open(position));
        proof {
            let after = before.add_open_position(owner_pub_key@, position@);
            assert(self@.open =~= after.open);
            assert(self@.owner_of =~= after.owner_of);
            assert(self@.records =~= after.records);
            assert(self@.historical =~= after.historical);
            assert(self@.unspent_notes =~= after.unspent_notes);
            assert(self@.user_metadata =~= after.user_metadata);
        }
    }

    /// Settles the position `position_id`: it moves from its owner's open
    /// list to the head of the owner's history. Nothing happens if the id
    /// leads to no owner, as after an earlier delivery of the same event.
    pub fn move_to_historical(
        &mut self,
        position_id: &[u8],
        status: PositionStatus,
        final_pnl: String,
        owner_address: String,
    )
        ensures
            final(self)@ == old(self)@.move_to_historical(
                id_key(position_id@),
                Settlement { status, final_pnl: final_pnl@, owner_address: owner_address@ },
            ),
    {
        let ghost before = self@;
        let ghost settlement = Settlement { status, final_pnl: final_pnl@, owner_address: owner_address@ };
        let id_text = prefixed_hex(position_id);
        let id = id_text.as_str().as_bytes();
        let owner = match self.position_id_to_owner.get(id) {
            Some(owner) => owner.clone(),
            None => {
                return ;
            },
        };
        assert(owner@ == before.owner_of[id@]);
        let found = match self.open_positions.get(owner.as_slice()) {
            Some(list) => find_position(list, id),
            None => None,
        };
        let at = match found {
            Some(at) => at,
            None => {
                return ;
            },
        };
        proof {
            lemma_first_position_is_unique(before.open_positions(owner@), id@, at as int);
        }
        let mut list = self.open_positions.remove(owner.as_slice()).unwrap();
        let position = list.remove(at);
        assert(list.deep_view() =~= before.open_positions(owner@).remove(at as int));
        self.open_positions.insert(owner.as_slice(), list);
        let entry = HistoricalPosition { position, status, final_pnl, owner_address };
        assert(entry@ == before.settled_entry(id@, settlement));
        let mut history = match self.historical_positions.remove(owner.as_slice()) {
            Some(history) => history,
            None => Vec::new(),
        };
        history.insert(0, entry.clone());
        assert(history.deep_view() =~= seq![entry@] + before.historical_positions(owner@));
        self.historical_positions.insert(owner.as_slice(), history);
        self.position_id_to_owner.remove(id);
        self.positions_by_id.insert(id, PositionData::Historical(entry));
        proof {
            let after = before.move_to_historical(id@, settlement);
            assert(self@.open =~= after.open);
            assert(self@.owner_of =~= after.owner_of);
            assert(self@.records =~= after.records);
            assert(self@.historical =~= after.historical);
            assert(self@.unspent_notes =~= after.unspent_notes);
            assert(self@.user_metadata =~= after.user_metadata);
        }
    }

    /// The owners that have an open list, in the order of their keys.
    pub fn open_position_owners(&self) -> (owners: Vec<Vec<u8>>)
        ensures
            is_key_list(owners.deep_view(), self@.open.dom()),
    {
        let owners = self.open_positions.key_list();
        proof {
            lemma_key_list(owners, self.open_positions.keys(), self@.open.dom());
        }
        owners
    }

    /// The owners that have a history, in the order of their keys.
    pub fn historical_position_owners(&self) -> (owners: Vec<Vec<u8>>)
        ensures
            is_key_list(owners.deep_view(), self@.historical.dom()),
    {
        let owners = self.historical_positions.key_list();
        proof {
            lemma_key_list(owners, self.historical_positions.keys(), self@.historical.dom());
        }
        owners
    }

    /// The receiver hashes that have a list of notes, in their order.
    pub fn note_receivers(&self) -> (receivers: Vec<Vec<u8>>)
        ensures
            is_key_list(receivers.deep_view(), self@.unspent_notes.dom()),
    {
        let receivers = self.unspent_notes.key_list();
        proof {
            lemma_key_list(receivers, self.unspent_notes.keys(), self@.unspent_notes.dom());
        }
        receivers
    }

    /// The owners that stored metadata, in the order of their keys.
    pub fn metadata_owners(&self) -> (owners: Vec<Vec<u8>>)
        ensures
            is_key_list(owners.deep_view(), self@.user_metadata.dom()),
    {
        let owners = self.user_metadata.key_list();
        proof {
            lemma_key_list(owners, self.user_metadata.keys(), self@.user_metadata.dom());
        }
        owners
    }

    /// The id texts that lead to an owner, in their order.
    pub fn indexed_position_keys(&self) -> (keys: Vec<Vec<u8>>)
        ensures
            is_key_list(keys.deep_view(), self@.owner_of.dom()),
    {
        let keys = self.position_id_to_owner.key_list();
        proof {
            lemma_key_list(keys, self.position_id_to_owner.keys(), self@.owner_of.dom());
        }
        keys
    }

    /// The id texts that have a record, in their order.
    pub fn recorded_position_keys(&self) -> (keys: Vec<Vec<u8>>)
        ensures
            is_key_list(keys.deep_view(), self@.records.dom()),
    {
        let keys = self.positions_by_id.key_list();
        proof {
            lemma_key_list(keys, self.positions_by_id.keys(), self@.records.dom());
        }
        keys
    }

    /// The record under the bytes of an id text.
    pub fn record_by_key(&self, id_text: &[u8]) -> (r: Option<PositionData>)
        ensures
            match r {
                Some(data) => self@.records.contains_key(id_text@) && data@ == self@.records[id_text@],
                None => !self@.records.contains_key(id_text@),
            },
    {
        match self.positions_by_id.get(id_text) {
            Some(data) => Some(data.clone()),
            None => None,
        }
    }

    /// The owner under the bytes of an id text.
    pub fn owner_by_key(&self, id_text: &[u8]) -> (r: Option<Vec<u8>>)
        ensures
            match r {
                Some(owner) => self@.owner_of.contains_key(id_text@) && owner@ == self@.owner_of[id_text@],
                None => !self@.owner_of.contains_key(id_text@),
            },
    {
        match self.position_id_to_owner.get(id_text) {
            Some(owner) => Some(owner.clone()),
            None => None,
        }
    }

    /// The whole history of `owner_pub_key`, newest first.
    pub fn get_all_historical_positions(&self, owner_pub_key: &[u8]) -> (r: Vec<HistoricalPosition>)
        ensures
            r.deep_view() == self@.historical_positions(owner_pub_key@),
    {
        match self.historical_positions.get(owner_pub_key) {
            Some(list) => {
                let r = list.clone();
                assert(r.deep_view() =~= list.deep_view());
                r
            },
            None => {
                let r: Vec<HistoricalPosition> = Vec::new();
                assert(r.deep_view() =~= Seq::empty());
                r
            },
        }
    }

    /// The record of the position `position_id`, open or settled.
    pub fn get_position_by_id(&self, position_id: &[u8]) -> (r: Option<PositionData>)
        ensures
            match r {
                Some(data) => self@.records.contains_key(id_key(position_id@)) && data@
                    == self@.records[id_key(position_id@)],
                None => !self@.records.contains_key(id_key(position_id@)),
            },
    {
        let id_text = prefixed_hex(position_id);
        self.record_by_key(id_text.as_str().as_bytes())
    }

    /// The owner to whom the open position `position_id` belongs.
    pub fn owner_of_position(&self, position_id: &[u8]) -> (r: Option<Vec<u8>>)
        ensures
            match r {
                Some(owner) => self@.owner_of.contains_key(id_key(position_id@)) && owner@
                    == self@.owner_of[id_key(position_id@)],
                None => !self@.owner_of.contains_key(id_key(position_id@)),
            },
    {
        let id_text = prefixed_hex(position_id);
        self.owner_by_key(id_text.as_str().as_bytes())
    }

    /// All open positions of `owner_pub_key`, oldest first.
    pub fn get_open_positions(&self, owner_pub_key: &[u8]) -> (r: Vec<Position>)
        ensures
            r.deep_view() == self@.open_positions(owner_pub_key@),
    {
        match self.open_positions.get(owner_pub_key) {
            Some(list) => {
                let r = list.clone();
                assert(r.deep_view() =~= list.deep_view());
                r
            },
            None => {
                let r: Vec<Position> = Vec::new();
                assert(r.deep_view() =~= Seq::empty());
                r
            },
        }
    }

    /// One page of the history of `owner_pub_key`, newest first. The
    /// cursor is an offset into the whole history; the page says whether
    /// more follows and, if so, at which offset.
    pub fn get_historical_positions(
        &self,
        owner_pub_key: &[u8],
        cursor: Option<usize>,
        page_size: usize,
    ) -> (r: PaginatedResponse<HistoricalPosition>)
        ensures
            r.items.deep_view() == page_items(
                self@.historical_positions(owner_pub_key@),
                cursor,
                page_size as int,
            ),
            r.has_more == page_has_more(
                self@.historical_positions(owner_pub_key@).len() as int,
                cursor,
                page_size as int,
            ),
            match r.next_cursor {
                Some(text) => r.has_more && text@ == decimal_chars(
                    page_end(
                        self@.historical_positions(owner_pub_key@).len() as int,
                        cursor,
                        page_size as int,
                    ) as nat,
                ),
                None => !r.has_more,
            },
            page_start(cursor) >= self@.historical_positions(owner_pub_key@).len() ==> {
                &&& r.items@.len() == 0
                &&& !r.has_more
                &&& r.next_cursor is None
            },
    {
        let ghost all = self@.historical_positions(owner_pub_key@);
        let mut items: Vec<HistoricalPosition> = Vec::new();
        assert(items.deep_view() =~= Seq::empty());
        match self.historical_positions.get(owner_pub_key) {
            Some(list) => {
                let (start, end) = page_bounds(list.len(), cursor, page_size);
                let mut i = start;
                assert(list.deep_view() == all);
                assert(items.deep_view() =~= all.subrange(start as int, i as int));
                while i < end
                    invariant
                        start <= i <= end <= list.len(),
                        list.deep_view() == all,
                        items.deep_view() == all.subrange(start as int, i as int),
                    decreases end - i,
                {
                    let ghost shown = items.deep_view();
                    let item = list[i].clone();
                    assert(item@ == all[i as int]);
                    items.push(item);
                    assert(items.deep_view() =~= shown.push(item@));
                    i += 1;
                    assert(items.deep_view() =~= all.subrange(start as int, i as int));
                }
                let has_more = end < list.len();
                let next_cursor = if has_more {
                    Some(cursor_text(end))
                } else {
                    None
                };
                PaginatedResponse { items, has_more, next_cursor }
            },
            None => PaginatedResponse { items, has_more: false, next_cursor: None },
        }
    }

    /// Records a created note in the list of its receiver hash, which is
    /// read from the note as hex text. A second delivery of the same
    /// creation is recorded a second time.
    pub fn add_unspent_note(&mut self, note: &UnspentNote) -> (r: Result<(), HexError>)
        ensures
            r is Ok <==> is_hex_text(strip_hex_prefix(encode_utf8(note.note.receiver_hash@))),
            match r {
                Ok(_) => final(self)@ == old(self)@.add_unspent_note(
                    hex_decoded(strip_hex_prefix(encode_utf8(note.note.receiver_hash@))),
                    note@,
                ),
                Err(e) => {
                    &&& final(self)@ == old(self)@
                    &&& is_hex_decoding(
                        strip_hex_prefix(encode_utf8(note.note.receiver_hash@)),
                        Err(e),
                    )
                },
            },
    {
        let ghost before = self@;
        let receiver = match decode_prefixed_hex(note.note.receiver_hash.as_str()) {
            Ok(receiver) => receiver,
            Err(e) => {
                return Err(e);
            },
        };
        let mut list = match self.unspent_notes.remove(receiver.as_slice()) {
            Some(list) => list,
            None => Vec::new(),
        };
        list.push(note.clone());
        assert(list.deep_view() =~= before.notes_of(receiver@).push(note@));
        self.unspent_notes.insert(receiver.as_slice(), list);
        proof {
            let after = before.add_unspent_note(receiver@, note@);
            assert(self@.unspent_notes =~= after.unspent_notes);
            assert(self@.open =~= after.open);
            assert(self@.owner_of =~= after.owner_of);
            assert(self@.records =~= after.records);
            assert(self@.historical =~= after.historical);
            assert(self@.user_metadata =~= after.user_metadata);
        }
        Ok(())
    }

    /// Where a claim of the note `note_id` would strike: the least
    /// receiver hash whose list holds a note of that id, and the place
    /// of the first such note in that list.
    pub fn find_unspent_note(&self, note_id: &[u8]) -> (r: Option<(Vec<u8>, usize)>)
        ensures
            match r {
                Some((receiver, at)) => {
                    &&& self@.has_note(id_key(note_id@))
                    &&& self@.is_first_bucket(id_key(note_id@), receiver@)
                    &&& receiver@ == self@.first_bucket(id_key(note_id@))
                    &&& is_first_note(self@.unspent_notes[receiver@], id_key(note_id@), at as int)
                    &&& at == first_note(self@.unspent_notes[receiver@], id_key(note_id@))
                },
                None => !self@.has_note(id_key(note_id@)),
            },
    {
        let ghost state = self@;
        let id_text = prefixed_hex(note_id);
        let id = id_text.as_str().as_bytes();
        let n = self.unspent_notes.len();
        let ghost keys = self.unspent_notes.keys();
        let mut i: usize = 0;
        while i < n
            invariant
                i <= n,
                n == keys.len(),
                keys == self.unspent_notes.keys(),
                strictly_ascending(keys),
                forall|k: Seq<u8>| self.unspent_notes@.contains_key(k) <==> keys.contains(k),
                state == self@,
                id@ == id_key(note_id@),
                forall|j: int| 0 <= j < i ==> !holds_note(#[trigger] state.unspent_notes[keys[j]], id@),
            decreases n - i,
        {
            match find_note(self.unspent_notes.value_at(i), id) {
                Some(at) => {
                    let receiver = self.unspent_notes.key_at(i).clone();
                    proof {
                        assert(receiver@ == keys[i as int]);
                        assert forall|other: Seq<u8>|
                            state.unspent_notes.contains_key(other) && holds_note(
                                #[trigger] state.unspent_notes[other],
                                id@,
                            ) implies !lex_less(other, receiver@) by {
                            assert(keys.contains(other));
                            let j = keys.index_of(other);
                            if j > i {
                                assert(lex_less(keys[i as int], keys[j]));
                                if lex_less(other, receiver@) {
                                    lemma_lex_transitive(other, receiver@, other);
                                }
                            }
                            lemma_lex_irreflexive(other);
                        }
                        assert(state.is_first_bucket(id@, receiver@));
                        lemma_first_bucket_is_unique(state, id@, receiver@);
                        lemma_first_note_is_unique(state.unspent_notes[receiver@], id@, at as int);
                    }
                    return Some((receiver, at));
                },
                None => {},
            }
            i += 1;
        }
        proof {
            if state.has_note(id@) {
                let k = choose|k: Seq<u8>|
                    state.unspent_notes.contains_key(k) && holds_note(
                        #[trigger] state.unspent_notes[k],
                        id@,
                    );
                assert(keys.contains(k));
                let j = keys.index_of(k);
                assert(!holds_note(state.unspent_notes[keys[j]], id@));
            }
        }
        None
    }

    /// Takes the claimed note `note_id_to_remove` out of the ledger: the
    /// lists are walked in the order of their receiver hashes, and the
    /// first note of that id leaves. A claim of a note that no list holds
    /// changes nothing.
    pub fn remove_unspent_note(&mut self, note_id_to_remove: &[u8])
        ensures
            final(self)@ == old(self)@.remove_unspent_note(id_key(note_id_to_remove@)),
            !old(self)@.has_note(id_key(note_id_to_remove@)) ==> final(self)@ == old(self)@,
            old(self)@.has_note(id_key(note_id_to_remove@)) ==> old(self)@.is_first_bucket(
                id_key(note_id_to_remove@),
                old(self)@.first_bucket(id_key(note_id_to_remove@)),
            ),
    {
        let ghost before = self@;
        match self.find_unspent_note(note_id_to_remove) {
            Some((receiver, at)) => {
                let mut list = self.unspent_notes.remove(receiver.as_slice()).unwrap();
                list.remove(at);
                assert(list.deep_view() =~= before.unspent_notes[receiver@].remove(at as int));
                self.unspent_notes.insert(receiver.as_slice(), list);
                proof {
                    let after = before.remove_unspent_note(id_key(note_id_to_remove@));
                    assert(self@.unspent_notes =~= after.unspent_notes);
                    assert(self@.open =~= after.open);
                    assert(self@.owner_of =~= after.owner_of);
                    assert(self@.records =~= after.records);
                    assert(self@.historical =~= after.historical);
                    assert(self@.user_metadata =~= after.user_metadata);
                }
            },
            None => {},
        }
    }

    /// The unclaimed notes of `receiver_hash`, oldest first.
    pub fn get_unspent_notes(&self, receiver_hash: &[u8]) -> (r: Vec<UnspentNote>)
        ensures
            r.deep_view() == self@.notes_of(receiver_hash@),
    {
        match self.unspent_notes.get(receiver_hash) {
            Some(list) => {
                let r = list.clone();
                assert(r.deep_view() =~= list.deep_view());
                r
            },
            None => {
                let r: Vec<UnspentNote> = Vec::new();
                assert(r.deep_view() =~= Seq::empty());
                r
            },
        }
    }

    /// Whether a blob is small enough to be stored as metadata.
    pub fn metadata_fits(blob: &[u8]) -> (fits: bool)
        ensures
            fits == (blob@.len() <= MAX_METADATA_BYTES),
    {
        blob.len() <= MAX_METADATA_BYTES
    }

    /// Puts back the open list of `owner_pub_key` as it was persisted.
    pub fn restore_open_positions(&mut self, owner_pub_key: &[u8], positions: Vec<Position>)
        ensures
            final(self)@ == (LedgerView {
                open: old(self)@.open.insert(owner_pub_key@, positions.deep_view()),
                ..old(self)@
            }),
    {
        let ghost before = self@;
        self.open_positions.insert(owner_pub_key, positions);
        proof {
            assert(self@.open =~= before.open.insert(owner_pub_key@, positions.deep_view()));
            assert(self@.historical =~= before.historical);
            assert(self@.unspent_notes =~= before.unspent_notes);
            assert(self@.user_metadata =~= before.user_metadata);
            assert(self@.owner_of =~= before.owner_of);
            assert(self@.records =~= before.records);
        }
    }

    /// Puts back the history of `owner_pub_key` as it was persisted.
    pub fn restore_historical_positions(&mut self, owner_pub_key: &[u8], history: Vec<HistoricalPosition>)
        ensures
            final(self)@ == (LedgerView {
                historical: old(self)@.historical.insert(owner_pub_key@, history.deep_view()),
                ..old(self)@
            }),
    {
        let ghost before = self@;
        self.historical_positions.insert(owner_pub_key, history);
        proof {
            assert(self@.historical =~= before.historical.insert(owner_pub_key@, history.deep_view()));
            assert(self@.open =~= before.open);
            assert(self@.unspent_notes =~= before.unspent_notes);
            assert(self@.user_metadata =~= before.user_metadata);
            assert(self@.owner_of =~= before.owner_of);
            assert(self@.records =~= before.records);
        }
    }

    /// Puts back the notes of `receiver_hash` as they were persisted.
    pub fn restore_unspent_notes(&mut self, receiver_hash: &[u8], notes: Vec<UnspentNote>)
        ensures
            final(self)@ == (LedgerView {
                unspent_notes: old(self)@.unspent_notes.insert(receiver_hash@, notes.deep_view()),
                ..old(self)@
            }),
    {
        let ghost before = self@;
        self.unspent_notes.insert(receiver_hash, notes);
        proof {
            assert(self@.unspent_notes =~= before.unspent_notes.insert(receiver_hash@, notes.deep_view()));
            assert(self@.open =~= before.open);
            assert(self@.historical =~= before.historical);
            assert(self@.user_metadata =~= before.user_metadata);
            assert(self@.owner_of =~= before.owner_of);
            assert(self@.records =~= before.records);
        }
    }

    /// Puts back the owner of an open position as it was persisted,
    /// under the bytes of the position's id text.
    pub fn restore_owner(&mut self, id_text: &[u8], owner_pub_key: &[u8])
        ensures
            final(self)@ == (LedgerView {
                owner_of: old(self)@.owner_of.insert(id_text@, owner_pub_key@),
                ..old(self)@
            }),
    {
        let ghost before = self@;
        self.position_id_to_owner.insert(id_text, slice_to_vec(owner_pub_key));
        proof {
            assert(self@.owner_of =~= before.owner_of.insert(id_text@, owner_pub_key@));
            assert(self@.open =~= before.open);
            assert(self@.historical =~= before.historical);
            assert(self@.unspent_notes =~= before.unspent_notes);
            assert(self@.user_metadata =~= before.user_metadata);
            assert(self@.records =~= before.records);
        }
    }

    /// Puts back the record of a position as it was persisted, under
    /// the bytes of the position's id text.
    pub fn restore_record(&mut self, id_text: &[u8], data: PositionData)
        ensures
            final(self)@ == (LedgerView {
                records: old(self)@.records.insert(id_text@, data@),
                ..old(self)@
            }),
    {
        let ghost before = self@;
        self.positions_by_id.insert(id_text, data);
        proof {
            assert(self@.records =~= before.records.insert(id_text@, data@));
            assert(self@.open =~= before.open);
            assert(self@.historical =~= before.historical);
            assert(self@.unspent_notes =~= before.unspent_notes);
            assert(self@.user_metadata =~= before.user_metadata);
            assert(self@.owner_of =~= before.owner_of);
        }
    }

    /// Stores `blob` as the metadata of `owner_pub_key`.
    pub fn set_user_metadata(&mut self, owner_pub_key: &[u8], blob: Vec<u8>)
        ensures
            final(self)@ == old(self)@.set_user_metadata(owner_pub_key@, blob@),
    {
        let ghost before = self@;
        self.user_metadata.insert(owner_pub_key, blob);
        proof {
            let after = before.set_user_metadata(owner_pub_key@, blob@);
            assert(self@.user_metadata =~= after.user_metadata);
            assert(self@.unspent_notes =~= after.unspent_notes);
            assert(self@.open =~= after.open);
            assert(self@.owner_of =~= after.owner_of);
            assert(self@.records =~= after.records);
            assert(self@.historical =~= after.historical);
        }
    }

    /// The metadata that `owner_pub_key` stored last.
    pub fn get_user_metadata(&self, owner_pub_key: &[u8]) -> (r: Option<Vec<u8>>)
        ensures
            match r {
                Some(blob) => self@.user_metadata.contains_key(owner_pub_key@) && blob@
                    == self@.user_metadata[owner_pub_key@],
                None => !self@.user_metadata.contains_key(owner_pub_key@),
            },
    {
        match self.user_metadata.get(owner_pub_key) {
            Some(blob) => Some(blob.clone()),
            None => None,
        }
    }
}

} // verus!
