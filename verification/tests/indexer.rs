use perp_backend::database::{Database, PositionData};
use perp_backend::hex_codec::prefixed_hex;
use perp_backend::indexer::{
    apply_chunk, dispatch, handle_note_claimed, handle_note_created, handle_position_closed,
    handle_position_liquidated, handle_position_opened, handle_public_pos_opened,
    record_created_note, ChainEvent, ChunkEvents, NoteClaimed, NoteCreated, PositionClosed,
    PositionLiquidated, PositionOpened, PublicPositionOpened, BLOCK_CHUNK_SIZE,
    DELAY_BETWEEN_CHUNKS_MS,
};
use perp_backend::keys::{note_id, owner_key_from_address};
use perp_backend::models::{Note, Position, PositionStatus, UnspentNote};

const TOKEN: [u8; 20] = [0x11; 20];
const PROXY: [u8; 20] = [0x99; 20];

fn id(tag: u8) -> [u8; 32] {
    [tag; 32]
}

fn word(n: u128) -> [u8; 32] {
    let mut w = [0u8; 32];
    w[16..].copy_from_slice(&n.to_be_bytes());
    w
}

fn signed_word(n: i128) -> [u8; 32] {
    let mut w = if n < 0 { [0xffu8; 32] } else { [0u8; 32] };
    w[16..].copy_from_slice(&n.to_be_bytes());
    w
}

fn opened(tag: u8, owner: u8) -> PositionOpened {
    PositionOpened {
        position_id: id(tag),
        owner_pub_key: [owner; 32],
        is_long: true,
        entry_price: word(50000),
        margin: word(100),
        size: word(3),
    }
}

fn position(tag: u8) -> Position {
    Position {
        position_id: prefixed_hex(&id(tag)),
        is_long: true,
        entry_price: "50000".to_string(),
        margin: "100".to_string(),
        size: "3".to_string(),
    }
}

fn closed(tag: u8) -> PositionClosed {
    PositionClosed { position_id: id(tag), user: [0x5a; 20], pnl: signed_word(-12) }
}

fn liquidated(tag: u8) -> PositionLiquidated {
    PositionLiquidated { position_id: id(tag), user: [0x5a; 20] }
}

const USER_TEXT: &str = "0x5a5a5a5a5a5a5a5a5a5a5a5a5a5a5a5a5a5a5a5a";

fn created(nonce: u64, receiver: u8) -> NoteCreated {
    NoteCreated { note_nonce: nonce, receiver_hash: [receiver; 32], amount: word(250) }
}

fn unspent(nonce: u64, receiver: u8) -> UnspentNote {
    UnspentNote {
        note_id: prefixed_hex(&note_id(&TOKEN, nonce)),
        note: Note {
            note_nonce: nonce,
            receiver_hash: prefixed_hex(&[receiver; 32]),
            value: "250".to_string(),
        },
    }
}

#[test]
fn the_constants_of_the_replay() {
    assert_eq!(BLOCK_CHUNK_SIZE, 2000);
    assert_eq!(DELAY_BETWEEN_CHUNKS_MS, 500);
}

#[test]
fn an_opening_is_recorded_under_the_hashed_key() {
    let mut db = Database::new();
    handle_position_opened(&mut db, &opened(1, 7));
    assert_eq!(db.get_open_positions(&[7; 32]), vec![position(1)]);
    assert_eq!(db.owner_of_position(&id(1)), Some(vec![7; 32]));
    assert_eq!(
        position(1).position_id,
        "0x0101010101010101010101010101010101010101010101010101010101010101"
    );
}

#[test]
fn a_public_opening_is_recorded_under_the_padded_address() {
    let mut db = Database::new();
    let log = PublicPositionOpened {
        position_id: id(2),
        user: [0x42; 20],
        is_long: true,
        entry_price: word(50000),
        margin: word(100),
        size: word(3),
    };
    handle_public_pos_opened(&mut db, &log, &PROXY);
    let owner = owner_key_from_address(&[0x42; 20]);
    assert_eq!(db.get_open_positions(&owner), vec![position(2)]);
}

#[test]
fn a_public_opening_by_the_proxy_is_passed_over() {
    let mut db = Database::new();
    let log = PublicPositionOpened {
        position_id: id(2),
        user: PROXY,
        is_long: true,
        entry_price: word(50000),
        margin: word(100),
        size: word(3),
    };
    handle_public_pos_opened(&mut db, &log, &PROXY);
    assert!(db.get_open_positions(&owner_key_from_address(&PROXY)).is_empty());
    assert_eq!(db.get_position_by_id(&id(2)), None);
}

#[test]
fn a_closing_settles_with_the_reported_profit() {
    let mut db = Database::new();
    handle_position_opened(&mut db, &opened(1, 7));
    handle_position_closed(&mut db, &closed(1));
    let history = db.get_historical_positions(&[7; 32], None, 20).items;
    assert_eq!(history.len(), 1);
    assert_eq!(history[0].status, PositionStatus::Closed);
    assert_eq!(history[0].final_pnl, "-12");
    assert_eq!(history[0].owner_address, USER_TEXT);
    assert!(db.get_open_positions(&[7; 32]).is_empty());
}

#[test]
fn a_liquidation_settles_with_the_word_liquidated() {
    let mut db = Database::new();
    handle_position_opened(&mut db, &opened(1, 7));
    handle_position_liquidated(&mut db, &liquidated(1));
    let history = db.get_historical_positions(&[7; 32], None, 20).items;
    assert_eq!(history.len(), 1);
    assert_eq!(history[0].status, PositionStatus::Liquidated);
    assert_eq!(history[0].final_pnl, "Liquidated");
    assert_eq!(history[0].owner_address, USER_TEXT);
    assert!(matches!(db.get_position_by_id(&id(1)), Some(PositionData::Historical(_))));
}

#[test]
fn a_created_note_is_found_by_its_receiver_hash() {
    let mut db = Database::new();
    handle_note_created(&mut db, &created(5, 0xab), &TOKEN);
    assert_eq!(db.get_unspent_notes(&[0xab; 32]), vec![unspent(5, 0xab)]);
    assert_eq!(
        unspent(5, 0xab).note_id,
        "0x6fb9615f32bbdba460ac59c7db4aee8fae27d2d594928a4a6b27ac5ce61460b1"
    );
}

#[test]
fn a_note_recorded_under_a_given_id_carries_that_id() {
    let mut db = Database::new();
    record_created_note(&mut db, &[0xcd; 32], &created(1, 0xab));
    let notes = db.get_unspent_notes(&[0xab; 32]);
    assert_eq!(notes.len(), 1);
    assert_eq!(notes[0].note_id, prefixed_hex(&[0xcd; 32]));
    assert_eq!(notes[0].note.note_nonce, 1);
    assert_eq!(notes[0].note.value, "250");
}

#[test]
fn a_claim_removes_the_note_and_a_claim_without_note_is_a_no_op() {
    let mut db = Database::new();
    handle_note_claimed(&mut db, &NoteClaimed { note_id: note_id(&TOKEN, 5) });
    handle_note_created(&mut db, &created(5, 0xab), &TOKEN);
    handle_note_created(&mut db, &created(6, 0xab), &TOKEN);
    handle_note_claimed(&mut db, &NoteClaimed { note_id: note_id(&TOKEN, 5) });
    assert_eq!(db.get_unspent_notes(&[0xab; 32]), vec![unspent(6, 0xab)]);
    handle_note_claimed(&mut db, &NoteClaimed { note_id: note_id(&TOKEN, 5) });
    assert_eq!(db.get_unspent_notes(&[0xab; 32]), vec![unspent(6, 0xab)]);
}

#[test]
fn a_chunk_is_applied_type_by_type() {
    let mut db = Database::new();
    let chunk = ChunkEvents {
        positions_opened: vec![opened(1, 7), opened(2, 7), opened(3, 8), opened(1, 7)],
        positions_closed: vec![closed(2), closed(2)],
        positions_liquidated: vec![liquidated(1)],
        notes_created: vec![created(5, 0xab), created(6, 0xab)],
        notes_claimed: vec![NoteClaimed { note_id: note_id(&TOKEN, 5) }],
    };
    apply_chunk(&mut db, &chunk, &TOKEN);
    assert!(db.get_open_positions(&[7; 32]).is_empty());
    assert_eq!(db.get_open_positions(&[8; 32]), vec![position(3)]);
    let history = db.get_historical_positions(&[7; 32], None, 20).items;
    assert_eq!(history.len(), 2);
    assert_eq!(history[0].position, position(1));
    assert_eq!(history[0].status, PositionStatus::Liquidated);
    assert_eq!(history[1].position, position(2));
    assert_eq!(history[1].status, PositionStatus::Closed);
    assert_eq!(db.get_unspent_notes(&[0xab; 32]), vec![unspent(6, 0xab)]);
}

#[test]
fn an_empty_chunk_changes_nothing() {
    let mut db = Database::new();
    handle_position_opened(&mut db, &opened(1, 7));
    let chunk = ChunkEvents {
        positions_opened: vec![],
        positions_closed: vec![],
        positions_liquidated: vec![],
        notes_created: vec![],
        notes_claimed: vec![],
    };
    apply_chunk(&mut db, &chunk, &TOKEN);
    assert_eq!(db.get_open_positions(&[7; 32]), vec![position(1)]);
}

#[test]
fn live_events_reach_their_handlers() {
    let mut db = Database::new();
    dispatch(&mut db, &ChainEvent::PositionOpened(opened(1, 7)), &TOKEN, &PROXY);
    dispatch(&mut db, &ChainEvent::NoteCreated(created(5, 0xab)), &TOKEN, &PROXY);
    dispatch(
        &mut db,
        &ChainEvent::PublicPositionOpened(PublicPositionOpened {
            position_id: id(4),
            user: [0x42; 20],
            is_long: true,
            entry_price: word(50000),
            margin: word(100),
            size: word(3),
        }),
        &TOKEN,
        &PROXY,
    );
    assert_eq!(db.get_open_positions(&[7; 32]), vec![position(1)]);
    assert_eq!(db.get_open_positions(&owner_key_from_address(&[0x42; 20])), vec![position(4)]);
    assert_eq!(db.get_unspent_notes(&[0xab; 32]).len(), 1);
    dispatch(&mut db, &ChainEvent::PositionClosed(closed(1)), &TOKEN, &PROXY);
    dispatch(&mut db, &ChainEvent::PositionLiquidated(liquidated(4)), &TOKEN, &PROXY);
    dispatch(&mut db, &ChainEvent::NoteClaimed(NoteClaimed { note_id: note_id(&TOKEN, 5) }), &TOKEN, &PROXY);
    assert!(db.get_open_positions(&[7; 32]).is_empty());
    assert!(db.get_open_positions(&owner_key_from_address(&[0x42; 20])).is_empty());
    assert!(db.get_unspent_notes(&[0xab; 32]).is_empty());
    dispatch(&mut db, &ChainEvent::NoteClaimed(NoteClaimed { note_id: [0; 32] }), &TOKEN, &PROXY);
    dispatch(&mut db, &ChainEvent::PositionClosed(closed(9)), &TOKEN, &PROXY);
    assert_eq!(db.get_historical_positions(&[7; 32], None, 20).items.len(), 1);
}

#[test]
fn amounts_are_written_in_decimal_without_loss() {
    let mut db = Database::new();
    let log = PositionOpened {
        position_id: id(1),
        owner_pub_key: [7; 32],
        is_long: false,
        entry_price: [0xff; 32],
        margin: word(0),
        size: word(u128::MAX),
    };
    handle_position_opened(&mut db, &log);
    let open = db.get_open_positions(&[7; 32]);
    assert_eq!(
        open[0].entry_price,
        "115792089237316195423570985008687907853269984665640564039457584007913129639935"
    );
    assert_eq!(open[0].margin, "0");
    assert_eq!(open[0].size, "340282366920938463463374607431768211455");
    assert!(!open[0].is_long);
}

#[test]
fn a_profit_or_loss_is_read_in_twos_complement() {
    let pnl_of = |pnl: [u8; 32]| {
        let mut db = Database::new();
        handle_position_opened(&mut db, &opened(1, 7));
        handle_position_closed(&mut db, &PositionClosed { position_id: id(1), user: [0; 20], pnl });
        db.get_historical_positions(&[7; 32], None, 1).items[0].final_pnl.clone()
    };
    assert_eq!(pnl_of(signed_word(0)), "0");
    assert_eq!(pnl_of(signed_word(1234567)), "1234567");
    assert_eq!(pnl_of(signed_word(-1)), "-1");
    assert_eq!(pnl_of(signed_word(-1234567)), "-1234567");
    let mut least = [0u8; 32];
    least[0] = 0x80;
    assert_eq!(
        pnl_of(least),
        "-57896044618658097711785492504343953926634992332820282019728792003956564819968"
    );
    let mut greatest = [0xffu8; 32];
    greatest[0] = 0x7f;
    assert_eq!(
        pnl_of(greatest),
        "57896044618658097711785492504343953926634992332820282019728792003956564819967"
    );
}
