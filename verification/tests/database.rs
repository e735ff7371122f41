use perp_backend::database::{Database, PositionData};
use perp_backend::hex_codec::{prefixed_hex, HexError};
use perp_backend::models::{HistoricalPosition, Note, Position, PositionStatus, UnspentNote};

fn raw_id(tag: u8) -> [u8; 32] {
    let mut id = [0u8; 32];
    id[31] = tag;
    id
}

fn position(tag: u8) -> Position {
    Position {
        position_id: prefixed_hex(&raw_id(tag)),
        is_long: tag % 2 == 0,
        entry_price: format!("{}000", tag),
        margin: format!("{}00", tag),
        size: format!("{}", tag),
    }
}

fn note(tag: u8, receiver: &[u8]) -> UnspentNote {
    UnspentNote {
        note_id: prefixed_hex(&raw_id(tag)),
        note: Note {
            note_nonce: tag as u64,
            receiver_hash: prefixed_hex(receiver),
            value: format!("{}", 10 * tag as u32),
        },
    }
}

fn close(db: &mut Database, tag: u8, pnl: &str) {
    db.move_to_historical(&raw_id(tag), PositionStatus::Closed, pnl.to_string(), "0xowner".to_string());
}

#[test]
fn a_new_ledger_is_empty() {
    let db = Database::new();
    assert!(db.get_open_positions(b"owner").is_empty());
    assert!(db.get_unspent_notes(b"receiver").is_empty());
    assert_eq!(db.get_position_by_id(&raw_id(1)), None);
    assert_eq!(db.owner_of_position(&raw_id(1)), None);
    assert_eq!(db.get_user_metadata(b"owner"), None);
    let page = db.get_historical_positions(b"owner", None, 20);
    assert!(page.items.is_empty());
    assert!(!page.has_more);
    assert_eq!(page.next_cursor, None);
}

#[test]
fn an_opened_position_is_listed_indexed_and_recorded() {
    let mut db = Database::new();
    db.add_open_position(b"alice", position(1));
    db.add_open_position(b"alice", position(2));
    db.add_open_position(b"bob", position(3));
    assert_eq!(db.get_open_positions(b"alice"), vec![position(1), position(2)]);
    assert_eq!(db.get_open_positions(b"bob"), vec![position(3)]);
    assert_eq!(db.owner_of_position(&raw_id(2)), Some(b"alice".to_vec()));
    assert_eq!(db.owner_of_position(&raw_id(3)), Some(b"bob".to_vec()));
    assert_eq!(db.get_position_by_id(&raw_id(1)), Some(PositionData::Open(position(1))));
}

#[test]
fn a_second_delivery_of_an_opening_changes_nothing() {
    let mut db = Database::new();
    db.add_open_position(b"alice", position(1));
    db.add_open_position(b"alice", position(2));
    db.add_open_position(b"alice", position(1));
    assert_eq!(db.get_open_positions(b"alice"), vec![position(1), position(2)]);
}

#[test]
fn an_opening_with_a_known_id_keeps_the_list_and_rewrites_the_record() {
    let mut db = Database::new();
    db.add_open_position(b"alice", position(1));
    let mut changed = position(1);
    changed.margin = "77".to_string();
    db.add_open_position(b"alice", changed.clone());
    assert_eq!(db.get_open_positions(b"alice"), vec![position(1)]);
    assert_eq!(db.get_position_by_id(&raw_id(1)), Some(PositionData::Open(changed)));
}

#[test]
fn a_closed_position_moves_to_the_history() {
    let mut db = Database::new();
    db.add_open_position(b"alice", position(1));
    db.add_open_position(b"alice", position(2));
    db.move_to_historical(&raw_id(1), PositionStatus::Liquidated, "Liquidated".to_string(), "0xabc".to_string());
    let settled = HistoricalPosition {
        position: position(1),
        status: PositionStatus::Liquidated,
        final_pnl: "Liquidated".to_string(),
        owner_address: "0xabc".to_string(),
    };
    assert_eq!(db.get_open_positions(b"alice"), vec![position(2)]);
    assert_eq!(db.get_historical_positions(b"alice", None, 20).items, vec![settled.clone()]);
    assert_eq!(db.owner_of_position(&raw_id(1)), None);
    assert_eq!(db.owner_of_position(&raw_id(2)), Some(b"alice".to_vec()));
    assert_eq!(db.get_position_by_id(&raw_id(1)), Some(PositionData::Historical(settled)));
}

#[test]
fn opened_then_closed_is_in_the_history_once_and_open_no_more() {
    let mut db = Database::new();
    db.add_open_position(b"alice", position(1));
    db.add_open_position(b"alice", position(1));
    close(&mut db, 1, "5");
    close(&mut db, 1, "6");
    close(&mut db, 1, "7");
    assert!(db.get_open_positions(b"alice").is_empty());
    let history = db.get_historical_positions(b"alice", None, 20).items;
    assert_eq!(history.len(), 1);
    assert_eq!(history[0].position, position(1));
    assert_eq!(history[0].final_pnl, "5");
}

#[test]
fn a_second_closing_is_a_no_op() {
    let mut db = Database::new();
    db.add_open_position(b"alice", position(1));
    db.add_open_position(b"alice", position(2));
    close(&mut db, 1, "5");
    let before = db.get_historical_positions(b"alice", None, 20).items;
    close(&mut db, 1, "9");
    let after = db.get_historical_positions(b"alice", None, 20).items;
    assert_eq!(before.len(), 1);
    assert_eq!(after, before);
    assert_eq!(db.get_open_positions(b"alice"), vec![position(2)]);
}

#[test]
fn closing_an_unknown_position_is_a_silent_no_op() {
    let mut db = Database::new();
    db.add_open_position(b"alice", position(1));
    close(&mut db, 9, "5");
    assert_eq!(db.get_open_positions(b"alice"), vec![position(1)]);
    assert!(db.get_historical_positions(b"alice", None, 20).items.is_empty());
    assert_eq!(db.get_position_by_id(&raw_id(9)), None);
}

#[test]
fn the_history_is_newest_first() {
    let mut db = Database::new();
    db.add_open_position(b"alice", position(1));
    db.add_open_position(b"alice", position(2));
    close(&mut db, 1, "a");
    close(&mut db, 2, "b");
    let history = db.get_historical_positions(b"alice", None, 20).items;
    assert_eq!(history.len(), 2);
    assert_eq!(history[0].position, position(2));
    assert_eq!(history[1].position, position(1));
}

fn ledger_with_history_of_five() -> Database {
    let mut db = Database::new();
    for tag in 1..=5u8 {
        db.add_open_position(b"alice", position(tag));
    }
    for tag in 1..=5u8 {
        close(&mut db, tag, "0");
    }
    db
}

#[test]
fn the_first_page_of_five_items_holds_two_and_points_to_the_third() {
    let db = ledger_with_history_of_five();
    let page = db.get_historical_positions(b"alice", Some(0), 2);
    assert_eq!(page.items.len(), 2);
    assert_eq!(page.items[0].position, position(5));
    assert_eq!(page.items[1].position, position(4));
    assert!(page.has_more);
    assert_eq!(page.next_cursor, Some("2".to_string()));
}

#[test]
fn a_cursor_at_the_length_gives_an_empty_page() {
    let db = ledger_with_history_of_five();
    let page = db.get_historical_positions(b"alice", Some(5), 2);
    assert!(page.items.is_empty());
    assert!(!page.has_more);
    assert_eq!(page.next_cursor, None);
    let page = db.get_historical_positions(b"alice", Some(usize::MAX), usize::MAX);
    assert!(page.items.is_empty());
    assert!(!page.has_more);
    assert_eq!(page.next_cursor, None);
}

#[test]
fn the_last_page_ends_at_the_list() {
    let db = ledger_with_history_of_five();
    let page = db.get_historical_positions(b"alice", Some(3), 2);
    assert_eq!(page.items.len(), 2);
    assert_eq!(page.items[0].position, position(2));
    assert_eq!(page.items[1].position, position(1));
    assert!(!page.has_more);
    assert_eq!(page.next_cursor, None);
    let page = db.get_historical_positions(b"alice", Some(4), usize::MAX);
    assert_eq!(page.items.len(), 1);
    assert!(!page.has_more);
}

#[test]
fn a_page_without_cursor_starts_at_the_head_and_a_page_of_size_zero_is_empty() {
    let db = ledger_with_history_of_five();
    let page = db.get_historical_positions(b"alice", None, 3);
    assert_eq!(page.items.len(), 3);
    assert_eq!(page.items[0].position, position(5));
    assert_eq!(page.next_cursor, Some("3".to_string()));
    let page = db.get_historical_positions(b"alice", Some(1), 0);
    assert!(page.items.is_empty());
    assert!(page.has_more);
    assert_eq!(page.next_cursor, Some("1".to_string()));
}

#[test]
fn notes_are_listed_by_receiver_hash() {
    let mut db = Database::new();
    assert_eq!(db.add_unspent_note(&note(1, &[0xaa, 0xbb])), Ok(()));
    assert_eq!(db.add_unspent_note(&note(2, &[0xaa, 0xbb])), Ok(()));
    assert_eq!(db.add_unspent_note(&note(3, &[0xcc])), Ok(()));
    assert_eq!(
        db.get_unspent_notes(&[0xaa, 0xbb]),
        vec![note(1, &[0xaa, 0xbb]), note(2, &[0xaa, 0xbb])]
    );
    assert_eq!(db.get_unspent_notes(&[0xcc]), vec![note(3, &[0xcc])]);
    assert!(db.get_unspent_notes(&[0xdd]).is_empty());
}

#[test]
fn a_receiver_hash_is_read_with_or_without_prefix_and_in_either_case() {
    let mut db = Database::new();
    let mut a = note(1, &[0xaa, 0xbb]);
    a.note.receiver_hash = "AABB".to_string();
    assert_eq!(db.add_unspent_note(&a), Ok(()));
    assert_eq!(db.get_unspent_notes(&[0xaa, 0xbb]), vec![a]);
}

#[test]
fn a_second_delivery_of_a_created_note_is_recorded_again() {
    let mut db = Database::new();
    assert_eq!(db.add_unspent_note(&note(1, &[0xaa])), Ok(()));
    assert_eq!(db.add_unspent_note(&note(1, &[0xaa])), Ok(()));
    assert_eq!(db.get_unspent_notes(&[0xaa]).len(), 2);
}

#[test]
fn a_note_with_a_malformed_receiver_hash_is_refused() {
    let mut db = Database::new();
    let mut odd = note(1, &[0xaa]);
    odd.note.receiver_hash = "0xabc".to_string();
    assert_eq!(db.add_unspent_note(&odd), Err(HexError::OddLength));
    let mut bad = note(1, &[0xaa]);
    bad.note.receiver_hash = "0xabxy".to_string();
    assert_eq!(
        db.add_unspent_note(&bad),
        Err(HexError::InvalidHexCharacter { c: 'x', index: 2 })
    );
    assert!(db.get_unspent_notes(&[0xaa]).is_empty());
    assert!(db.get_unspent_notes(&[0xab]).is_empty());
}

#[test]
fn a_claimed_note_leaves_its_list() {
    let mut db = Database::new();
    db.add_unspent_note(&note(1, &[0xaa])).unwrap();
    db.add_unspent_note(&note(2, &[0xaa])).unwrap();
    db.add_unspent_note(&note(3, &[0xbb])).unwrap();
    db.remove_unspent_note(&raw_id(2));
    assert_eq!(db.get_unspent_notes(&[0xaa]), vec![note(1, &[0xaa])]);
    assert_eq!(db.get_unspent_notes(&[0xbb]), vec![note(3, &[0xbb])]);
    db.remove_unspent_note(&raw_id(1));
    assert!(db.get_unspent_notes(&[0xaa]).is_empty());
}

#[test]
fn claiming_an_unknown_note_leaves_all_lists_unchanged() {
    let mut db = Database::new();
    db.add_unspent_note(&note(1, &[0xaa])).unwrap();
    db.add_unspent_note(&note(3, &[0xbb])).unwrap();
    db.remove_unspent_note(&raw_id(7));
    assert_eq!(db.get_unspent_notes(&[0xaa]), vec![note(1, &[0xaa])]);
    assert_eq!(db.get_unspent_notes(&[0xbb]), vec![note(3, &[0xbb])]);
    let mut empty = Database::new();
    empty.remove_unspent_note(&raw_id(7));
    assert!(empty.get_unspent_notes(&[0xaa]).is_empty());
}

#[test]
fn a_claim_takes_the_first_note_of_the_least_receiver_hash() {
    let mut db = Database::new();
    db.add_unspent_note(&note(1, &[0xbb])).unwrap();
    db.add_unspent_note(&note(1, &[0xaa, 0x00])).unwrap();
    db.add_unspent_note(&note(2, &[0xaa, 0x00])).unwrap();
    db.add_unspent_note(&note(1, &[0xaa, 0x00])).unwrap();
    db.add_unspent_note(&note(1, &[0xaa])).unwrap();
    db.remove_unspent_note(&raw_id(1));
    assert!(db.get_unspent_notes(&[0xaa]).is_empty());
    assert_eq!(db.get_unspent_notes(&[0xaa, 0x00]).len(), 3);
    db.remove_unspent_note(&raw_id(1));
    assert_eq!(
        db.get_unspent_notes(&[0xaa, 0x00]),
        vec![note(2, &[0xaa, 0x00]), note(1, &[0xaa, 0x00])]
    );
    assert_eq!(db.get_unspent_notes(&[0xbb]).len(), 1);
    db.remove_unspent_note(&raw_id(1));
    db.remove_unspent_note(&raw_id(1));
    assert_eq!(db.get_unspent_notes(&[0xaa, 0x00]), vec![note(2, &[0xaa, 0x00])]);
    assert!(db.get_unspent_notes(&[0xbb]).is_empty());
}

#[test]
fn metadata_is_kept_by_owner_and_replaced_on_write() {
    let mut db = Database::new();
    db.set_user_metadata(b"alice", vec![1, 2, 3]);
    db.set_user_metadata(b"bob", vec![]);
    db.set_user_metadata(b"alice", vec![4]);
    assert_eq!(db.get_user_metadata(b"alice"), Some(vec![4]));
    assert_eq!(db.get_user_metadata(b"bob"), Some(vec![]));
    assert_eq!(db.get_user_metadata(b"carol"), None);
}

#[test]
fn positions_and_notes_do_not_touch_each_other() {
    let mut db = Database::new();
    db.add_open_position(b"alice", position(1));
    db.add_unspent_note(&note(1, b"alice")).unwrap();
    close(&mut db, 1, "1");
    assert_eq!(db.get_unspent_notes(b"alice"), vec![note(1, b"alice")]);
    db.remove_unspent_note(&raw_id(1));
    assert_eq!(db.get_historical_positions(b"alice", None, 20).items.len(), 1);
}

#[test]
fn a_record_is_never_deleted() {
    let mut db = Database::new();
    db.add_open_position(b"alice", position(1));
    close(&mut db, 1, "1");
    close(&mut db, 1, "2");
    db.remove_unspent_note(&raw_id(1));
    assert!(matches!(db.get_position_by_id(&raw_id(1)), Some(PositionData::Historical(_))));
    db.add_open_position(b"alice", position(1));
    assert_eq!(db.get_position_by_id(&raw_id(1)), Some(PositionData::Open(position(1))));
}

#[test]
fn a_claim_is_located_before_it_strikes() {
    let mut db = Database::new();
    assert_eq!(db.find_unspent_note(&raw_id(1)), None);
    db.add_unspent_note(&note(2, &[0xaa])).unwrap();
    db.add_unspent_note(&note(1, &[0xaa])).unwrap();
    db.add_unspent_note(&note(1, &[0x0a])).unwrap();
    assert_eq!(db.find_unspent_note(&raw_id(1)), Some((vec![0x0a], 0)));
    assert_eq!(db.find_unspent_note(&raw_id(2)), Some((vec![0xaa], 0)));
    db.remove_unspent_note(&raw_id(1));
    assert_eq!(db.find_unspent_note(&raw_id(1)), Some((vec![0xaa], 1)));
    assert_eq!(db.find_unspent_note(&raw_id(3)), None);
}

#[test]
fn metadata_of_more_than_4096_bytes_does_not_fit() {
    assert!(Database::metadata_fits(&[]));
    assert!(Database::metadata_fits(&vec![0u8; 4096]));
    assert!(!Database::metadata_fits(&vec![0u8; 4097]));
}

#[test]
fn a_persisted_ledger_is_put_back_piece_by_piece() {
    let mut db = Database::new();
    let id_text = position(1).position_id.clone();
    db.restore_open_positions(b"alice", vec![position(1)]);
    db.restore_owner(id_text.as_bytes(), b"alice");
    db.restore_record(id_text.as_bytes(), PositionData::Open(position(1)));
    db.restore_unspent_notes(&[0xaa], vec![note(1, &[0xaa])]);
    let settled = HistoricalPosition {
        position: position(2),
        status: PositionStatus::Closed,
        final_pnl: "1".to_string(),
        owner_address: "0xowner".to_string(),
    };
    db.restore_historical_positions(b"alice", vec![settled.clone()]);
    assert_eq!(db.get_open_positions(b"alice"), vec![position(1)]);
    assert_eq!(db.owner_of_position(&raw_id(1)), Some(b"alice".to_vec()));
    assert_eq!(db.get_position_by_id(&raw_id(1)), Some(PositionData::Open(position(1))));
    assert_eq!(db.get_unspent_notes(&[0xaa]), vec![note(1, &[0xaa])]);
    close(&mut db, 1, "3");
    let history = db.get_historical_positions(b"alice", None, 20).items;
    assert_eq!(history.len(), 2);
    assert_eq!(history[0].position, position(1));
    assert_eq!(history[1], settled);
}

#[test]
fn the_keys_of_each_collection_are_listed_in_order() {
    let mut db = Database::new();
    db.add_open_position(b"bob", position(2));
    db.add_open_position(b"alice", position(1));
    db.add_unspent_note(&note(1, &[0xbb])).unwrap();
    db.add_unspent_note(&note(2, &[0xaa])).unwrap();
    db.set_user_metadata(b"carol", vec![1]);
    close(&mut db, 2, "1");
    assert_eq!(db.open_position_owners(), vec![b"alice".to_vec(), b"bob".to_vec()]);
    assert_eq!(db.historical_position_owners(), vec![b"bob".to_vec()]);
    assert_eq!(db.note_receivers(), vec![vec![0xaa], vec![0xbb]]);
    assert_eq!(db.metadata_owners(), vec![b"carol".to_vec()]);
    let key1 = position(1).position_id.into_bytes();
    let key2 = position(2).position_id.into_bytes();
    assert_eq!(db.indexed_position_keys(), vec![key1.clone()]);
    assert_eq!(db.recorded_position_keys(), vec![key1.clone(), key2.clone()]);
    assert_eq!(db.owner_by_key(&key1), Some(b"alice".to_vec()));
    assert_eq!(db.owner_by_key(&key2), None);
    assert_eq!(db.record_by_key(&key1), Some(PositionData::Open(position(1))));
    assert!(matches!(db.record_by_key(&key2), Some(PositionData::Historical(_))));
    assert_eq!(db.get_all_historical_positions(b"bob").len(), 1);
    assert!(db.get_all_historical_positions(b"alice").is_empty());
}
