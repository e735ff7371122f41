use perp_backend::keys::{note_id, note_preimage_bytes, owner_key_from_address, owner_key_from_signer};

fn hex32(text: &str) -> [u8; 32] {
    let bytes = hex::decode(text).unwrap();
    let mut out = [0u8; 32];
    out.copy_from_slice(&bytes);
    out
}

#[test]
fn an_address_is_padded_on_the_left() {
    let mut address = [0u8; 20];
    for (i, b) in address.iter_mut().enumerate() {
        *b = (i + 1) as u8;
    }
    let key = owner_key_from_address(&address);
    assert_eq!(&key[..12], &[0u8; 12]);
    assert_eq!(&key[12..], &address);
}

#[test]
fn a_signer_key_is_the_digest_of_the_address() {
    assert_eq!(
        owner_key_from_signer(&[0u8; 20]),
        hex32("5380c7b7ae81a58eb98d9c78de4a1fd7fd9535fc953ed2be602daaa41767312a")
    );
    let mut address = [0u8; 20];
    for (i, b) in address.iter_mut().enumerate() {
        *b = i as u8;
    }
    assert_eq!(
        owner_key_from_signer(&address),
        hex32("27de39f50eaf89fe36fa279026a22605711fde9c16c0f23ae2c3e9faf4eed6ae")
    );
}

#[test]
fn a_note_preimage_is_the_address_and_the_nonce_as_a_word() {
    let bytes = note_preimage_bytes(&[0x11; 20], 0x0102030405060708);
    assert_eq!(bytes.len(), 52);
    assert_eq!(&bytes[..20], &[0x11; 20]);
    assert_eq!(&bytes[20..44], &[0u8; 24]);
    assert_eq!(&bytes[44..], &[1, 2, 3, 4, 5, 6, 7, 8]);
    let bytes = note_preimage_bytes(&[0; 20], u64::MAX);
    assert_eq!(&bytes[44..], &[0xff; 8]);
}

#[test]
fn a_note_id_is_the_digest_of_its_preimage() {
    assert_eq!(
        note_id(&[0x11; 20], 5),
        hex32("6fb9615f32bbdba460ac59c7db4aee8fae27d2d594928a4a6b27ac5ce61460b1")
    );
    assert_eq!(
        note_id(&[0x11; 20], 0x0102030405060708),
        hex32("86c5532c2b81a48f357aa02ba03a477eb7bd9b4b81a1ad77a1d11b5a1a89208d")
    );
    assert_eq!(
        note_id(&[0x22; 20], 7),
        ethers::utils::keccak256(note_preimage_bytes(&[0x22; 20], 7))
    );
}
