//! The 32-byte keys of the ledger: owner keys of the public and the
//! private flow, and the ids of notes.

use vstd::prelude::*;
use crate::digest::{keccak256, keccak256_digest};

verus! {

/// An account address behind twelve zero bytes.
pub open spec fn padded_address(address: Seq<u8>) -> Seq<u8> {
    Seq::new(32, |i: int| if i < 12 { 0u8 } else { address[i - 12] })
}

/// A nonce as a 32-byte word, the most significant byte first.
pub open spec fn nonce_word(nonce: u64) -> Seq<u8> {
    Seq::new(
        32,
        |i: int|
            if i < 24 {
                0u8
            } else {
                ((nonce >> ((8 * (31 - i)) as u64)) & 0xff) as u8
            },
    )
}

/// What is hashed into a note's id: the token's address, then the
/// nonce as a word.
pub open spec fn note_preimage(token: Seq<u8>, nonce: u64) -> Seq<u8> {
    token + nonce_word(nonce)
}

/// The owner key of the public flow: the account address, padded with
/// zeros on the left to 32 bytes.
pub fn owner_key_from_address(address: &[u8; 20]) -> (key: [u8; 32])
    ensures
        key@ == padded_address(address@),
{
    let mut key = [0u8;32];
    let mut i: usize = 0;
    while i < 20
        invariant
            i <= 20,
            forall|j: int| 0 <= j < 12 ==> key@[j] == 0u8,
            forall|j: int| 12 <= j < 12 + i ==> key@[j] == address@[j - 12],
        decreases 20 - i,
    {
        key[12 + i] = address[i];
        i += 1;
    }
    assert(key@ =~= padded_address(address@));
    key
}

/// The owner key of the private flow: the digest of the address that
/// signed the request.
pub fn owner_key_from_signer(address: &[u8; 20]) -> (key: [u8; 32])
    ensures
        key@ == keccak256_digest(address@),
{
    keccak256(address.as_slice())
}

/// The bytes that are hashed into the id of the note that `token` issued
/// under `note_nonce`.
pub fn note_preimage_bytes(token: &[u8; 20], note_nonce: u64) -> (bytes: Vec<u8>)
    ensures
        bytes@ == note_preimage(token@, note_nonce),
{
    let mut bytes: Vec<u8> = Vec::new();
    let mut i: usize = 0;
    while i < 20
        invariant
            i <= 20,
            bytes@ == token@.subrange(0, i as int),
        decreases 20 - i,
    {
        bytes.push(token[i]);
        i += 1;
        assert(bytes@ =~= token@.subrange(0, i as int));
    }
    assert(bytes@ =~= token@);
    let mut k: usize = 0;
    while k < 32
        invariant
            k <= 32,
            bytes@ == token@ + nonce_word(note_nonce).subrange(0, k as int),
        decreases 32 - k,
    {
        let byte: u8 = if k < 24 {
            0u8
        } else {
            ((note_nonce >> ((8 * (31 - k)) as u64)) & 0xff) as u8
        };
        bytes.push(byte);
        k += 1;
        assert(bytes@ =~= token@ + nonce_word(note_nonce).subrange(0, k as int));
    }
    assert(bytes@ =~= token@ + nonce_word(note_nonce));
    bytes
}

/// The id of the note that `token` issued under `note_nonce`: the
/// digest of the address followed by the nonce as a word.
pub fn note_id(token: &[u8; 20], note_nonce: u64) -> (id: [u8; 32])
    ensures
        id@ == keccak256_digest(note_preimage(token@, note_nonce)),
{
    let bytes = note_preimage_bytes(token, note_nonce);
    keccak256(bytes.as_slice())
}

} // verus!
