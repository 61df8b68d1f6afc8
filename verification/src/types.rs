//! The plain values that requests and replies are made of.

use vstd::prelude::*;

verus! {

/// Identifies a connected peer.
pub type PeerId = usize;

/// Identifies a request that was sent to a peer.
pub type ReqId = usize;

/// Raw bytes.
pub type Bytes = Vec<u8>;

/// A 256-bit hash.
pub type H256 = [u8; 32];

/// An account address.
pub type Address = [u8; 20];

/// The Keccak-256 hash of no bytes at all.
pub const SHA3_EMPTY: [u8; 32] = [
    0xc5, 0xd2, 0x46, 0x01, 0x86, 0xf7, 0x23, 0x3c, 0x92, 0x7e, 0x7d, 0xb2, 0xdc, 0xc7, 0x03, 0xc0,
    0xe5, 0x00, 0xb6, 0x53, 0xca, 0x82, 0x27, 0x3b, 0x7b, 0xfa, 0xd8, 0x04, 0x5d, 0x85, 0xa4, 0x70,
];

/// The Keccak-256 hash of the RLP encoding of empty data.
pub const SHA3_NULL_RLP: [u8; 32] = [
    0x56, 0xe8, 0x1f, 0x17, 0x1b, 0xcc, 0x55, 0xa6, 0xff, 0x83, 0x45, 0xe6, 0x92, 0xc0, 0xf8, 0x6e,
    0x5b, 0x48, 0xe0, 0x1b, 0x99, 0x6c, 0xad, 0xc0, 0x01, 0x62, 0x2f, 0xb5, 0xe3, 0x63, 0xb4, 0x21,
];

/// The Keccak-256 hash of the RLP encoding of the empty list.
pub const SHA3_EMPTY_LIST_RLP: [u8; 32] = [
    0x1d, 0xcc, 0x4d, 0xe8, 0xde, 0xc7, 0x5d, 0x7a, 0xab, 0x85, 0xb5, 0x67, 0xb6, 0xcc, 0xd4, 0x1a,
    0xd3, 0x12, 0x45, 0x1b, 0x94, 0x8a, 0x74, 0x13, 0xf0, 0xa1, 0x42, 0xfd, 0x40, 0xd4, 0x93, 0x47,
];

/// Compares two hashes.
pub fn same_hash(a: &H256, b: &H256) -> (same: bool)
    ensures
        same == (a@ == b@),
{
    let mut i: usize = 0;
    while i < 32
        invariant
            i <= 32,
            forall|j: int| 0 <= j < i ==> a@[j] == b@[j],
        decreases 32 - i,
    {
        if a[i] != b[i] {
            return false;
        }
        i = i + 1;
    }
    assert(a@ =~= b@);
    true
}

/// An unsigned 256-bit number, least significant word first.
#[derive(Clone, Copy, Debug, PartialEq, Eq)]
pub struct U256(pub [u64; 4]);

/// A block header: its encoding, and the fields that requests are made from.
#[derive(Debug, PartialEq, Eq)]
pub struct Header {
    /// The block's number.
    pub number: u64,
    /// The block's hash.
    pub hash: H256,
    /// The root of the trie of the block's transactions.
    pub transactions_root: H256,
    /// The hash of the block's list of uncles.
    pub uncles_hash: H256,
    /// The root of the trie of the block's receipts.
    pub receipts_root: H256,
    /// The RLP encoding of the header.
    pub rlp: Bytes,
}

/// A block in its RLP encoding.
#[derive(Debug, PartialEq, Eq)]
pub struct Block(pub Bytes);

/// A transaction receipt in its RLP encoding.
#[derive(Debug, PartialEq, Eq)]
pub struct Receipt(pub Bytes);

/// The state of an account.
#[derive(Clone, Copy, Debug, PartialEq, Eq)]
pub struct BasicAccount {
    /// The number of transactions sent from the account.
    pub nonce: U256,
    /// The account's balance.
    pub balance: U256,
    /// The root of the account's storage trie.
    pub storage_root: H256,
    /// The hash of the account's code.
    pub code_hash: H256,
}

} // verus!
