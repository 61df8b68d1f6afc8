//! The requests that callers make.

use crate::types::{Address, Header, H256};
use vstd::prelude::*;

verus! {

/// A request for a header by number, to be proved against a canonical hash trie.
#[derive(Clone, Copy, Debug, PartialEq, Eq)]
pub struct HeaderByNumber {
    /// The header's number.
    pub num: u64,
    /// The number of the trie that holds the header's hash.
    pub cht_num: u64,
    /// The root of that trie.
    pub cht_root: H256,
}

/// A request for a header by hash.
#[derive(Clone, Copy, Debug, PartialEq, Eq)]
pub struct HeaderByHash(pub H256);

/// A request for the body of a block.
#[derive(Debug, PartialEq, Eq)]
pub struct Body {
    /// The block's header, against which the body is verified.
    pub header: Header,
    /// The block's hash.
    pub hash: H256,
}

/// A request for the receipts of the block with this header.
#[derive(Debug, PartialEq, Eq)]
pub struct BlockReceipts(pub Header);

/// A request for an account.
#[derive(Debug, PartialEq, Eq)]
pub struct Account {
    /// The header of the block in whose state the account is looked up.
    pub header: Header,
    /// The account's address.
    pub address: Address,
}

/// A request for the code of a contract.
#[derive(Debug, PartialEq, Eq)]
pub struct Code {
    /// The hash and the number of the block in whose state the code is looked up.
    pub block_id: (H256, u64),
    /// The contract's address.
    pub address: Address,
    /// The hash of the code.
    pub code_hash: H256,
}

impl Body {
    /// The header says that the block has neither transactions nor uncles.
    pub open spec fn is_empty(self) -> bool {
        &&& self.header.transactions_root@ == crate::types::SHA3_NULL_RLP@
        &&& self.header.uncles_hash@ == crate::types::SHA3_EMPTY_LIST_RLP@
    }
}

impl BlockReceipts {
    /// The header says that the block has no receipts.
    pub open spec fn is_empty(self) -> bool {
        self.0.receipts_root@ == crate::types::SHA3_NULL_RLP@
    }
}

impl Code {
    /// The contract has no code.
    pub open spec fn is_empty(self) -> bool {
        self.code_hash@ == crate::types::SHA3_EMPTY@
    }
}

} // verus!
