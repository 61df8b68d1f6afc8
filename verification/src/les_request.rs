//! The requests that go to a peer.

use crate::types::H256;
use vstd::prelude::*;

verus! {

/// A block, given by its hash or by its number.
#[derive(Clone, Copy, Debug, PartialEq, Eq)]
pub enum HashOrNumber {
    /// The block with this hash.
    Hash(H256),
    /// The block with this number.
    Number(u64),
}

/// A request for one header with its proof of inclusion in a canonical hash trie.
#[derive(Clone, Copy, Debug, PartialEq, Eq)]
pub struct HeaderProof {
    /// The number of the trie.
    pub cht_number: u64,
    /// The header's number.
    pub block_number: u64,
    /// The level of the trie at which the proof starts.
    pub from_level: u32,
}

/// A request for headers with their proofs.
#[derive(Clone, Debug, PartialEq, Eq)]
pub struct HeaderProofs {
    /// The headers that are asked for.
    pub requests: Vec<HeaderProof>,
}

/// A request for a run of headers.
#[derive(Clone, Debug, PartialEq, Eq)]
pub struct Headers {
    /// Where the run starts.
    pub start: HashOrNumber,
    /// How many headers the reply may hold.
    pub max: usize,
    /// How many headers are left out between two that are sent.
    pub skip: u64,
    /// Whether the run goes backwards.
    pub reverse: bool,
}

/// A request for block bodies.
#[derive(Clone, Debug, PartialEq, Eq)]
pub struct Bodies {
    /// The hashes of the blocks.
    pub block_hashes: Vec<H256>,
}

/// A request for receipts.
#[derive(Clone, Debug, PartialEq, Eq)]
pub struct Receipts {
    /// The hashes of the blocks.
    pub block_hashes: Vec<H256>,
}

/// A request for the proof of one account or storage entry.
#[derive(Clone, Copy, Debug, PartialEq, Eq)]
pub struct StateProof {
    /// The hash of the block whose state is asked for.
    pub block: H256,
    /// The key of the account.
    pub key1: H256,
    /// The key within the account's storage, if a storage entry is meant.
    pub key2: Option<H256>,
    /// The level of the trie at which the proof starts.
    pub from_level: u32,
}

/// A request for state proofs.
#[derive(Clone, Debug, PartialEq, Eq)]
pub struct StateProofs {
    /// The entries that are asked for.
    pub requests: Vec<StateProof>,
}

/// A request for the code of one contract.
#[derive(Clone, Copy, Debug, PartialEq, Eq)]
pub struct ContractCode {
    /// The hash of the block whose state is asked for.
    pub block_hash: H256,
    /// The key of the contract's account.
    pub account_key: H256,
}

/// A request for the code of contracts.
#[derive(Clone, Debug, PartialEq, Eq)]
pub struct ContractCodes {
    /// The contracts that are asked for.
    pub code_requests: Vec<ContractCode>,
}

/// A request to a peer.
#[derive(Clone, Debug, PartialEq, Eq)]
pub enum Request {
    /// For headers.
    Headers(Headers),
    /// For block bodies.
    Bodies(Bodies),
    /// For receipts.
    Receipts(Receipts),
    /// For state proofs.
    StateProofs(StateProofs),
    /// For the code of contracts.
    Codes(ContractCodes),
    /// For headers with proofs.
    HeaderProofs(HeaderProofs),
}

/// What a [`HashOrNumber`] says.
pub enum HashOrNumberView {
    Hash(Seq<u8>),
    Number(u64),
}

/// What a [`StateProof`] asks for.
pub struct StateProofView {
    pub block: Seq<u8>,
    pub key1: Seq<u8>,
    pub key2: Option<Seq<u8>>,
    pub from_level: u32,
}

/// What a [`ContractCode`] asks for.
pub struct ContractCodeView {
    pub block_hash: Seq<u8>,
    pub account_key: Seq<u8>,
}

/// What a [`Request`] asks for.
#[verifier::ext_equal]
pub enum RequestView {
    Headers { start: HashOrNumberView, max: usize, skip: u64, reverse: bool },
    Bodies(Seq<Seq<u8>>),
    Receipts(Seq<Seq<u8>>),
    StateProofs(Seq<StateProofView>),
    Codes(Seq<ContractCodeView>),
    HeaderProofs(Seq<HeaderProof>),
}

impl View for HashOrNumber {
    type V = HashOrNumberView;

    open spec fn view(&self) -> HashOrNumberView {
        match *self {
            HashOrNumber::Hash(hash) => HashOrNumberView::Hash(hash@),
            HashOrNumber::Number(number) => HashOrNumberView::Number(number),
        }
    }
}

impl View for StateProof {
    type V = StateProofView;

    open spec fn view(&self) -> StateProofView {
        StateProofView {
            block: self.block@,
            key1: self.key1@,
            key2: match self.key2 {
                Some(key) => Some(key@),
                None => None,
            },
            from_level: self.from_level,
        }
    }
}

impl View for ContractCode {
    type V = ContractCodeView;

    open spec fn view(&self) -> ContractCodeView {
        ContractCodeView { block_hash: self.block_hash@, account_key: self.account_key@ }
    }
}

impl View for Request {
    type V = RequestView;

    open spec fn view(&self) -> RequestView {
        match *self {
            Request::Headers(r) => RequestView::Headers {
                start: r.start@,
                max: r.max,
                skip: r.skip,
                reverse: r.reverse,
            },
            Request::Bodies(r) => RequestView::Bodies(
                r.block_hashes@.map_values(|hash: H256| hash@),
            ),
            Request::Receipts(r) => RequestView::Receipts(
                r.block_hashes@.map_values(|hash: H256| hash@),
            ),
            Request::StateProofs(r) => RequestView::StateProofs(
                r.requests@.map_values(|proof: StateProof| proof@),
            ),
            Request::Codes(r) => RequestView::Codes(
                r.code_requests@.map_values(|code: ContractCode| code@),
            ),
            Request::HeaderProofs(r) => RequestView::HeaderProofs(r.requests@),
        }
    }
}

} // verus!
