//! Requests that wait for a reply.

use crate::digest::keccak256;
use crate::les_request::{
    ContractCodeView, HashOrNumberView, HeaderProof, RequestView, StateProofView,
};
use crate::peer::{announced_at_least, reaches, Peer};
use crate::request;
use crate::response::{check_hangup, complete, observed, sent, Error, ReplySender};
use crate::types::{BasicAccount, Block, Bytes, Header, Receipt, U256};
use vstd::prelude::*;

verus! {

/// A request with the sender through which it will be answered.
pub enum Pending {
    /// For a header by number; answered with the header and its total difficulty.
    HeaderByNumber(request::HeaderByNumber, ReplySender<(Header, U256)>),
    /// For a header by hash.
    HeaderByHash(request::HeaderByHash, ReplySender<Header>),
    /// For a block.
    Block(request::Body, ReplySender<Block>),
    /// For the receipts of a block.
    BlockReceipts(request::BlockReceipts, ReplySender<Vec<Receipt>>),
    /// For an account.
    Account(request::Account, ReplySender<BasicAccount>),
    /// For the code of a contract.
    Code(request::Code, ReplySender<Bytes>),
}

/// A valid answer to a request.
pub enum Reply {
    /// The header asked for by number, and its total difficulty.
    HeaderByNumber(Header, U256),
    /// The header asked for by hash.
    HeaderByHash(Header),
    /// The block.
    Block(Block),
    /// The receipts of the block.
    BlockReceipts(Vec<Receipt>),
    /// The account.
    Account(BasicAccount),
    /// The code.
    Code(Bytes),
}

impl Reply {
    /// The reply is of the kind that the request asks for.
    pub open spec fn answers(self, pending: Pending) -> bool {
        match self {
            Reply::HeaderByNumber(..) => pending is HeaderByNumber,
            Reply::HeaderByHash(..) => pending is HeaderByHash,
            Reply::Block(..) => pending is Block,
            Reply::BlockReceipts(..) => pending is BlockReceipts,
            Reply::Account(..) => pending is Account,
            Reply::Code(..) => pending is Code,
        }
    }
}

impl Pending {
    /// What a peer is asked for in order to fulfill the request.
    pub open spec fn les_request(self) -> RequestView {
        match self {
            Pending::HeaderByNumber(req, _) => RequestView::HeaderProofs(
                seq![
                    HeaderProof { cht_number: req.cht_num, block_number: req.num, from_level: 0 },
                ],
            ),
            Pending::HeaderByHash(req, _) => RequestView::Headers {
                start: HashOrNumberView::Hash(req.0@),
                max: 1,
                skip: 0,
                reverse: false,
            },
            Pending::Block(req, _) => RequestView::Bodies(seq![req.hash@]),
            Pending::BlockReceipts(req, _) => RequestView::Receipts(seq![req.0.hash@]),
            Pending::Account(req, _) => RequestView::StateProofs(
                seq![
                    StateProofView {
                        block: req.header.hash@,
                        key1: keccak256(req.address@),
                        key2: None,
                        from_level: 0,
                    },
                ],
            ),
            Pending::Code(req, _) => RequestView::Codes(
                seq![
                    ContractCodeView {
                        block_hash: req.block_id.0@,
                        account_key: keccak256(req.address@),
                    },
                ],
            ),
        }
    }

    /// The peer claims that it can serve the request.
    pub open spec fn suits(self, peer: Peer) -> bool {
        match self {
            Pending::HeaderByNumber(req, _) => peer.capabilities.serve_headers
                && peer.status.head_num >= req.num,
            Pending::HeaderByHash(..) => peer.capabilities.serve_headers,
            Pending::Block(req, _) => announced_at_least(
                peer.capabilities.serve_chain_since,
                req.header.number,
            ),
            Pending::BlockReceipts(req, _) => announced_at_least(
                peer.capabilities.serve_chain_since,
                req.0.number,
            ),
            Pending::Account(req, _) => announced_at_least(
                peer.capabilities.serve_state_since,
                req.header.number,
            ),
            Pending::Code(req, _) => announced_at_least(
                peer.capabilities.serve_state_since,
                req.block_id.1,
            ),
        }
    }

    /// The request was answered with this result.
    pub open spec fn completed(self, result: Result<Reply, Error>) -> bool {
        match (self, result) {
            (Pending::HeaderByNumber(_, sender), Ok(Reply::HeaderByNumber(header, difficulty))) =>
                sent(sender, Ok((header, difficulty))),
            (Pending::HeaderByNumber(_, sender), Err(error)) => sent(sender, Err(error)),
            (Pending::HeaderByHash(_, sender), Ok(Reply::HeaderByHash(header))) => sent(
                sender,
                Ok(header),
            ),
            (Pending::HeaderByHash(_, sender), Err(error)) => sent(sender, Err(error)),
            (Pending::Block(_, sender), Ok(Reply::Block(block))) => sent(sender, Ok(block)),
            (Pending::Block(_, sender), Err(error)) => sent(sender, Err(error)),
            (Pending::BlockReceipts(_, sender), Ok(Reply::BlockReceipts(receipts))) => sent(
                sender,
                Ok(receipts),
            ),
            (Pending::BlockReceipts(_, sender), Err(error)) => sent(sender, Err(error)),
            (Pending::Account(_, sender), Ok(Reply::Account(account))) => sent(
                sender,
                Ok(account),
            ),
            (Pending::Account(_, sender), Err(error)) => sent(sender, Err(error)),
            (Pending::Code(_, sender), Ok(Reply::Code(code))) => sent(sender, Ok(code)),
            (Pending::Code(_, sender), Err(error)) => sent(sender, Err(error)),
            _ => false,
        }
    }

    /// It was checked whether the caller still awaits the answer, and the check said
    /// that the caller is gone, or is not.
    pub open spec fn hangup_seen(self, gone: bool) -> bool {
        match self {
            Pending::HeaderByNumber(_, sender) => observed(sender, gone),
            Pending::HeaderByHash(_, sender) => observed(sender, gone),
            Pending::Block(_, sender) => observed(sender, gone),
            Pending::BlockReceipts(_, sender) => observed(sender, gone),
            Pending::Account(_, sender) => observed(sender, gone),
            Pending::Code(_, sender) => observed(sender, gone),
        }
    }

    /// Whether the peer claims that it can serve the request.
    pub fn can_be_served_by(&self, peer: &Peer) -> (suits: bool)
        ensures
            suits == self.suits(*peer),
    {
        match self {
            Pending::HeaderByNumber(req, _) => {
                peer.capabilities.serve_headers && peer.status.head_num >= req.num
            },
            Pending::HeaderByHash(_, _) => peer.capabilities.serve_headers,
            Pending::Block(req, _) => {
                reaches(peer.capabilities.serve_chain_since, req.header.number)
            },
            Pending::BlockReceipts(req, _) => {
                reaches(peer.capabilities.serve_chain_since, req.0.number)
            },
            Pending::Account(req, _) => {
                reaches(peer.capabilities.serve_state_since, req.header.number)
            },
            Pending::Code(req, _) => {
                reaches(peer.capabilities.serve_state_since, req.block_id.1)
            },
        }
    }

    /// Checks whether the caller has stopped awaiting the answer.
    pub fn has_hung_up(&self) -> (gone: bool)
        ensures
            self.hangup_seen(gone),
    {
        match self {
            Pending::HeaderByNumber(_, sender) => check_hangup(sender),
            Pending::HeaderByHash(_, sender) => check_hangup(sender),
            Pending::Block(_, sender) => check_hangup(sender),
            Pending::BlockReceipts(_, sender) => check_hangup(sender),
            Pending::Account(_, sender) => check_hangup(sender),
            Pending::Code(_, sender) => check_hangup(sender),
        }
    }

    /// Answers the request.
    pub fn complete(self, result: Result<Reply, Error>)
        requires
            result matches Ok(reply) ==> reply.answers(self),
        ensures
            self.completed(result),
    {
        match (self, result) {
            (Pending::HeaderByNumber(_, sender), Ok(Reply::HeaderByNumber(header, difficulty))) => {
                complete(sender, Ok((header, difficulty)))
            },
            (Pending::HeaderByNumber(_, sender), Err(error)) => complete(sender, Err(error)),
            (Pending::HeaderByHash(_, sender), Ok(Reply::HeaderByHash(header))) => {
                complete(sender, Ok(header))
            },
            (Pending::HeaderByHash(_, sender), Err(error)) => complete(sender, Err(error)),
            (Pending::Block(_, sender), Ok(Reply::Block(block))) => complete(sender, Ok(block)),
            (Pending::Block(_, sender), Err(error)) => complete(sender, Err(error)),
            (Pending::BlockReceipts(_, sender), Ok(Reply::BlockReceipts(receipts))) => {
                complete(sender, Ok(receipts))
            },
            (Pending::BlockReceipts(_, sender), Err(error)) => complete(sender, Err(error)),
            (Pending::Account(_, sender), Ok(Reply::Account(account))) => {
                complete(sender, Ok(account))
            },
            (Pending::Account(_, sender), Err(error)) => complete(sender, Err(error)),
            (Pending::Code(_, sender), Ok(Reply::Code(code))) => complete(sender, Ok(code)),
            (Pending::Code(_, sender), Err(error)) => complete(sender, Err(error)),
            _ => {},
        }
    }
}

} // verus!
