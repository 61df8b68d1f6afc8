//! What the service does for each kind of request, told by the fields of the request, of the
//! peers and of the replies.

use crate::digest::keccak256;
use crate::laws::law_last_answer_decides;
use crate::les_request::{
    ContractCodeView, HashOrNumber, HashOrNumberView, HeaderProof, Request, RequestView,
    StateProofView,
};
use crate::network::Call;
use crate::peer::Peer;
use crate::pending::{Pending, Reply};
use crate::request;
use crate::response::{observed, sent, Error, ReplySender};
use crate::shuffle::shuffled;
use crate::state::{
    concluded, dispatched, offered, orphans_followed, redispatched, OnDemandView, Round,
};
use crate::types::{
    BasicAccount, Block, Bytes, Header, PeerId, Receipt, ReqId, SHA3_EMPTY, SHA3_EMPTY_LIST_RLP,
    SHA3_NULL_RLP, U256,
};
use vstd::prelude::*;

verus! {

/// What holds of the calls of a dispatch, by which peers suit the request.
proof fn lemma_calls<N>(
    before: OnDemandView,
    after: OnDemandView,
    pending: Pending,
    calls: Seq<Call<N>>,
)
    requires
        dispatched(before, after, pending, calls),
    ensures
        forall|i: int|
            0 <= i < calls.len() ==> (#[trigger] calls[i] matches Call::Asked(peer, request, _)
                && before.peers.contains_key(peer) && pending.suits(before.peers[peer]) && request
                == pending.les_request()),
        calls.len() > 0 <==> exists|peer: PeerId| #[trigger]
            before.peers.contains_key(peer) && pending.suits(before.peers[peer]),
        calls.len() == 0 ==> after == before && pending.completed(Err(Error::NoPeersAvailable)),
        forall|peer: PeerId| #[trigger]
            before.peers.contains_key(peer) && pending.suits(before.peers[peer]) && calls.len() > 0
                && (calls.last() matches Call::Asked(_, _, Err(_))) ==> exists|i: int|
                0 <= i < calls.len() && (#[trigger] calls[i] matches Call::Asked(asked, _, Err(_))
                    && asked == peer),
{
    if before.servable(pending) {
        let (order, answers) = choose|order: Seq<PeerId>, answers: Seq<Result<ReqId, N>>|
            offered(before, after, pending, calls, order, answers);
        assert(order.contains(order[0]));
        assert(before.suitable(order[0], pending));
        assert forall|i: int| 0 <= i < calls.len() implies (
        #[trigger] calls[i] matches Call::Asked(peer, request, _) && before.peers.contains_key(peer)
            && pending.suits(before.peers[peer]) && request == pending.les_request()) by {
            assert(order.contains(order[i]));
            assert(before.suitable(order[i], pending));
        }
        assert forall|peer: PeerId| #[trigger]
            before.peers.contains_key(peer) && pending.suits(before.peers[peer]) && calls.len() > 0
                && (calls.last() matches Call::Asked(_, _, Err(_))) implies exists|i: int|
            0 <= i < calls.len() && (#[trigger] calls[i] matches Call::Asked(asked, _, Err(_))
                && asked == peer) by {
            assert(before.suitable(peer, pending));
            assert(order.contains(peer));
            let i = choose|i: int| 0 <= i < order.len() && order[i] == peer;
            assert(calls.last() == calls[calls.len() - 1]);
            assert(answers[answers.len() - 1] is Err);
            assert(answers[i] is Err);
            assert(calls[i] == Call::Asked(peer, pending.les_request(), answers[i]));
        }
    } else {
        assert forall|peer: PeerId| #[trigger] before.peers.contains_key(
            peer,
        ) implies !pending.suits(before.peers[peer]) by {
            assert(!before.suitable(peer, pending));
        }
    }
}

/// Whatever is asked for, no peer is asked twice, everyone but the last to be asked has refused,
/// and the last answer decides: the request waits under the id that it gives, or is put behind
/// the orphaned ones. Nothing else changes.
pub proof fn law_a_dispatch_moves_one_request<N>(
    before: OnDemandView,
    after: OnDemandView,
    pending: Pending,
    calls: Seq<Call<N>>,
)
    requires
        dispatched(before, after, pending, calls),
    ensures
        after.peers == before.peers,
        forall|i: int, j: int|
            0 <= i < j < calls.len() ==> (#[trigger] calls[i])->Asked_0 != (
            #[trigger] calls[j])->Asked_0,
        forall|i: int|
            0 <= i < calls.len() - 1 ==> (#[trigger] calls[i] matches Call::Asked(_, _, Err(_))),
        calls.len() > 0 ==> match calls.last() {
            Call::Asked(_, _, Ok(id)) => after.pending == before.pending.insert(id, pending)
                && after.orphaned == before.orphaned,
            Call::Asked(_, _, Err(_)) => after.pending == before.pending && after.orphaned
                == before.orphaned.push(pending),
            Call::Disabled(_) => false,
        },
        calls.len() == 0 ==> after.pending == before.pending && after.orphaned == before.orphaned,
{
    lemma_calls(before, after, pending, calls);
    if before.servable(pending) {
        law_last_answer_decides(before, after, pending, calls);
        let (order, answers) = choose|order: Seq<PeerId>, answers: Seq<Result<ReqId, N>>|
            offered(before, after, pending, calls, order, answers);
        assert forall|i: int| 0 <= i < calls.len() - 1 implies (
        #[trigger] calls[i] matches Call::Asked(_, _, Err(_))) by {
            assert(answers[i] is Err);
        }
        assert forall|i: int, j: int| 0 <= i < j < calls.len() implies (
        #[trigger] calls[i])->Asked_0 != (#[trigger] calls[j])->Asked_0 by {
            assert(order[i] != order[j]);
        }
        assert(calls.last() == calls[calls.len() - 1]);
    }
}

/// A request for a header by number goes to the connected peers that serve headers and whose
/// head is not below the number, whatever else they serve. They are asked for the proof of that
/// header in that trie, from its root. If there is no such peer,
/// nobody is asked and the caller learns so. If all of them refuse, each was asked.
pub proof fn law_header_by_number_goes_to<N>(
    before: OnDemandView,
    after: OnDemandView,
    req: request::HeaderByNumber,
    sender: ReplySender<(Header, U256)>,
    calls: Seq<Call<N>>,
)
    requires
        dispatched(before, after, Pending::HeaderByNumber(req, sender), calls),
    ensures
        forall|i: int|
            0 <= i < calls.len() ==> (#[trigger] calls[i] matches Call::Asked(peer, request, _)
                && before.peers.contains_key(peer) && before.peers[peer].capabilities.serve_headers && before.peers[peer].status.head_num >= req.num
                && request == RequestView::HeaderProofs(
                seq![
                    HeaderProof { cht_number: req.cht_num, block_number: req.num, from_level: 0 },
                ],
            )),
        calls.len() == 0 <==> forall|peer: PeerId| #[trigger]
            before.peers.contains_key(peer) ==> !(before.peers[peer].capabilities.serve_headers && before.peers[peer].status.head_num >= req.num),
        calls.len() == 0 ==> after == before && sent(sender, Err(Error::NoPeersAvailable)),
        forall|peer: PeerId| #[trigger]
            before.peers.contains_key(peer) && before.peers[peer].capabilities.serve_headers && before.peers[peer].status.head_num >= req.num && (
            calls.last() matches Call::Asked(_, _, Err(_))) ==> exists|i: int|
                0 <= i < calls.len() && (#[trigger] calls[i] matches Call::Asked(asked, _, Err(_))
                    && asked == peer),
{
    lemma_calls(before, after, Pending::HeaderByNumber(req, sender), calls);
}

/// A request for a header by hash goes to the connected peers that serve headers, wherever
/// their head is and whatever else they serve. They are asked for the one header with that hash. If there is no such peer,
/// nobody is asked and the caller learns so. If all of them refuse, each was asked.
pub proof fn law_header_by_hash_goes_to<N>(
    before: OnDemandView,
    after: OnDemandView,
    req: request::HeaderByHash,
    sender: ReplySender<Header>,
    calls: Seq<Call<N>>,
)
    requires
        dispatched(before, after, Pending::HeaderByHash(req, sender), calls),
    ensures
        forall|i: int|
            0 <= i < calls.len() ==> (#[trigger] calls[i] matches Call::Asked(peer, request, _)
                && before.peers.contains_key(peer) && before.peers[peer].capabilities.serve_headers
                && request == (RequestView::Headers {
                start: HashOrNumberView::Hash(req.0@),
                max: 1,
                skip: 0,
                reverse: false,
            })),
        calls.len() == 0 <==> forall|peer: PeerId| #[trigger]
            before.peers.contains_key(peer) ==> !(before.peers[peer].capabilities.serve_headers),
        calls.len() == 0 ==> after == before && sent(sender, Err(Error::NoPeersAvailable)),
        forall|peer: PeerId| #[trigger]
            before.peers.contains_key(peer) && before.peers[peer].capabilities.serve_headers && (
            calls.last() matches Call::Asked(_, _, Err(_))) ==> exists|i: int|
                0 <= i < calls.len() && (#[trigger] calls[i] matches Call::Asked(asked, _, Err(_))
                    && asked == peer),
{
    lemma_calls(before, after, Pending::HeaderByHash(req, sender), calls);
}

/// A request for a block goes to the connected peers whose number for the chain is not below
/// the block's, whatever else they serve. They are asked for the body by the block's hash alone. If there is no such peer,
/// nobody is asked and the caller learns so. If all of them refuse, each was asked.
pub proof fn law_block_goes_to<N>(
    before: OnDemandView,
    after: OnDemandView,
    req: request::Body,
    sender: ReplySender<Block>,
    calls: Seq<Call<N>>,
)
    requires
        dispatched(before, after, Pending::Block(req, sender), calls),
    ensures
        forall|i: int|
            0 <= i < calls.len() ==> (#[trigger] calls[i] matches Call::Asked(peer, request, _)
                && before.peers.contains_key(peer) && (before.peers[peer].capabilities.serve_chain_since matches Some(since) && since >= req.header.number)
                && request == RequestView::Bodies(seq![req.hash@])),
        calls.len() == 0 <==> forall|peer: PeerId| #[trigger]
            before.peers.contains_key(peer) ==> !((before.peers[peer].capabilities.serve_chain_since matches Some(since) && since >= req.header.number)),
        calls.len() == 0 ==> after == before && sent(sender, Err(Error::NoPeersAvailable)),
        forall|peer: PeerId| #[trigger]
            before.peers.contains_key(peer) && (before.peers[peer].capabilities.serve_chain_since matches Some(since) && since >= req.header.number) && (
            calls.last() matches Call::Asked(_, _, Err(_))) ==> exists|i: int|
                0 <= i < calls.len() && (#[trigger] calls[i] matches Call::Asked(asked, _, Err(_))
                    && asked == peer),
{
    lemma_calls(before, after, Pending::Block(req, sender), calls);
}

/// A request for receipts goes to the connected peers whose number for the chain is not below
/// the block's, whatever else they serve. They are asked for the receipts by the block's hash. If there is no such peer,
/// nobody is asked and the caller learns so. If all of them refuse, each was asked.
pub proof fn law_receipts_goes_to<N>(
    before: OnDemandView,
    after: OnDemandView,
    req: request::BlockReceipts,
    sender: ReplySender<Vec<Receipt>>,
    calls: Seq<Call<N>>,
)
    requires
        dispatched(before, after, Pending::BlockReceipts(req, sender), calls),
    ensures
        forall|i: int|
            0 <= i < calls.len() ==> (#[trigger] calls[i] matches Call::Asked(peer, request, _)
                && before.peers.contains_key(peer) && (before.peers[peer].capabilities.serve_chain_since matches Some(since) && since >= req.0.number)
                && request == RequestView::Receipts(seq![req.0.hash@])),
        calls.len() == 0 <==> forall|peer: PeerId| #[trigger]
            before.peers.contains_key(peer) ==> !((before.peers[peer].capabilities.serve_chain_since matches Some(since) && since >= req.0.number)),
        calls.len() == 0 ==> after == before && sent(sender, Err(Error::NoPeersAvailable)),
        forall|peer: PeerId| #[trigger]
            before.peers.contains_key(peer) && (before.peers[peer].capabilities.serve_chain_since matches Some(since) && since >= req.0.number) && (
            calls.last() matches Call::Asked(_, _, Err(_))) ==> exists|i: int|
                0 <= i < calls.len() && (#[trigger] calls[i] matches Call::Asked(asked, _, Err(_))
                    && asked == peer),
{
    lemma_calls(before, after, Pending::BlockReceipts(req, sender), calls);
}

/// A request for an account goes to the connected peers whose number for the state is not below
/// the block's, whatever else they serve. They are asked for the proof of the account under the
/// hash of its address, in the state of that block, from the root. If there is no such peer,
/// nobody is asked and the caller learns so. If all of them refuse, each was asked.
pub proof fn law_account_goes_to<N>(
    before: OnDemandView,
    after: OnDemandView,
    req: request::Account,
    sender: ReplySender<BasicAccount>,
    calls: Seq<Call<N>>,
)
    requires
        dispatched(before, after, Pending::Account(req, sender), calls),
    ensures
        forall|i: int|
            0 <= i < calls.len() ==> (#[trigger] calls[i] matches Call::Asked(peer, request, _)
                && before.peers.contains_key(peer) && (before.peers[peer].capabilities.serve_state_since matches Some(since) && since >= req.header.number)
                && request == RequestView::StateProofs(
                seq![
                    StateProofView {
                        block: req.header.hash@,
                        key1: keccak256(req.address@),
                        key2: None,
                        from_level: 0,
                    },
                ],
            )),
        calls.len() == 0 <==> forall|peer: PeerId| #[trigger]
            before.peers.contains_key(peer) ==> !((before.peers[peer].capabilities.serve_state_since matches Some(since) && since >= req.header.number)),
        calls.len() == 0 ==> after == before && sent(sender, Err(Error::NoPeersAvailable)),
        forall|peer: PeerId| #[trigger]
            before.peers.contains_key(peer) && (before.peers[peer].capabilities.serve_state_since matches Some(since) && since >= req.header.number) && (
            calls.last() matches Call::Asked(_, _, Err(_))) ==> exists|i: int|
                0 <= i < calls.len() && (#[trigger] calls[i] matches Call::Asked(asked, _, Err(_))
                    && asked == peer),
{
    lemma_calls(before, after, Pending::Account(req, sender), calls);
}

/// A request for code goes to the connected peers whose number for the state is not below the
/// block's, whatever else they serve. They are asked for the code under the hash of the
/// contract's address, in the state of that block. If there is no such peer,
/// nobody is asked and the caller learns so. If all of them refuse, each was asked.
pub proof fn law_code_goes_to<N>(
    before: OnDemandView,
    after: OnDemandView,
    req: request::Code,
    sender: ReplySender<Bytes>,
    calls: Seq<Call<N>>,
)
    requires
        dispatched(before, after, Pending::Code(req, sender), calls),
    ensures
        forall|i: int|
            0 <= i < calls.len() ==> (#[trigger] calls[i] matches Call::Asked(peer, request, _)
                && before.peers.contains_key(peer) && (before.peers[peer].capabilities.serve_state_since matches Some(since) && since >= req.block_id.1)
                && request == RequestView::Codes(
                seq![
                    ContractCodeView {
                        block_hash: req.block_id.0@,
                        account_key: keccak256(req.address@),
                    },
                ],
            )),
        calls.len() == 0 <==> forall|peer: PeerId| #[trigger]
            before.peers.contains_key(peer) ==> !((before.peers[peer].capabilities.serve_state_since matches Some(since) && since >= req.block_id.1)),
        calls.len() == 0 ==> after == before && sent(sender, Err(Error::NoPeersAvailable)),
        forall|peer: PeerId| #[trigger]
            before.peers.contains_key(peer) && (before.peers[peer].capabilities.serve_state_since matches Some(since) && since >= req.block_id.1) && (
            calls.last() matches Call::Asked(_, _, Err(_))) ==> exists|i: int|
                0 <= i < calls.len() && (#[trigger] calls[i] matches Call::Asked(asked, _, Err(_))
                    && asked == peer),
{
    lemma_calls(before, after, Pending::Code(req, sender), calls);
}

/// The peers that are asked for a header by hash are asked in an order that came out of
/// shuffling all those that serve headers.
pub proof fn law_hashes_are_asked_for_at_random<N>(
    before: OnDemandView,
    after: OnDemandView,
    req: request::HeaderByHash,
    sender: ReplySender<Header>,
    calls: Seq<Call<N>>,
)
    requires
        dispatched(before, after, Pending::HeaderByHash(req, sender), calls),
        calls.len() > 0,
    ensures
        exists|found: Seq<PeerId>, order: Seq<PeerId>| #[trigger]
            shuffled(found, order) && found.no_duplicates() && (forall|peer: PeerId| #[trigger]
                found.contains(peer) <==> before.peers.contains_key(peer)
                    && before.peers[peer].capabilities.serve_headers) && calls.len() <= order.len()
                && forall|i: int|
                0 <= i < calls.len() ==> (#[trigger] calls[i])->Asked_0 == order[i],
{
    let pending = Pending::HeaderByHash(req, sender);
    let (order, answers) = choose|order: Seq<PeerId>, answers: Seq<Result<ReqId, N>>|
        offered(before, after, pending, calls, order, answers);
    let found = choose|found: Seq<PeerId>|
        before.is_order_of_suitable(found, pending) && #[trigger] shuffled(found, order);
    assert forall|peer: PeerId| #[trigger] found.contains(peer) <==> before.peers.contains_key(peer)
        && before.peers[peer].capabilities.serve_headers by {
        assert(found.contains(peer) <==> before.suitable(peer, pending));
    }
}

/// A peer claims that it can serve a request by one of its numbers alone: for headers whether
/// it serves them and, if the header's number is known, how far it is; for blocks and receipts
/// the number for the chain; for accounts and code the number for the state.
pub proof fn law_who_can_serve(pending: Pending, peer: Peer)
    ensures
        pending matches Pending::HeaderByNumber(req, _) ==> (pending.suits(peer) <==> peer.capabilities.serve_headers && peer.status.head_num >= req.num),
        pending matches Pending::HeaderByHash(_, _) ==> (pending.suits(peer) <==> peer.capabilities.serve_headers),
        pending matches Pending::Block(req, _) ==> (pending.suits(peer) <==> (peer.capabilities.serve_chain_since matches Some(since) && since >= req.header.number)),
        pending matches Pending::BlockReceipts(req, _) ==> (pending.suits(peer) <==> (peer.capabilities.serve_chain_since matches Some(since) && since >= req.0.number)),
        pending matches Pending::Account(req, _) ==> (pending.suits(peer) <==> (peer.capabilities.serve_state_since matches Some(since) && since >= req.header.number)),
        pending matches Pending::Code(req, _) ==> (pending.suits(peer) <==> (peer.capabilities.serve_state_since matches Some(since) && since >= req.block_id.1)),
{
}

/// What was found valid is what the caller gets: the header and its total difficulty. The state stays as it is, and
/// nobody is asked or disabled.
pub proof fn law_valid_header_by_number_is_delivered<N, E>(
    before: OnDemandView,
    after: OnDemandView,
    peer: PeerId,
    req: request::HeaderByNumber,
    sender: ReplySender<(Header, U256)>,
    header: Header,
    difficulty: U256,
    calls: Seq<Call<N>>,
)
    requires
        concluded(
            before,
            after,
            peer,
            Pending::HeaderByNumber(req, sender),
            Some(Ok::<Reply, E>(Reply::HeaderByNumber(header, difficulty))),
            calls,
        ),
    ensures
        sent(sender, Ok((header, difficulty))),
        after == before,
        calls.len() == 0,
{
}

/// What was found valid is what the caller gets: the header. The state stays as it is, and
/// nobody is asked or disabled.
pub proof fn law_valid_header_by_hash_is_delivered<N, E>(
    before: OnDemandView,
    after: OnDemandView,
    peer: PeerId,
    req: request::HeaderByHash,
    sender: ReplySender<Header>,
    header: Header,
    calls: Seq<Call<N>>,
)
    requires
        concluded(
            before,
            after,
            peer,
            Pending::HeaderByHash(req, sender),
            Some(Ok::<Reply, E>(Reply::HeaderByHash(header))),
            calls,
        ),
    ensures
        sent(sender, Ok(header)),
        after == before,
        calls.len() == 0,
{
}

/// What was found valid is what the caller gets: the block. The state stays as it is, and
/// nobody is asked or disabled.
pub proof fn law_valid_block_is_delivered<N, E>(
    before: OnDemandView,
    after: OnDemandView,
    peer: PeerId,
    req: request::Body,
    sender: ReplySender<Block>,
    block: Block,
    calls: Seq<Call<N>>,
)
    requires
        concluded(
            before,
            after,
            peer,
            Pending::Block(req, sender),
            Some(Ok::<Reply, E>(Reply::Block(block))),
            calls,
        ),
    ensures
        sent(sender, Ok(block)),
        after == before,
        calls.len() == 0,
{
}

/// What was found valid is what the caller gets: the receipts, all of them and in their order. The state stays as it is, and
/// nobody is asked or disabled.
pub proof fn law_valid_receipts_is_delivered<N, E>(
    before: OnDemandView,
    after: OnDemandView,
    peer: PeerId,
    req: request::BlockReceipts,
    sender: ReplySender<Vec<Receipt>>,
    receipts: Vec<Receipt>,
    calls: Seq<Call<N>>,
)
    requires
        concluded(
            before,
            after,
            peer,
            Pending::BlockReceipts(req, sender),
            Some(Ok::<Reply, E>(Reply::BlockReceipts(receipts))),
            calls,
        ),
    ensures
        sent(sender, Ok(receipts)),
        after == before,
        calls.len() == 0,
{
}

/// What was found valid is what the caller gets: the account. The state stays as it is, and
/// nobody is asked or disabled.
pub proof fn law_valid_account_is_delivered<N, E>(
    before: OnDemandView,
    after: OnDemandView,
    peer: PeerId,
    req: request::Account,
    sender: ReplySender<BasicAccount>,
    account: BasicAccount,
    calls: Seq<Call<N>>,
)
    requires
        concluded(
            before,
            after,
            peer,
            Pending::Account(req, sender),
            Some(Ok::<Reply, E>(Reply::Account(account))),
            calls,
        ),
    ensures
        sent(sender, Ok(account)),
        after == before,
        calls.len() == 0,
{
}

/// What was found valid is what the caller gets: the code. The state stays as it is, and
/// nobody is asked or disabled.
pub proof fn law_valid_code_is_delivered<N, E>(
    before: OnDemandView,
    after: OnDemandView,
    peer: PeerId,
    req: request::Code,
    sender: ReplySender<Bytes>,
    code: Bytes,
    calls: Seq<Call<N>>,
)
    requires
        concluded(
            before,
            after,
            peer,
            Pending::Code(req, sender),
            Some(Ok::<Reply, E>(Reply::Code(code))),
            calls,
        ),
    ensures
        sent(sender, Ok(code)),
        after == before,
        calls.len() == 0,
{
}

/// A request is completed by sending exactly the given result through its sender: the reply's
/// own value, or the error. A reply of another kind completes nothing.
pub proof fn law_what_a_caller_gets(pending: Pending, result: Result<Reply, Error>)
    ensures
        pending.completed(result) <==> match (pending, result) {
            (Pending::HeaderByNumber(_, sender), Err(error)) => sent(sender, Err(error)),
            (Pending::HeaderByHash(_, sender), Err(error)) => sent(sender, Err(error)),
            (Pending::Block(_, sender), Err(error)) => sent(sender, Err(error)),
            (Pending::BlockReceipts(_, sender), Err(error)) => sent(sender, Err(error)),
            (Pending::Account(_, sender), Err(error)) => sent(sender, Err(error)),
            (Pending::Code(_, sender), Err(error)) => sent(sender, Err(error)),
            (Pending::HeaderByNumber(_, sender), Ok(reply)) => reply matches Reply::HeaderByNumber(
                header,
                difficulty,
            ) && sent(sender, Ok((header, difficulty))),
            (Pending::HeaderByHash(_, sender), Ok(reply)) => reply matches Reply::HeaderByHash(
                header,
            ) && sent(sender, Ok(header)),
            (Pending::Block(_, sender), Ok(reply)) => reply matches Reply::Block(block) && sent(
                sender,
                Ok(block),
            ),
            (Pending::BlockReceipts(_, sender), Ok(reply)) => reply matches Reply::BlockReceipts(
                receipts,
            ) && sent(sender, Ok(receipts)),
            (Pending::Account(_, sender), Ok(reply)) => reply matches Reply::Account(account)
                && sent(sender, Ok(account)),
            (Pending::Code(_, sender), Ok(reply)) => reply matches Reply::Code(code) && sent(
                sender,
                Ok(code),
            ),
        },
{
}

/// A request whose reply was found invalid costs the peer that sent it its connection, and is
/// then dispatched like a new one. One without a reply is dispatched, and nobody is disabled.
pub proof fn law_what_is_not_delivered_is_dispatched<N, E>(
    before: OnDemandView,
    after: OnDemandView,
    peer: PeerId,
    pending: Pending,
    verdict: Option<Result<Reply, E>>,
    calls: Seq<Call<N>>,
)
    requires
        concluded(before, after, peer, pending, verdict, calls),
    ensures
        verdict matches Some(Err(_)) ==> exists|rest: Seq<Call<N>>|
            calls == seq![Call::<N>::Disabled(peer)] + rest && #[trigger] dispatched(
                before,
                after,
                pending,
                rest,
            ),
        verdict is None ==> dispatched(before, after, pending, calls),
{
    if verdict matches Some(Err(_)) {
        let rest = calls.skip(1);
        assert(calls =~= seq![Call::<N>::Disabled(peer)] + rest);
        assert(dispatched(before, after, pending, rest));
    }
}

/// A reply answers a request if it is of the same kind.
pub proof fn law_which_reply_answers(pending: Pending, reply: Reply)
    ensures
        reply.answers(pending) <==> {
            ||| pending is HeaderByNumber && reply is HeaderByNumber
            ||| pending is HeaderByHash && reply is HeaderByHash
            ||| pending is Block && reply is Block
            ||| pending is BlockReceipts && reply is BlockReceipts
            ||| pending is Account && reply is Account
            ||| pending is Code && reply is Code
        },
{
}

/// Whether the caller of a request is gone is what the request's own sender said, for every
/// kind of request.
pub proof fn law_gone_is_what_the_sender_says(pending: Pending, gone: bool)
    ensures
        pending matches Pending::HeaderByNumber(_, sender) ==> (pending.hangup_seen(gone) <==> observed(
            sender,
            gone,
        )),
        pending matches Pending::HeaderByHash(_, sender) ==> (pending.hangup_seen(gone) <==> observed(
            sender,
            gone,
        )),
        pending matches Pending::Block(_, sender) ==> (pending.hangup_seen(gone) <==> observed(
            sender,
            gone,
        )),
        pending matches Pending::BlockReceipts(_, sender) ==> (pending.hangup_seen(gone) <==> observed(
            sender,
            gone,
        )),
        pending matches Pending::Account(_, sender) ==> (pending.hangup_seen(gone) <==> observed(
            sender,
            gone,
        )),
        pending matches Pending::Code(_, sender) ==> (pending.hangup_seen(gone) <==> observed(
            sender,
            gone,
        )),
{
}

/// A round over the orphaned requests starts with none orphaned and takes them in their order.
/// One whose sender said that its receiver is gone is left out: nobody is asked, and nothing
/// changes. One whose sender said that its receiver is there is dispatched like a new one. The
/// calls of the round are those for its first request, then those for its second, and so on.
pub proof fn law_a_round_takes_each_orphan_in_turn<N>(
    before: OnDemandView,
    after: OnDemandView,
    calls: Seq<Call<N>>,
    round: Round<N>,
    n: int,
)
    requires
        orphans_followed(before, after, calls, round),
        0 <= n < before.orphaned.len(),
    ensures
        match before.orphaned[n] {
            Pending::HeaderByNumber(_, sender) => observed(sender, round.gone[n]),
            Pending::HeaderByHash(_, sender) => observed(sender, round.gone[n]),
            Pending::Block(_, sender) => observed(sender, round.gone[n]),
            Pending::BlockReceipts(_, sender) => observed(sender, round.gone[n]),
            Pending::Account(_, sender) => observed(sender, round.gone[n]),
            Pending::Code(_, sender) => observed(sender, round.gone[n]),
        },
        round.gone[n] ==> round.states[n + 1] == round.states[n] && round.calls[n].len() == 0,
        !round.gone[n] ==> dispatched(
            round.states[n],
            round.states[n + 1],
            before.orphaned[n],
            round.calls[n],
        ),
        round.states.len() == before.orphaned.len() + 1,
        round.states[0].peers == before.peers,
        round.states[0].pending == before.pending,
        round.states[0].orphaned == Seq::<Pending>::empty(),
        round.states[before.orphaned.len() as int] == after,
        round.calls.len() == before.orphaned.len(),
        calls == round.calls.flatten(),
{
    assert(before.orphaned[n].hangup_seen(round.gone[n]));
}

/// An orphaned request that is discarded leaves everything as it was and asks nobody; one that
/// is not is dispatched like a new one.
pub proof fn law_gone_orphans_are_let_go<N>(
    before: OnDemandView,
    after: OnDemandView,
    orphan: Pending,
    calls: Seq<Call<N>>,
)
    ensures
        redispatched(before, after, orphan, true, calls) <==> after == before && calls.len() == 0,
        redispatched(before, after, orphan, false, calls) <==> dispatched(
            before,
            after,
            orphan,
            calls,
        ),
{
}

/// A block is empty if its header says that it has no transactions and no uncles, and only if
/// it says both.
pub proof fn law_empty_blocks(req: request::Body)
    ensures
        req.is_empty() ==> req.header.transactions_root@ == SHA3_NULL_RLP@
            && req.header.uncles_hash@ == SHA3_EMPTY_LIST_RLP@,
        req.header.transactions_root@ != SHA3_NULL_RLP@ ==> !req.is_empty(),
        req.header.uncles_hash@ != SHA3_EMPTY_LIST_RLP@ ==> !req.is_empty(),
        req.header.transactions_root@ == SHA3_NULL_RLP@ && req.header.uncles_hash@
            == SHA3_EMPTY_LIST_RLP@ ==> req.is_empty(),
{
}

/// A block has no receipts if its header's root of receipts is that of nothing, and only then.
pub proof fn law_empty_receipts(req: request::BlockReceipts)
    ensures
        req.is_empty() <==> req.0.receipts_root@ == SHA3_NULL_RLP@,
{
}

/// A contract has no code if the hash of its code is that of no bytes, and only then.
pub proof fn law_empty_code(req: request::Code)
    ensures
        req.is_empty() <==> req.code_hash@ == SHA3_EMPTY@,
{
}

/// What is recorded of a request to a peer is all that the request holds, item by item.
pub proof fn law_requests_are_recorded_in_full(request: Request)
    ensures
        match request {
            Request::Headers(headers) => request@ matches RequestView::Headers {
                start,
                max,
                skip,
                reverse,
            } && max == headers.max && skip == headers.skip && reverse == headers.reverse && match headers.start {
                HashOrNumber::Hash(hash) => start matches HashOrNumberView::Hash(bytes) && bytes
                    == hash@,
                HashOrNumber::Number(number) => start matches HashOrNumberView::Number(recorded)
                    && recorded == number,
            },
            Request::Bodies(bodies) => request@ matches RequestView::Bodies(hashes) && hashes.len()
                == bodies.block_hashes@.len() && forall|i: int|
                0 <= i < hashes.len() ==> #[trigger] hashes[i] == bodies.block_hashes@[i]@,
            Request::Receipts(receipts) => request@ matches RequestView::Receipts(hashes)
                && hashes.len() == receipts.block_hashes@.len() && forall|i: int|
                0 <= i < hashes.len() ==> #[trigger] hashes[i] == receipts.block_hashes@[i]@,
            Request::StateProofs(proofs) => request@ matches RequestView::StateProofs(recorded)
                && recorded.len() == proofs.requests@.len() && forall|i: int|
                0 <= i < recorded.len() ==> {
                    &&& (#[trigger] recorded[i]).block == proofs.requests@[i].block@
                    &&& recorded[i].key1 == proofs.requests@[i].key1@
                    &&& recorded[i].key2 is Some <==> proofs.requests@[i].key2 is Some
                    &&& proofs.requests@[i].key2 matches Some(key) ==> recorded[i].key2 == Some(
                        key@,
                    )
                    &&& recorded[i].from_level == proofs.requests@[i].from_level
                },
            Request::Codes(codes) => request@ matches RequestView::Codes(recorded) && recorded.len()
                == codes.code_requests@.len() && forall|i: int|
                0 <= i < recorded.len() ==> {
                    &&& (#[trigger] recorded[i]).block_hash == codes.code_requests@[i].block_hash@
                    &&& recorded[i].account_key == codes.code_requests@[i].account_key@
                },
            Request::HeaderProofs(proofs) => request@ matches RequestView::HeaderProofs(recorded)
                && recorded == proofs.requests@,
        },
{
}

} // verus!
