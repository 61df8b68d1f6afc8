//! The request service.

use crate::block::{empty_block, headed_block};
use crate::context::BasicContext;
use crate::digest::sha3;
use crate::laws::{law_orphans_dispatched, law_reclaimed};
use crate::les_request::{
    Bodies, ContractCode, ContractCodes, HashOrNumber, HeaderProof, HeaderProofs, Headers, Receipts,
    Request, StateProof, StateProofs,
};
use crate::network::Network;
use crate::peer::{Capabilities, Peer, Status};
use crate::pending::{Pending, Reply};
use crate::request;
use crate::response::{channel, complete, linked, sent, Error, ReplySender, Response};
use crate::shuffle::shuffle;
use crate::state::{
    asking, concluded, dispatched, offered, orphans_dispatched, orphans_followed, redispatched,
    OnDemandView, Round,
};
use crate::types::{
    same_hash, BasicAccount, Block, Bytes, Header, PeerId, Receipt, ReqId, U256, SHA3_EMPTY,
    SHA3_EMPTY_LIST_RLP, SHA3_NULL_RLP,
};
use std::collections::HashMap;
use vstd::prelude::*;

verus! {

/// On demand request service. Accumulates info about all peers' capabilities and
/// dispatches requests to them accordingly.
pub struct OnDemand {
    peers: HashMap<PeerId, Peer>,
    pending_requests: HashMap<ReqId, Pending>,
    orphaned_requests: Vec<Pending>,
}

impl View for OnDemand {
    type V = OnDemandView;

    closed spec fn view(&self) -> OnDemandView {
        OnDemandView {
            peers: self.peers@,
            pending: self.pending_requests@,
            orphaned: self.orphaned_requests@,
        }
    }
}

/// What is said of the service is said of all that it holds.
proof fn law_nothing_is_left_out(service: OnDemand)
    ensures
        service@.peers == service.peers@,
        service@.pending == service.pending_requests@,
        service@.orphaned == service.orphaned_requests@,
{
}

impl Default for OnDemand {
    /// A service without peers and without requests.
    fn default() -> (service: Self)
        ensures
            service@ == (OnDemandView {
                peers: Map::empty(),
                pending: Map::empty(),
                orphaned: Seq::empty(),
            }),
    {
        OnDemand {
            peers: HashMap::new(),
            pending_requests: HashMap::new(),
            orphaned_requests: Vec::new(),
        }
    }
}

/// A request on its way to the peers that can serve it.
pub struct Dispatch {
    /// The request.
    pub pending: Pending,
    /// What each peer is asked for.
    pub request: Request,
    /// The peers that can serve the request, in the order in which they are asked.
    pub candidates: Vec<PeerId>,
    /// The position of the peer that is asked next.
    pub next: usize,
}

/// The peer is among the first `upto` entries.
spec fn walked(entries: Seq<(&PeerId, &Peer)>, upto: int, peer: PeerId) -> bool {
    exists|j: int| 0 <= j < upto && *(#[trigger] entries[j]).0 == peer
}

/// Two entries of a map that stand at different places have different keys.
proof fn lemma_keys_differ(entries: Seq<(&PeerId, &Peer)>, peers: Map<PeerId, Peer>)
    requires
        entries.no_duplicates(),
        forall|i: int|
            0 <= i < entries.len() ==> peers.contains_key(*(#[trigger] entries[i]).0)
                && peers[*entries[i].0] == *entries[i].1,
    ensures
        forall|i: int, j: int|
            0 <= i < j < entries.len() ==> *(#[trigger] entries[i]).0 != *(#[trigger] entries[j]).0,
{
    assert forall|i: int, j: int| 0 <= i < j < entries.len() implies *(#[trigger] entries[i]).0 != *(
    #[trigger] entries[j]).0 by {
        if *entries[i].0 == *entries[j].0 {
            assert(entries[i] == entries[j]);
        }
    }
}

/// A shuffled sequence holds the same items, and none twice if none was there twice.
proof fn lemma_shuffled(before: Seq<PeerId>, after: Seq<PeerId>)
    requires
        before.no_duplicates(),
        before.to_multiset() == after.to_multiset(),
    ensures
        after.no_duplicates(),
        forall|peer: PeerId| #[trigger] after.contains(peer) <==> before.contains(peer),
{
    before.to_multiset_ensures();
    after.to_multiset_ensures();
    before.lemma_multiset_has_no_duplicates();
    after.lemma_multiset_has_no_duplicates_conv();
    assert forall|peer: PeerId| #[trigger] after.contains(peer) <==> before.contains(peer) by {
        assert(after.contains(peer) <==> after.to_multiset().count(peer) > 0);
        assert(before.contains(peer) <==> before.to_multiset().count(peer) > 0);
    }
}

impl OnDemand {
    /// Only so many peers are connected, and only so many requests wait.
    pub proof fn lemma_finite(&self)
        ensures
            self@.peers.dom().finite(),
            self@.pending.dom().finite(),
    {
    }

    /// Collects the connected peers that can serve a request.
    fn suitable_peers(&self, pending: &Pending) -> (order: Vec<PeerId>)
        ensures
            self@.is_order_of_suitable(order@, *pending),
    {
        let mut order: Vec<PeerId> = Vec::new();
        for (id, peer) in entries: self.peers.iter()
            invariant
                entries.seq().no_duplicates(),
                forall|i: int|
                    0 <= i < entries.seq().len() ==> self.peers@.contains_key(
                        *(#[trigger] entries.seq()[i]).0,
                    ) && self.peers@[*entries.seq()[i].0] == *entries.seq()[i].1,
                order@.no_duplicates(),
                forall|k: int|
                    0 <= k < order@.len() ==> walked(
                        entries.seq(),
                        entries.index() as int,
                        #[trigger] order@[k],
                    ) && self@.suitable(order@[k], *pending),
                forall|j: int|
                    0 <= j < entries.index() && pending.suits(
                        *(#[trigger] entries.seq()[j]).1,
                    ) ==> order@.contains(*entries.seq()[j].0),
        {
            proof {
                lemma_keys_differ(entries.seq(), self.peers@);
            }
            let ghost before = order@;
            if pending.can_be_served_by(peer) {
                order.push(*id);
                assert(order@.last() == *id);
                assert forall|peer: PeerId| before.contains(peer) implies order@.contains(peer) by {
                    let k = choose|k: int| 0 <= k < before.len() && before[k] == peer;
                    assert(order@[k] == peer);
                }
            }
        }
        order
    }

    /// Goes on with a dispatch, given what the network answered when the next peer was
    /// asked. Returns the dispatch while there is another peer to ask.
    pub fn answered<E>(&mut self, dispatch: Dispatch, answer: Result<ReqId, E>) -> (rest: Option<
        Dispatch,
    >)
        requires
            dispatch.next < dispatch.candidates@.len(),
        ensures
            match answer {
                Ok(id) => rest is None && final(self)@ == old(self)@.assigned(id, dispatch.pending),
                Err(_) => if dispatch.next + 1 < dispatch.candidates@.len() {
                    &&& final(self)@ == old(self)@
                    &&& rest matches Some(rest)
                    &&& rest.pending == dispatch.pending
                    &&& rest.request == dispatch.request
                    &&& rest.candidates == dispatch.candidates
                    &&& rest.next == dispatch.next + 1
                } else {
                    rest is None && final(self)@ == old(self)@.orphaning(dispatch.pending)
                },
            },
    {
        match answer {
            Ok(id) => {
                self.pending_requests.insert(id, dispatch.pending);
                None
            },
            Err(_) => if 1 < dispatch.candidates.len() - dispatch.next {
                Some(Dispatch { next: dispatch.next + 1, ..dispatch })
            } else {
                self.orphaned_requests.push(dispatch.pending);
                None
            },
        }
    }

    /// Offers a request to the candidates, one after the other, until one takes it.
    fn offer<C: BasicContext>(
        &mut self,
        net: &mut Network<C>,
        pending: Pending,
        request: Request,
        candidates: Vec<PeerId>,
    )
        requires
            request@ == pending.les_request(),
            old(self)@.is_asking_order(candidates@, pending),
        ensures
            final(net).extends(*old(net)),
            dispatched(old(self)@, final(self)@, pending, final(net).since(*old(net))),
    {
        let ghost order = candidates@;
        let ghost before = self@;
        if candidates.len() == 0 {
            proof {
                assert forall|peer: PeerId| !before.suitable(peer, pending) by {
                    assert(!order.contains(peer));
                }
            }
            pending.complete(Err(Error::NoPeersAvailable));
            proof {
                net.lemma_idle();
            }
            return ;
        }
        proof {
            net.lemma_idle();
        }
        let ghost mut answers: Seq<Result<ReqId, C::Error>> = Seq::empty();
        assert(order.contains(order[0]));
        assert(before.suitable(order[0], pending));
        let mut dispatch = Dispatch { pending, request, candidates, next: 0 };
        loop
            invariant
                before == old(self)@,
                self@ == before,
                before.servable(pending),
                before.is_asking_order(order, pending),
                dispatch.pending == pending,
                dispatch.request@ == pending.les_request(),
                dispatch.candidates@ == order,
                dispatch.next < order.len(),
                answers.len() == dispatch.next,
                net.extends(*old(net)),
                net.since(*old(net)) =~= asking(order, pending.les_request(), answers),
                forall|i: int| 0 <= i < answers.len() ==> #[trigger] answers[i] is Err,
            decreases order.len() - dispatch.next,
        {
            let ghost idle = *net;
            let answer = net.request_from(dispatch.candidates[dispatch.next], &dispatch.request);
            proof {
                net.lemma_steps(idle, *old(net));
                answers = answers.push(answer);
                assert(net.since(*old(net)) =~= asking(order, pending.les_request(), answers));
            }
            match self.answered(dispatch, answer) {
                Some(rest) => {
                    dispatch = rest;
                },
                None => {
                    proof {
                        assert(offered(
                            before,
                            self@,
                            pending,
                            net.since(*old(net)),
                            order,
                            answers,
                        ));
                    }
                    return ;
                },
            }
        }
    }

    /// Dispatches a request for a header by number, completing the request if no peers
    /// are available.
    pub fn dispatch_header_by_number<C: BasicContext>(
        &mut self,
        net: &mut Network<C>,
        req: request::HeaderByNumber,
        sender: ReplySender<(Header, U256)>,
    )
        ensures
            final(net).extends(*old(net)),
            dispatched(
                old(self)@,
                final(self)@,
                Pending::HeaderByNumber(req, sender),
                final(net).since(*old(net)),
            ),
    {
        let les_req = Request::HeaderProofs(
            HeaderProofs {
                requests: vec![
                    HeaderProof {
                        cht_number: req.cht_num,
                        block_number: req.num,
                        from_level: 0,
                    },
                ],
            },
        );
        let pending = Pending::HeaderByNumber(req, sender);
        assert(les_req@ =~= pending.les_request());
        // we're looking for a peer which serves headers and is far enough along in the
        // chain.
        let candidates = self.suitable_peers(&pending);
        self.offer(net, pending, les_req, candidates)
    }

    /// Dispatches a request for a header by hash, completing the request if no peers
    /// are available.
    pub fn dispatch_header_by_hash<C: BasicContext>(
        &mut self,
        net: &mut Network<C>,
        req: request::HeaderByHash,
        sender: ReplySender<Header>,
    )
        ensures
            final(net).extends(*old(net)),
            dispatched(
                old(self)@,
                final(self)@,
                Pending::HeaderByHash(req, sender),
                final(net).since(*old(net)),
            ),
    {
        let les_req = Request::Headers(
            Headers { start: HashOrNumber::Hash(req.0), max: 1, skip: 0, reverse: false },
        );
        let pending = Pending::HeaderByHash(req, sender);
        // all we've got is a hash, so we'll just guess at peers who might have it
        // randomly.
        let mut potential_peers = self.suitable_peers(&pending);
        let ghost found = potential_peers@;
        shuffle(&mut potential_peers);
        proof {
            lemma_shuffled(found, potential_peers@);
        }
        self.offer(net, pending, les_req, potential_peers)
    }

    /// Dispatches a request for a block, completing the request if no peers are
    /// available.
    pub fn dispatch_block<C: BasicContext>(
        &mut self,
        net: &mut Network<C>,
        req: request::Body,
        sender: ReplySender<Block>,
    )
        ensures
            final(net).extends(*old(net)),
            dispatched(
                old(self)@,
                final(self)@,
                Pending::Block(req, sender),
                final(net).since(*old(net)),
            ),
    {
        let les_req = Request::Bodies(Bodies { block_hashes: vec![req.hash] });
        let pending = Pending::Block(req, sender);
        assert(les_req@ =~= pending.les_request());
        // we're looking for a peer which serves the chain since the block's number.
        let candidates = self.suitable_peers(&pending);
        self.offer(net, pending, les_req, candidates)
    }

    /// Dispatches a request for receipts, completing the request if no peers are
    /// available.
    pub fn dispatch_block_receipts<C: BasicContext>(
        &mut self,
        net: &mut Network<C>,
        req: request::BlockReceipts,
        sender: ReplySender<Vec<Receipt>>,
    )
        ensures
            final(net).extends(*old(net)),
            dispatched(
                old(self)@,
                final(self)@,
                Pending::BlockReceipts(req, sender),
                final(net).since(*old(net)),
            ),
    {
        let les_req = Request::Receipts(Receipts { block_hashes: vec![req.0.hash] });
        let pending = Pending::BlockReceipts(req, sender);
        assert(les_req@ =~= pending.les_request());
        // we're looking for a peer which serves the chain since the block's number.
        let candidates = self.suitable_peers(&pending);
        self.offer(net, pending, les_req, candidates)
    }

    /// Dispatches a request for an account, completing the request if no peers are
    /// available.
    pub fn dispatch_account<C: BasicContext>(
        &mut self,
        net: &mut Network<C>,
        req: request::Account,
        sender: ReplySender<BasicAccount>,
    )
        ensures
            final(net).extends(*old(net)),
            dispatched(
                old(self)@,
                final(self)@,
                Pending::Account(req, sender),
                final(net).since(*old(net)),
            ),
    {
        let les_req = Request::StateProofs(
            StateProofs {
                requests: vec![
                    StateProof {
                        block: req.header.hash,
                        key1: sha3(req.address.as_slice()),
                        key2: None,
                        from_level: 0,
                    },
                ],
            },
        );
        let pending = Pending::Account(req, sender);
        assert(les_req@ =~= pending.les_request());
        // we're looking for a peer which serves the state since the block's number.
        let candidates = self.suitable_peers(&pending);
        self.offer(net, pending, les_req, candidates)
    }

    /// Dispatches a request for code, completing the request if no peers are available.
    pub fn dispatch_code<C: BasicContext>(
        &mut self,
        net: &mut Network<C>,
        req: request::Code,
        sender: ReplySender<Bytes>,
    )
        ensures
            final(net).extends(*old(net)),
            dispatched(
                old(self)@,
                final(self)@,
                Pending::Code(req, sender),
                final(net).since(*old(net)),
            ),
    {
        let les_req = Request::Codes(
            ContractCodes {
                code_requests: vec![
                    ContractCode {
                        block_hash: req.block_id.0,
                        account_key: sha3(req.address.as_slice()),
                    },
                ],
            },
        );
        let pending = Pending::Code(req, sender);
        assert(les_req@ =~= pending.les_request());
        // we're looking for a peer which serves the state since the block's number.
        let candidates = self.suitable_peers(&pending);
        self.offer(net, pending, les_req, candidates)
    }

    /// Requests a header by block number and CHT root hash. The answer is the header
    /// and the total difficulty.
    pub fn header_by_number<C: BasicContext>(
        &mut self,
        net: &mut Network<C>,
        req: request::HeaderByNumber,
    ) -> (response: Response<(Header, U256)>)
        ensures
            final(net).extends(*old(net)),
            exists|sender: ReplySender<(Header, U256)>| #[trigger]
                linked(sender, response) && dispatched(
                    old(self)@,
                    final(self)@,
                    Pending::HeaderByNumber(req, sender),
                    final(net).since(*old(net)),
                ),
    {
        let (sender, response) = channel();
        self.dispatch_header_by_number(net, req, sender);
        response
    }

    /// Requests a header by hash. This is less accurate than by number because it is
    /// not known where in the chain the header lies, and therefore a peer who is
    /// supposed to have it can't be found as easily.
    pub fn header_by_hash<C: BasicContext>(
        &mut self,
        net: &mut Network<C>,
        req: request::HeaderByHash,
    ) -> (response: Response<Header>)
        ensures
            final(net).extends(*old(net)),
            exists|sender: ReplySender<Header>| #[trigger]
                linked(sender, response) && dispatched(
                    old(self)@,
                    final(self)@,
                    Pending::HeaderByHash(req, sender),
                    final(net).since(*old(net)),
                ),
    {
        let (sender, response) = channel();
        self.dispatch_header_by_hash(net, req, sender);
        response
    }

    /// Requests a block, given its header. Block bodies are requestable by hash only,
    /// and the header is required anyway to verify and complete the block body.
    /// A block that its header says is empty is put together without asking anyone.
    pub fn block<C: BasicContext>(&mut self, net: &mut Network<C>, req: request::Body) -> (response: Response<
        Block,
    >)
        ensures
            final(net).extends(*old(net)),
            exists|sender: ReplySender<Block>| #[trigger]
                linked(sender, response) && if req.is_empty() {
                    &&& final(self)@ == old(self)@
                    &&& final(net).since(*old(net)).len() == 0
                    &&& exists|block: Block| #[trigger]
                        sent(sender, Ok(block)) && block.0@ == headed_block(req.header.rlp@)
                } else {
                    dispatched(
                        old(self)@,
                        final(self)@,
                        Pending::Block(req, sender),
                        final(net).since(*old(net)),
                    )
                },
            // told by the fields of the request
            !((req.header.transactions_root@ == SHA3_NULL_RLP@ && req.header.uncles_hash@
                == SHA3_EMPTY_LIST_RLP@)) ==> exists|sender: ReplySender<Block>| #[trigger]
                linked(sender, response) && dispatched(
                    old(self)@,
                    final(self)@,
                    Pending::Block(req, sender),
                    final(net).since(*old(net)),
                ),
            (req.header.transactions_root@ == SHA3_NULL_RLP@ && req.header.uncles_hash@
                == SHA3_EMPTY_LIST_RLP@) ==> final(self)@ == old(self)@ && final(net).calls() == old(net).calls()
                && exists|sender: ReplySender<Block>, block: Block|
                linked(sender, response) && #[trigger] sent(sender, Ok(block)) && block.0@ == headed_block(req.header.rlp@),
    {
        let (sender, response) = channel();
        proof {
            net.lemma_idle();
        }
        // fast path for empty body.
        if same_hash(&req.header.transactions_root, &SHA3_NULL_RLP) && same_hash(
            &req.header.uncles_hash,
            &SHA3_EMPTY_LIST_RLP,
        ) {
            complete(sender, Ok(empty_block(&req.header.rlp)));
        } else {
            self.dispatch_block(net, req, sender);
        }
        response
    }

    /// Requests the receipts for a block. The header serves two purposes: it provides
    /// the block hash to fetch receipts for, and the receipts root to verify them
    /// against. Receipts that the header says are none are answered without asking
    /// anyone.
    pub fn block_receipts<C: BasicContext>(
        &mut self,
        net: &mut Network<C>,
        req: request::BlockReceipts,
    ) -> (response: Response<Vec<Receipt>>)
        ensures
            final(net).extends(*old(net)),
            exists|sender: ReplySender<Vec<Receipt>>| #[trigger]
                linked(sender, response) && if req.is_empty() {
                    &&& final(self)@ == old(self)@
                    &&& final(net).since(*old(net)).len() == 0
                    &&& exists|receipts: Vec<Receipt>| #[trigger]
                        sent(sender, Ok(receipts)) && receipts@.len() == 0
                } else {
                    dispatched(
                        old(self)@,
                        final(self)@,
                        Pending::BlockReceipts(req, sender),
                        final(net).since(*old(net)),
                    )
                },
            // told by the fields of the request
            !((req.0.receipts_root@ == SHA3_NULL_RLP@)) ==> exists|sender: ReplySender<Vec<Receipt>>| #[trigger]
                linked(sender, response) && dispatched(
                    old(self)@,
                    final(self)@,
                    Pending::BlockReceipts(req, sender),
                    final(net).since(*old(net)),
                ),
            (req.0.receipts_root@ == SHA3_NULL_RLP@) ==> final(self)@ == old(self)@ && final(net).calls() == old(net).calls()
                && exists|sender: ReplySender<Vec<Receipt>>, receipts: Vec<Receipt>|
                linked(sender, response) && #[trigger] sent(sender, Ok(receipts)) && receipts@.len() == 0,
    {
        let (sender, response) = channel();
        proof {
            net.lemma_idle();
        }
        // fast path for empty receipts.
        if same_hash(&req.0.receipts_root, &SHA3_NULL_RLP) {
            complete(sender, Ok(Vec::new()));
        } else {
            self.dispatch_block_receipts(net, req, sender);
        }
        response
    }

    /// Requests an account by address and block header, which gives a hash to query and
    /// a state root to verify against.
    pub fn account<C: BasicContext>(
        &mut self,
        net: &mut Network<C>,
        req: request::Account,
    ) -> (response: Response<BasicAccount>)
        ensures
            final(net).extends(*old(net)),
            exists|sender: ReplySender<BasicAccount>| #[trigger]
                linked(sender, response) && dispatched(
                    old(self)@,
                    final(self)@,
                    Pending::Account(req, sender),
                    final(net).since(*old(net)),
                ),
    {
        let (sender, response) = channel();
        self.dispatch_account(net, req, sender);
        response
    }

    /// Requests code by address, known code hash, and block. Code that its hash says is
    /// empty is answered without asking anyone.
    pub fn code<C: BasicContext>(&mut self, net: &mut Network<C>, req: request::Code) -> (response: Response<
        Bytes,
    >)
        ensures
            final(net).extends(*old(net)),
            exists|sender: ReplySender<Bytes>| #[trigger]
                linked(sender, response) && if req.is_empty() {
                    &&& final(self)@ == old(self)@
                    &&& final(net).since(*old(net)).len() == 0
                    &&& exists|code: Bytes| #[trigger]
                        sent(sender, Ok(code)) && code@.len() == 0
                } else {
                    dispatched(
                        old(self)@,
                        final(self)@,
                        Pending::Code(req, sender),
                        final(net).since(*old(net)),
                    )
                },
            // told by the fields of the request
            !((req.code_hash@ == SHA3_EMPTY@)) ==> exists|sender: ReplySender<Bytes>| #[trigger]
                linked(sender, response) && dispatched(
                    old(self)@,
                    final(self)@,
                    Pending::Code(req, sender),
                    final(net).since(*old(net)),
                ),
            (req.code_hash@ == SHA3_EMPTY@) ==> final(self)@ == old(self)@ && final(net).calls() == old(net).calls()
                && exists|sender: ReplySender<Bytes>, code: Bytes|
                linked(sender, response) && #[trigger] sent(sender, Ok(code)) && code@.len() == 0,
    {
        let (sender, response) = channel();
        proof {
            net.lemma_idle();
        }
        // fast path for no code.
        if same_hash(&req.code_hash, &SHA3_EMPTY) {
            complete(sender, Ok(Vec::new()));
        } else {
            self.dispatch_code(net, req, sender);
        }
        response
    }

    /// Dispatches a request of any kind.
    fn dispatch<C: BasicContext>(&mut self, net: &mut Network<C>, pending: Pending)
        ensures
            final(net).extends(*old(net)),
            dispatched(old(self)@, final(self)@, pending, final(net).since(*old(net))),
    {
        match pending {
            Pending::HeaderByNumber(req, sender) => {
                self.dispatch_header_by_number(net, req, sender)
            },
            Pending::HeaderByHash(req, sender) => self.dispatch_header_by_hash(net, req, sender),
            Pending::Block(req, sender) => self.dispatch_block(net, req, sender),
            Pending::BlockReceipts(req, sender) => self.dispatch_block_receipts(net, req, sender),
            Pending::Account(req, sender) => self.dispatch_account(net, req, sender),
            Pending::Code(req, sender) => self.dispatch_code(net, req, sender),
        }
    }

    /// Dispatches an orphaned request, given whether its caller was seen to be gone.
    /// One whose caller is gone is given back unanswered.
    pub fn redispatch<C: BasicContext>(
        &mut self,
        net: &mut Network<C>,
        orphan: Pending,
        gone: bool,
    ) -> (given_up: Option<Pending>)
        ensures
            final(net).extends(*old(net)),
            redispatched(
                old(self)@,
                final(self)@,
                orphan,
                gone,
                final(net).since(*old(net)),
            ),
            given_up == (if gone {
                Some(orphan)
            } else {
                None
            }),
    {
        if gone {
            proof {
                net.lemma_idle();
            }
            Some(orphan)
        } else {
            self.dispatch(net, orphan);
            None
        }
    }

    /// Dispatches orphaned requests, and discards those for which the corresponding
    /// receiver has been dropped.
    pub fn dispatch_orphaned<C: BasicContext>(&mut self, net: &mut Network<C>)
        ensures
            final(net).extends(*old(net)),
            orphans_dispatched(old(self)@, final(self)@, final(net).since(*old(net))),
            final(self)@.peers == old(self)@.peers,
    {
        let ghost before = self@;
        let mut to_dispatch: Vec<Pending> = Vec::new();
        std::mem::swap(&mut to_dispatch, &mut self.orphaned_requests);
        let ghost mut round: Round<C::Error> = Round {
            gone: Seq::empty(),
            calls: Seq::empty(),
            states: seq![self@],
        };
        proof {
            net.lemma_idle();
        }
        assert(self@ =~= before.without_orphans());
        for orphan in orphans: to_dispatch
            invariant
                orphans.seq() == before.orphaned,
                net.extends(*old(net)),
                net.since(*old(net)) == round.calls.flatten(),
                round.gone.len() == orphans.index(),
                round.calls.len() == orphans.index(),
                round.states.len() == orphans.index() + 1,
                round.states[0] == before.without_orphans(),
                round.states.last() == self@,
                forall|i: int|
                    0 <= i < orphans.index() ==> (#[trigger] before.orphaned[i]).hangup_seen(
                        round.gone[i],
                    ) && redispatched(
                        round.states[i],
                        round.states[i + 1],
                        before.orphaned[i],
                        round.gone[i],
                        round.calls[i],
                    ),
        {
            let ghost idle = *net;
            let gone = orphan.has_hung_up();
            let _given_up = self.redispatch(net, orphan, gone);
            proof {
                net.lemma_steps(idle, *old(net));
                round.calls.lemma_flatten_push(net.since(idle));
                round = Round {
                    gone: round.gone.push(gone),
                    calls: round.calls.push(net.since(idle)),
                    states: round.states.push(self@),
                };
            }
        }
        proof {
            assert(orphans_followed(before, self@, net.since(*old(net)), round));
            law_orphans_dispatched(before, self@, net.since(*old(net)));
        }
    }

    /// The request that waits for the reply with the given id.
    pub fn pending_request(&self, req_id: ReqId) -> (pending: Option<&Pending>)
        ensures
            match pending {
                Some(pending) => self@.pending.contains_key(req_id) && self@.pending[req_id]
                    == *pending,
                None => !self@.pending.contains_key(req_id),
            },
    {
        self.pending_requests.get(&req_id)
    }

    /// Takes out the request that waits for the reply with the given id.
    pub fn take_request(&mut self, req_id: ReqId) -> (taken: Option<Pending>)
        ensures
            final(self)@ == old(self)@.without_request(req_id),
            taken == (if old(self)@.pending.contains_key(req_id) {
                Some(old(self)@.pending[req_id])
            } else {
                None
            }),
    {
        let taken = self.pending_requests.remove(&req_id);
        assert(self@ =~= old(self)@.without_request(req_id));
        taken
    }

    /// Concludes a request that was taken out, given what is known of its reply: that it
    /// was found valid, that it was found invalid, or that there is none.
    pub fn conclude<C: BasicContext, E>(
        &mut self,
        net: &mut Network<C>,
        peer: PeerId,
        pending: Pending,
        verdict: Option<Result<Reply, E>>,
    )
        requires
            verdict matches Some(Ok(reply)) ==> reply.answers(pending),
        ensures
            final(net).extends(*old(net)),
            concluded(
                old(self)@,
                final(self)@,
                peer,
                pending,
                verdict,
                final(net).since(*old(net)),
            ),
    {
        proof {
            net.lemma_idle();
        }
        match verdict {
            Some(Ok(reply)) => pending.complete(Ok(reply)),
            Some(Err(_)) => {
                net.disable_peer(peer);
                let ghost idle = *net;
                self.dispatch(net, pending);
                proof {
                    net.lemma_steps(idle, *old(net));
                    assert(net.since(*old(net)).skip(1) =~= net.since(idle));
                }
            },
            None => self.dispatch(net, pending),
        }
    }

    /// Takes note of a peer that has connected.
    pub fn on_connect<C: BasicContext>(
        &mut self,
        net: &mut Network<C>,
        peer: PeerId,
        status: &Status,
        capabilities: &Capabilities,
    )
        ensures
            final(net).extends(*old(net)),
            orphans_dispatched(
                old(self)@.with_peer(peer, Peer { status: *status, capabilities: *capabilities }),
                final(self)@,
                final(net).since(*old(net)),
            ),
            final(self)@.peers == old(self)@.peers.insert(
                peer,
                Peer { status: *status, capabilities: *capabilities },
            ),
    {
        self.peers.insert(peer, Peer { status: *status, capabilities: *capabilities });
        self.dispatch_orphaned(net);
        proof {
            let noted = Peer { status: *status, capabilities: *capabilities };
            law_orphans_dispatched(
                old(self)@.with_peer(peer, noted),
                self@,
                net.since(*old(net)),
            );
        }
    }

    /// Forgets a peer that has disconnected, and tries to reassign the requests that it
    /// leaves unfulfilled.
    pub fn on_disconnect<C: BasicContext>(
        &mut self,
        net: &mut Network<C>,
        peer: PeerId,
        unfulfilled: &[ReqId],
    )
        ensures
            final(net).extends(*old(net)),
            orphans_dispatched(
                old(self)@.without_peer(peer).reclaimed(unfulfilled@),
                final(self)@,
                final(net).since(*old(net)),
            ),
            final(self)@.peers == old(self)@.peers.remove(peer),
    {
        let ghost start = self@.without_peer(peer);
        self.peers.remove(&peer);
        let mut i: usize = 0;
        assert(unfulfilled@.take(0) =~= Seq::empty());
        while i < unfulfilled.len()
            invariant
                i <= unfulfilled@.len(),
                self@ == start.reclaimed(unfulfilled@.take(i as int)),
            decreases unfulfilled@.len() - i,
        {
            proof {
                let next = unfulfilled@.take(i + 1);
                assert(next.drop_last() =~= unfulfilled@.take(i as int));
                assert(next.last() == unfulfilled@[i as int]);
            }
            match self.pending_requests.remove(&unfulfilled[i]) {
                Some(pending) => {
                    self.orphaned_requests.push(pending);
                },
                None => {},
            }
            i = i + 1;
        }
        assert(unfulfilled@.take(i as int) =~= unfulfilled@);
        let ghost reclaimed = self@;
        let ghost idle = *net;
        self.dispatch_orphaned(net);
        proof {
            law_reclaimed(start, unfulfilled@);
            law_orphans_dispatched(reclaimed, self@, net.since(idle));
        }
    }

    /// Updates what is known of a peer that has announced something. `update` gives the
    /// peer after the announcement.
    pub fn on_announcement<C: BasicContext, U: Fn(&Peer) -> Peer>(
        &mut self,
        net: &mut Network<C>,
        peer: PeerId,
        update: U,
    )
        requires
            old(self)@.peers.contains_key(peer) ==> call_requires(
                update,
                (&old(self)@.peers[peer],),
            ),
        ensures
            final(net).extends(*old(net)),
            if old(self)@.peers.contains_key(peer) {
                exists|updated: Peer| #[trigger]
                    call_ensures(update, (&old(self)@.peers[peer],), updated) && orphans_dispatched(
                        old(self)@.with_peer(peer, updated),
                        final(self)@,
                        final(net).since(*old(net)),
                    ) && final(self)@.peers == old(self)@.peers.insert(peer, updated)
            } else {
                orphans_dispatched(old(self)@, final(self)@, final(net).since(*old(net))) 
                    && final(self)@.peers == old(self)@.peers
            },
    {
        let updated = match self.peers.get(&peer) {
            Some(known) => Some(update(known)),
            None => None,
        };
        match updated {
            Some(updated) => {
                self.peers.insert(peer, updated);
            },
            None => {},
        }
        self.dispatch_orphaned(net);
        proof {
            let noted = match updated {
                Some(updated) => old(self)@.with_peer(peer, updated),
                None => old(self)@,
            };
            law_orphans_dispatched(noted, self@, net.since(*old(net)));
        }
    }

    /// Takes the chance to dispatch orphaned requests.
    pub fn tick<C: BasicContext>(&mut self, net: &mut Network<C>)
        ensures
            final(net).extends(*old(net)),
            orphans_dispatched(old(self)@, final(self)@, final(net).since(*old(net))),
            final(self)@.peers == old(self)@.peers,
    {
        self.dispatch_orphaned(net)
    }

    /// Handles the reply to a request for header proofs: headers, each with its proof. Only
    /// the first is looked at. `check` tells whether it is valid for the request.
    pub fn on_header_proofs<C, K, E>(
        &mut self,
        net: &mut Network<C>,
        peer: PeerId,
        req_id: ReqId,
        proofs: &[(Bytes, Vec<Bytes>)],
        check: K,
    ) where C: BasicContext, K: Fn(&request::HeaderByNumber, &Bytes, &Vec<Bytes>) -> Result<(Header, U256), E>
        requires
            // only a request for a header by number fetches header proofs
            old(self)@.pending.contains_key(req_id) ==> old(self)@.pending[req_id] is HeaderByNumber,
            old(self)@.pending.contains_key(req_id) && proofs@.len() > 0 ==> call_requires(
                check,
                (&old(self)@.pending[req_id]->HeaderByNumber_0, &proofs@[0].0, &proofs@[0].1),
            ),
        ensures
            final(net).extends(*old(net)),
            !old(self)@.pending.contains_key(req_id) ==> final(self)@ == old(self)@
                && final(net).since(*old(net)).len() == 0,
            old(self)@.pending.contains_key(req_id) && proofs@.len() == 0 ==> concluded(
                old(self)@.without_request(req_id),
                final(self)@,
                peer,
                old(self)@.pending[req_id],
                None::<Result<Reply, E>>,
                final(net).since(*old(net)),
            ),
            old(self)@.pending.contains_key(req_id) && proofs@.len() > 0 ==> exists|
                verdict: Result<(Header, U256), E>,
            | #[trigger]
                call_ensures(
                    check,
                    (&old(self)@.pending[req_id]->HeaderByNumber_0, &proofs@[0].0, &proofs@[0].1),
                    verdict,
                ) && concluded(
                    old(self)@.without_request(req_id),
                    final(self)@,
                    peer,
                    old(self)@.pending[req_id],
                    match verdict {
                        Ok((header, difficulty)) => Some(
                            Ok::<Reply, E>(Reply::HeaderByNumber(header, difficulty)),
                        ),
                        Err(error) => Some(Err(error)),
                    },
                    final(net).since(*old(net)),
                ),
    {
        proof {
            net.lemma_idle();
        }
        let pending = match self.take_request(req_id) {
            Some(pending) => pending,
            None => return ,
        };
        let verdict: Option<Result<Reply, E>> = match &pending {
            Pending::HeaderByNumber(req, _) => match proofs.first() {
                Some(first) => match check(req, &first.0, &first.1) {
                    Ok((header, difficulty)) => Some(Ok(Reply::HeaderByNumber(header, difficulty))),
                    Err(error) => Some(Err(error)),
                },
                None => None,
            },
            _ => None,
        };
        self.conclude(net, peer, pending, verdict);
    }

    /// Handles the reply to a request for headers. Only the first is looked at. `check`
    /// tells whether it is valid for the request.
    pub fn on_block_headers<C, K, E>(
        &mut self,
        net: &mut Network<C>,
        peer: PeerId,
        req_id: ReqId,
        headers: &[Bytes],
        check: K,
    ) where C: BasicContext, K: Fn(&request::HeaderByHash, &Bytes) -> Result<Header, E>
        requires
            // only a request for a header by hash fetches headers
            old(self)@.pending.contains_key(req_id) ==> old(self)@.pending[req_id] is HeaderByHash,
            old(self)@.pending.contains_key(req_id) && headers@.len() > 0 ==> call_requires(
                check,
                (&old(self)@.pending[req_id]->HeaderByHash_0, &headers@[0]),
            ),
        ensures
            final(net).extends(*old(net)),
            !old(self)@.pending.contains_key(req_id) ==> final(self)@ == old(self)@
                && final(net).since(*old(net)).len() == 0,
            old(self)@.pending.contains_key(req_id) && headers@.len() == 0 ==> concluded(
                old(self)@.without_request(req_id),
                final(self)@,
                peer,
                old(self)@.pending[req_id],
                None::<Result<Reply, E>>,
                final(net).since(*old(net)),
            ),
            old(self)@.pending.contains_key(req_id) && headers@.len() > 0 ==> exists|
                verdict: Result<Header, E>,
            | #[trigger]
                call_ensures(
                    check,
                    (&old(self)@.pending[req_id]->HeaderByHash_0, &headers@[0]),
                    verdict,
                ) && concluded(
                    old(self)@.without_request(req_id),
                    final(self)@,
                    peer,
                    old(self)@.pending[req_id],
                    match verdict {
                        Ok(header) => Some(Ok::<Reply, E>(Reply::HeaderByHash(header))),
                        Err(error) => Some(Err(error)),
                    },
                    final(net).since(*old(net)),
                ),
    {
        proof {
            net.lemma_idle();
        }
        let pending = match self.take_request(req_id) {
            Some(pending) => pending,
            None => return ,
        };
        let verdict: Option<Result<Reply, E>> = match &pending {
            Pending::HeaderByHash(req, _) => match headers.first() {
                Some(first) => match check(req, first) {
                    Ok(header) => Some(Ok(Reply::HeaderByHash(header))),
                    Err(error) => Some(Err(error)),
                },
                None => None,
            },
            _ => None,
        };
        self.conclude(net, peer, pending, verdict);
    }

    /// Handles the reply to a request for bodies. Only the first is looked at. `check` tells
    /// whether it is valid for the request.
    pub fn on_block_bodies<C, K, E>(
        &mut self,
        net: &mut Network<C>,
        peer: PeerId,
        req_id: ReqId,
        bodies: &[Bytes],
        check: K,
    ) where C: BasicContext, K: Fn(&request::Body, &Bytes) -> Result<Block, E>
        requires
            // only a request for a block fetches bodies
            old(self)@.pending.contains_key(req_id) ==> old(self)@.pending[req_id] is Block,
            old(self)@.pending.contains_key(req_id) && bodies@.len() > 0 ==> call_requires(
                check,
                (&old(self)@.pending[req_id]->Block_0, &bodies@[0]),
            ),
        ensures
            final(net).extends(*old(net)),
            !old(self)@.pending.contains_key(req_id) ==> final(self)@ == old(self)@
                && final(net).since(*old(net)).len() == 0,
            old(self)@.pending.contains_key(req_id) && bodies@.len() == 0 ==> concluded(
                old(self)@.without_request(req_id),
                final(self)@,
                peer,
                old(self)@.pending[req_id],
                None::<Result<Reply, E>>,
                final(net).since(*old(net)),
            ),
            old(self)@.pending.contains_key(req_id) && bodies@.len() > 0 ==> exists|
                verdict: Result<Block, E>,
            | #[trigger]
                call_ensures(
                    check,
                    (&old(self)@.pending[req_id]->Block_0, &bodies@[0]),
                    verdict,
                ) && concluded(
                    old(self)@.without_request(req_id),
                    final(self)@,
                    peer,
                    old(self)@.pending[req_id],
                    match verdict {
                        Ok(block) => Some(Ok::<Reply, E>(Reply::Block(block))),
                        Err(error) => Some(Err(error)),
                    },
                    final(net).since(*old(net)),
                ),
    {
        proof {
            net.lemma_idle();
        }
        let pending = match self.take_request(req_id) {
            Some(pending) => pending,
            None => return ,
        };
        let verdict: Option<Result<Reply, E>> = match &pending {
            Pending::Block(req, _) => match bodies.first() {
                Some(first) => match check(req, first) {
                    Ok(block) => Some(Ok(Reply::Block(block))),
                    Err(error) => Some(Err(error)),
                },
                None => None,
            },
            _ => None,
        };
        self.conclude(net, peer, pending, verdict);
    }

    /// Handles the reply to a request for receipts, those of one block after the other. Only
    /// the first block's are looked at. `check` tells whether they are valid for the
    /// request.
    pub fn on_receipts<C, K, E>(
        &mut self,
        net: &mut Network<C>,
        peer: PeerId,
        req_id: ReqId,
        receipts: &[Vec<Receipt>],
        check: K,
    ) where C: BasicContext, K: Fn(&request::BlockReceipts, &Vec<Receipt>) -> Result<Vec<Receipt>, E>
        requires
            // only a request for receipts fetches receipts
            old(self)@.pending.contains_key(req_id) ==> old(self)@.pending[req_id] is BlockReceipts,
            old(self)@.pending.contains_key(req_id) && receipts@.len() > 0 ==> call_requires(
                check,
                (&old(self)@.pending[req_id]->BlockReceipts_0, &receipts@[0]),
            ),
        ensures
            final(net).extends(*old(net)),
            !old(self)@.pending.contains_key(req_id) ==> final(self)@ == old(self)@
                && final(net).since(*old(net)).len() == 0,
            old(self)@.pending.contains_key(req_id) && receipts@.len() == 0 ==> concluded(
                old(self)@.without_request(req_id),
                final(self)@,
                peer,
                old(self)@.pending[req_id],
                None::<Result<Reply, E>>,
                final(net).since(*old(net)),
            ),
            old(self)@.pending.contains_key(req_id) && receipts@.len() > 0 ==> exists|
                verdict: Result<Vec<Receipt>, E>,
            | #[trigger]
                call_ensures(
                    check,
                    (&old(self)@.pending[req_id]->BlockReceipts_0, &receipts@[0]),
                    verdict,
                ) && concluded(
                    old(self)@.without_request(req_id),
                    final(self)@,
                    peer,
                    old(self)@.pending[req_id],
                    match verdict {
                        Ok(valid) => Some(Ok::<Reply, E>(Reply::BlockReceipts(valid))),
                        Err(error) => Some(Err(error)),
                    },
                    final(net).since(*old(net)),
                ),
    {
        proof {
            net.lemma_idle();
        }
        let pending = match self.take_request(req_id) {
            Some(pending) => pending,
            None => return ,
        };
        let verdict: Option<Result<Reply, E>> = match &pending {
            Pending::BlockReceipts(req, _) => match receipts.first() {
                Some(first) => match check(req, first) {
                    Ok(valid) => Some(Ok(Reply::BlockReceipts(valid))),
                    Err(error) => Some(Err(error)),
                },
                None => None,
            },
            _ => None,
        };
        self.conclude(net, peer, pending, verdict);
    }

    /// Handles the reply to a request for state proofs. Only the first is looked at. `check`
    /// tells whether it is valid for the request.
    pub fn on_state_proofs<C, K, E>(
        &mut self,
        net: &mut Network<C>,
        peer: PeerId,
        req_id: ReqId,
        proofs: &[Vec<Bytes>],
        check: K,
    ) where C: BasicContext, K: Fn(&request::Account, &Vec<Bytes>) -> Result<BasicAccount, E>
        requires
            // only a request for an account fetches state proofs
            old(self)@.pending.contains_key(req_id) ==> old(self)@.pending[req_id] is Account,
            old(self)@.pending.contains_key(req_id) && proofs@.len() > 0 ==> call_requires(
                check,
                (&old(self)@.pending[req_id]->Account_0, &proofs@[0]),
            ),
        ensures
            final(net).extends(*old(net)),
            !old(self)@.pending.contains_key(req_id) ==> final(self)@ == old(self)@
                && final(net).since(*old(net)).len() == 0,
            old(self)@.pending.contains_key(req_id) && proofs@.len() == 0 ==> concluded(
                old(self)@.without_request(req_id),
                final(self)@,
                peer,
                old(self)@.pending[req_id],
                None::<Result<Reply, E>>,
                final(net).since(*old(net)),
            ),
            old(self)@.pending.contains_key(req_id) && proofs@.len() > 0 ==> exists|
                verdict: Result<BasicAccount, E>,
            | #[trigger]
                call_ensures(
                    check,
                    (&old(self)@.pending[req_id]->Account_0, &proofs@[0]),
                    verdict,
                ) && concluded(
                    old(self)@.without_request(req_id),
                    final(self)@,
                    peer,
                    old(self)@.pending[req_id],
                    match verdict {
                        Ok(account) => Some(Ok::<Reply, E>(Reply::Account(account))),
                        Err(error) => Some(Err(error)),
                    },
                    final(net).since(*old(net)),
                ),
    {
        proof {
            net.lemma_idle();
        }
        let pending = match self.take_request(req_id) {
            Some(pending) => pending,
            None => return ,
        };
        let verdict: Option<Result<Reply, E>> = match &pending {
            Pending::Account(req, _) => match proofs.first() {
                Some(first) => match check(req, first) {
                    Ok(account) => Some(Ok(Reply::Account(account))),
                    Err(error) => Some(Err(error)),
                },
                None => None,
            },
            _ => None,
        };
        self.conclude(net, peer, pending, verdict);
    }

    /// Handles the reply to a request for code. Only the first is looked at. `check` tells
    /// whether it is valid for the request. If there is none, the request is given back
    /// unanswered; once it is dropped, its caller learns that it was canceled.
    pub fn on_code<C, K, E>(
        &mut self,
        net: &mut Network<C>,
        peer: PeerId,
        req_id: ReqId,
        codes: &[Bytes],
        check: K,
    ) -> (given_up: Option<Pending>) where
        C: BasicContext,
        K: Fn(&request::Code, &Bytes) -> Result<(), E>,

        requires
            // only a request for code fetches code
            old(self)@.pending.contains_key(req_id) ==> old(self)@.pending[req_id] is Code,
            old(self)@.pending.contains_key(req_id) && codes@.len() > 0 ==> call_requires(
                check,
                (&old(self)@.pending[req_id]->Code_0, &codes@[0]),
            ),
        ensures
            final(net).extends(*old(net)),
            !old(self)@.pending.contains_key(req_id) ==> final(self)@ == old(self)@
                && final(net).since(*old(net)).len() == 0,
            old(self)@.pending.contains_key(req_id) && codes@.len() == 0 ==> final(self)@ == old(
                self,
            )@.without_request(req_id) && final(net).since(*old(net)).len() == 0,
            given_up == (if old(self)@.pending.contains_key(req_id) && codes@.len() == 0 {
                Some(old(self)@.pending[req_id])
            } else {
                None
            }),
            old(self)@.pending.contains_key(req_id) && codes@.len() > 0 ==> exists|
                verdict: Result<(), E>,
            | #[trigger]
                call_ensures(
                    check,
                    (&old(self)@.pending[req_id]->Code_0, &codes@[0]),
                    verdict,
                ) && match verdict {
                    Ok(_) => {
                        &&& final(self)@ == old(self)@.without_request(req_id)
                        &&& final(net).since(*old(net)).len() == 0
                        &&& exists|code: Bytes|
                            code@ == codes@[0]@ && #[trigger] old(self)@.pending[req_id].completed(
                                Ok(Reply::Code(code)),
                            )
                    },
                    Err(error) => concluded(
                        old(self)@.without_request(req_id),
                        final(self)@,
                        peer,
                        old(self)@.pending[req_id],
                        Some(Err::<Reply, E>(error)),
                        final(net).since(*old(net)),
                    ),
                },
    {
        proof {
            net.lemma_idle();
        }
        let pending = match self.take_request(req_id) {
            Some(pending) => pending,
            None => return None,
        };
        match (&pending, codes.first()) {
            (Pending::Code(req, _), Some(first)) => {
                let verdict: Option<Result<Reply, E>> = match check(req, first) {
                    Ok(_) => {
                        let code = first.clone();
                        assert(code@ =~= first@);
                        Some(Ok(Reply::Code(code)))
                    },
                    Err(error) => Some(Err(error)),
                };
                self.conclude(net, peer, pending, verdict);
                None
            },
            _ => Some(pending),
        }
    }
}

} // verus!
