use futures::Future;
use on_demand::block::empty_block;
use on_demand::context::BasicContext;
use on_demand::digest::sha3;
use on_demand::les_request::{
    Bodies, ContractCode, ContractCodes, HashOrNumber, HeaderProof, HeaderProofs, Headers, Receipts,
    Request, StateProof, StateProofs,
};
use on_demand::network::Network;
use on_demand::service::{Dispatch, OnDemand};
use on_demand::peer::{reaches, Capabilities, Peer, Status};
use on_demand::pending::{Pending, Reply};
use on_demand::request;
use on_demand::response::{channel, check_hangup, complete, Async, Error, Response};
use on_demand::shuffle::shuffle;
use on_demand::types::{
    same_hash, BasicAccount, Block, Bytes, Header, PeerId, Receipt, ReqId, H256, SHA3_EMPTY,
    SHA3_EMPTY_LIST_RLP, SHA3_NULL_RLP, U256,
};
use std::cell::RefCell;

struct FakeContext;

impl BasicContext for FakeContext {
    type Error = ();

    fn request_from(&mut self, _: PeerId, _: &Request) -> Result<ReqId, ()> {
        panic!("no peer to request from")
    }

    fn disable_peer(&mut self, _: PeerId) {}
}

/// Takes requests for the peers in `takers`, up to a limit, and writes down what it was
/// told to do.
struct Net {
    takers: RefCell<Vec<PeerId>>,
    next_id: RefCell<ReqId>,
    limit: RefCell<usize>,
    asked: RefCell<Vec<(PeerId, Request)>>,
    disabled: RefCell<Vec<PeerId>>,
}

impl Net {
    fn new(takers: &[PeerId]) -> Net {
        Net {
            takers: RefCell::new(takers.to_vec()),
            next_id: RefCell::new(100),
            limit: RefCell::new(1000),
            asked: RefCell::new(Vec::new()),
            disabled: RefCell::new(Vec::new()),
        }
    }

    fn asked_peers(&self) -> Vec<PeerId> {
        let mut peers: Vec<PeerId> = self.asked.borrow().iter().map(|entry| entry.0).collect();
        peers.sort();
        peers
    }

    fn only_request(&self) -> Request {
        assert_eq!(self.asked.borrow().len(), 1);
        self.asked.borrow()[0].1.clone()
    }
}

impl BasicContext for Net {
    type Error = &'static str;

    fn request_from(&mut self, peer: PeerId, request: &Request) -> Result<ReqId, &'static str> {
        self.asked.borrow_mut().push((peer, request.clone()));
        if self.takers.borrow().contains(&peer) && *self.limit.borrow() > 0 {
            *self.limit.borrow_mut() -= 1;
            let id = *self.next_id.borrow();
            *self.next_id.borrow_mut() = id + 1;
            Ok(id)
        } else {
            Err("refused")
        }
    }

    fn disable_peer(&mut self, peer: PeerId) {
        self.disabled.borrow_mut().push(peer);
    }
}

fn wait<T>(response: Response<T>) -> Result<T, Error> {
    match Response::poll(response.0.wait().map(Async::Ready)) {
        Ok(Async::Ready(value)) => Ok(value),
        Ok(Async::NotReady) => panic!("a finished wait yields a value"),
        Err(error) => Err(error),
    }
}

fn unanswered<T>(response: &mut Response<T>) -> bool {
    match response.0.try_recv() {
        Ok(None) => true,
        _ => false,
    }
}

fn header(number: u64) -> Header {
    Header {
        number,
        hash: [number as u8; 32],
        transactions_root: [1; 32],
        uncles_hash: [2; 32],
        receipts_root: [3; 32],
        rlp: vec![0xc2, 0x01, 0x02],
    }
}

fn full(head_num: u64) -> (Status, Capabilities) {
    (
        Status { head_num },
        Capabilities {
            serve_headers: true,
            serve_chain_since: Some(head_num),
            serve_state_since: Some(head_num),
        },
    )
}

fn none(head_num: u64) -> (Status, Capabilities) {
    (
        Status { head_num },
        Capabilities { serve_headers: false, serve_chain_since: None, serve_state_since: None },
    )
}

fn by_number(num: u64) -> request::HeaderByNumber {
    request::HeaderByNumber { num, cht_num: 7, cht_root: [9; 32] }
}

fn code_request(number: u64) -> request::Code {
    request::Code { block_id: ([5; 32], number), address: [6; 20], code_hash: [7; 32] }
}

fn account() -> BasicAccount {
    BasicAccount {
        nonce: U256([1, 0, 0, 0]),
        balance: U256([2, 0, 0, 0]),
        storage_root: [3; 32],
        code_hash: [4; 32],
    }
}

#[test]
fn no_peers() {
    let mut on_demand = OnDemand::default();
    let result = on_demand.header_by_hash(&mut Network::new(&mut FakeContext), request::HeaderByHash(H256::default()));

    assert_eq!(wait(result).unwrap_err(), Error::NoPeersAvailable);
}

#[test]
fn no_peers_for_any_kind() {
    let mut service = OnDemand::default();
    let refused = Error::NoPeersAvailable;
    assert_eq!(wait(service.header_by_number(&mut Network::new(&mut FakeContext), by_number(1))).unwrap_err(), refused);
    let body = request::Body { header: header(1), hash: [1; 32] };
    assert_eq!(wait(service.block(&mut Network::new(&mut FakeContext), body)).unwrap_err(), refused);
    let receipts = request::BlockReceipts(header(1));
    assert_eq!(wait(service.block_receipts(&mut Network::new(&mut FakeContext), receipts)).unwrap_err(), refused);
    let lookup = request::Account { header: header(1), address: [0; 20] };
    assert_eq!(wait(service.account(&mut Network::new(&mut FakeContext), lookup)).unwrap_err(), refused);
    assert_eq!(wait(service.code(&mut Network::new(&mut FakeContext), code_request(1))).unwrap_err(), refused);
}

#[test]
fn unsuitable_peers_are_not_asked() {
    let mut service = OnDemand::default();
    let (status, capabilities) = none(100);
    service.on_connect(&mut Network::new(&mut FakeContext), 1, &status, &capabilities);
    let (status, capabilities) = full(9);
    service.on_connect(&mut Network::new(&mut FakeContext), 2, &status, &capabilities);
    // the second peer is one block short of each of these
    let refused = Error::NoPeersAvailable;
    assert_eq!(wait(service.header_by_number(&mut Network::new(&mut FakeContext), by_number(10))).unwrap_err(), refused);
    let body = request::Body { header: header(10), hash: [1; 32] };
    assert_eq!(wait(service.block(&mut Network::new(&mut FakeContext), body)).unwrap_err(), refused);
    let receipts = request::BlockReceipts(header(10));
    assert_eq!(wait(service.block_receipts(&mut Network::new(&mut FakeContext), receipts)).unwrap_err(), refused);
    let lookup = request::Account { header: header(10), address: [0; 20] };
    assert_eq!(wait(service.account(&mut Network::new(&mut FakeContext), lookup)).unwrap_err(), refused);
    assert_eq!(wait(service.code(&mut Network::new(&mut FakeContext), code_request(10))).unwrap_err(), refused);
}

#[test]
fn header_by_number_round_trip() {
    let mut net = Net::new(&[2]);
    let mut service = OnDemand::default();
    let (status, capabilities) = full(10);
    service.on_connect(&mut Network::new(&mut net), 2, &status, &capabilities);
    let mut response = service.header_by_number(&mut Network::new(&mut net), by_number(10));
    assert_eq!(
        net.only_request(),
        Request::HeaderProofs(HeaderProofs {
            requests: vec![HeaderProof { cht_number: 7, block_number: 10, from_level: 0 }],
        })
    );
    assert!(unanswered(&mut response));
    match service.pending_request(100) {
        Some(Pending::HeaderByNumber(req, _)) => assert_eq!(*req, by_number(10)),
        _ => panic!("the request waits under the id that the network gave"),
    }
    let proofs = vec![(vec![1u8], vec![vec![2u8]]), (vec![3], Vec::new())];
    service.on_header_proofs(&mut Network::new(&mut net), 2, 100, &proofs, |req, head, proof| {
        assert_eq!(req.num, 10);
        assert_eq!(head, &vec![1u8]);
        assert_eq!(proof, &vec![vec![2u8]]);
        Ok::<(Header, U256), ()>((header(10), U256([5, 0, 0, 0])))
    });
    assert_eq!(wait(response), Ok((header(10), U256([5, 0, 0, 0]))));
    assert!(service.pending_request(100).is_none());
    // a second reply finds nothing
    service.on_header_proofs(&mut Network::new(&mut net), 2, 100, &proofs, |_, _, _| -> Result<(Header, U256), ()> {
        panic!("there is nothing to check")
    });
    assert!(net.disabled.borrow().is_empty());
}

#[test]
fn header_by_hash_round_trip() {
    let mut net = Net::new(&[2]);
    let mut service = OnDemand::default();
    let (status, capabilities) = full(0);
    service.on_connect(&mut Network::new(&mut net), 2, &status, &capabilities);
    let response = service.header_by_hash(&mut Network::new(&mut net), request::HeaderByHash([8; 32]));
    assert_eq!(
        net.only_request(),
        Request::Headers(Headers {
            start: HashOrNumber::Hash([8; 32]),
            max: 1,
            skip: 0,
            reverse: false,
        })
    );
    service.on_block_headers(&mut Network::new(&mut net), 2, 100, &[vec![1], vec![2]], |req, head| {
        assert_eq!(req.0, [8; 32]);
        assert_eq!(head, &vec![1u8]);
        Ok::<Header, ()>(header(3))
    });
    assert_eq!(wait(response), Ok(header(3)));
}

#[test]
fn block_round_trip() {
    let mut net = Net::new(&[2]);
    let mut service = OnDemand::default();
    let (status, capabilities) = full(4);
    service.on_connect(&mut Network::new(&mut net), 2, &status, &capabilities);
    let response = service.block(&mut Network::new(&mut net), request::Body { header: header(4), hash: [8; 32] });
    assert_eq!(net.only_request(), Request::Bodies(Bodies { block_hashes: vec![[8; 32]] }));
    service.on_block_bodies(&mut Network::new(&mut net), 2, 100, &[vec![1], vec![2]], |_, body| {
        Ok::<Block, ()>(Block(body.clone()))
    });
    assert_eq!(wait(response), Ok(Block(vec![1])));
}

#[test]
fn receipts_round_trip() {
    let mut net = Net::new(&[2]);
    let mut service = OnDemand::default();
    let (status, capabilities) = full(4);
    service.on_connect(&mut Network::new(&mut net), 2, &status, &capabilities);
    let response = service.block_receipts(&mut Network::new(&mut net), request::BlockReceipts(header(4)));
    assert_eq!(net.only_request(), Request::Receipts(Receipts { block_hashes: vec![[4; 32]] }));
    let receipts = [vec![Receipt(vec![1])], Vec::new()];
    service.on_receipts(&mut Network::new(&mut net), 2, 100, &receipts, |_, first| {
        assert_eq!(first.len(), 1);
        Ok::<Vec<Receipt>, ()>(vec![Receipt(vec![1])])
    });
    assert_eq!(wait(response), Ok(vec![Receipt(vec![1])]));
}

#[test]
fn account_round_trip() {
    let mut net = Net::new(&[2]);
    let mut service = OnDemand::default();
    let (status, capabilities) = full(4);
    service.on_connect(&mut Network::new(&mut net), 2, &status, &capabilities);
    let lookup = request::Account { header: header(4), address: [0; 20] };
    let response = service.account(&mut Network::new(&mut net), lookup);
    // the Keccak-256 digest of twenty zero bytes
    let key: H256 = [
        0x53, 0x80, 0xc7, 0xb7, 0xae, 0x81, 0xa5, 0x8e, 0xb9, 0x8d, 0x9c, 0x78, 0xde, 0x4a, 0x1f,
        0xd7, 0xfd, 0x95, 0x35, 0xfc, 0x95, 0x3e, 0xd2, 0xbe, 0x60, 0x2d, 0xaa, 0xa4, 0x17, 0x67,
        0x31, 0x2a,
    ];
    assert_eq!(
        net.only_request(),
        Request::StateProofs(StateProofs {
            requests: vec![StateProof { block: [4; 32], key1: key, key2: None, from_level: 0 }],
        })
    );
    service.on_state_proofs(&mut Network::new(&mut net), 2, 100, &[vec![vec![1]]], |_, proof| {
        assert_eq!(proof, &vec![vec![1u8]]);
        Ok::<BasicAccount, ()>(account())
    });
    assert_eq!(wait(response), Ok(account()));
}

#[test]
fn code_round_trip() {
    let mut net = Net::new(&[2]);
    let mut service = OnDemand::default();
    let (status, capabilities) = full(4);
    service.on_connect(&mut Network::new(&mut net), 2, &status, &capabilities);
    let response = service.code(&mut Network::new(&mut net), code_request(4));
    assert_eq!(
        net.only_request(),
        Request::Codes(ContractCodes {
            code_requests: vec![ContractCode {
                block_hash: [5; 32],
                account_key: sha3(&[6; 20]),
            }],
        })
    );
    service.on_code(&mut Network::new(&mut net), 2, 100, &[vec![1, 2], vec![3]], |_, _| Ok::<(), ()>(()));
    assert_eq!(wait(response), Ok(vec![1, 2]));
}

#[test]
fn empty_answers_need_no_peer() {
    let mut service = OnDemand::default();
    let mut empty = header(4);
    empty.transactions_root = SHA3_NULL_RLP;
    empty.uncles_hash = SHA3_EMPTY_LIST_RLP;
    let response = service.block(&mut Network::new(&mut FakeContext), request::Body { header: empty, hash: [8; 32] });
    assert_eq!(wait(response), Ok(Block(vec![0xc5, 0xc2, 0x01, 0x02, 0xc0, 0xc0])));

    let mut empty = header(4);
    empty.receipts_root = SHA3_NULL_RLP;
    let response = service.block_receipts(&mut Network::new(&mut FakeContext), request::BlockReceipts(empty));
    assert_eq!(wait(response), Ok(Vec::new()));

    let mut req = code_request(4);
    req.code_hash = SHA3_EMPTY;
    assert_eq!(wait(service.code(&mut Network::new(&mut FakeContext), req)), Ok(Vec::new()));
}

#[test]
fn empty_transactions_alone_are_no_empty_block() {
    let mut service = OnDemand::default();
    let mut half = header(4);
    half.transactions_root = SHA3_NULL_RLP;
    let response = service.block(&mut Network::new(&mut FakeContext), request::Body { header: half, hash: [8; 32] });
    assert_eq!(wait(response), Err(Error::NoPeersAvailable));
}

#[test]
fn long_headers_are_framed() {
    let header: Bytes = vec![0x80; 53];
    let block = empty_block(&header).0;
    assert_eq!(block[0], 0xf7);
    assert_eq!(block.len(), 56);
    let header: Bytes = vec![0x80; 54];
    let block = empty_block(&header).0;
    assert_eq!(block[..2], [0xf8, 56]);
    assert_eq!(block[2..56], header[..]);
    assert_eq!(block[56..], [0xc0, 0xc0]);
    let header: Bytes = vec![0x80; 600];
    let block = empty_block(&header).0;
    assert_eq!(block[..3], [0xf9, 0x02, 0x5a]);
    assert_eq!(block.len(), 605);
}

#[test]
fn hashes() {
    assert_eq!(sha3(&[]), SHA3_EMPTY);
    assert_eq!(sha3(&[0x80]), SHA3_NULL_RLP);
    assert_eq!(sha3(&[0xc0]), SHA3_EMPTY_LIST_RLP);
    assert!(same_hash(&[7; 32], &[7; 32]));
    let mut other = [7; 32];
    other[31] = 8;
    assert!(!same_hash(&[7; 32], &other));
}

#[test]
fn every_suitable_peer_is_tried_before_orphaning() {
    let mut net = Net::new(&[]);
    let mut service = OnDemand::default();
    let (status, capabilities) = full(10);
    for peer in 1..5 {
        service.on_connect(&mut Network::new(&mut net), peer, &status, &capabilities);
    }
    let (status, capabilities) = none(10);
    service.on_connect(&mut Network::new(&mut net), 5, &status, &capabilities);
    let mut response = service.header_by_hash(&mut Network::new(&mut net), request::HeaderByHash([8; 32]));
    assert_eq!(net.asked_peers(), vec![1, 2, 3, 4]);
    assert!(unanswered(&mut response));
    // a tick offers the orphan again
    service.tick(&mut Network::new(&mut net));
    assert_eq!(net.asked_peers(), vec![1, 1, 2, 2, 3, 3, 4, 4]);
    // until a peer takes it
    net.takers.borrow_mut().push(3);
    service.tick(&mut Network::new(&mut net));
    assert!(service.pending_request(100).is_some());
    let asked = net.asked.borrow().len();
    service.tick(&mut Network::new(&mut net));
    assert_eq!(net.asked.borrow().len(), asked);
}

#[test]
fn the_first_taker_gets_the_request() {
    let mut net = Net::new(&[1, 2, 3]);
    let mut service = OnDemand::default();
    let (status, capabilities) = full(10);
    for peer in 1..4 {
        service.on_connect(&mut Network::new(&mut net), peer, &status, &capabilities);
    }
    let _response = service.header_by_number(&mut Network::new(&mut net), by_number(1));
    assert_eq!(net.asked.borrow().len(), 1);
    assert!(service.pending_request(100).is_some());
}

#[test]
fn orphans_whose_caller_is_gone_are_discarded() {
    let mut net = Net::new(&[]);
    let mut service = OnDemand::default();
    let (status, capabilities) = full(10);
    service.on_connect(&mut Network::new(&mut net), 1, &status, &capabilities);
    let gone = service.header_by_number(&mut Network::new(&mut net), by_number(1));
    let _kept = service.header_by_number(&mut Network::new(&mut net), by_number(2));
    drop(gone);
    net.asked.borrow_mut().clear();
    service.tick(&mut Network::new(&mut net));
    assert_eq!(net.asked.borrow().len(), 1);
    match net.only_request() {
        Request::HeaderProofs(proofs) => assert_eq!(proofs.requests[0].block_number, 2),
        _ => panic!("the request for the second header is left"),
    }
}

#[test]
fn a_disconnected_peer_loses_its_requests() {
    let mut net = Net::new(&[1]);
    let mut service = OnDemand::default();
    let (status, capabilities) = full(10);
    service.on_connect(&mut Network::new(&mut net), 1, &status, &capabilities);
    let response = service.header_by_number(&mut Network::new(&mut net), by_number(1));
    service.on_connect(&mut Network::new(&mut net), 2, &status, &capabilities);
    net.takers.borrow_mut().push(2);
    // ids under which nothing waits are passed over
    service.on_disconnect(&mut Network::new(&mut net), 1, &[55, 100, 100]);
    assert!(service.pending_request(100).is_none());
    assert!(service.pending_request(101).is_some());
    assert_eq!(net.asked.borrow().last().unwrap().0, 2);
    service.on_disconnect(&mut Network::new(&mut net), 2, &[101]);
    assert_eq!(wait(response), Err(Error::NoPeersAvailable));
}

#[test]
fn announcements_update_known_peers() {
    let mut net = Net::new(&[1]);
    let mut service = OnDemand::default();
    service.on_announcement(&mut Network::new(&mut net), 1, |_: &Peer| -> Peer { panic!("the peer is not known") });
    let (status, capabilities) = full(10);
    service.on_connect(&mut Network::new(&mut net), 1, &status, &capabilities);
    let refused = service.header_by_number(&mut Network::new(&mut net), by_number(11));
    assert_eq!(wait(refused), Err(Error::NoPeersAvailable));
    service.on_announcement(&mut Network::new(&mut net), 1, |peer: &Peer| Peer {
        status: Status { head_num: peer.status.head_num + 1 },
        capabilities: peer.capabilities,
    });
    let _response = service.header_by_number(&mut Network::new(&mut net), by_number(11));
    assert!(service.pending_request(100).is_some());
}

#[test]
fn invalid_replies_disable_the_peer() {
    let mut net = Net::new(&[1]);
    let mut service = OnDemand::default();
    let (status, capabilities) = full(10);
    service.on_connect(&mut Network::new(&mut net), 1, &status, &capabilities);
    let mut response = service.account(
        &mut Network::new(&mut net),
        request::Account { header: header(4), address: [1; 20] },
    );
    service.on_state_proofs(&mut Network::new(&mut net), 1, 100, &[Vec::new()], |_, _| {
        Err::<BasicAccount, &'static str>("invalid")
    });
    assert_eq!(*net.disabled.borrow(), vec![1]);
    assert!(service.pending_request(100).is_none());
    assert!(service.pending_request(101).is_some());
    assert!(unanswered(&mut response));
}

#[test]
fn missing_replies_are_asked_for_again() {
    let mut net = Net::new(&[1]);
    let mut service = OnDemand::default();
    let (status, capabilities) = full(10);
    service.on_connect(&mut Network::new(&mut net), 1, &status, &capabilities);
    let mut response = service.block(&mut Network::new(&mut net), request::Body { header: header(4), hash: [8; 32] });
    service.on_block_bodies(&mut Network::new(&mut net), 1, 100, &[], |_, _| -> Result<Block, ()> {
        panic!("there is nothing to check")
    });
    assert!(net.disabled.borrow().is_empty());
    assert!(service.pending_request(101).is_some());
    assert!(unanswered(&mut response));
}

#[test]
fn missing_code_cancels_the_request() {
    let mut net = Net::new(&[1]);
    let mut service = OnDemand::default();
    let (status, capabilities) = full(10);
    service.on_connect(&mut Network::new(&mut net), 1, &status, &capabilities);
    let response = service.code(&mut Network::new(&mut net), code_request(4));
    let calls = net.asked.borrow().len();
    let given_up = service.on_code(&mut Network::new(&mut net), 1, 100, &[], |_, _| Ok::<(), ()>(()));
    assert!(service.pending_request(100).is_none());
    assert!(service.pending_request(101).is_none());
    assert_eq!(net.asked.borrow().len(), calls);
    assert!(net.disabled.borrow().is_empty());
    match &given_up {
        Some(Pending::Code(req, _)) => assert_eq!(*req, code_request(4)),
        _ => panic!("the request is given back"),
    }
    drop(given_up);
    assert_eq!(wait(response), Err(Error::Canceled));
    // there is nothing to give up under an id that is not known
    let given_up = service.on_code(&mut Network::new(&mut net), 1, 100, &[], |_, _| Ok::<(), ()>(()));
    assert!(given_up.is_none());
}

#[test]
fn invalid_code_is_asked_for_again() {
    let mut net = Net::new(&[1]);
    let mut service = OnDemand::default();
    let (status, capabilities) = full(10);
    service.on_connect(&mut Network::new(&mut net), 1, &status, &capabilities);
    let _response = service.code(&mut Network::new(&mut net), code_request(4));
    service.on_code(&mut Network::new(&mut net), 1, 100, &[vec![1]], |_, _| Err::<(), ()>(()));
    assert_eq!(*net.disabled.borrow(), vec![1]);
    assert!(service.pending_request(101).is_some());
}

#[test]
fn an_answer_decides_where_a_request_goes() {
    let mut service = OnDemand::default();
    let (sender, _response) = channel();
    let dispatch = Dispatch {
        pending: Pending::HeaderByHash(request::HeaderByHash([1; 32]), sender),
        request: Request::Bodies(Bodies { block_hashes: Vec::new() }),
        candidates: vec![4, 5],
        next: 0,
    };
    let rest = service.answered(dispatch, Err::<ReqId, ()>(())).unwrap();
    assert_eq!(rest.next, 1);
    assert_eq!(rest.candidates, vec![4, 5]);
    assert!(service.answered(rest, Ok::<ReqId, ()>(9)).is_none());
    assert!(service.pending_request(9).is_some());
}

#[test]
fn a_verdict_decides_what_becomes_of_a_request() {
    let mut net = Net::new(&[1]);
    let mut service = OnDemand::default();
    let (sender, response) = channel();
    let pending = Pending::Account(
        request::Account { header: header(4), address: [1; 20] },
        sender,
    );
    service.conclude(&mut Network::new(&mut net), 1, pending, Some(Ok::<Reply, ()>(Reply::Account(account()))));
    assert_eq!(wait(response), Ok(account()));
    let (sender, response) = channel();
    let pending = Pending::HeaderByNumber(by_number(1), sender);
    service.conclude(&mut Network::new(&mut net), 1, pending, Some(Err::<Reply, ()>(())));
    assert_eq!(wait(response), Err(Error::NoPeersAvailable));
    assert_eq!(*net.disabled.borrow(), vec![1]);
}

#[test]
fn a_gone_orphan_is_not_dispatched() {
    let mut service = OnDemand::default();
    let (sender, response) = channel();
    let orphan = Pending::HeaderByNumber(by_number(1), sender);
    let given_up = service.redispatch(&mut Network::new(&mut FakeContext), orphan, true);
    assert!(given_up.is_some());
    drop(given_up);
    assert_eq!(wait(response), Err(Error::Canceled));
    let (sender, response) = channel();
    let orphan = Pending::HeaderByNumber(by_number(1), sender);
    assert!(service.redispatch(&mut Network::new(&mut FakeContext), orphan, false).is_none());
    assert_eq!(wait(response), Err(Error::NoPeersAvailable));
}

#[test]
fn connecting_and_leaving_leaves_no_trace() {
    let mut net = Net::new(&[1]);
    let mut service = OnDemand::default();
    let (status, capabilities) = full(10);
    service.on_connect(&mut Network::new(&mut net), 1, &status, &capabilities);
    service.on_disconnect(&mut Network::new(&mut net), 1, &[]);
    assert!(net.asked.borrow().is_empty());
    let response = service.header_by_number(&mut Network::new(&mut net), by_number(1));
    assert_eq!(wait(response), Err(Error::NoPeersAvailable));
    assert!(net.asked.borrow().is_empty());
}

#[test]
fn a_disconnected_peer_is_not_named_again() {
    let mut net = Net::new(&[1]);
    let mut service = OnDemand::default();
    let (status, capabilities) = full(10);
    for peer in 1..4 {
        service.on_connect(&mut Network::new(&mut net), peer, &status, &capabilities);
    }
    let mut response = service.header_by_number(&mut Network::new(&mut net), by_number(1));
    net.asked.borrow_mut().clear();
    service.on_disconnect(&mut Network::new(&mut net), 1, &[100]);
    assert_eq!(net.asked_peers(), vec![2, 3]);
    assert!(unanswered(&mut response));
}

#[test]
fn refusals_change_nothing() {
    let mut net = Net::new(&[]);
    let mut service = OnDemand::default();
    let (status, capabilities) = full(10);
    service.on_connect(&mut Network::new(&mut net), 1, &status, &capabilities);
    service.on_connect(&mut Network::new(&mut net), 2, &status, &capabilities);
    let mut first = service.header_by_number(&mut Network::new(&mut net), by_number(1));
    let mut second = service.code(&mut Network::new(&mut net), code_request(4));
    for _ in 0..3 {
        net.asked.borrow_mut().clear();
        service.tick(&mut Network::new(&mut net));
        // one call for each orphan and each peer, in the order of the orphans
        assert_eq!(net.asked.borrow().len(), 4);
        assert!(matches!(net.asked.borrow()[1].1, Request::HeaderProofs(_)));
        assert!(matches!(net.asked.borrow()[2].1, Request::Codes(_)));
        assert_eq!(net.asked_peers(), vec![1, 1, 2, 2]);
    }
    assert!(unanswered(&mut first));
    assert!(unanswered(&mut second));
}

#[test]
fn every_orphan_meets_one_fate() {
    let mut net = Net::new(&[]);
    let mut service = OnDemand::default();
    let (status, capabilities) = full(10);
    service.on_connect(&mut Network::new(&mut net), 1, &status, &capabilities);
    let gone = service.header_by_number(&mut Network::new(&mut net), by_number(1));
    let unservable = service.header_by_number(&mut Network::new(&mut net), by_number(9));
    let mut taken = service.header_by_number(&mut Network::new(&mut net), by_number(2));
    let mut refused = service.header_by_hash(
        &mut Network::new(&mut net),
        request::HeaderByHash([8; 32]),
    );
    drop(gone);
    net.asked.borrow_mut().clear();
    // the peer now says that it is not as far along, and takes one request only
    *net.limit.borrow_mut() = 1;
    net.takers.borrow_mut().push(1);
    service.on_announcement(&mut Network::new(&mut net), 1, |peer: &Peer| Peer {
        status: Status { head_num: 5 },
        capabilities: peer.capabilities,
    });
    assert_eq!(wait(unservable), Err(Error::NoPeersAvailable));
    assert!(unanswered(&mut taken));
    assert!(unanswered(&mut refused));
    match service.pending_request(100) {
        Some(Pending::HeaderByNumber(req, _)) => assert_eq!(*req, by_number(2)),
        _ => panic!("the first request that can be served is taken"),
    }
    assert!(service.pending_request(101).is_none());
    assert_eq!(net.asked.borrow().len(), 2);
    // what was refused is still there
    *net.limit.borrow_mut() = 9;
    service.tick(&mut Network::new(&mut net));
    assert!(matches!(service.pending_request(101), Some(Pending::HeaderByHash(_, _))));
    assert_eq!(net.asked.borrow().len(), 3);
    assert!(net.disabled.borrow().is_empty());
}

#[test]
fn calls_reach_the_network() {
    let mut net = Net::new(&[2]);
    let mut network = Network::new(&mut net);
    let request = Request::Bodies(Bodies { block_hashes: vec![[1; 32]] });
    assert_eq!(network.request_from(1, &request), Err("refused"));
    assert_eq!(network.request_from(2, &request), Ok(100));
    network.disable_peer(3);
    assert_eq!(*net.asked.borrow(), vec![(1, request.clone()), (2, request)]);
    assert_eq!(*net.disabled.borrow(), vec![3]);
}

#[test]
fn a_request_that_is_taken_out_waits_no_more() {
    let mut net = Net::new(&[1]);
    let mut service = OnDemand::default();
    let (status, capabilities) = full(10);
    service.on_connect(&mut Network::new(&mut net), 1, &status, &capabilities);
    let response = service.header_by_number(&mut Network::new(&mut net), by_number(1));
    assert!(service.take_request(99).is_none());
    assert!(service.pending_request(100).is_some());
    let taken = service.take_request(100);
    assert!(matches!(taken, Some(Pending::HeaderByNumber(_, _))));
    assert!(service.pending_request(100).is_none());
    drop(taken);
    assert_eq!(wait(response), Err(Error::Canceled));
}

#[test]
fn suitability() {
    let (status, capabilities) = full(10);
    let peer = Peer { status, capabilities };
    let (sender, _response) = channel();
    assert!(Pending::HeaderByNumber(by_number(10), sender).can_be_served_by(&peer));
    let (sender, _response) = channel();
    assert!(!Pending::HeaderByNumber(by_number(11), sender).can_be_served_by(&peer));
    let (sender, _response) = channel();
    assert!(Pending::Code(code_request(10), sender).can_be_served_by(&peer));
    assert!(reaches(Some(3), 3));
    assert!(!reaches(Some(2), 3));
    assert!(!reaches(None, 0));
}

#[test]
fn channels() {
    let (sender, response) = channel::<u8>();
    assert!(!check_hangup(&sender));
    complete(sender, Ok(3));
    assert_eq!(wait(response), Ok(3));
    let (sender, response) = channel::<u8>();
    drop(response);
    assert!(check_hangup(&sender));
    complete(sender, Ok(3));
}

#[test]
fn polling() {
    assert_eq!(Response::<u8>::poll(Ok(Async::NotReady)), Ok(Async::NotReady));
    assert_eq!(Response::<u8>::poll(Ok(Async::Ready(Ok(4)))), Ok(Async::Ready(4)));
    assert_eq!(Response::<u8>::poll(Ok(Async::Ready(Err(Error::TimedOut)))), Err(Error::TimedOut));
    assert_eq!(Response::<u8>::poll(Err(futures::sync::oneshot::Canceled)), Err(Error::Canceled));
    assert_eq!(Error::from(futures::sync::oneshot::Canceled), Error::Canceled);
}

#[test]
fn shuffling_keeps_the_peers() {
    let sorted: Vec<PeerId> = (0..200).collect();
    let mut peers = sorted.clone();
    shuffle(&mut peers);
    assert_ne!(peers, sorted);
    peers.sort();
    assert_eq!(peers, sorted);
}
