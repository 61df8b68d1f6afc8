//! The state of the request service, and how requests move through it.

use crate::les_request::RequestView;
use crate::network::Call;
use crate::peer::Peer;
use crate::pending::{Pending, Reply};
use crate::response::Error;
use crate::shuffle::shuffled;
use crate::types::{PeerId, ReqId};
use vstd::prelude::*;

verus! {

/// The state of the request service.
#[verifier::ext_equal]
pub struct OnDemandView {
    /// The connected peers.
    pub peers: Map<PeerId, Peer>,
    /// The requests that a peer has taken, by the id of the peer's reply.
    pub pending: Map<ReqId, Pending>,
    /// The requests that no peer has taken, in the order in which they came.
    pub orphaned: Seq<Pending>,
}

impl OnDemandView {
    /// The peer is connected, and claims that it can serve the request.
    pub open spec fn suitable(self, peer: PeerId, pending: Pending) -> bool {
        self.peers.contains_key(peer) && pending.suits(self.peers[peer])
    }

    /// Some connected peer claims that it can serve the request.
    pub open spec fn servable(self, pending: Pending) -> bool {
        exists|peer: PeerId| self.suitable(peer, pending)
    }

    /// The peers that can serve the request, each once, in some order.
    pub open spec fn is_order_of_suitable(self, order: Seq<PeerId>, pending: Pending) -> bool {
        &&& order.no_duplicates()
        &&& forall|peer: PeerId| #[trigger]
            order.contains(peer) <==> self.suitable(peer, pending)
    }

    /// The order in which peers are asked: any for most requests, but one drawn at
    /// random for a header by hash, because a hash does not tell which peers might have
    /// the header.
    pub open spec fn is_asking_order(self, order: Seq<PeerId>, pending: Pending) -> bool {
        &&& self.is_order_of_suitable(order, pending)
        &&& pending is HeaderByHash ==> exists|found: Seq<PeerId>|
            self.is_order_of_suitable(found, pending) && #[trigger] shuffled(found, order)
    }

    /// A peer has taken the request under this id. Whatever waited under it before is
    /// dropped.
    pub open spec fn assigned(self, id: ReqId, pending: Pending) -> OnDemandView {
        OnDemandView { pending: self.pending.insert(id, pending), ..self }
    }

    /// No peer has taken the request.
    pub open spec fn orphaning(self, pending: Pending) -> OnDemandView {
        OnDemandView { orphaned: self.orphaned.push(pending), ..self }
    }

    /// No request waits under this id any more.
    pub open spec fn without_request(self, id: ReqId) -> OnDemandView {
        OnDemandView { pending: self.pending.remove(id), ..self }
    }

    /// The peer is connected.
    pub open spec fn with_peer(self, id: PeerId, peer: Peer) -> OnDemandView {
        OnDemandView { peers: self.peers.insert(id, peer), ..self }
    }

    /// The peer is not connected any more.
    pub open spec fn without_peer(self, id: PeerId) -> OnDemandView {
        OnDemandView { peers: self.peers.remove(id), ..self }
    }

    /// The requests under the given ids are orphaned, in the order of the ids. An id
    /// under which nothing waits is passed over.
    pub open spec fn reclaimed(self, ids: Seq<ReqId>) -> OnDemandView
        decreases ids.len(),
    {
        if ids.len() == 0 {
            self
        } else {
            let before = self.reclaimed(ids.drop_last());
            let id = ids.last();
            if before.pending.contains_key(id) {
                before.without_request(id).orphaning(before.pending[id])
            } else {
                before
            }
        }
    }

    /// Nothing is orphaned.
    pub open spec fn without_orphans(self) -> OnDemandView {
        OnDemandView { orphaned: Seq::empty(), ..self }
    }
}

/// The calls by which the first peers of `order` are asked for the same, one after the
/// other, and answered by `answers`.
pub open spec fn asking<E>(
    order: Seq<PeerId>,
    request: RequestView,
    answers: Seq<Result<ReqId, E>>,
) -> Seq<Call<E>> {
    Seq::new(answers.len(), |i: int| Call::Asked(order[i], request, answers[i]))
}

/// The request was offered to the suitable peers in this order, one after the other,
/// until one took it. `answers` holds what the network answered, in that order, and no
/// other calls were made. The request then waits under the id of the last answer, or is
/// orphaned if every suitable peer was asked in vain.
pub open spec fn offered<E>(
    before: OnDemandView,
    after: OnDemandView,
    pending: Pending,
    calls: Seq<Call<E>>,
    order: Seq<PeerId>,
    answers: Seq<Result<ReqId, E>>,
) -> bool {
    &&& before.is_asking_order(order, pending)
    &&& 1 <= answers.len() <= order.len()
    &&& calls == asking(order, pending.les_request(), answers)
    &&& forall|i: int| 0 <= i < answers.len() - 1 ==> #[trigger] answers[i] is Err
    &&& match answers.last() {
        Ok(id) => after == before.assigned(id, pending),
        Err(_) => answers.len() == order.len() && after == before.orphaning(pending),
    }
}

/// The request was dispatched: offered to the peers that can serve it if there are
/// any, and otherwise answered with [`Error::NoPeersAvailable`] without asking anyone.
/// `calls` are the calls that were made on the network.
pub open spec fn dispatched<E>(
    before: OnDemandView,
    after: OnDemandView,
    pending: Pending,
    calls: Seq<Call<E>>,
) -> bool {
    if before.servable(pending) {
        exists|order: Seq<PeerId>, answers: Seq<Result<ReqId, E>>|
            offered(before, after, pending, calls, order, answers)
    } else {
        &&& pending.completed(Err(Error::NoPeersAvailable))
        &&& after == before
        &&& calls.len() == 0
    }
}

/// An orphaned request was discarded without asking anyone if its caller was seen to be
/// gone, and dispatched again otherwise.
pub open spec fn redispatched<E>(
    before: OnDemandView,
    after: OnDemandView,
    orphan: Pending,
    gone: bool,
    calls: Seq<Call<E>>,
) -> bool {
    if gone {
        after == before && calls.len() == 0
    } else {
        dispatched(before, after, orphan, calls)
    }
}

/// How the orphaned requests were redispatched, one after the other.
pub struct Round<E> {
    /// For each, whether its caller was seen to be gone.
    pub gone: Seq<bool>,
    /// For each, the calls that were made on its behalf.
    pub calls: Seq<Seq<Call<E>>>,
    /// The states before the first, between two, and after the last.
    pub states: Seq<OnDemandView>,
}

/// The orphaned requests were taken out and redispatched one after the other, in
/// their order, and no other calls were made.
pub open spec fn orphans_followed<E>(
    before: OnDemandView,
    after: OnDemandView,
    calls: Seq<Call<E>>,
    round: Round<E>,
) -> bool {
    &&& round.gone.len() == before.orphaned.len()
    &&& round.calls.len() == before.orphaned.len()
    &&& round.states.len() == before.orphaned.len() + 1
    &&& round.states[0] == before.without_orphans()
    &&& round.states.last() == after
    &&& calls == round.calls.flatten()
    &&& forall|i: int|
        0 <= i < before.orphaned.len() ==> (#[trigger] before.orphaned[i]).hangup_seen(
            round.gone[i],
        ) && redispatched(
            round.states[i],
            round.states[i + 1],
            before.orphaned[i],
            round.gone[i],
            round.calls[i],
        )
}

/// All orphaned requests were redispatched. `calls` are the calls that were made on the
/// network.
pub open spec fn orphans_dispatched<E>(
    before: OnDemandView,
    after: OnDemandView,
    calls: Seq<Call<E>>,
) -> bool {
    exists|round: Round<E>| orphans_followed(before, after, calls, round)
}

/// A request that was taken out of the state `before` was concluded: answered if its
/// reply was found valid, dispatched again if there was no reply, and dispatched
/// again after the peer was disabled if the reply was found invalid. `calls` are the
/// calls that were made on the network.
pub open spec fn concluded<N, E>(
    before: OnDemandView,
    after: OnDemandView,
    peer: PeerId,
    pending: Pending,
    verdict: Option<Result<Reply, E>>,
    calls: Seq<Call<N>>,
) -> bool {
    match verdict {
        Some(Ok(reply)) => {
            &&& pending.completed(Ok(reply))
            &&& after == before
            &&& calls.len() == 0
        },
        Some(Err(_)) => {
            &&& calls.len() > 0
            &&& calls[0] == Call::<N>::Disabled(peer)
            &&& dispatched(before, after, pending, calls.skip(1))
        },
        None => dispatched(before, after, pending, calls),
    }
}

} // verus!
