//! What holds of the request service as a whole.

use crate::network::Call;
use crate::peer::Peer;
use crate::pending::{Pending, Reply};
use crate::response::Error;
use crate::state::{
    concluded, dispatched, offered, orphans_dispatched, orphans_followed, redispatched,
    OnDemandView, Round,
};
use crate::types::{PeerId, ReqId};
use vstd::prelude::*;

verus! {

/// The request is held: it waits for a peer's reply, or is orphaned.
pub open spec fn holds(state: OnDemandView, pending: Pending) -> bool {
    ||| exists|id: ReqId| #[trigger] state.pending.contains_key(id) && state.pending[id] == pending
    ||| state.orphaned.contains(pending)
}

/// How many requests are held.
pub open spec fn held(state: OnDemandView) -> nat {
    state.pending.dom().len() + state.orphaned.len()
}

/// Every orphaned request could be served by some connected peer.
pub open spec fn orphans_servable(state: OnDemandView) -> bool {
    forall|i: int| 0 <= i < state.orphaned.len() ==> state.servable(#[trigger] state.orphaned[i])
}

/// The first sequence is what is left of the second when some items are taken out.
pub open spec fn is_remainder<A>(rest: Seq<A>, all: Seq<A>) -> bool {
    exists|at: Seq<int>| picks(rest, all, at)
}

/// The items of `rest` stand in `all` at the ascending positions `at`.
pub open spec fn picks<A>(rest: Seq<A>, all: Seq<A>, at: Seq<int>) -> bool {
    &&& at.len() == rest.len()
    &&& forall|i: int| 0 <= i < at.len() ==> 0 <= #[trigger] at[i] < all.len() && all[at[i]] == rest[i]
    &&& forall|i: int, j: int| 0 <= i < j < at.len() ==> #[trigger] at[i] < #[trigger] at[j]
}

/// The call asks a peer that can serve the request for what the request is after.
pub open spec fn serves<N>(state: OnDemandView, pending: Pending, call: Call<N>) -> bool {
    call matches Call::Asked(peer, request, _) && state.suitable(peer, pending) && request
        == pending.les_request()
}

/// No two of the calls are about the same peer.
pub open spec fn peers_differ<N>(calls: Seq<Call<N>>) -> bool {
    forall|i: int, j: int, peer: PeerId|
        0 <= i < j < calls.len() && #[trigger] calls[i].names(peer)
            ==> !#[trigger] calls[j].names(peer)
}

/// Which peers can serve a request depends on the connected peers alone.
proof fn lemma_same_peers(s: OnDemandView, t: OnDemandView, pending: Pending)
    requires
        s.peers == t.peers,
    ensures
        forall|peer: PeerId| #[trigger] s.suitable(peer, pending) <==> t.suitable(peer, pending),
        s.servable(pending) <==> t.servable(pending),
{
    assert forall|peer: PeerId| #[trigger] s.suitable(peer, pending) <==> t.suitable(
        peer,
        pending,
    ) by {}
    if s.servable(pending) {
        let peer = choose|peer: PeerId| s.suitable(peer, pending);
        assert(t.suitable(peer, pending));
    }
    if t.servable(pending) {
        let peer = choose|peer: PeerId| t.suitable(peer, pending);
        assert(s.suitable(peer, pending));
    }
}

/// A peer is asked only if it is connected and claims that it can serve the request, it
/// is asked for what the request is after, and no peer is asked twice. Nobody is asked
/// any more once one has taken the request, and nobody is disabled.
pub proof fn law_only_suitable_peers_are_asked<N>(
    before: OnDemandView,
    after: OnDemandView,
    pending: Pending,
    calls: Seq<Call<N>>,
)
    requires
        dispatched(before, after, pending, calls),
    ensures
        forall|i: int| 0 <= i < calls.len() ==> serves(before, pending, #[trigger] calls[i]),
        peers_differ(calls),
        forall|i: int| 0 <= i < calls.len() - 1 ==> (#[trigger] calls[i]).is_refusal(),
{
    if before.servable(pending) {
        let (order, answers) = choose|order: Seq<PeerId>, answers: Seq<Result<ReqId, N>>|
            offered(before, after, pending, calls, order, answers);
        assert forall|i: int| 0 <= i < calls.len() implies serves(
            before,
            pending,
            #[trigger] calls[i],
        ) by {
            assert(order.contains(order[i]));
        }
        assert forall|i: int| 0 <= i < calls.len() - 1 implies (
        #[trigger] calls[i]).is_refusal() by {
            assert(answers[i] is Err);
        }
    }
}

/// A request that is taken was asked for last of the peer that took it, under the id that
/// it now waits under. A request that is not taken was refused by every peer that can
/// serve it.
pub proof fn law_last_answer_decides<N>(
    before: OnDemandView,
    after: OnDemandView,
    pending: Pending,
    calls: Seq<Call<N>>,
)
    requires
        dispatched(before, after, pending, calls),
        before.servable(pending),
    ensures
        calls.len() > 0,
        match calls.last() {
            Call::Asked(_, _, Ok(id)) => after == before.assigned(id, pending),
            _ => after == before.orphaning(pending) && forall|peer: PeerId| #[trigger]
                before.suitable(peer, pending) ==> exists|i: int|
                    0 <= i < calls.len() && #[trigger] calls[i].names(peer)
                        && calls[i].is_refusal(),
        },
{
    let (order, answers) = choose|order: Seq<PeerId>, answers: Seq<Result<ReqId, N>>|
        offered(before, after, pending, calls, order, answers);
    assert(calls.last() == Call::Asked(
        order[answers.len() - 1],
        pending.les_request(),
        answers.last(),
    ));
    if answers.last() is Err {
        assert forall|peer: PeerId| #[trigger] before.suitable(peer, pending) implies exists|i: int|
            0 <= i < calls.len() && #[trigger] calls[i].names(peer) && calls[i].is_refusal() by {
            assert(order.contains(peer));
            let i = choose|i: int| 0 <= i < order.len() && order[i] == peer;
            assert(answers[i] is Err);
            assert(calls[i].names(peer));
        }
    }
}

/// A request is orphaned only after every peer that can serve it was asked and has
/// refused it.
pub proof fn law_orphaned_only_if_every_suitable_peer_refused<N>(
    before: OnDemandView,
    after: OnDemandView,
    pending: Pending,
    calls: Seq<Call<N>>,
)
    requires
        dispatched(before, after, pending, calls),
        after.orphaned != before.orphaned,
    ensures
        after == before.orphaning(pending),
        before.servable(pending),
        forall|peer: PeerId| #[trigger]
            before.suitable(peer, pending) ==> exists|i: int|
                0 <= i < calls.len() && #[trigger] calls[i].names(peer) && calls[i].is_refusal(),
{
    law_last_answer_decides(before, after, pending, calls);
}

/// A request that no connected peer can serve is answered with
/// [`Error::NoPeersAvailable`], nobody is asked, and it leaves no trace. With no peers at
/// all that goes for every request.
pub proof fn law_no_peers<N>(
    before: OnDemandView,
    after: OnDemandView,
    pending: Pending,
    calls: Seq<Call<N>>,
)
    requires
        dispatched(before, after, pending, calls),
        before.peers == Map::<PeerId, Peer>::empty() || !before.servable(pending),
    ensures
        pending.completed(Err(Error::NoPeersAvailable)),
        after == before,
        calls.len() == 0,
{
}

/// A request that some connected peer can serve is held after it was dispatched, no
/// matter what the network answers.
pub proof fn law_servable_requests_are_held<N>(
    before: OnDemandView,
    after: OnDemandView,
    pending: Pending,
    calls: Seq<Call<N>>,
)
    requires
        dispatched(before, after, pending, calls),
        before.servable(pending),
    ensures
        holds(after, pending),
{
    let (order, answers) = choose|order: Seq<PeerId>, answers: Seq<Result<ReqId, N>>|
        offered(before, after, pending, calls, order, answers);
    match answers.last() {
        Ok(id) => {
            assert(after.pending.contains_key(id));
        },
        Err(_) => {
            assert(after.orphaned.last() == pending);
        },
    }
}

/// Dispatching a request touches no other: the peers stay, the orphaned requests stay
/// in their places, and so does each waiting request, but for one whose id the network
/// hands out anew.
pub proof fn law_dispatch_touches_nothing_else<N>(
    before: OnDemandView,
    after: OnDemandView,
    pending: Pending,
    calls: Seq<Call<N>>,
)
    requires
        dispatched(before, after, pending, calls),
    ensures
        after.peers == before.peers,
        before.orphaned.is_prefix_of(after.orphaned),
        forall|id: ReqId| #[trigger]
            before.pending.contains_key(id) ==> after.pending.contains_key(id) && (
            after.pending[id] == before.pending[id] || after.pending[id] == pending),
        forall|id: ReqId| #[trigger]
            after.pending.contains_key(id) && !before.pending.contains_key(id)
                ==> after.pending[id] == pending,
{
    if before.servable(pending) {
        law_last_answer_decides(before, after, pending, calls);
    }
}

/// No request is lost or made twice: a servable request that is dispatched is held as
/// one more, provided that the network hands out no id under which a request waits.
pub proof fn law_one_more_is_held<N>(
    before: OnDemandView,
    after: OnDemandView,
    pending: Pending,
    calls: Seq<Call<N>>,
)
    requires
        before.pending.dom().finite(),
        dispatched(before, after, pending, calls),
        before.servable(pending),
        calls.last() matches Call::Asked(_, _, Ok(id)) ==> !before.pending.contains_key(id),
    ensures
        after.pending.dom().finite(),
        held(after) == held(before) + 1,
{
    law_last_answer_decides(before, after, pending, calls);
}

/// A waiting request and what the peer was asked for belong together: the request that
/// waits under an id is the one for which the network handed out that id.
pub proof fn law_id_belongs_to_what_was_asked<N>(
    before: OnDemandView,
    after: OnDemandView,
    pending: Pending,
    calls: Seq<Call<N>>,
    id: ReqId,
)
    requires
        dispatched(before, after, pending, calls),
        after.pending.contains_key(id),
        !before.pending.contains_key(id) || after.pending[id] != before.pending[id],
    ensures
        after.pending[id] == pending,
        calls.len() > 0,
        calls.last() matches Call::Asked(peer, request, answer) && before.suitable(peer, pending)
            && request == after.pending[id].les_request() && answer == Ok::<ReqId, N>(id),
{
    law_last_answer_decides(before, after, pending, calls);
    law_only_suitable_peers_are_asked(before, after, pending, calls);
    assert(serves(before, pending, calls[calls.len() - 1]));
}

/// What a peer is asked for tells the kind of the request, and the other way round.
/// So a reply of the kind that was asked for always meets a request of that kind.
pub proof fn law_request_kinds_match(pending: Pending)
    ensures
        pending.les_request() is HeaderProofs <==> pending is HeaderByNumber,
        pending.les_request() is Headers <==> pending is HeaderByHash,
        pending.les_request() is Bodies <==> pending is Block,
        pending.les_request() is Receipts <==> pending is BlockReceipts,
        pending.les_request() is StateProofs <==> pending is Account,
        pending.les_request() is Codes <==> pending is Code,
{
}

/// A request is only ever answered with a reply of its own kind.
pub proof fn law_answers_are_of_the_kind(pending: Pending, reply: Reply)
    requires
        pending.completed(Ok(reply)),
    ensures
        reply.answers(pending),
{
}

/// A request that was answered does not wait any more: a second reply under its id
/// finds nothing. Nobody is asked or disabled.
pub proof fn law_answered_once<N, E>(
    before: OnDemandView,
    after: OnDemandView,
    peer: PeerId,
    id: ReqId,
    reply: Reply,
    calls: Seq<Call<N>>,
)
    requires
        concluded(
            before.without_request(id),
            after,
            peer,
            before.pending[id],
            Some(Ok::<Reply, E>(reply)),
            calls,
        ),
    ensures
        !after.pending.contains_key(id),
        after.orphaned == before.orphaned,
        after.peers == before.peers,
        calls.len() == 0,
{
}

/// A peer is disabled if its reply was found invalid, and only then: once, and before
/// anyone is asked again. No other peer is disabled.
pub proof fn law_only_invalid_replies_disable<N, E>(
    before: OnDemandView,
    after: OnDemandView,
    peer: PeerId,
    pending: Pending,
    verdict: Option<Result<Reply, E>>,
    calls: Seq<Call<N>>,
)
    requires
        concluded(before, after, peer, pending, verdict, calls),
    ensures
        verdict matches Some(Err(_)) ==> calls.len() > 0 && calls[0] == Call::<N>::Disabled(peer),
        forall|i: int|
            0 <= i < calls.len() ==> (#[trigger] calls[i] is Disabled <==> i == 0 && (
            verdict matches Some(Err(_)))),
{
    match verdict {
        Some(Ok(_)) => {},
        Some(Err(_)) => {
            let rest = calls.skip(1);
            law_only_suitable_peers_are_asked(before, after, pending, rest);
            assert forall|i: int| 0 <= i < calls.len() implies (#[trigger] calls[i] is Disabled
                <==> i == 0) by {
                if i > 0 {
                    assert(calls[i] == rest[i - 1]);
                    assert(serves(before, pending, rest[i - 1]));
                }
            }
        },
        None => {
            law_only_suitable_peers_are_asked(before, after, pending, calls);
            assert forall|i: int| 0 <= i < calls.len() implies !(#[trigger] calls[i] is Disabled) by {
                assert(serves(before, pending, calls[i]));
            }
        },
    }
}

/// A request whose reply was missing or found invalid is not given up: it is held again,
/// or answered with [`Error::NoPeersAvailable`] if no connected peer can serve it.
pub proof fn law_invalid_replies_are_retried<N, E>(
    before: OnDemandView,
    after: OnDemandView,
    peer: PeerId,
    pending: Pending,
    verdict: Option<Result<Reply, E>>,
    calls: Seq<Call<N>>,
)
    requires
        concluded(before, after, peer, pending, verdict, calls),
        !(verdict matches Some(Ok(_))),
    ensures
        before.servable(pending) ==> holds(after, pending),
        !before.servable(pending) ==> pending.completed(Err(Error::NoPeersAvailable)),
{
    let dispatch = if verdict is None {
        calls
    } else {
        calls.skip(1)
    };
    if before.servable(pending) {
        law_servable_requests_are_held(before, after, pending, dispatch);
    }
}

/// A dispatch leaves the orphaned requests servable.
pub proof fn law_dispatch_keeps_orphans_servable<N>(
    before: OnDemandView,
    after: OnDemandView,
    pending: Pending,
    calls: Seq<Call<N>>,
)
    requires
        dispatched(before, after, pending, calls),
        orphans_servable(before),
    ensures
        orphans_servable(after),
{
    law_dispatch_touches_nothing_else(before, after, pending, calls);
    assert forall|i: int| 0 <= i < after.orphaned.len() implies after.servable(
        #[trigger] after.orphaned[i],
    ) by {
        lemma_same_peers(before, after, after.orphaned[i]);
        if i < before.orphaned.len() {
            assert(after.orphaned[i] == before.orphaned[i]);
        } else {
            law_orphaned_only_if_every_suitable_peer_refused(before, after, pending, calls);
        }
    }
}

/// A reply leaves the orphaned requests servable, whatever was found of it.
pub proof fn law_replies_keep_orphans_servable<N, E>(
    before: OnDemandView,
    after: OnDemandView,
    peer: PeerId,
    id: ReqId,
    verdict: Option<Result<Reply, E>>,
    calls: Seq<Call<N>>,
)
    requires
        concluded(before.without_request(id), after, peer, before.pending[id], verdict, calls),
        orphans_servable(before),
    ensures
        orphans_servable(after),
{
    let taken = before.without_request(id);
    assert forall|i: int| 0 <= i < taken.orphaned.len() implies taken.servable(
        #[trigger] taken.orphaned[i],
    ) by {
        lemma_same_peers(before, taken, before.orphaned[i]);
    }
    match verdict {
        Some(Ok(_)) => {},
        Some(Err(_)) => {
            law_dispatch_keeps_orphans_servable(taken, after, before.pending[id], calls.skip(1));
        },
        None => {
            law_dispatch_keeps_orphans_servable(taken, after, before.pending[id], calls);
        },
    }
}

/// What holds after the first `n` orphaned requests were redispatched.
proof fn lemma_followed<N>(
    before: OnDemandView,
    after: OnDemandView,
    calls: Seq<Call<N>>,
    round: Round<N>,
    n: int,
)
    requires
        orphans_followed(before, after, calls, round),
        0 <= n <= before.orphaned.len(),
    ensures
        round.states[n].peers == before.peers,
        orphans_servable(round.states[n]),
        is_remainder(round.states[n].orphaned, before.orphaned.take(n)),
        forall|id: ReqId| #[trigger]
            before.pending.contains_key(id) ==> round.states[n].pending.contains_key(id),
        forall|id: ReqId| #[trigger]
            round.states[n].pending.contains_key(id) ==> (before.pending.contains_key(id)
                && round.states[n].pending[id] == before.pending[id]) || before.orphaned.contains(
                round.states[n].pending[id],
            ),
    decreases n,
{
    if n == 0 {
        assert(picks(round.states[0].orphaned, before.orphaned.take(0), Seq::empty()));
    } else {
        lemma_followed(before, after, calls, round, n - 1);
        let (s, t) = (round.states[n - 1], round.states[n]);
        let orphan = before.orphaned[n - 1];
        let made = round.calls[n - 1];
        assert(redispatched(s, round.states[n - 1 + 1], orphan, round.gone[n - 1], made));
        let taken = before.orphaned.take(n - 1);
        let at = choose|at: Seq<int>| picks(s.orphaned, taken, at);
        if t == s {
            assert(picks(t.orphaned, before.orphaned.take(n), at));
        } else {
            law_dispatch_touches_nothing_else(s, t, orphan, made);
            law_dispatch_keeps_orphans_servable(s, t, orphan, made);
            assert(before.orphaned.contains(orphan));
            if t.orphaned == s.orphaned {
                assert(picks(t.orphaned, before.orphaned.take(n), at));
            } else {
                law_orphaned_only_if_every_suitable_peer_refused(s, t, orphan, made);
                assert(picks(t.orphaned, before.orphaned.take(n), at.push(n - 1)));
            }
        }
    }
}

/// Redispatching the orphaned requests leaves the peers alone and takes no request off
/// the waiting ones. What is orphaned afterwards was orphaned before, in the same order,
/// and each of those requests can be served by some connected peer. What waits anew was
/// orphaned before.
pub proof fn law_orphans_dispatched<N>(
    before: OnDemandView,
    after: OnDemandView,
    calls: Seq<Call<N>>,
)
    requires
        orphans_dispatched(before, after, calls),
    ensures
        after.peers == before.peers,
        orphans_servable(after),
        is_remainder(after.orphaned, before.orphaned),
        forall|id: ReqId| #[trigger]
            before.pending.contains_key(id) ==> after.pending.contains_key(id),
        forall|id: ReqId| #[trigger]
            after.pending.contains_key(id) ==> (before.pending.contains_key(id)
                && after.pending[id] == before.pending[id]) || before.orphaned.contains(
                after.pending[id],
            ),
{
    let round = choose|round: Round<N>| orphans_followed(before, after, calls, round);
    lemma_followed(before, after, calls, round, before.orphaned.len() as int);
    assert(before.orphaned.take(before.orphaned.len() as int) =~= before.orphaned);
}

/// Without orphaned requests there is nothing to redispatch: nobody is asked, and nothing
/// changes.
pub proof fn law_no_orphans_no_calls<N>(
    before: OnDemandView,
    after: OnDemandView,
    calls: Seq<Call<N>>,
)
    requires
        orphans_dispatched(before, after, calls),
        before.orphaned.len() == 0,
    ensures
        after == before,
        calls.len() == 0,
{
    assert(before.without_orphans() =~= before);
}

/// On behalf of an orphaned request, nobody is asked if its caller was seen to be gone.
/// Otherwise only connected peers are asked that can serve it, each for what the request
/// is after, and none twice.
pub proof fn law_calls_for_an_orphan<N>(
    before: OnDemandView,
    after: OnDemandView,
    calls: Seq<Call<N>>,
    round: Round<N>,
    n: int,
)
    requires
        orphans_followed(before, after, calls, round),
        0 <= n < before.orphaned.len(),
    ensures
        before.orphaned[n].hangup_seen(round.gone[n]),
        round.gone[n] ==> round.calls[n].len() == 0,
        forall|k: int|
            0 <= k < round.calls[n].len() ==> serves(
                before,
                before.orphaned[n],
                #[trigger] round.calls[n][k],
            ),
        peers_differ(round.calls[n]),
{
    lemma_followed(before, after, calls, round, n);
    let (s, orphan) = (round.states[n], before.orphaned[n]);
    assert(redispatched(s, round.states[n + 1], orphan, round.gone[n], round.calls[n]));
    if !round.gone[n] {
        law_only_suitable_peers_are_asked(s, round.states[n + 1], orphan, round.calls[n]);
        lemma_same_peers(s, before, orphan);
        assert forall|k: int| 0 <= k < round.calls[n].len() implies serves(
            before,
            orphan,
            #[trigger] round.calls[n][k],
        ) by {
            assert(serves(s, orphan, round.calls[n][k]));
        }
    }
}

/// The item stands in one of the parts.
spec fn stands_in<A>(parts: Seq<Seq<A>>, item: A) -> bool {
    exists|n: int, k: int|
        0 <= n < parts.len() && 0 <= k < parts[n].len() && #[trigger] parts[n][k] == item
}

/// What stands in the whole stands in one of the parts, and the other way round.
proof fn lemma_flattened<A>(parts: Seq<Seq<A>>, item: A)
    ensures
        parts.flatten().contains(item) <==> stands_in(parts, item),
    decreases parts.len(),
{
    if parts.len() > 0 {
        let rest = parts.drop_last();
        let last = parts.last();
        lemma_flattened(rest, item);
        rest.lemma_flatten_push(last);
        assert(rest.push(last) =~= parts);
        let whole = rest.flatten() + last;
        assert(parts.flatten() == whole);
        if whole.contains(item) {
            let i = choose|i: int| 0 <= i < whole.len() && whole[i] == item;
            if i < rest.flatten().len() {
                assert(rest.flatten().contains(rest.flatten()[i]));
                let (n, k) = choose|n: int, k: int|
                    0 <= n < rest.len() && 0 <= k < rest[n].len() && #[trigger] rest[n][k] == item;
                assert(parts[n][k] == item);
            } else {
                assert(parts[parts.len() - 1][i - rest.flatten().len()] == item);
            }
        }
        if stands_in(parts, item) {
            let (n, k) = choose|n: int, k: int|
                0 <= n < parts.len() && 0 <= k < parts[n].len() && #[trigger] parts[n][k] == item;
            if n < rest.len() {
                assert(rest[n][k] == item);
                let i = choose|i: int| 0 <= i < rest.flatten().len() && rest.flatten()[i] == item;
                assert(whole[i] == item);
            } else {
                assert(whole[rest.flatten().len() + k] == item);
            }
        }
    }
}

/// The call asks a peer that can serve some orphaned request for what that is after.
pub open spec fn serves_an_orphan<N>(state: OnDemandView, call: Call<N>) -> bool {
    exists|n: int|
        0 <= n < state.orphaned.len() && serves(state, #[trigger] state.orphaned[n], call)
}

/// Redispatching disables nobody. A peer is asked only on behalf of an orphaned request,
/// for what that request is after, and only if it is connected and can serve it.
pub proof fn law_orphans_go_to_suitable_peers<N>(
    before: OnDemandView,
    after: OnDemandView,
    calls: Seq<Call<N>>,
)
    requires
        orphans_dispatched(before, after, calls),
    ensures
        forall|i: int| 0 <= i < calls.len() ==> serves_an_orphan(before, #[trigger] calls[i]),
{
    let round = choose|round: Round<N>| orphans_followed(before, after, calls, round);
    assert forall|i: int| 0 <= i < calls.len() implies serves_an_orphan(
        before,
        #[trigger] calls[i],
    ) by {
        lemma_flattened(round.calls, calls[i]);
        assert(calls.contains(calls[i]));
        let (n, k) = choose|n: int, k: int|
            0 <= n < round.calls.len() && 0 <= k < round.calls[n].len()
                && #[trigger] round.calls[n][k] == calls[i];
        law_calls_for_an_orphan(before, after, calls, round, n);
        assert(serves(before, before.orphaned[n], round.calls[n][k]));
    }
}

/// Redispatching comes to an end: at most one call is made for each orphaned request and
/// each connected peer.
pub proof fn law_calls_are_bounded<N>(
    before: OnDemandView,
    after: OnDemandView,
    calls: Seq<Call<N>>,
)
    requires
        before.peers.dom().finite(),
        orphans_dispatched(before, after, calls),
    ensures
        calls.len() <= before.orphaned.len() * before.peers.dom().len(),
{
    let round = choose|round: Round<N>| orphans_followed(before, after, calls, round);
    assert forall|n: int| 0 <= n < round.calls.len() implies (#[trigger] round.calls[n]).len()
        <= before.peers.dom().len() by {
        law_calls_for_an_orphan(before, after, calls, round, n);
        lemma_few_peers(before, before.orphaned[n], round.calls[n]);
    }
    round.calls.lemma_flatten_length_le_mul(before.peers.dom().len() as int);
    round.calls.lemma_flatten_and_flatten_alt_are_equivalent();
}

/// Calls that are about different connected peers are no more than there are peers.
proof fn lemma_few_peers<N>(state: OnDemandView, pending: Pending, calls: Seq<Call<N>>)
    requires
        state.peers.dom().finite(),
        forall|k: int| 0 <= k < calls.len() ==> serves(state, pending, #[trigger] calls[k]),
        peers_differ(calls),
    ensures
        calls.len() <= state.peers.dom().len(),
{
    let asked = Seq::new(calls.len(), |k: int| calls[k]->Asked_0);
    assert forall|i: int, j: int| 0 <= i < j < asked.len() implies asked[i] != asked[j] by {
        assert(serves(state, pending, calls[i]));
        assert(serves(state, pending, calls[j]));
        assert(calls[i].names(asked[i]));
        assert(calls[j].names(asked[j]));
    }
    asked.unique_seq_to_set();
    assert forall|peer: PeerId| asked.to_set().contains(peer) implies state.peers.dom().contains(
        peer,
    ) by {
        let k = choose|k: int| 0 <= k < asked.len() && asked[k] == peer;
        assert(serves(state, pending, calls[k]));
    }
    vstd::set_lib::lemma_len_subset(asked.to_set(), state.peers.dom());
}

/// No orphaned request is passed over: each was discarded because its caller was seen to
/// be gone, or dispatched because its caller was seen to be there.
pub proof fn law_every_orphan_is_seen_to<N>(
    before: OnDemandView,
    after: OnDemandView,
    calls: Seq<Call<N>>,
    orphan: Pending,
)
    requires
        orphans_dispatched(before, after, calls),
        before.orphaned.contains(orphan),
    ensures
        orphan.hangup_seen(true) || (orphan.hangup_seen(false) && exists|
            s: OnDemandView,
            t: OnDemandView,
            made: Seq<Call<N>>,
        |
            s.peers == before.peers && #[trigger] dispatched(s, t, orphan, made)),
{
    let round = choose|round: Round<N>| orphans_followed(before, after, calls, round);
    let i = choose|i: int| 0 <= i < before.orphaned.len() && before.orphaned[i] == orphan;
    lemma_followed(before, after, calls, round, i);
    assert(before.orphaned[i].hangup_seen(round.gone[i]));
}

/// An orphaned request whose caller is there and which no connected peer can serve is
/// answered with [`Error::NoPeersAvailable`].
pub proof fn law_unservable_orphans_are_answered<N>(
    before: OnDemandView,
    after: OnDemandView,
    calls: Seq<Call<N>>,
    orphan: Pending,
)
    requires
        orphans_dispatched(before, after, calls),
        before.orphaned.contains(orphan),
        !before.servable(orphan),
    ensures
        orphan.hangup_seen(true) || orphan.completed(Err(Error::NoPeersAvailable)),
{
    law_every_orphan_is_seen_to(before, after, calls, orphan);
    if !orphan.hangup_seen(true) {
        let (s, t, made) = choose|s: OnDemandView, t: OnDemandView, made: Seq<Call<N>>|
            s.peers == before.peers && #[trigger] dispatched(s, t, orphan, made);
        lemma_same_peers(before, s, orphan);
    }
}

/// Reclaiming takes exactly the given ids off the waiting requests, and orphans what
/// waited there, behind what was orphaned already. No request is lost or made twice.
pub proof fn law_reclaimed(before: OnDemandView, ids: Seq<ReqId>)
    ensures
        ({
            let after = before.reclaimed(ids);
            &&& after.peers == before.peers
            &&& before.orphaned.is_prefix_of(after.orphaned)
            &&& forall|id: ReqId| #[trigger]
                after.pending.contains_key(id) <==> before.pending.contains_key(id)
                    && !ids.contains(id)
            &&& forall|id: ReqId| #[trigger]
                after.pending.contains_key(id) ==> after.pending[id] == before.pending[id]
            &&& forall|id: ReqId| #[trigger]
                before.pending.contains_key(id) && ids.contains(id) ==> after.orphaned.contains(
                    before.pending[id],
                )
            &&& before.pending.dom().finite() ==> after.pending.dom().finite() && held(after)
                == held(before)
        }),
    decreases ids.len(),
{
    if ids.len() > 0 {
        let rest = ids.drop_last();
        let last = ids.last();
        law_reclaimed(before, rest);
        let (s, after) = (before.reclaimed(rest), before.reclaimed(ids));
        assert forall|id: ReqId| ids.contains(id) <==> rest.contains(id) || id == last by {
            if ids.contains(id) {
                let i = choose|i: int| 0 <= i < ids.len() && ids[i] == id;
                if i < rest.len() {
                    assert(rest[i] == id);
                }
            }
            if rest.contains(id) {
                let i = choose|i: int| 0 <= i < rest.len() && rest[i] == id;
                assert(ids[i] == id);
            }
            assert(ids[ids.len() - 1] == last);
        }
        assert forall|p: Pending| s.orphaned.contains(p) implies after.orphaned.contains(p) by {
            let i = choose|i: int| 0 <= i < s.orphaned.len() && s.orphaned[i] == p;
            assert(after.orphaned[i] == p);
        }
        if s.pending.contains_key(last) {
            assert(after.orphaned.last() == s.pending[last]);
        }
    }
}

/// A peer that has disconnected is asked nothing any more and not disabled, and each
/// request that it left unfulfilled is seen to: its caller is gone, or it was dispatched
/// among the peers that are left.
pub proof fn law_disconnected<N>(
    before: OnDemandView,
    after: OnDemandView,
    calls: Seq<Call<N>>,
    peer: PeerId,
    unfulfilled: Seq<ReqId>,
    id: ReqId,
)
    requires
        orphans_dispatched(before.without_peer(peer).reclaimed(unfulfilled), after, calls),
    ensures
        after.peers == before.peers.remove(peer),
        forall|i: int| 0 <= i < calls.len() ==> !(#[trigger] calls[i]).names(peer),
        before.pending.contains_key(id) && unfulfilled.contains(id) ==> {
            let pending = before.pending[id];
            pending.hangup_seen(true) || exists|
                s: OnDemandView,
                t: OnDemandView,
                made: Seq<Call<N>>,
            |
                s.peers == before.peers.remove(peer) && #[trigger] dispatched(s, t, pending, made)
        },
{
    let start = before.without_peer(peer);
    let reclaimed = start.reclaimed(unfulfilled);
    law_reclaimed(start, unfulfilled);
    law_orphans_dispatched(reclaimed, after, calls);
    law_orphans_go_to_suitable_peers(reclaimed, after, calls);
    assert forall|i: int| 0 <= i < calls.len() implies !(#[trigger] calls[i]).names(peer) by {
        assert(serves_an_orphan(reclaimed, calls[i]));
        let n = choose|n: int|
            0 <= n < reclaimed.orphaned.len() && serves(
                reclaimed,
                #[trigger] reclaimed.orphaned[n],
                calls[i],
            );
        assert(!reclaimed.suitable(peer, reclaimed.orphaned[n]));
    }
    if before.pending.contains_key(id) && unfulfilled.contains(id) {
        assert(start.pending.contains_key(id));
        law_every_orphan_is_seen_to(reclaimed, after, calls, before.pending[id]);
    }
}

/// A peer that connects while nothing is orphaned, and disconnects again with nothing
/// unfulfilled, leaves no trace, and nobody is asked.
pub proof fn law_connecting_and_leaving<N, M>(
    before: OnDemandView,
    connected: OnDemandView,
    after: OnDemandView,
    id: PeerId,
    peer: Peer,
    calls_on_connect: Seq<Call<N>>,
    calls_on_disconnect: Seq<Call<M>>,
)
    requires
        !before.peers.contains_key(id),
        before.orphaned.len() == 0,
        orphans_dispatched(before.with_peer(id, peer), connected, calls_on_connect),
        orphans_dispatched(
            connected.without_peer(id).reclaimed(Seq::empty()),
            after,
            calls_on_disconnect,
        ),
    ensures
        after == before,
        calls_on_connect.len() == 0,
        calls_on_disconnect.len() == 0,
{
    law_no_orphans_no_calls(before.with_peer(id, peer), connected, calls_on_connect);
    let left = connected.without_peer(id);
    assert(left.reclaimed(Seq::empty()) == left);
    law_no_orphans_no_calls(left, after, calls_on_disconnect);
    assert(left.peers =~= before.peers);
}

/// Redispatching the orphaned requests makes no requests: no more are held afterwards
/// than before.
pub proof fn law_redispatching_makes_no_requests<N>(
    before: OnDemandView,
    after: OnDemandView,
    calls: Seq<Call<N>>,
)
    requires
        before.pending.dom().finite(),
        orphans_dispatched(before, after, calls),
    ensures
        after.pending.dom().finite(),
        held(after) <= held(before),
{
    let round = choose|round: Round<N>| orphans_followed(before, after, calls, round);
    lemma_held(before, after, calls, round, before.orphaned.len() as int);
}

/// How many requests are held at most after the first `n` orphaned ones were
/// redispatched.
proof fn lemma_held<N>(
    before: OnDemandView,
    after: OnDemandView,
    calls: Seq<Call<N>>,
    round: Round<N>,
    n: int,
)
    requires
        before.pending.dom().finite(),
        orphans_followed(before, after, calls, round),
        0 <= n <= before.orphaned.len(),
    ensures
        round.states[n].pending.dom().finite(),
        held(round.states[n]) <= before.pending.dom().len() + n,
    decreases n,
{
    if n > 0 {
        lemma_held(before, after, calls, round, n - 1);
        let (s, t) = (round.states[n - 1], round.states[n]);
        let orphan = before.orphaned[n - 1];
        let made = round.calls[n - 1];
        assert(redispatched(s, round.states[n - 1 + 1], orphan, round.gone[n - 1], made));
        if t != s {
            law_last_answer_decides(s, t, orphan, made);
        }
    }
}

/// Redispatching a second time, while every caller is there and the network refuses
/// everything, changes nothing.
pub proof fn law_refusals_change_nothing<N, M>(
    before: OnDemandView,
    between: OnDemandView,
    after: OnDemandView,
    first_calls: Seq<Call<N>>,
    calls: Seq<Call<M>>,
    round: Round<M>,
)
    requires
        orphans_dispatched(before, between, first_calls),
        orphans_followed(between, after, calls, round),
        forall|i: int| 0 <= i < calls.len() ==> (#[trigger] calls[i]).is_refusal(),
        forall|n: int| 0 <= n < round.gone.len() ==> !#[trigger] round.gone[n],
    ensures
        after == between,
{
    law_orphans_dispatched(before, between, first_calls);
    lemma_refused(between, after, calls, round, between.orphaned.len() as int);
    assert(between.orphaned.take(between.orphaned.len() as int) =~= between.orphaned);
}

/// The state after the first `n` orphaned requests were refused.
proof fn lemma_refused<N>(
    before: OnDemandView,
    after: OnDemandView,
    calls: Seq<Call<N>>,
    round: Round<N>,
    n: int,
)
    requires
        orphans_servable(before),
        orphans_followed(before, after, calls, round),
        forall|i: int| 0 <= i < calls.len() ==> (#[trigger] calls[i]).is_refusal(),
        forall|n: int| 0 <= n < round.gone.len() ==> !#[trigger] round.gone[n],
        0 <= n <= before.orphaned.len(),
    ensures
        round.states[n] == (OnDemandView { orphaned: before.orphaned.take(n), ..before }),
    decreases n,
{
    if n == 0 {
        assert(before.orphaned.take(0) =~= Seq::empty());
    } else {
        lemma_refused(before, after, calls, round, n - 1);
        let (s, t) = (round.states[n - 1], round.states[n]);
        let orphan = before.orphaned[n - 1];
        let made = round.calls[n - 1];
        assert(!round.gone[n - 1]);
        assert(redispatched(s, round.states[n - 1 + 1], orphan, round.gone[n - 1], made));
        lemma_same_peers(before, s, orphan);
        law_last_answer_decides(s, t, orphan, made);
        let last = round.calls[n - 1][made.len() - 1];
        lemma_flattened(round.calls, last);
        let i = choose|i: int| 0 <= i < calls.len() && calls[i] == last;
        assert(calls[i].is_refusal());
        assert(before.orphaned.take(n - 1).push(orphan) =~= before.orphaned.take(n));
    }
}

/// What becomes of an orphaned request when it is redispatched.
pub enum Fate {
    /// Its caller is gone, and it is discarded.
    Discarded,
    /// No connected peer can serve it, and it is answered so.
    Answered,
    /// A peer has taken it, and it waits under this id.
    Waiting(ReqId),
    /// Every suitable peer has refused it, and it is orphaned again.
    Orphaned,
}

/// Those of the requests that are orphaned again, in their order.
pub open spec fn orphaned_again(orphans: Seq<Pending>, fates: Seq<Fate>) -> Seq<Pending>
    decreases fates.len(),
{
    if fates.len() == 0 {
        Seq::empty()
    } else {
        let rest = orphaned_again(orphans, fates.drop_last());
        if fates.last() is Orphaned {
            rest.push(orphans[fates.len() - 1])
        } else {
            rest
        }
    }
}

/// The first orphaned requests have met these fates, and nothing else has changed: the
/// requests that waited before still do, under their ids, each request with the fate
/// [`Fate::Waiting`] waits under an id of its own, and nothing else waits. Exactly those
/// with the fate [`Fate::Orphaned`] are orphaned.
pub open spec fn settled(
    before: OnDemandView,
    after: OnDemandView,
    gone: Seq<bool>,
    fates: Seq<Fate>,
) -> bool {
    &&& after.peers == before.peers
    &&& after.orphaned == orphaned_again(before.orphaned, fates)
    &&& forall|id: ReqId| #[trigger]
        before.pending.contains_key(id) ==> after.pending.contains_key(id) && after.pending[id]
            == before.pending[id]
    &&& forall|id: ReqId| #[trigger]
        after.pending.contains_key(id) ==> before.pending.contains_key(id) || fates.contains(
            Fate::Waiting(id),
        )
    &&& forall|i: int, j: int|
        0 <= i < j < fates.len() && #[trigger] fates[i] is Waiting ==> fates[i] != #[trigger] fates[j]
    &&& forall|i: int|
        0 <= i < fates.len() ==> match #[trigger] fates[i] {
            Fate::Discarded => gone[i],
            Fate::Answered => !gone[i] && !before.servable(before.orphaned[i])
                && before.orphaned[i].completed(Err(Error::NoPeersAvailable)),
            Fate::Waiting(id) => !gone[i] && before.servable(before.orphaned[i])
                && !before.pending.contains_key(id) && after.pending.contains_key(id)
                && after.pending[id] == before.orphaned[i],
            Fate::Orphaned => !gone[i] && before.servable(before.orphaned[i]),
        }
}

/// The network hands out no id under which a request waits at that time.
pub open spec fn ids_are_fresh<N>(round: Round<N>) -> bool {
    forall|n: int, k: int|
        0 <= n < round.calls.len() && 0 <= k < round.calls[n].len() ==> (
        #[trigger] round.calls[n][k] matches Call::Asked(_, _, Ok(id))
            ==> !round.states[n].pending.contains_key(id))
}

/// Each orphaned request meets exactly one fate: it is discarded because its caller is
/// gone, answered because no connected peer can serve it, taken by a peer and waiting
/// under an id of its own, or orphaned again. What waited before still waits. This is so
/// provided that the network hands out no id under which a request waits.
pub proof fn law_every_orphan_meets_one_fate<N>(
    before: OnDemandView,
    after: OnDemandView,
    calls: Seq<Call<N>>,
    round: Round<N>,
)
    requires
        orphans_followed(before, after, calls, round),
        ids_are_fresh(round),
    ensures
        exists|fates: Seq<Fate>|
            fates.len() == before.orphaned.len() && #[trigger] settled(
                before,
                after,
                round.gone,
                fates,
            ),
{
    let _fates = lemma_fates(before, after, calls, round, before.orphaned.len() as int);
}

/// The fates of the first `n` orphaned requests.
proof fn lemma_fates<N>(
    before: OnDemandView,
    after: OnDemandView,
    calls: Seq<Call<N>>,
    round: Round<N>,
    n: int,
) -> (fates: Seq<Fate>)
    requires
        orphans_followed(before, after, calls, round),
        ids_are_fresh(round),
        0 <= n <= before.orphaned.len(),
    ensures
        fates.len() == n,
        settled(before, round.states[n], round.gone, fates),
    decreases n,
{
    if n == 0 {
        Seq::empty()
    } else {
        let rest = lemma_fates(before, after, calls, round, n - 1);
        let (s, t) = (round.states[n - 1], round.states[n]);
        let orphan = before.orphaned[n - 1];
        let made = round.calls[n - 1];
        assert(redispatched(s, round.states[n - 1 + 1], orphan, round.gone[n - 1], made));
        lemma_same_peers(before, s, orphan);
        let fate = if round.gone[n - 1] {
            Fate::Discarded
        } else if !before.servable(orphan) {
            Fate::Answered
        } else {
            law_last_answer_decides(s, t, orphan, made);
            match made.last() {
                Call::Asked(_, _, Ok(id)) => Fate::Waiting(id),
                _ => Fate::Orphaned,
            }
        };
        let fates = rest.push(fate);
        if let Fate::Waiting(id) = fate {
            assert(round.calls[n - 1][made.len() - 1] == made.last());
            assert(!s.pending.contains_key(id));
            assert(fates[n - 1] == fate);
        }
        assert(fates.drop_last() =~= rest);
        assert forall|id: ReqId| #[trigger] t.pending.contains_key(id) implies before.pending.contains_key(
            id,
        ) || fates.contains(Fate::Waiting(id)) by {
            if s.pending.contains_key(id) && !before.pending.contains_key(id) {
                let i = choose|i: int| 0 <= i < rest.len() && rest[i] == Fate::Waiting(id);
                assert(fates[i] == Fate::Waiting(id));
            }
        }
        fates
    }
}

/// A peer that connects or announces something is known by exactly what it said, its status
/// and what it serves alike. Nothing changes for the others, and no request moves.
pub proof fn law_a_peer_is_known_by_what_it_said(before: OnDemandView, id: PeerId, peer: Peer)
    ensures
        ({
            let after = before.with_peer(id, peer);
            &&& after.peers.contains_key(id)
            &&& after.peers[id].status.head_num == peer.status.head_num
            &&& after.peers[id].capabilities.serve_headers == peer.capabilities.serve_headers
            &&& after.peers[id].capabilities.serve_chain_since
                == peer.capabilities.serve_chain_since
            &&& after.peers[id].capabilities.serve_state_since
                == peer.capabilities.serve_state_since
            &&& forall|other: PeerId|
                other != id ==> (#[trigger] after.peers.contains_key(other)
                    <==> before.peers.contains_key(other)) && after.peers[other]
                    == before.peers[other]
            &&& after.pending == before.pending
            &&& after.orphaned == before.orphaned
        }),
{
}

/// A peer that has disconnected is not known any more. Nothing changes for the others, and no
/// request moves.
pub proof fn law_a_peer_that_left_is_not_known(before: OnDemandView, id: PeerId)
    ensures
        ({
            let after = before.without_peer(id);
            &&& !after.peers.contains_key(id)
            &&& forall|other: PeerId|
                other != id ==> (#[trigger] after.peers.contains_key(other)
                    <==> before.peers.contains_key(other)) && after.peers[other]
                    == before.peers[other]
            &&& after.pending == before.pending
            &&& after.orphaned == before.orphaned
        }),
{
}

/// A request that a peer has taken waits under the id that it was given, one that nobody has
/// taken is the last of the orphaned ones, and one that is taken out waits no more. Nothing
/// changes for the others.
pub proof fn law_one_request_moves_at_a_time(before: OnDemandView, id: ReqId, pending: Pending)
    ensures
        before.assigned(id, pending).pending.contains_key(id),
        before.assigned(id, pending).pending[id] == pending,
        !before.without_request(id).pending.contains_key(id),
        forall|other: ReqId|
            other != id ==> (#[trigger] before.assigned(id, pending).pending.contains_key(other)
                <==> before.pending.contains_key(other)) && before.assigned(
                id,
                pending,
            ).pending[other] == before.pending[other],
        forall|other: ReqId|
            other != id ==> (#[trigger] before.without_request(id).pending.contains_key(other)
                <==> before.pending.contains_key(other)) && before.without_request(
                id,
            ).pending[other] == before.pending[other],
        before.orphaning(pending).orphaned == before.orphaned + seq![pending],
        before.orphaning(pending).pending == before.pending,
        before.orphaning(pending).peers == before.peers,
        before.assigned(id, pending).orphaned == before.orphaned,
        before.assigned(id, pending).peers == before.peers,
        before.without_request(id).orphaned == before.orphaned,
        before.without_request(id).peers == before.peers,
        before.without_orphans().orphaned.len() == 0,
        before.without_orphans().pending == before.pending,
        before.without_orphans().peers == before.peers,
{
    assert(before.orphaning(pending).orphaned =~= before.orphaned + seq![pending]);
}

/// A peer can serve a request if it is connected and claims so, and a request can be served if
/// there is such a peer.
pub proof fn law_servable_by_a_connected_peer(state: OnDemandView, peer: PeerId, pending: Pending)
    ensures
        state.suitable(peer, pending) <==> state.peers.contains_key(peer) && pending.suits(
            state.peers[peer],
        ),
        state.servable(pending) <==> exists|server: PeerId| #[trigger]
            state.peers.contains_key(server) && pending.suits(state.peers[server]),
{
    if state.servable(pending) {
        let server = choose|server: PeerId| state.suitable(server, pending);
        assert(state.peers.contains_key(server));
    }
    if exists|server: PeerId| #[trigger]
        state.peers.contains_key(server) && pending.suits(state.peers[server]) {
        let server = choose|server: PeerId| #[trigger]
            state.peers.contains_key(server) && pending.suits(state.peers[server]);
        assert(state.suitable(server, pending));
    }
}

/// Requests are reclaimed one id after the other, in the order of the ids: the one that waits
/// under an id waits no more and is put behind the orphaned ones, and an id under which none
/// waits changes nothing.
pub proof fn law_reclaimed_in_order(state: OnDemandView, id: ReqId, more: Seq<ReqId>)
    ensures
        state.reclaimed(Seq::empty()) == state,
        state.pending.contains_key(id) ==> state.reclaimed(seq![id]) == (OnDemandView {
            peers: state.peers,
            pending: state.pending.remove(id),
            orphaned: state.orphaned.push(state.pending[id]),
        }),
        !state.pending.contains_key(id) ==> state.reclaimed(seq![id]) == state,
        state.reclaimed(seq![id] + more) == state.reclaimed(seq![id]).reclaimed(more),
    decreases more.len(),
{
    assert(seq![id].drop_last() =~= Seq::<ReqId>::empty());
    assert(state.reclaimed(Seq::empty()) == state);
    assert(seq![id].last() == id);
    let first = state.reclaimed(seq![id]);
    if more.len() == 0 {
        assert(seq![id] + more =~= seq![id]);
        assert(more =~= Seq::empty());
    } else {
        law_reclaimed_in_order(state, id, more.drop_last());
        let ids = seq![id] + more;
        assert(ids.drop_last() =~= seq![id] + more.drop_last());
        assert(ids.last() == more.last());
    }
}

/// After a peer has connected or announced something, and the orphaned requests were
/// redispatched, the service knows the peer by exactly what it said, and every other peer as
/// before.
pub proof fn law_what_a_peer_says_is_kept<N>(
    before: OnDemandView,
    after: OnDemandView,
    id: PeerId,
    peer: Peer,
    calls: Seq<Call<N>>,
)
    requires
        orphans_dispatched(before.with_peer(id, peer), after, calls),
    ensures
        after.peers.contains_key(id),
        after.peers[id] == peer,
        forall|other: PeerId|
            other != id ==> (#[trigger] after.peers.contains_key(other)
                <==> before.peers.contains_key(other)) && after.peers[other]
                == before.peers[other],
{
    law_orphans_dispatched(before.with_peer(id, peer), after, calls);
}

/// A valid reply reaches the caller of the request it belongs to: if the network handed
/// out an id when the request was dispatched, and the request still waits under that id
/// when a valid reply comes in, then the request is answered with that reply.
pub proof fn law_valid_reply_reaches_its_request<N, M, E>(
    before: OnDemandView,
    dispatch: OnDemandView,
    pending: Pending,
    calls: Seq<Call<N>>,
    id: ReqId,
    arrival: OnDemandView,
    after: OnDemandView,
    peer: PeerId,
    reply: Reply,
    calls_on_reply: Seq<Call<M>>,
)
    requires
        dispatched(before, dispatch, pending, calls),
        dispatch.pending.contains_key(id),
        !before.pending.contains_key(id),
        arrival.pending.contains_key(id),
        arrival.pending[id] == dispatch.pending[id],
        concluded(
            arrival.without_request(id),
            after,
            peer,
            arrival.pending[id],
            Some(Ok::<Reply, E>(reply)),
            calls_on_reply,
        ),
    ensures
        pending.completed(Ok(reply)),
{
    law_dispatch_touches_nothing_else(before, dispatch, pending, calls);
}

} // verus!
