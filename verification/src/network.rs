//! The calls that the request service makes on the network, one after the other.

use crate::context::{asked, disabled, BasicContext};
use crate::les_request::{Request, RequestView};
use crate::types::{PeerId, ReqId};
use vstd::prelude::*;

verus! {

/// A call on the network.
pub enum Call<E> {
    /// This peer was sent a request that asks for this, and the network answered so.
    Asked(PeerId, RequestView, Result<ReqId, E>),
    /// This peer was disabled.
    Disabled(PeerId),
}

impl<E> Call<E> {
    /// The call is about this peer.
    pub open spec fn names(self, peer: PeerId) -> bool {
        match self {
            Call::Asked(asked, _, _) => asked == peer,
            Call::Disabled(disabled) => disabled == peer,
        }
    }

    /// The network refused the request.
    pub open spec fn is_refusal(self) -> bool {
        self matches Call::Asked(_, _, Err(_))
    }
}

/// The call was made on a network of this type.
pub open spec fn made<C: BasicContext>(call: Call<C::Error>) -> bool {
    match call {
        Call::Asked(peer, request, answer) => asked::<C>(peer, request, answer),
        Call::Disabled(peer) => disabled::<C>(peer),
    }
}

/// The network, with a record of the calls that were made on it. The network can be
/// reached only by the two functions that record a call, and each of them makes exactly
/// the call that it records: one call alone leads from the network before to the network
/// after.
pub struct Network<'a, C: BasicContext> {
    ctx: &'a mut C,
    calls: Ghost<Seq<Call<C::Error>>>,
}

impl<'a, C: BasicContext> Network<'a, C> {
    /// The network as it is now.
    pub closed spec fn ctx(self) -> C {
        *self.ctx
    }

    /// The calls that were made, in their order.
    pub closed spec fn calls(self) -> Seq<Call<C::Error>> {
        self.calls@
    }

    /// It is what `before` has become: the network, on which no call or some more were
    /// made.
    pub open spec fn extends(self, before: Self) -> bool {
        &&& before.calls().is_prefix_of(self.calls())
        &&& forall|i: int|
            before.calls().len() <= i < self.calls().len() ==> made::<C>(
                #[trigger] self.calls()[i],
            )
    }

    /// The calls that were made since `before`.
    pub open spec fn since(self, before: Self) -> Seq<Call<C::Error>> {
        self.calls().skip(before.calls().len() as int)
    }

    /// The record holds what was written down, and the network is the one behind it.
    proof fn law_record(self)
        ensures
            self.calls() == self.calls@,
            self.ctx() == *old(self.ctx),
    {
    }

    /// What was recorded before stays, what came since stands behind it, and each call that came
    /// since was made with the recorded arguments and gave the recorded answer.
    pub proof fn law_calls_are_kept(self, before: Self)
        requires
            self.extends(before),
        ensures
            self.calls() == before.calls() + self.since(before),
            forall|i: int|
                0 <= i < self.since(before).len() ==> match #[trigger] self.since(before)[i] {
                    Call::Asked(peer, request, answer) => exists|ctx: &mut C, sent: Request|
                        sent@ == request && #[trigger] call_ensures(
                            C::request_from,
                            (ctx, peer, &sent),
                            answer,
                        ),
                    Call::Disabled(peer) => exists|ctx: &mut C| #[trigger]
                        call_ensures(C::disable_peer, (ctx, peer), ()),
                },
    {
        assert(self.calls() =~= before.calls() + self.since(before));
        assert forall|i: int| 0 <= i < self.since(before).len() implies match
        #[trigger] self.since(before)[i] {
            Call::Asked(peer, request, answer) => exists|ctx: &mut C, sent: Request|
                sent@ == request && #[trigger] call_ensures(
                    C::request_from,
                    (ctx, peer, &sent),
                    answer,
                ),
            Call::Disabled(peer) => exists|ctx: &mut C| #[trigger]
                call_ensures(C::disable_peer, (ctx, peer), ()),
        } by {
            assert(made::<C>(self.calls()[before.calls().len() + i]));
        }
    }

    /// No call makes no difference.
    pub(crate) proof fn lemma_idle(self)
        ensures
            self.extends(self),
            self.since(self) == Seq::<Call<C::Error>>::empty(),
    {
        assert(self.since(self) =~= Seq::empty());
    }

    /// What was made in two steps is what was made in the first, then what was made in
    /// the second.
    pub(crate) proof fn lemma_steps(self, between: Self, before: Self)
        requires
            self.extends(between),
            between.extends(before),
        ensures
            self.extends(before),
            self.since(before) == between.since(before) + self.since(between),
    {
        assert forall|i: int| before.calls().len() <= i < self.calls().len() implies made::<C>(
            #[trigger] self.calls()[i],
        ) by {
            if i < between.calls().len() {
                assert(self.calls()[i] == between.calls()[i]);
            }
        }
        assert(self.since(before) =~= between.since(before) + self.since(between));
    }

    /// The network, with nothing recorded yet.
    pub fn new(ctx: &'a mut C) -> (net: Self)
        ensures
            net.ctx() == *old(ctx),
            net.calls() == Seq::<Call<C::Error>>::empty(),
    {
        Network { ctx, calls: Ghost(Seq::empty()) }
    }

    /// Sends a request to a peer. Returns the id under which the reply will come in, if
    /// the network takes the request.
    pub fn request_from(&mut self, peer: PeerId, request: &Request) -> (answer: Result<
        ReqId,
        C::Error,
    >)
        ensures
            final(self).extends(*old(self)),
            final(self).since(*old(self)) == seq![Call::Asked(peer, request@, answer)],
            exists|ctx: &mut C|
                *ctx == old(self).ctx() && *final(ctx) == final(self).ctx()
                    && #[trigger] call_ensures(C::request_from, (ctx, peer, request), answer),
    {
        let answer = self.ctx.request_from(peer, request);
        proof {
            self.calls@ = self.calls@.push(Call::Asked(peer, request@, answer));
        }
        answer
    }

    /// Drops a peer and refuses to connect to it again.
    pub fn disable_peer(&mut self, peer: PeerId)
        ensures
            final(self).extends(*old(self)),
            final(self).since(*old(self)) == seq![Call::<C::Error>::Disabled(peer)],
            exists|ctx: &mut C|
                *ctx == old(self).ctx() && *final(ctx) == final(self).ctx()
                    && #[trigger] call_ensures(C::disable_peer, (ctx, peer), ()),
    {
        self.ctx.disable_peer(peer);
        proof {
            self.calls@ = self.calls@.push(Call::Disabled(peer));
        }
    }
}

} // verus!
