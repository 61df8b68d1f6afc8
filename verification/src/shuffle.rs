//! Putting peers in a random order.

use crate::types::PeerId;
use rand::Rng;
use vstd::prelude::*;

verus! {

/// The random number generator that `rand` keeps for each thread.
#[verifier::external_type_specification]
#[verifier::external_body]
pub struct ExThreadRng(rand::ThreadRng);

/// `rand::thread_rng`: hands out the thread's generator. What it will draw is
/// left to chance, so nothing is claimed of it. The first call on a thread panics
/// if the system has no entropy to seed the generator with.
#[verifier::external_body]
fn thread_rng() -> (rng: rand::ThreadRng) {
    rand::thread_rng()
}

/// `rand::Rng::shuffle`: swaps the items about. Every item stays, as often as it
/// was there; which of the orders comes out is left to chance. That an order came out
/// of such a call is what [`shuffled`] says. It panics if the generator is due for a new
/// seed and the system has no entropy for it.
#[verifier::external_body]
fn rng_shuffle(rng: rand::ThreadRng, peers: Vec<PeerId>) -> (order: Vec<PeerId>)
    ensures
        order@.to_multiset() == peers@.to_multiset(),
{
    let mut rng = rng;
    let mut order = peers;
    rng.shuffle(&mut order);
    order
}

/// The thread's generator was asked to shuffle the peers `before`, and `after` is the
/// order that came out.
pub closed spec fn shuffled(before: Seq<PeerId>, after: Seq<PeerId>) -> bool {
    exists|rng: rand::ThreadRng, peers: Vec<PeerId>, order: Vec<PeerId>|
        call_ensures(thread_rng, (), rng) && #[trigger] call_ensures(
            rng_shuffle,
            (rng, peers),
            order,
        ) && peers@ == before && order@ == after
}

/// An order was drawn if the thread's generator was handed out, and its own shuffling made
/// `after` of `before`.
proof fn law_drawn(before: Seq<PeerId>, after: Seq<PeerId>)
    ensures
        shuffled(before, after) <==> exists|
            rng: rand::ThreadRng,
            peers: Vec<PeerId>,
            order: Vec<PeerId>,
        |
            call_ensures(thread_rng, (), rng) && #[trigger] call_ensures(
                rng_shuffle,
                (rng, peers),
                order,
            ) && peers@ == before && order@ == after,
{
}

/// Shuffling loses no peer and adds none.
pub proof fn law_shuffling_keeps_the_peers(before: Seq<PeerId>, after: Seq<PeerId>)
    requires
        shuffled(before, after),
    ensures
        after.to_multiset() == before.to_multiset(),
        after.len() == before.len(),
        forall|peer: PeerId| after.contains(peer) <==> before.contains(peer),
{
    before.to_multiset_ensures();
    after.to_multiset_ensures();
    assert forall|peer: PeerId| after.contains(peer) <==> before.contains(peer) by {
        assert(after.contains(peer) <==> after.to_multiset().count(peer) > 0);
        assert(before.contains(peer) <==> before.to_multiset().count(peer) > 0);
    }
}

/// Puts the peers in a random order.
pub fn shuffle(peers: &mut Vec<PeerId>)
    ensures
        final(peers)@.to_multiset() == old(peers)@.to_multiset(),
        shuffled(old(peers)@, final(peers)@),
{
    let mut given: Vec<PeerId> = Vec::new();
    std::mem::swap(&mut given, peers);
    let rng = thread_rng();
    *peers = rng_shuffle(rng, given);
}

} // verus!
