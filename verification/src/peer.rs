//! What is known of a connected peer.

use vstd::prelude::*;

verus! {

/// How far along a peer is.
#[derive(Clone, Copy, Debug, PartialEq, Eq)]
pub struct Status {
    /// The number of the peer's best block.
    pub head_num: u64,
}

/// What a peer serves.
#[derive(Clone, Copy, Debug, PartialEq, Eq)]
pub struct Capabilities {
    /// Whether the peer serves headers.
    pub serve_headers: bool,
    /// The block number that the peer announced for serving bodies and receipts, if
    /// it serves them.
    pub serve_chain_since: Option<u64>,
    /// The block number that the peer announced for serving state and code, if it
    /// serves them.
    pub serve_state_since: Option<u64>,
}

/// A connected peer.
#[derive(Clone, Copy, Debug, PartialEq, Eq)]
pub struct Peer {
    /// How far along the peer is.
    pub status: Status,
    /// What the peer serves.
    pub capabilities: Capabilities,
}

/// A number was announced, and it is not below `num`.
pub open spec fn announced_at_least(announced: Option<u64>, num: u64) -> bool {
    announced matches Some(number) && number >= num
}

/// What was not announced reaches nothing, and an announced number reaches itself and every
/// number below it, and no other.
pub proof fn law_announced(announced: u64, num: u64)
    ensures
        !announced_at_least(None, num),
        announced_at_least(Some(announced), num) <==> num <= announced,
{
}

/// Whether a number was announced that is not below `num`.
pub fn reaches(announced: Option<u64>, num: u64) -> (reached: bool)
    ensures
        reached == announced_at_least(announced, num),
{
    match announced {
        Some(number) => number >= num,
        None => false,
    }
}

} // verus!
