//! The network as it is seen by the request service.

use crate::les_request::{Request, RequestView};
use crate::types::{PeerId, ReqId};
use vstd::prelude::*;

verus! {

/// The network side. Nothing is promised of it: a request may be taken or refused,
/// and two calls with the same arguments may differ.
pub trait BasicContext: Sized {
    /// Why a request could not be made.
    type Error;

    /// Sends a request to a peer. Returns the id under which the reply will come in.
    fn request_from(&mut self, peer: PeerId, request: &Request) -> Result<ReqId, Self::Error>;

    /// Drops a peer and refuses to connect to it again.
    fn disable_peer(&mut self, peer: PeerId);
}

/// `request_from` was called for this peer with a request that asks for `request`,
/// and returned `answer`.
pub open spec fn asked<C: BasicContext>(
    peer: PeerId,
    request: RequestView,
    answer: Result<ReqId, C::Error>,
) -> bool {
    exists|ctx: &mut C, sent: Request|
        sent@ == request && #[trigger] call_ensures(C::request_from, (ctx, peer, &sent), answer)
}

/// `disable_peer` was called for this peer.
pub open spec fn disabled<C: BasicContext>(peer: PeerId) -> bool {
    exists|ctx: &mut C| #[trigger] call_ensures(C::disable_peer, (ctx, peer), ())
}

} // verus!
