# on_demand

On-demand chain requests for a light client, verified with Verus.

`OnDemand` knows what each connected peer serves. A request for a header, a block,
receipts, an account or code goes to a peer that can serve it; the caller gets a
`Response`, which is answered once a valid reply has come in.

- A request that no connected peer can serve is answered with `NoPeersAvailable`.
- A request that every suitable peer refuses is orphaned, and offered again whenever a
  peer connects, disconnects or announces something, and on every tick. It is discarded
  once its caller has dropped the response.
- A reply that is missing or not valid sends the request out again; a peer that sent one
  that is not valid is disabled, and no other. A reply without any code cancels the
  request for it.
- Empty blocks, receipts and code are answered without asking anyone.

## Layout

- `src/service.rs`: the service. `src/state.rs`: its state, and the relations that its
  contracts are stated in. `src/laws.rs`: what holds of it as a whole.
- `src/pending.rs`: requests that wait, which peers suit them and what those are asked.
- `src/response.rs`: the channel on which a request is answered.
- `src/context.rs`: the network, of which nothing is assumed. `src/network.rs`: the record
  of the calls on it, by which the contracts say exactly which calls are made.
- `src/block.rs`, `src/digest.rs`, `src/shuffle.rs`: encoding, hashing, random order.
- `src/types.rs`, `src/request.rs`, `src/les_request.rs`, `src/peer.rs`: plain values.
- `app/`: a service shared between threads, with futures for responses.
