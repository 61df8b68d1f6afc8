//! On-demand chain requests over the light client protocol.
//!
//! [`OnDemand`](service::OnDemand) knows what each connected peer serves, hands
//! every request to a peer that can serve it, and answers the caller through a
//! [`Response`](response::Response) once a valid reply has come in. Higher level
//! code takes the raw data received here and extracts meaningful results from it.

pub mod block;
pub mod context;
pub mod digest;
pub mod kinds;
pub mod laws;
pub mod les_request;
pub mod network;
pub mod peer;
pub mod pending;
pub mod request;
pub mod response;
pub mod service;
pub mod shuffle;
pub mod state;
pub mod types;
