//! The media plane of a small voice and video conferencing stack.
//!
//! - `header`: the fixed 22-byte media frame header, shared by server and
//!   client.
//! - `registry`: the forwarding unit's rooms, sessions, token index and live
//!   transports, with admission and the fan-out decision.
//! - `frame`: outbound and inbound media frames over `bytes` buffers.
//! - `client`: the decisions of the client media loop: session counters,
//!   toggles, reconnection with backoff, and the events it reports.
//! - `url`: server addresses as the client accepts them.
//! - `tls`: the protocol constants of the QUIC transport and certificate
//!   pinning.
//! - `lifecycle`, `video`: runtime start/stop bookkeeping and the video stubs.

pub mod client;
pub mod frame;
pub mod header;
pub mod lifecycle;
pub mod registry;
pub mod tls;
pub mod url;
pub mod video;
