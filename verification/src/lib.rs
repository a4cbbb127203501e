//! A configurable TCP/UDP port-forwarding proxy's verified core: the mapping
//! rules that pair bind endpoints with remote endpoints, the loaders that
//! build them from argument tokens or a JSON document, and the UDP session
//! table and per-session step function that the forwarding loops act on.
//!
//! Sockets, timers and the event loops themselves live in the surrounding
//! program; they hand this library plain values and carry out its decisions.

pub mod config;
pub mod jsonval;
pub mod net;
pub mod ports;
pub mod text;
pub mod udp;
