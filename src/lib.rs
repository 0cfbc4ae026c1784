//! Verified core of a relay that bridges TCP, Unix domain socket and UDP
//! endpoints across network namespace boundaries.
//!
//! The library holds the decisions of the relay: which tasks a forward
//! specification asks for, how configuration values are read and merged, the
//! connect backoff of the host proxy, the shutdown priority of every event
//! loop, the supervision of task outcomes and the per-client UDP session
//! table. The sockets, threads and timers live with the caller.

pub mod text;
pub mod backoff;
pub mod config;
pub mod control;
pub mod netns;
pub mod udp;
pub mod uds;
