//! Forwarding core of a delay-tolerant networking daemon: a peer registry,
//! a bundle store, pluggable routing strategies, and the state machine of
//! the external routing protocol.
pub mod agent;
pub mod bundle;
pub mod dispatch;
pub mod epidemic;
pub mod erouting;
pub mod external;
pub mod flooding;
pub mod peer;
pub mod routing;
pub mod sink;
pub mod store;
pub mod sys;
