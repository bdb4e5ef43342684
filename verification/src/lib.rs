//! A TCP port forwarder that wakes its destination hosts on demand.
//!
//! The crate holds the decisions of the forwarder: how a configuration reads,
//! how a forwarding rule expands into listen/destination pairs, which
//! wake-on-LAN identity belongs to a destination, what the wake packet looks
//! like, and which step follows which while an upstream connection is being
//! established. The caller owns the sockets and the clock and performs what
//! the crate decides.
//!
//! - [`net`], [`hardware_addr`]: addresses as plain values.
//! - [`text`], [`address`], [`parse`], [`config`]: from the text of a
//!   configuration to hosts and rules.
//! - [`mapping`]: forwarding rules and their expansion.
//! - [`upstream`]: hosts, their registry and the wake packet.
//! - [`connect`]: the course of an attempt to reach a host.
//! - [`forwarder`]: hosts and rules together, and the tunnels to start.

pub mod address;
pub mod config;
pub mod connect;
pub mod forwarder;
pub mod hardware_addr;
pub mod mapping;
pub mod net;
pub mod parse;
pub mod text;
pub mod upstream;
