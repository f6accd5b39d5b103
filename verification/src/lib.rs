//! A verified core for a multi-target TCP port-forwarding proxy.
//!
//! The library covers the logic of the proxy: parsing the compact textual
//! grammar for forwarding rules (listen endpoint and remote endpoint from a
//! single colon-delimited string, including IPv4 and bracketed IPv6
//! literals), and the decision rules of the concurrent forwarding engine
//! (which failures are fatal, how an acceptor reacts to events, and what the
//! whole run returns). The surrounding host performs the actual socket I/O
//! and consults these functions for every decision.

pub mod engine;
pub mod ip;
pub mod num;
pub mod rule;
pub mod scan;
