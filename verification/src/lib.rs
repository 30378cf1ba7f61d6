//! Discovery and provisioning for network-attached devices: an address
//! range enumerator, the host prober's record-building rules, a vendor
//! resolver over hardware-address prefixes, the adoption session state
//! machine with terminal-output cleaning, and the progress batcher that
//! paces a session's output for a consumer.
//!
//! The blocking transport work itself (reachability probes, neighbor-table
//! listings, the remote shell) lives with the caller; this crate holds and
//! verifies every decision made on the bytes those produce.

pub mod ansi;
pub mod config;
pub mod models;
pub mod neighbor;
pub mod netif;
pub mod oui;
pub mod progress;
pub mod range;
pub mod session;
pub mod strutil;
