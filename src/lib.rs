//! Router configuration coordinator.
//!
//! - `dns`: DNS server records and their consolidation into one list,
//!   most preferred source first, one server per address.
//! - `aggregate`: the latest list reported by each discovery origin.
//! - `protocol`: values of the administrative and state-query protocols.
//! - `eventloop`: the decisions of the single loop that owns the device.
//! - `update`: settings for installing a system update.

pub mod aggregate;
pub mod dns;
pub mod eventloop;
pub mod protocol;
pub mod update;
