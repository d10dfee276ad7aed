//! A dynamic-DNS control plane library.
//!
//! Clients register a subdomain under a configured suffix and receive a
//! secret token; with that token they later push address updates.  A
//! read-side lookup component answers A/AAAA/ANY/SOA queries from the same
//! record store, and a serialized dispatcher turns address changes into the
//! line-oriented update protocol consumed by an external name-server
//! updater.

pub mod addr;
pub mod codec;
pub mod config;
pub mod db;
pub mod dns;
pub mod domain;
pub mod ffdyndns;
pub mod kv;
pub mod nsupdate;
pub mod text;
