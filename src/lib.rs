//! A multi-tenant store of JSON blobs behind a length-framed binary protocol.
//!
//! - `wire`: the frame codec.
//! - `types`: requests and replies, and how they are cut into frames and put back.
//! - `connection`: a connection's read buffer and idle timeouts, and the message pump.
//! - `skeleton`: a tenant's index of nodes, with path lookup and listings.
//! - `blobs`: fields read out of JSON blobs.
//! - `provider`: the per-tenant request dispatcher.
//! - `registry`: the process-wide map from tenant to store.
//! - `sharding`: a sharded key-value store.
//! - `text`: UTF-8 helpers.

use vstd::prelude::*;

pub mod blobs;
pub mod connection;
pub mod provider;
pub mod registry;
pub mod sharding;
pub mod skeleton;
pub mod text;
pub mod types;
pub mod wire;

verus! {

} // verus!
