//! Wispers Access: share self-hosted web apps with guests over peer-to-peer
//! connections.
use vstd::prelude::*;

pub mod bytes;
pub mod clock;
pub mod guest;
pub mod headers;
pub mod server;
pub mod table;
pub mod text;
pub mod wire;

verus! {

} // verus!
