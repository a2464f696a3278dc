//! The server side: the identities and values the server keeps, and the
//! server's state with the operations that the protocol's messages trigger.

use vstd::prelude::*;

pub mod address;
pub mod connection;
pub mod delivery;
pub mod dispatch;
pub mod error;
pub mod frames;
pub mod identity_map;
pub mod laws;
pub mod local;
pub mod model;
pub mod session;
pub mod session_model;
pub mod state;
pub mod util;

verus! {

} // verus!
