//! The client side: topic names as published, and the state a client keeps
//! about its server.

use vstd::prelude::*;

pub mod frames;
pub mod laws;
pub mod naming;
pub mod state;

verus! {

} // verus!
