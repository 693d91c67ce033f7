//! Limits of the network.

use vstd::prelude::*;

verus! {

/// The largest packet that is sent or received.
pub const MTU: usize = 1500;

} // verus!
