//! ICMP messages (not decoded further).
use vstd::prelude::*;

verus! {

/// An ICMP message.
pub struct Message {}

} // verus!
