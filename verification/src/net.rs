//! Network addresses.

use vstd::prelude::*;

verus! {

/// An IP address, by its bits in network order.
#[derive(Debug, Clone, Copy, PartialEq, Eq, PartialOrd, Ord, Hash, Structural)]
pub enum IpAddr {
    V4(u32),
    V6(u128),
}

} // verus!
