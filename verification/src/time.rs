//! Instants.

use vstd::prelude::*;

use crate::text::Order;

verus! {

/// An instant in UTC: seconds since the epoch, and nanoseconds past them.
///
/// A leap second is the second before it with a billion nanoseconds or more.
#[derive(Debug, Clone, Copy, PartialEq, Eq, PartialOrd, Ord, Hash, Structural)]
pub struct Timestamp {
    pub secs: i64,
    pub nanos: u32,
}

impl Timestamp {
    /// `self` comes before `other`.
    pub open spec fn before(self, other: Timestamp) -> bool {
        self.secs < other.secs || (self.secs == other.secs && self.nanos < other.nanos)
    }

    /// The order of `self` against `other`.
    pub open spec fn order(self, other: Timestamp) -> Order {
        if self == other {
            Order::Equal
        } else if self.before(other) {
            Order::Less
        } else {
            Order::Greater
        }
    }

    /// Compares two instants.
    pub fn order_against(&self, other: &Timestamp) -> (order: Order)
        ensures
            order == self.order(*other),
    {
        if self.secs < other.secs {
            Order::Less
        } else if self.secs > other.secs {
            Order::Greater
        } else if self.nanos < other.nanos {
            Order::Less
        } else if self.nanos > other.nanos {
            Order::Greater
        } else {
            Order::Equal
        }
    }
}

} // verus!
