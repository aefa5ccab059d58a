//! Orders: a side and the quantity that is still open.

use vstd::prelude::*;

verus! {

/// The side of the book an order belongs to.
#[derive(Debug, Clone, Copy, PartialEq, Eq, Structural)]
pub enum OrderType {
    Bid,
    Ask,
}

/// An order: its side and the number of lots that are still unmatched.
///
/// The quantity only ever shrinks while the order is matched; an order whose
/// quantity has reached zero is filled.
#[derive(Debug)]
pub struct Order {
    pub size: u64,
    pub order_type: OrderType,
}

impl Order {
    /// An order of `size` lots on the given side.
    pub fn new(order_type: OrderType, size: u64) -> (order: Order)
        ensures
            order == (Order { size, order_type }),
    {
        Order { size, order_type }
    }

    /// Whether nothing of the order is left to match.
    pub fn is_filled(&self) -> (filled: bool)
        ensures
            filled == (self.size == 0),
    {
        self.size == 0
    }

    /// The same order with `size` lots left.
    pub open spec fn with_size(self, size: u64) -> Order {
        Order { size, order_type: self.order_type }
    }
}

} // verus!
