use vstd::prelude::*;

use crate::order::Order;

verus! {

/// How the decision loop runs: for how many messages, and whether orders are only
/// evaluated and never submitted.
#[derive(Copy, Clone, Debug, PartialEq, Eq, Structural)]
pub struct Config {
    pub num_iteration: usize,
    pub test: bool,
}

impl Config {
    /// The orders that an evaluation hands to the order service: all of them, or none
    /// in test mode.
    pub fn orders_to_submit(&self, orders: Vec<Order>) -> (r: Vec<Order>)
        ensures
            r@ == if self.test {
                Seq::empty()
            } else {
                orders@
            },
    {
        if self.test {
            Vec::new()
        } else {
            orders
        }
    }
}

} // verus!
