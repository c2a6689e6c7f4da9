use vstd::prelude::*;

use crate::market::{Execution, Inventory, MarketInfo};
use crate::order::{OpenOrders, Order};
use crate::types::Orderbook;

verus! {

/// The snapshot of the market that a policy is evaluated on: venue parameters, the
/// executions seen so far, the latest book, inventory and open orders, and the orders
/// in flight.
#[derive(Debug, PartialEq, Eq)]
pub struct Observation {
    pub info: MarketInfo,
    pub executions: Vec<Execution>,
    pub orderbook: Orderbook,
    pub inventory: Inventory,
    pub open_orders: OpenOrders,
    pub pending_orders: Vec<Order>,
}

impl Observation {
    pub fn new(
        info: MarketInfo,
        executions: Vec<Execution>,
        orderbook: Orderbook,
        inventory: Inventory,
        open_orders: OpenOrders,
        pending_orders: Vec<Order>,
    ) -> (r: Observation)
        ensures
            r == (Observation {
                info,
                executions,
                orderbook,
                inventory,
                open_orders,
                pending_orders,
            }),
    {
        Observation { info, executions, orderbook, inventory, open_orders, pending_orders }
    }

    /// Records one more execution.
    pub fn insert_execution(&mut self, execution: Execution)
        ensures
            final(self).executions@ == old(self).executions@.push(execution),
            final(self).info == old(self).info,
            final(self).orderbook == old(self).orderbook,
            final(self).inventory == old(self).inventory,
            final(self).open_orders == old(self).open_orders,
            final(self).pending_orders == old(self).pending_orders,
    {
        self.executions.push(execution);
    }

    pub fn update_orderbook(&mut self, orderbook: Orderbook)
        ensures
            *final(self) == (Observation { orderbook, ..*old(self) }),
    {
        self.orderbook = orderbook;
    }

    pub fn update_inventory(&mut self, inventory: Inventory)
        ensures
            *final(self) == (Observation { inventory, ..*old(self) }),
    {
        self.inventory = inventory;
    }

    pub fn update_open_orders(&mut self, open_orders: OpenOrders)
        ensures
            *final(self) == (Observation { open_orders, ..*old(self) }),
    {
        self.open_orders = open_orders;
    }

    pub fn update_pending_orders(&mut self, pending_orders: Vec<Order>)
        ensures
            *final(self) == (Observation { pending_orders, ..*old(self) }),
    {
        self.pending_orders = pending_orders;
    }

    pub fn info(&self) -> (r: &MarketInfo)
        ensures
            *r == self.info,
    {
        &self.info
    }

    pub fn executions(&self) -> (r: &[Execution])
        ensures
            r@ == self.executions@,
    {
        self.executions.as_slice()
    }

    pub fn orderbook(&self) -> (r: &Orderbook)
        ensures
            *r == self.orderbook,
    {
        &self.orderbook
    }

    pub fn inventory(&self) -> (r: &Inventory)
        ensures
            *r == self.inventory,
    {
        &self.inventory
    }

    pub fn open_orders(&self) -> (r: &OpenOrders)
        ensures
            *r == self.open_orders,
    {
        &self.open_orders
    }

    pub fn pending_orders(&self) -> (r: &[Order])
        ensures
            r@ == self.pending_orders@,
    {
        self.pending_orders.as_slice()
    }
}

/// One message from the four streams that feed the observation.
#[derive(Debug, PartialEq, Eq)]
pub enum Message {
    Execution(Execution),
    Orderbook(Orderbook),
    Inventory(Inventory),
    OpenOrders(OpenOrders),
}

/// The observation while it is being gathered: executions accumulate, and the
/// latest book, inventory and open orders are kept once they arrive.
#[derive(Debug)]
pub struct Warmup {
    pub info: MarketInfo,
    pub executions: Vec<Execution>,
    pub orderbook: Option<Orderbook>,
    pub inventory: Option<Inventory>,
    pub open_orders: Option<OpenOrders>,
}

impl Warmup {
    /// Whether the book, the inventory and the open orders have all arrived.
    pub open spec fn spec_is_ready(&self) -> bool {
        self.orderbook is Some && self.inventory is Some && self.open_orders is Some
    }

    pub fn new(info: MarketInfo) -> (r: Warmup)
        ensures
            r.info == info,
            r.executions@.len() == 0,
            r.orderbook is None,
            r.inventory is None,
            r.open_orders is None,
    {
        Warmup { info, executions: Vec::new(), orderbook: None, inventory: None, open_orders: None }
    }

    /// Takes one message in: an execution is recorded, anything else replaces the
    /// latest value of its stream.
    pub fn receive(&mut self, message: Message)
        ensures
            final(self).info == old(self).info,
            match message {
                Message::Execution(e) => final(self).executions@ == old(self).executions@.push(e)
                    && final(self).orderbook == old(self).orderbook && final(self).inventory
                    == old(self).inventory && final(self).open_orders == old(self).open_orders,
                Message::Orderbook(b) => final(self).orderbook == Some(b) && final(self).executions
                    == old(self).executions && final(self).inventory == old(self).inventory
                    && final(self).open_orders == old(self).open_orders,
                Message::Inventory(i) => final(self).inventory == Some(i) && final(self).executions
                    == old(self).executions && final(self).orderbook == old(self).orderbook
                    && final(self).open_orders == old(self).open_orders,
                Message::OpenOrders(o) => final(self).open_orders == Some(o)
                    && final(self).executions == old(self).executions && final(self).orderbook
                    == old(self).orderbook && final(self).inventory == old(self).inventory,
            },
    {
        match message {
            Message::Execution(e) => self.executions.push(e),
            Message::Orderbook(b) => self.orderbook = Some(b),
            Message::Inventory(i) => self.inventory = Some(i),
            Message::OpenOrders(o) => self.open_orders = Some(o),
        }
    }

    pub fn is_ready(&self) -> (r: bool)
        ensures
            r == self.spec_is_ready(),
    {
        self.orderbook.is_some() && self.inventory.is_some() && self.open_orders.is_some()
    }

    /// The observation, once the book, the inventory and the open orders have all
    /// arrived; it starts with no pending orders.
    pub fn finish(self) -> (r: Option<Observation>)
        ensures
            r is Some <==> self.spec_is_ready(),
            r matches Some(o) ==> o == (Observation {
                info: self.info,
                executions: self.executions,
                orderbook: self.orderbook->0,
                inventory: self.inventory->0,
                open_orders: self.open_orders->0,
                pending_orders: o.pending_orders,
            }) && o.pending_orders@.len() == 0,
    {
        match (self.orderbook, self.inventory, self.open_orders) {
            (Some(orderbook), Some(inventory), Some(open_orders)) => Some(
                Observation {
                    info: self.info,
                    executions: self.executions,
                    orderbook,
                    inventory,
                    open_orders,
                    pending_orders: Vec::new(),
                },
            ),
            _ => None,
        }
    }
}

impl Observation {
    /// Takes one message of the steady state in, and says whether it was a book
    /// update: only then is the policy evaluated.
    pub fn dispatch(&mut self, message: Message) -> (r: bool)
        ensures
            r == (message is Orderbook),
            match message {
                Message::Execution(e) => final(self).executions@ == old(self).executions@.push(e)
                    && final(self).info == old(self).info && final(self).orderbook
                    == old(self).orderbook && final(self).inventory == old(self).inventory
                    && final(self).open_orders == old(self).open_orders
                    && final(self).pending_orders == old(self).pending_orders,
                Message::Orderbook(b) => *final(self) == (Observation {
                    orderbook: b,
                    ..*old(self)
                }),
                Message::Inventory(i) => *final(self) == (Observation {
                    inventory: i,
                    ..*old(self)
                }),
                Message::OpenOrders(o) => *final(self) == (Observation {
                    open_orders: o,
                    ..*old(self)
                }),
            },
    {
        match message {
            Message::Execution(e) => {
                self.insert_execution(e);
                false
            },
            Message::Orderbook(b) => {
                self.update_orderbook(b);
                true
            },
            Message::Inventory(i) => {
                self.update_inventory(i);
                false
            },
            Message::OpenOrders(o) => {
                self.update_open_orders(o);
                false
            },
        }
    }
}

} // verus!
