use vstd::prelude::*;

use crate::decimal::{Amount, Decimal, Price};
use crate::types::{Side, TradeId};

verus! {

/// A public trade: the maker side rested in the book before the trade.
#[derive(Debug, PartialEq, Eq)]
pub struct Execution {
    pub timestamp: u64,
    pub id: TradeId,
    pub maker_side: Side,
    pub price: Price,
    pub amount: Amount,
}

impl Clone for Execution {
    fn clone(&self) -> (r: Self)
        ensures
            r == *self,
    {
        Execution {
            timestamp: self.timestamp,
            id: self.id.clone(),
            maker_side: self.maker_side,
            price: self.price,
            amount: self.amount,
        }
    }
}

impl Execution {
    pub fn new(timestamp: u64, id: TradeId, maker_side: Side, price: Price, amount: Amount) -> (r:
        Execution)
        ensures
            r == (Execution { timestamp, id, maker_side, price, amount }),
    {
        Execution { timestamp, id, maker_side, price, amount }
    }

    pub fn timestamp(&self) -> (r: u64)
        ensures
            r == self.timestamp,
    {
        self.timestamp
    }

    pub fn id(&self) -> (r: &TradeId)
        ensures
            *r == self.id,
    {
        &self.id
    }

    pub fn maker_side(&self) -> (r: Side)
        ensures
            r == self.maker_side,
    {
        self.maker_side
    }

    /// The side that took liquidity: the opposite of the maker side.
    pub fn taker_side(&self) -> (r: Side)
        ensures
            r == self.maker_side.spec_opposite(),
    {
        self.maker_side.opposite()
    }

    pub fn price(&self) -> (r: Price)
        ensures
            r == self.price,
    {
        self.price
    }

    pub fn amount(&self) -> (r: Amount)
        ensures
            r == self.amount,
    {
        self.amount
    }
}

/// Holdings reported as a base and a quote amount.
#[derive(Copy, Clone, Debug, Default, PartialEq, Eq, Structural)]
pub struct Balances {
    pub ba: Amount,
    pub qa: Amount,
}

impl Balances {
    pub fn new(ba: Amount, qa: Amount) -> (r: Balances)
        ensures
            r == (Balances { ba, qa }),
    {
        Balances { ba, qa }
    }

    pub fn base_amount(&self) -> (r: Amount)
        ensures
            r == self.ba,
    {
        self.ba
    }

    pub fn quote_amount(&self) -> (r: Amount)
        ensures
            r == self.qa,
    {
        self.qa
    }
}

/// Our inventory: a signed position, or balances of the two assets.
#[derive(Copy, Clone, Debug, PartialEq, Eq, Structural)]
pub enum Inventory {
    Position(Amount),
    Balances(Balances),
}

impl Inventory {
    /// The single signed number that stands for the inventory.
    pub open spec fn spec_position(self) -> Amount {
        match self {
            Inventory::Position(p) => p,
            Inventory::Balances(b) => b.ba,
        }
    }

    /// The position, or the base leg of the balances.
    pub fn position(&self) -> (r: Amount)
        ensures
            r == self.spec_position(),
    {
        match self {
            Inventory::Position(position) => *position,
            Inventory::Balances(balances) => balances.base_amount(),
        }
    }
}

/// Fixed parameters of a venue.
#[derive(Copy, Clone, Debug, PartialEq, Eq, Structural)]
pub struct MarketInfo {
    pub max_order_size: Amount,
    pub min_order_size: Amount,
    pub lot_size: Amount,
    pub max_order_price: Price,
    pub min_order_price: Price,
    pub tick_size: Decimal,
}

impl MarketInfo {
    pub fn max_order_size(&self) -> (r: Amount)
        ensures
            r == self.max_order_size,
    {
        self.max_order_size
    }

    pub fn min_order_size(&self) -> (r: Amount)
        ensures
            r == self.min_order_size,
    {
        self.min_order_size
    }

    pub fn lot_size(&self) -> (r: Amount)
        ensures
            r == self.lot_size,
    {
        self.lot_size
    }

    pub fn max_order_price(&self) -> (r: Price)
        ensures
            r == self.max_order_price,
    {
        self.max_order_price
    }

    pub fn min_order_price(&self) -> (r: Price)
        ensures
            r == self.min_order_price,
    {
        self.min_order_price
    }

    pub fn tick_size(&self) -> (r: Decimal)
        ensures
            r == self.tick_size,
    {
        self.tick_size
    }
}

} // verus!
