use vstd::prelude::*;
use vstd::string::to_string_from_display_ensures;

use crate::decimal::{Amount, Decimal, Price};

verus! {

// ---------------------------------------------------------------- identifiers

/// Identifier of one of our own orders, assigned by the exchange.
#[derive(Debug, Eq, Hash)]
pub struct OrderId(pub String);

/// Identifier of a resting offer in the public book.
#[derive(Debug, Eq, Hash)]
pub struct OfferId(pub String);

/// Identifier of a public trade.
#[derive(Debug, Eq, Hash)]
pub struct TradeId(pub String);

impl View for OrderId {
    type V = Seq<char>;

    open spec fn view(&self) -> Seq<char> {
        self.0@
    }
}

impl View for OfferId {
    type V = Seq<char>;

    open spec fn view(&self) -> Seq<char> {
        self.0@
    }
}

impl View for TradeId {
    type V = Seq<char>;

    open spec fn view(&self) -> Seq<char> {
        self.0@
    }
}

impl OrderId {
    /// The identifier whose text is `id` written out.
    pub fn new<S: std::fmt::Display>(id: S) -> (r: OrderId)
        ensures
            to_string_from_display_ensures::<S>(&id, r.0),
    {
        OrderId(id.to_string())
    }

    pub fn as_str(&self) -> (r: &str)
        ensures
            r@ == self@,
    {
        self.0.as_str()
    }
}

impl OfferId {
    /// The identifier whose text is `id` written out.
    pub fn new<S: std::fmt::Display>(id: S) -> (r: OfferId)
        ensures
            to_string_from_display_ensures::<S>(&id, r.0),
    {
        OfferId(id.to_string())
    }

    pub fn as_str(&self) -> (r: &str)
        ensures
            r@ == self@,
    {
        self.0.as_str()
    }
}

impl TradeId {
    /// The identifier whose text is `id` written out.
    pub fn new<S: std::fmt::Display>(id: S) -> (r: TradeId)
        ensures
            to_string_from_display_ensures::<S>(&id, r.0),
    {
        TradeId(id.to_string())
    }

    pub fn as_str(&self) -> (r: &str)
        ensures
            r@ == self@,
    {
        self.0.as_str()
    }
}

impl Clone for OrderId {
    fn clone(&self) -> (r: Self)
        ensures
            r == *self,
    {
        OrderId(self.0.clone())
    }
}

impl Clone for OfferId {
    fn clone(&self) -> (r: Self)
        ensures
            r == *self,
    {
        OfferId(self.0.clone())
    }
}

impl Clone for TradeId {
    fn clone(&self) -> (r: Self)
        ensures
            r == *self,
    {
        TradeId(self.0.clone())
    }
}

impl PartialEq for OrderId {
    fn eq(&self, other: &OrderId) -> (r: bool) {
        self.0 == other.0
    }
}

impl vstd::std_specs::cmp::PartialEqSpecImpl for OrderId {
    open spec fn obeys_eq_spec() -> bool {
        true
    }

    open spec fn eq_spec(&self, other: &OrderId) -> bool {
        self@ == other@
    }
}

impl PartialEq for OfferId {
    fn eq(&self, other: &OfferId) -> (r: bool) {
        self.0 == other.0
    }
}

impl vstd::std_specs::cmp::PartialEqSpecImpl for OfferId {
    open spec fn obeys_eq_spec() -> bool {
        true
    }

    open spec fn eq_spec(&self, other: &OfferId) -> bool {
        self@ == other@
    }
}

impl PartialEq for TradeId {
    fn eq(&self, other: &TradeId) -> (r: bool) {
        self.0 == other.0
    }
}

impl vstd::std_specs::cmp::PartialEqSpecImpl for TradeId {
    open spec fn obeys_eq_spec() -> bool {
        true
    }

    open spec fn eq_spec(&self, other: &TradeId) -> bool {
        self@ == other@
    }
}

// ---------------------------------------------------------------- sides and kinds

/// The side of the book an offer or order rests on.
#[derive(Copy, Clone, Debug, PartialEq, Eq, Structural, Hash)]
pub enum Side {
    Ask,
    Bid,
}

impl Side {
    pub open spec fn spec_opposite(self) -> Side {
        match self {
            Side::Ask => Side::Bid,
            Side::Bid => Side::Ask,
        }
    }

    pub fn opposite(&self) -> (r: Side)
        ensures
            r == self.spec_opposite(),
            r != *self,
    {
        match self {
            Side::Ask => Side::Bid,
            Side::Bid => Side::Ask,
        }
    }

    pub fn is_ask(&self) -> (r: bool)
        ensures
            r == (*self == Side::Ask),
    {
        matches!(self, Side::Ask)
    }

    pub fn is_bid(&self) -> (r: bool)
        ensures
            r == (*self == Side::Bid),
    {
        matches!(self, Side::Bid)
    }
}

#[derive(Copy, Clone, Debug, PartialEq, Eq, Structural, Hash)]
pub enum OrderType {
    Limit,
    Market,
}

// ---------------------------------------------------------------- public book

/// A resting price level in the public book.
#[derive(Debug, PartialEq, Eq)]
pub struct Offer {
    pub id: OfferId,
    pub price: Price,
    pub amount: Amount,
}

impl Clone for Offer {
    fn clone(&self) -> (r: Self)
        ensures
            r == *self,
    {
        Offer { id: self.id.clone(), price: self.price, amount: self.amount }
    }
}

impl Offer {
    pub fn new(id: OfferId, price: Price, amount: Amount) -> (r: Offer)
        ensures
            r == (Offer { id, price, amount }),
    {
        Offer { id, price, amount }
    }

    pub fn id(&self) -> (r: &OfferId)
        ensures
            *r == self.id,
    {
        &self.id
    }

    pub fn price(&self) -> (r: Price)
        ensures
            r == self.price,
    {
        self.price
    }

    pub fn amount(&self) -> (r: Amount)
        ensures
            r == self.amount,
    {
        self.amount
    }

    pub fn into_inner(self) -> (r: (OfferId, Price, Amount))
        ensures
            r == (self.id, self.price, self.amount),
    {
        let Offer { id, price, amount } = self;
        (id, price, amount)
    }
}

/// The public book: asks from the best (lowest) price upward, bids from the best
/// (highest) price downward.
#[derive(Debug, PartialEq, Eq)]
pub struct Orderbook {
    pub timestamp: u64,
    pub asks: Vec<Offer>,
    pub bids: Vec<Offer>,
}

/// What a book holds, as mathematical values.
pub struct OrderbookView {
    pub timestamp: u64,
    pub asks: Seq<Offer>,
    pub bids: Seq<Offer>,
}

impl View for Orderbook {
    type V = OrderbookView;

    open spec fn view(&self) -> OrderbookView {
        OrderbookView { timestamp: self.timestamp, asks: self.asks@, bids: self.bids@ }
    }
}

impl Clone for Orderbook {
    fn clone(&self) -> (r: Self)
        ensures
            r@ == self@,
    {
        let asks = self.asks.clone();
        let bids = self.bids.clone();
        assert(asks@ =~= self.asks@);
        assert(bids@ =~= self.bids@);
        Orderbook { timestamp: self.timestamp, asks, bids }
    }
}

impl Default for Orderbook {
    fn default() -> (r: Self)
        ensures
            r.timestamp == 0,
            r.asks@.len() == 0,
            r.bids@.len() == 0,
    {
        Orderbook { timestamp: 0, asks: Vec::new(), bids: Vec::new() }
    }
}

/// Every offer of `s` comes at a price no greater than the one after it.
pub open spec fn ascending(s: Seq<Offer>) -> bool {
    forall|i: int, j: int| 0 <= i < j < s.len() ==> s[i].price@ <= s[j].price@
}

/// Every offer of `s` comes at a price no smaller than the one after it.
pub open spec fn descending(s: Seq<Offer>) -> bool {
    forall|i: int, j: int| 0 <= i < j < s.len() ==> s[i].price@ >= s[j].price@
}

/// No two offers of `s` share an identifier.
pub open spec fn unique_offer_ids(s: Seq<Offer>) -> bool {
    forall|i: int, j: int| 0 <= i < j < s.len() ==> s[i].id@ != s[j].id@
}

/// Some offer of `s` has the identifier `id`.
pub open spec fn has_offer(s: Seq<Offer>, id: Seq<char>) -> bool {
    exists|i: int| 0 <= i < s.len() && s[i].id@ == id
}

impl Orderbook {
    /// The structural invariant of a book: each side sorted by price in its own
    /// direction, and identifiers unique within a side.
    pub open spec fn wf(&self) -> bool {
        &&& ascending(self.asks@)
        &&& descending(self.bids@)
        &&& unique_offer_ids(self.asks@)
        &&& unique_offer_ids(self.bids@)
    }

    pub fn new(timestamp: u64, asks: Vec<Offer>, bids: Vec<Offer>) -> (r: Orderbook)
        ensures
            r == (Orderbook { timestamp, asks, bids }),
    {
        Orderbook { timestamp, asks, bids }
    }

    pub fn timestamp(&self) -> (r: u64)
        ensures
            r == self.timestamp,
    {
        self.timestamp
    }

    pub fn asks(&self) -> (r: &[Offer])
        ensures
            r@ == self.asks@,
    {
        self.asks.as_slice()
    }

    pub fn bids(&self) -> (r: &[Offer])
        ensures
            r@ == self.bids@,
    {
        self.bids.as_slice()
    }

    pub fn best_ask(&self) -> (r: Option<&Offer>)
        ensures
            self.asks@.len() == 0 ==> r is None,
            self.asks@.len() > 0 ==> r == Some(&self.asks@[0]),
    {
        self.asks.first()
    }

    pub fn best_bid(&self) -> (r: Option<&Offer>)
        ensures
            self.bids@.len() == 0 ==> r is None,
            self.bids@.len() > 0 ==> r == Some(&self.bids@[0]),
    {
        self.bids.first()
    }

    pub fn best_ask_price(&self) -> (r: Option<Price>)
        ensures
            self.asks@.len() == 0 ==> r is None,
            self.asks@.len() > 0 ==> r == Some(self.asks@[0].price),
    {
        if self.asks.len() == 0 {
            None
        } else {
            Some(self.asks[0].price)
        }
    }

    pub fn best_bid_price(&self) -> (r: Option<Price>)
        ensures
            self.bids@.len() == 0 ==> r is None,
            self.bids@.len() > 0 ==> r == Some(self.bids@[0].price),
    {
        if self.bids.len() == 0 {
            None
        } else {
            Some(self.bids[0].price)
        }
    }
}

} // verus!
