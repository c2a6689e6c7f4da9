use vstd::prelude::*;

use crate::decimal::{Amount, Price};
use crate::types::{OrderId, OrderType, Side};

verus! {

/// One of our own resting orders; `amount` is the quantity that remains.
#[derive(Debug, PartialEq, Eq)]
pub struct OrderState {
    pub id: OrderId,
    pub side: Side,
    pub price: Price,
    pub amount: Amount,
}

impl Clone for OrderState {
    fn clone(&self) -> (r: Self)
        ensures
            r == *self,
    {
        OrderState { id: self.id.clone(), side: self.side, price: self.price, amount: self.amount }
    }
}

impl OrderState {
    pub fn new(id: OrderId, side: Side, price: Price, amount: Amount) -> (r: OrderState)
        ensures
            r == (OrderState { id, side, price, amount }),
    {
        OrderState { id, side, price, amount }
    }

    pub fn id(&self) -> (r: &OrderId)
        ensures
            *r == self.id,
    {
        &self.id
    }

    pub fn side(&self) -> (r: Side)
        ensures
            r == self.side,
    {
        self.side
    }

    pub fn price(&self) -> (r: Price)
        ensures
            r == self.price,
    {
        self.price
    }

    pub fn amount(&self) -> (r: Amount)
        ensures
            r == self.amount,
    {
        self.amount
    }

    /// The order that replaces this one by `new_order`.
    pub fn to_update_order(&self, new_order: NewOrder) -> (r: UpdateOrder)
        ensures
            r == (UpdateOrder { id: self.id, new_order }),
    {
        UpdateOrder { id: self.id.clone(), new_order }
    }

    /// The order that cancels this one.
    pub fn to_cancel_order(&self) -> (r: CancelOrder)
        ensures
            r == (CancelOrder { id: self.id }),
    {
        CancelOrder { id: self.id.clone() }
    }
}

/// Our own open orders as last reported, with the time of the last change.
#[derive(Debug, PartialEq, Eq)]
pub struct OpenOrders {
    pub timestamp: u64,
    pub orders: Vec<OrderState>,
}

/// What a set of open orders holds, as mathematical values.
pub struct OpenOrdersView {
    pub timestamp: u64,
    pub orders: Seq<OrderState>,
}

impl View for OpenOrders {
    type V = OpenOrdersView;

    open spec fn view(&self) -> OpenOrdersView {
        OpenOrdersView { timestamp: self.timestamp, orders: self.orders@ }
    }
}

impl Clone for OpenOrders {
    fn clone(&self) -> (r: Self)
        ensures
            r@ == self@,
    {
        let orders = self.orders.clone();
        assert(orders@ =~= self.orders@);
        OpenOrders { timestamp: self.timestamp, orders }
    }
}

/// The orders of `s` that rest on `side`, in their order.
pub open spec fn on_side(s: Seq<OrderState>, side: Side) -> Seq<OrderState> {
    s.filter(|o: OrderState| o.side == side)
}

/// The total remaining amount of the orders of `s` on `side`.
pub open spec fn side_total(s: Seq<OrderState>, side: Side) -> int
    decreases s.len(),
{
    if s.len() == 0 {
        0
    } else {
        side_total(s.drop_last(), side) + if s.last().side == side {
            s.last().amount@
        } else {
            0
        }
    }
}

/// The sum of the absolute remaining amounts of `s`.
pub open spec fn abs_total(s: Seq<OrderState>) -> int
    decreases s.len(),
{
    if s.len() == 0 {
        0
    } else {
        abs_total(s.drop_last()) + if s.last().amount@ >= 0 {
            s.last().amount@
        } else {
            -s.last().amount@
        }
    }
}

proof fn lemma_side_total_bounded(s: Seq<OrderState>, side: Side)
    ensures
        -abs_total(s) <= side_total(s, side) <= abs_total(s),
    decreases s.len(),
{
    if s.len() > 0 {
        lemma_side_total_bounded(s.drop_last(), side);
    }
}

pub proof fn lemma_abs_total_nonneg(s: Seq<OrderState>)
    ensures
        abs_total(s) >= 0,
    decreases s.len(),
{
    if s.len() > 0 {
        lemma_abs_total_nonneg(s.drop_last());
    }
}

pub proof fn lemma_abs_total_prefix(s: Seq<OrderState>, n: int)
    requires
        0 <= n <= s.len(),
    ensures
        abs_total(s.take(n)) <= abs_total(s),
    decreases s.len(),
{
    if n < s.len() {
        assert(s.drop_last().take(n) =~= s.take(n));
        lemma_abs_total_prefix(s.drop_last(), n);
    } else {
        assert(s.take(n) =~= s);
    }
}

impl OpenOrders {
    pub fn new(timestamp: u64, orders: Vec<OrderState>) -> (r: OpenOrders)
        ensures
            r == (OpenOrders { timestamp, orders }),
    {
        OpenOrders { timestamp, orders }
    }

    pub fn timestamp(&self) -> (r: u64)
        ensures
            r == self.timestamp,
    {
        self.timestamp
    }

    pub fn orders(&self) -> (r: &[OrderState])
        ensures
            r@ == self.orders@,
    {
        self.orders.as_slice()
    }

    /// Copies of the orders on `side`, in their order.
    pub fn side_orders(&self, side: Side) -> (r: Vec<OrderState>)
        ensures
            r@ == on_side(self.orders@, side),
    {
        let mut r: Vec<OrderState> = Vec::new();
        let mut i: usize = 0;
        while i < self.orders.len()
            invariant
                i <= self.orders@.len(),
                r@ == on_side(self.orders@.take(i as int), side),
            decreases self.orders@.len() - i,
        {
            let o = &self.orders[i];
            proof {
                let pred = |o: OrderState| o.side == side;
                assert(self.orders@.take(i as int + 1) =~= self.orders@.take(i as int).push(*o));
                self.orders@.take(i as int).lemma_filter_push(*o, pred);
            }
            if o.side == side {
                r.push(o.clone());
            }
            i = i + 1;
        }
        assert(self.orders@.take(i as int) =~= self.orders@);
        r
    }

    pub fn asks(&self) -> (r: Vec<OrderState>)
        ensures
            r@ == on_side(self.orders@, Side::Ask),
    {
        self.side_orders(Side::Ask)
    }

    pub fn bids(&self) -> (r: Vec<OrderState>)
        ensures
            r@ == on_side(self.orders@, Side::Bid),
    {
        self.side_orders(Side::Bid)
    }

    /// The total remaining amount on `side`; the sum of the absolute amounts must be
    /// representable.
    pub fn side_amount(&self, side: Side) -> (r: Amount)
        requires
            abs_total(self.orders@) <= i128::MAX,
        ensures
            r@ == side_total(self.orders@, side),
    {
        let mut sum = Amount::zero();
        let mut i: usize = 0;
        while i < self.orders.len()
            invariant
                i <= self.orders@.len(),
                abs_total(self.orders@) <= i128::MAX,
                sum@ == side_total(self.orders@.take(i as int), side),
            decreases self.orders@.len() - i,
        {
            proof {
                let t = self.orders@.take(i as int + 1);
                assert(t.drop_last() =~= self.orders@.take(i as int));
                lemma_side_total_bounded(t, side);
                lemma_abs_total_prefix(self.orders@, i as int + 1);
            }
            if self.orders[i].side == side {
                sum = sum.add(self.orders[i].amount);
            }
            i = i + 1;
        }
        assert(self.orders@.take(i as int) =~= self.orders@);
        sum
    }

    pub fn ask_amount(&self) -> (r: Amount)
        requires
            abs_total(self.orders@) <= i128::MAX,
        ensures
            r@ == side_total(self.orders@, Side::Ask),
    {
        self.side_amount(Side::Ask)
    }

    pub fn bid_amount(&self) -> (r: Amount)
        requires
            abs_total(self.orders@) <= i128::MAX,
        ensures
            r@ == side_total(self.orders@, Side::Bid),
    {
        self.side_amount(Side::Bid)
    }
}

// ---------------------------------------------------------------- actions

/// A request to place a new order.
#[derive(Copy, Clone, Debug, PartialEq, Eq, Structural)]
pub struct NewOrder {
    pub order_type: OrderType,
    pub order_side: Side,
    pub price: Price,
    pub amount: Amount,
}

impl NewOrder {
    pub fn new(order_type: OrderType, order_side: Side, price: Price, amount: Amount) -> (r:
        NewOrder)
        ensures
            r == (NewOrder { order_type, order_side, price, amount }),
    {
        NewOrder { order_type, order_side, price, amount }
    }

    pub fn order_side(&self) -> (r: Side)
        ensures
            r == self.order_side,
    {
        self.order_side
    }

    pub fn order_type(&self) -> (r: OrderType)
        ensures
            r == self.order_type,
    {
        self.order_type
    }

    pub fn price(&self) -> (r: Price)
        ensures
            r == self.price,
    {
        self.price
    }

    pub fn amount(&self) -> (r: Amount)
        ensures
            r == self.amount,
    {
        self.amount
    }
}

/// A request to replace the order `id` by `new_order`.
#[derive(Debug, PartialEq, Eq)]
pub struct UpdateOrder {
    pub id: OrderId,
    pub new_order: NewOrder,
}

impl UpdateOrder {
    pub fn new(id: OrderId, new_order: NewOrder) -> (r: UpdateOrder)
        ensures
            r == (UpdateOrder { id, new_order }),
    {
        UpdateOrder { id, new_order }
    }

    pub fn id(&self) -> (r: &OrderId)
        ensures
            *r == self.id,
    {
        &self.id
    }
}

/// A request to cancel the order `id`.
#[derive(Debug, PartialEq, Eq)]
pub struct CancelOrder {
    pub id: OrderId,
}

impl Clone for CancelOrder {
    fn clone(&self) -> (r: Self)
        ensures
            r == *self,
    {
        CancelOrder { id: self.id.clone() }
    }
}

impl CancelOrder {
    pub fn new(id: OrderId) -> (r: CancelOrder)
        ensures
            r == (CancelOrder { id }),
    {
        CancelOrder { id }
    }

    pub fn id(&self) -> (r: &OrderId)
        ensures
            *r == self.id,
    {
        &self.id
    }
}

/// An action that a policy asks for.
#[derive(Debug, PartialEq, Eq)]
pub enum Order {
    New(NewOrder),
    Cancel(CancelOrder),
}

impl Clone for Order {
    fn clone(&self) -> (r: Self)
        ensures
            r == *self,
    {
        match self {
            Order::New(o) => Order::New(*o),
            Order::Cancel(c) => Order::Cancel(c.clone()),
        }
    }
}

impl From<NewOrder> for Order {
    fn from(order: NewOrder) -> (r: Order) {
        Order::New(order)
    }
}

impl vstd::std_specs::convert::FromSpecImpl<NewOrder> for Order {
    open spec fn obeys_from_spec() -> bool {
        true
    }

    open spec fn from_spec(order: NewOrder) -> Order {
        Order::New(order)
    }
}

impl From<CancelOrder> for Order {
    fn from(order: CancelOrder) -> (r: Order) {
        Order::Cancel(order)
    }
}

impl vstd::std_specs::convert::FromSpecImpl<CancelOrder> for Order {
    open spec fn obeys_from_spec() -> bool {
        true
    }

    open spec fn from_spec(order: CancelOrder) -> Order {
        Order::Cancel(order)
    }
}

impl Order {
    /// The action that places a new order.
    pub fn create(order_type: OrderType, order_side: Side, price: Price, amount: Amount) -> (r:
        Order)
        ensures
            r == Order::New(NewOrder { order_type, order_side, price, amount }),
    {
        Order::New(NewOrder::new(order_type, order_side, price, amount))
    }

    /// The action that cancels the order `id`.
    pub fn cancel(id: OrderId) -> (r: Order)
        ensures
            r == Order::Cancel(CancelOrder { id }),
    {
        Order::Cancel(CancelOrder::new(id))
    }
}

/// The broker's answer to a submitted order.
#[derive(Debug, PartialEq, Eq)]
pub enum OrderResponse {
    Accept(OrderId),
    Reject,
}

} // verus!
