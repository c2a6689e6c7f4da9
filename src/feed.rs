use vstd::prelude::*;

use crate::decimal::{Amount, Price};
use crate::open_orders_writer::{CreateOp as OrderCreateOp, DeleteOp as OrderDeleteOp, OpenOrdersWriteOp, UpdateOp as OrderUpdateOp};
use crate::market::Execution;
use crate::order::{OpenOrders, OpenOrdersView, OrderState};
use crate::orderbook_writer::{insert_sorted, inserted, CreateOp, DeleteOp, OrderbookWriteOp, UpdateOp};
use crate::text::sorted_upto;
use crate::types::{Offer, OfferId, OrderId, Orderbook, OrderbookView, Side, TradeId};

verus! {

/// What a table message of the exchange feed does to its table.
#[derive(Copy, Clone, Debug, PartialEq, Eq, Structural)]
pub enum TableAction {
    Partial,
    Insert,
    Update,
    Delete,
}

/// One row of a book table, decoded: a side the library knows, if any, and the
/// fields that the row carries.
#[derive(Debug)]
pub struct BookRow {
    pub side: Option<Side>,
    pub id: OfferId,
    pub price: Option<Price>,
    pub size: Option<Amount>,
}

/// The offer that a complete row describes.
pub open spec fn row_offer(r: BookRow) -> Offer {
    Offer { id: r.id, price: r.price->0, amount: r.size->0 }
}

/// A row that names a side, a price and a size.
pub open spec fn row_complete(r: BookRow) -> bool {
    r.side is Some && r.price is Some && r.size is Some
}

/// The offers of the first `n` rows on `side`, in order.
pub open spec fn offers_on(rows: Seq<BookRow>, side: Side, n: int) -> Seq<Offer>
    decreases n,
{
    if n <= 0 {
        Seq::empty()
    } else if rows[n - 1].side == Some(side) {
        offers_on(rows, side, n - 1).push(row_offer(rows[n - 1]))
    } else {
        offers_on(rows, side, n - 1)
    }
}

/// The book that a snapshot's rows describe: each side sorted, equal prices in the
/// order of the rows.
pub open spec fn snapshot_view(rows: Seq<BookRow>, timestamp: u64) -> OrderbookView {
    let asks = offers_on(rows, Side::Ask, rows.len() as int);
    let bids = offers_on(rows, Side::Bid, rows.len() as int);
    OrderbookView {
        timestamp,
        asks: sorted_upto(Side::Ask, asks, asks.len() as int),
        bids: sorted_upto(Side::Bid, bids, bids.len() as int),
    }
}

/// The op that one row of an insert, update or delete message stands for.
pub open spec fn row_op(action: TableAction, timestamp: u64, r: BookRow) -> OrderbookWriteOp {
    match action {
        TableAction::Update => OrderbookWriteOp::Update(
            UpdateOp { timestamp, side: r.side->0, id: r.id, price: r.price, amount: r.size },
        ),
        TableAction::Delete => OrderbookWriteOp::Delete(
            DeleteOp { timestamp, side: r.side->0, id: r.id },
        ),
        _ => OrderbookWriteOp::Create(
            CreateOp { timestamp, side: r.side->0, id: r.id, price: r.price->0, amount: r.size->0 },
        ),
    }
}

/// Whether a message's rows carry what its action needs: everything for a partial or
/// an insert, a side for an update or a delete.
pub open spec fn rows_usable(action: TableAction, rows: Seq<BookRow>) -> bool {
    match action {
        TableAction::Partial | TableAction::Insert => forall|i: int|
            0 <= i < rows.len() ==> row_complete(#[trigger] rows[i]),
        _ => forall|i: int| 0 <= i < rows.len() ==> (#[trigger] rows[i]).side is Some,
    }
}

fn clone_id(id: &OfferId) -> (r: OfferId)
    ensures
        r == *id,
{
    id.clone()
}

/// The book ops that a message of the book table stands for: one snapshot for a
/// partial, and one op per row otherwise. `None` where a row lacks what its action
/// needs.
pub fn orderbook_ops(action: TableAction, timestamp: u64, rows: &Vec<BookRow>) -> (r: Option<
    Vec<OrderbookWriteOp>,
>)
    ensures
        r is Some <==> rows_usable(action, rows@),
        r matches Some(ops) ==> match action {
            TableAction::Partial => ops@.len() == 1 && ops@[0] is Snapshot && ops@[0]->Snapshot_0@
                == snapshot_view(rows@, timestamp),
            _ => ops@ == rows@.map_values(|row: BookRow| row_op(action, timestamp, row)),
        },
{
    let mut i: usize = 0;
    while i < rows.len()
        invariant
            i <= rows@.len(),
            forall|j: int|
                0 <= j < i ==> match action {
                    TableAction::Partial | TableAction::Insert => row_complete(#[trigger] rows@[j]),
                    _ => (#[trigger] rows@[j]).side is Some,
                },
        decreases rows@.len() - i,
    {
        let r = &rows[i];
        let ok = match action {
            TableAction::Partial | TableAction::Insert => r.side.is_some() && r.price.is_some()
                && r.size.is_some(),
            _ => r.side.is_some(),
        };
        if !ok {
            proof {
                assert(!match action {
                    TableAction::Partial | TableAction::Insert => row_complete(rows@[i as int]),
                    _ => rows@[i as int].side is Some,
                });
            }
            return None;
        }
        i = i + 1;
    }
    match action {
        TableAction::Partial => {
            let mut asks: Vec<Offer> = Vec::new();
            let mut bids: Vec<Offer> = Vec::new();
            let mut k: usize = 0;
            while k < rows.len()
                invariant
                    k <= rows@.len(),
                    rows_usable(action, rows@),
                    action == TableAction::Partial,
                    asks@ == sorted_upto(
                        Side::Ask,
                        offers_on(rows@, Side::Ask, k as int),
                        offers_on(rows@, Side::Ask, k as int).len() as int,
                    ),
                    bids@ == sorted_upto(
                        Side::Bid,
                        offers_on(rows@, Side::Bid, k as int),
                        offers_on(rows@, Side::Bid, k as int).len() as int,
                    ),
                decreases rows@.len() - k,
            {
                let r = &rows[k];
                assert(row_complete(rows@[k as int]));
                let offer = Offer { id: clone_id(&r.id), price: r.price.unwrap(), amount: r.size.unwrap() };
                proof {
                    assert(offer == row_offer(rows@[k as int]));
                    lemma_sorted_push(Side::Ask, offers_on(rows@, Side::Ask, k as int), offer);
                    lemma_sorted_push(Side::Bid, offers_on(rows@, Side::Bid, k as int), offer);
                }
                match r.side {
                    Some(Side::Ask) => insert_sorted(&mut asks, Side::Ask, offer),
                    _ => insert_sorted(&mut bids, Side::Bid, offer),
                }
                k = k + 1;
            }
            let book = Orderbook { timestamp, asks, bids };
            let mut ops: Vec<OrderbookWriteOp> = Vec::new();
            ops.push(OrderbookWriteOp::Snapshot(book));
            Some(ops)
        },
        _ => {
            let mut ops: Vec<OrderbookWriteOp> = Vec::new();
            let mut k: usize = 0;
            while k < rows.len()
                invariant
                    k <= rows@.len(),
                    rows_usable(action, rows@),
                    action != TableAction::Partial,
                    ops@ == rows@.take(k as int).map_values(
                        |row: BookRow| row_op(action, timestamp, row),
                    ),
                decreases rows@.len() - k,
            {
                let r = &rows[k];
                let side = r.side.unwrap();
                let id = clone_id(&r.id);
                let op = match action {
                    TableAction::Update => OrderbookWriteOp::Update(
                        UpdateOp { timestamp, side, id, price: r.price, amount: r.size },
                    ),
                    TableAction::Delete => OrderbookWriteOp::Delete(DeleteOp { timestamp, side, id }),
                    _ => OrderbookWriteOp::Create(
                        CreateOp {
                            timestamp,
                            side,
                            id,
                            price: r.price.unwrap(),
                            amount: r.size.unwrap(),
                        },
                    ),
                };
                ops.push(op);
                k = k + 1;
                assert(ops@ =~= rows@.take(k as int).map_values(
                    |row: BookRow| row_op(action, timestamp, row),
                ));
            }
            assert(rows@.take(k as int) =~= rows@);
            Some(ops)
        },
    }
}

proof fn lemma_sorted_prefix(side: Side, s: Seq<Offer>, t: Seq<Offer>, n: int)
    requires
        0 <= n <= s.len(),
        n <= t.len(),
        forall|j: int| 0 <= j < n ==> s[j] == t[j],
    ensures
        sorted_upto(side, s, n) == sorted_upto(side, t, n),
    decreases n,
{
    if n > 0 {
        lemma_sorted_prefix(side, s, t, n - 1);
    }
}

proof fn lemma_sorted_push(side: Side, s: Seq<Offer>, o: Offer)
    ensures
        sorted_upto(side, s.push(o), s.len() + 1int) == inserted(side, sorted_upto(side, s, s.len() as int), o),
{
    lemma_sorted_prefix(side, s.push(o), s, s.len() as int);
    assert(s.push(o)[s.len() as int] == o);
}

/// The status that the exchange reports for one of our orders.
#[derive(Copy, Clone, Debug, PartialEq, Eq, Structural)]
pub enum OrderStatus {
    New,
    PartiallyFilled,
    Filled,
    Canceled,
    Other,
}

/// One row of the order table, decoded.
#[derive(Debug)]
pub struct OrderRow {
    pub timestamp: u64,
    pub id: OrderId,
    pub status: OrderStatus,
    pub side: Option<Side>,
    pub price: Option<Price>,
    pub leaves: Option<Amount>,
}

/// A row that names a side, a price and a remaining quantity.
pub open spec fn order_row_complete(r: OrderRow) -> bool {
    r.side is Some && r.price is Some && r.leaves is Some
}

/// The order that a complete row describes.
pub open spec fn row_state(r: OrderRow) -> OrderState {
    OrderState { id: r.id, side: r.side->0, price: r.price->0, amount: r.leaves->0 }
}

/// The latest timestamp among the first `n` rows, or 0.
pub open spec fn latest(rows: Seq<OrderRow>, n: int) -> u64
    decreases n,
{
    if n <= 0 {
        0
    } else if rows[n - 1].timestamp > latest(rows, n - 1) {
        rows[n - 1].timestamp
    } else {
        latest(rows, n - 1)
    }
}

/// The ops of the first `n` rows of an insert or update message: a create for a new
/// order (or a partially filled one that is inserted), a delete for a cancelled or
/// filled one, an update of the remaining quantity for a partially filled one that is
/// updated, nothing for any other status. `None` where a row lacks what it needs.
pub open spec fn order_ops_upto(action: TableAction, rows: Seq<OrderRow>, n: int) -> Option<
    Seq<OpenOrdersWriteOp>,
>
    decreases n,
{
    if n <= 0 {
        Some(Seq::empty())
    } else {
        match order_ops_upto(action, rows, n - 1) {
            None => None,
            Some(prev) => {
                let r = rows[n - 1];
                let create = OpenOrdersWriteOp::Create(
                    OrderCreateOp { timestamp: r.timestamp, order: row_state(r) },
                );
                match r.status {
                    OrderStatus::Canceled | OrderStatus::Filled => Some(
                        prev.push(
                            OpenOrdersWriteOp::Delete(
                                OrderDeleteOp { timestamp: r.timestamp, id: r.id },
                            ),
                        ),
                    ),
                    OrderStatus::Other => Some(prev),
                    OrderStatus::PartiallyFilled if action != TableAction::Insert => {
                        if r.leaves is Some {
                            Some(
                                prev.push(
                                    OpenOrdersWriteOp::Update(
                                        OrderUpdateOp {
                                            timestamp: r.timestamp,
                                            id: r.id,
                                            side: None,
                                            price: None,
                                            amount: r.leaves,
                                        },
                                    ),
                                ),
                            )
                        } else {
                            None
                        }
                    },
                    _ => if order_row_complete(r) {
                        Some(prev.push(create))
                    } else {
                        None
                    },
                }
            },
        }
    }
}

proof fn lemma_order_ops_none(action: TableAction, rows: Seq<OrderRow>, i: int, n: int)
    requires
        0 <= i <= n,
        order_ops_upto(action, rows, i) is None,
    ensures
        order_ops_upto(action, rows, n) is None,
    decreases n - i,
{
    if i < n {
        lemma_order_ops_none(action, rows, i, n - 1);
    }
}

fn clone_order_id(id: &OrderId) -> (r: OrderId)
    ensures
        r == *id,
{
    id.clone()
}

/// The open-orders ops that a message of the order table stands for: one snapshot
/// holding every row's order for a partial, stamped with the latest row time; the
/// ops of `order_ops_upto` for an insert or an update; nothing for a delete.
pub fn open_orders_ops(action: TableAction, rows: &Vec<OrderRow>) -> (r: Option<
    Vec<OpenOrdersWriteOp>,
>)
    ensures
        action == TableAction::Partial ==> (r is Some <==> forall|i: int|
            0 <= i < rows@.len() ==> order_row_complete(#[trigger] rows@[i])),
        action == TableAction::Partial ==> (r matches Some(ops) ==> ops@.len() == 1 && ops@[0] is Snapshot
            && ops@[0]->Snapshot_0@ == (OpenOrdersView {
            timestamp: latest(rows@, rows@.len() as int),
            orders: rows@.map_values(|row: OrderRow| row_state(row)),
        })),
        action == TableAction::Delete ==> r is None,
        action == TableAction::Insert || action == TableAction::Update ==> match order_ops_upto(
            action,
            rows@,
            rows@.len() as int,
        ) {
            Some(s) => r matches Some(ops) && ops@ == s,
            None => r is None,
        },
{
    match action {
        TableAction::Delete => None,
        TableAction::Partial => {
            let mut orders: Vec<OrderState> = Vec::new();
            let mut stamp: u64 = 0;
            let mut i: usize = 0;
            while i < rows.len()
                invariant
                    action == TableAction::Partial,
                    i <= rows@.len(),
                    stamp == latest(rows@, i as int),
                    orders@ == rows@.take(i as int).map_values(|row: OrderRow| row_state(row)),
                    forall|j: int| 0 <= j < i ==> order_row_complete(#[trigger] rows@[j]),
                decreases rows@.len() - i,
            {
                let r = &rows[i];
                match (r.side, r.price, r.leaves) {
                    (Some(side), Some(price), Some(amount)) => {
                        orders.push(OrderState { id: clone_order_id(&r.id), side, price, amount });
                    },
                    _ => {
                        assert(!order_row_complete(rows@[i as int]));
                        assert(!(forall|j: int|
                            0 <= j < rows@.len() ==> order_row_complete(#[trigger] rows@[j])));
                        return None;
                    },
                }
                if r.timestamp > stamp {
                    stamp = r.timestamp;
                }
                i = i + 1;
                assert(orders@ =~= rows@.take(i as int).map_values(|row: OrderRow| row_state(row)));
            }
            assert(rows@.take(i as int) =~= rows@);
            let mut ops: Vec<OpenOrdersWriteOp> = Vec::new();
            ops.push(OpenOrdersWriteOp::Snapshot(OpenOrders { timestamp: stamp, orders }));
            Some(ops)
        },
        _ => {
            let mut ops: Vec<OpenOrdersWriteOp> = Vec::new();
            let mut i: usize = 0;
            while i < rows.len()
                invariant
                    i <= rows@.len(),
                    action != TableAction::Partial && action != TableAction::Delete,
                    order_ops_upto(action, rows@, i as int) == Some(ops@),
                decreases rows@.len() - i,
            {
                let r = &rows[i];
                let ghost prev = ops@;
                match r.status {
                    OrderStatus::Canceled | OrderStatus::Filled => {
                        ops.push(
                            OpenOrdersWriteOp::Delete(
                                OrderDeleteOp { timestamp: r.timestamp, id: clone_order_id(&r.id) },
                            ),
                        );
                    },
                    OrderStatus::Other => {},
                    OrderStatus::PartiallyFilled if action != TableAction::Insert => {
                        if r.leaves.is_none() {
                            proof {
                                lemma_order_ops_none(action, rows@, i as int + 1, rows@.len() as int);
                            }
                            return None;
                        }
                        ops.push(
                            OpenOrdersWriteOp::Update(
                                OrderUpdateOp {
                                    timestamp: r.timestamp,
                                    id: clone_order_id(&r.id),
                                    side: None,
                                    price: None,
                                    amount: r.leaves,
                                },
                            ),
                        );
                    },
                    _ => match (r.side, r.price, r.leaves) {
                        (Some(side), Some(price), Some(amount)) => {
                            ops.push(
                                OpenOrdersWriteOp::Create(
                                    OrderCreateOp {
                                        timestamp: r.timestamp,
                                        order: OrderState {
                                            id: clone_order_id(&r.id),
                                            side,
                                            price,
                                            amount,
                                        },
                                    },
                                ),
                            );
                        },
                        _ => {
                            proof {
                                lemma_order_ops_none(action, rows@, i as int + 1, rows@.len() as int);
                            }
                            return None;
                        },
                    },
                }
                i = i + 1;
            }
            Some(ops)
        },
    }
}

/// One row of the trade table, decoded: the side of the taker, where the library
/// knows it.
#[derive(Debug)]
pub struct TradeRow {
    pub timestamp: u64,
    pub id: Option<TradeId>,
    pub taker_side: Option<Side>,
    pub price: Option<Price>,
    pub size: Option<Amount>,
}

pub open spec fn trade_complete(r: TradeRow) -> bool {
    r.id is Some && r.taker_side is Some && r.price is Some && r.size is Some
}

/// The execution that a complete trade row describes: the maker rested on the side
/// opposite the taker's.
pub open spec fn row_execution(r: TradeRow) -> Execution {
    Execution {
        timestamp: r.timestamp,
        id: r.id->0,
        maker_side: r.taker_side->0.spec_opposite(),
        price: r.price->0,
        amount: r.size->0,
    }
}

fn clone_trade_id(id: &TradeId) -> (r: TradeId)
    ensures
        r == *id,
{
    id.clone()
}

/// The executions of a message of the trade table, or `None` where a row is
/// incomplete.
pub fn executions(rows: &Vec<TradeRow>) -> (r: Option<Vec<Execution>>)
    ensures
        r is Some <==> forall|i: int| 0 <= i < rows@.len() ==> trade_complete(#[trigger] rows@[i]),
        r matches Some(e) ==> e@ == rows@.map_values(|row: TradeRow| row_execution(row)),
{
    let mut out: Vec<Execution> = Vec::new();
    let mut i: usize = 0;
    while i < rows.len()
        invariant
            i <= rows@.len(),
            out@ == rows@.take(i as int).map_values(|row: TradeRow| row_execution(row)),
            forall|j: int| 0 <= j < i ==> trade_complete(#[trigger] rows@[j]),
        decreases rows@.len() - i,
    {
        let r = &rows[i];
        match (&r.id, r.taker_side, r.price, r.size) {
            (Some(id), Some(taker), Some(price), Some(amount)) => {
                out.push(
                    Execution {
                        timestamp: r.timestamp,
                        id: clone_trade_id(id),
                        maker_side: taker.opposite(),
                        price,
                        amount,
                    },
                );
            },
            _ => {
                assert(!trade_complete(rows@[i as int]));
                return None;
            },
        }
        i = i + 1;
        assert(out@ =~= rows@.take(i as int).map_values(|row: TradeRow| row_execution(row)));
    }
    assert(rows@.take(i as int) =~= rows@);
    Some(out)
}

/// The position that a message of the position table reports: the last row's, for a
/// partial or an update whose rows all carry one.
pub fn position(action: TableAction, rows: &Vec<Option<Amount>>) -> (r: Option<Amount>)
    ensures
        r is Some <==> (action == TableAction::Partial || action == TableAction::Update)
            && rows@.len() > 0 && forall|i: int| 0 <= i < rows@.len() ==> (#[trigger] rows@[i]) is Some,
        r matches Some(p) ==> p == rows@.last()->0,
{
    match action {
        TableAction::Partial | TableAction::Update => {
            let mut i: usize = 0;
            while i < rows.len()
                invariant
                    i <= rows@.len(),
                    forall|j: int| 0 <= j < i ==> (#[trigger] rows@[j]) is Some,
                decreases rows@.len() - i,
            {
                if rows[i].is_none() {
                    return None;
                }
                i = i + 1;
            }
            if rows.len() == 0 {
                None
            } else {
                rows[rows.len() - 1]
            }
        },
        _ => None,
    }
}

} // verus!
