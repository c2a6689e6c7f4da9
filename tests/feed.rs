use market_maker::decimal::Decimal;
use market_maker::feed::{
    executions, open_orders_ops, orderbook_ops, position, BookRow, OrderRow, OrderStatus,
    TableAction, TradeRow,
};
use market_maker::market::Execution;
use market_maker::open_orders_writer::OpenOrdersWriteOp;
use market_maker::order::{OpenOrders, OrderState};
use market_maker::orderbook_writer::OrderbookWriteOp;
use market_maker::types::{Offer, OfferId, OrderId, Orderbook, Side, TradeId};

fn dec(num: i64, scale: u32) -> Decimal {
    Decimal::new(num, scale)
}

fn book_row(side: Side, id: i64, price: i64, size: i64) -> BookRow {
    BookRow { side: Some(side), id: OfferId::new(id), price: Some(dec(price, 0)), size: Some(dec(size, 0)) }
}

#[test]
fn partial_book_rows_become_a_sorted_snapshot() {
    let rows = vec![
        book_row(Side::Ask, 2, 102, 1),
        book_row(Side::Bid, 3, 98, 1),
        book_row(Side::Ask, 1, 101, 1),
        book_row(Side::Bid, 4, 99, 1),
        book_row(Side::Ask, 5, 101, 2),
    ];
    let ops = orderbook_ops(TableAction::Partial, 7, &rows).unwrap();
    assert_eq!(
        ops,
        vec![OrderbookWriteOp::init(Orderbook::new(
            7,
            vec![
                Offer::new(OfferId::new(1), dec(101, 0), dec(1, 0)),
                Offer::new(OfferId::new(5), dec(101, 0), dec(2, 0)),
                Offer::new(OfferId::new(2), dec(102, 0), dec(1, 0)),
            ],
            vec![
                Offer::new(OfferId::new(4), dec(99, 0), dec(1, 0)),
                Offer::new(OfferId::new(3), dec(98, 0), dec(1, 0)),
            ],
        ))]
    );
}

#[test]
fn book_rows_become_ops_one_per_row() {
    let rows = vec![book_row(Side::Ask, 2, 102, 1), book_row(Side::Bid, 3, 98, 1)];
    assert_eq!(
        orderbook_ops(TableAction::Insert, 1, &rows).unwrap(),
        vec![
            OrderbookWriteOp::create(1, Side::Ask, OfferId::new(2), dec(102, 0), dec(1, 0)),
            OrderbookWriteOp::create(1, Side::Bid, OfferId::new(3), dec(98, 0), dec(1, 0)),
        ]
    );
    let update = vec![BookRow { side: Some(Side::Bid), id: OfferId::new(3), price: None, size: Some(dec(4, 0)) }];
    assert_eq!(
        orderbook_ops(TableAction::Update, 2, &update).unwrap(),
        vec![OrderbookWriteOp::update(2, Side::Bid, OfferId::new(3), None, Some(dec(4, 0)))]
    );
    let delete = vec![BookRow { side: Some(Side::Ask), id: OfferId::new(2), price: None, size: None }];
    assert_eq!(
        orderbook_ops(TableAction::Delete, 3, &delete).unwrap(),
        vec![OrderbookWriteOp::delete(3, Side::Ask, OfferId::new(2))]
    );
    let unknown_side = vec![BookRow { side: None, id: OfferId::new(2), price: None, size: None }];
    assert!(orderbook_ops(TableAction::Delete, 3, &unknown_side).is_none());
    let no_price = vec![BookRow { side: Some(Side::Ask), id: OfferId::new(2), price: None, size: Some(dec(1, 0)) }];
    assert!(orderbook_ops(TableAction::Insert, 3, &no_price).is_none());
}

fn order_row(ts: u64, id: &str, status: OrderStatus, leaves: Option<i64>) -> OrderRow {
    OrderRow {
        timestamp: ts,
        id: OrderId::new(id),
        status,
        side: Some(Side::Bid),
        price: Some(dec(100, 0)),
        leaves: leaves.map(|l| dec(l, 0)),
    }
}

#[test]
fn order_rows_become_open_orders_ops() {
    let partial = vec![
        order_row(5, "a", OrderStatus::New, Some(3)),
        order_row(9, "b", OrderStatus::PartiallyFilled, Some(1)),
        order_row(7, "c", OrderStatus::New, Some(2)),
    ];
    assert_eq!(
        open_orders_ops(TableAction::Partial, &partial).unwrap(),
        vec![OpenOrdersWriteOp::init(OpenOrders::new(
            9,
            vec![
                OrderState::new(OrderId::new("a"), Side::Bid, dec(100, 0), dec(3, 0)),
                OrderState::new(OrderId::new("b"), Side::Bid, dec(100, 0), dec(1, 0)),
                OrderState::new(OrderId::new("c"), Side::Bid, dec(100, 0), dec(2, 0)),
            ],
        ))]
    );

    let update = vec![
        order_row(1, "a", OrderStatus::New, Some(3)),
        order_row(2, "b", OrderStatus::Canceled, None),
        order_row(3, "c", OrderStatus::PartiallyFilled, Some(1)),
        order_row(4, "d", OrderStatus::Other, None),
        order_row(5, "e", OrderStatus::Filled, None),
    ];
    assert_eq!(
        open_orders_ops(TableAction::Update, &update).unwrap(),
        vec![
            OpenOrdersWriteOp::create(1, OrderId::new("a"), Side::Bid, dec(100, 0), dec(3, 0)),
            OpenOrdersWriteOp::delete(2, OrderId::new("b")),
            OpenOrdersWriteOp::update(3, OrderId::new("c"), None, None, Some(dec(1, 0))),
            OpenOrdersWriteOp::delete(5, OrderId::new("e")),
        ]
    );

    let insert = vec![order_row(3, "c", OrderStatus::PartiallyFilled, Some(1))];
    assert_eq!(
        open_orders_ops(TableAction::Insert, &insert).unwrap(),
        vec![OpenOrdersWriteOp::create(3, OrderId::new("c"), Side::Bid, dec(100, 0), dec(1, 0))]
    );
    assert!(open_orders_ops(TableAction::Delete, &insert).is_none());
    assert!(open_orders_ops(TableAction::Update, &vec![order_row(3, "c", OrderStatus::New, None)]).is_none());
}

#[test]
fn trades_and_positions() {
    let rows = vec![TradeRow {
        timestamp: 4,
        id: Some(TradeId::new("t")),
        taker_side: Some(Side::Bid),
        price: Some(dec(10, 0)),
        size: Some(dec(2, 0)),
    }];
    assert_eq!(
        executions(&rows).unwrap(),
        vec![Execution::new(4, TradeId::new("t"), Side::Ask, dec(10, 0), dec(2, 0))]
    );
    let incomplete = vec![TradeRow { timestamp: 4, id: None, taker_side: Some(Side::Bid), price: None, size: None }];
    assert!(executions(&incomplete).is_none());

    assert_eq!(position(TableAction::Update, &vec![Some(dec(1, 0)), Some(dec(-3, 0))]), Some(dec(-3, 0)));
    assert_eq!(position(TableAction::Insert, &vec![Some(dec(1, 0))]), None);
    assert_eq!(position(TableAction::Partial, &vec![Some(dec(1, 0)), None]), None);
    assert_eq!(position(TableAction::Partial, &vec![]), None);
}
