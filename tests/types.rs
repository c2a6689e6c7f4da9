use market_maker::bot::Config;
use market_maker::decimal::Decimal;
use market_maker::market::{Balances, Execution, Inventory, MarketInfo};
use market_maker::observation::{Message, Observation, Warmup};
use market_maker::order::{OpenOrders, Order};
use market_maker::types::{Offer, OfferId, OrderId, Orderbook, Side, TradeId};

fn dec(num: i64, scale: u32) -> Decimal {
    Decimal::new(num, scale)
}

fn info() -> MarketInfo {
    MarketInfo {
        max_order_size: dec(10000000, 0),
        min_order_size: dec(100, 0),
        lot_size: dec(100, 0),
        max_order_price: dec(1000000, 0),
        min_order_price: dec(1, 0),
        tick_size: dec(5, 1),
    }
}

#[test]
fn decimal_construction_and_arithmetic() {
    assert_eq!(dec(159995, 1).units(), 15_999_500_000_000);
    assert_eq!(dec(16000, 0).sub(dec(5, 1)), dec(159995, 1));
    assert_eq!(dec(14000, 0).add(dec(5, 1)), dec(140005, 1));
    assert!(dec(65, 1).lt(&dec(7, 0)));
    assert_eq!(Decimal::from_units(i128::MAX).checked_add(dec(1, 9)), None);
    assert_eq!(dec(0, 0).checked_sub(dec(1, 0)), Some(dec(-1, 0)));
    assert!(dec(0, 3).is_zero());
}

#[test]
fn side_and_execution() {
    assert_eq!(Side::Ask.opposite(), Side::Bid);
    assert!(Side::Bid.is_bid());
    let e = Execution::new(5, TradeId::new("t1"), Side::Ask, dec(1, 0), dec(2, 0));
    assert_eq!(e.taker_side(), Side::Bid);
    assert_eq!(e.id(), &TradeId::new("t1"));
}

#[test]
fn inventory_position() {
    assert_eq!(Inventory::Position(dec(-3, 0)).position(), dec(-3, 0));
    assert_eq!(Inventory::Balances(Balances::new(dec(7, 0), dec(1, 0))).position(), dec(7, 0));
}

#[test]
fn warmup_waits_for_three_streams() {
    let mut warmup = Warmup::new(info());
    warmup.receive(Message::Execution(Execution::new(1, TradeId::new(1), Side::Bid, dec(1, 0), dec(1, 0))));
    warmup.receive(Message::Orderbook(Orderbook::new(2, vec![], vec![])));
    assert!(!warmup.is_ready());
    warmup.receive(Message::Inventory(Inventory::Position(dec(0, 0))));
    assert!(!warmup.is_ready());
    warmup.receive(Message::OpenOrders(OpenOrders::new(3, vec![])));
    assert!(warmup.is_ready());
    let observation = warmup.finish().unwrap();
    assert_eq!(observation.executions().len(), 1);
    assert_eq!(observation.orderbook().timestamp(), 2);
    assert!(observation.pending_orders().is_empty());
}

#[test]
fn warmup_without_inventory_is_not_finished() {
    let mut warmup = Warmup::new(info());
    warmup.receive(Message::Orderbook(Orderbook::new(2, vec![], vec![])));
    warmup.receive(Message::OpenOrders(OpenOrders::new(3, vec![])));
    assert!(warmup.finish().is_none());
}

#[test]
fn dispatch_marks_only_book_updates() {
    let mut observation = Observation::new(
        info(),
        vec![],
        Orderbook::new(0, vec![], vec![]),
        Inventory::Position(dec(0, 0)),
        OpenOrders::new(0, vec![]),
        vec![],
    );
    assert!(!observation.dispatch(Message::Inventory(Inventory::Position(dec(4, 0)))));
    assert_eq!(observation.inventory(), &Inventory::Position(dec(4, 0)));
    let book = Orderbook::new(9, vec![Offer::new(OfferId::new(1), dec(2, 0), dec(3, 0))], vec![]);
    assert!(observation.dispatch(Message::Orderbook(book.clone())));
    assert_eq!(observation.orderbook(), &book);
}

#[test]
fn test_mode_submits_nothing() {
    let orders = vec![Order::cancel(OrderId::new(1))];
    let test = Config { num_iteration: 3, test: true };
    let live = Config { num_iteration: 3, test: false };
    assert!(test.orders_to_submit(orders.clone()).is_empty());
    assert_eq!(live.orders_to_submit(orders.clone()), orders);
}
