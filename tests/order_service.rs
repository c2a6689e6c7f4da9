use market_maker::decimal::Decimal;
use market_maker::order::Order;
use market_maker::order_service::{PendingId, PendingOrder, PendingOrders, EXPIRES_MS};
use market_maker::types::{OrderId, OrderType, Side};

fn new_order() -> Order {
    Order::create(OrderType::Limit, Side::Ask, Decimal::new(159995, 1), Decimal::new(500, 0))
}

#[test]
fn submit_records_one_entry_under_fresh_id() {
    let mut pendings = PendingOrders::new();
    let first = pendings.submit(1_000, new_order());
    let second = pendings.submit(1_500, Order::cancel(OrderId::new(7)));
    assert_eq!(first, PendingId(0));
    assert_eq!(second, PendingId(1));
    let listed = pendings.get_pending_orders();
    assert_eq!(listed.iter().filter(|po| po.id() == second).count(), 1);
    assert_eq!(
        listed,
        vec![
            PendingOrder::new(1_000, PendingId(0), new_order()),
            PendingOrder::new(1_500, PendingId(1), Order::cancel(OrderId::new(7))),
        ]
    );
    assert_eq!(pendings.orders(), vec![new_order(), Order::cancel(OrderId::new(7))]);
}

#[test]
fn complete_removes_by_id_once() {
    let mut pendings = PendingOrders::new();
    let a = pendings.submit(10, new_order());
    let b = pendings.submit(20, new_order());
    pendings.complete(a);
    pendings.complete(a);
    assert_eq!(pendings.get_pending_orders(), vec![PendingOrder::new(20, b, new_order())]);
}

#[test]
fn collect_expired_drops_old_entries() {
    let mut pendings = PendingOrders::new();
    pendings.submit(1_000, new_order());
    let late = pendings.submit(5_000, new_order());
    pendings.collect_expired(1_000 + EXPIRES_MS);
    assert_eq!(pendings.get_pending_orders(), vec![PendingOrder::new(5_000, late, new_order())]);
    pendings.collect_expired(3);
    assert_eq!(pendings.get_pending_orders().len(), 1);
}

#[test]
fn pending_ids_increase() {
    let mut pendings = PendingOrders::new();
    let ids: Vec<u64> = (0..5).map(|t| u64::from(pendings.submit(t, new_order()))).collect();
    assert_eq!(ids, vec![0, 1, 2, 3, 4]);
    assert_eq!(PendingId::from(3u64), PendingId(3));
}
