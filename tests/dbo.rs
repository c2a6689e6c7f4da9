use market_maker::dbo::DepthBasedOffering;
use market_maker::decimal::Decimal;
use market_maker::market::{Inventory, MarketInfo};
use market_maker::observation::Observation;
use market_maker::order::{OpenOrders, Order, OrderState};
use market_maker::types::{Offer, OfferId, OrderId, OrderType, Orderbook, Side};

fn dec(num: i64, scale: u32) -> Decimal {
    Decimal::new(num, scale)
}

fn dummy_info() -> MarketInfo {
    MarketInfo {
        max_order_size: dec(10000000, 0),
        min_order_size: dec(100, 0),
        lot_size: dec(100, 0),
        max_order_price: dec(1000000, 0),
        min_order_price: dec(1, 0),
        tick_size: dec(5, 1),
    }
}

fn dummy_observation() -> Observation {
    dummy_observation_with(dec(0, 0), vec![])
}

fn dummy_observation_with(position: Decimal, orders: Vec<OrderState>) -> Observation {
    Observation::new(
        dummy_info(),
        vec![],
        Orderbook::new(
            0,
            vec![
                Offer::new(OfferId::new(160000), dec(160000, 1), dec(1000, 0)),
                Offer::new(OfferId::new(170000), dec(170000, 1), dec(1000, 0)),
            ],
            vec![
                Offer::new(OfferId::new(140000), dec(140000, 1), dec(1000, 0)),
                Offer::new(OfferId::new(130000), dec(130000, 1), dec(1000, 0)),
            ],
        ),
        Inventory::Position(position),
        OpenOrders::new(0, orders),
        vec![],
    )
}

fn evaluate(policy: &DepthBasedOffering, observation: &Observation) -> Vec<Order> {
    assert!(policy.admits_observation(observation));
    policy.evaluate(observation)
}

#[test]
fn test_dbo_depth() {
    let observation = dummy_observation();

    let policy = DepthBasedOffering::new(dec(500, 0), dec(1000, 0));
    assert_eq!(
        evaluate(&policy, &observation),
        vec![
            Order::create(OrderType::Limit, Side::Ask, dec(159995, 1), dec(500, 0)),
            Order::create(OrderType::Limit, Side::Bid, dec(140005, 1), dec(500, 0)),
        ],
    );

    let policy = DepthBasedOffering::new(dec(500, 0), dec(1001, 0));
    assert_eq!(
        evaluate(&policy, &observation),
        vec![
            Order::create(OrderType::Limit, Side::Ask, dec(169995, 1), dec(500, 0)),
            Order::create(OrderType::Limit, Side::Bid, dec(130005, 1), dec(500, 0)),
        ],
    );

    let policy = DepthBasedOffering::new(dec(500, 0), dec(2001, 0));
    assert_eq!(
        evaluate(&policy, &observation),
        vec![
            Order::create(OrderType::Limit, Side::Ask, dec(1000000, 0), dec(500, 0)),
            Order::create(OrderType::Limit, Side::Bid, dec(1, 0), dec(500, 0)),
        ],
    );
}

#[test]
fn test_dbo_position() {
    let policy = DepthBasedOffering::new(dec(500, 0), dec(1000, 0));

    let observation = dummy_observation_with(dec(200, 0), vec![]);
    assert_eq!(
        evaluate(&policy, &observation),
        vec![
            Order::create(OrderType::Limit, Side::Ask, dec(159995, 1), dec(700, 0)),
            Order::create(OrderType::Limit, Side::Bid, dec(140005, 1), dec(300, 0)),
        ],
    );

    let observation = dummy_observation_with(dec(-200, 0), vec![]);
    assert_eq!(
        evaluate(&policy, &observation),
        vec![
            Order::create(OrderType::Limit, Side::Ask, dec(159995, 1), dec(300, 0)),
            Order::create(OrderType::Limit, Side::Bid, dec(140005, 1), dec(700, 0)),
        ],
    );

    let observation = dummy_observation_with(dec(500, 0), vec![]);
    assert_eq!(
        evaluate(&policy, &observation),
        vec![Order::create(OrderType::Limit, Side::Ask, dec(159995, 1), dec(1000, 0))],
    );

    let observation = dummy_observation_with(dec(-500, 0), vec![]);
    assert_eq!(
        evaluate(&policy, &observation),
        vec![Order::create(OrderType::Limit, Side::Bid, dec(140005, 1), dec(1000, 0))],
    );

    let observation = dummy_observation_with(dec(600, 0), vec![]);
    assert_eq!(
        evaluate(&policy, &observation),
        vec![Order::create(OrderType::Limit, Side::Ask, dec(159995, 1), dec(1100, 0))],
    );

    let observation = dummy_observation_with(dec(-600, 0), vec![]);
    assert_eq!(
        evaluate(&policy, &observation),
        vec![Order::create(OrderType::Limit, Side::Bid, dec(140005, 1), dec(1100, 0))],
    );
}

#[test]
fn test_dbo_orders() {
    let policy = DepthBasedOffering::new(dec(500, 0), dec(1000, 0));

    let observation = dummy_observation_with(
        dec(0, 0),
        vec![
            OrderState::new(OrderId::new(159995), Side::Ask, dec(159995, 1), dec(500, 0)),
            OrderState::new(OrderId::new(140005), Side::Bid, dec(140005, 1), dec(500, 0)),
        ],
    );
    assert_eq!(evaluate(&policy, &observation), vec![]);

    let observation = dummy_observation_with(
        dec(0, 0),
        vec![
            OrderState::new(OrderId::new(159995), Side::Ask, dec(159995, 1), dec(300, 0)),
            OrderState::new(OrderId::new(140005), Side::Bid, dec(140005, 1), dec(300, 0)),
        ],
    );
    assert_eq!(
        evaluate(&policy, &observation),
        vec![
            Order::create(OrderType::Limit, Side::Ask, dec(159995, 1), dec(200, 0)),
            Order::create(OrderType::Limit, Side::Bid, dec(140005, 1), dec(200, 0)),
        ],
    );

    let observation = dummy_observation_with(
        dec(0, 0),
        vec![
            OrderState::new(OrderId::new(159995), Side::Ask, dec(159995, 1), dec(600, 0)),
            OrderState::new(OrderId::new(140005), Side::Bid, dec(140005, 1), dec(600, 0)),
        ],
    );
    assert_eq!(
        evaluate(&policy, &observation),
        vec![
            Order::cancel(OrderId::new(159995)),
            Order::create(OrderType::Limit, Side::Ask, dec(159995, 1), dec(500, 0)),
            Order::cancel(OrderId::new(140005)),
            Order::create(OrderType::Limit, Side::Bid, dec(140005, 1), dec(500, 0)),
        ],
    );

    let policy = DepthBasedOffering::new(dec(1000, 0), dec(1000, 0));
    let observation = Observation::new(
        dummy_info(),
        vec![],
        Orderbook::new(
            0,
            vec![
                Offer::new(OfferId::new(159995), dec(159995, 1), dec(1000, 0)),
                Offer::new(OfferId::new(160000), dec(160000, 1), dec(1000, 0)),
                Offer::new(OfferId::new(170000), dec(170000, 1), dec(1000, 0)),
            ],
            vec![
                Offer::new(OfferId::new(140005), dec(140005, 1), dec(1000, 0)),
                Offer::new(OfferId::new(140000), dec(140000, 1), dec(1000, 0)),
                Offer::new(OfferId::new(130000), dec(130000, 1), dec(1000, 0)),
            ],
        ),
        Inventory::Position(dec(0, 0)),
        OpenOrders::new(
            0,
            vec![
                OrderState::new(OrderId::new(159995), Side::Ask, dec(159995, 1), dec(1000, 0)),
                OrderState::new(OrderId::new(140005), Side::Bid, dec(140005, 1), dec(1000, 0)),
            ],
        ),
        vec![],
    );
    assert_eq!(evaluate(&policy, &observation), vec![]);
}

#[test]
fn policy_flat_position_deep_book() {
    let policy = DepthBasedOffering::new(dec(500, 0), dec(1000, 0));
    let observation = dummy_observation();
    assert_eq!(
        evaluate(&policy, &observation),
        vec![
            Order::create(OrderType::Limit, Side::Ask, dec(159995, 1), dec(500, 0)),
            Order::create(OrderType::Limit, Side::Bid, dec(140005, 1), dec(500, 0)),
        ],
    );
}

#[test]
fn policy_matching_own_orders_consumed() {
    let policy = DepthBasedOffering::new(dec(500, 0), dec(1000, 0));
    let observation = dummy_observation_with(
        dec(0, 0),
        vec![
            OrderState::new(OrderId::new(1), Side::Ask, dec(159995, 1), dec(500, 0)),
            OrderState::new(OrderId::new(2), Side::Bid, dec(140005, 1), dec(500, 0)),
        ],
    );
    assert_eq!(evaluate(&policy, &observation), vec![]);
}

#[test]
fn policy_partial_replenishment() {
    let policy = DepthBasedOffering::new(dec(500, 0), dec(1000, 0));
    let observation = dummy_observation_with(
        dec(0, 0),
        vec![
            OrderState::new(OrderId::new(1), Side::Ask, dec(159995, 1), dec(300, 0)),
            OrderState::new(OrderId::new(2), Side::Bid, dec(140005, 1), dec(300, 0)),
        ],
    );
    assert_eq!(
        evaluate(&policy, &observation),
        vec![
            Order::create(OrderType::Limit, Side::Ask, dec(159995, 1), dec(200, 0)),
            Order::create(OrderType::Limit, Side::Bid, dec(140005, 1), dec(200, 0)),
        ],
    );
}

#[test]
fn policy_oversize_orders_cancelled() {
    let policy = DepthBasedOffering::new(dec(500, 0), dec(1000, 0));
    let observation = dummy_observation_with(
        dec(0, 0),
        vec![
            OrderState::new(OrderId::new("ask-id"), Side::Ask, dec(159995, 1), dec(600, 0)),
            OrderState::new(OrderId::new("bid-id"), Side::Bid, dec(140005, 1), dec(600, 0)),
        ],
    );
    assert_eq!(
        evaluate(&policy, &observation),
        vec![
            Order::cancel(OrderId::new("ask-id")),
            Order::create(OrderType::Limit, Side::Ask, dec(159995, 1), dec(500, 0)),
            Order::cancel(OrderId::new("bid-id")),
            Order::create(OrderType::Limit, Side::Bid, dec(140005, 1), dec(500, 0)),
        ],
    );
}

#[test]
fn policy_refuses_while_orders_pending() {
    let policy = DepthBasedOffering::new(dec(500, 0), dec(1000, 0));
    let mut observation = dummy_observation();
    observation.update_pending_orders(vec![Order::cancel(OrderId::new(1))]);
    assert_eq!(evaluate(&policy, &observation), vec![]);
}

#[test]
fn policy_own_orders_on_other_prices_are_cancelled() {
    let policy = DepthBasedOffering::new(dec(500, 0), dec(1000, 0));
    let observation = dummy_observation_with(
        dec(0, 0),
        vec![OrderState::new(OrderId::new(9), Side::Ask, dec(16500, 0), dec(100, 0))],
    );
    assert_eq!(
        evaluate(&policy, &observation),
        vec![
            Order::cancel(OrderId::new(9)),
            Order::create(OrderType::Limit, Side::Ask, dec(159995, 1), dec(500, 0)),
            Order::create(OrderType::Limit, Side::Bid, dec(140005, 1), dec(500, 0)),
        ],
    );
}

#[test]
fn policy_remaining_below_min_size_emits_nothing() {
    let policy = DepthBasedOffering::new(dec(500, 0), dec(1000, 0));
    let observation = dummy_observation_with(
        dec(0, 0),
        vec![OrderState::new(OrderId::new(3), Side::Ask, dec(159995, 1), dec(450, 0))],
    );
    assert_eq!(
        evaluate(&policy, &observation),
        vec![Order::create(OrderType::Limit, Side::Bid, dec(140005, 1), dec(500, 0))],
    );
}

#[test]
fn policy_out_of_range_observation_is_not_admitted() {
    let policy = DepthBasedOffering::new(dec(500, 0), dec(1000, 0));
    let observation = Observation::new(
        dummy_info(),
        vec![],
        Orderbook::new(0, vec![Offer::new(OfferId::new(1), dec(1, 0), dec(-1, 0))], vec![]),
        Inventory::Position(dec(0, 0)),
        OpenOrders::new(0, vec![]),
        vec![],
    );
    assert!(!policy.admits_observation(&observation));
}
