use market_maker::open_orders_writer::{apply_batch, initial_open_orders};
use market_maker::decimal::Decimal;
use market_maker::open_orders_writer::{
    CreateOp, DeleteOp, ExecutionOp, OpenOrdersWriteOp, OpenOrdersWriter, OpenOrdersWriterError,
    UpdateOp,
};
use market_maker::order::{OpenOrders, OrderState};
use market_maker::types::{OrderId, Side};

fn dec(num: i64, scale: u32) -> Decimal {
    Decimal::new(num, scale)
}

fn dummy_open_orders() -> OpenOrders {
    OpenOrders::new(
        0,
        vec![
            OrderState::new(OrderId::new(260), Side::Ask, dec(26000, 0), dec(10, 0)),
            OrderState::new(OrderId::new(270), Side::Ask, dec(27000, 0), dec(10, 0)),
            OrderState::new(OrderId::new(240), Side::Bid, dec(24000, 0), dec(10, 0)),
            OrderState::new(OrderId::new(230), Side::Bid, dec(23000, 0), dec(10, 0)),
        ],
    )
}

#[test]
fn test_open_orders_writer_create() {
    let mut orders = dummy_open_orders();
    let mut updater = OpenOrdersWriter::new(&mut orders);

    updater
        .apply(CreateOp::new(1, OrderId::new(300), Side::Ask, dec(30000, 0), dec(10, 0)).into())
        .unwrap();
    updater
        .apply(CreateOp::new(2, OrderId::new(200), Side::Bid, dec(20000, 0), dec(10, 0)).into())
        .unwrap();
    let result =
        updater.apply(CreateOp::new(3, OrderId::new(200), Side::Bid, dec(20000, 0), dec(10, 0)).into());
    assert_eq!(result, Err(OpenOrdersWriterError::AlreadyExists(OrderId::new(200))));

    assert_eq!(
        orders,
        OpenOrders::new(
            2,
            vec![
                OrderState::new(OrderId::new(260), Side::Ask, dec(26000, 0), dec(10, 0)),
                OrderState::new(OrderId::new(270), Side::Ask, dec(27000, 0), dec(10, 0)),
                OrderState::new(OrderId::new(240), Side::Bid, dec(24000, 0), dec(10, 0)),
                OrderState::new(OrderId::new(230), Side::Bid, dec(23000, 0), dec(10, 0)),
                OrderState::new(OrderId::new(300), Side::Ask, dec(30000, 0), dec(10, 0)),
                OrderState::new(OrderId::new(200), Side::Bid, dec(20000, 0), dec(10, 0)),
            ],
        )
    );
}

#[test]
fn test_open_orders_writer_update() {
    let mut open_orders = dummy_open_orders();
    let mut updater = OpenOrdersWriter::new(&mut open_orders);

    updater
        .apply(
            UpdateOp::new(1, OrderId::new(260), Some(Side::Ask), Some(dec(26001, 0)), Some(dec(20, 0)))
                .into(),
        )
        .unwrap();
    updater
        .apply(
            UpdateOp::new(2, OrderId::new(240), Some(Side::Bid), Some(dec(24001, 0)), Some(dec(30, 0)))
                .into(),
        )
        .unwrap();
    let result = updater.apply(
        UpdateOp::new(3, OrderId::new(999), Some(Side::Ask), Some(dec(27000, 0)), Some(dec(50, 0)))
            .into(),
    );
    assert_eq!(result, Err(OpenOrdersWriterError::OrderNotFound(OrderId::new(999))));

    assert_eq!(
        open_orders,
        OpenOrders::new(
            2,
            vec![
                OrderState::new(OrderId::new(260), Side::Ask, dec(26001, 0), dec(20, 0)),
                OrderState::new(OrderId::new(270), Side::Ask, dec(27000, 0), dec(10, 0)),
                OrderState::new(OrderId::new(240), Side::Bid, dec(24001, 0), dec(30, 0)),
                OrderState::new(OrderId::new(230), Side::Bid, dec(23000, 0), dec(10, 0)),
            ],
        )
    );
}

#[test]
fn test_open_orders_writer_delete() {
    let mut open_orders = dummy_open_orders();
    let mut updater = OpenOrdersWriter::new(&mut open_orders);

    updater.apply(DeleteOp::new(1, OrderId::new(260)).into()).unwrap();
    updater.apply(DeleteOp::new(2, OrderId::new(240)).into()).unwrap();
    let result = updater.apply(DeleteOp::new(3, OrderId::new(999)).into());
    assert_eq!(result, Err(OpenOrdersWriterError::OrderNotFound(OrderId::new(999))));

    assert_eq!(
        open_orders,
        OpenOrders::new(
            2,
            vec![
                OrderState::new(OrderId::new(270), Side::Ask, dec(27000, 0), dec(10, 0)),
                OrderState::new(OrderId::new(230), Side::Bid, dec(23000, 0), dec(10, 0)),
            ],
        )
    );
}

#[test]
fn test_open_orders_writer_execution() {
    let mut open_orders = dummy_open_orders();
    let mut updater = OpenOrdersWriter::new(&mut open_orders);

    updater.apply(ExecutionOp::new(1, OrderId::new(260), dec(65, 1)).into()).unwrap();
    updater.apply(ExecutionOp::new(2, OrderId::new(240), dec(10, 0)).into()).unwrap();
    let result = updater.apply(ExecutionOp::new(3, OrderId::new(999), dec(10, 0)).into());
    assert_eq!(result, Err(OpenOrdersWriterError::OrderNotFound(OrderId::new(999))));
    let result = updater.apply(ExecutionOp::new(4, OrderId::new(270), dec(20, 0)).into());
    assert_eq!(result, Err(OpenOrdersWriterError::InsufficientAmount));

    assert_eq!(
        open_orders,
        OpenOrders::new(
            2,
            vec![
                OrderState::new(OrderId::new(260), Side::Ask, dec(26000, 0), dec(35, 1)),
                OrderState::new(OrderId::new(270), Side::Ask, dec(27000, 0), dec(10, 0)),
                OrderState::new(OrderId::new(230), Side::Bid, dec(23000, 0), dec(10, 0)),
            ],
        )
    );
}

#[test]
fn open_orders_execution_to_zero_removes_order() {
    let mut open_orders = OpenOrders::new(
        0,
        vec![OrderState::new(OrderId::new(260), Side::Ask, dec(26000, 0), dec(10, 0))],
    );
    let mut writer = OpenOrdersWriter::new(&mut open_orders);
    writer.apply(OpenOrdersWriteOp::execution(5, OrderId::new(260), dec(10, 0))).unwrap();
    assert!(open_orders.orders().is_empty());
    assert_eq!(open_orders.timestamp(), 5);
}

#[test]
fn open_orders_create_then_delete_restores_orders() {
    let mut open_orders = dummy_open_orders();
    let before = open_orders.clone();
    let mut writer = OpenOrdersWriter::new(&mut open_orders);
    writer
        .apply(OpenOrdersWriteOp::create(7, OrderId::new(500), Side::Bid, dec(1, 0), dec(2, 0)))
        .unwrap();
    writer.apply(OpenOrdersWriteOp::delete(8, OrderId::new(500))).unwrap();
    assert_eq!(open_orders.orders(), before.orders());
    assert_eq!(open_orders.timestamp(), 8);
}

#[test]
fn open_orders_partial_execution_takes_exact_amount() {
    let mut open_orders = dummy_open_orders();
    let mut writer = OpenOrdersWriter::new(&mut open_orders);
    writer.apply(OpenOrdersWriteOp::execution(3, OrderId::new(230), dec(25, 1))).unwrap();
    assert_eq!(
        open_orders.orders()[3],
        OrderState::new(OrderId::new(230), Side::Bid, dec(23000, 0), dec(75, 1))
    );
    assert_eq!(open_orders.orders().len(), 4);
}

#[test]
fn open_orders_oversized_execution_changes_nothing() {
    let mut open_orders = dummy_open_orders();
    let before = open_orders.clone();
    let mut writer = OpenOrdersWriter::new(&mut open_orders);
    let result = writer.apply(OpenOrdersWriteOp::execution(3, OrderId::new(230), dec(11, 0)));
    assert_eq!(result, Err(OpenOrdersWriterError::InsufficientAmount));
    assert_eq!(open_orders, before);
}

#[test]
fn open_orders_update_may_change_side() {
    let mut open_orders = dummy_open_orders();
    let mut writer = OpenOrdersWriter::new(&mut open_orders);
    writer
        .apply(OpenOrdersWriteOp::update(4, OrderId::new(270), Some(Side::Bid), None, None))
        .unwrap();
    assert_eq!(
        open_orders.orders()[1],
        OrderState::new(OrderId::new(270), Side::Bid, dec(27000, 0), dec(10, 0))
    );
    assert_eq!(open_orders.bids().len(), 3);
    assert_eq!(open_orders.ask_amount(), dec(10, 0));
    assert_eq!(open_orders.bid_amount(), dec(30, 0));
}

#[test]
fn open_orders_snapshot_replaces_orders() {
    let mut open_orders = dummy_open_orders();
    let mut writer = OpenOrdersWriter::new(&mut open_orders);
    writer.apply(OpenOrdersWriteOp::init(OpenOrders::new(9, vec![]))).unwrap();
    assert_eq!(open_orders, OpenOrders::new(9, vec![]));
}

#[test]
fn initial_open_orders_and_batches() {
    let ops = vec![
        OpenOrdersWriteOp::init(dummy_open_orders()),
        OpenOrdersWriteOp::delete(1, OrderId::new(260)),
        OpenOrdersWriteOp::delete(2, OrderId::new(260)),
    ];
    let (mut orders, errors) = initial_open_orders(ops).unwrap();
    assert_eq!(errors, vec![OpenOrdersWriterError::OrderNotFound(OrderId::new(260))]);
    assert_eq!(orders.orders().len(), 3);
    assert_eq!(orders.timestamp(), 1);
    let errors = apply_batch(&mut orders, vec![OpenOrdersWriteOp::execution(3, OrderId::new(270), dec(4, 0))]);
    assert!(errors.is_empty());
    assert_eq!(orders.orders()[0].amount(), dec(6, 0));
    assert!(initial_open_orders(vec![]).is_none());
}
