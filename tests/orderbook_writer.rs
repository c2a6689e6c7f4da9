use market_maker::orderbook_writer::{apply_batch, initial_book};
use market_maker::decimal::Decimal;
use market_maker::orderbook_writer::{
    CreateOp, DeleteOp, OrderbookWriteOp, OrderbookWriter, UpdateOp, UpdateOrderbookError,
};
use market_maker::types::{Offer, OfferId, Orderbook, Side};

fn dec(num: i64, scale: u32) -> Decimal {
    Decimal::new(num, scale)
}

fn dummy_orderbook() -> Orderbook {
    Orderbook::new(
        0,
        vec![
            Offer::new(OfferId::new(260), dec(26000, 0), dec(10, 0)),
            Offer::new(OfferId::new(270), dec(27000, 0), dec(10, 0)),
            Offer::new(OfferId::new(280), dec(28000, 0), dec(10, 0)),
            Offer::new(OfferId::new(290), dec(29000, 0), dec(10, 0)),
        ],
        vec![
            Offer::new(OfferId::new(240), dec(24000, 0), dec(10, 0)),
            Offer::new(OfferId::new(230), dec(23000, 0), dec(10, 0)),
            Offer::new(OfferId::new(220), dec(22000, 0), dec(10, 0)),
            Offer::new(OfferId::new(210), dec(21000, 0), dec(10, 0)),
        ],
    )
}

#[test]
fn test_orderbook_writer_create() {
    let mut orderbook = dummy_orderbook();
    let mut updater = OrderbookWriter::new(&mut orderbook);

    updater
        .apply(CreateOp::new(1, Side::Ask, OfferId::new(255), dec(25500, 0), dec(10, 0)).into())
        .unwrap();
    updater
        .apply(CreateOp::new(2, Side::Ask, OfferId::new(275), dec(27500, 0), dec(10, 0)).into())
        .unwrap();
    updater
        .apply(CreateOp::new(3, Side::Ask, OfferId::new(295), dec(29500, 0), dec(10, 0)).into())
        .unwrap();
    updater
        .apply(CreateOp::new(4, Side::Bid, OfferId::new(245), dec(24500, 0), dec(10, 0)).into())
        .unwrap();
    updater
        .apply(CreateOp::new(5, Side::Bid, OfferId::new(225), dec(22500, 0), dec(10, 0)).into())
        .unwrap();
    updater
        .apply(CreateOp::new(6, Side::Bid, OfferId::new(205), dec(20500, 0), dec(10, 0)).into())
        .unwrap();

    assert_eq!(
        orderbook,
        Orderbook::new(
            6,
            vec![
                Offer::new(OfferId::new(255), dec(25500, 0), dec(10, 0)),
                Offer::new(OfferId::new(260), dec(26000, 0), dec(10, 0)),
                Offer::new(OfferId::new(270), dec(27000, 0), dec(10, 0)),
                Offer::new(OfferId::new(275), dec(27500, 0), dec(10, 0)),
                Offer::new(OfferId::new(280), dec(28000, 0), dec(10, 0)),
                Offer::new(OfferId::new(290), dec(29000, 0), dec(10, 0)),
                Offer::new(OfferId::new(295), dec(29500, 0), dec(10, 0)),
            ],
            vec![
                Offer::new(OfferId::new(245), dec(24500, 0), dec(10, 0)),
                Offer::new(OfferId::new(240), dec(24000, 0), dec(10, 0)),
                Offer::new(OfferId::new(230), dec(23000, 0), dec(10, 0)),
                Offer::new(OfferId::new(225), dec(22500, 0), dec(10, 0)),
                Offer::new(OfferId::new(220), dec(22000, 0), dec(10, 0)),
                Offer::new(OfferId::new(210), dec(21000, 0), dec(10, 0)),
                Offer::new(OfferId::new(205), dec(20500, 0), dec(10, 0)),
            ],
        )
    );
}

#[test]
fn test_orderbook_writer_update() {
    let mut orderbook = dummy_orderbook();
    let mut updater = OrderbookWriter::new(&mut orderbook);

    updater
        .apply(
            UpdateOp::new(1, Side::Ask, OfferId::new(260), Some(dec(29500, 0)), Some(dec(20, 0)))
                .into(),
        )
        .unwrap();
    updater
        .apply(
            UpdateOp::new(2, Side::Ask, OfferId::new(290), Some(dec(25500, 0)), Some(dec(20, 0)))
                .into(),
        )
        .unwrap();
    updater
        .apply(
            UpdateOp::new(3, Side::Bid, OfferId::new(240), Some(dec(20500, 0)), Some(dec(20, 0)))
                .into(),
        )
        .unwrap();
    updater
        .apply(
            UpdateOp::new(4, Side::Bid, OfferId::new(210), Some(dec(24500, 0)), Some(dec(20, 0)))
                .into(),
        )
        .unwrap();

    assert_eq!(
        orderbook,
        Orderbook::new(
            4,
            vec![
                Offer::new(OfferId::new(290), dec(25500, 0), dec(20, 0)),
                Offer::new(OfferId::new(270), dec(27000, 0), dec(10, 0)),
                Offer::new(OfferId::new(280), dec(28000, 0), dec(10, 0)),
                Offer::new(OfferId::new(260), dec(29500, 0), dec(20, 0)),
            ],
            vec![
                Offer::new(OfferId::new(210), dec(24500, 0), dec(20, 0)),
                Offer::new(OfferId::new(230), dec(23000, 0), dec(10, 0)),
                Offer::new(OfferId::new(220), dec(22000, 0), dec(10, 0)),
                Offer::new(OfferId::new(240), dec(20500, 0), dec(20, 0)),
            ],
        )
    );
}

#[test]
fn test_orderbook_writer_delete() {
    let mut orderbook = dummy_orderbook();
    let mut updater = OrderbookWriter::new(&mut orderbook);

    updater.apply(DeleteOp::new(1, Side::Ask, OfferId::new(260)).into()).unwrap();
    updater.apply(DeleteOp::new(2, Side::Ask, OfferId::new(290)).into()).unwrap();
    updater.apply(DeleteOp::new(3, Side::Bid, OfferId::new(240)).into()).unwrap();
    updater.apply(DeleteOp::new(4, Side::Bid, OfferId::new(210)).into()).unwrap();

    assert_eq!(
        orderbook,
        Orderbook::new(
            4,
            vec![
                Offer::new(OfferId::new(270), dec(27000, 0), dec(10, 0)),
                Offer::new(OfferId::new(280), dec(28000, 0), dec(10, 0)),
            ],
            vec![
                Offer::new(OfferId::new(230), dec(23000, 0), dec(10, 0)),
                Offer::new(OfferId::new(220), dec(22000, 0), dec(10, 0)),
            ],
        )
    );
}

#[test]
fn orderbook_insertion_ordering_from_empty() {
    let mut orderbook = Orderbook::default();
    let mut writer = OrderbookWriter::new(&mut orderbook);
    writer
        .apply(OrderbookWriteOp::create(1, Side::Ask, OfferId::new(270), dec(27000, 0), dec(10, 0)))
        .unwrap();
    writer
        .apply(OrderbookWriteOp::create(2, Side::Ask, OfferId::new(255), dec(25500, 0), dec(10, 0)))
        .unwrap();
    writer
        .apply(OrderbookWriteOp::create(3, Side::Ask, OfferId::new(260), dec(26000, 0), dec(10, 0)))
        .unwrap();
    assert_eq!(
        orderbook.asks(),
        &[
            Offer::new(OfferId::new(255), dec(25500, 0), dec(10, 0)),
            Offer::new(OfferId::new(260), dec(26000, 0), dec(10, 0)),
            Offer::new(OfferId::new(270), dec(27000, 0), dec(10, 0)),
        ][..]
    );
    assert_eq!(orderbook.timestamp(), 3);
    assert!(orderbook.bids().is_empty());
}

#[test]
fn orderbook_create_existing_id_is_refused() {
    let mut orderbook = dummy_orderbook();
    let before = orderbook.clone();
    let mut writer = OrderbookWriter::new(&mut orderbook);
    let result = writer.apply(OrderbookWriteOp::create(
        9,
        Side::Ask,
        OfferId::new(270),
        dec(30000, 0),
        dec(5, 0),
    ));
    assert_eq!(result, Err(UpdateOrderbookError::AlreadyExists(OfferId::new(270))));
    assert_eq!(orderbook, before);
}

#[test]
fn orderbook_same_id_on_other_side_is_accepted() {
    let mut orderbook = dummy_orderbook();
    let mut writer = OrderbookWriter::new(&mut orderbook);
    writer
        .apply(OrderbookWriteOp::create(9, Side::Bid, OfferId::new(270), dec(20000, 0), dec(5, 0)))
        .unwrap();
    assert_eq!(orderbook.bids().len(), 5);
    assert_eq!(orderbook.bids()[4], Offer::new(OfferId::new(270), dec(20000, 0), dec(5, 0)));
}

#[test]
fn orderbook_update_and_delete_of_missing_id_fail() {
    let mut orderbook = dummy_orderbook();
    let before = orderbook.clone();
    let mut writer = OrderbookWriter::new(&mut orderbook);
    let result = writer.apply(OrderbookWriteOp::update(5, Side::Bid, OfferId::new(260), None, None));
    assert_eq!(result, Err(UpdateOrderbookError::OfferNotFound(OfferId::new(260))));
    let result = writer.apply(OrderbookWriteOp::delete(6, Side::Ask, OfferId::new(999)));
    assert_eq!(result, Err(UpdateOrderbookError::OfferNotFound(OfferId::new(999))));
    assert_eq!(orderbook, before);
}

#[test]
fn orderbook_update_amount_only_keeps_place() {
    let mut orderbook = dummy_orderbook();
    let mut writer = OrderbookWriter::new(&mut orderbook);
    writer
        .apply(OrderbookWriteOp::update(7, Side::Ask, OfferId::new(270), None, Some(dec(3, 0))))
        .unwrap();
    assert_eq!(orderbook.asks()[1], Offer::new(OfferId::new(270), dec(27000, 0), dec(3, 0)));
    assert_eq!(orderbook.timestamp(), 7);
}

#[test]
fn orderbook_equal_prices_keep_arrival_order() {
    let mut orderbook = dummy_orderbook();
    let mut writer = OrderbookWriter::new(&mut orderbook);
    writer
        .apply(OrderbookWriteOp::create(1, Side::Ask, OfferId::new(271), dec(27000, 0), dec(1, 0)))
        .unwrap();
    writer
        .apply(OrderbookWriteOp::create(2, Side::Bid, OfferId::new(231), dec(23000, 0), dec(1, 0)))
        .unwrap();
    assert_eq!(orderbook.asks()[1].id(), &OfferId::new(270));
    assert_eq!(orderbook.asks()[2].id(), &OfferId::new(271));
    assert_eq!(orderbook.bids()[1].id(), &OfferId::new(230));
    assert_eq!(orderbook.bids()[2].id(), &OfferId::new(231));
}

#[test]
fn orderbook_snapshot_replaces_book() {
    let mut orderbook = dummy_orderbook();
    let mut writer = OrderbookWriter::new(&mut orderbook);
    let fresh = Orderbook::new(42, vec![], vec![Offer::new(OfferId::new(1), dec(5, 1), dec(2, 0))]);
    writer.apply(OrderbookWriteOp::init(fresh.clone())).unwrap();
    assert_eq!(orderbook, fresh);
    assert_eq!(orderbook.best_bid_price(), Some(dec(5, 1)));
    assert_eq!(orderbook.best_ask_price(), None);
}

#[test]
fn initial_book_starts_from_first_snapshot() {
    let ops = vec![
        OrderbookWriteOp::delete(1, Side::Ask, OfferId::new(1)),
        OrderbookWriteOp::init(Orderbook::new(5, vec![], vec![])),
        OrderbookWriteOp::create(6, Side::Bid, OfferId::new(2), dec(10, 0), dec(1, 0)),
        OrderbookWriteOp::delete(7, Side::Ask, OfferId::new(3)),
    ];
    let (book, errors) = initial_book(ops).unwrap();
    assert_eq!(book, Orderbook::new(6, vec![], vec![Offer::new(OfferId::new(2), dec(10, 0), dec(1, 0))]));
    assert_eq!(errors, vec![UpdateOrderbookError::OfferNotFound(OfferId::new(3))]);

    assert!(initial_book(vec![OrderbookWriteOp::delete(1, Side::Ask, OfferId::new(1))]).is_none());

    let mut book = book;
    let errors = apply_batch(
        &mut book,
        vec![
            OrderbookWriteOp::create(8, Side::Bid, OfferId::new(4), dec(11, 0), dec(1, 0)),
            OrderbookWriteOp::create(9, Side::Bid, OfferId::new(4), dec(12, 0), dec(1, 0)),
        ],
    );
    assert_eq!(errors, vec![UpdateOrderbookError::AlreadyExists(OfferId::new(4))]);
    assert_eq!(book.timestamp(), 8);
    assert_eq!(book.bids()[0].id(), &OfferId::new(4));
}
