use market_maker::decimal::Decimal;
use market_maker::order::{OpenOrders, OrderState};
use market_maker::types::{Offer, OfferId, OrderId, Orderbook, Side};

fn dec(num: i64, scale: u32) -> Decimal {
    Decimal::new(num, scale)
}

fn header() -> String {
    format!("  {:>19} {:>19} {:>19} {:>19}\n", "Id", "Price", "Amount", "Total")
}

fn row(tag: char, id: &str, price: &str, amount: &str, total: &str) -> String {
    format!("{tag} {id:>19} {price:>19} {amount:>19} {total:>19}\n")
}

#[test]
fn test_orderbook_string() {
    let orderbook = Orderbook::new(
        1671926400000,
        vec![
            Offer::new(OfferId::new(160000), dec(160000, 1), dec(1000, 0)),
            Offer::new(OfferId::new(170000), dec(170000, 1), dec(1000, 0)),
            Offer::new(OfferId::new(180000), dec(180000, 1), dec(1000, 0)),
            Offer::new(OfferId::new(190000), dec(190000, 1), dec(1000, 0)),
        ],
        vec![
            Offer::new(OfferId::new(140000), dec(140000, 1), dec(1000, 0)),
            Offer::new(OfferId::new(130000), dec(130000, 1), dec(1000, 0)),
            Offer::new(OfferId::new(120000), dec(120000, 1), dec(1000, 0)),
            Offer::new(OfferId::new(110000), dec(110000, 1), dec(1000, 0)),
        ],
    );

    println!("\n{}", orderbook.to_text().unwrap());
}

#[test]
fn test_open_orders_string() {
    let open_orders = OpenOrders::new(
        1671926400000,
        vec![
            OrderState::new(OrderId::new(180000000), Side::Ask, dec(180000, 1), dec(200, 0)),
            OrderState::new(OrderId::new(170000000), Side::Ask, dec(170000, 1), dec(300, 0)),
            OrderState::new(OrderId::new(160000000), Side::Ask, dec(160000, 1), dec(100, 0)),
            OrderState::new(OrderId::new(140000000), Side::Bid, dec(140000, 1), dec(500, 0)),
            OrderState::new(OrderId::new(130000000), Side::Bid, dec(130000, 1), dec(500, 0)),
            OrderState::new(OrderId::new(120000000), Side::Bid, dec(120000, 1), dec(500, 0)),
        ],
    );

    println!("{}", open_orders.to_text().unwrap());
}

#[test]
fn orderbook_text_is_exact() {
    let orderbook = Orderbook::new(
        1671926400000,
        vec![
            Offer::new(OfferId::new(1), dec(160000, 1), dec(15, 1)),
            Offer::new(OfferId::new(2), dec(170000, 1), dec(2, 0)),
        ],
        vec![Offer::new(OfferId::new(3), dec(140005, 1), dec(1000, 0))],
    );
    let expected = String::new()
        + "Orderbook @ 2022-12-25 00:00:00 UTC\n"
        + &header()
        + &row('a', "2", "17000.000000000", "2.000000000", "3.500000000")
        + &row('a', "1", "16000.000000000", "1.500000000", "1.500000000")
        + "\n"
        + &row('b', "3", "14000.500000000", "1000.000000000", "1000.000000000");
    assert_eq!(orderbook.to_text().unwrap(), expected);
}

#[test]
fn orderbook_text_shows_nine_offers() {
    let asks: Vec<Offer> = (0..12).map(|i| Offer::new(OfferId::new(i), dec(100 + i, 0), dec(1, 0))).collect();
    let text = Orderbook::new(0, asks, vec![]).to_text().unwrap();
    assert!(text.starts_with("Orderbook @ 1970-01-01 00:00:00 UTC\n"));
    assert_eq!(text.lines().filter(|l| l.starts_with("a ")).count(), 9);
    assert!(text.contains("9.000000000\n"));
}

#[test]
fn open_orders_text_sorts_and_separates() {
    let open_orders = OpenOrders::new(
        0,
        vec![
            OrderState::new(OrderId::new("x"), Side::Ask, dec(18, 0), dec(2, 0)),
            OrderState::new(OrderId::new("y"), Side::Ask, dec(16, 0), dec(1, 0)),
            OrderState::new(OrderId::new("z"), Side::Bid, dec(10, 0), dec(5, 0)),
        ],
    );
    let expected = String::new()
        + "OpenOrders @ 1970-01-01 00:00:00 UTC\n"
        + &header()
        + &row('a', "x", "18.000000000", "2.000000000", "3.000000000")
        + &row('a', "y", "16.000000000", "1.000000000", "1.000000000")
        + "\n"
        + &row('b', "z", "10.000000000", "5.000000000", "5.000000000");
    assert_eq!(open_orders.to_text().unwrap(), expected);

    let only_bids = OpenOrders::new(0, vec![OrderState::new(OrderId::new("z"), Side::Bid, dec(10, 0), dec(5, 0))]);
    assert!(!only_bids.to_text().unwrap().contains("\n\n"));
}

#[test]
fn text_is_refused_for_unwritable_values() {
    let huge = Orderbook::new(0, vec![Offer::new(OfferId::new(1), Decimal::from_units(i128::MAX), dec(1, 0))], vec![]);
    assert_eq!(huge.to_text(), None);
    let late = Orderbook::new(u64::MAX, vec![], vec![]);
    assert_eq!(late.to_text(), None);
}
