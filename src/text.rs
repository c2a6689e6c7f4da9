use vstd::prelude::*;
use vstd::string::{StrSliceExecFns, StringExecFns};

use chrono::TimeZone;

use crate::decimal::{Decimal, SCALE};
use crate::order::{on_side, OpenOrders, OrderState};
use crate::orderbook_writer::{inserted, insert_sorted};
use crate::types::{Offer, OfferId, Orderbook, OrderbookView, Side};

verus! {

/// The width of a number column.
pub const COLUMN_WIDTH: usize = 19;

/// How many offers of each side a book's text shows.
pub const SHOWN_OFFERS: usize = 9;

/// The text of the UTC date and time `ms` milliseconds after the Unix epoch.
pub uninterp spec fn utc_text_of(ms: int) -> Seq<char>;

/// The text of the decimal `units * 10^-SCALE`, with `SCALE` digits after the point.
pub uninterp spec fn decimal_text_of(units: int) -> Seq<char>;

/// Relies on chrono's `Utc.timestamp_millis_opt` and the `Display` of `DateTime<Utc>`:
/// the date of a millisecond timestamp, where chrono's range holds it.
#[verifier::external_body]
fn utc_text(ms: u64) -> (r: Option<String>)
    ensures
        r matches Some(t) ==> t@ == utc_text_of(ms as int),
{
    let ms = i64::try_from(ms).ok()?;
    match chrono::Utc.timestamp_millis_opt(ms).single() {
        Some(date) => Some(date.to_string()),
        None => None,
    }
}

/// Relies on rust_decimal's `Decimal::try_from_i128_with_scale` and its `Display` with a
/// precision: the decimal written with `SCALE` digits after the point, where its
/// mantissa fits rust_decimal's range.
#[verifier::external_body]
fn decimal_text(d: Decimal) -> (r: Option<String>)
    ensures
        r matches Some(t) ==> t@ == decimal_text_of(d@),
{
    match rust_decimal::Decimal::try_from_i128_with_scale(d.units, SCALE) {
        Ok(value) => Some(format!("{:.9}", value)),
        Err(_) => None,
    }
}

// ---------------------------------------------------------------- model

pub open spec fn spaces(n: int) -> Seq<char> {
    Seq::new(if n > 0 { n as nat } else { 0 }, |i: int| ' ')
}

/// `s` right-aligned in a column of `w` characters.
pub open spec fn pad(s: Seq<char>, w: int) -> Seq<char> {
    spaces(w - s.len()) + s
}

/// The sum of the amounts of the first `n` offers.
pub open spec fn cum(s: Seq<Offer>, n: int) -> int
    decreases n,
{
    if n <= 0 {
        0
    } else {
        cum(s, n - 1) + s[n - 1].amount@
    }
}

/// The widest identifier of `s`, and at least a number column.
pub open spec fn id_width(s: Seq<Offer>) -> int
    decreases s.len(),
{
    if s.len() == 0 {
        COLUMN_WIDTH as int
    } else {
        let w = id_width(s.drop_last());
        if s.last().id@.len() > w {
            s.last().id@.len() as int
        } else {
            w
        }
    }
}

/// One row: a tag, the identifier, the price, the amount and the running total.
pub open spec fn row_text(tag: char, o: Offer, total: int, w: int) -> Seq<char> {
    seq![tag, ' '] + pad(o.id@, w) + seq![' '] + pad(decimal_text_of(o.price@), COLUMN_WIDTH as int)
        + seq![' '] + pad(decimal_text_of(o.amount@), COLUMN_WIDTH as int) + seq![' '] + pad(
        decimal_text_of(total),
        COLUMN_WIDTH as int,
    ) + seq!['\n']
}

/// The rows of offers `hi - 1` down to `lo`, each with the total up to it.
pub open spec fn rows_down(tag: char, s: Seq<Offer>, hi: int, lo: int, w: int) -> Seq<char>
    decreases hi - lo,
{
    if hi <= lo {
        Seq::empty()
    } else {
        rows_down(tag, s, hi, lo + 1, w) + row_text(tag, s[lo], cum(s, lo + 1), w)
    }
}

/// The rows of the first `n` offers in order, each with the total up to it.
pub open spec fn rows_up(tag: char, s: Seq<Offer>, n: int, w: int) -> Seq<char>
    decreases n,
{
    if n <= 0 {
        Seq::empty()
    } else {
        rows_up(tag, s, n - 1, w) + row_text(tag, s[n - 1], cum(s, n), w)
    }
}

pub open spec fn header_text(w: int) -> Seq<char> {
    "  "@ + pad("Id"@, w) + " "@ + pad("Price"@, COLUMN_WIDTH as int) + " "@ + pad(
        "Amount"@,
        COLUMN_WIDTH as int,
    ) + " "@ + pad("Total"@, COLUMN_WIDTH as int) + "\n"@
}

pub open spec fn shown(s: Seq<Offer>) -> Seq<Offer> {
    if s.len() > SHOWN_OFFERS {
        s.take(SHOWN_OFFERS as int)
    } else {
        s
    }
}

/// The text of a book: its time, a header, the first asks with their running totals
/// from the furthest up to the best, a blank line, then the first bids from the best.
pub open spec fn book_text(b: OrderbookView) -> Seq<char> {
    let w = id_width(b.asks + b.bids);
    let asks = shown(b.asks);
    let bids = shown(b.bids);
    "Orderbook @ "@ + utc_text_of(b.timestamp as int) + "\n"@ + header_text(w) + rows_down(
        'a',
        asks,
        asks.len() as int,
        0,
        w,
    ) + "\n"@ + rows_up('b', bids, bids.len() as int, w)
}

/// An order shown as an offer of the book.
pub open spec fn as_offer(o: OrderState) -> Offer {
    Offer { id: OfferId(o.id.0), price: o.price, amount: o.amount }
}

/// The first `n` offers of `s`, sorted on `side` with equal prices kept in order.
pub open spec fn sorted_upto(side: Side, s: Seq<Offer>, n: int) -> Seq<Offer>
    decreases n,
{
    if n <= 0 {
        Seq::empty()
    } else {
        inserted(side, sorted_upto(side, s, n - 1), s[n - 1])
    }
}

/// Our orders on `side` as offers, sorted as the book sorts that side.
pub open spec fn sorted_side(s: Seq<OrderState>, side: Side) -> Seq<Offer> {
    let offers = on_side(s, side).map_values(|o: OrderState| as_offer(o));
    sorted_upto(side, offers, offers.len() as int)
}

/// The text of our open orders: their time, a header, the asks by price with running
/// totals from the highest down, a blank line where both sides hold orders, then the
/// bids from the highest price down.
pub open spec fn open_orders_text(orders: Seq<OrderState>, timestamp: u64) -> Seq<char> {
    let asks = sorted_side(orders, Side::Ask);
    let bids = sorted_side(orders, Side::Bid);
    let w = id_width(orders.map_values(|o: OrderState| as_offer(o)));
    "OpenOrders @ "@ + utc_text_of(timestamp as int) + "\n"@ + header_text(w) + rows_down(
        'a',
        asks,
        asks.len() as int,
        0,
        w,
    ) + (if asks.len() > 0 && bids.len() > 0 {
        "\n"@
    } else {
        Seq::empty()
    }) + rows_up('b', bids, bids.len() as int, w)
}

// ---------------------------------------------------------------- exec

/// Appends `s` right-aligned in a column of `w` characters.
fn push_padded(out: &mut String, s: &str, w: usize)
    ensures
        final(out)@ == old(out)@ + pad(s@, w as int),
{
    let n = s.unicode_len();
    let mut k: usize = n;
    proof {
        reveal_strlit(" ");
    }
    let ghost start = out@;
    while k < w
        invariant
            n == s@.len(),
            n <= k <= w || (k == n && n >= w),
            out@ == start + spaces(k - n),
        decreases w - k,
    {
        out.append(" ");
        proof {
            reveal_strlit(" ");
            assert(" "@ =~= seq![' ']);
            assert(spaces(k - n) + seq![' '] =~= spaces(k + 1 - n));
        }
        k = k + 1;
    }
    out.append(s);
    proof {
        assert(spaces(k - n) =~= spaces(w - n));
        assert(start + spaces(w - n) + s@ =~= start + pad(s@, w as int));
    }
}

/// Appends one row; `None` where a number cannot be written.
fn push_row(out: &mut String, tag: &str, o: &Offer, total: Decimal, w: usize) -> (r: Option<()>)
    requires
        tag@.len() == 1,
    ensures
        r is Some ==> final(out)@ == old(out)@ + row_text(tag@[0], *o, total@, w as int),
{
    let price = decimal_text(o.price)?;
    let amount = decimal_text(o.amount)?;
    let sum = decimal_text(total)?;
    proof {
        reveal_strlit(" ");
        reveal_strlit("\n");
    }
    let ghost start = out@;
    out.append(tag);
    out.append(" ");
    push_padded(out, o.id.as_str(), w);
    out.append(" ");
    push_padded(out, price.as_str(), COLUMN_WIDTH);
    out.append(" ");
    push_padded(out, amount.as_str(), COLUMN_WIDTH);
    out.append(" ");
    push_padded(out, sum.as_str(), COLUMN_WIDTH);
    out.append("\n");
    proof {
        assert(tag@ =~= seq![tag@[0]]);
        assert(out@ =~= start + row_text(tag@[0], *o, total@, w as int));
    }
    Some(())
}

fn push_header(out: &mut String, w: usize)
    ensures
        final(out)@ == old(out)@ + header_text(w as int),
{
    let ghost start = out@;
    out.append("  ");
    push_padded(out, "Id", w);
    out.append(" ");
    push_padded(out, "Price", COLUMN_WIDTH);
    out.append(" ");
    push_padded(out, "Amount", COLUMN_WIDTH);
    out.append(" ");
    push_padded(out, "Total", COLUMN_WIDTH);
    out.append("\n");
    assert(out@ =~= start + header_text(w as int));
}

/// The running totals of `s`; `None` where one is not representable.
fn running_totals(s: &[Offer]) -> (r: Option<Vec<Decimal>>)
    ensures
        r matches Some(t) ==> t@.len() == s@.len() && forall|k: int|
            0 <= k < s@.len() ==> #[trigger] t@[k]@ == cum(s@, k + 1),
{
    let mut totals: Vec<Decimal> = Vec::new();
    let mut sum = Decimal::zero();
    let mut i: usize = 0;
    while i < s.len()
        invariant
            i <= s@.len(),
            totals@.len() == i,
            sum@ == cum(s@, i as int),
            forall|k: int| 0 <= k < i ==> #[trigger] totals@[k]@ == cum(s@, k + 1),
        decreases s@.len() - i,
    {
        sum = sum.checked_add(s[i].amount)?;
        totals.push(sum);
        i = i + 1;
    }
    Some(totals)
}

/// Appends the rows of `s` from the last up to the first.
fn push_rows_down(out: &mut String, tag: &str, s: &[Offer], w: usize) -> (r: Option<()>)
    requires
        tag@.len() == 1,
    ensures
        r is Some ==> final(out)@ == old(out)@ + rows_down(tag@[0], s@, s@.len() as int, 0, w as int),
{
    let totals = running_totals(s)?;
    let ghost start = out@;
    let mut i: usize = s.len();
    while i > 0
        invariant
            i <= s@.len(),
            tag@.len() == 1,
            totals@.len() == s@.len(),
            forall|k: int| 0 <= k < s@.len() ==> #[trigger] totals@[k]@ == cum(s@, k + 1),
            out@ == start + rows_down(tag@[0], s@, s@.len() as int, i as int, w as int),
        decreases i,
    {
        push_row(out, tag, &s[i - 1], totals[i - 1], w)?;
        i = i - 1;
        proof {
            assert(totals@[i as int]@ == cum(s@, i + 1));
        }
    }
    Some(())
}

/// Appends the rows of `s` in order.
fn push_rows_up(out: &mut String, tag: &str, s: &[Offer], w: usize) -> (r: Option<()>)
    requires
        tag@.len() == 1,
    ensures
        r is Some ==> final(out)@ == old(out)@ + rows_up(tag@[0], s@, s@.len() as int, w as int),
{
    let totals = running_totals(s)?;
    let ghost start = out@;
    let mut i: usize = 0;
    while i < s.len()
        invariant
            i <= s@.len(),
            tag@.len() == 1,
            totals@.len() == s@.len(),
            forall|k: int| 0 <= k < s@.len() ==> #[trigger] totals@[k]@ == cum(s@, k + 1),
            out@ == start + rows_up(tag@[0], s@, i as int, w as int),
        decreases s@.len() - i,
    {
        push_row(out, tag, &s[i], totals[i], w)?;
        proof {
            assert(totals@[i as int]@ == cum(s@, i + 1));
        }
        i = i + 1;
    }
    Some(())
}

/// The widest identifier among `s`, and at least `from`.
fn widest(s: &[Offer], from: usize) -> (r: usize)
    ensures
        r as int == widest_from(s@, from as int),
{
    let mut w = from;
    let mut i: usize = 0;
    while i < s.len()
        invariant
            i <= s@.len(),
            w as int == widest_from(s@.take(i as int), from as int),
        decreases s@.len() - i,
    {
        let n = s[i].id.as_str().unicode_len();
        proof {
            assert(s@.take(i as int + 1).drop_last() =~= s@.take(i as int));
        }
        if n > w {
            w = n;
        }
        i = i + 1;
    }
    assert(s@.take(i as int) =~= s@);
    w
}

/// The widest identifier of `s`, and at least `from`.
pub open spec fn widest_from(s: Seq<Offer>, from: int) -> int
    decreases s.len(),
{
    if s.len() == 0 {
        from
    } else {
        let w = widest_from(s.drop_last(), from);
        if s.last().id@.len() > w {
            s.last().id@.len() as int
        } else {
            w
        }
    }
}

proof fn lemma_widest_concat(a: Seq<Offer>, b: Seq<Offer>)
    ensures
        widest_from(b, widest_from(a, COLUMN_WIDTH as int)) == id_width(a + b),
    decreases b.len(),
{
    if b.len() == 0 {
        assert(a + b =~= a);
        lemma_widest_is_id_width(a);
    } else {
        lemma_widest_concat(a, b.drop_last());
        assert((a + b).drop_last() =~= a + b.drop_last());
        assert((a + b).last() == b.last());
    }
}

proof fn lemma_widest_is_id_width(a: Seq<Offer>)
    ensures
        widest_from(a, COLUMN_WIDTH as int) == id_width(a),
    decreases a.len(),
{
    if a.len() > 0 {
        lemma_widest_is_id_width(a.drop_last());
    }
}

impl Orderbook {
    /// The book as text, for logs: see `book_text`. `None` where the timestamp or a
    /// number cannot be written. Widths count characters.
    pub fn to_text(&self) -> (r: Option<String>)
        ensures
            r matches Some(t) ==> t@ == book_text(self@),
    {
        let date = utc_text(self.timestamp)?;
        let w = widest(self.bids.as_slice(), widest(self.asks.as_slice(), COLUMN_WIDTH));
        proof {
            lemma_widest_concat(self.asks@, self.bids@);
            reveal_strlit("\n");
            reveal_strlit("a");
            reveal_strlit("b");
        }
        let asks = if self.asks.len() > SHOWN_OFFERS {
            self.asks.as_slice().split_at(SHOWN_OFFERS).0
        } else {
            self.asks.as_slice()
        };
        let bids = if self.bids.len() > SHOWN_OFFERS {
            self.bids.as_slice().split_at(SHOWN_OFFERS).0
        } else {
            self.bids.as_slice()
        };
        assert(asks@ =~= shown(self.asks@));
        assert(bids@ =~= shown(self.bids@));
        let mut out = String::from_str("Orderbook @ ");
        out.append(date.as_str());
        out.append("\n");
        push_header(&mut out, w);
        push_rows_down(&mut out, "a", asks, w)?;
        out.append("\n");
        push_rows_up(&mut out, "b", bids, w)?;
        assert(out@ =~= book_text(self@));
        Some(out)
    }
}

/// Our orders on `side` as offers, sorted as the book sorts that side.
fn sorted_offers(orders: &OpenOrders, side: Side) -> (r: Vec<Offer>)
    ensures
        r@ == sorted_side(orders.orders@, side),
{
    let mine = orders.side_orders(side);
    let ghost offers = on_side(orders.orders@, side).map_values(|o: OrderState| as_offer(o));
    let mut sorted: Vec<Offer> = Vec::new();
    let mut i: usize = 0;
    while i < mine.len()
        invariant
            i <= mine@.len(),
            mine@ == on_side(orders.orders@, side),
            offers == mine@.map_values(|o: OrderState| as_offer(o)),
            sorted@ == sorted_upto(side, offers, i as int),
        decreases mine@.len() - i,
    {
        let o = &mine[i];
        let offer = Offer { id: OfferId(o.id.0.clone()), price: o.price, amount: o.amount };
        assert(offer == offers[i as int]);
        insert_sorted(&mut sorted, side, offer);
        i = i + 1;
    }
    sorted
}

impl OpenOrders {
    /// Our open orders as text, for logs: see `open_orders_text`. `None` where the
    /// timestamp or a number cannot be written. Widths count characters.
    pub fn to_text(&self) -> (r: Option<String>)
        ensures
            r matches Some(t) ==> t@ == open_orders_text(self.orders@, self.timestamp),
    {
        let date = utc_text(self.timestamp)?;
        let asks = sorted_offers(self, Side::Ask);
        let bids = sorted_offers(self, Side::Bid);
        let mut all: Vec<Offer> = Vec::new();
        let mut i: usize = 0;
        while i < self.orders.len()
            invariant
                i <= self.orders@.len(),
                all@ == self.orders@.take(i as int).map_values(|o: OrderState| as_offer(o)),
            decreases self.orders@.len() - i,
        {
            let o = &self.orders[i];
            all.push(Offer { id: OfferId(o.id.0.clone()), price: o.price, amount: o.amount });
            i = i + 1;
            assert(all@ =~= self.orders@.take(i as int).map_values(|o: OrderState| as_offer(o)));
        }
        assert(self.orders@.take(i as int) =~= self.orders@);
        let w = widest(all.as_slice(), COLUMN_WIDTH);
        proof {
            lemma_widest_is_id_width(all@);
            reveal_strlit("\n");
            reveal_strlit("a");
            reveal_strlit("b");
        }
        let mut out = String::from_str("OpenOrders @ ");
        out.append(date.as_str());
        out.append("\n");
        push_header(&mut out, w);
        push_rows_down(&mut out, "a", asks.as_slice(), w)?;
        if asks.len() > 0 && bids.len() > 0 {
            out.append("\n");
        }
        push_rows_up(&mut out, "b", bids.as_slice(), w)?;
        assert(out@ =~= open_orders_text(self.orders@, self.timestamp));
        Some(out)
    }
}

} // verus!
