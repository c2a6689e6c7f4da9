use vstd::prelude::*;

use crate::decimal::{Amount, Price};
use crate::types::{
    ascending, descending, has_offer, unique_offer_ids, Offer, OfferId, Orderbook, OrderbookView,
    Side,
};

verus! {

/// Why a write to a book was refused; the book is then left as it was.
#[derive(Debug, PartialEq, Eq)]
pub enum UpdateOrderbookError {
    /// A create named an identifier that its side already holds.
    AlreadyExists(OfferId),
    /// An update or delete named an identifier that its side does not hold.
    OfferNotFound(OfferId),
}

pub type OrderbookWriterResult<T> = Result<T, UpdateOrderbookError>;

/// Inserts a new offer on one side.
#[derive(Debug, PartialEq, Eq)]
pub struct CreateOp {
    pub timestamp: u64,
    pub side: Side,
    pub id: OfferId,
    pub price: Price,
    pub amount: Amount,
}

/// Changes the price and/or amount of an offer and moves it to its sorted place.
#[derive(Debug, PartialEq, Eq)]
pub struct UpdateOp {
    pub timestamp: u64,
    pub side: Side,
    pub id: OfferId,
    pub price: Option<Price>,
    pub amount: Option<Amount>,
}

/// Removes an offer.
#[derive(Debug, PartialEq, Eq)]
pub struct DeleteOp {
    pub timestamp: u64,
    pub side: Side,
    pub id: OfferId,
}

/// One write to a book.
#[derive(Debug, PartialEq, Eq)]
pub enum OrderbookWriteOp {
    Snapshot(Orderbook),
    Create(CreateOp),
    Update(UpdateOp),
    Delete(DeleteOp),
}

// ---------------------------------------------------------------- model

/// `k` is where an offer at price `p` goes on `side`: after every offer at a price
/// that does not rank behind `p`, before the first that does. Offers at an equal
/// price keep their order of arrival.
pub open spec fn slot(side: Side, s: Seq<Offer>, p: int, k: int) -> bool {
    &&& 0 <= k <= s.len()
    &&& forall|j: int|
        0 <= j < k ==> #[trigger] ranks_before_or_with(side, s[j].price@, p)
    &&& k < s.len() ==> !ranks_before_or_with(side, s[k].price@, p)
}

/// On `side`, a price `a` comes no later than a price `b`.
pub open spec fn ranks_before_or_with(side: Side, a: int, b: int) -> bool {
    match side {
        Side::Ask => a <= b,
        Side::Bid => a >= b,
    }
}

/// The place where an offer at price `p` goes on `side`.
pub open spec fn slot_of(side: Side, s: Seq<Offer>, p: int) -> int {
    choose|k: int| slot(side, s, p, k)
}

/// `k` is the first offer of `s` with the identifier `id`.
pub open spec fn first_offer(s: Seq<Offer>, id: Seq<char>, k: int) -> bool {
    &&& 0 <= k < s.len()
    &&& s[k].id@ == id
    &&& forall|j: int| 0 <= j < k ==> #[trigger] s[j].id@ != id
}

/// The index of the first offer of `s` with the identifier `id`.
pub open spec fn offer_index(s: Seq<Offer>, id: Seq<char>) -> int {
    choose|k: int| first_offer(s, id, k)
}

pub open spec fn side_of(b: OrderbookView, side: Side) -> Seq<Offer> {
    match side {
        Side::Ask => b.asks,
        Side::Bid => b.bids,
    }
}

/// `b` with the offers of `side` replaced by `s` and the timestamp set to `ts`.
pub open spec fn with_side(b: OrderbookView, side: Side, s: Seq<Offer>, ts: u64) -> OrderbookView {
    match side {
        Side::Ask => OrderbookView { timestamp: ts, asks: s, bids: b.bids },
        Side::Bid => OrderbookView { timestamp: ts, asks: b.asks, bids: s },
    }
}

/// `s` with `o` inserted at its sorted place on `side`.
pub open spec fn inserted(side: Side, s: Seq<Offer>, o: Offer) -> Seq<Offer> {
    s.insert(slot_of(side, s, o.price@), o)
}

/// The offer `o` with the fields that an update provides replaced.
pub open spec fn patched(o: Offer, price: Option<Price>, amount: Option<Amount>) -> Offer {
    Offer {
        id: o.id,
        price: match price {
            Some(p) => p,
            None => o.price,
        },
        amount: match amount {
            Some(a) => a,
            None => o.amount,
        },
    }
}

/// The book after `op`, or `None` where the op is refused.
pub open spec fn apply_spec(b: OrderbookView, op: OrderbookWriteOp) -> Option<OrderbookView> {
    match op {
        OrderbookWriteOp::Snapshot(book) => Some(book@),
        OrderbookWriteOp::Create(c) => {
            let s = side_of(b, c.side);
            if has_offer(s, c.id@) {
                None
            } else {
                Some(
                    with_side(
                        b,
                        c.side,
                        inserted(c.side, s, Offer { id: c.id, price: c.price, amount: c.amount }),
                        c.timestamp,
                    ),
                )
            }
        },
        OrderbookWriteOp::Update(u) => {
            let s = side_of(b, u.side);
            if !has_offer(s, u.id@) {
                None
            } else {
                let k = offer_index(s, u.id@);
                Some(
                    with_side(
                        b,
                        u.side,
                        inserted(u.side, s.remove(k), patched(s[k], u.price, u.amount)),
                        u.timestamp,
                    ),
                )
            }
        },
        OrderbookWriteOp::Delete(d) => {
            let s = side_of(b, d.side);
            if !has_offer(s, d.id@) {
                None
            } else {
                Some(with_side(b, d.side, s.remove(offer_index(s, d.id@)), d.timestamp))
            }
        },
    }
}

/// The error that `apply` reports for a refused op.
pub open spec fn error_spec(op: OrderbookWriteOp) -> UpdateOrderbookError {
    match op {
        OrderbookWriteOp::Create(c) => UpdateOrderbookError::AlreadyExists(c.id),
        OrderbookWriteOp::Update(u) => UpdateOrderbookError::OfferNotFound(u.id),
        OrderbookWriteOp::Delete(d) => UpdateOrderbookError::OfferNotFound(d.id),
        OrderbookWriteOp::Snapshot(_) => arbitrary(),
    }
}

// ---------------------------------------------------------------- lemmas

proof fn lemma_slot_unique(side: Side, s: Seq<Offer>, p: int, k: int)
    requires
        slot(side, s, p, k),
    ensures
        slot_of(side, s, p) == k,
{
    let c = slot_of(side, s, p);
    assert(slot(side, s, p, c));
    if c < k {
        assert(ranks_before_or_with(side, s[c].price@, p));
    } else if k < c {
        assert(ranks_before_or_with(side, s[k].price@, p));
    }
}

proof fn lemma_first_offer_unique(s: Seq<Offer>, id: Seq<char>, k: int)
    requires
        first_offer(s, id, k),
    ensures
        offer_index(s, id) == k,
{
    let c = offer_index(s, id);
    assert(first_offer(s, id, c));
    if c < k {
        assert(s[c].id@ != id);
    } else if k < c {
        assert(s[k].id@ != id);
    }
}

/// The order of a side: ascending prices for asks, descending for bids.
pub open spec fn sorted_for(side: Side, s: Seq<Offer>) -> bool {
    match side {
        Side::Ask => ascending(s),
        Side::Bid => descending(s),
    }
}

proof fn lemma_insert_sorted(side: Side, s: Seq<Offer>, o: Offer)
    requires
        sorted_for(side, s),
    ensures
        sorted_for(side, inserted(side, s, o)),
{
    let k = slot_of(side, s, o.price@);
    lemma_slot_exists(side, s, o.price@);
    let t = s.insert(k, o);
    assert forall|i: int, j: int| 0 <= i < j < t.len() implies ranks_before_or_with(
        side,
        t[i].price@,
        t[j].price@,
    ) by {
        if j < k {
        } else if j == k {
            assert(ranks_before_or_with(side, s[i].price@, o.price@));
        } else if i < k {
            assert(ranks_before_or_with(side, s[i].price@, o.price@));
            assert(ranks_before_or_with(side, s[k].price@, s[j - 1].price@) || k == j - 1);
        } else if i == k {
            assert(!ranks_before_or_with(side, s[k].price@, o.price@));
            assert(k == j - 1 || ranks_before_or_with(side, s[k].price@, s[j - 1].price@));
        } else {
        }
    }
    assert(sorted_for(side, t)) by {
        assert forall|i: int, j: int| 0 <= i < j < t.len() implies match side {
            Side::Ask => t[i].price@ <= t[j].price@,
            Side::Bid => t[i].price@ >= t[j].price@,
        } by {
            assert(ranks_before_or_with(side, t[i].price@, t[j].price@));
        }
    }
}

proof fn lemma_slot_exists(side: Side, s: Seq<Offer>, p: int)
    ensures
        slot(side, s, p, slot_of(side, s, p)),
{
    let n = first_rank_after(side, s, p, 0);
    lemma_first_rank_after(side, s, p, 0);
}

spec fn first_rank_after(side: Side, s: Seq<Offer>, p: int, from: int) -> int
    decreases s.len() - from,
{
    if from >= s.len() {
        s.len() as int
    } else if !ranks_before_or_with(side, s[from].price@, p) {
        from
    } else {
        first_rank_after(side, s, p, from + 1)
    }
}

proof fn lemma_first_rank_after(side: Side, s: Seq<Offer>, p: int, from: int)
    requires
        0 <= from <= s.len(),
        forall|j: int| 0 <= j < from ==> #[trigger] ranks_before_or_with(side, s[j].price@, p),
    ensures
        slot(side, s, p, first_rank_after(side, s, p, from)),
    decreases s.len() - from,
{
    if from < s.len() && ranks_before_or_with(side, s[from].price@, p) {
        lemma_first_rank_after(side, s, p, from + 1);
    }
}

proof fn lemma_remove_keeps(side: Side, s: Seq<Offer>, k: int)
    requires
        0 <= k < s.len(),
        sorted_for(side, s),
        unique_offer_ids(s),
    ensures
        sorted_for(side, s.remove(k)),
        unique_offer_ids(s.remove(k)),
        forall|i: int| 0 <= i < s.len() && i != k ==> has_offer(s.remove(k), #[trigger] s[i].id@),
{
    let t = s.remove(k);
    assert forall|i: int| 0 <= i < s.len() && i != k implies has_offer(t, #[trigger] s[i].id@) by {
        if i < k {
            assert(t[i] == s[i]);
        } else {
            assert(t[i - 1] == s[i]);
        }
    }
}

proof fn lemma_insert_unique(s: Seq<Offer>, k: int, o: Offer)
    requires
        0 <= k <= s.len(),
        unique_offer_ids(s),
        !has_offer(s, o.id@),
    ensures
        unique_offer_ids(s.insert(k, o)),
{
    let t = s.insert(k, o);
    assert forall|i: int, j: int| 0 <= i < j < t.len() implies t[i].id@ != t[j].id@ by {
        if j < k {
        } else if j == k {
            assert(t[i] == s[i]);
        } else if i < k {
            assert(t[j] == s[j - 1]);
        } else if i == k {
            assert(t[j] == s[j - 1]);
        } else {
        }
    }
}

/// A successful op on a well-formed book leaves it well-formed, provided that a
/// snapshot hands over a well-formed book.
pub proof fn lemma_apply_keeps_wf(b: OrderbookView, op: OrderbookWriteOp)
    requires
        view_wf(b),
        op matches OrderbookWriteOp::Snapshot(book) ==> book.wf(),
        apply_spec(b, op) is Some,
    ensures
        view_wf(apply_spec(b, op)->0),
{
    match op {
        OrderbookWriteOp::Snapshot(book) => {},
        OrderbookWriteOp::Create(c) => {
            let s = side_of(b, c.side);
            let o = Offer { id: c.id, price: c.price, amount: c.amount };
            lemma_insert_sorted(c.side, s, o);
            lemma_slot_exists(c.side, s, o.price@);
            lemma_insert_unique(s, slot_of(c.side, s, o.price@), o);
        },
        OrderbookWriteOp::Update(u) => {
            let s = side_of(b, u.side);
            let k = offer_index(s, u.id@);
            let o = patched(s[k], u.price, u.amount);
            let t = s.remove(k);
            lemma_offer_index_exists(s, u.id@);
            lemma_remove_keeps(u.side, s, k);
            assert(!has_offer(t, u.id@)) by {
                if has_offer(t, u.id@) {
                    let i = choose|i: int| 0 <= i < t.len() && t[i].id@ == u.id@;
                    if i < k {
                        assert(t[i] == s[i]);
                    } else {
                        assert(t[i] == s[i + 1]);
                    }
                }
            }
            lemma_insert_sorted(u.side, t, o);
            lemma_slot_exists(u.side, t, o.price@);
            lemma_insert_unique(t, slot_of(u.side, t, o.price@), o);
        },
        OrderbookWriteOp::Delete(d) => {
            let s = side_of(b, d.side);
            lemma_offer_index_exists(s, d.id@);
            lemma_remove_keeps(d.side, s, offer_index(s, d.id@));
        },
    }
}

proof fn lemma_offer_index_exists(s: Seq<Offer>, id: Seq<char>)
    requires
        has_offer(s, id),
    ensures
        first_offer(s, id, offer_index(s, id)),
    decreases s.len(),
{
    let i = choose|i: int| 0 <= i < s.len() && s[i].id@ == id;
    if exists|j: int| 0 <= j < i && s[j].id@ == id {
        let j = choose|j: int| 0 <= j < i && s[j].id@ == id;
        assert(s.take(i)[j].id@ == id);
        lemma_offer_index_exists(s.take(i), id);
        let k = offer_index(s.take(i), id);
        assert(first_offer(s, id, k)) by {
            assert forall|m: int| 0 <= m < k implies #[trigger] s[m].id@ != id by {
                assert(s.take(i)[m] == s[m]);
            }
            assert(s.take(i)[k] == s[k]);
        }
    } else {
        assert(first_offer(s, id, i));
    }
}

/// The invariant of a book, on its view.
pub open spec fn view_wf(b: OrderbookView) -> bool {
    &&& ascending(b.asks)
    &&& descending(b.bids)
    &&& unique_offer_ids(b.asks)
    &&& unique_offer_ids(b.bids)
}

/// The timestamp that a successful op leaves on the book.
pub open spec fn op_timestamp(op: OrderbookWriteOp) -> u64 {
    match op {
        OrderbookWriteOp::Snapshot(book) => book.timestamp,
        OrderbookWriteOp::Create(c) => c.timestamp,
        OrderbookWriteOp::Update(u) => u.timestamp,
        OrderbookWriteOp::Delete(d) => d.timestamp,
    }
}

/// The book after each op of `ops` in turn; a refused op leaves the book as it was.
pub open spec fn apply_all(b: OrderbookView, ops: Seq<OrderbookWriteOp>) -> OrderbookView
    decreases ops.len(),
{
    if ops.len() == 0 {
        b
    } else {
        let prev = apply_all(b, ops.drop_last());
        match apply_spec(prev, ops.last()) {
            Some(next) => next,
            None => prev,
        }
    }
}

/// The timestamp of the last op of `ops` that was applied, or that of `b` where none was.
pub open spec fn last_applied_timestamp(b: OrderbookView, ops: Seq<OrderbookWriteOp>) -> u64
    decreases ops.len(),
{
    if ops.len() == 0 {
        b.timestamp
    } else if apply_spec(apply_all(b, ops.drop_last()), ops.last()) is Some {
        op_timestamp(ops.last())
    } else {
        last_applied_timestamp(b, ops.drop_last())
    }
}

/// The errors of the ops of `ops` that were refused, in order.
pub open spec fn refusals(b: OrderbookView, ops: Seq<OrderbookWriteOp>) -> Seq<UpdateOrderbookError>
    decreases ops.len(),
{
    if ops.len() == 0 {
        Seq::empty()
    } else {
        let prev = refusals(b, ops.drop_last());
        if apply_spec(apply_all(b, ops.drop_last()), ops.last()) is None {
            prev.push(error_spec(ops.last()))
        } else {
            prev
        }
    }
}

/// `k` is the first snapshot among `ops`.
pub open spec fn first_snapshot(ops: Seq<OrderbookWriteOp>, k: int) -> bool {
    &&& 0 <= k < ops.len()
    &&& ops[k] is Snapshot
    &&& forall|j: int| 0 <= j < k ==> !(#[trigger] ops[j] is Snapshot)
}

/// After any sequence of ops on a well-formed book (each snapshot handing over a
/// well-formed book), asks are in ascending and bids in descending price order,
/// identifiers are unique on each side, and the timestamp is that of the last op
/// that was applied.
pub proof fn lemma_writer_sequence(b: OrderbookView, ops: Seq<OrderbookWriteOp>)
    requires
        view_wf(b),
        forall|i: int|
            0 <= i < ops.len() ==> (#[trigger] ops[i] matches OrderbookWriteOp::Snapshot(book)
                ==> book.wf()),
    ensures
        view_wf(apply_all(b, ops)),
        apply_all(b, ops).timestamp == last_applied_timestamp(b, ops),
    decreases ops.len(),
{
    if ops.len() > 0 {
        let init = ops.drop_last();
        assert forall|i: int|
            0 <= i < init.len() implies (#[trigger] init[i] matches OrderbookWriteOp::Snapshot(
            book,
        ) ==> book.wf()) by {
            assert(init[i] == ops[i]);
        }
        lemma_writer_sequence(b, init);
        let prev = apply_all(b, init);
        assert(ops[ops.len() - 1] == ops.last());
        if apply_spec(prev, ops.last()) is Some {
            lemma_apply_keeps_wf(prev, ops.last());
        }
    }
}

/// On `side`, a price `a` comes strictly before a price `b`.
pub open spec fn ranks_before(side: Side, a: int, b: int) -> bool {
    match side {
        Side::Ask => a < b,
        Side::Bid => a > b,
    }
}

/// Every offer of `s` comes at a price strictly before the next one's on `side`.
pub open spec fn strictly_sorted_for(side: Side, s: Seq<Offer>) -> bool {
    forall|i: int, j: int|
        0 <= i < j < s.len() ==> #[trigger] ranks_before(side, s[i].price@, s[j].price@)
}

/// Asks strictly ascending and bids strictly descending in price.
pub open spec fn view_strict(b: OrderbookView) -> bool {
    strictly_sorted_for(Side::Ask, b.asks) && strictly_sorted_for(Side::Bid, b.bids)
}

/// Some offer of `s` rests at price `p`.
pub open spec fn price_held(s: Seq<Offer>, p: int) -> bool {
    exists|i: int| 0 <= i < s.len() && s[i].price@ == p
}

/// `op` places no offer at a price that the rest of its side already holds.
pub open spec fn brings_new_price(b: OrderbookView, op: OrderbookWriteOp) -> bool {
    match op {
        OrderbookWriteOp::Create(c) => !price_held(side_of(b, c.side), c.price@),
        OrderbookWriteOp::Update(u) => {
            let s = side_of(b, u.side);
            has_offer(s, u.id@) ==> {
                let k = offer_index(s, u.id@);
                !price_held(s.remove(k), patched(s[k], u.price, u.amount).price@)
            }
        },
        _ => true,
    }
}

proof fn lemma_insert_strict(side: Side, s: Seq<Offer>, o: Offer)
    requires
        strictly_sorted_for(side, s),
        !price_held(s, o.price@),
    ensures
        strictly_sorted_for(side, inserted(side, s, o)),
{
    lemma_slot_exists(side, s, o.price@);
    let k = slot_of(side, s, o.price@);
    let t = s.insert(k, o);
    assert forall|i: int, j: int| 0 <= i < j < t.len() implies #[trigger] ranks_before(
        side,
        t[i].price@,
        t[j].price@,
    ) by {
        if j < k {
            assert(ranks_before(side, s[i].price@, s[j].price@));
        } else if j == k {
            assert(ranks_before_or_with(side, s[i].price@, o.price@));
            assert(s[i].price@ != o.price@);
        } else if i < k {
            assert(ranks_before_or_with(side, s[i].price@, o.price@));
            assert(s[i].price@ != o.price@);
            if k < j - 1 {
                assert(ranks_before(side, s[k].price@, s[j - 1].price@));
            }
        } else if i == k {
            assert(!ranks_before_or_with(side, s[k].price@, o.price@));
            if k < j - 1 {
                assert(ranks_before(side, s[k].price@, s[j - 1].price@));
            }
        } else {
            assert(ranks_before(side, s[i - 1].price@, s[j - 1].price@));
        }
    }
}

proof fn lemma_remove_strict(side: Side, s: Seq<Offer>, k: int)
    requires
        0 <= k < s.len(),
        strictly_sorted_for(side, s),
    ensures
        strictly_sorted_for(side, s.remove(k)),
{
    let t = s.remove(k);
    assert forall|i: int, j: int| 0 <= i < j < t.len() implies #[trigger] ranks_before(
        side,
        t[i].price@,
        t[j].price@,
    ) by {
        let i0 = if i < k { i } else { i + 1 };
        let j0 = if j < k { j } else { j + 1 };
        assert(t[i] == s[i0]);
        assert(t[j] == s[j0]);
        assert(ranks_before(side, s[i0].price@, s[j0].price@));
    }
}

proof fn lemma_apply_keeps_strict(b: OrderbookView, op: OrderbookWriteOp)
    requires
        view_strict(b),
        op matches OrderbookWriteOp::Snapshot(book) ==> view_strict(book@),
        brings_new_price(b, op),
        apply_spec(b, op) is Some,
    ensures
        view_strict(apply_spec(b, op)->0),
{
    match op {
        OrderbookWriteOp::Snapshot(book) => {},
        OrderbookWriteOp::Create(c) => {
            let o = Offer { id: c.id, price: c.price, amount: c.amount };
            lemma_insert_strict(c.side, side_of(b, c.side), o);
        },
        OrderbookWriteOp::Update(u) => {
            let s = side_of(b, u.side);
            let k = offer_index(s, u.id@);
            lemma_offer_index_exists(s, u.id@);
            lemma_remove_strict(u.side, s, k);
            lemma_insert_strict(u.side, s.remove(k), patched(s[k], u.price, u.amount));
        },
        OrderbookWriteOp::Delete(d) => {
            let s = side_of(b, d.side);
            lemma_offer_index_exists(s, d.id@);
            lemma_remove_strict(d.side, s, offer_index(s, d.id@));
        },
    }
}

/// Where no op places an offer at a price that its side already holds (and each
/// snapshot hands over a strictly ordered book), asks stay strictly ascending and
/// bids strictly descending in price after any sequence of ops.
pub proof fn lemma_writer_sequence_strict(b: OrderbookView, ops: Seq<OrderbookWriteOp>)
    requires
        view_strict(b),
        forall|i: int|
            0 <= i < ops.len() ==> (#[trigger] ops[i] matches OrderbookWriteOp::Snapshot(book)
                ==> view_strict(book@)),
        forall|i: int|
            0 <= i < ops.len() ==> brings_new_price(apply_all(b, ops.take(i)), #[trigger] ops[i]),
    ensures
        view_strict(apply_all(b, ops)),
    decreases ops.len(),
{
    if ops.len() > 0 {
        let init = ops.drop_last();
        assert forall|i: int|
            0 <= i < init.len() implies (#[trigger] init[i] matches OrderbookWriteOp::Snapshot(
            book,
        ) ==> view_strict(book@)) by {
            assert(init[i] == ops[i]);
        }
        assert forall|i: int|
            0 <= i < init.len() implies brings_new_price(
            apply_all(b, init.take(i)),
            #[trigger] init[i],
        ) by {
            assert(init[i] == ops[i]);
            assert(init.take(i) =~= ops.take(i));
            assert(brings_new_price(apply_all(b, ops.take(i)), ops[i]));
        }
        lemma_writer_sequence_strict(b, init);
        let n = ops.len() - 1;
        assert(ops.take(n) =~= init);
        assert(ops[n] == ops.last());
        assert(brings_new_price(apply_all(b, ops.take(n)), ops[n]));
        if apply_spec(apply_all(b, init), ops.last()) is Some {
            lemma_apply_keeps_strict(apply_all(b, init), ops.last());
        }
    }
}

// ---------------------------------------------------------------- exec

/// The place where an offer at `price` goes among `offers` of `side`.
fn find_slot(offers: &Vec<Offer>, side: Side, price: Price) -> (k: usize)
    ensures
        slot(side, offers@, price@, k as int),
        k as int == slot_of(side, offers@, price@),
{
    let mut i: usize = 0;
    while i < offers.len()
        invariant
            i <= offers@.len(),
            forall|j: int| 0 <= j < i ==> #[trigger] ranks_before_or_with(side, offers@[j].price@, price@),
        decreases offers@.len() - i,
    {
        let p = offers[i].price;
        let after = match side {
            Side::Ask => p.gt(&price),
            Side::Bid => p.lt(&price),
        };
        if after {
            proof {
                lemma_slot_unique(side, offers@, price@, i as int);
            }
            return i;
        }
        i = i + 1;
    }
    proof {
        lemma_slot_unique(side, offers@, price@, i as int);
    }
    i
}

/// The index of the first offer with the identifier `id`.
fn find_offer(offers: &Vec<Offer>, id: &OfferId) -> (r: Option<usize>)
    ensures
        r is None <==> !has_offer(offers@, id@),
        r matches Some(k) ==> first_offer(offers@, id@, k as int) && k as int == offer_index(
            offers@,
            id@,
        ),
{
    let mut i: usize = 0;
    while i < offers.len()
        invariant
            i <= offers@.len(),
            forall|j: int| 0 <= j < i ==> #[trigger] offers@[j].id@ != id@,
        decreases offers@.len() - i,
    {
        if offers[i].id == *id {
            proof {
                lemma_first_offer_unique(offers@, id@, i as int);
            }
            return Some(i);
        }
        i = i + 1;
    }
    None
}

/// Inserts `offer` at its sorted place on `side`.
pub(crate) fn insert_sorted(offers: &mut Vec<Offer>, side: Side, offer: Offer)
    ensures
        final(offers)@ == inserted(side, old(offers)@, offer),
{
    let k = find_slot(offers, side, offer.price);
    offers.insert(k, offer);
}

/// Applies ops to a book that it borrows for its lifetime.
pub struct OrderbookWriter<'a> {
    pub inner: &'a mut Orderbook,
}

impl<'a> OrderbookWriter<'a> {
    pub fn new(inner: &'a mut Orderbook) -> (r: Self)
        ensures
            *r.inner == *old(inner),
            *final(inner) == *final(r.inner),
    {
        OrderbookWriter { inner }
    }

    /// Applies one op. On success the book becomes `apply_spec` of it; on refusal it
    /// is left unchanged and the error names the identifier.
    pub fn apply(&mut self, op: OrderbookWriteOp) -> (r: OrderbookWriterResult<()>)
        ensures
            *final(final(self).inner) == *final(old(self).inner),
            match apply_spec(old(self).inner@, op) {
                Some(b) => r is Ok && final(self).inner@ == b,
                None => r == Err::<(), _>(error_spec(op)) && final(self).inner@ == old(self).inner@,
            },
    {
        match op {
            OrderbookWriteOp::Snapshot(orderbook) => self.apply_snapshot(orderbook),
            OrderbookWriteOp::Create(op) => self.apply_create(op),
            OrderbookWriteOp::Update(op) => self.apply_update(op),
            OrderbookWriteOp::Delete(op) => self.apply_delete(op),
        }
    }

    /// Replaces the book wholesale.
    pub fn apply_snapshot(&mut self, orderbook: Orderbook) -> (r: OrderbookWriterResult<()>)
        ensures
            *final(final(self).inner) == *final(old(self).inner),
            r is Ok,
            final(self).inner@ == orderbook@,
    {
        *self.inner = orderbook;
        Ok(())
    }

    /// Inserts a new offer at its sorted place; refused where the side already holds
    /// its identifier.
    pub fn apply_create(&mut self, op: CreateOp) -> (r: OrderbookWriterResult<()>)
        ensures
            *final(final(self).inner) == *final(old(self).inner),
            match apply_spec(old(self).inner@, OrderbookWriteOp::Create(op)) {
                Some(b) => r is Ok && final(self).inner@ == b,
                None => r == Err::<(), _>(UpdateOrderbookError::AlreadyExists(op.id))
                    && final(self).inner@ == old(self).inner@,
            },
    {
        let CreateOp { timestamp, side, id, price, amount } = op;
        let offers = match side {
            Side::Ask => &self.inner.asks,
            Side::Bid => &self.inner.bids,
        };
        if find_offer(offers, &id).is_some() {
            return Err(UpdateOrderbookError::AlreadyExists(id));
        }
        let offer = Offer { id, price, amount };
        match side {
            Side::Ask => insert_sorted(&mut self.inner.asks, side, offer),
            Side::Bid => insert_sorted(&mut self.inner.bids, side, offer),
        }
        self.inner.timestamp = timestamp;
        Ok(())
    }

    /// Patches the provided fields of an offer and moves it to its sorted place;
    /// refused where the side does not hold its identifier.
    pub fn apply_update(&mut self, op: UpdateOp) -> (r: OrderbookWriterResult<()>)
        ensures
            *final(final(self).inner) == *final(old(self).inner),
            match apply_spec(old(self).inner@, OrderbookWriteOp::Update(op)) {
                Some(b) => r is Ok && final(self).inner@ == b,
                None => r == Err::<(), _>(UpdateOrderbookError::OfferNotFound(op.id))
                    && final(self).inner@ == old(self).inner@,
            },
    {
        let UpdateOp { timestamp, side, id, price, amount } = op;
        let found = match side {
            Side::Ask => find_offer(&self.inner.asks, &id),
            Side::Bid => find_offer(&self.inner.bids, &id),
        };
        match found {
            None => Err(UpdateOrderbookError::OfferNotFound(id)),
            Some(index) => {
                match side {
                    Side::Ask => {
                        let offer = self.inner.asks.remove(index);
                        let offer = patch(offer, price, amount);
                        insert_sorted(&mut self.inner.asks, side, offer);
                    },
                    Side::Bid => {
                        let offer = self.inner.bids.remove(index);
                        let offer = patch(offer, price, amount);
                        insert_sorted(&mut self.inner.bids, side, offer);
                    },
                }
                self.inner.timestamp = timestamp;
                Ok(())
            },
        }
    }

    /// Removes an offer; refused where the side does not hold its identifier.
    pub fn apply_delete(&mut self, op: DeleteOp) -> (r: OrderbookWriterResult<()>)
        ensures
            *final(final(self).inner) == *final(old(self).inner),
            match apply_spec(old(self).inner@, OrderbookWriteOp::Delete(op)) {
                Some(b) => r is Ok && final(self).inner@ == b,
                None => r == Err::<(), _>(UpdateOrderbookError::OfferNotFound(op.id))
                    && final(self).inner@ == old(self).inner@,
            },
    {
        let DeleteOp { timestamp, side, id } = op;
        let found = match side {
            Side::Ask => find_offer(&self.inner.asks, &id),
            Side::Bid => find_offer(&self.inner.bids, &id),
        };
        match found {
            None => Err(UpdateOrderbookError::OfferNotFound(id)),
            Some(index) => {
                match side {
                    Side::Ask => {
                        self.inner.asks.remove(index);
                    },
                    Side::Bid => {
                        self.inner.bids.remove(index);
                    },
                }
                self.inner.timestamp = timestamp;
                Ok(())
            },
        }
    }

    /// Ends the borrow and hands the book back.
    pub fn into_inner(self) -> &'a mut Orderbook {
        self.inner
    }
}

/// Applies `ops` to `book` in order; a refused op is skipped and its error collected.
pub fn apply_batch(book: &mut Orderbook, ops: Vec<OrderbookWriteOp>) -> (errors: Vec<
    UpdateOrderbookError,
>)
    ensures
        final(book)@ == apply_all(old(book)@, ops@),
        errors@ == refusals(old(book)@, ops@),
{
    let ghost start = book@;
    let ghost all = ops@;
    let n = ops.len();
    let mut ops = ops;
    let mut errors: Vec<UpdateOrderbookError> = Vec::new();
    let mut i: usize = 0;
    while ops.len() > 0
        invariant
            all.len() == n,
            i <= all.len(),
            ops@ == all.skip(i as int),
            book@ == apply_all(start, all.take(i as int)),
            errors@ == refusals(start, all.take(i as int)),
        decreases ops@.len(),
    {
        let op = ops.remove(0);
        proof {
            assert(all.take(i as int + 1).drop_last() =~= all.take(i as int));
            assert(op == all[i as int]);
            assert(all.take(i as int + 1).last() == op);
            assert(ops@ =~= all.skip(i as int + 1));
        }
        let mut writer = OrderbookWriter::new(book);
        match writer.apply(op) {
            Ok(()) => {},
            Err(e) => errors.push(e),
        }
        i = i + 1;
    }
    assert(all.take(i as int) =~= all);
    errors
}

/// The book that a session starts from: the first snapshot among `ops`, with every op
/// after it applied in order (refused ones skipped and their errors returned), or
/// `None` where `ops` holds no snapshot.
pub fn initial_book(ops: Vec<OrderbookWriteOp>) -> (r: Option<(Orderbook, Vec<UpdateOrderbookError>)>)
    ensures
        r is None <==> forall|j: int| 0 <= j < ops@.len() ==> !(#[trigger] ops@[j] is Snapshot),
        r matches Some((book, errors)) ==> exists|k: int|
            first_snapshot(ops@, k) && book@ == apply_all(
                ops@[k]->Snapshot_0@,
                ops@.skip(k + 1),
            ) && errors@ == refusals(ops@[k]->Snapshot_0@, ops@.skip(k + 1)),
{
    let ghost all = ops@;
    let n = ops.len();
    let mut pending = ops;
    let mut i: usize = 0;
    while pending.len() > 0
        invariant
            all == ops@,
            all.len() == n,
            i <= all.len(),
            pending@ == all.skip(i as int),
            forall|j: int| 0 <= j < i ==> !(#[trigger] all[j] is Snapshot),
        decreases pending@.len(),
    {
        let op = pending.remove(0);
        proof {
            assert(op == all[i as int]);
            assert(pending@ =~= all.skip(i as int + 1));
        }
        match op {
            OrderbookWriteOp::Snapshot(mut book) => {
                let ghost b0 = book@;
                let ghost rest = pending@;
                let errors = apply_batch(&mut book, pending);
                proof {
                    assert(first_snapshot(all, i as int));
                    assert(b0 == all[i as int]->Snapshot_0@);
                    assert(rest == all.skip(i as int + 1));
                    assert(book@ == apply_all(all[i as int]->Snapshot_0@, all.skip(i as int + 1)));
                }
                return Some((book, errors));
            },
            _ => {},
        }
        i = i + 1;
    }
    None
}

impl OrderbookWriteOp {
    /// The op that replaces the book by `orderbook`.
    pub fn init(orderbook: Orderbook) -> (r: OrderbookWriteOp)
        ensures
            r == OrderbookWriteOp::Snapshot(orderbook),
    {
        OrderbookWriteOp::Snapshot(orderbook)
    }

    pub fn create(timestamp: u64, side: Side, id: OfferId, price: Price, amount: Amount) -> (r:
        OrderbookWriteOp)
        ensures
            r == OrderbookWriteOp::Create(CreateOp { timestamp, side, id, price, amount }),
    {
        OrderbookWriteOp::Create(CreateOp::new(timestamp, side, id, price, amount))
    }

    pub fn update(
        timestamp: u64,
        side: Side,
        id: OfferId,
        price: Option<Price>,
        amount: Option<Amount>,
    ) -> (r: OrderbookWriteOp)
        ensures
            r == OrderbookWriteOp::Update(UpdateOp { timestamp, side, id, price, amount }),
    {
        OrderbookWriteOp::Update(UpdateOp::new(timestamp, side, id, price, amount))
    }

    pub fn delete(timestamp: u64, side: Side, id: OfferId) -> (r: OrderbookWriteOp)
        ensures
            r == OrderbookWriteOp::Delete(DeleteOp { timestamp, side, id }),
    {
        OrderbookWriteOp::Delete(DeleteOp::new(timestamp, side, id))
    }
}

impl From<Orderbook> for OrderbookWriteOp {
    fn from(data: Orderbook) -> (r: Self) {
        OrderbookWriteOp::Snapshot(data)
    }
}

impl vstd::std_specs::convert::FromSpecImpl<Orderbook> for OrderbookWriteOp {
    open spec fn obeys_from_spec() -> bool {
        true
    }

    open spec fn from_spec(data: Orderbook) -> OrderbookWriteOp {
        OrderbookWriteOp::Snapshot(data)
    }
}

impl From<CreateOp> for OrderbookWriteOp {
    fn from(op: CreateOp) -> (r: Self) {
        OrderbookWriteOp::Create(op)
    }
}

impl vstd::std_specs::convert::FromSpecImpl<CreateOp> for OrderbookWriteOp {
    open spec fn obeys_from_spec() -> bool {
        true
    }

    open spec fn from_spec(op: CreateOp) -> OrderbookWriteOp {
        OrderbookWriteOp::Create(op)
    }
}

impl From<UpdateOp> for OrderbookWriteOp {
    fn from(op: UpdateOp) -> (r: Self) {
        OrderbookWriteOp::Update(op)
    }
}

impl vstd::std_specs::convert::FromSpecImpl<UpdateOp> for OrderbookWriteOp {
    open spec fn obeys_from_spec() -> bool {
        true
    }

    open spec fn from_spec(op: UpdateOp) -> OrderbookWriteOp {
        OrderbookWriteOp::Update(op)
    }
}

impl From<DeleteOp> for OrderbookWriteOp {
    fn from(op: DeleteOp) -> (r: Self) {
        OrderbookWriteOp::Delete(op)
    }
}

impl vstd::std_specs::convert::FromSpecImpl<DeleteOp> for OrderbookWriteOp {
    open spec fn obeys_from_spec() -> bool {
        true
    }

    open spec fn from_spec(op: DeleteOp) -> OrderbookWriteOp {
        OrderbookWriteOp::Delete(op)
    }
}

impl From<CreateOp> for Offer {
    fn from(op: CreateOp) -> (r: Self) {
        let CreateOp { id, price, amount, .. } = op;
        Offer::new(id, price, amount)
    }
}

impl vstd::std_specs::convert::FromSpecImpl<CreateOp> for Offer {
    open spec fn obeys_from_spec() -> bool {
        true
    }

    open spec fn from_spec(op: CreateOp) -> Offer {
        Offer { id: op.id, price: op.price, amount: op.amount }
    }
}

impl CreateOp {
    pub fn new(timestamp: u64, side: Side, id: OfferId, price: Price, amount: Amount) -> (r:
        CreateOp)
        ensures
            r == (CreateOp { timestamp, side, id, price, amount }),
    {
        CreateOp { timestamp, side, id, price, amount }
    }

    pub fn timestamp(&self) -> (r: u64)
        ensures
            r == self.timestamp,
    {
        self.timestamp
    }

    pub fn side(&self) -> (r: Side)
        ensures
            r == self.side,
    {
        self.side
    }

    pub fn id(&self) -> (r: &OfferId)
        ensures
            *r == self.id,
    {
        &self.id
    }

    pub fn price(&self) -> (r: Price)
        ensures
            r == self.price,
    {
        self.price
    }

    pub fn amount(&self) -> (r: Amount)
        ensures
            r == self.amount,
    {
        self.amount
    }

    /// The op that deletes the offer this op creates.
    pub fn to_delete(&self) -> (r: DeleteOp)
        ensures
            r == (DeleteOp { timestamp: self.timestamp, side: self.side, id: self.id }),
    {
        DeleteOp::new(self.timestamp, self.side, self.id.clone())
    }
}

impl UpdateOp {
    pub fn new(
        timestamp: u64,
        side: Side,
        id: OfferId,
        price: Option<Price>,
        amount: Option<Amount>,
    ) -> (r: UpdateOp)
        ensures
            r == (UpdateOp { timestamp, side, id, price, amount }),
    {
        UpdateOp { timestamp, side, id, price, amount }
    }

    pub fn timestamp(&self) -> (r: u64)
        ensures
            r == self.timestamp,
    {
        self.timestamp
    }

    pub fn side(&self) -> (r: Side)
        ensures
            r == self.side,
    {
        self.side
    }

    pub fn id(&self) -> (r: &OfferId)
        ensures
            *r == self.id,
    {
        &self.id
    }

    pub fn price(&self) -> (r: Option<Price>)
        ensures
            r == self.price,
    {
        self.price
    }

    pub fn amount(&self) -> (r: Option<Amount>)
        ensures
            r == self.amount,
    {
        self.amount
    }

    /// The op that deletes the offer this op updates.
    pub fn to_delete(&self) -> (r: DeleteOp)
        ensures
            r == (DeleteOp { timestamp: self.timestamp, side: self.side, id: self.id }),
    {
        DeleteOp::new(self.timestamp, self.side, self.id.clone())
    }
}

impl DeleteOp {
    pub fn new(timestamp: u64, side: Side, id: OfferId) -> (r: DeleteOp)
        ensures
            r == (DeleteOp { timestamp, side, id }),
    {
        DeleteOp { timestamp, side, id }
    }

    pub fn timestamp(&self) -> (r: u64)
        ensures
            r == self.timestamp,
    {
        self.timestamp
    }

    pub fn side(&self) -> (r: Side)
        ensures
            r == self.side,
    {
        self.side
    }

    pub fn id(&self) -> (r: &OfferId)
        ensures
            *r == self.id,
    {
        &self.id
    }
}

fn patch(offer: Offer, price: Option<Price>, amount: Option<Amount>) -> (r: Offer)
    ensures
        r == patched(offer, price, amount),
{
    let mut offer = offer;
    if let Some(p) = price {
        offer.price = p;
    }
    if let Some(a) = amount {
        offer.amount = a;
    }
    offer
}

} // verus!
