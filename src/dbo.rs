use vstd::prelude::*;

use crate::decimal::{Amount, Decimal, Price};
use crate::observation::Observation;
use crate::order::{abs_total, CancelOrder, NewOrder, OpenOrders, Order, OrderState};
use crate::types::{Offer, OrderType, Side};

verus! {

/// The magnitude, in units, within which the policy's quantities and prices must lie
/// so that its sums stay representable.
pub const QUANTITY_LIMIT: i128 = 1329227995784915872903807060280344576;

/// `v` lies within the policy's range.
pub open spec fn within(v: int) -> bool {
    -QUANTITY_LIMIT <= v <= QUANTITY_LIMIT
}

// ---------------------------------------------------------------- model

/// For each price that our own orders rest at, the sum of their amounts there.
pub open spec fn seed_counters(own: Seq<OrderState>) -> Map<int, int>
    decreases own.len(),
{
    if own.len() == 0 {
        Map::empty()
    } else {
        let m = seed_counters(own.drop_last());
        let o = own.last();
        let before = if m.contains_key(o.price@) {
            m[o.price@]
        } else {
            0
        };
        m.insert(o.price@, before + o.amount@)
    }
}

/// The walk over the first `n` offers of a side: what is left of our own amount at
/// each price, and the depth summed so far. Each offer counts for the part of its
/// amount that exceeds what is left of our own amount at its price, and uses up that
/// much of our own amount.
pub open spec fn walk(offers: Seq<Offer>, n: int, seed: Map<int, int>) -> (Map<int, int>, int)
    decreases n,
{
    if n <= 0 {
        (seed, 0)
    } else {
        let (m, sum) = walk(offers, n - 1, seed);
        let p = offers[n - 1].price@;
        let a = offers[n - 1].amount@;
        if m.contains_key(p) {
            if a > m[p] {
                (m.insert(p, 0), sum + (a - m[p]))
            } else {
                (m.insert(p, m[p] - a), sum)
            }
        } else {
            (m, sum + a)
        }
    }
}

/// The price of the first offer from index `i` on at which the summed depth reaches
/// `depth`, if any.
pub open spec fn depth_price_from(offers: Seq<Offer>, depth: int, seed: Map<int, int>, i: int) -> Option<
    int,
>
    decreases offers.len() - i,
{
    if i < 0 || i >= offers.len() {
        None
    } else if walk(offers, i + 1, seed).1 >= depth {
        Some(offers[i].price@)
    } else {
        depth_price_from(offers, depth, seed, i + 1)
    }
}

/// The price at which a side reaches `depth`, not counting our own orders.
pub open spec fn price_at_depth(offers: Seq<Offer>, depth: int, own: Seq<OrderState>) -> Option<
    int,
> {
    depth_price_from(offers, depth, seed_counters(own), 0)
}

/// Reconciling the first `n` own orders with a target: the cancels so far, and the
/// size still to place. An order on `side` is kept where it rests at `price` and fits
/// in what is still to place; every other order on `side` is cancelled.
pub open spec fn reconcile(own: Seq<OrderState>, n: int, side: Side, price: int, target: int) -> (
    Seq<Order>,
    int,
)
    decreases n,
{
    if n <= 0 {
        (Seq::empty(), target)
    } else {
        let (acts, rem) = reconcile(own, n - 1, side, price, target);
        let o = own[n - 1];
        if o.side != side {
            (acts, rem)
        } else if o.price@ == price && o.amount@ <= rem {
            (acts, rem - o.amount@)
        } else {
            (acts.push(Order::Cancel(CancelOrder { id: o.id })), rem)
        }
    }
}

/// The actions on one side: its cancels in order, then one new limit order for what
/// is still to place, where that is at least `min_size`.
pub open spec fn side_actions(
    own: Seq<OrderState>,
    side: Side,
    price: int,
    target: int,
    min_size: int,
) -> Seq<Order> {
    let (cancels, rem) = reconcile(own, own.len() as int, side, price, target);
    if rem >= min_size {
        cancels.push(
            Order::New(
                NewOrder {
                    order_type: OrderType::Limit,
                    order_side: side,
                    price: Decimal { units: price as i128 },
                    amount: Decimal { units: rem as i128 },
                },
            ),
        )
    } else {
        cancels
    }
}

/// A policy that quotes one tick inside the price at which each side reaches a target
/// depth, sized to keep the position within an exposure band.
#[derive(Copy, Clone, Debug, PartialEq, Eq, Structural)]
pub struct DepthBasedOffering {
    pub max_exposure: Amount,
    pub target_depth: Amount,
}

impl DepthBasedOffering {
    /// The target ask price: one tick under the price at depth, or the highest order
    /// price where the asks never reach the depth.
    pub open spec fn ask_price(self, obs: Observation) -> int {
        match price_at_depth(obs.orderbook.asks@, self.target_depth@, obs.open_orders.orders@) {
            Some(p) => p - obs.info.tick_size@,
            None => obs.info.max_order_price@,
        }
    }

    /// The target bid price: one tick over the price at depth, or the lowest order
    /// price where the bids never reach the depth.
    pub open spec fn bid_price(self, obs: Observation) -> int {
        match price_at_depth(obs.orderbook.bids@, self.target_depth@, obs.open_orders.orders@) {
            Some(p) => p + obs.info.tick_size@,
            None => obs.info.min_order_price@,
        }
    }

    /// What the policy asks for: nothing while orders are in flight; otherwise the ask
    /// actions for a size of exposure plus position, then the bid actions for a size
    /// of exposure minus position.
    pub open spec fn evaluate_spec(self, obs: Observation) -> Seq<Order> {
        if obs.pending_orders@.len() > 0 {
            Seq::empty()
        } else {
            let own = obs.open_orders.orders@;
            let pos = obs.inventory.spec_position()@;
            side_actions(
                own,
                Side::Ask,
                self.ask_price(obs),
                self.max_exposure@ + pos,
                obs.info.min_order_size@,
            ) + side_actions(
                own,
                Side::Bid,
                self.bid_price(obs),
                self.max_exposure@ - pos,
                obs.info.min_order_size@,
            )
        }
    }

    /// The observations on which the policy's arithmetic stays representable: prices,
    /// the tick, the parameters and the position lie within range, public amounts are
    /// non-negative and within range, and our own amounts sum, in magnitude, within range.
    pub open spec fn admits(self, obs: Observation) -> bool {
        &&& within(self.max_exposure@)
        &&& within(self.target_depth@)
        &&& within(obs.inventory.spec_position()@)
        &&& within(obs.info.tick_size@)
        &&& offers_admitted(obs.orderbook.asks@)
        &&& offers_admitted(obs.orderbook.bids@)
        &&& abs_total(obs.open_orders.orders@) <= QUANTITY_LIMIT
    }

    pub fn new(max_exposure: Amount, target_depth: Amount) -> (r: DepthBasedOffering)
        ensures
            r == (DepthBasedOffering { max_exposure, target_depth }),
    {
        DepthBasedOffering { max_exposure, target_depth }
    }

    pub fn max_exposure(&self) -> (r: Amount)
        ensures
            r == self.max_exposure,
    {
        self.max_exposure
    }

    pub fn target_depth(&self) -> (r: Amount)
        ensures
            r == self.target_depth,
    {
        self.target_depth
    }

    /// Whether the policy's arithmetic stays representable on `observation`.
    pub fn admits_observation(&self, observation: &Observation) -> (r: bool)
        ensures
            r == self.admits(*observation),
    {
        within_range(self.max_exposure) && within_range(self.target_depth) && within_range(
            observation.inventory.position(),
        ) && within_range(observation.info.tick_size) && offers_in_range(
            &observation.orderbook.asks,
        ) && offers_in_range(&observation.orderbook.bids) && own_total_in_range(
            &observation.open_orders.orders,
        )
    }

    /// The orders that bring our quotes to the target prices and sizes.
    pub fn evaluate(&self, observation: &Observation) -> (r: Vec<Order>)
        requires
            self.admits(*observation),
        ensures
            r@ == self.evaluate_spec(*observation),
    {
        let mut orders: Vec<Order> = Vec::new();
        if observation.pending_orders.len() > 0 {
            assert(orders@ =~= Seq::<Order>::empty());
            return orders;
        }
        let info = &observation.info;
        let own = &observation.open_orders;

        let ask_price = match find_price_at_depth(&observation.orderbook.asks, self.target_depth, own) {
            Some(p) => p.sub(info.tick_size),
            None => info.max_order_price,
        };
        let bid_price = match find_price_at_depth(&observation.orderbook.bids, self.target_depth, own) {
            Some(p) => p.add(info.tick_size),
            None => info.min_order_price,
        };

        let position = observation.inventory.position();
        let ask_size = self.max_exposure.add(position);
        let bid_size = self.max_exposure.sub(position);

        reconcile_side(&mut orders, &own.orders, Side::Ask, ask_price, ask_size, info.min_order_size);
        reconcile_side(&mut orders, &own.orders, Side::Bid, bid_price, bid_size, info.min_order_size);
        assert(orders@ =~= self.evaluate_spec(*observation));
        orders
    }
}

/// Every offer has a price within range and a non-negative amount within range.
pub open spec fn offers_admitted(s: Seq<Offer>) -> bool {
    forall|i: int|
        0 <= i < s.len() ==> within(#[trigger] s[i].price@) && 0 <= s[i].amount@
            <= QUANTITY_LIMIT
}

// ---------------------------------------------------------------- own amount per price

/// The map from price to amount that a list of pairs holds.
spec fn pairs_map(s: Seq<(Price, Amount)>) -> Map<int, int>
    decreases s.len(),
{
    if s.len() == 0 {
        Map::empty()
    } else {
        pairs_map(s.drop_last()).insert(s.last().0@, s.last().1@)
    }
}

spec fn keys_unique(s: Seq<(Price, Amount)>) -> bool {
    forall|i: int, j: int| 0 <= i < j < s.len() ==> s[i].0@ != s[j].0@
}

proof fn lemma_pairs_map_has(s: Seq<(Price, Amount)>, p: int)
    ensures
        pairs_map(s).contains_key(p) <==> exists|i: int| 0 <= i < s.len() && s[i].0@ == p,
    decreases s.len(),
{
    if s.len() > 0 {
        lemma_pairs_map_has(s.drop_last(), p);
        if exists|i: int| 0 <= i < s.len() - 1 && s.drop_last()[i].0@ == p {
            let i = choose|i: int| 0 <= i < s.len() - 1 && s.drop_last()[i].0@ == p;
            assert(s[i].0@ == p);
        }
        if exists|i: int| 0 <= i < s.len() && s[i].0@ == p {
            let i = choose|i: int| 0 <= i < s.len() && s[i].0@ == p;
            if i < s.len() - 1 {
                assert(s.drop_last()[i].0@ == p);
            }
        }
    }
}

proof fn lemma_pairs_map_get(s: Seq<(Price, Amount)>, i: int)
    requires
        keys_unique(s),
        0 <= i < s.len(),
    ensures
        pairs_map(s).contains_key(s[i].0@),
        pairs_map(s)[s[i].0@] == s[i].1@,
    decreases s.len(),
{
    if i < s.len() - 1 {
        lemma_pairs_map_get(s.drop_last(), i);
        assert(s.drop_last()[i] == s[i]);
    }
}

proof fn lemma_pairs_map_set(s: Seq<(Price, Amount)>, i: int, v: Amount)
    requires
        keys_unique(s),
        0 <= i < s.len(),
    ensures
        pairs_map(s.update(i, (s[i].0, v))) == pairs_map(s).insert(s[i].0@, v@),
    decreases s.len(),
{
    let t = s.update(i, (s[i].0, v));
    if i == s.len() - 1 {
        assert(t.drop_last() =~= s.drop_last());
        assert(pairs_map(t) =~= pairs_map(s).insert(s[i].0@, v@));
    } else {
        assert(t.drop_last() =~= s.drop_last().update(i, (s[i].0, v)));
        lemma_pairs_map_set(s.drop_last(), i, v);
        assert(s.drop_last()[i] == s[i]);
        assert(pairs_map(t) =~= pairs_map(s).insert(s[i].0@, v@));
    }
}

/// What is left of our own amount at each price while walking a side.
struct RemainingOrders {
    amounts: Vec<(Price, Amount)>,
}

impl RemainingOrders {
    spec fn view(&self) -> Map<int, int> {
        pairs_map(self.amounts@)
    }

    spec fn inv(&self, bound: int) -> bool {
        &&& keys_unique(self.amounts@)
        &&& forall|j: int|
            0 <= j < self.amounts@.len() ==> -bound <= #[trigger] self.amounts@[j].1@ <= bound
    }

    fn index_of(&self, price: Price) -> (r: Option<usize>)
        ensures
            r matches Some(j) ==> j < self.amounts@.len() && self.amounts@[j as int].0@ == price@,
            r is None ==> forall|j: int|
                0 <= j < self.amounts@.len() ==> #[trigger] self.amounts@[j].0@ != price@,
    {
        let mut i: usize = 0;
        while i < self.amounts.len()
            invariant
                i <= self.amounts@.len(),
                forall|j: int| 0 <= j < i ==> #[trigger] self.amounts@[j].0@ != price@,
            decreases self.amounts@.len() - i,
        {
            if self.amounts[i].0.eq(&price) {
                return Some(i);
            }
            i = i + 1;
        }
        None
    }

    /// Sums our own amounts by price.
    fn new(open_orders: &OpenOrders) -> (r: RemainingOrders)
        requires
            abs_total(open_orders.orders@) <= QUANTITY_LIMIT,
        ensures
            r.view() == seed_counters(open_orders.orders@),
            r.inv(QUANTITY_LIMIT as int),
    {
        let orders = &open_orders.orders;
        let mut r = RemainingOrders { amounts: Vec::new() };
        let mut i: usize = 0;
        while i < orders.len()
            invariant
                i <= orders@.len(),
                abs_total(orders@) <= QUANTITY_LIMIT,
                r.view() == seed_counters(orders@.take(i as int)),
                r.inv(abs_total(orders@.take(i as int))),
            decreases orders@.len() - i,
        {
            let o = &orders[i];
            let ghost prefix = orders@.take(i as int);
            let ghost next = orders@.take(i as int + 1);
            proof {
                assert(next.drop_last() =~= prefix);
                assert(next.last() == *o);
                crate::order::lemma_abs_total_prefix(orders@, i as int + 1);
            }
            let ghost before = r.amounts@;
            match r.index_of(o.price) {
                Some(j) => {
                    proof {
                        lemma_pairs_map_get(before, j as int);
                    }
                    let (p, a) = r.amounts[j];
                    let sum = a.add(o.amount);
                    r.amounts.set(j, (p, sum));
                    proof {
                        lemma_pairs_map_set(before, j as int, sum);
                        assert(r.amounts@ == before.update(j as int, (before[j as int].0, sum)));
                        assert(r.view() =~= seed_counters(next));
                        assert(r.inv(abs_total(next))) by {
                            assert forall|x: int, y: int|
                                0 <= x < y < r.amounts@.len() implies r.amounts@[x].0@
                                != r.amounts@[y].0@ by {
                                assert(r.amounts@[x].0 == before[x].0);
                                assert(r.amounts@[y].0 == before[y].0);
                            }
                        }
                    }
                },
                None => {
                    proof {
                        lemma_pairs_map_has(before, o.price@);
                    }
                    r.amounts.push((o.price, o.amount));
                    proof {
                        assert(r.amounts@.drop_last() =~= before);
                        assert(r.view() =~= seed_counters(next));
                        crate::order::lemma_abs_total_nonneg(prefix);
                        assert(abs_total(next) == abs_total(prefix) + if o.amount@ >= 0 {
                            o.amount@
                        } else {
                            -o.amount@
                        });
                        assert(r.inv(abs_total(next))) by {
                            assert forall|x: int, y: int|
                                0 <= x < y < r.amounts@.len() implies r.amounts@[x].0@
                                != r.amounts@[y].0@ by {
                                if y == before.len() {
                                    assert(r.amounts@[x] == before[x]);
                                } else {
                                    assert(r.amounts@[x] == before[x]);
                                    assert(r.amounts@[y] == before[y]);
                                }
                            }
                            assert forall|x: int| 0 <= x < r.amounts@.len() implies -abs_total(
                                next,
                            ) <= #[trigger] r.amounts@[x].1@ <= abs_total(next) by {
                                if x < before.len() {
                                    assert(r.amounts@[x] == before[x]);
                                }
                            }
                        }
                    }
                },
            }
            i = i + 1;
        }
        assert(orders@.take(i as int) =~= orders@);
        r
    }
}

impl RemainingOrders {
    /// The part of `offer`'s amount that our own orders at its price account for; that
    /// much of what is left at the price is used up.
    fn extract(&mut self, offer: &Offer) -> (r: Amount)
        requires
            old(self).inv(QUANTITY_LIMIT as int),
            0 <= offer.amount@ <= QUANTITY_LIMIT,
        ensures
            final(self).inv(QUANTITY_LIMIT as int),
            -QUANTITY_LIMIT <= r@ <= QUANTITY_LIMIT,
            0 <= offer.amount@ - r@,
            ({
                let m = old(self).view();
                let p = offer.price@;
                let a = offer.amount@;
                if m.contains_key(p) {
                    if a > m[p] {
                        r@ == m[p] && final(self).view() == m.insert(p, 0)
                    } else {
                        r@ == a && final(self).view() == m.insert(p, m[p] - a)
                    }
                } else {
                    r@ == 0 && final(self).view() == m
                }
            }),
    {
        let ghost before = self.amounts@;
        match self.index_of(offer.price) {
            Some(j) => {
                proof {
                    lemma_pairs_map_get(before, j as int);
                }
                let (p, left) = self.amounts[j];
                if offer.amount.gt(&left) {
                    let zero = Amount::zero();
                    self.amounts.set(j, (p, zero));
                    proof {
                        lemma_pairs_map_set(before, j as int, zero);
                        assert(self.amounts@ == before.update(j as int, (before[j as int].0, zero)));
                        assert(-QUANTITY_LIMIT <= before[j as int].1@ <= QUANTITY_LIMIT);
                    }
                    left
                } else {
                    let rest = left.sub(offer.amount);
                    self.amounts.set(j, (p, rest));
                    proof {
                        lemma_pairs_map_set(before, j as int, rest);
                        assert(self.amounts@ == before.update(j as int, (before[j as int].0, rest)));
                    }
                    offer.amount
                }
            },
            None => {
                proof {
                    lemma_pairs_map_has(before, offer.price@);
                }
                Amount::zero()
            },
        }
    }
}

/// The price at which `offers` reach `depth`, not counting our own open orders.
fn find_price_at_depth(offers: &Vec<Offer>, depth: Amount, open_orders: &OpenOrders) -> (r: Option<
    Price,
>)
    requires
        offers_admitted(offers@),
        within(depth@),
        abs_total(open_orders.orders@) <= QUANTITY_LIMIT,
    ensures
        match r {
            Some(p) => price_at_depth(offers@, depth@, open_orders.orders@) == Some(p@) && within(
                p@,
            ),
            None => price_at_depth(offers@, depth@, open_orders.orders@) is None,
        },
{
    let ghost seed = seed_counters(open_orders.orders@);
    let mut remaining = RemainingOrders::new(open_orders);
    let mut sum = Amount::zero();
    let mut i: usize = 0;
    while i < offers.len()
        invariant
            i <= offers@.len(),
            offers_admitted(offers@),
            within(depth@),
            seed == seed_counters(open_orders.orders@),
            remaining.inv(QUANTITY_LIMIT as int),
            remaining.view() == walk(offers@, i as int, seed).0,
            sum@ == walk(offers@, i as int, seed).1,
            0 <= sum@,
            i > 0 ==> sum@ < depth@,
            depth_price_from(offers@, depth@, seed, 0) == depth_price_from(
                offers@,
                depth@,
                seed,
                i as int,
            ),
        decreases offers@.len() - i,
    {
        let offer = &offers[i];
        proof {
            assert(within(offer.price@) && 0 <= offer.amount@ <= QUANTITY_LIMIT);
        }
        let ghost prev_sum = sum@;
        let taken = remaining.extract(offer);
        let amount = offer.amount.sub(taken);
        sum = sum.add(amount);
        proof {
            let (m, s0) = walk(offers@, i as int, seed);
            assert(s0 == prev_sum);
            assert(remaining.view() == walk(offers@, i as int + 1, seed).0);
            assert(sum@ == walk(offers@, i as int + 1, seed).1);
            if sum@ >= depth@ {
                assert(depth_price_from(offers@, depth@, seed, i as int) == Some(offer.price@));
            } else {
                assert(depth_price_from(offers@, depth@, seed, i as int) == depth_price_from(
                    offers@,
                    depth@,
                    seed,
                    i as int + 1,
                ));
            }
        }
        if sum.ge(&depth) {
            assert(depth_price_from(offers@, depth@, seed, 0) == Some(offer.price@));
            assert(price_at_depth(offers@, depth@, open_orders.orders@) == Some(offer.price@));
            assert(within(offer.price@));
            return Some(offer.price);
        }
        i = i + 1;
    }
    None
}

/// Appends the actions for one side: a cancel for each own order on `side` that is
/// not kept, then a new limit order for what is still to place, if that is at least
/// `min_size`.
fn reconcile_side(
    orders: &mut Vec<Order>,
    own: &Vec<OrderState>,
    side: Side,
    price: Price,
    target: Amount,
    min_size: Amount,
)
    requires
        abs_total(own@) <= QUANTITY_LIMIT,
        -2 * QUANTITY_LIMIT <= target@ <= 2 * QUANTITY_LIMIT,
    ensures
        final(orders)@ == old(orders)@ + side_actions(own@, side, price@, target@, min_size@),
{
    let ghost start = orders@;
    let mut remaining = target;
    let mut i: usize = 0;
    while i < own.len()
        invariant
            i <= own@.len(),
            abs_total(own@) <= QUANTITY_LIMIT,
            orders@ == start + reconcile(own@, i as int, side, price@, target@).0,
            remaining@ == reconcile(own@, i as int, side, price@, target@).1,
            -2 * QUANTITY_LIMIT <= remaining@ <= 2 * QUANTITY_LIMIT + abs_total(own@.take(i as int)),
        decreases own@.len() - i,
    {
        let o = &own[i];
        proof {
            assert(own@.take(i as int + 1).drop_last() =~= own@.take(i as int));
            crate::order::lemma_abs_total_prefix(own@, i as int + 1);
        }
        if o.side == side {
            if o.price.eq(&price) && o.amount.le(&remaining) {
                remaining = remaining.sub(o.amount);
            } else {
                let ghost prev = orders@;
                orders.push(Order::Cancel(CancelOrder { id: o.id.clone() }));
                proof {
                    let acts = reconcile(own@, i as int, side, price@, target@).0;
                    assert(prev == start + acts);
                    assert(orders@ =~= start + acts.push(Order::Cancel(CancelOrder { id: o.id })));
                }
            }
        }
        i = i + 1;
    }
    assert(own@.take(i as int) =~= own@);
    if remaining.ge(&min_size) {
        let ghost prev = orders@;
        orders.push(Order::New(NewOrder::new(OrderType::Limit, side, price, remaining)));
        proof {
            let acts = reconcile(own@, own@.len() as int, side, price@, target@).0;
            assert(orders@ =~= start + side_actions(own@, side, price@, target@, min_size@));
        }
    } else {
        assert(orders@ =~= start + side_actions(own@, side, price@, target@, min_size@));
    }
}

fn within_range(d: Decimal) -> (r: bool)
    ensures
        r == within(d@),
{
    -QUANTITY_LIMIT <= d.units && d.units <= QUANTITY_LIMIT
}

fn offers_in_range(offers: &Vec<Offer>) -> (r: bool)
    ensures
        r == offers_admitted(offers@),
{
    let mut i: usize = 0;
    while i < offers.len()
        invariant
            i <= offers@.len(),
            forall|j: int|
                0 <= j < i ==> within((#[trigger] offers@[j]).price@) && 0 <= offers@[j].amount@
                    <= QUANTITY_LIMIT,
        decreases offers@.len() - i,
    {
        let o = &offers[i];
        if !(within_range(o.price) && 0 <= o.amount.units && o.amount.units <= QUANTITY_LIMIT) {
            return false;
        }
        assert(within(offers@[i as int].price@) && 0 <= offers@[i as int].amount@ <= QUANTITY_LIMIT);
        i = i + 1;
    }
    assert forall|j: int| 0 <= j < offers@.len() implies within(#[trigger] offers@[j].price@) && 0
        <= offers@[j].amount@ <= QUANTITY_LIMIT by {
        assert(within(offers@[j].price@));
    }
    true
}

fn own_total_in_range(orders: &Vec<OrderState>) -> (r: bool)
    ensures
        r == (abs_total(orders@) <= QUANTITY_LIMIT),
{
    let mut total: i128 = 0;
    let mut i: usize = 0;
    while i < orders.len()
        invariant
            i <= orders@.len(),
            total == abs_total(orders@.take(i as int)),
            0 <= total <= QUANTITY_LIMIT,
        decreases orders@.len() - i,
    {
        let a = orders[i].amount.units;
        proof {
            assert(orders@.take(i as int + 1).drop_last() =~= orders@.take(i as int));
            crate::order::lemma_abs_total_prefix(orders@, i as int + 1);
        }
        if a > QUANTITY_LIMIT || a < -QUANTITY_LIMIT {
            return false;
        }
        let magnitude: i128 = if a >= 0 {
            a
        } else {
            -a
        };
        total = total + magnitude;
        if total > QUANTITY_LIMIT {
            return false;
        }
        i = i + 1;
    }
    assert(orders@.take(i as int) =~= orders@);
    true
}

} // verus!
