use vstd::prelude::*;

use crate::decimal::{fits, Amount, Decimal, Price};
use crate::order::{OpenOrders, OpenOrdersView, OrderState};
use crate::types::{OrderId, Side};

verus! {

/// Why a write to the open orders was refused; they are then left as they were.
#[derive(Debug, PartialEq, Eq)]
pub enum OpenOrdersWriterError {
    /// A create named an identifier that is already held.
    AlreadyExists(OrderId),
    /// An update, delete or execution named an identifier that is not held.
    OrderNotFound(OrderId),
    /// An execution filled more than the order had left.
    InsufficientAmount,
}

pub type OpenOrdersWriterResult<T> = Result<T, OpenOrdersWriterError>;

/// Adds a new order.
#[derive(Debug, PartialEq, Eq)]
pub struct CreateOp {
    pub timestamp: u64,
    pub order: OrderState,
}

/// Replaces the provided fields of an order.
#[derive(Debug, PartialEq, Eq)]
pub struct UpdateOp {
    pub timestamp: u64,
    pub id: OrderId,
    pub side: Option<Side>,
    pub price: Option<Price>,
    pub amount: Option<Amount>,
}

/// Removes an order.
#[derive(Debug, PartialEq, Eq)]
pub struct DeleteOp {
    pub timestamp: u64,
    pub id: OrderId,
}

/// Fills `amount` of an order.
#[derive(Debug, PartialEq, Eq)]
pub struct ExecutionOp {
    pub timestamp: u64,
    pub id: OrderId,
    pub amount: Amount,
}

/// One write to the open orders.
#[derive(Debug, PartialEq, Eq)]
pub enum OpenOrdersWriteOp {
    Snapshot(OpenOrders),
    Create(CreateOp),
    Update(UpdateOp),
    Delete(DeleteOp),
    Execution(ExecutionOp),
}

// ---------------------------------------------------------------- model

/// Some order of `s` has the identifier `id`.
pub open spec fn has_order(s: Seq<OrderState>, id: Seq<char>) -> bool {
    exists|i: int| 0 <= i < s.len() && s[i].id@ == id
}

/// No two orders of `s` share an identifier.
pub open spec fn unique_order_ids(s: Seq<OrderState>) -> bool {
    forall|i: int, j: int| 0 <= i < j < s.len() ==> s[i].id@ != s[j].id@
}

/// `k` is the first order of `s` with the identifier `id`.
pub open spec fn first_order(s: Seq<OrderState>, id: Seq<char>, k: int) -> bool {
    &&& 0 <= k < s.len()
    &&& s[k].id@ == id
    &&& forall|j: int| 0 <= j < k ==> #[trigger] s[j].id@ != id
}

/// The index of the first order of `s` with the identifier `id`.
pub open spec fn order_index(s: Seq<OrderState>, id: Seq<char>) -> int {
    choose|k: int| first_order(s, id, k)
}

/// `o` with the fields that an update provides replaced.
pub open spec fn patched(
    o: OrderState,
    side: Option<Side>,
    price: Option<Price>,
    amount: Option<Amount>,
) -> OrderState {
    OrderState {
        id: o.id,
        side: match side {
            Some(s) => s,
            None => o.side,
        },
        price: match price {
            Some(p) => p,
            None => o.price,
        },
        amount: match amount {
            Some(a) => a,
            None => o.amount,
        },
    }
}

/// `o` with `filled` taken off its remaining amount.
pub open spec fn filled(o: OrderState, filled: Amount) -> OrderState {
    OrderState { amount: Decimal { units: (o.amount@ - filled@) as i128 }, ..o }
}

/// The open orders after `op`, or `None` where the op is refused.
pub open spec fn apply_spec(v: OpenOrdersView, op: OpenOrdersWriteOp) -> Option<OpenOrdersView> {
    match op {
        OpenOrdersWriteOp::Snapshot(o) => Some(o@),
        OpenOrdersWriteOp::Create(c) => {
            if has_order(v.orders, c.order.id@) {
                None
            } else {
                Some(OpenOrdersView { timestamp: c.timestamp, orders: v.orders.push(c.order) })
            }
        },
        OpenOrdersWriteOp::Update(u) => {
            if !has_order(v.orders, u.id@) {
                None
            } else {
                let k = order_index(v.orders, u.id@);
                Some(
                    OpenOrdersView {
                        timestamp: u.timestamp,
                        orders: v.orders.update(
                            k,
                            patched(v.orders[k], u.side, u.price, u.amount),
                        ),
                    },
                )
            }
        },
        OpenOrdersWriteOp::Delete(d) => {
            if !has_order(v.orders, d.id@) {
                None
            } else {
                Some(
                    OpenOrdersView {
                        timestamp: d.timestamp,
                        orders: v.orders.remove(order_index(v.orders, d.id@)),
                    },
                )
            }
        },
        OpenOrdersWriteOp::Execution(e) => {
            if !has_order(v.orders, e.id@) {
                None
            } else {
                let k = order_index(v.orders, e.id@);
                let o = v.orders[k];
                if o.amount@ < e.amount@ {
                    None
                } else if o.amount@ == e.amount@ {
                    Some(OpenOrdersView { timestamp: e.timestamp, orders: v.orders.remove(k) })
                } else {
                    Some(
                        OpenOrdersView {
                            timestamp: e.timestamp,
                            orders: v.orders.update(k, filled(o, e.amount)),
                        },
                    )
                }
            }
        },
    }
}

/// The error that `apply` reports where `op` is refused.
pub open spec fn error_spec(v: OpenOrdersView, op: OpenOrdersWriteOp) -> OpenOrdersWriterError {
    match op {
        OpenOrdersWriteOp::Create(c) => OpenOrdersWriterError::AlreadyExists(c.order.id),
        OpenOrdersWriteOp::Update(u) => OpenOrdersWriterError::OrderNotFound(u.id),
        OpenOrdersWriteOp::Delete(d) => OpenOrdersWriterError::OrderNotFound(d.id),
        OpenOrdersWriteOp::Execution(e) => {
            if has_order(v.orders, e.id@) {
                OpenOrdersWriterError::InsufficientAmount
            } else {
                OpenOrdersWriterError::OrderNotFound(e.id)
            }
        },
        OpenOrdersWriteOp::Snapshot(_) => arbitrary(),
    }
}

/// An execution's arithmetic stays representable: where it fills no more than the
/// order it names has left, what remains is a representable decimal.
pub open spec fn op_fits(v: OpenOrdersView, op: OpenOrdersWriteOp) -> bool {
    op matches OpenOrdersWriteOp::Execution(e) ==> (has_order(v.orders, e.id@) ==> ({
        let o = v.orders[order_index(v.orders, e.id@)];
        o.amount@ >= e.amount@ ==> fits(o.amount@ - e.amount@)
    }))
}

/// A fill of a non-negative amount always keeps the arithmetic representable.
pub proof fn lemma_nonneg_fill_fits(v: OpenOrdersView, op: OpenOrdersWriteOp)
    requires
        op matches OpenOrdersWriteOp::Execution(e) ==> e.amount@ >= 0,
    ensures
        op_fits(v, op),
{
}

/// The orders after each op of `ops` in turn; a refused op leaves them as they were.
pub open spec fn apply_all(v: OpenOrdersView, ops: Seq<OpenOrdersWriteOp>) -> OpenOrdersView
    decreases ops.len(),
{
    if ops.len() == 0 {
        v
    } else {
        let prev = apply_all(v, ops.drop_last());
        match apply_spec(prev, ops.last()) {
            Some(next) => next,
            None => prev,
        }
    }
}

/// The errors of the ops of `ops` that were refused, in order.
pub open spec fn refusals(v: OpenOrdersView, ops: Seq<OpenOrdersWriteOp>) -> Seq<
    OpenOrdersWriterError,
>
    decreases ops.len(),
{
    if ops.len() == 0 {
        Seq::empty()
    } else {
        let prev = apply_all(v, ops.drop_last());
        let errs = refusals(v, ops.drop_last());
        if apply_spec(prev, ops.last()) is None {
            errs.push(error_spec(prev, ops.last()))
        } else {
            errs
        }
    }
}

/// No execution among `ops` fills a negative amount.
pub open spec fn fills_nonneg(ops: Seq<OpenOrdersWriteOp>) -> bool {
    forall|i: int|
        0 <= i < ops.len() ==> (#[trigger] ops[i] matches OpenOrdersWriteOp::Execution(e)
            ==> e.amount@ >= 0)
}

/// `k` is the first snapshot among `ops`.
pub open spec fn first_snapshot(ops: Seq<OpenOrdersWriteOp>, k: int) -> bool {
    &&& 0 <= k < ops.len()
    &&& ops[k] is Snapshot
    &&& forall|j: int| 0 <= j < k ==> !(#[trigger] ops[j] is Snapshot)
}

proof fn lemma_first_order_unique(s: Seq<OrderState>, id: Seq<char>, k: int)
    requires
        first_order(s, id, k),
    ensures
        order_index(s, id) == k,
{
    let c = order_index(s, id);
    assert(first_order(s, id, c));
    if c < k {
        assert(s[c].id@ != id);
    } else if k < c {
        assert(s[k].id@ != id);
    }
}

/// A create followed by a delete of the same identifier leaves the orders as they
/// were before the create; only the timestamp differs.
pub proof fn lemma_create_then_delete(v: OpenOrdersView, c: CreateOp, d: DeleteOp)
    requires
        d.id@ == c.order.id@,
        apply_spec(v, OpenOrdersWriteOp::Create(c)) is Some,
    ensures
        apply_spec(apply_spec(v, OpenOrdersWriteOp::Create(c))->0, OpenOrdersWriteOp::Delete(d))
            is Some,
        apply_spec(
            apply_spec(v, OpenOrdersWriteOp::Create(c))->0,
            OpenOrdersWriteOp::Delete(d),
        )->0.orders == v.orders,
{
    let s = v.orders.push(c.order);
    let n = v.orders.len() as int;
    assert(s[n].id@ == d.id@);
    assert(first_order(s, d.id@, n)) by {
        assert forall|j: int| 0 <= j < n implies #[trigger] s[j].id@ != d.id@ by {
            assert(s[j] == v.orders[j]);
        }
    }
    lemma_first_order_unique(s, d.id@, n);
    assert(s.remove(n) =~= v.orders);
}

/// An execution of an order held once either takes exactly the filled amount off it,
/// removing it exactly when nothing remains, or, where it fills more than remains,
/// is refused and changes nothing.
pub proof fn lemma_execution(v: OpenOrdersView, e: ExecutionOp)
    requires
        unique_order_ids(v.orders),
        has_order(v.orders, e.id@),
        op_fits(v, OpenOrdersWriteOp::Execution(e)),
    ensures
        ({
            let k = order_index(v.orders, e.id@);
            let o = v.orders[k];
            let r = apply_spec(v, OpenOrdersWriteOp::Execution(e));
            &&& first_order(v.orders, e.id@, k)
            &&& (e.amount@ > o.amount@ <==> r is None)
            &&& r is None ==> error_spec(v, OpenOrdersWriteOp::Execution(e))
                == OpenOrdersWriterError::InsufficientAmount
            &&& r matches Some(w) ==> (has_order(w.orders, e.id@) <==> o.amount@ != e.amount@)
            &&& r matches Some(w) ==> (o.amount@ != e.amount@ ==> w.orders[k].amount@ == o.amount@
                - e.amount@ && w.orders[k].id == o.id)
        }),
{
    lemma_order_index_exists(v.orders, e.id@);
    let k = order_index(v.orders, e.id@);
    let o = v.orders[k];
    let r = apply_spec(v, OpenOrdersWriteOp::Execution(e));
    if o.amount@ == e.amount@ {
        let w = v.orders.remove(k);
        if has_order(w, e.id@) {
            let i = choose|i: int| 0 <= i < w.len() && w[i].id@ == e.id@;
            if i < k {
                assert(w[i] == v.orders[i]);
            } else {
                assert(w[i] == v.orders[i + 1]);
            }
        }
    } else if o.amount@ > e.amount@ {
        let w = v.orders.update(k, filled(o, e.amount));
        assert(w[k].id@ == e.id@);
        assert(has_order(w, e.id@));
    }
}

proof fn lemma_order_index_exists(s: Seq<OrderState>, id: Seq<char>)
    requires
        has_order(s, id),
    ensures
        first_order(s, id, order_index(s, id)),
    decreases s.len(),
{
    let i = choose|i: int| 0 <= i < s.len() && s[i].id@ == id;
    if exists|j: int| 0 <= j < i && s[j].id@ == id {
        let j = choose|j: int| 0 <= j < i && s[j].id@ == id;
        assert(s.take(i)[j].id@ == id);
        lemma_order_index_exists(s.take(i), id);
        let k = order_index(s.take(i), id);
        assert(first_order(s, id, k)) by {
            assert forall|m: int| 0 <= m < k implies #[trigger] s[m].id@ != id by {
                assert(s.take(i)[m] == s[m]);
            }
            assert(s.take(i)[k] == s[k]);
        }
    } else {
        assert(first_order(s, id, i));
    }
}

// ---------------------------------------------------------------- exec

/// The index of the first order with the identifier `id`.
fn find_order(orders: &Vec<OrderState>, id: &OrderId) -> (r: Option<usize>)
    ensures
        r is None <==> !has_order(orders@, id@),
        r matches Some(k) ==> first_order(orders@, id@, k as int) && k as int == order_index(
            orders@,
            id@,
        ),
{
    let mut i: usize = 0;
    while i < orders.len()
        invariant
            i <= orders@.len(),
            forall|j: int| 0 <= j < i ==> #[trigger] orders@[j].id@ != id@,
        decreases orders@.len() - i,
    {
        if orders[i].id == *id {
            proof {
                lemma_first_order_unique(orders@, id@, i as int);
            }
            return Some(i);
        }
        i = i + 1;
    }
    None
}

/// Applies ops to a set of open orders that it borrows for its lifetime.
pub struct OpenOrdersWriter<'a> {
    pub inner: &'a mut OpenOrders,
}

impl<'a> OpenOrdersWriter<'a> {
    pub fn new(inner: &'a mut OpenOrders) -> (r: Self)
        ensures
            *r.inner == *old(inner),
            *final(inner) == *final(r.inner),
    {
        OpenOrdersWriter { inner }
    }

    /// Applies one op. On success the orders become `apply_spec` of it; on refusal
    /// they are left unchanged and the error says why.
    pub fn apply(&mut self, op: OpenOrdersWriteOp) -> (r: OpenOrdersWriterResult<()>)
        requires
            op_fits(old(self).inner@, op),
        ensures
            *final(final(self).inner) == *final(old(self).inner),
            match apply_spec(old(self).inner@, op) {
                Some(v) => r is Ok && final(self).inner@ == v,
                None => r == Err::<(), _>(error_spec(old(self).inner@, op)) && final(self).inner@
                    == old(self).inner@,
            },
    {
        match op {
            OpenOrdersWriteOp::Snapshot(orders) => self.apply_snapshot(orders),
            OpenOrdersWriteOp::Create(op) => self.apply_create(op),
            OpenOrdersWriteOp::Update(op) => self.apply_update(op),
            OpenOrdersWriteOp::Delete(op) => self.apply_delete(op),
            OpenOrdersWriteOp::Execution(op) => self.apply_execution(op),
        }
    }

    /// Replaces the orders wholesale.
    pub fn apply_snapshot(&mut self, orders: OpenOrders) -> (r: OpenOrdersWriterResult<()>)
        ensures
            *final(final(self).inner) == *final(old(self).inner),
            r is Ok,
            final(self).inner@ == orders@,
    {
        *self.inner = orders;
        Ok(())
    }

    /// Appends a new order; refused where its identifier is already held.
    pub fn apply_create(&mut self, op: CreateOp) -> (r: OpenOrdersWriterResult<()>)
        ensures
            *final(final(self).inner) == *final(old(self).inner),
            match apply_spec(old(self).inner@, OpenOrdersWriteOp::Create(op)) {
                Some(v) => r is Ok && final(self).inner@ == v,
                None => r == Err::<(), _>(OpenOrdersWriterError::AlreadyExists(op.order.id))
                    && final(self).inner@ == old(self).inner@,
            },
    {
        let CreateOp { timestamp, order } = op;
        if find_order(&self.inner.orders, &order.id).is_some() {
            return Err(OpenOrdersWriterError::AlreadyExists(order.id));
        }
        self.inner.timestamp = timestamp;
        self.inner.orders.push(order);
        Ok(())
    }

    /// Replaces the provided fields of an order (its side included); refused where
    /// its identifier is not held.
    pub fn apply_update(&mut self, op: UpdateOp) -> (r: OpenOrdersWriterResult<()>)
        ensures
            *final(final(self).inner) == *final(old(self).inner),
            match apply_spec(old(self).inner@, OpenOrdersWriteOp::Update(op)) {
                Some(v) => r is Ok && final(self).inner@ == v,
                None => r == Err::<(), _>(OpenOrdersWriterError::OrderNotFound(op.id))
                    && final(self).inner@ == old(self).inner@,
            },
    {
        let UpdateOp { timestamp, id, side, price, amount } = op;
        match find_order(&self.inner.orders, &id) {
            None => Err(OpenOrdersWriterError::OrderNotFound(id)),
            Some(index) => {
                let o = &self.inner.orders[index];
                let new_side = match side {
                    Some(s) => s,
                    None => o.side,
                };
                let new_price = match price {
                    Some(p) => p,
                    None => o.price,
                };
                let new_amount = match amount {
                    Some(a) => a,
                    None => o.amount,
                };
                let patched = OrderState {
                    id: o.id.clone(),
                    side: new_side,
                    price: new_price,
                    amount: new_amount,
                };
                self.inner.orders.set(index, patched);
                self.inner.timestamp = timestamp;
                Ok(())
            },
        }
    }

    /// Removes an order; refused where its identifier is not held.
    pub fn apply_delete(&mut self, op: DeleteOp) -> (r: OpenOrdersWriterResult<()>)
        ensures
            *final(final(self).inner) == *final(old(self).inner),
            match apply_spec(old(self).inner@, OpenOrdersWriteOp::Delete(op)) {
                Some(v) => r is Ok && final(self).inner@ == v,
                None => r == Err::<(), _>(OpenOrdersWriterError::OrderNotFound(op.id))
                    && final(self).inner@ == old(self).inner@,
            },
    {
        let DeleteOp { timestamp, id } = op;
        match find_order(&self.inner.orders, &id) {
            None => Err(OpenOrdersWriterError::OrderNotFound(id)),
            Some(index) => {
                self.inner.orders.remove(index);
                self.inner.timestamp = timestamp;
                Ok(())
            },
        }
    }

    /// Takes a filled amount off an order, removing it when nothing remains; refused
    /// where its identifier is not held or it fills more than remains.
    pub fn apply_execution(&mut self, op: ExecutionOp) -> (r: OpenOrdersWriterResult<()>)
        requires
            op_fits(old(self).inner@, OpenOrdersWriteOp::Execution(op)),
        ensures
            *final(final(self).inner) == *final(old(self).inner),
            match apply_spec(old(self).inner@, OpenOrdersWriteOp::Execution(op)) {
                Some(v) => r is Ok && final(self).inner@ == v,
                None => r == Err::<(), _>(
                    error_spec(old(self).inner@, OpenOrdersWriteOp::Execution(op)),
                ) && final(self).inner@ == old(self).inner@,
            },
    {
        let ExecutionOp { timestamp, id, amount: executed_amount } = op;
        match find_order(&self.inner.orders, &id) {
            None => Err(OpenOrdersWriterError::OrderNotFound(id)),
            Some(index) => {
                let o = &self.inner.orders[index];
                if o.amount.lt(&executed_amount) {
                    return Err(OpenOrdersWriterError::InsufficientAmount);
                }
                let remaining = o.amount.sub(executed_amount);
                if remaining.is_zero() {
                    self.inner.orders.remove(index);
                } else {
                    let updated = OrderState {
                        id: o.id.clone(),
                        side: o.side,
                        price: o.price,
                        amount: remaining,
                    };
                    self.inner.orders.set(index, updated);
                }
                self.inner.timestamp = timestamp;
                Ok(())
            },
        }
    }
}

/// Applies `ops` to `orders` in order; a refused op is skipped and its error collected.
pub fn apply_batch(orders: &mut OpenOrders, ops: Vec<OpenOrdersWriteOp>) -> (errors: Vec<
    OpenOrdersWriterError,
>)
    requires
        fills_nonneg(ops@),
    ensures
        final(orders)@ == apply_all(old(orders)@, ops@),
        errors@ == refusals(old(orders)@, ops@),
{
    let ghost start = orders@;
    let ghost all = ops@;
    let n = ops.len();
    let mut pending = ops;
    let mut errors: Vec<OpenOrdersWriterError> = Vec::new();
    let mut i: usize = 0;
    while pending.len() > 0
        invariant
            all == ops@,
            fills_nonneg(all),
            all.len() == n,
            i <= all.len(),
            pending@ == all.skip(i as int),
            orders@ == apply_all(start, all.take(i as int)),
            errors@ == refusals(start, all.take(i as int)),
        decreases pending@.len(),
    {
        let op = pending.remove(0);
        proof {
            assert(all.take(i as int + 1).drop_last() =~= all.take(i as int));
            assert(op == all[i as int]);
            assert(all.take(i as int + 1).last() == op);
            assert(pending@ =~= all.skip(i as int + 1));
            lemma_nonneg_fill_fits(orders@, op);
        }
        let mut writer = OpenOrdersWriter::new(orders);
        match writer.apply(op) {
            Ok(()) => {},
            Err(e) => errors.push(e),
        }
        i = i + 1;
    }
    assert(all.take(i as int) =~= all);
    errors
}

/// The open orders that a session starts from: the first snapshot among `ops`, with
/// every op after it applied in order (refused ones skipped and their errors
/// returned), or `None` where `ops` holds no snapshot.
pub fn initial_open_orders(ops: Vec<OpenOrdersWriteOp>) -> (r: Option<
    (OpenOrders, Vec<OpenOrdersWriterError>),
>)
    requires
        fills_nonneg(ops@),
    ensures
        r is None <==> forall|j: int| 0 <= j < ops@.len() ==> !(#[trigger] ops@[j] is Snapshot),
        r matches Some((orders, errors)) ==> exists|k: int|
            first_snapshot(ops@, k) && orders@ == apply_all(
                ops@[k]->Snapshot_0@,
                ops@.skip(k + 1),
            ) && errors@ == refusals(ops@[k]->Snapshot_0@, ops@.skip(k + 1)),
{
    let ghost all = ops@;
    let n = ops.len();
    let mut pending = ops;
    let mut i: usize = 0;
    while pending.len() > 0
        invariant
            all == ops@,
            fills_nonneg(all),
            all.len() == n,
            i <= all.len(),
            pending@ == all.skip(i as int),
            forall|j: int| 0 <= j < i ==> !(#[trigger] all[j] is Snapshot),
        decreases pending@.len(),
    {
        let op = pending.remove(0);
        proof {
            assert(op == all[i as int]);
            assert(pending@ =~= all.skip(i as int + 1));
            assert forall|j: int| 0 <= j < pending@.len() implies (#[trigger] pending@[j] matches OpenOrdersWriteOp::Execution(
                e,
            ) ==> e.amount@ >= 0) by {
                assert(pending@[j] == all[i + 1 + j]);
            }
        }
        match op {
            OpenOrdersWriteOp::Snapshot(mut orders) => {
                let ghost o0 = orders@;
                let ghost rest = pending@;
                let errors = apply_batch(&mut orders, pending);
                proof {
                    assert(first_snapshot(all, i as int));
                    assert(o0 == all[i as int]->Snapshot_0@);
                    assert(rest == all.skip(i as int + 1));
                }
                return Some((orders, errors));
            },
            _ => {},
        }
        i = i + 1;
    }
    None
}

impl OpenOrdersWriteOp {
    /// The op that replaces the orders by `orders`.
    pub fn init(orders: OpenOrders) -> (r: OpenOrdersWriteOp)
        ensures
            r == OpenOrdersWriteOp::Snapshot(orders),
    {
        OpenOrdersWriteOp::Snapshot(orders)
    }

    pub fn create(timestamp: u64, id: OrderId, side: Side, price: Price, amount: Amount) -> (r:
        OpenOrdersWriteOp)
        ensures
            r == OpenOrdersWriteOp::Create(
                CreateOp { timestamp, order: OrderState { id, side, price, amount } },
            ),
    {
        OpenOrdersWriteOp::Create(CreateOp::new(timestamp, id, side, price, amount))
    }

    pub fn update(
        timestamp: u64,
        id: OrderId,
        side: Option<Side>,
        price: Option<Price>,
        amount: Option<Amount>,
    ) -> (r: OpenOrdersWriteOp)
        ensures
            r == OpenOrdersWriteOp::Update(UpdateOp { timestamp, id, side, price, amount }),
    {
        OpenOrdersWriteOp::Update(UpdateOp::new(timestamp, id, side, price, amount))
    }

    pub fn delete(timestamp: u64, id: OrderId) -> (r: OpenOrdersWriteOp)
        ensures
            r == OpenOrdersWriteOp::Delete(DeleteOp { timestamp, id }),
    {
        OpenOrdersWriteOp::Delete(DeleteOp::new(timestamp, id))
    }

    pub fn execution(timestamp: u64, id: OrderId, amount: Amount) -> (r: OpenOrdersWriteOp)
        ensures
            r == OpenOrdersWriteOp::Execution(ExecutionOp { timestamp, id, amount }),
    {
        OpenOrdersWriteOp::Execution(ExecutionOp::new(timestamp, id, amount))
    }
}

impl From<OpenOrders> for OpenOrdersWriteOp {
    fn from(orders: OpenOrders) -> (r: Self) {
        OpenOrdersWriteOp::Snapshot(orders)
    }
}

impl vstd::std_specs::convert::FromSpecImpl<OpenOrders> for OpenOrdersWriteOp {
    open spec fn obeys_from_spec() -> bool {
        true
    }

    open spec fn from_spec(orders: OpenOrders) -> OpenOrdersWriteOp {
        OpenOrdersWriteOp::Snapshot(orders)
    }
}

impl From<CreateOp> for OpenOrdersWriteOp {
    fn from(op: CreateOp) -> (r: Self) {
        OpenOrdersWriteOp::Create(op)
    }
}

impl vstd::std_specs::convert::FromSpecImpl<CreateOp> for OpenOrdersWriteOp {
    open spec fn obeys_from_spec() -> bool {
        true
    }

    open spec fn from_spec(op: CreateOp) -> OpenOrdersWriteOp {
        OpenOrdersWriteOp::Create(op)
    }
}

impl From<UpdateOp> for OpenOrdersWriteOp {
    fn from(op: UpdateOp) -> (r: Self) {
        OpenOrdersWriteOp::Update(op)
    }
}

impl vstd::std_specs::convert::FromSpecImpl<UpdateOp> for OpenOrdersWriteOp {
    open spec fn obeys_from_spec() -> bool {
        true
    }

    open spec fn from_spec(op: UpdateOp) -> OpenOrdersWriteOp {
        OpenOrdersWriteOp::Update(op)
    }
}

impl From<DeleteOp> for OpenOrdersWriteOp {
    fn from(op: DeleteOp) -> (r: Self) {
        OpenOrdersWriteOp::Delete(op)
    }
}

impl vstd::std_specs::convert::FromSpecImpl<DeleteOp> for OpenOrdersWriteOp {
    open spec fn obeys_from_spec() -> bool {
        true
    }

    open spec fn from_spec(op: DeleteOp) -> OpenOrdersWriteOp {
        OpenOrdersWriteOp::Delete(op)
    }
}

impl From<ExecutionOp> for OpenOrdersWriteOp {
    fn from(op: ExecutionOp) -> (r: Self) {
        OpenOrdersWriteOp::Execution(op)
    }
}

impl vstd::std_specs::convert::FromSpecImpl<ExecutionOp> for OpenOrdersWriteOp {
    open spec fn obeys_from_spec() -> bool {
        true
    }

    open spec fn from_spec(op: ExecutionOp) -> OpenOrdersWriteOp {
        OpenOrdersWriteOp::Execution(op)
    }
}

impl CreateOp {
    pub fn new(timestamp: u64, id: OrderId, side: Side, price: Price, amount: Amount) -> (r:
        CreateOp)
        ensures
            r == (CreateOp { timestamp, order: OrderState { id, side, price, amount } }),
    {
        let order = OrderState::new(id, side, price, amount);
        CreateOp { timestamp, order }
    }
}

impl UpdateOp {
    pub fn new(
        timestamp: u64,
        id: OrderId,
        side: Option<Side>,
        price: Option<Price>,
        amount: Option<Amount>,
    ) -> (r: UpdateOp)
        ensures
            r == (UpdateOp { timestamp, id, side, price, amount }),
    {
        UpdateOp { timestamp, id, side, price, amount }
    }
}

impl DeleteOp {
    pub fn new(timestamp: u64, id: OrderId) -> (r: DeleteOp)
        ensures
            r == (DeleteOp { timestamp, id }),
    {
        DeleteOp { timestamp, id }
    }
}

impl ExecutionOp {
    pub fn new(timestamp: u64, id: OrderId, amount: Amount) -> (r: ExecutionOp)
        ensures
            r == (ExecutionOp { timestamp, id, amount }),
    {
        ExecutionOp { timestamp, id, amount }
    }
}

} // verus!
