use vstd::prelude::*;

use crate::order::Order;

verus! {

/// How long an order stays pending without a reply from the broker.
pub const EXPIRES_MS: u64 = 20_000;

/// How often expired pending orders are collected.
pub const GC_TICK_MS: u64 = 1_000;

/// Identity of a submission; each submission gets the next one.
#[derive(Copy, Clone, Debug, Default, PartialEq, Eq, Structural, PartialOrd, Ord, Hash)]
pub struct PendingId(pub u64);

impl From<u64> for PendingId {
    fn from(id: u64) -> (r: Self) {
        PendingId(id)
    }
}

impl vstd::std_specs::convert::FromSpecImpl<u64> for PendingId {
    open spec fn obeys_from_spec() -> bool {
        true
    }

    open spec fn from_spec(id: u64) -> PendingId {
        PendingId(id)
    }
}

impl From<PendingId> for u64 {
    fn from(id: PendingId) -> (r: Self) {
        id.0
    }
}

impl vstd::std_specs::convert::FromSpecImpl<PendingId> for u64 {
    open spec fn obeys_from_spec() -> bool {
        true
    }

    open spec fn from_spec(id: PendingId) -> u64 {
        id.0
    }
}

/// An order handed to the broker whose reply has not come yet.
#[derive(Debug, PartialEq, Eq)]
pub struct PendingOrder {
    pub timestamp: u64,
    pub id: PendingId,
    pub order: Order,
}

impl Clone for PendingOrder {
    fn clone(&self) -> (r: Self)
        ensures
            r == *self,
    {
        PendingOrder { timestamp: self.timestamp, id: self.id, order: self.order.clone() }
    }
}

impl PendingOrder {
    pub fn new(timestamp: u64, id: PendingId, order: Order) -> (r: PendingOrder)
        ensures
            r == (PendingOrder { timestamp, id, order }),
    {
        PendingOrder { timestamp, id, order }
    }

    pub fn timestamp(&self) -> (r: u64)
        ensures
            r == self.timestamp,
    {
        self.timestamp
    }

    pub fn id(&self) -> (r: PendingId)
        ensures
            r == self.id,
    {
        self.id
    }

    pub fn inner(&self) -> (r: &Order)
        ensures
            *r == self.order,
    {
        &self.order
    }

    pub fn into_inner(self) -> (r: Order)
        ensures
            r == self.order,
    {
        self.order
    }
}

/// A pending order is still live at `now`: it was submitted less than `EXPIRES_MS`
/// before.
pub open spec fn is_live(po: PendingOrder, now: u64) -> bool {
    po.timestamp + EXPIRES_MS > now
}

/// The ids of `s` strictly increase and all lie under `nonce`.
pub open spec fn ids_ordered_under(s: Seq<PendingOrder>, nonce: u64) -> bool {
    &&& forall|i: int, j: int| 0 <= i < j < s.len() ==> s[i].id.0 < s[j].id.0
    &&& forall|i: int| 0 <= i < s.len() ==> #[trigger] s[i].id.0 < nonce
}

/// The book of in-flight submissions: the next id to hand out and the pending orders
/// in order of submission.
#[derive(Debug)]
pub struct PendingOrders {
    pub nonce: u64,
    pub pendings: Vec<PendingOrder>,
}

impl PendingOrders {
    /// Ids increase along the list and lie under the next id to hand out.
    pub open spec fn wf(&self) -> bool {
        ids_ordered_under(self.pendings@, self.nonce)
    }

    pub fn new() -> (r: PendingOrders)
        ensures
            r.wf(),
            r.nonce == 0,
            r.pendings@.len() == 0,
    {
        PendingOrders { nonce: 0, pendings: Vec::new() }
    }

    /// Records a submission made at `timestamp` under the next id, which it returns.
    /// The ids must not be exhausted.
    pub fn submit(&mut self, timestamp: u64, order: Order) -> (r: PendingId)
        requires
            old(self).wf(),
            old(self).nonce < u64::MAX,
        ensures
            final(self).wf(),
            r == PendingId(old(self).nonce),
            final(self).nonce == old(self).nonce + 1,
            final(self).pendings@ == old(self).pendings@.push(
                PendingOrder { timestamp, id: r, order },
            ),
    {
        let id = PendingId(self.nonce);
        self.pendings.push(PendingOrder { timestamp, id, order });
        self.nonce = self.nonce + 1;
        id
    }

    /// Forgets the submission `id` once the broker has replied; forgetting an id that
    /// is not pending changes nothing.
    pub fn complete(&mut self, id: PendingId)
        requires
            old(self).wf(),
        ensures
            final(self).wf(),
            final(self).nonce == old(self).nonce,
            final(self).pendings@ == old(self).pendings@.filter(|po: PendingOrder| po.id != id),
    {
        let ghost pred = |po: PendingOrder| po.id != id;
        let mut kept: Vec<PendingOrder> = Vec::new();
        let mut i: usize = 0;
        while i < self.pendings.len()
            invariant
                i <= self.pendings@.len(),
                kept@ == self.pendings@.take(i as int).filter(pred),
                pred == (|po: PendingOrder| po.id != id),
            decreases self.pendings@.len() - i,
        {
            let po = &self.pendings[i];
            proof {
                assert(self.pendings@.take(i as int + 1) =~= self.pendings@.take(i as int).push(*po));
                self.pendings@.take(i as int).lemma_filter_push(*po, pred);
            }
            if po.id != id {
                kept.push(po.clone());
            }
            i = i + 1;
        }
        assert(self.pendings@.take(i as int) =~= self.pendings@);
        proof {
            lemma_filter_keeps_order(self.pendings@, self.nonce, pred);
        }
        self.pendings = kept;
    }

    /// Forgets every submission that is no longer live at `now`.
    pub fn collect_expired(&mut self, now: u64)
        requires
            old(self).wf(),
        ensures
            final(self).wf(),
            final(self).nonce == old(self).nonce,
            final(self).pendings@ == old(self).pendings@.filter(
                |po: PendingOrder| is_live(po, now),
            ),
    {
        let ghost pred = |po: PendingOrder| is_live(po, now);
        let mut kept: Vec<PendingOrder> = Vec::new();
        let mut i: usize = 0;
        while i < self.pendings.len()
            invariant
                i <= self.pendings@.len(),
                kept@ == self.pendings@.take(i as int).filter(pred),
                pred == (|po: PendingOrder| is_live(po, now)),
            decreases self.pendings@.len() - i,
        {
            let po = &self.pendings[i];
            proof {
                assert(self.pendings@.take(i as int + 1) =~= self.pendings@.take(i as int).push(*po));
                self.pendings@.take(i as int).lemma_filter_push(*po, pred);
            }
            let live = now < EXPIRES_MS || po.timestamp > now - EXPIRES_MS;
            if live {
                kept.push(po.clone());
            }
            i = i + 1;
        }
        assert(self.pendings@.take(i as int) =~= self.pendings@);
        proof {
            lemma_filter_keeps_order(self.pendings@, self.nonce, pred);
        }
        self.pendings = kept;
    }

    /// A copy of the pending orders, in order of submission.
    pub fn get_pending_orders(&self) -> (r: Vec<PendingOrder>)
        ensures
            r@ == self.pendings@,
    {
        let r = self.pendings.clone();
        assert(r@ =~= self.pendings@);
        r
    }

    /// The orders in flight, in order of submission.
    pub fn orders(&self) -> (r: Vec<Order>)
        ensures
            r@ == self.pendings@.map_values(|po: PendingOrder| po.order),
    {
        let mut r: Vec<Order> = Vec::new();
        let mut i: usize = 0;
        while i < self.pendings.len()
            invariant
                i <= self.pendings@.len(),
                r@ == self.pendings@.take(i as int).map_values(|po: PendingOrder| po.order),
            decreases self.pendings@.len() - i,
        {
            r.push(self.pendings[i].order.clone());
            i = i + 1;
            assert(r@ =~= self.pendings@.take(i as int).map_values(|po: PendingOrder| po.order));
        }
        assert(self.pendings@.take(i as int) =~= self.pendings@);
        r
    }
}

proof fn lemma_filter_keeps_order(s: Seq<PendingOrder>, nonce: u64, pred: spec_fn(PendingOrder) -> bool)
    requires
        ids_ordered_under(s, nonce),
    ensures
        ids_ordered_under(s.filter(pred), nonce),
    decreases s.len(),
{
    let t = s.filter(pred);
    if s.len() > 0 {
        let init = s.drop_last();
        assert(s =~= init.push(s.last()));
        init.lemma_filter_push(s.last(), pred);
        assert(ids_ordered_under(init, nonce));
        lemma_filter_keeps_order(init, nonce, pred);
        let ti = init.filter(pred);
        if pred(s.last()) {
            assert forall|i: int| 0 <= i < ti.len() implies #[trigger] ti[i].id.0 < s.last().id.0 by {
                assert(ti.contains(ti[i]));
                init.lemma_filter_contains_rev(pred, ti[i]);
                let k = choose|k: int| 0 <= k < init.len() && init[k] == ti[i];
                assert(s[k] == init[k]);
                assert(s[s.len() - 1] == s.last());
            }
        }
    }
}

/// Submitting records exactly one pending entry under the fresh id, holding the
/// submitted order, and the ids of the pending list keep strictly increasing.
pub proof fn lemma_submit_fresh(
    pendings: Seq<PendingOrder>,
    nonce: u64,
    timestamp: u64,
    order: Order,
)
    requires
        ids_ordered_under(pendings, nonce),
        nonce < u64::MAX,
    ensures
        ({
            let fresh = PendingId(nonce);
            let after = pendings.push(PendingOrder { timestamp, id: fresh, order });
            &&& ids_ordered_under(after, (nonce + 1) as u64)
            &&& after.filter(|po: PendingOrder| po.id == fresh) == seq![
                PendingOrder { timestamp, id: fresh, order },
            ]
        }),
{
    let fresh = PendingId(nonce);
    let entry = PendingOrder { timestamp, id: fresh, order };
    let pred = |po: PendingOrder| po.id == fresh;
    pendings.lemma_filter_push(entry, pred);
    assert(pendings.filter(pred) =~= Seq::<PendingOrder>::empty()) by {
        if pendings.filter(pred).len() > 0 {
            let x = pendings.filter(pred)[0];
            assert(pendings.filter(pred).contains(x));
            pendings.lemma_filter_contains_rev(pred, x);
            pendings.lemma_filter_pred(pred, 0);
            let k = choose|k: int| 0 <= k < pendings.len() && pendings[k] == x;
            assert(pendings[k].id.0 < nonce);
        }
    }
    assert(Seq::<PendingOrder>::empty().push(entry) =~= seq![entry]);
}

} // verus!
