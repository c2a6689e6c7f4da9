use vstd::prelude::*;

verus! {

/// Identity of a subscription to a topic.
#[derive(Copy, Clone, Debug, Default, PartialEq, Eq, Structural, PartialOrd, Ord, Hash)]
pub struct SubscriptionId(pub u64);

impl From<u64> for SubscriptionId {
    fn from(id: u64) -> (r: Self) {
        SubscriptionId(id)
    }
}

impl vstd::std_specs::convert::FromSpecImpl<u64> for SubscriptionId {
    open spec fn obeys_from_spec() -> bool {
        true
    }

    open spec fn from_spec(id: u64) -> SubscriptionId {
        SubscriptionId(id)
    }
}

impl From<SubscriptionId> for u64 {
    fn from(id: SubscriptionId) -> (r: Self) {
        id.0
    }
}

impl vstd::std_specs::convert::FromSpecImpl<SubscriptionId> for u64 {
    open spec fn obeys_from_spec() -> bool {
        true
    }

    open spec fn from_spec(id: SubscriptionId) -> u64 {
        id.0
    }
}

#[derive(Debug, PartialEq, Eq)]
pub enum PubSubError {
    /// Deliveries to these subscriptions failed.
    PublishError(Vec<SubscriptionId>),
    /// The subscription was unsubscribed.
    Disconnected(SubscriptionId),
    /// The subscription's queue can no longer be read.
    SubscriptionError(SubscriptionId),
}

pub type PubSubResult<T> = Result<T, PubSubError>;

/// One subscriber and the messages waiting for it.
#[derive(Debug)]
pub struct Slot<T> {
    pub id: SubscriptionId,
    pub queue: Vec<T>,
}

/// A topic: the next subscription id to hand out and the current subscribers, each
/// with an unbounded queue of the messages published since it subscribed.
#[derive(Debug)]
pub struct Topic<T> {
    pub nonce: u64,
    pub slots: Vec<Slot<T>>,
}

/// The index of the slot of `id` in `slots`, if any.
pub open spec fn slot_index<T>(slots: Seq<Slot<T>>, id: u64) -> int {
    choose|i: int| 0 <= i < slots.len() && slots[i].id.0 == id
}

/// The subscribers of `slots` and what waits for each.
pub open spec fn queues<T>(slots: Seq<Slot<T>>) -> Map<u64, Seq<T>> {
    Map::new(
        |id: u64| exists|i: int| 0 <= i < slots.len() && slots[i].id.0 == id,
        |id: u64| slots[slot_index(slots, id)].queue@,
    )
}

/// `post` is `pre` followed by a clone of each of `msgs`, in order.
pub open spec fn delivered<T: Clone>(pre: Seq<T>, msgs: Seq<T>, post: Seq<T>) -> bool {
    &&& post.len() == pre.len() + msgs.len()
    &&& post.take(pre.len() as int) == pre
    &&& forall|k: int| 0 <= k < msgs.len() ==> cloned(msgs[k], #[trigger] post[pre.len() + k])
}

impl<T> Topic<T> {
    /// Subscription ids are unique and lie under the next one to hand out.
    pub open spec fn wf(&self) -> bool {
        &&& forall|i: int, j: int|
            0 <= i < j < self.slots@.len() ==> self.slots@[i].id != self.slots@[j].id
        &&& forall|i: int| 0 <= i < self.slots@.len() ==> (#[trigger] self.slots@[i]).id.0 < self.nonce
    }

    pub open spec fn view(&self) -> Map<u64, Seq<T>> {
        queues(self.slots@)
    }
}

proof fn lemma_slot_lookup<T>(slots: Seq<Slot<T>>, i: int)
    requires
        0 <= i < slots.len(),
        forall|a: int, b: int| 0 <= a < b < slots.len() ==> slots[a].id != slots[b].id,
    ensures
        slot_index(slots, slots[i].id.0) == i,
        queues(slots).contains_key(slots[i].id.0),
        queues(slots)[slots[i].id.0] == slots[i].queue@,
{
    let k = slot_index(slots, slots[i].id.0);
    assert(0 <= k < slots.len() && slots[k].id.0 == slots[i].id.0);
    if k != i {
        if k < i {
            assert(slots[k].id != slots[i].id);
        } else {
            assert(slots[i].id != slots[k].id);
        }
    }
}

impl<T: Clone> Topic<T> {
    pub fn new() -> (r: Topic<T>)
        ensures
            r.wf(),
            r.nonce == 0,
            r.view() == Map::<u64, Seq<T>>::empty(),
    {
        let r = Topic { nonce: 0, slots: Vec::new() };
        assert(r.view() =~= Map::<u64, Seq<T>>::empty());
        r
    }

    /// Registers a new subscriber under the next id, with an empty queue. The ids
    /// must not be exhausted.
    pub fn subscribe(&mut self) -> (r: SubscriptionId)
        requires
            old(self).wf(),
            old(self).nonce < u64::MAX,
        ensures
            final(self).wf(),
            r == SubscriptionId(old(self).nonce),
            final(self).nonce == old(self).nonce + 1,
            !old(self).view().contains_key(r.0),
            final(self).view() == old(self).view().insert(r.0, Seq::empty()),
    {
        let id = SubscriptionId(self.nonce);
        let ghost before = self.slots@;
        self.slots.push(Slot { id, queue: Vec::new() });
        self.nonce = self.nonce + 1;
        proof {
            let after = self.slots@;
            let n = before.len() as int;
            lemma_slot_lookup(after, n);
            assert forall|k: u64| #[trigger] queues(after).contains_key(k) == queues(before).insert(
                id.0,
                Seq::empty(),
            ).contains_key(k) by {
                if exists|i: int| 0 <= i < before.len() && before[i].id.0 == k {
                    let i = choose|i: int| 0 <= i < before.len() && before[i].id.0 == k;
                    assert(after[i] == before[i]);
                }
                if exists|i: int| 0 <= i < after.len() && after[i].id.0 == k {
                    let i = choose|i: int| 0 <= i < after.len() && after[i].id.0 == k;
                    if i < n {
                        assert(after[i] == before[i]);
                    }
                }
            }
            assert forall|k: u64| #[trigger] queues(after).contains_key(k) && k != id.0 implies queues(
                after,
            )[k] == queues(before)[k] by {
                let i = choose|i: int| 0 <= i < after.len() && after[i].id.0 == k;
                assert(i < n);
                assert(after[i] == before[i]);
                lemma_slot_lookup(after, i);
                lemma_slot_lookup(before, i);
            }
            assert(!queues(before).contains_key(id.0)) by {
                if queues(before).contains_key(id.0) {
                    let i = choose|i: int| 0 <= i < before.len() && before[i].id.0 == id.0;
                    assert(before[i].id.0 < id.0);
                }
            }
            assert(queues(after) =~= queues(before).insert(id.0, Seq::empty()));
        }
        id
    }
}

/// Slot ids are unique.
pub open spec fn unique_ids<T>(slots: Seq<Slot<T>>) -> bool {
    forall|a: int, b: int| 0 <= a < b < slots.len() ==> slots[a].id != slots[b].id
}

proof fn lemma_slot_replace<T>(before: Seq<Slot<T>>, after: Seq<Slot<T>>, i: int)
    requires
        unique_ids(before),
        0 <= i < before.len(),
        after.len() == before.len(),
        after[i].id == before[i].id,
        forall|j: int| 0 <= j < before.len() && j != i ==> after[j] == before[j],
    ensures
        unique_ids(after),
        queues(after) == queues(before).insert(before[i].id.0, after[i].queue@),
{
    assert(unique_ids(after)) by {
        assert forall|a: int, b: int| 0 <= a < b < after.len() implies after[a].id != after[b].id by {
            assert(after[a].id == before[a].id);
            assert(after[b].id == before[b].id);
        }
    }
    let id = before[i].id.0;
    lemma_slot_lookup(after, i);
    assert forall|k: u64| #[trigger] queues(after).contains_key(k) == queues(before).contains_key(k) by {
        if exists|j: int| 0 <= j < before.len() && before[j].id.0 == k {
            let j = choose|j: int| 0 <= j < before.len() && before[j].id.0 == k;
            assert(after[j].id == before[j].id);
        }
        if exists|j: int| 0 <= j < after.len() && after[j].id.0 == k {
            let j = choose|j: int| 0 <= j < after.len() && after[j].id.0 == k;
            assert(after[j].id == before[j].id);
        }
    }
    assert forall|k: u64| #[trigger] queues(after).contains_key(k) && k != id implies queues(after)[k]
        == queues(before)[k] by {
        let j = choose|j: int| 0 <= j < after.len() && after[j].id.0 == k;
        assert(after[j].id == before[j].id);
        assert(j != i);
        lemma_slot_lookup(after, j);
        lemma_slot_lookup(before, j);
    }
    assert(queues(after) =~= queues(before).insert(id, after[i].queue@));
}

proof fn lemma_slot_remove<T>(before: Seq<Slot<T>>, i: int)
    requires
        unique_ids(before),
        0 <= i < before.len(),
    ensures
        unique_ids(before.remove(i)),
        queues(before.remove(i)) == queues(before).remove(before[i].id.0),
{
    let after = before.remove(i);
    let id = before[i].id.0;
    assert(unique_ids(after)) by {
        assert forall|a: int, b: int| 0 <= a < b < after.len() implies after[a].id != after[b].id by {
            let a0 = if a < i { a } else { a + 1 };
            let b0 = if b < i { b } else { b + 1 };
            assert(after[a] == before[a0]);
            assert(after[b] == before[b0]);
        }
    }
    assert forall|k: u64| #[trigger] queues(after).contains_key(k) == queues(before).remove(id).contains_key(
        k,
    ) by {
        if exists|j: int| 0 <= j < before.len() && before[j].id.0 == k && k != id {
            let j = choose|j: int| 0 <= j < before.len() && before[j].id.0 == k && k != id;
            assert(j != i);
            if j < i {
                assert(after[j] == before[j]);
            } else {
                assert(after[j - 1] == before[j]);
            }
        }
        if exists|j: int| 0 <= j < after.len() && after[j].id.0 == k {
            let j = choose|j: int| 0 <= j < after.len() && after[j].id.0 == k;
            let j0 = if j < i { j } else { j + 1 };
            assert(after[j] == before[j0]);
            assert(before[j0].id != before[i].id);
        }
    }
    assert forall|k: u64| #[trigger] queues(after).contains_key(k) implies queues(after)[k] == queues(
        before,
    )[k] by {
        let j = choose|j: int| 0 <= j < after.len() && after[j].id.0 == k;
        let j0 = if j < i { j } else { j + 1 };
        assert(after[j] == before[j0]);
        lemma_slot_lookup(after, j);
        lemma_slot_lookup(before, j0);
    }
    assert(queues(after) =~= queues(before).remove(id));
}

impl<T: Clone> Topic<T> {
    fn find(&self, id: SubscriptionId) -> (r: Option<usize>)
        requires
            unique_ids(self.slots@),
        ensures
            r is None <==> !self.view().contains_key(id.0),
            r matches Some(k) ==> k < self.slots@.len() && self.slots@[k as int].id == id,
    {
        let mut i: usize = 0;
        while i < self.slots.len()
            invariant
                i <= self.slots@.len(),
                forall|j: int| 0 <= j < i ==> (#[trigger] self.slots@[j]).id != id,
            decreases self.slots@.len() - i,
        {
            if self.slots[i].id == id {
                return Some(i);
            }
            i = i + 1;
        }
        proof {
            if self.view().contains_key(id.0) {
                let j = choose|j: int| 0 <= j < self.slots@.len() && self.slots@[j].id.0 == id.0;
                assert(self.slots@[j].id != id);
            }
        }
        None
    }

    /// Whether `id` is still subscribed.
    pub fn is_subscribed(&self, id: SubscriptionId) -> (r: bool)
        requires
            self.wf(),
        ensures
            r == self.view().contains_key(id.0),
    {
        self.find(id).is_some()
    }

    /// Removes the subscriber `id` and what waits for it; an id that is not
    /// subscribed changes nothing.
    pub fn unsubscribe(&mut self, id: SubscriptionId)
        requires
            old(self).wf(),
        ensures
            final(self).wf(),
            final(self).nonce == old(self).nonce,
            final(self).view() == old(self).view().remove(id.0),
    {
        match self.find(id) {
            None => {
                assert(self.view() =~= self.view().remove(id.0));
            },
            Some(k) => {
                let ghost before = self.slots@;
                self.slots.remove(k);
                proof {
                    lemma_slot_remove(before, k as int);
                }
            },
        }
    }

    /// Delivers `message` to every subscriber: a clone to each but the last, which
    /// gets the message itself.
    pub fn publish(&mut self, message: T)
        requires
            old(self).wf(),
        ensures
            final(self).wf(),
            final(self).nonce == old(self).nonce,
            final(self).view().dom() == old(self).view().dom(),
            forall|id: u64|
                #[trigger] old(self).view().contains_key(id) ==> delivered(
                    old(self).view()[id],
                    seq![message],
                    final(self).view()[id],
                ),
    {
        let ghost start = self.slots@;
        let n = self.slots.len();
        if n == 0 {
            return;
        }
        let mut i: usize = 0;
        while i + 1 < n
            invariant
                1 <= n,
                i + 1 <= n,
                n == start.len(),
                self.slots@.len() == n,
                self.nonce == old(self).nonce,
                start == old(self).slots@,
                old(self).wf(),
                forall|j: int|
                    0 <= j < i ==> (#[trigger] self.slots@[j]).id == start[j].id && delivered(
                        start[j].queue@,
                        seq![message],
                        self.slots@[j].queue@,
                    ),
                forall|j: int| i <= j < n ==> #[trigger] self.slots@[j] == start[j],
            decreases n - i,
        {
            let ghost before = self.slots@;
            let mut slot = self.slots.remove(i);
            slot.queue.push(message.clone());
            self.slots.insert(i, slot);
            proof {
                assert(self.slots@ == before.remove(i as int).insert(i as int, slot));
                assert forall|j: int| 0 <= j < n && j != i implies #[trigger] self.slots@[j] == before[j] by {
                }
                let q = slot.queue@;
                assert(q.take(start[i as int].queue@.len() as int) =~= start[i as int].queue@);
            }
            i = i + 1;
        }
        let ghost before = self.slots@;
        let mut slot = self.slots.remove(i);
        slot.queue.push(message);
        self.slots.insert(i, slot);
        proof {
            assert(self.slots@ == before.remove(i as int).insert(i as int, slot));
            assert forall|j: int| 0 <= j < n && j != i implies #[trigger] self.slots@[j] == before[j] by {}
            let q = slot.queue@;
            assert(q.take(start[i as int].queue@.len() as int) =~= start[i as int].queue@);
            let after = self.slots@;
            assert(unique_ids(after)) by {
                assert forall|a: int, b: int| 0 <= a < b < after.len() implies after[a].id != after[b].id by {
                    assert(after[a].id == start[a].id);
                    assert(after[b].id == start[b].id);
                }
            }
            assert forall|k: u64| #[trigger] queues(after).contains_key(k) == queues(start).contains_key(k) by {
                if exists|j: int| 0 <= j < start.len() && start[j].id.0 == k {
                    let j = choose|j: int| 0 <= j < start.len() && start[j].id.0 == k;
                    assert(after[j].id == start[j].id);
                }
                if exists|j: int| 0 <= j < after.len() && after[j].id.0 == k {
                    let j = choose|j: int| 0 <= j < after.len() && after[j].id.0 == k;
                    assert(after[j].id == start[j].id);
                }
            }
            assert(queues(after).dom() =~= queues(start).dom());
            assert forall|id: u64| #[trigger] queues(start).contains_key(id) implies delivered(
                queues(start)[id],
                seq![message],
                queues(after)[id],
            ) by {
                let j = choose|j: int| 0 <= j < start.len() && start[j].id.0 == id;
                assert(after[j].id == start[j].id);
                lemma_slot_lookup(start, j);
                lemma_slot_lookup(after, j);
            }
        }
    }

    /// Takes everything that waits for `id`; an id that is not subscribed is reported
    /// as disconnected.
    pub fn drain(&mut self, id: SubscriptionId) -> (r: PubSubResult<Vec<T>>)
        requires
            old(self).wf(),
        ensures
            final(self).wf(),
            final(self).nonce == old(self).nonce,
            !old(self).view().contains_key(id.0) ==> r == Err::<Vec<T>, _>(
                PubSubError::Disconnected(id),
            ) && final(self).view() == old(self).view(),
            old(self).view().contains_key(id.0) ==> (r matches Ok(v) && v@ == old(self).view()[id.0]
                && final(self).view() == old(self).view().insert(id.0, Seq::empty())),
    {
        match self.find(id) {
            None => Err(PubSubError::Disconnected(id)),
            Some(k) => {
                let ghost before = self.slots@;
                proof {
                    lemma_slot_lookup(before, k as int);
                }
                let slot = self.slots.remove(k);
                let Slot { id: sid, queue } = slot;
                self.slots.insert(k, Slot { id: sid, queue: Vec::new() });
                proof {
                    let after = self.slots@;
                    assert(after == before.remove(k as int).insert(k as int, after[k as int]));
                    assert forall|j: int| 0 <= j < before.len() && j != k implies after[j] == before[j] by {}
                    lemma_slot_replace(before, after, k as int);
                    assert(after[k as int].queue@ =~= Seq::<T>::empty());
                }
                Ok(queue)
            },
        }
    }

    /// Takes the oldest message that waits for `id`, if any; an id that is not
    /// subscribed is reported as disconnected.
    pub fn pop(&mut self, id: SubscriptionId) -> (r: PubSubResult<Option<T>>)
        requires
            old(self).wf(),
        ensures
            final(self).wf(),
            final(self).nonce == old(self).nonce,
            !old(self).view().contains_key(id.0) ==> r == Err::<Option<T>, _>(
                PubSubError::Disconnected(id),
            ) && final(self).view() == old(self).view(),
            old(self).view().contains_key(id.0) && old(self).view()[id.0].len() == 0 ==> r == Ok::<
                Option<T>,
                PubSubError,
            >(None) && final(self).view() == old(self).view(),
            old(self).view().contains_key(id.0) && old(self).view()[id.0].len() > 0 ==> r == Ok::<
                Option<T>,
                PubSubError,
            >(Some(old(self).view()[id.0][0])) && final(self).view() == old(self).view().insert(
                id.0,
                old(self).view()[id.0].drop_first(),
            ),
    {
        match self.find(id) {
            None => Err(PubSubError::Disconnected(id)),
            Some(k) => {
                let ghost before = self.slots@;
                proof {
                    lemma_slot_lookup(before, k as int);
                }
                if self.slots[k].queue.len() == 0 {
                    return Ok(None);
                }
                let mut slot = self.slots.remove(k);
                let first = slot.queue.remove(0);
                self.slots.insert(k, slot);
                proof {
                    let after = self.slots@;
                    assert(after == before.remove(k as int).insert(k as int, after[k as int]));
                    assert forall|j: int| 0 <= j < before.len() && j != k implies after[j] == before[j] by {}
                    lemma_slot_replace(before, after, k as int);
                    assert(after[k as int].queue@ =~= before[k as int].queue@.drop_first());
                }
                Ok(Some(first))
            },
        }
    }
}

/// One step of a topic as its subscribers see it: a publish of `message` where
/// `removed` is `None`, or the unsubscription of `removed`.
pub open spec fn bus_step<T: Clone>(
    pre: Map<u64, Seq<T>>,
    message: T,
    removed: Option<u64>,
    post: Map<u64, Seq<T>>,
) -> bool {
    match removed {
        None => post.dom() == pre.dom() && forall|id: u64|
            #[trigger] pre.contains_key(id) ==> delivered(pre[id], seq![message], post[id]),
        Some(x) => post == pre.remove(x),
    }
}

/// The messages of the first `n` steps that were publishes, in order.
pub open spec fn published<T>(messages: Seq<T>, removed: Seq<Option<u64>>, n: int) -> Seq<T>
    decreases n,
{
    if n <= 0 {
        Seq::empty()
    } else {
        let prev = published(messages, removed, n - 1);
        if removed[n - 1] is None {
            prev.push(messages[n - 1])
        } else {
            prev
        }
    }
}

proof fn lemma_delivered_push<T: Clone>(a: Seq<T>, msgs: Seq<T>, b: Seq<T>, x: T, c: Seq<T>)
    requires
        delivered(a, msgs, b),
        delivered(b, seq![x], c),
    ensures
        delivered(a, msgs.push(x), c),
{
    assert(c.take(a.len() as int) =~= b.take(a.len() as int)) by {
        assert forall|k: int| 0 <= k < a.len() implies c[k] == b[k] by {
            assert(c.take(b.len() as int)[k] == b[k]);
        }
    }
    assert forall|k: int| 0 <= k < msgs.push(x).len() implies cloned(
        msgs.push(x)[k],
        #[trigger] c[a.len() + k],
    ) by {
        if k < msgs.len() {
            assert(c.take(b.len() as int)[a.len() + k] == b[a.len() + k]);
            assert(cloned(msgs[k], b[a.len() + k]));
            assert(msgs.push(x)[k] == msgs[k]);
        } else {
            assert(cloned(seq![x][0], c[b.len() + 0int]));
            assert(seq![x][0] == x);
            assert(msgs.push(x)[k] == x);
            assert(a.len() + k == b.len() + 0int);
        }
    }
}

proof fn lemma_bus_prefix<T: Clone>(
    states: Seq<Map<u64, Seq<T>>>,
    messages: Seq<T>,
    removed: Seq<Option<u64>>,
    id: u64,
    n: int,
)
    requires
        states.len() == messages.len() + 1,
        removed.len() == messages.len(),
        forall|i: int|
            0 <= i < messages.len() ==> #[trigger] bus_step(
                states[i],
                messages[i],
                removed[i],
                states[i + 1],
            ),
        states[0].contains_key(id),
        0 <= n <= messages.len(),
    ensures
        states[n].contains_key(id) ==> delivered(
            states[0][id],
            published(messages, removed, n),
            states[n][id],
        ),
        states[n].contains_key(id) ==> forall|i: int| 0 <= i <= n ==> #[trigger] states[i].contains_key(id),
    decreases n,
{
    if n == 0 {
        let q = states[0][id];
        assert(q.take(q.len() as int) =~= q);
    } else {
        lemma_bus_prefix(states, messages, removed, id, n - 1);
        let k = n - 1;
        assert(bus_step(states[k], messages[k], removed[k], states[k + 1]));
        assert(k + 1 == n);
        if states[n].contains_key(id) {
            assert(states[n - 1].contains_key(id)) by {
                if removed[n - 1] is None {
                    assert(states[n].dom() == states[n - 1].dom());
                } else {
                    assert(states[n] == states[n - 1].remove(removed[n - 1]->0));
                }
            }
            if removed[n - 1] is None {
                lemma_delivered_push(
                    states[0][id],
                    published(messages, removed, n - 1),
                    states[n - 1][id],
                    messages[n - 1],
                    states[n][id],
                );
            }
        }
    }
}

/// Across any run of publishes and unsubscriptions, a subscriber that is still
/// subscribed at the end holds what it held at the start followed by a clone of each
/// message published, in publish order; a subscriber unsubscribed at some step is
/// absent from every later state, so it receives none of the later messages.
pub proof fn lemma_broadcast_order<T: Clone>(
    states: Seq<Map<u64, Seq<T>>>,
    messages: Seq<T>,
    removed: Seq<Option<u64>>,
    id: u64,
)
    requires
        states.len() == messages.len() + 1,
        removed.len() == messages.len(),
        forall|i: int|
            0 <= i < messages.len() ==> #[trigger] bus_step(
                states[i],
                messages[i],
                removed[i],
                states[i + 1],
            ),
        states[0].contains_key(id),
    ensures
        states.last().contains_key(id) ==> delivered(
            states[0][id],
            published(messages, removed, messages.len() as int),
            states.last()[id],
        ),
        forall|i: int, j: int|
            0 <= i < j < states.len() && #[trigger] removed[i] == Some(id) ==> !(
                #[trigger] states[j]).contains_key(id),
{
    lemma_bus_prefix(states, messages, removed, id, messages.len() as int);
    assert forall|i: int, j: int|
        0 <= i < j < states.len() && #[trigger] removed[i] == Some(id) implies !(
            #[trigger] states[j]).contains_key(id) by {
        lemma_bus_prefix(states, messages, removed, id, j);
        if states[j].contains_key(id) {
            assert(states[i + 1].contains_key(id));
            assert(bus_step(states[i], messages[i], removed[i], states[i + 1]));
        }
    }
}

} // verus!
