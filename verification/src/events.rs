use vstd::prelude::*;

verus! {

/// Event types in the rollup.
#[derive(Debug)]
pub enum RollupEvent {
    TransactionSubmitted { tx_hash: String, timestamp: u64 },
    TransactionProcessed { tx_hash: String, success: bool, gas_used: u64, timestamp: u64 },
    BatchCreated { batch_id: u64, transaction_count: usize, state_root: String, timestamp: u64 },
    BatchSettled { batch_id: u64, settlement_tx: String, timestamp: u64 },
    StateUpdated { old_root: String, new_root: String, timestamp: u64 },
    MempoolFull { size: usize, timestamp: u64 },
    FeeUpdated { old_base_fee: u64, new_base_fee: u64, timestamp: u64 },
    Error { message: String, timestamp: u64 },
}

/// When an event happened.
pub open spec fn timestamp_spec(e: RollupEvent) -> u64 {
    match e {
        RollupEvent::TransactionSubmitted { timestamp, .. } => timestamp,
        RollupEvent::TransactionProcessed { timestamp, .. } => timestamp,
        RollupEvent::BatchCreated { timestamp, .. } => timestamp,
        RollupEvent::BatchSettled { timestamp, .. } => timestamp,
        RollupEvent::StateUpdated { timestamp, .. } => timestamp,
        RollupEvent::MempoolFull { timestamp, .. } => timestamp,
        RollupEvent::FeeUpdated { timestamp, .. } => timestamp,
        RollupEvent::Error { timestamp, .. } => timestamp,
    }
}

/// An event's type name.
pub open spec fn event_type_spec(e: RollupEvent) -> Seq<char> {
    match e {
        RollupEvent::TransactionSubmitted { .. } => "transaction_submitted"@,
        RollupEvent::TransactionProcessed { .. } => "transaction_processed"@,
        RollupEvent::BatchCreated { .. } => "batch_created"@,
        RollupEvent::BatchSettled { .. } => "batch_settled"@,
        RollupEvent::StateUpdated { .. } => "state_updated"@,
        RollupEvent::MempoolFull { .. } => "mempool_full"@,
        RollupEvent::FeeUpdated { .. } => "fee_updated"@,
        RollupEvent::Error { .. } => "error"@,
    }
}

impl RollupEvent {
    pub fn timestamp(&self) -> (t: u64)
        ensures
            t == timestamp_spec(*self),
    {
        match self {
            RollupEvent::TransactionSubmitted { timestamp, .. } => *timestamp,
            RollupEvent::TransactionProcessed { timestamp, .. } => *timestamp,
            RollupEvent::BatchCreated { timestamp, .. } => *timestamp,
            RollupEvent::BatchSettled { timestamp, .. } => *timestamp,
            RollupEvent::StateUpdated { timestamp, .. } => *timestamp,
            RollupEvent::MempoolFull { timestamp, .. } => *timestamp,
            RollupEvent::FeeUpdated { timestamp, .. } => *timestamp,
            RollupEvent::Error { timestamp, .. } => *timestamp,
        }
    }

    pub fn event_type(&self) -> (t: &'static str)
        ensures
            t@ == event_type_spec(*self),
    {
        match self {
            RollupEvent::TransactionSubmitted { .. } => "transaction_submitted",
            RollupEvent::TransactionProcessed { .. } => "transaction_processed",
            RollupEvent::BatchCreated { .. } => "batch_created",
            RollupEvent::BatchSettled { .. } => "batch_settled",
            RollupEvent::StateUpdated { .. } => "state_updated",
            RollupEvent::MempoolFull { .. } => "mempool_full",
            RollupEvent::FeeUpdated { .. } => "fee_updated",
            RollupEvent::Error { .. } => "error",
        }
    }

    /// A variant-by-variant copy.
    pub fn duplicate(&self) -> (r: RollupEvent)
        ensures
            r == *self,
    {
        match self {
            RollupEvent::TransactionSubmitted { tx_hash, timestamp } => RollupEvent::TransactionSubmitted {
                tx_hash: tx_hash.clone(),
                timestamp: *timestamp,
            },
            RollupEvent::TransactionProcessed { tx_hash, success, gas_used, timestamp } => RollupEvent::TransactionProcessed {
                tx_hash: tx_hash.clone(),
                success: *success,
                gas_used: *gas_used,
                timestamp: *timestamp,
            },
            RollupEvent::BatchCreated { batch_id, transaction_count, state_root, timestamp } => RollupEvent::BatchCreated {
                batch_id: *batch_id,
                transaction_count: *transaction_count,
                state_root: state_root.clone(),
                timestamp: *timestamp,
            },
            RollupEvent::BatchSettled { batch_id, settlement_tx, timestamp } => RollupEvent::BatchSettled {
                batch_id: *batch_id,
                settlement_tx: settlement_tx.clone(),
                timestamp: *timestamp,
            },
            RollupEvent::StateUpdated { old_root, new_root, timestamp } => RollupEvent::StateUpdated {
                old_root: old_root.clone(),
                new_root: new_root.clone(),
                timestamp: *timestamp,
            },
            RollupEvent::MempoolFull { size, timestamp } => RollupEvent::MempoolFull { size: *size, timestamp: *timestamp },
            RollupEvent::FeeUpdated { old_base_fee, new_base_fee, timestamp } => RollupEvent::FeeUpdated {
                old_base_fee: *old_base_fee,
                new_base_fee: *new_base_fee,
                timestamp: *timestamp,
            },
            RollupEvent::Error { message, timestamp } => RollupEvent::Error { message: message.clone(), timestamp: *timestamp },
        }
    }
}

/// Filter for events.
#[derive(Debug, Clone, Copy, PartialEq, Eq, Structural)]
pub enum EventFilter {
    TransactionEvents,
    BatchEvents,
    StateEvents,
    FeeEvents,
    AllEvents,
}

/// Whether a filter lets an event through: all events; submitted and processed
/// transactions; created and settled batches; state updates; or fee updates.
pub open spec fn matches_spec(f: EventFilter, e: RollupEvent) -> bool {
    match f {
        EventFilter::AllEvents => true,
        EventFilter::TransactionEvents => e is TransactionSubmitted || e is TransactionProcessed,
        EventFilter::BatchEvents => e is BatchCreated || e is BatchSettled,
        EventFilter::StateEvents => e is StateUpdated,
        EventFilter::FeeEvents => e is FeeUpdated,
    }
}

impl EventFilter {
    /// Whether the filter lets `event` through (see `matches_spec`).
    pub fn matches(&self, event: &RollupEvent) -> (b: bool)
        ensures
            b == matches_spec(*self, *event),
    {
        match self {
            EventFilter::AllEvents => true,
            EventFilter::TransactionEvents => match event {
                RollupEvent::TransactionSubmitted { .. } => true,
                RollupEvent::TransactionProcessed { .. } => true,
                _ => false,
            },
            EventFilter::BatchEvents => match event {
                RollupEvent::BatchCreated { .. } => true,
                RollupEvent::BatchSettled { .. } => true,
                _ => false,
            },
            EventFilter::StateEvents => match event {
                RollupEvent::StateUpdated { .. } => true,
                _ => false,
            },
            EventFilter::FeeEvents => match event {
                RollupEvent::FeeUpdated { .. } => true,
                _ => false,
            },
        }
    }
}

/// Whether a subscriber with `filter` gets `e`: with no filter it gets everything.
pub open spec fn wants(filter: Option<EventFilter>, e: RollupEvent) -> bool {
    match filter {
        None => true,
        Some(f) => matches_spec(f, e),
    }
}

/// The last `limit` elements of `s` (all of them when there are fewer).
pub open spec fn last_n<A>(s: Seq<A>, limit: usize) -> Seq<A> {
    if s.len() > limit { s.subrange(s.len() - limit, s.len() as int) } else { s }
}

/// A fresh random subscription id: calls `uuid::Uuid::new_v4` and takes its 128 bits. Of the
/// value only what `new_v4` sets is promised: the version nibble is 4 and the variant bits
/// are `10`.
#[verifier::external_body]
pub(crate) fn new_subscription_id() -> (id: u128)
    ensures
        id & 0x0000_0000_0000_F000_C000_0000_0000_0000u128 == 0x0000_0000_0000_4000_8000_0000_0000_0000u128,
{
    uuid::Uuid::new_v4().as_u128()
}

/// The event history and the subscribers, each with its optional filter. Delivering an event
/// to its subscribers is left to the caller: `publish` names them.
pub struct EventBus {
    subscribers: Vec<(u128, Option<EventFilter>)>,
    event_history: Vec<RollupEvent>,
    max_history_size: usize,
}

impl EventBus {
    /// The subscribers, with their filters, in the order they subscribed.
    pub closed spec fn subscribers(&self) -> Seq<(u128, Option<EventFilter>)> {
        self.subscribers@
    }

    /// The events kept, oldest first.
    pub closed spec fn history(&self) -> Seq<RollupEvent> {
        self.event_history@
    }

    pub closed spec fn max_history_size(&self) -> usize {
        self.max_history_size
    }

    /// No id subscribes twice.
    pub closed spec fn wf(&self) -> bool {
        forall|i: int, j: int| 0 <= i < j < self.subscribers@.len() ==> (#[trigger] self.subscribers@[i]).0
            != (#[trigger] self.subscribers@[j]).0
    }

    pub fn new(max_history_size: usize) -> (b: Self)
        ensures
            b.wf(),
            b.subscribers() == Seq::<(u128, Option<EventFilter>)>::empty(),
            b.history() == Seq::<RollupEvent>::empty(),
            b.max_history_size() == max_history_size,
    {
        EventBus { subscribers: Vec::new(), event_history: Vec::new(), max_history_size }
    }

    /// Publish `event`: it joins the history, which keeps the latest `max_history_size`
    /// events; answers the ids of the subscribers it goes to, in subscription order.
    pub fn publish(&mut self, event: RollupEvent) -> (ids: Vec<u128>)
        requires
            old(self).wf(),
        ensures
            final(self).wf(),
            final(self).history() == last_n(old(self).history().push(event), old(self).max_history_size()),
            ids@ == old(self).subscribers().filter(|s: (u128, Option<EventFilter>)| wants(s.1, event)).map_values(
                |s: (u128, Option<EventFilter>)| s.0,
            ),
            final(self).subscribers() == old(self).subscribers(),
            final(self).max_history_size() == old(self).max_history_size(),
    {
        let ghost ev = event;
        let mut ids: Vec<u128> = Vec::new();
        let ghost subs = self.subscribers@;
        let ghost pred = |s: (u128, Option<EventFilter>)| wants(s.1, ev);
        let mut i: usize = 0;
        while i < self.subscribers.len()
            invariant
                subs == self.subscribers@,
                ev == event,
                0 <= i <= subs.len(),
                pred == (|s: (u128, Option<EventFilter>)| wants(s.1, ev)),
                ids@.len() == subs.take(i as int).filter(pred).len(),
                forall|k: int| 0 <= k < ids@.len() ==> #[trigger] ids@[k] == subs.take(i as int).filter(pred)[k].0,
            decreases subs.len() - i,
        {
            let entry = self.subscribers[i];
            let id = entry.0;
            let filter = entry.1;
            assert(entry == subs[i as int]);
            proof {
                assert(subs.take(i + 1) =~= subs.take(i as int).push(subs[i as int]));
                subs.take(i as int).lemma_filter_push(subs[i as int], pred);
            }
            let wanted = match filter {
                None => true,
                Some(f) => f.matches(&event),
            };
            assert(wanted == pred(subs[i as int]));
            if wanted {
                ids.push(id);
            }
            i = i + 1;
        }
        assert(subs.take(i as int) =~= subs);
        assert(ids@ =~= subs.filter(pred).map_values(|s: (u128, Option<EventFilter>)| s.0));
        assert(subs.take(i as int) =~= subs);
        let ghost h0 = self.event_history@.push(event);
        self.event_history.push(event);
        if self.event_history.len() > self.max_history_size {
            let excess = self.event_history.len() - self.max_history_size;
            let tail = self.event_history.split_off(excess);
            self.event_history = tail;
            assert(self.event_history@ =~= h0.subrange(h0.len() - self.max_history_size, h0.len() as int));
        }
        ids
    }

    /// Subscribe with `id`, replacing an earlier subscription with that id in its place.
    pub fn subscribe_with_id(&mut self, id: u128, filter: Option<EventFilter>)
        requires
            old(self).wf(),
        ensures
            final(self).wf(),
            final(self).subscribers() == match crate::util::find_first(old(self).subscribers(), |s: (u128, Option<EventFilter>)| s.0 == id) {
                Some(i) => old(self).subscribers().update(i, (id, filter)),
                None => old(self).subscribers().push((id, filter)),
            },
            final(self).history() == old(self).history(),
            final(self).max_history_size() == old(self).max_history_size(),
    {
        let ghost s0 = self.subscribers@;
        let ghost pred = |s: (u128, Option<EventFilter>)| s.0 == id;
        let mut i: usize = 0;
        while i < self.subscribers.len()
            invariant
                s0 == self.subscribers@,
                s0 == old(self).subscribers@,
                self.event_history == old(self).event_history,
                self.max_history_size == old(self).max_history_size,
                self.wf(),
                0 <= i <= s0.len(),
                pred == (|s: (u128, Option<EventFilter>)| s.0 == id),
                forall|j: int| 0 <= j < i ==> !pred(#[trigger] s0[j]),
            decreases s0.len() - i,
        {
            if self.subscribers[i].0 == id {
                proof {
                    crate::util::lemma_find_first_at(s0, pred, i as int);
                }
                self.subscribers.set(i, (id, filter));
                assert(self.subscribers@ == s0.update(i as int, (id, filter)));
                assert forall|a: int, b: int| 0 <= a < b < self.subscribers@.len() implies (#[trigger] self.subscribers@[a]).0
                    != (#[trigger] self.subscribers@[b]).0 by {
                    if a != i && b != i {
                    } else if a == i {
                        assert(s0[a].0 == id);
                    } else {
                        assert(s0[b].0 == id);
                    }
                }
                return;
            }
            i = i + 1;
        }
        proof {
            crate::util::lemma_find_first(s0, pred);
        }
        self.subscribers.push((id, filter));
        assert forall|a: int, b: int| 0 <= a < b < self.subscribers@.len() implies (#[trigger] self.subscribers@[a]).0
            != (#[trigger] self.subscribers@[b]).0 by {
            if b == s0.len() {
                assert(!pred(s0[a]));
            }
        }
    }

    /// Subscribe with a fresh random id (see `new_subscription_id`); answers the id.
    pub fn subscribe(&mut self, filter: Option<EventFilter>) -> (id: u128)
        requires
            old(self).wf(),
        ensures
            final(self).wf(),
            final(self).subscribers() == match crate::util::find_first(old(self).subscribers(), |s: (u128, Option<EventFilter>)| s.0 == id) {
                Some(i) => old(self).subscribers().update(i, (id, filter)),
                None => old(self).subscribers().push((id, filter)),
            },
            final(self).history() == old(self).history(),
            final(self).max_history_size() == old(self).max_history_size(),
    {
        let id = new_subscription_id();
        self.subscribe_with_id(id, filter);
        id
    }

    /// Drop the subscription with `id`, if any.
    pub fn unsubscribe(&mut self, id: u128)
        requires
            old(self).wf(),
        ensures
            final(self).wf(),
            final(self).subscribers() == old(self).subscribers().filter(|s: (u128, Option<EventFilter>)| s.0 != id),
            final(self).history() == old(self).history(),
            final(self).max_history_size() == old(self).max_history_size(),
    {
        let ghost s0 = self.subscribers@;
        let ghost pred = |s: (u128, Option<EventFilter>)| s.0 != id;
        let mut kept: Vec<(u128, Option<EventFilter>)> = Vec::new();
        let mut i: usize = 0;
        while i < self.subscribers.len()
            invariant
                s0 == self.subscribers@,
                0 <= i <= s0.len(),
                pred == (|s: (u128, Option<EventFilter>)| s.0 != id),
                kept@ == s0.take(i as int).filter(pred),
            decreases s0.len() - i,
        {
            let e = self.subscribers[i];
            proof {
                assert(s0.take(i + 1) =~= s0.take(i as int).push(e));
                s0.take(i as int).lemma_filter_push(e, pred);
            }
            if e.0 != id {
                kept.push(e);
            }
            i = i + 1;
        }
        assert(s0.take(i as int) =~= s0);
        self.subscribers = kept;
        proof {
            let f = s0.filter(pred);
            assert forall|a: int, b: int| 0 <= a < b < f.len() implies (#[trigger] f[a]).0 != (#[trigger] f[b]).0 by {
                crate::replay_protection::lemma_filter_keeps_order(s0, pred, a, b);
                s0.lemma_filter_contains_rev(pred, f[a]);
                s0.lemma_filter_contains_rev(pred, f[b]);
                let x = choose|x: int| 0 <= x < s0.len() && s0[x] == f[a];
                let y = choose|y: int| 0 <= y < s0.len() && s0[y] == f[b];
                assert(x != y);
            }
        }
    }

    /// Drop the subscriptions with the given ids (those the caller could not deliver to).
    pub fn drop_subscribers(&mut self, ids: &Vec<u128>)
        requires
            old(self).wf(),
        ensures
            final(self).wf(),
            final(self).subscribers() == old(self).subscribers().filter(|s: (u128, Option<EventFilter>)| !ids@.contains(s.0)),
            final(self).history() == old(self).history(),
            final(self).max_history_size() == old(self).max_history_size(),
    {
        let ghost s0 = self.subscribers@;
        let ghost pred = |s: (u128, Option<EventFilter>)| !ids@.contains(s.0);
        let mut kept: Vec<(u128, Option<EventFilter>)> = Vec::new();
        let mut i: usize = 0;
        while i < self.subscribers.len()
            invariant
                s0 == self.subscribers@,
                0 <= i <= s0.len(),
                pred == (|s: (u128, Option<EventFilter>)| !ids@.contains(s.0)),
                kept@ == s0.take(i as int).filter(pred),
            decreases s0.len() - i,
        {
            let e = self.subscribers[i];
            proof {
                assert(s0.take(i + 1) =~= s0.take(i as int).push(e));
                s0.take(i as int).lemma_filter_push(e, pred);
            }
            let mut found = false;
            let mut k: usize = 0;
            while k < ids.len()
                invariant
                    0 <= k <= ids@.len(),
                    found == exists|j: int| 0 <= j < k && ids@[j] == e.0,
                decreases ids@.len() - k,
            {
                if ids[k] == e.0 {
                    found = true;
                }
                k = k + 1;
            }
            assert(found == ids@.contains(e.0));
            if !found {
                kept.push(e);
            }
            i = i + 1;
        }
        assert(s0.take(i as int) =~= s0);
        self.subscribers = kept;
        proof {
            let f = s0.filter(pred);
            assert forall|a: int, b: int| 0 <= a < b < f.len() implies (#[trigger] f[a]).0 != (#[trigger] f[b]).0 by {
                crate::replay_protection::lemma_filter_keeps_order(s0, pred, a, b);
                s0.lemma_filter_contains_rev(pred, f[a]);
                s0.lemma_filter_contains_rev(pred, f[b]);
                let x = choose|x: int| 0 <= x < s0.len() && s0[x] == f[a];
                let y = choose|y: int| 0 <= y < s0.len() && s0[y] == f[b];
                assert(x != y);
            }
        }
    }

    /// Copies of the latest `limit` events (all of them with no limit), oldest first.
    pub fn get_history(&self, limit: Option<usize>) -> (r: Vec<RollupEvent>)
        ensures
            r@ == match limit {
                Some(n) => last_n(self.history(), n),
                None => self.history(),
            },
    {
        let h = &self.event_history;
        let start: usize = match limit {
            Some(n) => h.len().saturating_sub(n),
            None => 0,
        };
        let mut r: Vec<RollupEvent> = Vec::new();
        let mut i: usize = start;
        while i < h.len()
            invariant
                start <= i <= h@.len(),
                r@ == h@.subrange(start as int, i as int),
            decreases h@.len() - i,
        {
            r.push(h[i].duplicate());
            i = i + 1;
            assert(r@ =~= h@.subrange(start as int, i as int));
        }
        assert(h@.subrange(0, h@.len() as int) =~= h@);
        r
    }

    /// Copies of the latest `limit` events that pass `filter` (all of them with no limit),
    /// oldest first.
    pub fn get_history_filtered(&self, filter: EventFilter, limit: Option<usize>) -> (r: Vec<RollupEvent>)
        ensures
            ({
                let f = self.history().filter(|e: RollupEvent| matches_spec(filter, e));
                r@ == match limit {
                    Some(n) => last_n(f, n),
                    None => f,
                }
            }),
    {
        let ghost s = self.history();
        let ghost pred = |e: RollupEvent| matches_spec(filter, e);
        let mut filtered: Vec<RollupEvent> = Vec::new();
        let mut i: usize = 0;
        while i < self.event_history.len()
            invariant
                s == self.history(),
                0 <= i <= s.len(),
                pred == (|e: RollupEvent| matches_spec(filter, e)),
                filtered@ == s.take(i as int).filter(pred),
            decreases s.len() - i,
        {
            let e = &self.event_history[i];
            proof {
                assert(s.take(i + 1) =~= s.take(i as int).push(*e));
                s.take(i as int).lemma_filter_push(*e, pred);
            }
            if filter.matches(e) {
                filtered.push(e.duplicate());
            }
            i = i + 1;
        }
        assert(s.take(i as int) =~= s);
        match limit {
            Some(n) => {
                let start = filtered.len().saturating_sub(n);
                let tail = filtered.split_off(start);
                assert(tail@ =~= last_n(s.filter(pred), n));
                tail
            },
            None => filtered,
        }
    }

    pub fn subscriber_count(&self) -> (n: usize)
        ensures
            n == self.subscribers().len(),
    {
        self.subscribers.len()
    }

    /// Forget every event.
    pub fn clear_history(&mut self)
        ensures
            final(self).history() == Seq::<RollupEvent>::empty(),
            final(self).subscribers() == old(self).subscribers(),
            final(self).max_history_size() == old(self).max_history_size(),
            final(self).wf() == old(self).wf(),
    {
        self.event_history.clear();
    }
}

impl Default for EventBus {
    /// A bus that keeps the latest 1000 events.
    fn default() -> (b: Self)
        ensures
            b.wf(),
            b.subscribers() == Seq::<(u128, Option<EventFilter>)>::empty(),
            b.history() == Seq::<RollupEvent>::empty(),
            b.max_history_size() == 1000,
    {
        Self::new(1000)
    }
}

/// The history never holds more than its limit: after an event is published, it keeps at
/// most `max` events, and the newest is the one just published (when `max` is not zero).
pub proof fn lemma_history_bounded(h: Seq<RollupEvent>, e: RollupEvent, max: usize)
    ensures
        last_n(h.push(e), max).len() <= max,
        last_n(h.push(e), max).len() <= h.len() + 1,
        max > 0 ==> last_n(h.push(e), max).last() == e,
{
}

/// Which filters let an event through: every filter but the one of its own kind turns it
/// away, except `AllEvents`, which passes everything. A transaction (submitted or processed)
/// passes `TransactionEvents`; a batch (created or settled) passes `BatchEvents`; a state
/// update passes `StateEvents`; a fee update passes `FeeEvents`; a full mempool and an error
/// pass no filter but `AllEvents`.
pub proof fn lemma_filter_by_kind(f: EventFilter, e: RollupEvent)
    ensures
        f == EventFilter::AllEvents ==> matches_spec(f, e),
        (e is TransactionSubmitted || e is TransactionProcessed) ==> (matches_spec(f, e) <==> (f
            == EventFilter::AllEvents || f == EventFilter::TransactionEvents)),
        (e is BatchCreated || e is BatchSettled) ==> (matches_spec(f, e) <==> (f == EventFilter::AllEvents
            || f == EventFilter::BatchEvents)),
        e is StateUpdated ==> (matches_spec(f, e) <==> (f == EventFilter::AllEvents || f
            == EventFilter::StateEvents)),
        e is FeeUpdated ==> (matches_spec(f, e) <==> (f == EventFilter::AllEvents || f
            == EventFilter::FeeEvents)),
        (e is MempoolFull || e is Error) ==> (matches_spec(f, e) <==> f == EventFilter::AllEvents),
        wants(None, e),
        wants(Some(f), e) == matches_spec(f, e),
{
}

/// The history window keeps the newest events in order: of `s` it keeps `min(len, limit)`
/// elements, and the `i`-th kept is the element `len - kept + i` of `s`.
pub proof fn lemma_last_n_is_newest<A>(s: Seq<A>, limit: usize)
    ensures
        last_n(s, limit).len() == if s.len() <= limit { s.len() } else { limit as nat },
        forall|i: int|
            0 <= i < last_n(s, limit).len() ==> #[trigger] last_n(s, limit)[i] == s[s.len()
                - last_n(s, limit).len() + i],
{
}

} // verus!
