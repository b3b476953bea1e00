use vstd::prelude::*;

use crate::clock::now_secs;
use crate::util::{copy_vec, find_first, lemma_find_first, lemma_find_first_at, lemma_find_first_none};

verus! {

/// Transaction priority level, lowest first.
#[derive(Debug, Clone, Copy, PartialEq, Eq, Structural, PartialOrd, Ord)]
pub enum Priority {
    Low,
    Medium,
    High,
    Urgent,
}

/// A priority's rank: 0 for low up to 3 for urgent.
pub open spec fn rank(p: Priority) -> int {
    match p {
        Priority::Low => 0,
        Priority::Medium => 1,
        Priority::High => 2,
        Priority::Urgent => 3,
    }
}

fn rank_of(p: Priority) -> (r: u8)
    ensures
        r == rank(p),
{
    match p {
        Priority::Low => 0,
        Priority::Medium => 1,
        Priority::High => 2,
        Priority::Urgent => 3,
    }
}

/// A pending transaction with what the mempool orders it by. The transaction is held in its
/// binary layout, with the key of its first account (the sender) when it has one.
#[derive(Debug)]
pub struct MempoolTransaction {
    pub transaction: Vec<u8>,
    pub hash: crate::hash_utils::Hash,
    pub priority: Priority,
    pub fee: u64,
    pub timestamp: u64,
    pub nonce: u64,
    pub sender: Option<[u8; 32]>,
}

#[derive(Debug, Clone, Copy, PartialEq, Eq, Structural)]
pub struct MempoolStats {
    pub total_transactions: usize,
    pub urgent: usize,
    pub high: usize,
    pub medium: usize,
    pub low: usize,
    /// How full the mempool is, in percent, rounded down (at most 255).
    pub capacity_used: u8,
}

/// Why a transaction was refused.
#[derive(Debug, Clone, Copy, PartialEq, Eq, Structural)]
pub enum MempoolError {
    MempoolFull,
}

/// What a mempool transaction holds.
pub struct MempoolTxModel {
    pub transaction: Seq<u8>,
    pub hash: Seq<u8>,
    pub priority: Priority,
    pub fee: u64,
    pub timestamp: u64,
    pub nonce: u64,
    pub sender: Option<Seq<u8>>,
}

impl View for MempoolTransaction {
    type V = MempoolTxModel;

    open spec fn view(&self) -> MempoolTxModel {
        MempoolTxModel {
            transaction: self.transaction@,
            hash: self.hash@,
            priority: self.priority,
            fee: self.fee,
            timestamp: self.timestamp,
            nonce: self.nonce,
            sender: match self.sender {
                Some(k) => Some(k@),
                None => None,
            },
        }
    }
}

impl MempoolTransaction {
    /// A field-by-field copy.
    pub fn duplicate(&self) -> (r: MempoolTransaction)
        ensures
            r@ == self@,
    {
        MempoolTransaction {
            transaction: copy_vec(&self.transaction),
            hash: self.hash,
            priority: self.priority,
            fee: self.fee,
            timestamp: self.timestamp,
            nonce: self.nonce,
            sender: self.sender,
        }
    }
}

/// Whether `a` goes before `b`: higher priority first, then higher fee, then the earlier.
pub open spec fn goes_before(a: MempoolTxModel, b: MempoolTxModel) -> bool {
    ||| rank(a.priority) > rank(b.priority)
    ||| rank(a.priority) == rank(b.priority) && a.fee > b.fee
    ||| rank(a.priority) == rank(b.priority) && a.fee == b.fee && a.timestamp < b.timestamp
}

/// The first queued transaction that nothing goes before.
pub open spec fn next_pos(q: Seq<MempoolTxModel>) -> Option<int> {
    find_first(q, |t: MempoolTxModel| forall|j: int| 0 <= j < q.len() ==> !goes_before(#[trigger] q[j], t))
}

/// The position of the transaction with hash `h`, if any.
pub open spec fn hash_pos(s: Seq<MempoolTxModel>, h: Seq<u8>) -> Option<int> {
    find_first(s, |t: MempoolTxModel| t.hash == h)
}

/// The transactions after `t` is stored: it replaces one with the same hash in its place, or
/// else goes last.
pub open spec fn stored_tx(s: Seq<MempoolTxModel>, t: MempoolTxModel) -> Seq<MempoolTxModel> {
    match hash_pos(s, t.hash) {
        Some(i) => s.update(i, t),
        None => s.push(t),
    }
}

/// The transactions without the one with hash `h`.
pub open spec fn without_hash(s: Seq<MempoolTxModel>, h: Seq<u8>) -> Seq<MempoolTxModel> {
    match hash_pos(s, h) {
        Some(i) => s.remove(i),
        None => s,
    }
}

/// Filtering out hash `h` drops at least the entry at `j`, which has it.
proof fn lemma_filter_drops(s: Seq<MempoolTxModel>, h: Seq<u8>, j: int)
    requires
        0 <= j < s.len(),
        s[j].hash == h,
    ensures
        s.filter(|t: MempoolTxModel| t.hash != h).len() < s.len(),
    decreases s.len(),
{
    let pred = |t: MempoolTxModel| t.hash != h;
    reveal(Seq::filter);
    assert(s.filter(pred) == (if pred(s.last()) {
        s.drop_last().filter(pred).push(s.last())
    } else {
        s.drop_last().filter(pred)
    }));
    s.drop_last().lemma_filter_len(pred);
    if j < s.len() - 1 {
        assert(s.drop_last()[j] == s[j]);
        lemma_filter_drops(s.drop_last(), h, j);
    }
}

/// How full a mempool of `max_size` holding `size` is, in percent, rounded down and capped
/// at 255 (a mempool of no size is empty at 0 and full at 255).
pub open spec fn capacity_spec(size: u64, max_size: usize) -> u8 {
    if max_size == 0 {
        if size == 0 { 0 } else { 255 }
    } else {
        let p = (size as int * 100) / (max_size as int);
        if p > 255 { 255 } else { p as u8 }
    }
}

/// A transaction mempool that hands out transactions by priority.
pub struct Mempool {
    transactions: Vec<MempoolTransaction>,
    queue: Vec<MempoolTransaction>,
    max_size: usize,
    current_size: u64,
    nonce_counter: u64,
}

impl Mempool {
    /// The stored transactions, in the order their hashes were first stored.
    pub closed spec fn txs(&self) -> Seq<MempoolTxModel> {
        self.transactions@.map_values(|t: MempoolTransaction| t@)
    }

    /// The queue's transactions, in the order they were queued.
    pub closed spec fn queue(&self) -> Seq<MempoolTxModel> {
        self.queue@.map_values(|t: MempoolTransaction| t@)
    }

    pub closed spec fn max_size(&self) -> usize {
        self.max_size
    }

    /// The count of transactions added and not yet taken out.
    pub closed spec fn size_counter(&self) -> u64 {
        self.current_size
    }

    /// The nonce the next transaction gets.
    pub closed spec fn nonce_counter(&self) -> u64 {
        self.nonce_counter
    }

    /// No hash is stored twice.
    pub closed spec fn keys_ok(&self) -> bool {
        forall|i: int, j: int| 0 <= i < j < self.transactions@.len() ==> (#[trigger] self.transactions@[i]).hash@
            != (#[trigger] self.transactions@[j]).hash@
    }

    /// Whether a transaction with hash `h` is queued.
    pub closed spec fn queued(&self, h: Seq<u8>) -> bool {
        exists|j: int| 0 <= j < self.queue().len() && (#[trigger] self.queue()[j]).hash == h
    }

    /// No hash is stored twice, every stored transaction is queued, the queue is no longer
    /// than the count, and the count stays within the capacity.
    pub closed spec fn wf(&self) -> bool {
        &&& self.keys_ok()
        &&& self.queue@.len() <= self.current_size
        &&& self.current_size <= self.max_size as u64
        &&& forall|i: int| 0 <= i < self.txs().len() ==> #[trigger] self.queued(self.txs()[i].hash)
    }

    pub fn new(max_size: usize) -> (m: Self)
        ensures
            m.wf(),
            m.txs() == Seq::<MempoolTxModel>::empty(),
            m.queue() == Seq::<MempoolTxModel>::empty(),
            m.max_size() == max_size,
            m.size_counter() == 0,
            m.nonce_counter() == 0,
    {
        let m = Mempool { transactions: Vec::new(), queue: Vec::new(), max_size, current_size: 0, nonce_counter: 0 };
        assert(m.txs() =~= Seq::<MempoolTxModel>::empty());
        assert(m.queue() =~= Seq::<MempoolTxModel>::empty());
        m
    }

    fn find_hash(&self, h: &crate::hash_utils::Hash) -> (r: Option<usize>)
        ensures
            match r {
                Some(i) => hash_pos(self.txs(), h@) == Some(i as int) && (i as int) < self.txs().len(),
                None => hash_pos(self.txs(), h@) is None,
            },
    {
        let ghost pred = |t: MempoolTxModel| t.hash == h@;
        let mut i: usize = 0;
        while i < self.transactions.len()
            invariant
                0 <= i <= self.transactions@.len(),
                pred == (|t: MempoolTxModel| t.hash == h@),
                forall|j: int| 0 <= j < i ==> !pred(#[trigger] self.txs()[j]),
            decreases self.transactions@.len() - i,
        {
            if self.transactions[i].hash == *h {
                proof {
                    lemma_find_first_at(self.txs(), pred, i as int);
                }
                return Some(i);
            }
            i = i + 1;
        }
        proof {
            lemma_find_first(self.txs(), pred);
        }
        None
    }

    /// Store `t`, replacing the transaction with the same hash in its place.
    fn store(&mut self, t: MempoolTransaction)
        requires
            old(self).keys_ok(),
        ensures
            final(self).keys_ok(),
            final(self).txs() == stored_tx(old(self).txs(), t@),
            final(self).queue() == old(self).queue(),
            final(self).max_size() == old(self).max_size(),
            final(self).size_counter() == old(self).size_counter(),
            final(self).nonce_counter() == old(self).nonce_counter(),
    {
        let ghost tv = t@;
        let ghost s0 = self.transactions@;
        match self.find_hash(&t.hash) {
            Some(i) => {
                self.transactions.set(i, t);
                assert(self.txs() =~= s0.map_values(|t: MempoolTransaction| t@).update(i as int, tv));
                assert forall|a: int, b: int| 0 <= a < b < self.transactions@.len() implies (#[trigger] self.transactions@[a]).hash@
                    != (#[trigger] self.transactions@[b]).hash@ by {
                    if a != i && b != i {
                    } else if a == i {
                        assert(s0.map_values(|t: MempoolTransaction| t@)[a].hash == tv.hash);
                    } else {
                        assert(s0.map_values(|t: MempoolTransaction| t@)[b].hash == tv.hash);
                    }
                }
            },
            None => {
                proof {
                    lemma_find_first_none(s0.map_values(|t: MempoolTransaction| t@), |x: MempoolTxModel| x.hash == tv.hash);
                }
                self.transactions.push(t);
                assert(self.txs() =~= s0.map_values(|t: MempoolTransaction| t@).push(tv));
                assert forall|a: int, b: int| 0 <= a < b < self.transactions@.len() implies (#[trigger] self.transactions@[a]).hash@
                    != (#[trigger] self.transactions@[b]).hash@ by {
                    if b == s0.len() {
                        assert(s0.map_values(|t: MempoolTransaction| t@)[a] == s0[a]@);
                    }
                }
            },
        }
    }

    /// Take out the stored transaction with hash `h`, if any.
    fn take(&mut self, h: &crate::hash_utils::Hash) -> (r: Option<MempoolTransaction>)
        requires
            old(self).keys_ok(),
        ensures
            final(self).keys_ok(),
            final(self).txs() == without_hash(old(self).txs(), h@),
            match r {
                Some(t) => hash_pos(old(self).txs(), h@) matches Some(i) && t@ == old(self).txs()[i],
                None => hash_pos(old(self).txs(), h@) is None && *final(self) == *old(self),
            },
            final(self).queue() == old(self).queue(),
            final(self).max_size() == old(self).max_size(),
            final(self).size_counter() == old(self).size_counter(),
            final(self).nonce_counter() == old(self).nonce_counter(),
    {
        let ghost s0 = self.transactions@;
        match self.find_hash(h) {
            Some(i) => {
                let t = self.transactions.remove(i);
                assert(self.txs() =~= s0.map_values(|t: MempoolTransaction| t@).remove(i as int));
                assert forall|a: int, b: int| 0 <= a < b < self.transactions@.len() implies (#[trigger] self.transactions@[a]).hash@
                    != (#[trigger] self.transactions@[b]).hash@ by {
                    if a < i {
                        if b >= i {
                            assert(self.transactions@[b] == s0[b + 1]);
                        }
                    } else {
                        assert(self.transactions@[a] == s0[a + 1]);
                        assert(self.transactions@[b] == s0[b + 1]);
                    }
                }
                Some(t)
            },
            None => None,
        }
    }

    /// The count never passes the capacity, and the queue never outgrows the count.
    pub proof fn lemma_within_capacity(&self)
        requires
            self.wf(),
        ensures
            self.size_counter() <= self.max_size(),
            self.queue().len() <= self.size_counter(),
    {
    }

    /// The transaction a successful add at time `now` creates.
    pub open spec fn added_spec(&self, tx: Seq<u8>, sender: Option<[u8; 32]>, priority: Priority, fee: u64, now: u64) -> MempoolTxModel {
        MempoolTxModel {
            transaction: tx,
            hash: crate::hash_utils::sha256_spec(tx),
            priority,
            fee,
            timestamp: now,
            nonce: self.nonce_counter(),
            sender: match sender {
                Some(k) => Some(k@),
                None => None,
            },
        }
    }

    /// Add a transaction, given in its binary layout with its sender's key, at time `now`;
    /// refused when the mempool is full. It is hashed with SHA-256, gets the next nonce, is
    /// stored under its hash (replacing one with the same hash) and queued.
    pub fn add_transaction_at(&mut self, transaction: Vec<u8>, sender: Option<[u8; 32]>, priority: Priority, fee: u64, now: u64) -> (r: Result<crate::hash_utils::Hash, MempoolError>)
        requires
            old(self).wf(),
        ensures
            final(self).wf(),
            old(self).size_counter() >= old(self).max_size() ==> r == Err::<crate::hash_utils::Hash, MempoolError>(MempoolError::MempoolFull)
                && *final(self) == *old(self),
            old(self).size_counter() < old(self).max_size() ==> {
                let t = old(self).added_spec(transaction@, sender, priority, fee, now);
                &&& r matches Ok(h) && h@ == t.hash
                &&& final(self).txs() == stored_tx(old(self).txs(), t)
                &&& final(self).queue() == old(self).queue().push(t)
                &&& final(self).size_counter() == old(self).size_counter().wrapping_add(1)
                &&& final(self).nonce_counter() == old(self).nonce_counter().wrapping_add(1)
                &&& final(self).max_size() == old(self).max_size()
            },
    {
        if self.current_size >= self.max_size as u64 {
            return Err(MempoolError::MempoolFull);
        }
        let mut hasher = crate::hash_utils::Hasher::new();
        hasher.update(transaction.as_slice());
        let hash = hasher.finalize();
        let nonce = self.nonce_counter;
        self.nonce_counter = self.nonce_counter.wrapping_add(1);
        let t = MempoolTransaction { transaction, hash, priority, fee, timestamp: now, nonce, sender };
        let queued = t.duplicate();
        let ghost tv = t@;
        let ghost q0 = self.queue@;
        self.store(t);
        self.queue.push(queued);
        assert(self.queue() =~= q0.map_values(|t: MempoolTransaction| t@).push(tv));
        self.current_size = self.current_size.wrapping_add(1);
        proof {
            let oq = old(self).queue();
            let q = self.queue();
            crate::util::lemma_find_first(old(self).txs(), |x: MempoolTxModel| x.hash == tv.hash);
            assert forall|k: int| 0 <= k < self.txs().len() implies #[trigger] self.queued(self.txs()[k].hash) by {
                if self.txs()[k].hash == tv.hash {
                    assert(q[q.len() - 1] == tv);
                } else {
                    assert(self.txs()[k] == old(self).txs()[k]);
                    assert(old(self).queued(old(self).txs()[k].hash));
                    let j = choose|j: int| 0 <= j < oq.len() && (#[trigger] oq[j]).hash == old(self).txs()[k].hash;
                    assert(q[j] == oq[j]);
                }
            }
        }
        Ok(hash)
    }

    /// Add a transaction now, by the wall clock (see `add_transaction_at`).
    pub fn add_transaction(&mut self, transaction: Vec<u8>, sender: Option<[u8; 32]>, priority: Priority, fee: u64) -> (r: Result<crate::hash_utils::Hash, MempoolError>)
        requires
            old(self).wf(),
        ensures
            final(self).wf(),
            old(self).size_counter() >= old(self).max_size() ==> r == Err::<crate::hash_utils::Hash, MempoolError>(MempoolError::MempoolFull)
                && *final(self) == *old(self),
            old(self).size_counter() < old(self).max_size() ==> exists|now: u64| {
                let t = #[trigger] old(self).added_spec(transaction@, sender, priority, fee, now);
                &&& r matches Ok(h) && h@ == t.hash
                &&& final(self).txs() == stored_tx(old(self).txs(), t)
                &&& final(self).queue() == old(self).queue().push(t)
                &&& final(self).size_counter() == old(self).size_counter().wrapping_add(1)
                &&& final(self).nonce_counter() == old(self).nonce_counter().wrapping_add(1)
                &&& final(self).max_size() == old(self).max_size()
            },
    {
        let now = now_secs();
        self.add_transaction_at(transaction, sender, priority, fee, now)
    }

    /// The position of the first queued transaction that nothing goes before, if any.
    fn find_next(&self) -> (r: Option<usize>)
        ensures
            match r {
                Some(i) => next_pos(self.queue()) == Some(i as int) && (i as int) < self.queue().len(),
                None => next_pos(self.queue()) is None && self.queue().len() == 0,
            },
    {
        let ghost s = self.queue();
        let ghost pred = |t: MempoolTxModel| forall|j: int| 0 <= j < s.len() ==> !goes_before(#[trigger] s[j], t);
        if self.queue.len() == 0 {
            proof {
                lemma_find_first(s, pred);
            }
            return None;
        }
        let mut best: usize = 0;
        let mut i: usize = 1;
        while i < self.queue.len()
            invariant
                s == self.queue(),
                1 <= i <= s.len(),
                best < i,
                forall|j: int| 0 <= j < i ==> !goes_before(#[trigger] s[j], s[best as int]),
                forall|j: int| 0 <= j < best ==> goes_before(s[best as int], #[trigger] s[j]),
            decreases s.len() - i,
        {
            let a = &self.queue[i];
            let b = &self.queue[best];
            let ra = rank_of(a.priority);
            let rb = rank_of(b.priority);
            let before = ra > rb || (ra == rb && a.fee > b.fee) || (ra == rb && a.fee == b.fee && a.timestamp < b.timestamp);
            assert(before == goes_before(s[i as int], s[best as int]));
            if before {
                best = i;
            }
            i = i + 1;
        }
        proof {
            assert(pred(s[best as int]));
            assert forall|j: int| 0 <= j < best implies !pred(#[trigger] s[j]) by {
                assert(goes_before(s[best as int], s[j]));
            }
            lemma_find_first_at(s, pred, best as int);
        }
        Some(best)
    }

    /// Take the next transaction: the first queued one that nothing goes before (see
    /// `goes_before`). It leaves the queue and the store, and the count goes down by one
    /// (wrapping). Nothing happens with an empty queue.
    pub fn pop_transaction(&mut self) -> (r: Option<MempoolTransaction>)
        requires
            old(self).wf(),
        ensures
            final(self).wf(),
            old(self).queue().len() == 0 ==> r is None && *final(self) == *old(self),
            old(self).queue().len() > 0 ==> (next_pos(old(self).queue()) matches Some(i) && {
                let t = old(self).queue()[i];
                &&& 0 <= i < old(self).queue().len()
                &&& r matches Some(x) && x@ == t
                &&& final(self).queue() == old(self).queue().remove(i)
                &&& final(self).txs() == without_hash(old(self).txs(), t.hash)
                &&& final(self).size_counter() == old(self).size_counter().wrapping_sub(1)
            }),
            final(self).max_size() == old(self).max_size(),
            final(self).nonce_counter() == old(self).nonce_counter(),
    {
        let ghost q = self.queue();
        let i = match self.find_next() {
            None => return None,
            Some(i) => i,
        };
        let t = self.queue.remove(i);
        assert(self.queue() =~= q.remove(i as int));
        let ghost tx0 = old(self).txs();
        let ghost h = t@.hash;
        assert(q[i as int] == t@);
        let _ = self.take(&t.hash);
        self.current_size = self.current_size.wrapping_sub(1);
        proof {
            crate::util::lemma_find_first(tx0, |x: MempoolTxModel| x.hash == h);
            let nq = self.queue();
            assert forall|k: int| 0 <= k < self.txs().len() implies #[trigger] self.queued(self.txs()[k].hash) by {
                let x = self.txs()[k];
                let k0 = match hash_pos(tx0, h) {
                    Some(p) => if k < p { k } else { k + 1 },
                    None => k,
                };
                assert(x == tx0[k0]);
                match hash_pos(tx0, h) {
                    Some(p) => {
                        assert(old(self).transactions@[k0].hash@ != old(self).transactions@[p].hash@);
                    },
                    None => {},
                }
                assert(x.hash != h);
                assert(old(self).queued(tx0[k0].hash));
                let j = choose|j: int| 0 <= j < q.len() && (#[trigger] q[j]).hash == tx0[k0].hash;
                assert(j != i);
                if j < i {
                    assert(nq[j] == q[j]);
                } else {
                    assert(nq[j - 1] == q[j]);
                }
            }
        }
        Some(t)
    }

    /// Take up to `count` transactions, one after another as `pop_transaction` does, stopping
    /// when the queue runs out.
    pub fn pop_transactions(&mut self, count: usize) -> (r: Vec<MempoolTransaction>)
        requires
            old(self).wf(),
        ensures
            final(self).wf(),
            r@.len() == if count < old(self).queue().len() { count as int } else { old(self).queue().len() as int },
            final(self).queue().len() == old(self).queue().len() - r@.len(),
            forall|k: int| 0 <= k < r@.len() ==> (#[trigger] r@[k])@.priority == r@[k].priority,
            final(self).max_size() == old(self).max_size(),
            final(self).nonce_counter() == old(self).nonce_counter(),
    {
        let mut out: Vec<MempoolTransaction> = Vec::new();
        let mut k: usize = 0;
        while k < count
            invariant
                self.wf(),
                0 <= k <= count,
                out@.len() == k,
                k <= old(self).queue().len(),
                self.queue().len() == old(self).queue().len() - k,
                self.max_size() == old(self).max_size(),
                self.nonce_counter() == old(self).nonce_counter(),
            ensures
                self.wf(),
                out@.len() == k,
                k <= old(self).queue().len(),
                self.queue().len() == old(self).queue().len() - k,
                k == count || self.queue().len() == 0,
                self.max_size() == old(self).max_size(),
                self.nonce_counter() == old(self).nonce_counter(),
            decreases count - k,
        {
            if self.queue.len() == 0 {
                assert(self.queue().len() == 0);
                break;
            }
            assert(self.queue().len() > 0);
            match self.pop_transaction() {
                Some(t) => {
                    out.push(t);
                },
                None => {
                    break;
                },
            }
            k = k + 1;
        }
        out
    }

    /// A copy of the stored transaction with `hash`, if any.
    pub fn get_transaction(&self, hash: &crate::hash_utils::Hash) -> (r: Option<MempoolTransaction>)
        ensures
            match r {
                Some(t) => hash_pos(self.txs(), hash@) matches Some(i) && t@ == self.txs()[i],
                None => hash_pos(self.txs(), hash@) is None,
            },
    {
        match self.find_hash(hash) {
            Some(i) => Some(self.transactions[i].duplicate()),
            None => None,
        }
    }

    /// Take out the stored transaction with `hash`: it leaves the store and every queued
    /// copy leaves the queue, and the count goes down by one (wrapping); nothing happens for
    /// an unknown hash.
    pub fn remove_transaction(&mut self, hash: &crate::hash_utils::Hash) -> (r: Option<MempoolTransaction>)
        requires
            old(self).wf(),
        ensures
            final(self).wf(),
            hash_pos(old(self).txs(), hash@) is None ==> r is None && *final(self) == *old(self),
            hash_pos(old(self).txs(), hash@) matches Some(i) ==> {
                &&& r matches Some(t) && t@ == old(self).txs()[i]
                &&& final(self).txs() == old(self).txs().remove(i)
                &&& final(self).queue() == old(self).queue().filter(|t: MempoolTxModel| t.hash != hash@)
                &&& final(self).size_counter() == old(self).size_counter().wrapping_sub(1)
            },
            final(self).max_size() == old(self).max_size(),
            final(self).nonce_counter() == old(self).nonce_counter(),
    {
        let t = match self.take(hash) {
            None => return None,
            Some(t) => t,
        };
        self.current_size = self.current_size.wrapping_sub(1);
        let ghost q0 = self.queue();
        let ghost pred = |t: MempoolTxModel| t.hash != hash@;
        let mut rest: Vec<MempoolTransaction> = Vec::new();
        std::mem::swap(&mut rest, &mut self.queue);
        let n = rest.len();
        let mut kept: Vec<MempoolTransaction> = Vec::new();
        let mut i: usize = 0;
        while i < n
            invariant
                n == q0.len(),
                0 <= i <= n,
                pred == (|t: MempoolTxModel| t.hash != hash@),
                rest@.len() == n - i,
                rest@.map_values(|t: MempoolTransaction| t@) == q0.subrange(i as int, n as int),
                kept@.map_values(|t: MempoolTransaction| t@) == q0.subrange(0, i as int).filter(pred),
            decreases n - i,
        {
            let ghost r0 = rest@;
            let e = rest.remove(0);
            assert(r0.map_values(|t: MempoolTransaction| t@)[0] == e@);
            assert(e@ == q0[i as int]);
            let ghost rm = rest@.map_values(|t: MempoolTransaction| t@);
            let ghost r0m = r0.map_values(|t: MempoolTransaction| t@);
            assert forall|j: int| 0 <= j < rm.len() implies #[trigger] rm[j] == q0.subrange(i + 1, n as int)[j] by {
                assert(rest@[j] == r0[j + 1]);
                assert(r0m[j + 1] == q0.subrange(i as int, n as int)[j + 1]);
            }
            assert(rest@.map_values(|t: MempoolTransaction| t@) =~= q0.subrange(i + 1, n as int));
            assert(q0.subrange(0, i + 1) =~= q0.subrange(0, i as int).push(q0[i as int]));
            proof {
                q0.subrange(0, i as int).lemma_filter_push(q0[i as int], pred);
            }
            if !(e.hash == *hash) {
                let ghost k0 = kept@;
                kept.push(e);
                assert(kept@.map_values(|t: MempoolTransaction| t@) =~= k0.map_values(|t: MempoolTransaction| t@).push(e@));
            }
            i = i + 1;
        }
        assert(q0.subrange(0, n as int) =~= q0);
        self.queue = kept;
        proof {
            let tx0 = old(self).txs();
            let h = hash@;
            crate::util::lemma_find_first(tx0, |x: MempoolTxModel| x.hash == h);
            let p = hash_pos(tx0, h)->Some_0;
            assert(old(self).queued(tx0[p].hash));
            let jp = choose|j: int| 0 <= j < q0.len() && (#[trigger] q0[j]).hash == tx0[p].hash;
            lemma_filter_drops(q0, h, jp);
            let nq = self.queue();
            assert(nq == q0.filter(pred));
            assert forall|k: int| 0 <= k < self.txs().len() implies #[trigger] self.queued(self.txs()[k].hash) by {
                let k0 = if k < p { k } else { k + 1 };
                let x = self.txs()[k];
                assert(x == tx0[k0]);
                assert(old(self).transactions@[k0].hash@ != old(self).transactions@[p].hash@);
                assert(old(self).queued(tx0[k0].hash));
                let j = choose|j: int| 0 <= j < q0.len() && (#[trigger] q0[j]).hash == tx0[k0].hash;
                assert(pred(q0[j]));
                q0.lemma_filter_contains(pred, j);
                assert(nq.contains(q0[j]));
                let j2 = choose|j2: int| 0 <= j2 < nq.len() && nq[j2] == q0[j];
                assert(nq[j2].hash == x.hash);
            }
        }
        Some(t)
    }

    /// How many transactions the count holds.
    pub fn size(&self) -> (n: usize)
        ensures
            n == self.size_counter() as usize,
    {
        self.current_size as usize
    }

    /// Empty the store and the queue.
    pub fn clear(&mut self)
        ensures
            final(self).wf(),
            final(self).txs() == Seq::<MempoolTxModel>::empty(),
            final(self).queue() == Seq::<MempoolTxModel>::empty(),
            final(self).size_counter() == 0,
            final(self).max_size() == old(self).max_size(),
            final(self).nonce_counter() == old(self).nonce_counter(),
    {
        self.transactions.clear();
        self.queue.clear();
        self.current_size = 0;
        assert(self.txs() =~= Seq::<MempoolTxModel>::empty());
        assert(self.queue() =~= Seq::<MempoolTxModel>::empty());
    }

    /// Copies of the stored transactions of `priority`, in order, at most `limit` of them.
    pub fn get_by_priority(&self, priority: Priority, limit: usize) -> (r: Vec<MempoolTransaction>)
        ensures
            ({
                let found = self.txs().filter(|t: MempoolTxModel| t.priority == priority);
                r@.map_values(|t: MempoolTransaction| t@) == if found.len() > limit { found.take(limit as int) } else { found }
            }),
    {
        let ghost s = self.txs();
        let ghost pred = |t: MempoolTxModel| t.priority == priority;
        let mut r: Vec<MempoolTransaction> = Vec::new();
        let mut i: usize = 0;
        while i < self.transactions.len()
            invariant
                s == self.txs(),
                0 <= i <= s.len(),
                pred == (|t: MempoolTxModel| t.priority == priority),
                r@.len() <= limit,
                r@.len() < limit ==> r@.map_values(|t: MempoolTransaction| t@) == s.take(i as int).filter(pred),
                r@.len() == limit ==> r@.map_values(|t: MempoolTransaction| t@) == s.take(i as int).filter(pred).take(limit as int),
                r@.len() == limit ==> s.take(i as int).filter(pred).len() >= limit,
            decreases s.len() - i,
        {
            let t = &self.transactions[i];
            assert(t@ == s[i as int]);
            proof {
                assert(s.take(i + 1) =~= s.take(i as int).push(t@));
                s.take(i as int).lemma_filter_push(t@, pred);
            }
            if r.len() < limit {
                if t.priority == priority {
                    let ghost r0 = r@;
                    r.push(t.duplicate());
                    assert(r@.map_values(|t: MempoolTransaction| t@) =~= r0.map_values(|t: MempoolTransaction| t@).push(t@));
                    if r.len() == limit {
                        assert(s.take(i + 1).filter(pred).take(limit as int) =~= s.take(i + 1).filter(pred));
                    }
                }
            } else {
                assert(s.take(i + 1).filter(pred).take(limit as int) =~= s.take(i as int).filter(pred).take(limit as int));
            }
            i = i + 1;
        }
        assert(s.take(i as int) =~= s);
        proof {
            let found = s.filter(pred);
            if r@.len() == limit && found.len() == limit {
                assert(found.take(limit as int) =~= found);
            }
        }
        r
    }

    /// The count, how many stored transactions have each priority, and how full the mempool
    /// is (see `capacity_spec`).
    pub fn get_stats(&self) -> (st: MempoolStats)
        ensures
            st.total_transactions == self.size_counter() as usize,
            st.urgent == self.txs().filter(|t: MempoolTxModel| t.priority == Priority::Urgent).len(),
            st.high == self.txs().filter(|t: MempoolTxModel| t.priority == Priority::High).len(),
            st.medium == self.txs().filter(|t: MempoolTxModel| t.priority == Priority::Medium).len(),
            st.low == self.txs().filter(|t: MempoolTxModel| t.priority == Priority::Low).len(),
            st.capacity_used == capacity_spec(self.size_counter(), self.max_size()),
    {
        let ghost s = self.txs();
        let ghost pu = |t: MempoolTxModel| t.priority == Priority::Urgent;
        let ghost ph = |t: MempoolTxModel| t.priority == Priority::High;
        let ghost pm = |t: MempoolTxModel| t.priority == Priority::Medium;
        let ghost pl = |t: MempoolTxModel| t.priority == Priority::Low;
        let mut urgent: usize = 0;
        let mut high: usize = 0;
        let mut medium: usize = 0;
        let mut low: usize = 0;
        let mut i: usize = 0;
        while i < self.transactions.len()
            invariant
                s == self.txs(),
                0 <= i <= s.len(),
                pu == (|t: MempoolTxModel| t.priority == Priority::Urgent),
                ph == (|t: MempoolTxModel| t.priority == Priority::High),
                pm == (|t: MempoolTxModel| t.priority == Priority::Medium),
                pl == (|t: MempoolTxModel| t.priority == Priority::Low),
                urgent == s.take(i as int).filter(pu).len(),
                high == s.take(i as int).filter(ph).len(),
                medium == s.take(i as int).filter(pm).len(),
                low == s.take(i as int).filter(pl).len(),
            decreases s.len() - i,
        {
            let t = &self.transactions[i];
            assert(t@ == s[i as int]);
            proof {
                assert(s.take(i + 1) =~= s.take(i as int).push(t@));
                s.take(i as int).lemma_filter_push(t@, pu);
                s.take(i as int).lemma_filter_push(t@, ph);
                s.take(i as int).lemma_filter_push(t@, pm);
                s.take(i as int).lemma_filter_push(t@, pl);
                s.take(i as int).lemma_filter_len(pu);
                s.take(i as int).lemma_filter_len(ph);
                s.take(i as int).lemma_filter_len(pm);
                s.take(i as int).lemma_filter_len(pl);
            }
            match t.priority {
                Priority::Urgent => {
                    urgent = urgent + 1;
                },
                Priority::High => {
                    high = high + 1;
                },
                Priority::Medium => {
                    medium = medium + 1;
                },
                Priority::Low => {
                    low = low + 1;
                },
            }
            i = i + 1;
        }
        assert(s.take(i as int) =~= s);
        let size = self.current_size;
        let capacity_used: u8 = if self.max_size == 0 {
            if size == 0 { 0 } else { 255 }
        } else {
            let p: u128 = (size as u128) * 100 / (self.max_size as u128);
            if p > 255 { 255 } else { p as u8 }
        };
        MempoolStats {
            total_transactions: size as usize,
            urgent,
            high,
            medium,
            low,
            capacity_used,
        }
    }
}

/// The transaction popped next is one of the best queued: no queued transaction has a higher
/// priority (urgent above high above medium above low); among those of its priority, none
/// pays a higher fee; and among those that also pay the same fee, none arrived earlier.
pub proof fn lemma_next_is_best(q: Seq<MempoolTxModel>)
    ensures
        rank(Priority::Low) < rank(Priority::Medium) < rank(Priority::High) < rank(Priority::Urgent),
        next_pos(q) matches Some(i) ==> 0 <= i < q.len() && forall|j: int|
            0 <= j < q.len() ==> {
                &&& rank(#[trigger] q[j].priority) <= rank(q[i].priority)
                &&& rank(q[j].priority) == rank(q[i].priority) ==> q[j].fee <= q[i].fee
                &&& rank(q[j].priority) == rank(q[i].priority) && q[j].fee == q[i].fee ==> q[j].timestamp
                    >= q[i].timestamp
            },
{
    if next_pos(q) is Some {
        lemma_find_first(q, |t: MempoolTxModel| forall|j: int| 0 <= j < q.len() ==> !goes_before(#[trigger] q[j], t));
        let i = next_pos(q)->Some_0;
        assert forall|j: int| 0 <= j < q.len() implies !goes_before(#[trigger] q[j], q[i]) by {}
    }
}

/// The fill level in percent: an empty mempool is at 0 and a full one at 100; in between it
/// is the percentage rounded down (`p * max <= size * 100 < (p + 1) * max`), capped at 255.
pub proof fn lemma_capacity_percent(size: u64, max_size: usize)
    ensures
        size == 0 ==> capacity_spec(size, max_size) == 0,
        max_size > 0 && size == max_size ==> capacity_spec(size, max_size) == 100,
        max_size > 0 && capacity_spec(size, max_size) < 255 ==> capacity_spec(size, max_size) * max_size <= size * 100
            < (capacity_spec(size, max_size) + 1) * max_size,
        max_size > 0 && size <= max_size ==> capacity_spec(size, max_size) <= 100,
{
    if max_size > 0 {
        crate::util::lemma_floor_div(size * 100, max_size as int);
        if size == max_size {
            assert((size as int * 100) / (max_size as int) == 100) by (nonlinear_arith)
                requires
                    size == max_size,
                    max_size > 0,
            ;
        }
        if size <= max_size {
            assert((size as int * 100) / (max_size as int) <= 100) by (nonlinear_arith)
                requires
                    size <= max_size,
                    max_size > 0,
            ;
        }
    }
}

} // verus!
