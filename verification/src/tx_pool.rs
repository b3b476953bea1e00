use vstd::prelude::*;

use crate::clock::now_secs;
use crate::table::StrMap;
use crate::types::{Transaction, TransactionModel};
use crate::util::{ascending, copy_vec, find_first, lemma_find_first, lemma_find_first_at, sort_u64};

verus! {

#[derive(Debug)]
pub struct PooledTransaction {
    pub tx_hash: crate::hash_utils::Hash,
    pub tx: Transaction,
    pub priority_score: u64,
    pub added_at: u64,
    pub gas_price: u64,
}

#[derive(Debug, Clone, Copy, PartialEq, Eq, Structural)]
pub struct PoolStats {
    pub total_transactions: usize,
    pub avg_gas_price: u64,
    pub max_gas_price: u64,
    pub min_gas_price: u64,
}

#[derive(Debug, Clone, Copy, PartialEq, Eq, Structural)]
pub struct FeeSuggestion {
    pub slow: u64,
    pub standard: u64,
    pub fast: u64,
    pub instant: u64,
    pub base_fee: u64,
}

/// Why a transaction was refused by the pool.
#[derive(Debug, Clone, Copy, PartialEq, Eq, Structural)]
pub enum PoolError {
    AccountLimitExceeded,
}

/// What a pooled transaction holds.
pub struct PooledModel {
    pub tx_hash: Seq<u8>,
    pub tx: TransactionModel,
    pub priority_score: u64,
    pub added_at: u64,
    pub gas_price: u64,
}

impl View for PooledTransaction {
    type V = PooledModel;

    open spec fn view(&self) -> PooledModel {
        PooledModel {
            tx_hash: self.tx_hash@,
            tx: self.tx@,
            priority_score: self.priority_score,
            added_at: self.added_at,
            gas_price: self.gas_price,
        }
    }
}

impl PooledTransaction {
    /// A field-by-field copy.
    pub fn duplicate(&self) -> (r: PooledTransaction)
        ensures
            r@ == self@,
    {
        PooledTransaction {
            tx_hash: self.tx_hash,
            tx: self.tx.duplicate(),
            priority_score: self.priority_score,
            added_at: self.added_at,
            gas_price: self.gas_price,
        }
    }
}

/// The position of the entry with hash `h`, if any.
pub open spec fn pool_pos(s: Seq<PooledModel>, h: Seq<u8>) -> Option<int> {
    find_first(s, |p: PooledModel| p.tx_hash == h)
}

/// The first entry of lowest priority.
pub open spec fn min_pos(s: Seq<PooledModel>) -> Option<int> {
    find_first(s, |p: PooledModel| forall|j: int| 0 <= j < s.len() ==> p.priority_score <= #[trigger] s[j].priority_score)
}

/// The first entry of highest priority.
pub open spec fn max_pos(s: Seq<PooledModel>) -> Option<int> {
    find_first(s, |p: PooledModel| forall|j: int| 0 <= j < s.len() ==> p.priority_score >= #[trigger] s[j].priority_score)
}

/// The pool once room is made: when it is full, its first entry of lowest priority goes.
pub open spec fn after_evict(pool: Seq<PooledModel>, max_pool_size: usize) -> Seq<PooledModel> {
    if pool.len() >= max_pool_size {
        match min_pos(pool) {
            Some(i) => pool.remove(i),
            None => pool,
        }
    } else {
        pool
    }
}

/// How many entries `from` sent.
pub open spec fn count_from(pool: Seq<PooledModel>, from: Seq<char>) -> nat {
    pool.filter(|p: PooledModel| p.tx.from == from).len()
}

/// Whether `nonce` is the one expected next from `from`: one past the last seen, or 0 for
/// a sender not seen yet.
pub open spec fn next_nonce(tracker: Map<Seq<char>, u64>, from: Seq<char>, nonce: u64) -> bool {
    if tracker.dom().contains(from) {
        tracker[from] + 1 == nonce
    } else {
        nonce == 0
    }
}

/// A transaction's priority: its fee per gas times 1000, 10000 more when its nonce is the
/// next expected, less a tenth of its data length.
pub open spec fn priority_spec(tracker: Map<Seq<char>, u64>, tx: TransactionModel) -> int {
    tx.max_fee_per_gas * 1000 + (if next_nonce(tracker, tx.from, tx.nonce) { 10000int } else { 0 }) - tx.data.len() / 10
}

/// The pool after `p` is inserted: it replaces an entry with the same hash in its place, or
/// else goes last.
pub open spec fn pool_insert(pool: Seq<PooledModel>, p: PooledModel) -> Seq<PooledModel> {
    match pool_pos(pool, p.tx_hash) {
        Some(i) => pool.update(i, p),
        None => pool.push(p),
    }
}

/// Popping `k` times from the queue: each time its first entry of highest priority leaves,
/// and, if an entry with its hash is still pooled, that entry leaves the pool and the
/// transaction is given out.
#[verifier::opaque]
pub open spec fn pop_spec(q: Seq<PooledModel>, pool: Seq<PooledModel>, k: nat) -> (Seq<PooledModel>, Seq<PooledModel>, Seq<TransactionModel>)
    decreases k,
{
    if k == 0 {
        (q, pool, Seq::empty())
    } else {
        match max_pos(q) {
            None => (q, pool, Seq::empty()),
            Some(i) => {
                let p = q[i];
                let q1 = q.remove(i);
                let (pool1, out1) = match pool_pos(pool, p.tx_hash) {
                    Some(j) => (pool.remove(j), seq![p.tx]),
                    None => (pool, Seq::<TransactionModel>::empty()),
                };
                let t = pop_spec(q1, pool1, (k - 1) as nat);
                (t.0, t.1, out1 + t.2)
            },
        }
    }
}

/// The gas prices added up.
pub open spec fn gas_price_sum(s: Seq<PooledModel>) -> nat
    decreases s.len(),
{
    if s.len() == 0 {
        0
    } else {
        gas_price_sum(s.drop_last()) + s.last().gas_price as nat
    }
}

/// A pool of pending transactions, ordered for inclusion by priority.
pub struct TransactionPool {
    pool: Vec<PooledTransaction>,
    priority_queue: Vec<PooledTransaction>,
    nonce_tracker: StrMap<u64>,
    max_pool_size: usize,
    max_per_account: usize,
}

impl TransactionPool {
    /// The pooled transactions, in the order their hashes were first pooled.
    pub closed spec fn pool(&self) -> Seq<PooledModel> {
        self.pool@.map_values(|p: PooledTransaction| p@)
    }

    /// The priority queue's entries, in the order they were pushed (popped ones gone).
    pub closed spec fn queue(&self) -> Seq<PooledModel> {
        self.priority_queue@.map_values(|p: PooledTransaction| p@)
    }

    /// The last nonce seen from each sender.
    pub closed spec fn nonces(&self) -> Map<Seq<char>, u64> {
        self.nonce_tracker@
    }

    pub closed spec fn max_pool_size(&self) -> usize {
        self.max_pool_size
    }

    pub closed spec fn max_per_account(&self) -> usize {
        self.max_per_account
    }

    pub closed spec fn wf(&self) -> bool {
        &&& self.nonce_tracker.wf()
        &&& forall|i: int, j: int| 0 <= i < j < self.pool@.len() ==> (#[trigger] self.pool@[i]).tx_hash@
            != (#[trigger] self.pool@[j]).tx_hash@
    }

    pub fn new(max_pool_size: usize, max_per_account: usize) -> (p: Self)
        ensures
            p.wf(),
            p.pool() == Seq::<PooledModel>::empty(),
            p.queue() == Seq::<PooledModel>::empty(),
            p.nonces() == Map::<Seq<char>, u64>::empty(),
            p.max_pool_size() == max_pool_size,
            p.max_per_account() == max_per_account,
    {
        let p = TransactionPool {
            pool: Vec::new(),
            priority_queue: Vec::new(),
            nonce_tracker: StrMap::new(),
            max_pool_size,
            max_per_account,
        };
        assert(p.pool() =~= Seq::<PooledModel>::empty());
        assert(p.queue() =~= Seq::<PooledModel>::empty());
        p
    }

    /// Whether adding `tx` is refused: once room is made, its sender already has the most
    /// entries allowed.
    pub open spec fn refused(&self, tx: TransactionModel) -> bool {
        count_from(after_evict(self.pool(), self.max_pool_size()), tx.from) >= self.max_per_account()
    }

    /// The priority of an accepted transaction fits in 64 bits, never going below zero.
    pub open spec fn add_fits(&self, tx: TransactionModel) -> bool {
        !self.refused(tx) ==> {
            &&& self.nonces().dom().contains(tx.from) ==> self.nonces()[tx.from] < u64::MAX
            &&& tx.max_fee_per_gas * 1000 + 10000 <= u64::MAX
            &&& priority_spec(self.nonces(), tx) >= 0
        }
    }

    /// The entry an accepted `tx` gets at time `now`.
    pub open spec fn pooled_spec(&self, tx: Transaction, now: u64) -> PooledModel {
        PooledModel {
            tx_hash: tx.hash_spec(),
            tx: tx@,
            priority_score: priority_spec(self.nonces(), tx@) as u64,
            added_at: now,
            gas_price: tx.max_fee_per_gas,
        }
    }

    /// The position of the first entry of lowest priority, if any.
    fn find_min(&self) -> (r: Option<usize>)
        ensures
            match r {
                Some(i) => min_pos(self.pool()) == Some(i as int) && (i as int) < self.pool().len(),
                None => min_pos(self.pool()) is None && self.pool().len() == 0,
            },
    {
        let ghost s = self.pool();
        let ghost pred = |p: PooledModel| forall|j: int| 0 <= j < s.len() ==> p.priority_score <= #[trigger] s[j].priority_score;
        if self.pool.len() == 0 {
            proof {
                lemma_find_first(s, pred);
            }
            return None;
        }
        let mut best: usize = 0;
        let mut i: usize = 1;
        while i < self.pool.len()
            invariant
                s == self.pool(),
                1 <= i <= s.len(),
                best < i,
                forall|j: int| 0 <= j < i ==> s[best as int].priority_score <= #[trigger] s[j].priority_score,
                forall|j: int| 0 <= j < best ==> s[j].priority_score > #[trigger] s[best as int].priority_score,
            decreases s.len() - i,
        {
            if self.pool[i].priority_score < self.pool[best].priority_score {
                best = i;
            }
            i = i + 1;
        }
        proof {
            assert(pred(s[best as int]));
            assert forall|j: int| 0 <= j < best implies !pred(#[trigger] s[j]) by {
                assert(s[j].priority_score > s[best as int].priority_score);
            }
            lemma_find_first_at(s, pred, best as int);
        }
        Some(best)
    }

    /// The position of the first queue entry of highest priority, if any.
    fn find_max_queued(&self) -> (r: Option<usize>)
        ensures
            match r {
                Some(i) => max_pos(self.queue()) == Some(i as int) && (i as int) < self.queue().len(),
                None => max_pos(self.queue()) is None && self.queue().len() == 0,
            },
    {
        let ghost s = self.queue();
        let ghost pred = |p: PooledModel| forall|j: int| 0 <= j < s.len() ==> p.priority_score >= #[trigger] s[j].priority_score;
        if self.priority_queue.len() == 0 {
            proof {
                lemma_find_first(s, pred);
            }
            return None;
        }
        let mut best: usize = 0;
        let mut i: usize = 1;
        while i < self.priority_queue.len()
            invariant
                s == self.queue(),
                1 <= i <= s.len(),
                best < i,
                forall|j: int| 0 <= j < i ==> s[best as int].priority_score >= #[trigger] s[j].priority_score,
                forall|j: int| 0 <= j < best ==> s[j].priority_score < #[trigger] s[best as int].priority_score,
            decreases s.len() - i,
        {
            if self.priority_queue[i].priority_score > self.priority_queue[best].priority_score {
                best = i;
            }
            i = i + 1;
        }
        proof {
            assert(pred(s[best as int]));
            assert forall|j: int| 0 <= j < best implies !pred(#[trigger] s[j]) by {
                assert(s[j].priority_score < s[best as int].priority_score);
            }
            lemma_find_first_at(s, pred, best as int);
        }
        Some(best)
    }

    fn find_hash(&self, h: &crate::hash_utils::Hash) -> (r: Option<usize>)
        ensures
            match r {
                Some(i) => pool_pos(self.pool(), h@) == Some(i as int) && (i as int) < self.pool().len(),
                None => pool_pos(self.pool(), h@) is None,
            },
    {
        let ghost pred = |p: PooledModel| p.tx_hash == h@;
        let mut i: usize = 0;
        while i < self.pool.len()
            invariant
                0 <= i <= self.pool@.len(),
                pred == (|p: PooledModel| p.tx_hash == h@),
                forall|j: int| 0 <= j < i ==> !pred(#[trigger] self.pool()[j]),
            decreases self.pool@.len() - i,
        {
            if self.pool[i].tx_hash == *h {
                proof {
                    lemma_find_first_at(self.pool(), pred, i as int);
                }
                return Some(i);
            }
            i = i + 1;
        }
        proof {
            lemma_find_first(self.pool(), pred);
        }
        None
    }

    /// Remove the pool entry at `i`.
    fn remove_at(&mut self, i: usize)
        requires
            old(self).wf(),
            i < old(self).pool().len(),
        ensures
            final(self).wf(),
            final(self).pool() == old(self).pool().remove(i as int),
            final(self).queue() == old(self).queue(),
            final(self).nonces() == old(self).nonces(),
            final(self).max_pool_size() == old(self).max_pool_size(),
            final(self).max_per_account() == old(self).max_per_account(),
    {
        let ghost s0 = self.pool@;
        self.pool.remove(i);
        assert(self.pool() =~= s0.map_values(|p: PooledTransaction| p@).remove(i as int));
        assert forall|a: int, b: int| 0 <= a < b < self.pool@.len() implies (#[trigger] self.pool@[a]).tx_hash@
            != (#[trigger] self.pool@[b]).tx_hash@ by {
            if a < i {
                if b < i {
                } else {
                    assert(self.pool@[b] == s0[b + 1]);
                }
            } else {
                assert(self.pool@[a] == s0[a + 1]);
                assert(self.pool@[b] == s0[b + 1]);
            }
        }
    }

    /// Make room when the pool is full: its first entry of lowest priority goes.
    fn evict_lowest_priority(&mut self)
        requires
            old(self).wf(),
        ensures
            final(self).wf(),
            final(self).pool() == match min_pos(old(self).pool()) {
                Some(i) => old(self).pool().remove(i),
                None => old(self).pool(),
            },
            final(self).queue() == old(self).queue(),
            final(self).nonces() == old(self).nonces(),
            final(self).max_pool_size() == old(self).max_pool_size(),
            final(self).max_per_account() == old(self).max_per_account(),
    {
        match self.find_min() {
            Some(i) => self.remove_at(i),
            None => {},
        }
    }

    /// How many entries `from` sent.
    fn count_from(&self, from: &String) -> (n: usize)
        ensures
            n == count_from(self.pool(), from@),
    {
        let ghost s = self.pool();
        let ghost pred = |p: PooledModel| p.tx.from == from@;
        let mut n: usize = 0;
        let mut i: usize = 0;
        while i < self.pool.len()
            invariant
                s == self.pool(),
                0 <= i <= s.len(),
                pred == (|p: PooledModel| p.tx.from == from@),
                n == s.take(i as int).filter(pred).len(),
            decreases s.len() - i,
        {
            proof {
                assert(s.take(i + 1) =~= s.take(i as int).push(s[i as int]));
                s.take(i as int).lemma_filter_push(s[i as int], pred);
                s.take(i as int).lemma_filter_len(pred);
            }
            if self.pool[i].tx.from == *from {
                n = n + 1;
            }
            i = i + 1;
        }
        assert(s.take(i as int) =~= s);
        n
    }

    /// The priority of `tx` (see `priority_spec`).
    fn calculate_priority(&self, tx: &Transaction) -> (p: u64)
        requires
            self.wf(),
            self.nonces().dom().contains(tx.from@) ==> self.nonces()[tx.from@] < u64::MAX,
            tx.max_fee_per_gas * 1000 + 10000 <= u64::MAX,
            priority_spec(self.nonces(), tx@) >= 0,
        ensures
            p == priority_spec(self.nonces(), tx@),
    {
        let base = tx.max_fee_per_gas * 1000;
        let size_penalty = (tx.data.len() as u64) / 10;
        let next = match self.nonce_tracker.get(tx.from.as_str()) {
            Some(n) => *n + 1 == tx.nonce,
            None => tx.nonce == 0,
        };
        let bonus: u64 = if next { 10000 } else { 0 };
        base + bonus - size_penalty
    }

    /// Pool `pooled`, replacing an entry with the same hash in its place.
    fn insert_pooled(&mut self, pooled: PooledTransaction)
        requires
            old(self).wf(),
        ensures
            final(self).wf(),
            final(self).pool() == pool_insert(old(self).pool(), pooled@),
            final(self).queue() == old(self).queue(),
            final(self).nonces() == old(self).nonces(),
            final(self).max_pool_size() == old(self).max_pool_size(),
            final(self).max_per_account() == old(self).max_per_account(),
    {
        let ghost pv = pooled@;
        match self.find_hash(&pooled.tx_hash) {
            Some(i) => {
                let ghost s0 = self.pool@;
                self.pool.set(i, pooled);
                assert(self.pool() =~= s0.map_values(|p: PooledTransaction| p@).update(i as int, pv));
                assert forall|a: int, b: int| 0 <= a < b < self.pool@.len() implies (#[trigger] self.pool@[a]).tx_hash@
                    != (#[trigger] self.pool@[b]).tx_hash@ by {
                    if a != i && b != i {
                    } else if a == i {
                        assert(s0.map_values(|p: PooledTransaction| p@)[a].tx_hash == pv.tx_hash);
                    } else {
                        assert(s0.map_values(|p: PooledTransaction| p@)[b].tx_hash == pv.tx_hash);
                    }
                }
            },
            None => {
                let ghost s0 = self.pool@;
                proof {
                    crate::util::lemma_find_first_none(s0.map_values(|p: PooledTransaction| p@), |p: PooledModel| p.tx_hash == pv.tx_hash);
                }
                self.pool.push(pooled);
                assert(self.pool() =~= s0.map_values(|p: PooledTransaction| p@).push(pv));
                assert forall|a: int, b: int| 0 <= a < b < self.pool@.len() implies (#[trigger] self.pool@[a]).tx_hash@
                    != (#[trigger] self.pool@[b]).tx_hash@ by {
                    if b == s0.len() {
                        assert(self.pool@[a] == s0[a]);
                        assert(s0.map_values(|p: PooledTransaction| p@)[a] == s0[a]@);
                    }
                }
            },
        }
    }

    /// Pop the queue's first entry of highest priority; if an entry with its hash is pooled,
    /// that entry leaves the pool and the transaction is given out.
    fn pop_one(&mut self) -> (r: Option<Transaction>)
        requires
            old(self).wf(),
            old(self).queue().len() > 0,
        ensures
            final(self).wf(),
            max_pos(old(self).queue()) matches Some(i) && {
                let p = old(self).queue()[i];
                &&& 0 <= i < old(self).queue().len()
                &&& final(self).queue() == old(self).queue().remove(i)
                &&& match pool_pos(old(self).pool(), p.tx_hash) {
                    Some(j) => final(self).pool() == old(self).pool().remove(j) && (r matches Some(t) && t@ == p.tx),
                    None => final(self).pool() == old(self).pool() && r is None,
                }
            },
            final(self).nonces() == old(self).nonces(),
            final(self).max_pool_size() == old(self).max_pool_size(),
            final(self).max_per_account() == old(self).max_per_account(),
    {
        let ghost q = self.queue();
        let i = match self.find_max_queued() {
            Some(i) => i,
            None => {
                assert(false);
                0
            },
        };
        let pooled = self.priority_queue.remove(i);
        assert(self.queue() =~= q.remove(i as int));
        match self.find_hash(&pooled.tx_hash) {
            Some(j) => {
                self.remove_at(j);
                Some(pooled.tx)
            },
            None => None,
        }
    }

    /// Add a transaction at time `now`: when the pool is full its lowest-priority entry is
    /// evicted first; the transaction is then refused if its sender already has the most
    /// entries allowed; else it is pooled and queued under the hash of its binary layout,
    /// with its priority, and its nonce is remembered.
    pub fn add_at(&mut self, tx: Transaction, now: u64) -> (r: Result<crate::hash_utils::Hash, PoolError>)
        requires
            old(self).wf(),
            old(self).add_fits(tx@),
        ensures
            final(self).wf(),
            old(self).refused(tx@) ==> {
                &&& r == Err::<crate::hash_utils::Hash, PoolError>(PoolError::AccountLimitExceeded)
                &&& final(self).pool() == after_evict(old(self).pool(), old(self).max_pool_size())
                &&& final(self).queue() == old(self).queue()
                &&& final(self).nonces() == old(self).nonces()
            },
            !old(self).refused(tx@) ==> {
                &&& r matches Ok(h) && h@ == tx.hash_spec()
                &&& final(self).pool() == pool_insert(after_evict(old(self).pool(), old(self).max_pool_size()), old(self).pooled_spec(tx, now))
                &&& final(self).queue() == old(self).queue().push(old(self).pooled_spec(tx, now))
                &&& final(self).nonces() == old(self).nonces().insert(tx.from@, tx.nonce)
            },
            final(self).max_pool_size() == old(self).max_pool_size(),
            final(self).max_per_account() == old(self).max_per_account(),
    {
        let tx_hash = tx.hash();
        if self.pool.len() >= self.max_pool_size {
            self.evict_lowest_priority();
        }
        let count = self.count_from(&tx.from);
        if count >= self.max_per_account {
            return Err(PoolError::AccountLimitExceeded);
        }
        let priority_score = self.calculate_priority(&tx);
        let from = tx.from.clone();
        let nonce = tx.nonce;
        let gas_price = tx.max_fee_per_gas;
        let pooled = PooledTransaction { tx_hash, tx, priority_score, added_at: now, gas_price };
        let queued = pooled.duplicate();
        let ghost pv = pooled@;
        let ghost q0 = self.priority_queue@;
        self.insert_pooled(pooled);
        self.priority_queue.push(queued);
        assert(self.queue() =~= q0.map_values(|p: PooledTransaction| p@).push(pv));
        self.nonce_tracker.insert(from, nonce);
        Ok(tx_hash)
    }

    /// Add a transaction now, by the wall clock (see `add_at`).
    pub fn add(&mut self, tx: Transaction) -> (r: Result<crate::hash_utils::Hash, PoolError>)
        requires
            old(self).wf(),
            old(self).add_fits(tx@),
        ensures
            final(self).wf(),
            old(self).refused(tx@) ==> {
                &&& r == Err::<crate::hash_utils::Hash, PoolError>(PoolError::AccountLimitExceeded)
                &&& final(self).pool() == after_evict(old(self).pool(), old(self).max_pool_size())
                &&& final(self).queue() == old(self).queue()
                &&& final(self).nonces() == old(self).nonces()
            },
            !old(self).refused(tx@) ==> exists|now: u64| {
                &&& r matches Ok(h) && h@ == tx.hash_spec()
                &&& final(self).pool() == pool_insert(after_evict(old(self).pool(), old(self).max_pool_size()), #[trigger] old(self).pooled_spec(tx, now))
                &&& final(self).queue() == old(self).queue().push(old(self).pooled_spec(tx, now))
                &&& final(self).nonces() == old(self).nonces().insert(tx.from@, tx.nonce)
            },
            final(self).max_pool_size() == old(self).max_pool_size(),
            final(self).max_per_account() == old(self).max_per_account(),
    {
        let now = now_secs();
        self.add_at(tx, now)
    }

    /// Pop up to `n` times from the queue (no more times than it holds), giving out the
    /// transactions still pooled (see `pop_spec`).
    #[verifier::rlimit(60)]
    pub fn pop_top(&mut self, n: usize) -> (r: Vec<Transaction>)
        requires
            old(self).wf(),
        ensures
            final(self).wf(),
            ({
                let k = if n < old(self).queue().len() { n as nat } else { old(self).queue().len() };
                let t = pop_spec(old(self).queue(), old(self).pool(), k);
                &&& final(self).queue() == t.0
                &&& final(self).pool() == t.1
                &&& r@.map_values(|x: Transaction| x@) == t.2
            }),
            final(self).nonces() == old(self).nonces(),
            final(self).max_pool_size() == old(self).max_pool_size(),
            final(self).max_per_account() == old(self).max_per_account(),
    {
        let k: usize = if n < self.priority_queue.len() { n } else { self.priority_queue.len() };
        let ghost q0 = self.queue();
        let ghost p0 = self.pool();
        let mut result: Vec<Transaction> = Vec::new();
        proof {
            lemma_pop_consistent_start(q0, p0, k as nat);
            assert(result@.map_values(|x: Transaction| x@) =~= Seq::<TransactionModel>::empty());
        }
        let mut done: usize = 0;
        while done < k
            invariant
                self.wf(),
                0 <= done <= k,
                k <= q0.len(),
                self.queue().len() == q0.len() - done,
                pop_consistent(q0, p0, k as nat, self.queue(), self.pool(), (k - done) as nat, result@.map_values(|x: Transaction| x@)),
                self.nonces() == old(self).nonces(),
                self.max_pool_size() == old(self).max_pool_size(),
                self.max_per_account() == old(self).max_per_account(),
            decreases k - done,
        {
            let ghost q = self.queue();
            let ghost pl = self.pool();
            let ghost out0 = result@.map_values(|x: Transaction| x@);
            let popped = self.pop_one();
            match popped {
                Some(t) => {
                    result.push(t);
                    assert(result@.map_values(|x: Transaction| x@) =~= out0.push(t@));
                },
                None => {
                    assert(result@.map_values(|x: Transaction| x@) =~= out0);
                },
            }
            proof {
                lemma_pop_consistent_step(q0, p0, k as nat, q, pl, (k - done) as nat, out0, self.queue(), self.pool(),
                    result@.map_values(|x: Transaction| x@));
            }
            done = done + 1;
        }
        proof {
            lemma_pop_consistent_end(q0, p0, k as nat, self.queue(), self.pool(), result@.map_values(|x: Transaction| x@));
        }
        result
    }

    /// How many transactions are pooled.
    pub fn size(&self) -> (n: usize)
        ensures
            n == self.pool().len(),
    {
        self.pool.len()
    }

    /// How many transactions are pooled, and the mean, highest and lowest gas price (0 when
    /// empty).
    pub fn get_stats(&self) -> (st: PoolStats)
        requires
            gas_price_sum(self.pool()) <= u64::MAX,
        ensures
            st.total_transactions == self.pool().len(),
            self.pool().len() == 0 ==> st.avg_gas_price == 0 && st.max_gas_price == 0 && st.min_gas_price == 0,
            self.pool().len() > 0 ==> {
                &&& st.avg_gas_price == gas_price_sum(self.pool()) / self.pool().len()
                &&& exists|i: int| 0 <= i < self.pool().len() && #[trigger] self.pool()[i].gas_price == st.max_gas_price
                &&& exists|i: int| 0 <= i < self.pool().len() && #[trigger] self.pool()[i].gas_price == st.min_gas_price
                &&& forall|i: int| 0 <= i < self.pool().len() ==> st.min_gas_price <= #[trigger] self.pool()[i].gas_price
                    <= st.max_gas_price
            },
    {
        let ghost s = self.pool();
        let n = self.pool.len();
        if n == 0 {
            return PoolStats { total_transactions: 0, avg_gas_price: 0, max_gas_price: 0, min_gas_price: 0 };
        }
        let mut sum: u64 = 0;
        let mut max: u64 = self.pool[0].gas_price;
        let mut min: u64 = self.pool[0].gas_price;
        assert(s[0].gas_price == max);
        let mut i: usize = 0;
        while i < n
            invariant
                s == self.pool(),
                n == s.len(),
                n > 0,
                0 <= i <= n,
                gas_price_sum(s) <= u64::MAX,
                sum == gas_price_sum(s.take(i as int)),
                exists|j: int| 0 <= j < s.len() && #[trigger] s[j].gas_price == max,
                exists|j: int| 0 <= j < s.len() && #[trigger] s[j].gas_price == min,
                forall|j: int| 0 <= j < i ==> min <= #[trigger] s[j].gas_price <= max,
                min <= s[0].gas_price <= max,
            decreases n - i,
        {
            proof {
                lemma_gas_price_sum_take(s, i as int);
                lemma_gas_price_sum_take(s, i + 1);
            }
            let g = self.pool[i].gas_price;
            assert(g == s[i as int].gas_price);
            sum = sum + g;
            if g > max {
                max = g;
            }
            if g < min {
                min = g;
            }
            i = i + 1;
        }
        assert(s.take(n as int) =~= s);
        PoolStats { total_transactions: n, avg_gas_price: sum / (n as u64), max_gas_price: max, min_gas_price: min }
    }
}

/// One pop, unfolded.
pub proof fn lemma_pop_unfold(q: Seq<PooledModel>, pool: Seq<PooledModel>, k: nat)
    requires
        k > 0,
        max_pos(q) is Some,
    ensures
        ({
            let i = max_pos(q)->Some_0;
            let p = q[i];
            let q1 = q.remove(i);
            let (pool1, out1) = match pool_pos(pool, p.tx_hash) {
                Some(j) => (pool.remove(j), seq![p.tx]),
                None => (pool, Seq::<TransactionModel>::empty()),
            };
            let t = pop_spec(q1, pool1, (k - 1) as nat);
            pop_spec(q, pool, k) == (t.0, t.1, out1 + t.2)
        }),
{
    reveal(pop_spec);
}

/// Popping `k` times from `q0` and `pool0` ends as popping `m` times from `q` and `pool`
/// does, with `out` given out before.
#[verifier::opaque]
pub open spec fn pop_consistent(q0: Seq<PooledModel>, pool0: Seq<PooledModel>, k: nat, q: Seq<PooledModel>, pool: Seq<PooledModel>, m: nat, out: Seq<TransactionModel>) -> bool {
    let t = pop_spec(q, pool, m);
    pop_spec(q0, pool0, k) == (t.0, t.1, out + t.2)
}

pub proof fn lemma_pop_consistent_start(q0: Seq<PooledModel>, pool0: Seq<PooledModel>, k: nat)
    ensures
        pop_consistent(q0, pool0, k, q0, pool0, k, Seq::empty()),
{
    reveal(pop_consistent);
    assert(Seq::<TransactionModel>::empty() + pop_spec(q0, pool0, k).2 =~= pop_spec(q0, pool0, k).2);
}

pub proof fn lemma_pop_consistent_end(q0: Seq<PooledModel>, pool0: Seq<PooledModel>, k: nat, q: Seq<PooledModel>, pool: Seq<PooledModel>, out: Seq<TransactionModel>)
    requires
        pop_consistent(q0, pool0, k, q, pool, 0, out),
    ensures
        pop_spec(q0, pool0, k) == (q, pool, out),
{
    reveal(pop_consistent);
    lemma_pop_zero(q, pool);
    assert(out + Seq::<TransactionModel>::empty() =~= out);
}

/// One pop keeps the account.
pub proof fn lemma_pop_consistent_step(q0: Seq<PooledModel>, pool0: Seq<PooledModel>, k: nat, q: Seq<PooledModel>, pool: Seq<PooledModel>, m: nat, out: Seq<TransactionModel>, q1: Seq<PooledModel>, pool1: Seq<PooledModel>, out1: Seq<TransactionModel>)
    requires
        pop_consistent(q0, pool0, k, q, pool, m, out),
        m > 0,
        max_pos(q) matches Some(i) && {
            let p = q[i];
            &&& q1 == q.remove(i)
            &&& match pool_pos(pool, p.tx_hash) {
                Some(j) => pool1 == pool.remove(j) && out1 == out.push(p.tx),
                None => pool1 == pool && out1 == out,
            }
        },
    ensures
        pop_consistent(q0, pool0, k, q1, pool1, (m - 1) as nat, out1),
{
    reveal(pop_consistent);
    lemma_pop_unfold(q, pool, m);
    let i = max_pos(q)->Some_0;
    let p = q[i];
    let t = pop_spec(q1, pool1, (m - 1) as nat);
    match pool_pos(pool, p.tx_hash) {
        Some(j) => {
            assert(out + (seq![p.tx] + t.2) =~= out.push(p.tx) + t.2);
        },
        None => {
            assert(out + (Seq::<TransactionModel>::empty() + t.2) =~= out + t.2);
        },
    }
}

/// Popping no times changes nothing.
pub proof fn lemma_pop_zero(q: Seq<PooledModel>, pool: Seq<PooledModel>)
    ensures
        pop_spec(q, pool, 0) == (q, pool, Seq::<TransactionModel>::empty()),
{
    reveal(pop_spec);
}

/// A prefix adds up to no more than the whole, and one more element adds its own amount.
pub proof fn lemma_gas_price_sum_take(s: Seq<PooledModel>, i: int)
    requires
        0 <= i <= s.len(),
    ensures
        gas_price_sum(s.take(i)) <= gas_price_sum(s),
        i < s.len() ==> gas_price_sum(s.take(i + 1)) == gas_price_sum(s.take(i)) + s[i].gas_price,
    decreases s.len(),
{
    if i < s.len() {
        assert(s.take(i + 1).drop_last() =~= s.take(i));
        if i + 1 < s.len() {
            assert(s.drop_last().take(i + 1) =~= s.take(i + 1));
            lemma_gas_price_sum_take(s.drop_last(), i + 1);
        } else {
            assert(s.take(i + 1) =~= s);
        }
    } else {
        assert(s.take(i) =~= s);
    }
}

/// One block's fees.
struct BlockFeeData {
    base_fee: u64,
    priority_fees: Vec<u64>,
    timestamp: u64,
}

/// What a block's fee record holds.
pub struct BlockFeeModel {
    pub base_fee: u64,
    pub priority_fees: Seq<u64>,
    pub timestamp: u64,
}

/// The priority fees of all blocks, block after block.
pub open spec fn all_fees(blocks: Seq<BlockFeeModel>) -> Seq<u64>
    decreases blocks.len(),
{
    if blocks.len() == 0 {
        Seq::empty()
    } else {
        all_fees(blocks.drop_last()) + blocks.last().priority_fees
    }
}

/// The suggestion drawn from a base fee and the priority fees in ascending order: the base
/// fee plus the 10th, 50th, 75th and 90th percentile (by index `len * p / 100`, rounded down).
pub open spec fn percentile_suggestion(base_fee: u64, sorted: Seq<u64>) -> FeeSuggestion {
    let len = sorted.len() as int;
    FeeSuggestion {
        slow: (base_fee + sorted[len / 10]) as u64,
        standard: (base_fee + sorted[len / 2]) as u64,
        fast: (base_fee + sorted[len * 3 / 4]) as u64,
        instant: (base_fee + sorted[len * 9 / 10]) as u64,
        base_fee,
    }
}

/// The blocks after one is recorded at time `now`: it goes last, and past `max_history`
/// blocks the oldest is dropped.
pub open spec fn recorded_blocks(blocks: Seq<BlockFeeModel>, max_history: usize, base_fee: u64, priority_fees: Seq<u64>, now: u64) -> Seq<BlockFeeModel> {
    let s = blocks.push(BlockFeeModel { base_fee, priority_fees, timestamp: now });
    if s.len() > max_history { s.drop_first() } else { s }
}

/// Suggests priority fees from the recent blocks' fees.
pub struct FeeSuggestionEngine {
    recent_blocks: Vec<BlockFeeData>,
    max_history: usize,
}

impl FeeSuggestionEngine {
    /// The recorded blocks, oldest first.
    pub closed spec fn blocks(&self) -> Seq<BlockFeeModel> {
        self.recent_blocks@.map_values(|b: BlockFeeData| BlockFeeModel { base_fee: b.base_fee, priority_fees: b.priority_fees@, timestamp: b.timestamp })
    }

    pub closed spec fn max_history(&self) -> usize {
        self.max_history
    }

    pub fn new(max_history: usize) -> (e: Self)
        ensures
            e.blocks() == Seq::<BlockFeeModel>::empty(),
            e.max_history() == max_history,
    {
        let e = FeeSuggestionEngine { recent_blocks: Vec::new(), max_history };
        assert(e.blocks() =~= Seq::<BlockFeeModel>::empty());
        e
    }

    /// Record a block's fees at time `now`; past `max_history` blocks the oldest is dropped.
    pub fn record_block_at(&mut self, base_fee: u64, priority_fees: Vec<u64>, now: u64)
        ensures
            final(self).blocks() == recorded_blocks(old(self).blocks(), old(self).max_history(), base_fee, priority_fees@, now),
            final(self).max_history() == old(self).max_history(),
    {
        let ghost s0 = self.recent_blocks@;
        let ghost b = BlockFeeModel { base_fee, priority_fees: priority_fees@, timestamp: now };
        self.recent_blocks.push(BlockFeeData { base_fee, priority_fees, timestamp: now });
        assert(self.blocks() =~= old(self).blocks().push(b));
        if self.recent_blocks.len() > self.max_history {
            let ghost s1 = self.recent_blocks@;
            self.recent_blocks.remove(0);
            assert(self.recent_blocks@ =~= s1.drop_first());
            assert(self.blocks() =~= old(self).blocks().push(b).drop_first());
        }
    }

    /// Record a block's fees now, by the wall clock (see `record_block_at`).
    pub fn record_block(&mut self, base_fee: u64, priority_fees: Vec<u64>)
        ensures
            exists|now: u64| final(self).blocks() == #[trigger] recorded_blocks(old(self).blocks(), old(self).max_history(), base_fee, priority_fees@, now),
            final(self).max_history() == old(self).max_history(),
    {
        let now = now_secs();
        self.record_block_at(base_fee, priority_fees, now)
    }

    /// The arithmetic of a suggestion fits: with no priority fees the base fee times ten, else
    /// the base fee plus the highest percentile, and the percentile indices.
    pub open spec fn suggest_fits(&self) -> bool {
        self.blocks().len() > 0 ==> {
            let base = self.blocks().last().base_fee;
            let fees = all_fees(self.blocks());
            &&& fees.len() == 0 ==> base * 10 <= u64::MAX
            &&& fees.len() * 9 <= usize::MAX
            &&& forall|s: Seq<u64>| #![trigger ascending(s)] ascending(s) && s.to_multiset() == fees.to_multiset() && s.len() == fees.len()
                && fees.len() > 0 ==> base + s[(fees.len() * 9 / 10) as int] <= u64::MAX
        }
    }

    /// Suggested fees: fixed ones (1, 2, 5, 10, base 1) with no blocks; multiples of the latest
    /// base fee with no priority fees; else the latest base fee plus percentiles of all
    /// recorded priority fees (see `percentile_suggestion`).
    pub fn suggest_fees(&self) -> (r: FeeSuggestion)
        requires
            self.suggest_fits(),
        ensures
            self.blocks().len() == 0 ==> r == (FeeSuggestion { slow: 1, standard: 2, fast: 5, instant: 10, base_fee: 1 }),
            self.blocks().len() > 0 && all_fees(self.blocks()).len() == 0 ==> {
                let base = self.blocks().last().base_fee;
                r == (FeeSuggestion {
                    slow: base,
                    standard: (base * 2) as u64,
                    fast: (base * 5) as u64,
                    instant: (base * 10) as u64,
                    base_fee: base,
                })
            },
            self.blocks().len() > 0 && all_fees(self.blocks()).len() > 0 ==> exists|s: Seq<u64>| {
                &&& #[trigger] ascending(s)
                &&& s.to_multiset() == all_fees(self.blocks()).to_multiset()
                &&& s.len() == all_fees(self.blocks()).len()
                &&& r == percentile_suggestion(self.blocks().last().base_fee, s)
            },
    {
        let ghost bs = self.blocks();
        let n = self.recent_blocks.len();
        if n == 0 {
            return FeeSuggestion { slow: 1, standard: 2, fast: 5, instant: 10, base_fee: 1 };
        }
        let base_fee = self.recent_blocks[n - 1].base_fee;
        assert(base_fee == bs.last().base_fee);
        let mut fees: Vec<u64> = Vec::new();
        let mut i: usize = 0;
        while i < n
            invariant
                bs == self.blocks(),
                n == bs.len(),
                0 <= i <= n,
                fees@ == all_fees(bs.take(i as int)),
            decreases n - i,
        {
            let f = copy_vec(&self.recent_blocks[i].priority_fees);
            let ghost f0 = fees@;
            let mut j: usize = 0;
            while j < f.len()
                invariant
                    0 <= j <= f@.len(),
                    fees@ == f0 + f@.take(j as int),
                decreases f@.len() - j,
            {
                fees.push(f[j]);
                j = j + 1;
                assert(fees@ =~= f0 + f@.take(j as int));
            }
            assert(f@.take(j as int) =~= f@);
            assert(bs.take(i + 1).drop_last() =~= bs.take(i as int));
            assert(bs.take(i + 1).last().priority_fees == f@);
            i = i + 1;
        }
        assert(bs.take(n as int) =~= bs);
        let ghost fs = fees@;
        let sorted = sort_u64(fees);
        let len = sorted.len();
        if len == 0 {
            return FeeSuggestion {
                slow: base_fee,
                standard: base_fee * 2,
                fast: base_fee * 5,
                instant: base_fee * 10,
                base_fee,
            };
        }
        assert(base_fee + sorted@[(len * 9 / 10) as int] <= u64::MAX);
        let p10 = sorted[len / 10];
        let p50 = sorted[len / 2];
        let p75 = sorted[len * 3 / 4];
        let p90 = sorted[len * 9 / 10];
        assert(len / 10 <= len * 9 / 10 && len / 2 <= len * 9 / 10 && len * 3 / 4 <= len * 9 / 10) by (nonlinear_arith)
            requires
                len > 0,
        ;
        let r = FeeSuggestion {
            slow: base_fee + p10,
            standard: base_fee + p50,
            fast: base_fee + p75,
            instant: base_fee + p90,
            base_fee,
        };
        assert(r == percentile_suggestion(base_fee, sorted@));
        r
    }
}

/// The nonce a sender is expected to use next: one past its last recorded nonce, or 0 for a
/// sender with none recorded; a transaction with that nonce is preferred by exactly 10000
/// over the same transaction with any other nonce.
pub proof fn lemma_next_nonce_bonus(tracker: Map<Seq<char>, u64>, tx: TransactionModel, other_nonce: u64)
    requires
        tracker.dom().contains(tx.from) ==> tracker[tx.from] + 1 == tx.nonce,
        !tracker.dom().contains(tx.from) ==> tx.nonce == 0,
        tracker.dom().contains(tx.from) ==> tracker[tx.from] + 1 != other_nonce,
        !tracker.dom().contains(tx.from) ==> other_nonce != 0,
    ensures
        priority_spec(tracker, tx) == priority_spec(
            tracker,
            TransactionModel { nonce: other_nonce, ..tx },
        ) + 10000,
{
}

/// Without the next-nonce preference, a transaction's priority is its fee per gas times 1000,
/// less one for every full ten bytes of data: each unit of fee adds exactly 1000, and ten
/// more bytes of data take exactly one off.
pub proof fn lemma_priority_from_fee_and_size(tracker: Map<Seq<char>, u64>, tx: TransactionModel)
    requires
        tracker.dom().contains(tx.from) ==> tracker[tx.from] + 1 != tx.nonce,
        !tracker.dom().contains(tx.from) ==> tx.nonce != 0,
    ensures
        priority_spec(tracker, tx) * 10 <= tx.max_fee_per_gas * 10_000 - tx.data.len() + 9,
        priority_spec(tracker, tx) * 10 > tx.max_fee_per_gas * 10_000 - tx.data.len() - 1,
        tx.data.len() == 0 ==> priority_spec(tracker, tx) == tx.max_fee_per_gas * 1000,
{
}

/// Popping takes a transaction no other queued one outranks, the earliest among those of that
/// priority; eviction drops one that outranks no other pooled one, again the earliest such.
pub proof fn lemma_pop_highest_evict_lowest(q: Seq<PooledModel>)
    ensures
        max_pos(q) matches Some(i) ==> 0 <= i < q.len() && (forall|j: int|
            0 <= j < q.len() ==> #[trigger] q[j].priority_score <= q[i].priority_score) && (forall|j: int|
            0 <= j < i ==> #[trigger] q[j].priority_score < q[i].priority_score),
        min_pos(q) matches Some(i) ==> 0 <= i < q.len() && (forall|j: int|
            0 <= j < q.len() ==> #[trigger] q[j].priority_score >= q[i].priority_score) && (forall|j: int|
            0 <= j < i ==> #[trigger] q[j].priority_score > q[i].priority_score),
        q.len() > 0 ==> max_pos(q) is Some && min_pos(q) is Some,
{
    let hi = |p: PooledModel| forall|j: int| 0 <= j < q.len() ==> p.priority_score >= #[trigger] q[j].priority_score;
    let lo = |p: PooledModel| forall|j: int| 0 <= j < q.len() ==> p.priority_score <= #[trigger] q[j].priority_score;
    lemma_find_first(q, hi);
    lemma_find_first(q, lo);
    if q.len() > 0 {
        let (a, b) = lemma_extremes(q, q.len() as int);
        assert(hi(q[a]));
        assert(lo(q[b]));
    }
    if max_pos(q) is Some {
        let i = max_pos(q)->Some_0;
        assert forall|j: int| 0 <= j < i implies #[trigger] q[j].priority_score < q[i].priority_score by {
            if q[j].priority_score >= q[i].priority_score {
                assert(hi(q[j]));
            }
        }
    }
    if min_pos(q) is Some {
        let i = min_pos(q)->Some_0;
        assert forall|j: int| 0 <= j < i implies #[trigger] q[j].priority_score > q[i].priority_score by {
            if q[j].priority_score <= q[i].priority_score {
                assert(lo(q[j]));
            }
        }
    }
}

/// Admission: while the pool has room nothing is evicted, and a sender is refused exactly
/// when it already has `max_per_account` entries or more; a full, nonempty pool gives up
/// exactly one entry, one of lowest priority; a sender with no entry left is never refused
/// (with a positive per-account limit).
pub proof fn lemma_admission_rules(p: &TransactionPool, tx: TransactionModel)
    ensures
        p.pool().len() < p.max_pool_size() ==> after_evict(p.pool(), p.max_pool_size()) == p.pool(),
        p.pool().len() < p.max_pool_size() ==> (p.refused(tx) <==> count_from(p.pool(), tx.from)
            >= p.max_per_account()),
        p.pool().len() >= p.max_pool_size() && p.pool().len() > 0 ==> {
            let i = min_pos(p.pool())->Some_0;
            &&& min_pos(p.pool()) is Some
            &&& after_evict(p.pool(), p.max_pool_size()) == p.pool().remove(i)
            &&& after_evict(p.pool(), p.max_pool_size()).len() == p.pool().len() - 1
            &&& forall|j: int| 0 <= j < p.pool().len() ==> #[trigger] p.pool()[j].priority_score >= p.pool()[i].priority_score
        },
        count_from(after_evict(p.pool(), p.max_pool_size()), tx.from) == 0 && p.max_per_account() > 0 ==> !p.refused(tx),
{
    lemma_pop_highest_evict_lowest(p.pool());
}

/// Among the first `n` entries, one of highest and one of lowest priority.
proof fn lemma_extremes(q: Seq<PooledModel>, n: int) -> (r: (int, int))
    requires
        0 < n <= q.len(),
    ensures
        0 <= r.0 < n,
        0 <= r.1 < n,
        forall|j: int| 0 <= j < n ==> #[trigger] q[j].priority_score <= q[r.0].priority_score,
        forall|j: int| 0 <= j < n ==> #[trigger] q[j].priority_score >= q[r.1].priority_score,
    decreases n,
{
    if n == 1 {
        (0, 0)
    } else {
        let (a, b) = lemma_extremes(q, n - 1);
        let a2 = if q[n - 1].priority_score > q[a].priority_score { n - 1 } else { a };
        let b2 = if q[n - 1].priority_score < q[b].priority_score { n - 1 } else { b };
        (a2, b2)
    }
}

/// Suggested fees rise from slow to instant, never below the base fee: each is the base fee
/// plus the recorded priority fee at its percentile of the fees in ascending order, the 10th,
/// 50th, 75th and 90th (the position `len * p / 100`, rounded down).
pub proof fn lemma_suggestion_percentiles(base_fee: u64, s: Seq<u64>)
    requires
        ascending(s),
        s.len() > 0,
        base_fee + s[s.len() - 1] <= u64::MAX,
    ensures
        ({
            let r = percentile_suggestion(base_fee, s);
            let n = s.len() as int;
            &&& r.base_fee == base_fee
            &&& base_fee <= r.slow <= r.standard <= r.fast <= r.instant
            &&& exists|k: int| k * 10 <= n < (k + 1) * 10 && r.slow == base_fee + s[k]
            &&& exists|k: int| k * 2 <= n < (k + 1) * 2 && r.standard == base_fee + s[k]
            &&& exists|k: int| k * 4 <= n * 3 < (k + 1) * 4 && r.fast == base_fee + s[k]
            &&& exists|k: int| k * 10 <= n * 9 < (k + 1) * 10 && r.instant == base_fee + s[k]
        }),
{
    let n = s.len() as int;
    crate::util::lemma_floor_div(n, 10);
    crate::util::lemma_floor_div(n, 2);
    crate::util::lemma_floor_div(n * 3, 4);
    crate::util::lemma_floor_div(n * 9, 10);
    assert(n * 3 / 4 < n);
    assert(n * 9 / 10 < n);
    assert(n / 10 <= n / 2 <= n * 3 / 4 <= n * 9 / 10);
    assert(s[n / 10] <= s[n / 2]);
    assert(s[n / 2] <= s[n * 3 / 4]);
    assert(s[n * 3 / 4] <= s[n * 9 / 10]);
    assert(s[n * 9 / 10] <= s[n - 1]);
}

} // verus!
