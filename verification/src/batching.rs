use vstd::prelude::*;
use vstd::bytes::{spec_u32_to_le_bytes, spec_u64_to_le_bytes, u32_to_le_bytes};
use std::collections::VecDeque;

use crate::clock::now_millis;
use crate::types::Transaction;

verus! {

/// Strategies for cutting pending transactions into batches.
#[derive(Debug, Clone, Copy, PartialEq, Eq, Structural)]
pub enum BatchingStrategy {
    /// Batches of a fixed number of transactions.
    FixedSize { size: usize },
    /// Everything pending, once the interval has passed.
    TimeBased { interval_ms: u64 },
    /// Up to `max_size`, once `max_size` are pending or `min_size` have waited `max_wait_ms`.
    Adaptive { min_size: usize, max_size: usize, max_wait_ms: u64 },
    /// Up to the transaction whose gas brings the batch to `target_gas` (all pending when it
    /// is not reached), once that much gas is pending.
    GasBased { target_gas: u64 },
    /// Adaptive, also cut when `target_gas` is pending.
    Hybrid { min_size: usize, max_size: usize, max_wait_ms: u64, target_gas: u64 },
}

#[derive(Debug, Clone, Copy)]
pub struct BatchingStats {
    pub total_batches: u64,
    pub total_transactions: u64,
    /// Transactions per batch, rounded down.
    pub avg_batch_size: u64,
    /// A running average of the batch times, in whole milliseconds.
    pub avg_batch_time_ms: u64,
    /// A running average of the gas per batch.
    pub avg_gas_per_batch: u64,
    pub min_batch_size: usize,
    pub max_batch_size: usize,
}

impl Default for BatchingStats {
    fn default() -> (s: Self)
        ensures
            s == zero_stats(),
    {
        zero_stats_exec()
    }
}

fn zero_stats_exec() -> (s: BatchingStats)
    ensures
        s == zero_stats(),
{
    BatchingStats {
        total_batches: 0,
        total_transactions: 0,
        avg_batch_size: 0,
        avg_batch_time_ms: 0,
        avg_gas_per_batch: 0,
        min_batch_size: 0,
        max_batch_size: 0,
    }
}

pub open spec fn zero_stats() -> BatchingStats {
    BatchingStats {
        total_batches: 0,
        total_transactions: 0,
        avg_batch_size: 0,
        avg_batch_time_ms: 0,
        avg_gas_per_batch: 0,
        min_batch_size: 0,
        max_batch_size: 0,
    }
}

/// A batch of transactions.
#[derive(Debug, Clone)]
pub struct Batch {
    pub batch_id: u64,
    pub transactions: Vec<Transaction>,
    pub created_at: u64,
    pub strategy: BatchingStrategy,
    pub total_gas: u64,
    pub batch_time_ms: u64,
}

/// The gas limits of the transactions, added up.
pub open spec fn gas_sum(s: Seq<Transaction>) -> int
    decreases s.len(),
{
    if s.len() == 0 {
        0
    } else {
        gas_sum(s.drop_last()) + s.last().gas_limit
    }
}

/// The values of the transactions, added up.
pub open spec fn value_sum(s: Seq<Transaction>) -> int
    decreases s.len(),
{
    if s.len() == 0 {
        0
    } else {
        value_sum(s.drop_last()) + s.last().value
    }
}

/// The milliseconds from `start` to `now` (none when `now` is earlier).
pub open spec fn elapsed_ms(start: u64, now: u64) -> int {
    if now >= start {
        now - start
    } else {
        0
    }
}

/// `n` is how many leading transactions a gas-based batch takes: the shortest run (of at
/// least one) whose gas reaches `target`, or all of them when their gas does not.
pub open spec fn gas_cut(s: Seq<Transaction>, target: u64, n: int) -> bool {
    &&& 1 <= n <= s.len()
    &&& (n == s.len() || gas_sum(s.take(n)) >= target)
    &&& (n == 1 || gas_sum(s.take(n - 1)) < target)
}

pub open spec fn min_int(a: int, b: int) -> int {
    if a <= b {
        a
    } else {
        b
    }
}

/// How many of the pending transactions `s` a batch takes under `strategy`: the batch size
/// the strategy sets, at most all of them (a gas-based batch takes the `gas_cut`).
pub open spec fn batch_len(strategy: BatchingStrategy, s: Seq<Transaction>) -> int {
    let len = s.len() as int;
    match strategy {
        BatchingStrategy::FixedSize { size } => min_int(size as int, len),
        BatchingStrategy::TimeBased { .. } => len,
        BatchingStrategy::Adaptive { max_size, .. } => min_int(max_size as int, len),
        BatchingStrategy::GasBased { target_gas } => if len == 0 {
            0
        } else {
            choose|k: int| gas_cut(s, target_gas, k)
        },
        BatchingStrategy::Hybrid { max_size, .. } => min_int(max_size as int, len),
    }
}

/// Whether a batch is due, for `len` pending transactions holding `gas` in all, the first
/// having arrived `waited` milliseconds ago (`None`: no start time is recorded).
pub open spec fn due_spec(strategy: BatchingStrategy, len: int, gas: int, waited: Option<int>) -> bool {
    let w = match waited {
        Some(x) => x,
        None => 0,
    };
    if len == 0 {
        false
    } else {
        match strategy {
            BatchingStrategy::FixedSize { size } => len >= size,
            BatchingStrategy::TimeBased { interval_ms } => waited is Some && w >= interval_ms,
            BatchingStrategy::Adaptive { min_size, max_size, max_wait_ms } => len >= max_size || (
            len >= min_size && w >= max_wait_ms),
            BatchingStrategy::GasBased { target_gas } => gas >= target_gas,
            BatchingStrategy::Hybrid { min_size, max_size, max_wait_ms, target_gas } => len
                >= max_size || gas >= target_gas || (len >= min_size && w >= max_wait_ms),
        }
    }
}

/// A running average after the `n`-th sample `x` (`n >= 1`), rounded down.
pub open spec fn running_avg(avg: int, n: int, x: int) -> int {
    (avg * (n - 1) + x) / n
}

/// The statistics after a batch of `size` transactions, `time_ms` and `gas`.
pub open spec fn stats_after(s: BatchingStats, size: int, time_ms: int, gas: int) -> BatchingStats {
    let n = s.total_batches + 1;
    let t = s.total_transactions + size;
    BatchingStats {
        total_batches: n as u64,
        total_transactions: t as u64,
        avg_batch_size: (t / n) as u64,
        avg_batch_time_ms: running_avg(s.avg_batch_time_ms as int, n, time_ms) as u64,
        avg_gas_per_batch: running_avg(s.avg_gas_per_batch as int, n, gas) as u64,
        min_batch_size: if s.min_batch_size == 0 || size < s.min_batch_size {
            size as usize
        } else {
            s.min_batch_size
        },
        max_batch_size: if size > s.max_batch_size {
            size as usize
        } else {
            s.max_batch_size
        },
    }
}

proof fn lemma_gas_sum_take_step(s: Seq<Transaction>, n: int)
    requires
        0 <= n < s.len(),
    ensures
        gas_sum(s.take(n + 1)) == gas_sum(s.take(n)) + s[n].gas_limit,
{
    assert(s.take(n + 1).drop_last() =~= s.take(n));
}

proof fn lemma_gas_sum_take_mono(s: Seq<Transaction>, a: int, b: int)
    requires
        0 <= a <= b <= s.len(),
    ensures
        gas_sum(s.take(a)) <= gas_sum(s.take(b)),
    decreases b - a,
{
    if a < b {
        lemma_gas_sum_take_mono(s, a, b - 1);
        lemma_gas_sum_take_step(s, b - 1);
    }
}

proof fn lemma_gas_sum_all(s: Seq<Transaction>)
    ensures
        gas_sum(s.take(s.len() as int)) == gas_sum(s),
{
    assert(s.take(s.len() as int) =~= s);
}

/// The gas-based cut is unique: two counts that both satisfy `gas_cut` are equal.
pub proof fn lemma_gas_cut_unique(s: Seq<Transaction>, target: u64, a: int, b: int)
    requires
        gas_cut(s, target, a),
        gas_cut(s, target, b),
    ensures
        a == b,
{
    if a < b {
        lemma_gas_sum_take_mono(s, a, b - 1);
    } else if b < a {
        lemma_gas_sum_take_mono(s, b, a - 1);
    }
}

/// Batch builder with several cutting strategies.
pub struct BatchBuilder {
    strategy: BatchingStrategy,
    pending_transactions: VecDeque<Transaction>,
    current_batch: Vec<Transaction>,
    batch_start_time: Option<u64>,
    total_batches_created: u64,
    stats: BatchingStats,
}

impl BatchBuilder {
    pub closed spec fn strategy(&self) -> BatchingStrategy {
        self.strategy
    }

    /// The pending transactions, oldest first.
    pub closed spec fn pending(&self) -> Seq<Transaction> {
        self.pending_transactions@
    }

    /// When the oldest pending transaction arrived, in milliseconds of the wall clock.
    pub closed spec fn start_time(&self) -> Option<u64> {
        self.batch_start_time
    }

    pub closed spec fn batches_created(&self) -> u64 {
        self.total_batches_created
    }

    pub closed spec fn stats(&self) -> BatchingStats {
        self.stats
    }

    /// Whether a batch is due at `now_ms` (see `due_spec`).
    pub open spec fn due_at(&self, now_ms: u64) -> bool {
        due_spec(
            self.strategy(),
            self.pending().len() as int,
            gas_sum(self.pending()),
            match self.start_time() {
                Some(t) => Some(elapsed_ms(t, now_ms)),
                None => None,
            },
        )
    }

    /// The gas that a check of whether a batch is due adds up: that of all pending
    /// transactions under a gas-based or hybrid strategy, none otherwise.
    pub open spec fn due_gas_fits(&self) -> bool {
        (self.strategy() is GasBased || self.strategy() is Hybrid) ==> gas_sum(self.pending()) <= u64::MAX
    }

    /// The gas that cutting a batch adds up: that of the transactions the batch takes.
    pub open spec fn batch_gas_fits(&self) -> bool {
        gas_sum(self.pending().take(batch_len(self.strategy(), self.pending()))) <= u64::MAX
    }

    pub fn new(strategy: BatchingStrategy) -> (b: Self)
        ensures
            b.strategy() == strategy,
            b.pending() == Seq::<Transaction>::empty(),
            b.start_time() is None,
            b.batches_created() == 0,
            b.stats() == zero_stats(),
    {
        BatchBuilder {
            strategy,
            pending_transactions: VecDeque::new(),
            current_batch: Vec::new(),
            batch_start_time: None,
            total_batches_created: 0,
            stats: zero_stats_exec(),
        }
    }

    /// Add a transaction at time `now_ms`; the first pending transaction starts the clock.
    pub fn add_transaction_at(&mut self, tx: Transaction, now_ms: u64)
        ensures
            final(self).pending() == old(self).pending().push(tx),
            final(self).start_time() == (match old(self).start_time() {
                Some(t) => Some(t),
                None => Some(now_ms),
            }),
            final(self).strategy() == old(self).strategy(),
            final(self).batches_created() == old(self).batches_created(),
            final(self).stats() == old(self).stats(),
    {
        let ghost before = self.pending_transactions@;
        self.pending_transactions.push_back(tx);
        assert(self.pending_transactions@.drop_last() =~= before);
        if self.batch_start_time.is_none() {
            self.batch_start_time = Some(now_ms);
        }
    }

    /// Add a transaction now, by the wall clock (see `add_transaction_at`).
    pub fn add_transaction(&mut self, tx: Transaction)
        ensures
            final(self).pending() == old(self).pending().push(tx),
            old(self).start_time() is Some ==> final(self).start_time() == old(self).start_time(),
            final(self).start_time() is Some,
            final(self).strategy() == old(self).strategy(),
            final(self).batches_created() == old(self).batches_created(),
            final(self).stats() == old(self).stats(),
    {
        let now = now_millis();
        self.add_transaction_at(tx, now);
    }

    /// Add several transactions, in order.
    pub fn add_transactions(&mut self, txs: Vec<Transaction>)
        ensures
            final(self).pending() == old(self).pending() + txs@,
            txs@.len() > 0 || old(self).start_time() is Some ==> final(self).start_time() is Some,
            old(self).start_time() is Some ==> final(self).start_time() == old(self).start_time(),
            txs@.len() == 0 ==> final(self).start_time() == old(self).start_time(),
            final(self).strategy() == old(self).strategy(),
            final(self).batches_created() == old(self).batches_created(),
            final(self).stats() == old(self).stats(),
    {
        let ghost s0 = self.pending_transactions@;
        let ghost all = txs@;
        let mut rest = txs;
        let mut i: usize = 0;
        let n = rest.len();
        while rest.len() > 0
            invariant
                n == all.len(),
                0 <= i <= n,
                rest@ == all.subrange(i as int, n as int),
                self.pending_transactions@ == s0 + all.take(i as int),
                i > 0 || old(self).start_time() is Some ==> self.batch_start_time is Some,
                old(self).start_time() is Some ==> self.batch_start_time == old(self).start_time(),
                i == 0 ==> self.batch_start_time == old(self).start_time(),
                self.strategy == old(self).strategy(),
                self.total_batches_created == old(self).batches_created(),
                self.stats == old(self).stats(),
            decreases rest.len(),
        {
            let tx = rest.remove(0);
            assert(tx == all[i as int]);
            self.add_transaction(tx);
            assert(all.take(i + 1) =~= all.take(i as int).push(all[i as int]));
            assert(s0 + all.take(i + 1) =~= (s0 + all.take(i as int)).push(all[i as int]));
            assert(rest@ =~= all.subrange(i + 1, n as int));
            i = i + 1;
        }
        assert(all.take(n as int) =~= all);
    }

    /// The gas of the pending transactions.
    fn pending_gas(&self) -> (g: u64)
        requires
            gas_sum(self.pending()) <= u64::MAX,
        ensures
            g == gas_sum(self.pending()),
    {
        let ghost s = self.pending_transactions@;
        let mut total: u64 = 0;
        let mut i: usize = 0;
        proof {
            lemma_gas_sum_all(s);
        }
        while i < self.pending_transactions.len()
            invariant
                s == self.pending_transactions@,
                gas_sum(s) <= u64::MAX,
                0 <= i <= s.len(),
                total == gas_sum(s.take(i as int)),
            decreases s.len() - i,
        {
            proof {
                lemma_gas_sum_take_step(s, i as int);
                lemma_gas_sum_take_mono(s, i + 1, s.len() as int);
                lemma_gas_sum_all(s);
            }
            total = total + self.pending_transactions[i].gas_limit;
            i = i + 1;
        }
        proof {
            lemma_gas_sum_all(s);
        }
        total
    }

    /// Whether a batch is due at time `now_ms` under the strategy (see `due_spec`).
    pub fn should_create_batch_at(&self, now_ms: u64) -> (r: bool)
        requires
            self.due_gas_fits(),
        ensures
            r == self.due_at(now_ms),
    {
        if self.pending_transactions.len() == 0 {
            return false;
        }
        let size = self.pending_transactions.len();
        let waited: u64 = match self.batch_start_time {
            Some(t) => if now_ms >= t {
                now_ms - t
            } else {
                0
            },
            None => 0,
        };
        match self.strategy {
            BatchingStrategy::FixedSize { size: s } => size >= s,
            BatchingStrategy::TimeBased { interval_ms } => self.batch_start_time.is_some()
                && waited >= interval_ms,
            BatchingStrategy::Adaptive { min_size, max_size, max_wait_ms } => size >= max_size || (
            size >= min_size && waited >= max_wait_ms),
            BatchingStrategy::GasBased { target_gas } => self.pending_gas() >= target_gas,
            BatchingStrategy::Hybrid { min_size, max_size, max_wait_ms, target_gas } => {
                let gas = self.pending_gas();
                size >= max_size || gas >= target_gas || (size >= min_size && waited
                    >= max_wait_ms)
            },
        }
    }

    /// Whether a batch is due now, by the wall clock (see `should_create_batch_at`).
    pub fn should_create_batch(&self) -> (r: bool)
        requires
            self.due_gas_fits(),
        ensures
            exists|now_ms: u64| r == #[trigger] self.due_at(now_ms),
    {
        let now = now_millis();
        self.should_create_batch_at(now)
    }

    /// How many leading pending transactions a gas-based batch takes (see `gas_cut`); 0 when
    /// none is pending.
    fn gas_batch_size(&self, target_gas: u64) -> (n: usize)
        requires
            forall|k: int| #[trigger] gas_cut(self.pending(), target_gas, k) ==> gas_sum(self.pending().take(k)) <= u64::MAX,
        ensures
            self.pending().len() == 0 ==> n == 0,
            self.pending().len() > 0 ==> gas_cut(self.pending(), target_gas, n as int),
    {
        let ghost s = self.pending_transactions@;
        let len = self.pending_transactions.len();
        if len == 0 {
            return 0;
        }
        let mut size: usize = 0;
        let mut total: u64 = 0;
        assert(s.take(0) =~= Seq::<Transaction>::empty());
        assert(s == self.pending());
        while size < len
            invariant
                s == self.pending_transactions@,
                len == s.len(),
                len > 0,
                forall|k: int| #[trigger] gas_cut(s, target_gas, k) ==> gas_sum(s.take(k)) <= u64::MAX,
                0 <= size <= len,
                total == gas_sum(s.take(size as int)),
                size > 0 ==> total < target_gas,
            decreases len - size,
        {
            proof {
                lemma_gas_sum_take_step(s, size as int);
                if size + 1 == len || gas_sum(s.take(size + 1)) >= target_gas {
                    assert(gas_cut(s, target_gas, size + 1));
                }
            }
            let g = self.pending_transactions[size].gas_limit;
            total = total + g;
            size = size + 1;
            if total >= target_gas {
                return size;
            }
        }
        proof {
            lemma_gas_sum_take_step(s, len - 1);
        }
        size
    }

    /// Cut a batch at time `now_ms` from the front of the pending transactions: as many as the
    /// strategy's batch size (see `batch_len`), at most all that are pending. `None`, with
    /// nothing changed, when that is none.
    pub fn create_batch_at(&mut self, now_ms: u64) -> (r: Option<Batch>)
        requires
            old(self).batch_gas_fits(),
            old(self).batches_created() < u64::MAX,
            old(self).stats().total_batches < u64::MAX,
            old(self).stats().total_transactions + old(self).pending().len() <= u64::MAX,
        ensures
            ({
                let s = old(self).pending();
                let n = batch_len(old(self).strategy(), s);
                &&& n == 0 ==> r is None && *final(self) == *old(self)
                &&& n > 0 ==> (r matches Some(b) && {
                    &&& b.batch_id == old(self).batches_created()
                    &&& b.transactions@ == s.take(n)
                    &&& b.created_at == now_ms / 1000
                    &&& b.strategy == old(self).strategy()
                    &&& b.total_gas == gas_sum(s.take(n))
                    &&& b.batch_time_ms == (match old(self).start_time() {
                        Some(t) => elapsed_ms(t, now_ms),
                        None => 0,
                    })
                    &&& final(self).pending() == s.skip(n)
                    &&& final(self).batches_created() == old(self).batches_created() + 1
                    &&& final(self).start_time() == (if n == s.len() {
                        None
                    } else {
                        Some(now_ms)
                    })
                    &&& final(self).stats() == stats_after(
                        old(self).stats(),
                        n,
                        b.batch_time_ms as int,
                        b.total_gas as int,
                    )
                    &&& final(self).strategy() == old(self).strategy()
                })
            }),
    {
        let ghost s = self.pending_transactions@;
        let len = self.pending_transactions.len();
        proof {
            if let BatchingStrategy::GasBased { target_gas } = self.strategy {
                assert forall|k: int| #[trigger] gas_cut(s, target_gas, k) implies gas_sum(s.take(k))
                    <= u64::MAX by {
                    let c = choose|c: int| gas_cut(s, target_gas, c);
                    lemma_gas_cut_unique(s, target_gas, k, c);
                }
            }
        }
        let want: usize = match self.strategy {
            BatchingStrategy::FixedSize { size } => size,
            BatchingStrategy::TimeBased { .. } => len,
            BatchingStrategy::Adaptive { max_size, .. } => if max_size < len {
                max_size
            } else {
                len
            },
            BatchingStrategy::GasBased { target_gas } => self.gas_batch_size(target_gas),
            BatchingStrategy::Hybrid { max_size, .. } => if max_size < len {
                max_size
            } else {
                len
            },
        };
        let n: usize = if want < len {
            want
        } else {
            len
        };
        proof {
            if let BatchingStrategy::GasBased { target_gas } = self.strategy {
                if len > 0 {
                    let k = choose|k: int| gas_cut(s, target_gas, k);
                    lemma_gas_cut_unique(s, target_gas, k, n as int);
                }
            }
        }
        assert(n as int == batch_len(self.strategy, s));
        if n == 0 {
            return None;
        }
        let mut transactions: Vec<Transaction> = Vec::new();
        let mut total_gas: u64 = 0;
        let mut i: usize = 0;
        assert(s.take(0) =~= Seq::<Transaction>::empty());
        while i < n
            invariant
                s.len() == len,
                0 <= i <= n <= len,
                gas_sum(s.take(n as int)) <= u64::MAX,
                self.pending_transactions@ == s.skip(i as int),
                transactions@ == s.take(i as int),
                total_gas == gas_sum(s.take(i as int)),
                self.stats == old(self).stats,
                self.total_batches_created == old(self).total_batches_created,
                self.strategy == old(self).strategy,
                self.batch_start_time == old(self).batch_start_time,
                self.current_batch == old(self).current_batch,
            decreases n - i,
        {
            let tx = self.pending_transactions.pop_front().unwrap();
            assert(tx == s[i as int]);
            proof {
                lemma_gas_sum_take_step(s, i as int);
                lemma_gas_sum_take_mono(s, i + 1, n as int);
            }
            total_gas = total_gas + tx.gas_limit;
            transactions.push(tx);
            assert(transactions@ =~= s.take(i + 1));
            assert(self.pending_transactions@ =~= s.skip(i + 1));
            i = i + 1;
        }
        proof {
            lemma_gas_sum_skip(s, n as int);
        }
        let batch_time: u64 = match self.batch_start_time {
            Some(t) => if now_ms >= t {
                now_ms - t
            } else {
                0
            },
            None => 0,
        };
        let batch = Batch {
            batch_id: self.total_batches_created,
            transactions,
            created_at: now_ms / 1000,
            strategy: self.strategy,
            total_gas,
            batch_time_ms: batch_time,
        };
        self.update_stats(n, batch_time, total_gas);
        self.total_batches_created = self.total_batches_created + 1;
        self.batch_start_time = if self.pending_transactions.len() == 0 {
            None
        } else {
            Some(now_ms)
        };
        Some(batch)
    }

    /// Cut a batch now, by the wall clock (see `create_batch_at`).
    pub fn create_batch(&mut self) -> (r: Option<Batch>)
        requires
            old(self).batch_gas_fits(),
            old(self).batches_created() < u64::MAX,
            old(self).stats().total_batches < u64::MAX,
            old(self).stats().total_transactions + old(self).pending().len() <= u64::MAX,
        ensures
            ({
                let s = old(self).pending();
                let n = batch_len(old(self).strategy(), s);
                &&& n == 0 ==> r is None && *final(self) == *old(self)
                &&& n > 0 ==> (r matches Some(b) && {
                    &&& b.batch_id == old(self).batches_created()
                    &&& b.transactions@ == s.take(n)
                    &&& b.strategy == old(self).strategy()
                    &&& b.total_gas == gas_sum(s.take(n))
                    &&& final(self).pending() == s.skip(n)
                    &&& final(self).batches_created() == old(self).batches_created() + 1
                    &&& (final(self).start_time() is None) == (n == s.len())
                    &&& final(self).stats() == stats_after(
                        old(self).stats(),
                        n,
                        b.batch_time_ms as int,
                        b.total_gas as int,
                    )
                    &&& final(self).strategy() == old(self).strategy()
                })
            }),
    {
        let now = now_millis();
        self.create_batch_at(now)
    }

    fn update_stats(&mut self, size: usize, time_ms: u64, gas: u64)
        requires
            old(self).stats.total_batches < u64::MAX,
            old(self).stats.total_transactions + size <= u64::MAX,
        ensures
            final(self).stats == stats_after(old(self).stats, size as int, time_ms as int, gas as int),
            final(self).strategy == old(self).strategy,
            final(self).pending_transactions == old(self).pending_transactions,
            final(self).current_batch == old(self).current_batch,
            final(self).batch_start_time == old(self).batch_start_time,
            final(self).total_batches_created == old(self).total_batches_created,
    {
        let n = self.stats.total_batches + 1;
        let t = self.stats.total_transactions + size as u64;
        self.stats.total_batches = n;
        self.stats.total_transactions = t;
        self.stats.avg_batch_size = t / n;
        self.stats.avg_batch_time_ms = running_avg_u64(self.stats.avg_batch_time_ms, n, time_ms);
        if self.stats.min_batch_size == 0 || size < self.stats.min_batch_size {
            self.stats.min_batch_size = size;
        }
        if size > self.stats.max_batch_size {
            self.stats.max_batch_size = size;
        }
        self.stats.avg_gas_per_batch = running_avg_u64(self.stats.avg_gas_per_batch, n, gas);
    }

    /// The batching statistics.
    pub fn get_stats(&self) -> (s: BatchingStats)
        ensures
            s == self.stats(),
    {
        self.stats
    }

    /// How many transactions are pending.
    pub fn pending_count(&self) -> (n: usize)
        ensures
            n == self.pending().len(),
    {
        self.pending_transactions.len()
    }

    /// Drop all pending transactions and the start time.
    pub fn clear(&mut self)
        ensures
            final(self).pending() == Seq::<Transaction>::empty(),
            final(self).start_time() is None,
            final(self).strategy() == old(self).strategy(),
            final(self).batches_created() == old(self).batches_created(),
            final(self).stats() == old(self).stats(),
    {
        self.pending_transactions.clear();
        self.current_batch.clear();
        self.batch_start_time = None;
    }
}

/// The running average `(avg * (n - 1) + x) / n`, computed without overflow.
fn running_avg_u64(avg: u64, n: u64, x: u64) -> (r: u64)
    requires
        n >= 1,
    ensures
        r == running_avg(avg as int, n as int, x as int),
{
    let prod = crate::util::mul_wide(avg, n - 1);
    assert(prod + x <= u128::MAX) by (nonlinear_arith)
        requires
            prod == avg * (n - 1),
            avg <= u64::MAX,
            n <= u64::MAX,
            x <= u64::MAX,
    ;
    let q = (prod + x as u128) / (n as u128);
    assert(q <= u64::MAX) by (nonlinear_arith)
        requires
            q == (avg * (n - 1) + x) / (n as int),
            n >= 1,
            avg <= u64::MAX,
            x <= u64::MAX,
    {
        assert(avg * (n - 1) + x <= u64::MAX * n) by (nonlinear_arith)
            requires
                n >= 1,
                avg <= u64::MAX,
                x <= u64::MAX,
        ;
    }
    q as u64
}

proof fn lemma_gas_sum_concat(a: Seq<Transaction>, b: Seq<Transaction>)
    ensures
        gas_sum(a + b) == gas_sum(a) + gas_sum(b),
    decreases b.len(),
{
    if b.len() == 0 {
        assert(a + b =~= a);
    } else {
        assert((a + b).drop_last() =~= a + b.drop_last());
        lemma_gas_sum_concat(a, b.drop_last());
    }
}

proof fn lemma_gas_sum_skip(s: Seq<Transaction>, n: int)
    requires
        0 <= n <= s.len(),
    ensures
        gas_sum(s.skip(n)) == gas_sum(s) - gas_sum(s.take(n)),
{
    assert(s =~= s.take(n) + s.skip(n));
    lemma_gas_sum_concat(s.take(n), s.skip(n));
}

impl Batch {
    /// How many transactions the batch holds.
    pub fn size(&self) -> (n: usize)
        ensures
            n == self.transactions@.len(),
    {
        self.transactions.len()
    }

    /// The value transferred by the batch's transactions, added up.
    pub fn total_value(&self) -> (v: u64)
        requires
            value_sum(self.transactions@) <= u64::MAX,
        ensures
            v == value_sum(self.transactions@),
    {
        let ghost s = self.transactions@;
        let mut total: u64 = 0;
        let mut i: usize = 0;
        proof {
            lemma_value_sum_all(s);
        }
        while i < self.transactions.len()
            invariant
                s == self.transactions@,
                value_sum(s) <= u64::MAX,
                0 <= i <= s.len(),
                total == value_sum(s.take(i as int)),
            decreases s.len() - i,
        {
            proof {
                lemma_value_sum_take_step(s, i as int);
                lemma_value_sum_take_mono(s, i + 1, s.len() as int);
                lemma_value_sum_all(s);
            }
            total = total + self.transactions[i].value;
            i = i + 1;
        }
        proof {
            lemma_value_sum_all(s);
        }
        total
    }

    /// The binary layout of the batch: its fields in order, fixed-width little-endian
    /// integers, the transactions as a count followed by each transaction's layout, and the
    /// strategy as a 32-bit variant index followed by its fields (sizes as 64 bits).
    pub open spec fn encoding_spec(&self) -> Seq<u8> {
        spec_u64_to_le_bytes(self.batch_id) + spec_u64_to_le_bytes(self.transactions@.len() as u64)
            + encode_txs(self.transactions@) + spec_u64_to_le_bytes(self.created_at)
            + encode_strategy(self.strategy) + spec_u64_to_le_bytes(self.total_gas)
            + spec_u64_to_le_bytes(self.batch_time_ms)
    }

    /// The batch's binary layout (see `encoding_spec`).
    pub fn encode(&self) -> (out: Vec<u8>)
        ensures
            out@ == self.encoding_spec(),
    {
        let mut out: Vec<u8> = Vec::new();
        crate::types::append_u64(&mut out, self.batch_id);
        crate::types::append_u64(&mut out, self.transactions.len() as u64);
        let ghost head = out@;
        let ghost s = self.transactions@;
        let mut i: usize = 0;
        while i < self.transactions.len()
            invariant
                s == self.transactions@,
                0 <= i <= s.len(),
                out@ == head + encode_txs(s.take(i as int)),
            decreases s.len() - i,
        {
            let b = self.transactions[i].encode();
            crate::types::append_bytes(&mut out, b.as_slice());
            assert(s.take(i + 1).drop_last() =~= s.take(i as int));
            assert(out@ =~= head + encode_txs(s.take(i + 1)));
            i = i + 1;
        }
        assert(s.take(s.len() as int) =~= s);
        crate::types::append_u64(&mut out, self.created_at);
        let ghost mid = out@;
        append_strategy(&mut out, self.strategy);
        crate::types::append_u64(&mut out, self.total_gas);
        crate::types::append_u64(&mut out, self.batch_time_ms);
        assert(out@ =~= self.encoding_spec());
        out
    }

    /// The batch's hash: SHA-256 of its binary layout.
    pub fn hash(&self) -> (h: crate::hash_utils::Hash)
        ensures
            h@ == crate::hash_utils::sha256_spec(self.encoding_spec()),
    {
        let bytes = self.encode();
        crate::hash_utils::Hash::new(bytes.as_slice())
    }
}

/// The transactions' layouts, one after another.
pub open spec fn encode_txs(s: Seq<Transaction>) -> Seq<u8>
    decreases s.len(),
{
    if s.len() == 0 {
        Seq::empty()
    } else {
        encode_txs(s.drop_last()) + s.last().encoding_spec()
    }
}

/// A size in the binary layout: 64 bits, little-endian.
pub open spec fn encode_usize(x: usize) -> Seq<u8> {
    spec_u64_to_le_bytes(x as u64)
}

/// A strategy in the binary layout: its variant index as 32 bits, then its fields.
pub open spec fn encode_strategy(s: BatchingStrategy) -> Seq<u8> {
    match s {
        BatchingStrategy::FixedSize { size } => spec_u32_to_le_bytes(0) + encode_usize(size),
        BatchingStrategy::TimeBased { interval_ms } => spec_u32_to_le_bytes(1)
            + spec_u64_to_le_bytes(interval_ms),
        BatchingStrategy::Adaptive { min_size, max_size, max_wait_ms } => spec_u32_to_le_bytes(2)
            + encode_usize(min_size) + encode_usize(max_size) + spec_u64_to_le_bytes(max_wait_ms),
        BatchingStrategy::GasBased { target_gas } => spec_u32_to_le_bytes(3) + spec_u64_to_le_bytes(
            target_gas,
        ),
        BatchingStrategy::Hybrid { min_size, max_size, max_wait_ms, target_gas } =>
            spec_u32_to_le_bytes(4) + encode_usize(min_size) + encode_usize(max_size)
            + spec_u64_to_le_bytes(max_wait_ms) + spec_u64_to_le_bytes(target_gas),
    }
}

fn append_u32(out: &mut Vec<u8>, x: u32)
    ensures
        final(out)@ == old(out)@ + spec_u32_to_le_bytes(x),
{
    let b = u32_to_le_bytes(x);
    crate::types::append_bytes(out, b.as_slice());
}

fn append_strategy(out: &mut Vec<u8>, s: BatchingStrategy)
    ensures
        final(out)@ == old(out)@ + encode_strategy(s),
{
    match s {
        BatchingStrategy::FixedSize { size } => {
            append_u32(out, 0);
            crate::types::append_u64(out, size as u64);
        },
        BatchingStrategy::TimeBased { interval_ms } => {
            append_u32(out, 1);
            crate::types::append_u64(out, interval_ms);
        },
        BatchingStrategy::Adaptive { min_size, max_size, max_wait_ms } => {
            append_u32(out, 2);
            crate::types::append_u64(out, min_size as u64);
            crate::types::append_u64(out, max_size as u64);
            crate::types::append_u64(out, max_wait_ms);
        },
        BatchingStrategy::GasBased { target_gas } => {
            append_u32(out, 3);
            crate::types::append_u64(out, target_gas);
        },
        BatchingStrategy::Hybrid { min_size, max_size, max_wait_ms, target_gas } => {
            append_u32(out, 4);
            crate::types::append_u64(out, min_size as u64);
            crate::types::append_u64(out, max_size as u64);
            crate::types::append_u64(out, max_wait_ms);
            crate::types::append_u64(out, target_gas);
        },
    }
    assert(final(out)@ =~= old(out)@ + encode_strategy(s));
}

proof fn lemma_value_sum_take_step(s: Seq<Transaction>, n: int)
    requires
        0 <= n < s.len(),
    ensures
        value_sum(s.take(n + 1)) == value_sum(s.take(n)) + s[n].value,
{
    assert(s.take(n + 1).drop_last() =~= s.take(n));
}

proof fn lemma_value_sum_take_mono(s: Seq<Transaction>, a: int, b: int)
    requires
        0 <= a <= b <= s.len(),
    ensures
        value_sum(s.take(a)) <= value_sum(s.take(b)),
    decreases b - a,
{
    if a < b {
        lemma_value_sum_take_mono(s, a, b - 1);
        lemma_value_sum_take_step(s, b - 1);
    }
}

proof fn lemma_value_sum_all(s: Seq<Transaction>)
    ensures
        value_sum(s.take(s.len() as int)) == value_sum(s),
{
    assert(s.take(s.len() as int) =~= s);
}

/// Network load is given in millionths (700_000 is 70%).
pub const LOAD_SCALE: u64 = 1_000_000;

/// Suggests a batching strategy from the network load.
pub struct BatchOptimizer {
    network_load: u64,
    avg_tx_rate: u64,
}

impl BatchOptimizer {
    pub closed spec fn load(&self) -> u64 {
        self.network_load
    }

    pub closed spec fn tx_rate(&self) -> u64 {
        self.avg_tx_rate
    }

    /// Half load, ten transactions a second.
    pub fn new() -> (o: Self)
        ensures
            o.load() == LOAD_SCALE / 2,
            o.tx_rate() == 10,
    {
        BatchOptimizer { network_load: LOAD_SCALE / 2, avg_tx_rate: 10 }
    }

    /// Record the network conditions; the load is capped at 100%.
    pub fn update_conditions(&mut self, load: u64, tx_rate: u64)
        ensures
            final(self).load() == (if load > LOAD_SCALE {
                LOAD_SCALE
            } else {
                load
            }),
            final(self).tx_rate() == tx_rate,
    {
        self.network_load = if load > LOAD_SCALE {
            LOAD_SCALE
        } else {
            load
        };
        self.avg_tx_rate = tx_rate;
    }

    /// A hybrid strategy: above 70% load large batches with short waits, above 30% a balanced
    /// one, else small batches with long waits.
    pub fn suggest_strategy(&self) -> (s: BatchingStrategy)
        ensures
            s == suggested_spec(self.load()),
    {
        if self.network_load > 700_000 {
            BatchingStrategy::Hybrid {
                min_size: 100,
                max_size: 500,
                max_wait_ms: 1000,
                target_gas: 10_000_000,
            }
        } else if self.network_load > 300_000 {
            BatchingStrategy::Hybrid {
                min_size: 50,
                max_size: 200,
                max_wait_ms: 2000,
                target_gas: 5_000_000,
            }
        } else {
            BatchingStrategy::Hybrid {
                min_size: 20,
                max_size: 100,
                max_wait_ms: 5000,
                target_gas: 2_000_000,
            }
        }
    }
}

/// The strategy suggested at `load` millionths.
pub open spec fn suggested_spec(load: u64) -> BatchingStrategy {
    if load > 700_000 {
        BatchingStrategy::Hybrid { min_size: 100, max_size: 500, max_wait_ms: 1000, target_gas: 10_000_000 }
    } else if load > 300_000 {
        BatchingStrategy::Hybrid { min_size: 50, max_size: 200, max_wait_ms: 2000, target_gas: 5_000_000 }
    } else {
        BatchingStrategy::Hybrid { min_size: 20, max_size: 100, max_wait_ms: 5000, target_gas: 2_000_000 }
    }
}

/// The suggestion is always hybrid and grows with the load: at a higher load the batches are
/// at least as large (in minimum and maximum size, and in gas target) and the wait is no
/// longer. Above 70% load the batches run from 100 to 500 transactions within a second, up to
/// 10M gas; above 30% and up to 70% from 50 to 200 within two seconds, up to 5M gas; at 30%
/// or below from 20 to 100 within five seconds, up to 2M gas.
pub proof fn lemma_suggestion_follows_load(lo: u64, hi: u64)
    requires
        lo <= hi,
    ensures
        suggested_spec(lo) matches BatchingStrategy::Hybrid { min_size: n1, max_size: x1, max_wait_ms: w1, target_gas: g1 }
            && suggested_spec(hi) matches BatchingStrategy::Hybrid { min_size: n2, max_size: x2, max_wait_ms: w2, target_gas: g2 }
            && n1 <= n2 && x1 <= x2 && w1 >= w2 && g1 <= g2,
        hi > 700_000 ==> suggested_spec(hi) == (BatchingStrategy::Hybrid {
            min_size: 100,
            max_size: 500,
            max_wait_ms: 1000,
            target_gas: 10_000_000,
        }),
        300_000 < hi <= 700_000 ==> suggested_spec(hi) == (BatchingStrategy::Hybrid {
            min_size: 50,
            max_size: 200,
            max_wait_ms: 2000,
            target_gas: 5_000_000,
        }),
        lo <= 300_000 ==> suggested_spec(lo) == (BatchingStrategy::Hybrid {
            min_size: 20,
            max_size: 100,
            max_wait_ms: 5000,
            target_gas: 2_000_000,
        }),
{
}

impl Default for BatchOptimizer {
    fn default() -> (o: Self)
        ensures
            o.load() == LOAD_SCALE / 2,
            o.tx_rate() == 10,
    {
        Self::new()
    }
}

/// When a batch is due, for `len` pending transactions holding `gas`, the oldest having waited
/// `waited` milliseconds (none recorded: nothing has waited): never with nothing pending; a
/// fixed-size batch once `size` are pending; a gas-based one once the gas reaches the target;
/// a time-based one once the recorded wait reaches the interval; an adaptive one at its
/// maximum size, or at its minimum size once the maximum wait is reached; and a hybrid one
/// exactly when the adaptive or the gas-based rule with its parameters says so.
pub proof fn lemma_due_rules(len: int, gas: int, waited: Option<int>, a: usize, b: usize, t: u64, g: u64)
    requires
        len >= 0,
    ensures
        len == 0 ==> !due_spec(BatchingStrategy::FixedSize { size: a }, len, gas, waited)
            && !due_spec(BatchingStrategy::GasBased { target_gas: g }, len, gas, waited)
            && !due_spec(BatchingStrategy::TimeBased { interval_ms: t }, len, gas, waited),
        len > 0 ==> (due_spec(BatchingStrategy::FixedSize { size: a }, len, gas, waited) <==> len >= a),
        len > 0 ==> (due_spec(BatchingStrategy::GasBased { target_gas: g }, len, gas, waited) <==> gas >= g),
        len > 0 ==> (due_spec(BatchingStrategy::TimeBased { interval_ms: t }, len, gas, waited) <==> (waited matches Some(w)
            && w >= t)),
        len > 0 ==> (due_spec(BatchingStrategy::Adaptive { min_size: a, max_size: b, max_wait_ms: t }, len, gas, waited)
            <==> (len >= b || (len >= a && (match waited {
            Some(w) => w,
            None => 0,
        }) >= t))),
        due_spec(BatchingStrategy::Hybrid { min_size: a, max_size: b, max_wait_ms: t, target_gas: g }, len, gas, waited)
            == (due_spec(BatchingStrategy::Adaptive { min_size: a, max_size: b, max_wait_ms: t }, len, gas, waited)
            || due_spec(BatchingStrategy::GasBased { target_gas: g }, len, gas, waited)),
{
}

/// A running average stays the average: after the `n`-th sample `x`, `n` times the new
/// average is the old total `avg * (n - 1)` plus `x`, rounded down to a multiple of `n`.
pub proof fn lemma_running_avg(avg: int, n: int, x: int)
    requires
        n >= 1,
        avg >= 0,
        x >= 0,
    ensures
        running_avg(avg, n, x) * n <= avg * (n - 1) + x < (running_avg(avg, n, x) + 1) * n,
{
    assert(avg * (n - 1) >= 0) by (nonlinear_arith)
        requires
            avg >= 0,
            n >= 1,
    ;
    crate::util::lemma_floor_div(avg * (n - 1) + x, n);
}

} // verus!
