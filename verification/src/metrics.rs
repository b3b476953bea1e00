use vstd::prelude::*;

use crate::network_monitor::{ratio, ratio_spec};
use crate::table::StrMap;

verus! {

/// The hour a transaction is counted under, as `chrono` writes the current UTC time with
/// the pattern `%Y-%m-%d-%H`. Nothing is promised of the text, which depends on the clock.
#[verifier::external_body]
fn current_hour_key() -> String {
    chrono::Utc::now().format("%Y-%m-%d-%H").to_string()
}

/// `a` comes before `b` or equals it, comparing characters by code point; a prefix comes
/// first. This is the order of `str::cmp`, since UTF-8 keeps code-point order.
pub open spec fn lex_le(a: Seq<char>, b: Seq<char>) -> bool
    decreases a.len(),
{
    if a.len() == 0 {
        true
    } else if b.len() == 0 {
        false
    } else if (a[0] as u32) != (b[0] as u32) {
        (a[0] as u32) < (b[0] as u32)
    } else {
        lex_le(a.drop_first(), b.drop_first())
    }
}

/// Any two strings are ordered one way or the other.
pub proof fn lemma_lex_total(a: Seq<char>, b: Seq<char>)
    ensures
        lex_le(a, b) || lex_le(b, a),
    decreases a.len(),
{
    if a.len() > 0 && b.len() > 0 && (a[0] as u32) == (b[0] as u32) {
        lemma_lex_total(a.drop_first(), b.drop_first());
    }
}

/// Every string comes before or equals itself.
pub proof fn lemma_lex_refl(a: Seq<char>)
    ensures
        lex_le(a, a),
    decreases a.len(),
{
    if a.len() > 0 {
        lemma_lex_refl(a.drop_first());
    }
}

/// The order is transitive.
pub proof fn lemma_lex_trans(a: Seq<char>, b: Seq<char>, c: Seq<char>)
    requires
        lex_le(a, b),
        lex_le(b, c),
    ensures
        lex_le(a, c),
    decreases a.len(),
{
    if a.len() > 0 && b.len() > 0 && c.len() > 0 && (a[0] as u32) == (b[0] as u32) && (b[0]
        as u32) == (c[0] as u32) {
        lemma_lex_trans(a.drop_first(), b.drop_first(), c.drop_first());
    }
}

/// Whether `a` comes before `b` or equals it (see `lex_le`).
pub fn str_le(a: &str, b: &str) -> (r: bool)
    ensures
        r == lex_le(a@, b@),
{
    let na = a.unicode_len();
    let nb = b.unicode_len();
    let mut i: usize = 0;
    assert(a@.skip(0) =~= a@);
    assert(b@.skip(0) =~= b@);
    while i < na && i < nb
        invariant
            na == a@.len(),
            nb == b@.len(),
            0 <= i <= na,
            i <= nb,
            lex_le(a@, b@) == lex_le(a@.skip(i as int), b@.skip(i as int)),
        decreases na - i,
    {
        let ca = a.get_char(i);
        let cb = b.get_char(i);
        assert(a@.skip(i as int)[0] == ca);
        assert(b@.skip(i as int)[0] == cb);
        if (ca as u32) != (cb as u32) {
            return (ca as u32) < (cb as u32);
        }
        assert(a@.skip(i as int).drop_first() =~= a@.skip(i + 1));
        assert(b@.skip(i as int).drop_first() =~= b@.skip(i + 1));
        i = i + 1;
    }
    i == na
}

/// Transactions and gas counted in one hour.
#[derive(Debug, Clone)]
pub struct HourlyStats {
    pub hour: String,
    pub transaction_count: u64,
    pub gas_used: u64,
}

/// Whether the entries are ordered by hour.
pub open spec fn sorted_by_hour(s: Seq<HourlyStats>) -> bool {
    forall|i: int, j: int| 0 <= i < j < s.len() ==> lex_le(s[i].hour@, s[j].hour@)
}

/// A view of the counters. Rates are given in millionths (1_000_000 is 1.0): the success
/// rate is the share of transactions that succeeded, not a percentage.
#[derive(Debug, Clone, Copy, PartialEq, Eq, Structural)]
pub struct MetricsSnapshot {
    pub uptime_seconds: u64,
    pub total_transactions: u64,
    pub successful_transactions: u64,
    pub failed_transactions: u64,
    /// In millionths.
    pub success_rate_ppm: u64,
    pub total_batches: u64,
    pub total_settled_batches: u64,
    pub avg_tx_processing_time_ms: u64,
    pub avg_batch_creation_time_ms: u64,
    pub total_bytes_processed: u64,
    pub total_bytes_settled: u64,
    pub total_fees_collected: u64,
    pub total_gas_used: u64,
    pub current_state_size: usize,
    pub total_accounts: usize,
    /// In millionths.
    pub transactions_per_second_ppm: u64,
}

/// The running mean after one more sample: `(avg * (n - 1) + x) / n`, rounded down.
pub open spec fn next_mean(avg: u64, n: u64, x: u64) -> int {
    (avg * (n - 1) + x) / (n as int)
}

/// Counters of transactions, batches, bytes, fees and gas, with hourly breakdowns.
pub struct MetricsCollector {
    total_transactions: u64,
    successful_transactions: u64,
    failed_transactions: u64,
    total_batches: u64,
    total_settled_batches: u64,
    avg_tx_processing_time_ms: u64,
    avg_batch_creation_time_ms: u64,
    total_bytes_processed: u64,
    total_bytes_settled: u64,
    total_fees_collected: u64,
    total_gas_used: u64,
    current_state_size: usize,
    total_accounts: usize,
    hourly_tx_count: StrMap<u64>,
    hourly_gas_used: StrMap<u64>,
    start_time: u64,
}

/// The counters of a `MetricsCollector`, as plain values.
pub struct MetricsModel {
    pub total_transactions: u64,
    pub successful_transactions: u64,
    pub failed_transactions: u64,
    pub total_batches: u64,
    pub total_settled_batches: u64,
    pub avg_tx_processing_time_ms: u64,
    pub avg_batch_creation_time_ms: u64,
    pub total_bytes_processed: u64,
    pub total_bytes_settled: u64,
    pub total_fees_collected: u64,
    pub total_gas_used: u64,
    pub current_state_size: usize,
    pub total_accounts: usize,
    pub hourly_tx: Map<Seq<char>, u64>,
    pub hourly_gas: Map<Seq<char>, u64>,
    pub start_time: u64,
}

/// `x + y`, wrapping at 2^64 as an atomic counter does.
pub open spec fn wrap_add(x: u64, y: u64) -> u64 {
    if x + y > u64::MAX {
        (x + y - 0x1_0000_0000_0000_0000) as u64
    } else {
        (x + y) as u64
    }
}

/// The gas recorded for `hour`, 0 when none was.
pub open spec fn gas_or_zero(m: Map<Seq<char>, u64>, hour: Seq<char>) -> u64 {
    if m.dom().contains(hour) {
        m[hour]
    } else {
        0
    }
}

impl View for MetricsCollector {
    type V = MetricsModel;

    closed spec fn view(&self) -> MetricsModel {
        MetricsModel {
            total_transactions: self.total_transactions,
            successful_transactions: self.successful_transactions,
            failed_transactions: self.failed_transactions,
            total_batches: self.total_batches,
            total_settled_batches: self.total_settled_batches,
            avg_tx_processing_time_ms: self.avg_tx_processing_time_ms,
            avg_batch_creation_time_ms: self.avg_batch_creation_time_ms,
            total_bytes_processed: self.total_bytes_processed,
            total_bytes_settled: self.total_bytes_settled,
            total_fees_collected: self.total_fees_collected,
            total_gas_used: self.total_gas_used,
            current_state_size: self.current_state_size,
            total_accounts: self.total_accounts,
            hourly_tx: self.hourly_tx_count@,
            hourly_gas: self.hourly_gas_used@,
            start_time: self.start_time,
        }
    }
}

impl MetricsCollector {
    /// Every transaction succeeded or failed, and no hour counts more transactions than
    /// succeeded.
    pub closed spec fn wf(&self) -> bool {
        &&& self.hourly_tx_count.wf()
        &&& self.hourly_gas_used.wf()
        &&& self.successful_transactions + self.failed_transactions == self.total_transactions
        &&& forall|k: Seq<char>|
            #[trigger] self.hourly_tx_count@.dom().contains(k) ==> self.hourly_tx_count@[k]
                <= self.successful_transactions
    }

    /// The counters always add up: every transaction counted is either a success or a
    /// failure, and no hour counts more transactions than have succeeded.
    pub proof fn lemma_counts_add_up(&self)
        requires
            self.wf(),
        ensures
            self@.successful_transactions + self@.failed_transactions == self@.total_transactions,
            forall|h: Seq<char>| #[trigger] self@.hourly_tx.dom().contains(h) ==> self@.hourly_tx[h]
                <= self@.successful_transactions,
    {
    }

    /// A collector with every counter at zero, started at `start_time` (seconds).
    pub fn new_at(start_time: u64) -> (m: Self)
        ensures
            m.wf(),
            m@.total_transactions == 0 && m@.successful_transactions == 0
                && m@.failed_transactions == 0,
            m@.total_batches == 0 && m@.total_settled_batches == 0,
            m@.avg_tx_processing_time_ms == 0 && m@.avg_batch_creation_time_ms == 0,
            m@.total_bytes_processed == 0 && m@.total_bytes_settled == 0,
            m@.total_fees_collected == 0 && m@.total_gas_used == 0,
            m@.current_state_size == 0 && m@.total_accounts == 0,
            m@.hourly_tx == Map::<Seq<char>, u64>::empty(),
            m@.hourly_gas == Map::<Seq<char>, u64>::empty(),
            m@.start_time == start_time,
    {
        MetricsCollector {
            total_transactions: 0,
            successful_transactions: 0,
            failed_transactions: 0,
            total_batches: 0,
            total_settled_batches: 0,
            avg_tx_processing_time_ms: 0,
            avg_batch_creation_time_ms: 0,
            total_bytes_processed: 0,
            total_bytes_settled: 0,
            total_fees_collected: 0,
            total_gas_used: 0,
            current_state_size: 0,
            total_accounts: 0,
            hourly_tx_count: StrMap::new(),
            hourly_gas_used: StrMap::new(),
            start_time,
        }
    }

    /// A collector with every counter at zero, started now.
    pub fn new() -> (m: Self)
        ensures
            m.wf(),
            m@.total_transactions == 0 && m@.successful_transactions == 0
                && m@.failed_transactions == 0,
            m@.total_batches == 0 && m@.total_settled_batches == 0,
            m@.avg_tx_processing_time_ms == 0 && m@.avg_batch_creation_time_ms == 0,
            m@.total_bytes_processed == 0 && m@.total_bytes_settled == 0,
            m@.total_fees_collected == 0 && m@.total_gas_used == 0,
            m@.current_state_size == 0 && m@.total_accounts == 0,
            m@.hourly_tx == Map::<Seq<char>, u64>::empty(),
            m@.hourly_gas == Map::<Seq<char>, u64>::empty(),
    {
        Self::new_at(crate::clock::now_secs())
    }

    /// Count a successful transaction under `hour`: the totals go up (gas and fees wrap as
    /// atomic counters do), the mean processing time takes the new sample, and the hour's
    /// transaction count and gas go up.
    pub fn record_transaction_success_at(
        &mut self,
        processing_time_ms: u64,
        gas_used: u64,
        fee: u64,
        hour: String,
    )
        requires
            old(self).wf(),
            old(self)@.total_transactions < u64::MAX,
            gas_or_zero(old(self)@.hourly_gas, hour@) + gas_used <= u64::MAX,
        ensures
            final(self).wf(),
            final(self)@.total_transactions == old(self)@.total_transactions + 1,
            final(self)@.successful_transactions == old(self)@.successful_transactions + 1,
            final(self)@.failed_transactions == old(self)@.failed_transactions,
            final(self)@.total_gas_used == wrap_add(old(self)@.total_gas_used, gas_used),
            final(self)@.total_fees_collected == wrap_add(old(self)@.total_fees_collected, fee),
            final(self)@.avg_tx_processing_time_ms == next_mean(
                old(self)@.avg_tx_processing_time_ms,
                final(self)@.total_transactions,
                processing_time_ms,
            ),
            final(self)@.hourly_tx == old(self)@.hourly_tx.insert(
                hour@,
                (if old(self)@.hourly_tx.dom().contains(hour@) {
                    old(self)@.hourly_tx[hour@] + 1
                } else {
                    1
                }) as u64,
            ),
            final(self)@.hourly_gas == old(self)@.hourly_gas.insert(
                hour@,
                (gas_or_zero(old(self)@.hourly_gas, hour@) + gas_used) as u64,
            ),
            final(self)@.total_batches == old(self)@.total_batches,
            final(self)@.total_settled_batches == old(self)@.total_settled_batches,
            final(self)@.avg_batch_creation_time_ms == old(self)@.avg_batch_creation_time_ms,
            final(self)@.total_bytes_processed == old(self)@.total_bytes_processed,
            final(self)@.total_bytes_settled == old(self)@.total_bytes_settled,
            final(self)@.current_state_size == old(self)@.current_state_size,
            final(self)@.total_accounts == old(self)@.total_accounts,
            final(self)@.start_time == old(self)@.start_time,
    {
        self.total_transactions = self.total_transactions + 1;
        self.successful_transactions = self.successful_transactions + 1;
        self.total_gas_used = self.total_gas_used.wrapping_add(gas_used);
        self.total_fees_collected = self.total_fees_collected.wrapping_add(fee);
        self.avg_tx_processing_time_ms = running_mean(
            self.avg_tx_processing_time_ms,
            self.total_transactions,
            processing_time_ms,
        );
        let ghost tx0 = self.hourly_tx_count@;
        let count: u64 = match self.hourly_tx_count.get(hour.as_str()) {
            Some(c) => *c + 1,
            None => 1,
        };
        let gas: u64 = match self.hourly_gas_used.get(hour.as_str()) {
            Some(g) => *g + gas_used,
            None => gas_used,
        };
        self.hourly_tx_count.insert(hour.clone(), count);
        self.hourly_gas_used.insert(hour, gas);
        proof {
            assert forall|k: Seq<char>| #[trigger]
                self.hourly_tx_count@.dom().contains(k) implies self.hourly_tx_count@[k]
                <= self.successful_transactions by {
                if k != hour@ {
                    assert(tx0.dom().contains(k));
                }
            }
        }
    }

    /// Count a successful transaction under the current hour (see
    /// `record_transaction_success_at`).
    pub fn record_transaction_success(&mut self, processing_time_ms: u64, gas_used: u64, fee: u64)
        requires
            old(self).wf(),
            old(self)@.total_transactions < u64::MAX,
            forall|k: Seq<char>|
                #[trigger] old(self)@.hourly_gas.dom().contains(k) ==> old(self)@.hourly_gas[k]
                    + gas_used <= u64::MAX,
        ensures
            final(self).wf(),
            exists|hour: Seq<char>| #[trigger]
                success_recorded(old(self)@, final(self)@, processing_time_ms, gas_used, fee, hour),
    {
        let hour = current_hour_key();
        self.record_transaction_success_at(processing_time_ms, gas_used, fee, hour);
        assert(success_recorded(old(self)@, self@, processing_time_ms, gas_used, fee, hour@));
    }

    /// Count a failed transaction.
    pub fn record_transaction_failure(&mut self)
        requires
            old(self).wf(),
            old(self)@.total_transactions < u64::MAX,
        ensures
            final(self).wf(),
            final(self)@ == (MetricsModel {
                total_transactions: (old(self)@.total_transactions + 1) as u64,
                failed_transactions: (old(self)@.failed_transactions + 1) as u64,
                ..old(self)@
            }),
    {
        self.total_transactions = self.total_transactions + 1;
        self.failed_transactions = self.failed_transactions + 1;
    }

    /// Count a created batch: the mean creation time takes the new sample, and the bytes
    /// processed go up (wrapping).
    pub fn record_batch_created(&mut self, creation_time_ms: u64, batch_size_bytes: u64)
        requires
            old(self).wf(),
            old(self)@.total_batches < u64::MAX,
        ensures
            final(self).wf(),
            final(self)@ == (MetricsModel {
                total_batches: (old(self)@.total_batches + 1) as u64,
                total_bytes_processed: wrap_add(old(self)@.total_bytes_processed, batch_size_bytes),
                avg_batch_creation_time_ms: next_mean(
                    old(self)@.avg_batch_creation_time_ms,
                    (old(self)@.total_batches + 1) as u64,
                    creation_time_ms,
                ) as u64,
                ..old(self)@
            }),
    {
        self.total_batches = self.total_batches + 1;
        self.total_bytes_processed = self.total_bytes_processed.wrapping_add(batch_size_bytes);
        self.avg_batch_creation_time_ms = running_mean(
            self.avg_batch_creation_time_ms,
            self.total_batches,
            creation_time_ms,
        );
    }

    /// Count a settled batch and its bytes (both wrapping).
    pub fn record_batch_settled(&mut self, settlement_size_bytes: u64)
        requires
            old(self).wf(),
        ensures
            final(self).wf(),
            final(self)@ == (MetricsModel {
                total_settled_batches: wrap_add(old(self)@.total_settled_batches, 1),
                total_bytes_settled: wrap_add(old(self)@.total_bytes_settled, settlement_size_bytes),
                ..old(self)@
            }),
    {
        self.total_settled_batches = self.total_settled_batches.wrapping_add(1);
        self.total_bytes_settled = self.total_bytes_settled.wrapping_add(settlement_size_bytes);
    }

    /// Set the current state size.
    pub fn update_state_size(&mut self, size: usize)
        requires
            old(self).wf(),
        ensures
            final(self).wf(),
            final(self)@ == (MetricsModel { current_state_size: size, ..old(self)@ }),
    {
        self.current_state_size = size;
    }

    /// Set the number of accounts.
    pub fn update_account_count(&mut self, count: usize)
        requires
            old(self).wf(),
        ensures
            final(self).wf(),
            final(self)@ == (MetricsModel { total_accounts: count, ..old(self)@ }),
    {
        self.total_accounts = count;
    }

    /// The counters at time `now` (seconds): the uptime is `now - start` (wrapping, as a
    /// negative duration cast to unsigned does), the success rate is successes over all
    /// transactions, and the throughput is transactions over uptime; both are 0 when their
    /// divisor is.
    pub fn get_snapshot_at(&self, now: u64) -> (s: MetricsSnapshot)
        ensures
            s == snapshot_spec(self@, now),
    {
        let uptime_seconds = now.wrapping_sub(self.start_time);
        let total_tx = self.total_transactions;
        let success_tx = self.successful_transactions;
        MetricsSnapshot {
            uptime_seconds,
            total_transactions: total_tx,
            successful_transactions: success_tx,
            failed_transactions: self.failed_transactions,
            success_rate_ppm: if total_tx > 0 {
                ratio(success_tx, total_tx)
            } else {
                0
            },
            total_batches: self.total_batches,
            total_settled_batches: self.total_settled_batches,
            avg_tx_processing_time_ms: self.avg_tx_processing_time_ms,
            avg_batch_creation_time_ms: self.avg_batch_creation_time_ms,
            total_bytes_processed: self.total_bytes_processed,
            total_bytes_settled: self.total_bytes_settled,
            total_fees_collected: self.total_fees_collected,
            total_gas_used: self.total_gas_used,
            current_state_size: self.current_state_size,
            total_accounts: self.total_accounts,
            transactions_per_second_ppm: if uptime_seconds > 0 {
                ratio(total_tx, uptime_seconds)
            } else {
                0
            },
        }
    }

    /// The counters now (see `get_snapshot_at`).
    pub fn get_snapshot(&self) -> (s: MetricsSnapshot)
        ensures
            exists|now: u64| s == #[trigger] snapshot_spec(self@, now),
    {
        self.get_snapshot_at(crate::clock::now_secs())
    }

    /// One entry per hour counted, with its transactions and gas (0 when no gas was
    /// recorded for it), ordered by hour.
    pub fn get_hourly_stats(&self) -> (r: Vec<HourlyStats>)
        requires
            self.wf(),
        ensures
            sorted_by_hour(r@),
            r@.len() == self@.hourly_tx.dom().len(),
            forall|i: int|
                0 <= i < r@.len() ==> #[trigger] self@.hourly_tx.dom().contains(r@[i].hour@)
                    && r@[i].transaction_count == self@.hourly_tx[r@[i].hour@]
                    && r@[i].gas_used == gas_or_zero(self@.hourly_gas, r@[i].hour@),
            forall|k: Seq<char>|
                #[trigger] self@.hourly_tx.dom().contains(k) ==> exists|i: int|
                    0 <= i < r@.len() && r@[i].hour@ == k,
    {
        proof {
            self.hourly_tx_count.lemma_view();
        }
        let n = self.hourly_tx_count.len_entries();
        let mut stats: Vec<HourlyStats> = Vec::new();
        let mut i: usize = 0;
        while i < n
            invariant
                n == self.hourly_tx_count.entries().len(),
                0 <= i <= n,
                stats@.len() == i,
                self.hourly_tx_count.wf(),
                self.hourly_gas_used.wf(),
                forall|j: int|
                    0 <= j < i ==> #[trigger] stats@[j].hour@
                        == self.hourly_tx_count.entries()[j].0@ && stats@[j].transaction_count
                        == self.hourly_tx_count.entries()[j].1 && stats@[j].gas_used
                        == gas_or_zero(self.hourly_gas_used@, stats@[j].hour@),
            decreases n - i,
        {
            let hour = self.hourly_tx_count.key_at(i).clone();
            let tx_count = *self.hourly_tx_count.value_at(i);
            let gas_used = match self.hourly_gas_used.get(hour.as_str()) {
                Some(g) => *g,
                None => 0,
            };
            stats.push(HourlyStats { hour, transaction_count: tx_count, gas_used });
            i = i + 1;
        }
        let ghost unsorted = stats@;
        let sorted = sort_by_hour(stats);
        proof {
            broadcast use vstd::seq_lib::group_to_multiset_ensures;
            assert forall|j: int|
                0 <= j < sorted@.len() implies #[trigger] self@.hourly_tx.dom().contains(
                sorted@[j].hour@,
            ) && sorted@[j].transaction_count == self@.hourly_tx[sorted@[j].hour@]
                && sorted@[j].gas_used == gas_or_zero(self@.hourly_gas, sorted@[j].hour@) by {
                let x = sorted@[j];
                assert(sorted@.contains(x));
                assert(sorted@.to_multiset().count(x) > 0);
                assert(unsorted.to_multiset().count(x) > 0);
                assert(unsorted.contains(x));
                let m = choose|m: int| 0 <= m < unsorted.len() && unsorted[m] == x;
                assert(unsorted[m].hour@ == self.hourly_tx_count.entries()[m].0@);
                assert(self.hourly_tx_count@.dom().contains(self.hourly_tx_count.entries()[m].0@));
            }
            assert forall|k: Seq<char>| #[trigger]
                self@.hourly_tx.dom().contains(k) implies exists|j: int|
                0 <= j < sorted@.len() && sorted@[j].hour@ == k by {
                let m = choose|m: int|
                    0 <= m < self.hourly_tx_count.entries().len()
                        && self.hourly_tx_count.entries()[m].0@ == k;
                let x = unsorted[m];
                assert(unsorted[m].hour@ == self.hourly_tx_count.entries()[m].0@);
                assert(unsorted.contains(x));
                assert(unsorted.to_multiset().count(x) > 0);
                assert(sorted@.to_multiset().count(x) > 0);
                assert(sorted@.contains(x));
            }
            assert(sorted@.len() == unsorted.len()) by {
                assert(sorted@.to_multiset().len() == unsorted.to_multiset().len());
            }
        }
        sorted
    }

    /// Set every counter but the state size, the account count and the means back to zero,
    /// and forget the hourly breakdowns.
    pub fn reset(&mut self)
        requires
            old(self).wf(),
        ensures
            final(self).wf(),
            final(self)@ == (MetricsModel {
                total_transactions: 0,
                successful_transactions: 0,
                failed_transactions: 0,
                total_batches: 0,
                total_settled_batches: 0,
                total_bytes_processed: 0,
                total_bytes_settled: 0,
                total_fees_collected: 0,
                total_gas_used: 0,
                hourly_tx: Map::empty(),
                hourly_gas: Map::empty(),
                ..old(self)@
            }),
    {
        self.total_transactions = 0;
        self.successful_transactions = 0;
        self.failed_transactions = 0;
        self.total_batches = 0;
        self.total_settled_batches = 0;
        self.total_bytes_processed = 0;
        self.total_bytes_settled = 0;
        self.total_fees_collected = 0;
        self.total_gas_used = 0;
        self.hourly_tx_count.clear();
        self.hourly_gas_used.clear();
    }
}

/// What `get_snapshot_at` reports of `m` at `now`.
pub open spec fn snapshot_spec(m: MetricsModel, now: u64) -> MetricsSnapshot {
    let uptime = if now >= m.start_time {
        (now - m.start_time) as u64
    } else {
        (now - m.start_time + 0x1_0000_0000_0000_0000) as u64
    };
    MetricsSnapshot {
        uptime_seconds: uptime,
        total_transactions: m.total_transactions,
        successful_transactions: m.successful_transactions,
        failed_transactions: m.failed_transactions,
        success_rate_ppm: if m.total_transactions > 0 {
            ratio_spec(m.successful_transactions as int, m.total_transactions as int)
        } else {
            0
        },
        total_batches: m.total_batches,
        total_settled_batches: m.total_settled_batches,
        avg_tx_processing_time_ms: m.avg_tx_processing_time_ms,
        avg_batch_creation_time_ms: m.avg_batch_creation_time_ms,
        total_bytes_processed: m.total_bytes_processed,
        total_bytes_settled: m.total_bytes_settled,
        total_fees_collected: m.total_fees_collected,
        total_gas_used: m.total_gas_used,
        current_state_size: m.current_state_size,
        total_accounts: m.total_accounts,
        transactions_per_second_ppm: if uptime > 0 {
            ratio_spec(m.total_transactions as int, uptime as int)
        } else {
            0
        },
    }
}

/// How `record_transaction_success_at` leaves the counters, given `old`, the sample and the
/// hour it is counted under.
pub open spec fn success_recorded(
    old: MetricsModel,
    new: MetricsModel,
    processing_time_ms: u64,
    gas_used: u64,
    fee: u64,
    hour: Seq<char>,
) -> bool {
    &&& new.total_transactions == old.total_transactions + 1
    &&& new.successful_transactions == old.successful_transactions + 1
    &&& new.failed_transactions == old.failed_transactions
    &&& new.total_gas_used == wrap_add(old.total_gas_used, gas_used)
    &&& new.total_fees_collected == wrap_add(old.total_fees_collected, fee)
    &&& new.avg_tx_processing_time_ms == next_mean(
        old.avg_tx_processing_time_ms,
        new.total_transactions,
        processing_time_ms,
    )
    &&& new.hourly_tx == old.hourly_tx.insert(
        hour,
        (if old.hourly_tx.dom().contains(hour) {
            old.hourly_tx[hour] + 1
        } else {
            1
        }) as u64,
    )
    &&& new.hourly_gas == old.hourly_gas.insert(hour, (gas_or_zero(old.hourly_gas, hour) + gas_used) as u64)
    &&& new.total_batches == old.total_batches
    &&& new.total_settled_batches == old.total_settled_batches
    &&& new.avg_batch_creation_time_ms == old.avg_batch_creation_time_ms
    &&& new.total_bytes_processed == old.total_bytes_processed
    &&& new.total_bytes_settled == old.total_bytes_settled
    &&& new.current_state_size == old.current_state_size
    &&& new.total_accounts == old.total_accounts
    &&& new.start_time == old.start_time
}

/// The running mean `(avg * (n - 1) + x) / n`, computed without overflow.
fn running_mean(avg: u64, n: u64, x: u64) -> (r: u64)
    requires
        n > 0,
    ensures
        r == next_mean(avg, n, x),
{
    let prod: u128 = crate::util::mul_wide(avg, n - 1);
    assert(avg * (n - 1) <= u64::MAX * u64::MAX) by (nonlinear_arith)
        requires
            avg <= u64::MAX,
            n - 1 <= u64::MAX,
            n > 0,
    ;
    let sum: u128 = prod + (x as u128);
    let q: u128 = sum / (n as u128);
    assert(q <= u64::MAX) by (nonlinear_arith)
        requires
            q == sum / (n as u128),
            sum == avg * (n - 1) + x,
            n > 0,
            avg <= u64::MAX,
            x <= u64::MAX,
    {
        assert(avg * (n - 1) + x <= u64::MAX * (n - 1) + u64::MAX);
        assert(u64::MAX * (n - 1) + u64::MAX == u64::MAX * n);
        assert((u64::MAX * n) / (n as int) == u64::MAX);
    }
    q as u64
}

/// The entries ordered by hour (insertion sort).
fn sort_by_hour(v: Vec<HourlyStats>) -> (r: Vec<HourlyStats>)
    ensures
        sorted_by_hour(r@),
        r@.to_multiset() == v@.to_multiset(),
{
    let mut r: Vec<HourlyStats> = Vec::new();
    let mut rest = v;
    let ghost all = rest@;
    let mut i: usize = 0;
    let n: usize = rest.len();
    broadcast use vstd::seq_lib::group_to_multiset_ensures;
    while rest.len() > 0
        invariant
            n == all.len(),
            0 <= i <= n,
            rest@ == all.skip(i as int),
            sorted_by_hour(r@),
            r@.to_multiset() == all.take(i as int).to_multiset(),
        decreases rest.len(),
    {
        let x = rest.remove(0);
        assert(x == all[i as int]);
        let mut k: usize = 0;
        while k < r.len() && str_le(r[k].hour.as_str(), x.hour.as_str())
            invariant
                0 <= k <= r@.len(),
                forall|m: int| 0 <= m < k ==> lex_le(#[trigger] r@[m].hour@, x.hour@),
            decreases r@.len() - k,
        {
            k = k + 1;
        }
        let ghost r0 = r@;
        r.insert(k, x);
        proof {
            assert(r@ == r0.insert(k as int, x));
            if k < r0.len() {
                lemma_lex_total(r0[k as int].hour@, x.hour@);
            }
            assert forall|a: int, b: int| 0 <= a < b < r@.len() implies lex_le(
                r@[a].hour@,
                r@[b].hour@,
            ) by {
                if a < k && b == k {
                } else if a == k && b > k {
                    assert(r@[b] == r0[b - 1]);
                    if b - 1 > k {
                        assert(lex_le(r0[k as int].hour@, r0[b - 1].hour@));
                    } else {
                        lemma_lex_refl(r0[k as int].hour@);
                    }
                    lemma_lex_trans(x.hour@, r0[k as int].hour@, r0[b - 1].hour@);
                } else if a < k && b > k {
                    assert(r@[b] == r0[b - 1]);
                } else if a > k {
                    assert(r@[a] == r0[a - 1]);
                    assert(r@[b] == r0[b - 1]);
                }
            }
            vstd::seq_lib::to_multiset_insert(r0, k as int, x);
            assert(all.take(i + 1) =~= all.take(i as int).push(x));
            vstd::seq_lib::to_multiset_build(all.take(i as int), x);
        }
        assert(rest@ =~= all.skip(i + 1));
        i = i + 1;
    }
    assert(all.take(n as int) =~= all);
    r
}

impl Default for MetricsCollector {
    fn default() -> (m: Self)
        ensures
            m.wf(),
            m@.total_transactions == 0 && m@.successful_transactions == 0
                && m@.failed_transactions == 0,
            m@.total_batches == 0 && m@.total_settled_batches == 0,
            m@.hourly_tx == Map::<Seq<char>, u64>::empty(),
            m@.hourly_gas == Map::<Seq<char>, u64>::empty(),
    {
        Self::new()
    }
}

/// The running mean after the `n`-th sample `x` keeps the mean of all samples: `n` times it is
/// the previous `n - 1` samples' total plus `x`, rounded down to a multiple of `n`.
pub proof fn lemma_next_mean(avg: u64, n: u64, x: u64)
    requires
        n >= 1,
    ensures
        next_mean(avg, n, x) * n <= avg * (n - 1) + x < (next_mean(avg, n, x) + 1) * n,
{
    assert(avg * (n - 1) >= 0) by (nonlinear_arith)
        requires
            n >= 1,
    ;
    crate::util::lemma_floor_div(avg * (n - 1) + x, n as int);
}

/// A snapshot reports the uptime since the start (for a clock at or past it), the share of
/// successful transactions in millionths rounded down (0 before any), and the transactions a
/// second in millionths rounded down (0 at no uptime).
pub proof fn lemma_snapshot_rates(m: MetricsModel, now: u64)
    requires
        now >= m.start_time,
        m.successful_transactions <= m.total_transactions,
    ensures
        ({
            let s = snapshot_spec(m, now);
            &&& s.uptime_seconds == now - m.start_time
            &&& m.total_transactions == 0 ==> s.success_rate_ppm == 0
            &&& m.total_transactions > 0 ==> s.success_rate_ppm * m.total_transactions <= m.successful_transactions
                * 1_000_000 < (s.success_rate_ppm + 1) * m.total_transactions
            &&& now == m.start_time ==> s.transactions_per_second_ppm == 0
            &&& now > m.start_time && m.total_transactions * 1_000_000 / ((now - m.start_time) as int) <= u64::MAX
                ==> s.transactions_per_second_ppm * (now - m.start_time) <= m.total_transactions * 1_000_000 < (
            s.transactions_per_second_ppm + 1) * (now - m.start_time)
        }),
{
    if m.total_transactions > 0 {
        assert(m.successful_transactions * 1_000_000 / (m.total_transactions as int) <= 1_000_000) by (nonlinear_arith)
            requires
                m.successful_transactions <= m.total_transactions,
                m.total_transactions > 0,
        ;
        crate::network_monitor::lemma_ratio_floor(m.successful_transactions as int, m.total_transactions as int);
    }
    if now > m.start_time && m.total_transactions * 1_000_000 / ((now - m.start_time) as int) <= u64::MAX {
        crate::network_monitor::lemma_ratio_floor(m.total_transactions as int, (now - m.start_time) as int);
    }
}

} // verus!
