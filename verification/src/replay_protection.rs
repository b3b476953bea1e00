use vstd::prelude::*;

use crate::clock::now_secs;
use crate::table::StrMap;

verus! {

/// How long a processed transaction is remembered at least, in seconds: one hour.
pub const HISTORY_WINDOW: u64 = 3600;

#[derive(Debug, Clone, Copy, PartialEq, Eq, Structural)]
pub struct NonceStats {
    pub total_accounts: usize,
    pub total_transactions: u64,
    pub history_size: usize,
}

/// A transaction with its sender's nonce.
#[derive(Debug)]
pub struct NonceTransaction {
    pub from: String,
    pub nonce: u64,
    pub data: Vec<u8>,
}

/// Why a transaction was refused.
#[derive(Debug, Clone, Copy, PartialEq, Eq, Structural)]
pub enum NonceError {
    /// The transaction was processed already.
    AlreadyProcessed,
    /// The nonce is not the one expected next.
    InvalidNonce { expected: u64, got: u64 },
    /// The clock reads a time too early to compute the history cutoff.
    ClockOutOfRange,
}

/// The history with `h` recorded at `t`, then, past `max_history` entries, without the entries
/// older than the window before `t`.
pub open spec fn history_after(hist: Map<Seq<u8>, u64>, max_history: usize, h: Seq<u8>, t: u64) -> Map<Seq<u8>, u64> {
    let m = hist.insert(h, t);
    if m.dom().len() > max_history {
        m.restrict(m.dom().filter(|k: Seq<u8>| m[k] >= t - HISTORY_WINDOW))
    } else {
        m
    }
}

/// Account nonces and the recently processed transactions, against replays.
pub struct NonceManager {
    nonces: StrMap<u64>,
    tx_history: Vec<(crate::hash_utils::Hash, u64)>,
    max_history: usize,
    total_txs: u64,
}

impl NonceManager {
    /// The nonces, by account.
    pub closed spec fn nonces(&self) -> Map<Seq<char>, u64> {
        self.nonces@
    }

    /// The processed transactions' hashes with the time they were processed.
    pub closed spec fn history(&self) -> Map<Seq<u8>, u64> {
        Map::new(
            |h: Seq<u8>| exists|i: int| 0 <= i < self.tx_history@.len() && (#[trigger] self.tx_history@[i]).0@ == h,
            |h: Seq<u8>| self.tx_history@[choose|i: int| 0 <= i < self.tx_history@.len() && (#[trigger] self.tx_history@[i]).0@ == h].1,
        )
    }

    pub closed spec fn max_history(&self) -> usize {
        self.max_history
    }

    /// How many transactions were processed (wrapping).
    pub closed spec fn total_txs(&self) -> u64 {
        self.total_txs
    }

    pub closed spec fn wf(&self) -> bool {
        &&& self.nonces.wf()
        &&& forall|i: int, j: int| 0 <= i < j < self.tx_history@.len() ==> (#[trigger] self.tx_history@[i]).0@
            != (#[trigger] self.tx_history@[j]).0@
    }

    /// The nonce of `account`: 0 if it has none.
    pub open spec fn nonce(&self, account: Seq<char>) -> u64 {
        if self.nonces().dom().contains(account) { self.nonces()[account] } else { 0 }
    }

    /// The history holds one entry per listed transaction.
    proof fn lemma_history(&self)
        requires
            self.wf(),
        ensures
            self.history().dom().finite(),
            self.history().dom().len() == self.tx_history@.len(),
            forall|i: int| 0 <= i < self.tx_history@.len() ==> #[trigger] self.history().dom().contains(self.tx_history@[i].0@)
                && self.history()[self.tx_history@[i].0@] == self.tx_history@[i].1,
    {
        let s = self.tx_history@;
        let keys = s.map_values(|e: (crate::hash_utils::Hash, u64)| e.0@);
        assert forall|i: int| 0 <= i < s.len() implies #[trigger] self.history().dom().contains(s[i].0@)
            && self.history()[s[i].0@] == s[i].1 by {
            let j = choose|j: int| 0 <= j < s.len() && (#[trigger] s[j]).0@ == s[i].0@;
            assert(j == i);
        }
        assert(keys.no_duplicates()) by {
            assert forall|a: int, b: int| 0 <= a < keys.len() && 0 <= b < keys.len() && a != b implies keys[a] != keys[b] by {
                if a < b {
                    assert(s[a].0@ != s[b].0@);
                } else {
                    assert(s[b].0@ != s[a].0@);
                }
            }
        }
        assert(self.history().dom() =~= keys.to_set()) by {
            assert forall|h: Seq<u8>| self.history().dom().contains(h) implies keys.to_set().contains(h) by {
                let i = choose|i: int| 0 <= i < s.len() && (#[trigger] s[i]).0@ == h;
                assert(keys[i] == h);
            }
            assert forall|h: Seq<u8>| keys.to_set().contains(h) implies self.history().dom().contains(h) by {
                let i = choose|i: int| 0 <= i < keys.len() && keys[i] == h;
                assert(s[i].0@ == h);
            }
        }
        keys.unique_seq_to_set();
    }

    pub fn new(max_history: usize) -> (m: Self)
        ensures
            m.wf(),
            m.nonces() == Map::<Seq<char>, u64>::empty(),
            m.history() == Map::<Seq<u8>, u64>::empty(),
            m.max_history() == max_history,
            m.total_txs() == 0,
    {
        let m = NonceManager { nonces: StrMap::new(), tx_history: Vec::new(), max_history, total_txs: 0 };
        assert(m.history() =~= Map::<Seq<u8>, u64>::empty());
        m
    }

    /// The nonce of `account` (0 if it has none).
    pub fn get_nonce(&self, account: &str) -> (n: u64)
        requires
            self.wf(),
        ensures
            n == self.nonce(account@),
    {
        match self.nonces.get(account) {
            Some(n) => *n,
            None => 0,
        }
    }

    /// Raise the nonce of `account` by one (from 0 if it has none); answers the new nonce.
    pub fn increment_nonce(&mut self, account: &str) -> (n: u64)
        requires
            old(self).wf(),
            old(self).nonce(account@) < u64::MAX,
        ensures
            final(self).wf(),
            n == old(self).nonce(account@) + 1,
            final(self).nonces() == old(self).nonces().insert(account@, n),
            final(self).history() == old(self).history(),
            final(self).max_history() == old(self).max_history(),
            final(self).total_txs() == old(self).total_txs(),
    {
        let n = self.get_nonce(account) + 1;
        self.nonces.insert(account.to_owned(), n);
        n
    }

    /// Whether `nonce` is the one expected next from `account`: one more than its nonce.
    pub fn verify_nonce(&self, account: &str, nonce: u64) -> (b: bool)
        requires
            self.wf(),
            self.nonce(account@) < u64::MAX,
        ensures
            b == (nonce == self.nonce(account@) + 1),
    {
        let current = self.get_nonce(account);
        nonce == current + 1
    }

    fn find(&self, h: &crate::hash_utils::Hash) -> (r: Option<usize>)
        requires
            self.wf(),
        ensures
            r is Some <==> self.history().dom().contains(h@),
            match r {
                Some(i) => i < self.tx_history@.len() && self.tx_history@[i as int].0@ == h@,
                None => true,
            },
    {
        proof {
            self.lemma_history();
        }
        let mut i: usize = 0;
        while i < self.tx_history.len()
            invariant
                0 <= i <= self.tx_history@.len(),
                forall|j: int| 0 <= j < i ==> (#[trigger] self.tx_history@[j]).0@ != h@,
            decreases self.tx_history@.len() - i,
        {
            if self.tx_history[i].0 == *h {
                return Some(i);
            }
            i = i + 1;
        }
        None
    }

    /// Whether the transaction with `tx_hash` is in the history.
    pub fn is_duplicate(&self, tx_hash: &crate::hash_utils::Hash) -> (b: bool)
        requires
            self.wf(),
        ensures
            b == self.history().dom().contains(tx_hash@),
    {
        self.find(tx_hash).is_some()
    }

    /// What recording transaction `h` of `account` with `nonce` answers: refused when it was
    /// processed, or when the nonce is not the next one.
    pub open spec fn record_result(&self, account: Seq<char>, h: Seq<u8>, nonce: u64) -> Result<(), NonceError> {
        if self.history().dom().contains(h) {
            Err(NonceError::AlreadyProcessed)
        } else if nonce != self.nonce(account) + 1 {
            Err(NonceError::InvalidNonce { expected: (self.nonce(account) + 1) as u64, got: nonce })
        } else {
            Ok(())
        }
    }

    /// Drop the history entries older than the window before `now`.
    fn cleanup_old_history(&mut self, now: u64)
        requires
            old(self).wf(),
            now >= HISTORY_WINDOW,
        ensures
            final(self).wf(),
            final(self).history() == old(self).history().restrict(old(self).history().dom().filter(
                |k: Seq<u8>| old(self).history()[k] >= now - HISTORY_WINDOW,
            )),
            final(self).nonces() == old(self).nonces(),
            final(self).max_history() == old(self).max_history(),
            final(self).total_txs() == old(self).total_txs(),
    {
        let cutoff = now - HISTORY_WINDOW;
        let ghost s = self.tx_history@;
        let ghost pred = |e: (crate::hash_utils::Hash, u64)| e.1 >= cutoff;
        proof {
            self.lemma_history();
        }
        let mut rest: Vec<(crate::hash_utils::Hash, u64)> = Vec::new();
        std::mem::swap(&mut rest, &mut self.tx_history);
        let n = rest.len();
        let mut kept: Vec<(crate::hash_utils::Hash, u64)> = Vec::new();
        let mut i: usize = 0;
        while i < n
            invariant
                n == s.len(),
                0 <= i <= n,
                pred == (|e: (crate::hash_utils::Hash, u64)| e.1 >= cutoff),
                rest@ == s.subrange(i as int, n as int),
                kept@ == s.subrange(0, i as int).filter(pred),
            decreases n - i,
        {
            let e = rest.remove(0);
            assert(e == s[i as int]);
            assert(rest@ =~= s.subrange(i + 1, n as int));
            assert(s.subrange(0, i + 1) =~= s.subrange(0, i as int).push(s[i as int]));
            proof {
                s.subrange(0, i as int).lemma_filter_push(s[i as int], pred);
            }
            if e.1 >= cutoff {
                kept.push(e);
            }
            i = i + 1;
        }
        assert(s.subrange(0, n as int) =~= s);
        self.tx_history = kept;
        proof {
            let f = s.filter(pred);
            assert forall|a: int| 0 <= a < f.len() implies s.contains(#[trigger] f[a]) && pred(f[a]) by {
                s.lemma_filter_pred(pred, a);
                s.lemma_filter_contains_rev(pred, f[a]);
            }
            assert forall|a: int, b: int| 0 <= a < b < f.len() implies (#[trigger] f[a]).0@ != (#[trigger] f[b]).0@ by {
                lemma_filter_keeps_order(s, pred, a, b);
            }
            let old_h = old(self).history();
            assert forall|h: Seq<u8>| self.history().dom().contains(h) == old_h.restrict(old_h.dom().filter(
                |k: Seq<u8>| old_h[k] >= cutoff)).dom().contains(h) by {
                if self.history().dom().contains(h) {
                    let a = choose|a: int| 0 <= a < f.len() && (#[trigger] f[a]).0@ == h;
                    assert(s.contains(f[a]));
                    let i = choose|i: int| 0 <= i < s.len() && s[i] == f[a];
                    assert(old_h.dom().contains(s[i].0@));
                }
                if old_h.dom().contains(h) && old_h[h] >= cutoff {
                    let i = choose|i: int| 0 <= i < s.len() && (#[trigger] s[i]).0@ == h;
                    assert(old_h[s[i].0@] == s[i].1);
                    s.lemma_filter_contains(pred, i);
                    let a = choose|a: int| 0 <= a < f.len() && f[a] == s[i];
                    assert(f[a].0@ == h);
                }
            }
            assert forall|h: Seq<u8>| #[trigger] self.history().dom().contains(h) implies self.history()[h] == old_h[h] by {
                let a = choose|a: int| 0 <= a < f.len() && (#[trigger] f[a]).0@ == h;
                assert(self.history()[f[a].0@] == f[a].1) by {
                    self.lemma_history();
                }
                let i = choose|i: int| 0 <= i < s.len() && s[i] == f[a];
                assert(old_h[s[i].0@] == s[i].1);
            }
            assert(self.history() =~= old_h.restrict(old_h.dom().filter(|k: Seq<u8>| old_h[k] >= cutoff)));
        }
    }

    /// Record transaction `tx_hash` of `account` with `nonce`, at time `now`: refused when it
    /// was processed already or the nonce is not the next one. Else it joins the history, the
    /// account's nonce becomes `nonce`, the count goes up (wrapping), and past `max_history`
    /// entries the history forgets those older than an hour.
    pub fn record_transaction_at(&mut self, account: &str, tx_hash: crate::hash_utils::Hash, nonce: u64, now: u64) -> (r: Result<(), NonceError>)
        requires
            old(self).wf(),
            old(self).nonce(account@) < u64::MAX,
            !old(self).history().dom().contains(tx_hash@) && old(self).history().dom().len() + 1 > old(self).max_history()
                ==> now >= HISTORY_WINDOW,
        ensures
            final(self).wf(),
            r == old(self).record_result(account@, tx_hash@, nonce),
            r is Err ==> *final(self) == *old(self),
            r is Ok ==> {
                &&& final(self).nonces() == old(self).nonces().insert(account@, nonce)
                &&& final(self).history() == history_after(old(self).history(), old(self).max_history(), tx_hash@, now)
                &&& final(self).total_txs() == old(self).total_txs().wrapping_add(1)
                &&& final(self).max_history() == old(self).max_history()
            },
    {
        if self.is_duplicate(&tx_hash) {
            return Err(NonceError::AlreadyProcessed);
        }
        if !self.verify_nonce(account, nonce) {
            return Err(NonceError::InvalidNonce { expected: self.get_nonce(account) + 1, got: nonce });
        }
        let ghost h0 = self.history();
        proof {
            self.lemma_history();
        }
        let ghost s0 = self.tx_history@;
        self.tx_history.push((tx_hash, now));
        proof {
            assert forall|a: int, b: int| 0 <= a < b < self.tx_history@.len() implies (#[trigger] self.tx_history@[a]).0@
                != (#[trigger] self.tx_history@[b]).0@ by {
                if b == s0.len() {
                    assert(h0.dom().contains(s0[a].0@));
                }
            }
            assert forall|h: Seq<u8>| #[trigger] self.history().dom().contains(h) == h0.insert(tx_hash@, now).dom().contains(h) by {
                if self.history().dom().contains(h) {
                    let i = choose|i: int| 0 <= i < self.tx_history@.len() && (#[trigger] self.tx_history@[i]).0@ == h;
                    if i < s0.len() {
                        assert(h0.dom().contains(s0[i].0@));
                    }
                }
                if h0.dom().contains(h) {
                    let i = choose|i: int| 0 <= i < s0.len() && (#[trigger] s0[i]).0@ == h;
                    assert(self.tx_history@[i].0@ == h);
                }
                if h == tx_hash@ {
                    assert(self.tx_history@[s0.len() as int].0@ == h);
                }
            }
            self.lemma_history();
            assert(self.history() =~= h0.insert(tx_hash@, now));
        }
        self.increment_nonce(account);
        self.total_txs = self.total_txs.wrapping_add(1);
        if self.tx_history.len() > self.max_history {
            proof {
                self.lemma_history();
            }
            self.cleanup_old_history(now);
        }
        proof {
            self.lemma_history();
        }
        Ok(())
    }

    /// Record a transaction now, by the wall clock (see `record_transaction_at`). Duplicates and
    /// wrong nonces are refused before the clock is read. A valid transaction is refused with
    /// `ClockOutOfRange`, changing nothing, only when the history is full, so that it would need
    /// a cleanup, and the clock reads less than an hour.
    pub fn record_transaction(&mut self, account: &str, tx_hash: crate::hash_utils::Hash, nonce: u64) -> (r: Result<(), NonceError>)
        requires
            old(self).wf(),
            old(self).nonce(account@) < u64::MAX,
        ensures
            final(self).wf(),
            r is Err ==> *final(self) == *old(self),
            r != Err::<(), NonceError>(NonceError::ClockOutOfRange) ==> r == old(self).record_result(account@, tx_hash@, nonce),
            old(self).record_result(account@, tx_hash@, nonce) is Err ==> r == old(self).record_result(account@, tx_hash@, nonce),
            r == Err::<(), NonceError>(NonceError::ClockOutOfRange) ==> {
                &&& old(self).record_result(account@, tx_hash@, nonce) is Ok
                &&& !old(self).history().dom().contains(tx_hash@)
                &&& old(self).history().dom().len() >= old(self).max_history()
            },
            r is Ok ==> exists|now: u64| {
                &&& final(self).nonces() == old(self).nonces().insert(account@, nonce)
                &&& final(self).history() == #[trigger] history_after(old(self).history(), old(self).max_history(), tx_hash@, now)
                &&& final(self).total_txs() == old(self).total_txs().wrapping_add(1)
                &&& final(self).max_history() == old(self).max_history()
            },
    {
        if self.is_duplicate(&tx_hash) {
            return Err(NonceError::AlreadyProcessed);
        }
        if !self.verify_nonce(account, nonce) {
            return Err(NonceError::InvalidNonce { expected: self.get_nonce(account) + 1, got: nonce });
        }
        proof {
            self.lemma_history();
        }
        let now = now_secs();
        if now < HISTORY_WINDOW && self.tx_history.len() >= self.max_history {
            return Err(NonceError::ClockOutOfRange);
        }
        self.record_transaction_at(account, tx_hash, nonce, now)
    }

    /// How many accounts have a nonce, how many transactions were processed, and how large the
    /// history is.
    pub fn get_stats(&self) -> (st: NonceStats)
        requires
            self.wf(),
        ensures
            st.total_accounts == self.nonces().dom().len(),
            st.total_transactions == self.total_txs(),
            st.history_size == self.history().dom().len(),
    {
        proof {
            self.lemma_history();
        }
        NonceStats {
            total_accounts: self.nonces.len(),
            total_transactions: self.total_txs,
            history_size: self.tx_history.len(),
        }
    }

    /// Forget the nonce of `account`.
    pub fn reset_nonce(&mut self, account: &str)
        requires
            old(self).wf(),
        ensures
            final(self).wf(),
            final(self).nonces() == old(self).nonces().remove(account@),
            final(self).history() == old(self).history(),
            final(self).max_history() == old(self).max_history(),
            final(self).total_txs() == old(self).total_txs(),
    {
        let _ = self.nonces.remove(account);
    }
}

impl Default for NonceManager {
    /// A manager that remembers 100000 transactions before cleaning up.
    fn default() -> (m: Self)
        ensures
            m.wf(),
            m.nonces() == Map::<Seq<char>, u64>::empty(),
            m.history() == Map::<Seq<u8>, u64>::empty(),
            m.max_history() == 100_000,
            m.total_txs() == 0,
    {
        Self::new(100_000)
    }
}

/// Filtering keeps the order: two kept elements come from two distinct places, earlier first.
pub proof fn lemma_filter_keeps_order<A>(s: Seq<A>, p: spec_fn(A) -> bool, a: int, b: int)
    requires
        0 <= a < b < s.filter(p).len(),
        forall|i: int, j: int| 0 <= i < j < s.len() ==> #[trigger] s[i] != #[trigger] s[j],
    ensures
        s.filter(p)[a] != s.filter(p)[b],
    decreases s.len(),
{
    reveal(Seq::filter);
    let f = s.filter(p);
    let d = s.drop_last();
    let fd = d.filter(p);
    if p(s.last()) {
        assert(f == fd.push(s.last()));
        if b == f.len() - 1 {
            d.lemma_filter_contains_rev(p, f[a]);
            assert(fd[a] == f[a]);
            s.drop_last().lemma_filter_pred(p, a);
            let i = choose|i: int| 0 <= i < d.len() && d[i] == f[a];
            assert(s[i] == d[i]);
            assert(s[i] != s[s.len() - 1]);
        } else {
            lemma_filter_keeps_order(d, p, a, b);
        }
    } else {
        assert(f == fd);
        lemma_filter_keeps_order(d, p, a, b);
    }
}

/// A transaction in the history is refused again.
pub proof fn lemma_replay_refused(m: NonceManager, account: Seq<char>, h: Seq<u8>, nonce: u64)
    requires
        m.history().dom().contains(h),
    ensures
        m.record_result(account, h, nonce) == Err::<(), NonceError>(NonceError::AlreadyProcessed),
{
}

/// Once a nonce is used, it is refused: after a successful record with `nonce`, the account
/// expects `nonce + 1`, so `nonce` itself is an invalid nonce for any new transaction.
pub proof fn lemma_nonce_used_once(m: NonceManager, account: Seq<char>, h: Seq<u8>, nonce: u64)
    requires
        m.nonce(account) == nonce,
        !m.history().dom().contains(h),
    ensures
        m.record_result(account, h, nonce) is Err,
{
}

/// A transaction just recorded is remembered: the cleanup keeps what is not older than the
/// window, and it was stamped with the time of the cleanup.
pub proof fn lemma_recorded_is_remembered(hist: Map<Seq<u8>, u64>, max_history: usize, h: Seq<u8>, now: u64)
    requires
        now >= HISTORY_WINDOW,
    ensures
        history_after(hist, max_history, h, now).dom().contains(h),
        history_after(hist, max_history, h, now)[h] == now,
{
}

/// A transaction is accepted exactly when its hash was not processed already and its nonce
/// is one past the account's last recorded nonce (1 for an account with none).
pub proof fn lemma_record_accepts(m: &NonceManager, account: Seq<char>, h: Seq<u8>, nonce: u64)
    ensures
        (m.record_result(account, h, nonce) is Ok) == (!m.history().dom().contains(h) && nonce == if m.nonces().dom().contains(
            account,
        ) {
            m.nonces()[account] + 1
        } else {
            1
        }),
{
}

/// Once a transaction is recorded, it cannot be replayed: its hash is refused as already
/// processed whoever sends it again with whatever nonce, and the account's nonce cannot be
/// used again, only the one after it.
pub proof fn lemma_recorded_cannot_replay(
    m: &NonceManager,
    next: &NonceManager,
    account: Seq<char>,
    h: Seq<u8>,
    nonce: u64,
    now: u64,
    other_account: Seq<char>,
    other_hash: Seq<u8>,
    other_nonce: u64,
)
    requires
        m.record_result(account, h, nonce) is Ok,
        next.nonces() == m.nonces().insert(account, nonce),
        next.history() == history_after(m.history(), m.max_history(), h, now),
    ensures
        next.record_result(other_account, h, other_nonce) == Err::<(), NonceError>(NonceError::AlreadyProcessed),
        next.record_result(account, other_hash, other_nonce) is Ok ==> other_nonce == nonce + 1,
{
    let mm = m.history().insert(h, now);
    assert(mm.dom().contains(h));
    if mm.dom().len() > m.max_history() {
        assert(mm.dom().filter(|k: Seq<u8>| mm[k] >= now - HISTORY_WINDOW).contains(h));
    }
}

} // verus!
