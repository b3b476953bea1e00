use vstd::prelude::*;
use vstd::bytes::{spec_u64_from_le_bytes, spec_u64_to_le_bytes, u64_from_le_bytes, u64_to_le_bytes};

use crate::clock::now_millis;
use crate::table::{IdMap, StrMap, StrSet};
use crate::types::Transaction;

verus! {

/// Gas charged for each executed transaction.
pub const EXEC_GAS: u64 = 21000;

#[derive(Debug, Clone, Copy, PartialEq, Eq, Structural)]
pub struct ExecutionBatch {
    pub batch_id: u64,
    pub total_transactions: usize,
    pub parallel_groups: usize,
    pub execution_time_ms: u64,
    /// The estimated speedup over running one transaction after the other (10 ms each), in
    /// millionths.
    pub speedup_factor_ppm: u64,
}

/// Milliseconds one transaction is estimated to take when run alone.
pub const SEQUENTIAL_MS_PER_TX: u64 = 10;

/// The estimated speedup of running `total` transactions in `time_ms` (at least 1 ms), in
/// millionths, at most `u64::MAX`.
pub open spec fn speedup_spec(total: int, time_ms: u64) -> u64 {
    let t: int = if time_ms == 0 {
        1
    } else {
        time_ms as int
    };
    let r = total * SEQUENTIAL_MS_PER_TX * 1_000_000 / t;
    if r > u64::MAX {
        u64::MAX
    } else {
        r as u64
    }
}

/// The mean of the values, 1_000_000 (a speedup of 1) when there are none.
pub open spec fn mean_speedup_spec(s: Seq<ExecutionBatch>) -> u64 {
    if s.len() == 0 {
        1_000_000
    } else {
        (speedup_sum(s) / (s.len() as int)) as u64
    }
}

/// The speedups added up.
pub open spec fn speedup_sum(s: Seq<ExecutionBatch>) -> int
    decreases s.len(),
{
    if s.len() == 0 {
        0
    } else {
        speedup_sum(s.drop_last()) + s.last().speedup_factor_ppm
    }
}

/// The estimated speedup (see `speedup_spec`).
fn speedup(total: usize, time_ms: u64) -> (r: u64)
    ensures
        r == speedup_spec(total as int, time_ms),
{
    let t: u128 = if time_ms == 0 {
        1
    } else {
        time_ms as u128
    };
    assert(total * 10 * 1_000_000 <= u64::MAX * 10 * 1_000_000) by (nonlinear_arith)
        requires
            total <= u64::MAX,
    ;
    let r: u128 = (total as u128) * 10 * 1_000_000 / t;
    if r > u64::MAX as u128 {
        u64::MAX
    } else {
        r as u64
    }
}

/// A transaction with the accounts it reads and writes.
#[derive(Debug, Clone)]
pub struct TransactionWithDeps {
    pub tx: Transaction,
    pub tx_hash: crate::hash_utils::Hash,
    pub reads: StrSet,
    pub writes: StrSet,
}

#[derive(Debug, Clone)]
pub struct ExecutionResult {
    pub tx_hash: crate::hash_utils::Hash,
    pub success: bool,
    pub gas_used: u64,
    pub error: Option<String>,
    /// The new balances, sender first.
    pub state_changes: Vec<(String, Vec<u8>)>,
}

/// The accounts written by all of the group's transactions.
pub open spec fn writes_of(g: Seq<TransactionWithDeps>) -> Set<Seq<char>> {
    Set::new(|k: Seq<char>| exists|j: int| 0 <= j < g.len() && #[trigger] g[j].writes@.contains(k))
}

/// The accounts read by all of the group's transactions.
pub open spec fn reads_of(g: Seq<TransactionWithDeps>) -> Set<Seq<char>> {
    Set::new(|k: Seq<char>| exists|j: int| 0 <= j < g.len() && #[trigger] g[j].reads@.contains(k))
}

/// `x` conflicts with a group when it writes an account the group writes or reads, or reads
/// one the group writes.
pub open spec fn conflicts_group(x: TransactionWithDeps, g: Seq<TransactionWithDeps>) -> bool {
    exists|k: Seq<char>|
        #![trigger x.writes@.contains(k)]
        #![trigger x.reads@.contains(k)]
        (x.writes@.contains(k) && (writes_of(g).contains(k) || reads_of(g).contains(k)))
            || (x.reads@.contains(k) && writes_of(g).contains(k))
}

/// Two transactions conflict when one writes an account the other writes or reads.
pub open spec fn conflicts(x: TransactionWithDeps, y: TransactionWithDeps) -> bool {
    exists|k: Seq<char>|
        #![trigger x.writes@.contains(k)]
        #![trigger x.reads@.contains(k)]
        (x.writes@.contains(k) && (y.writes@.contains(k) || y.reads@.contains(k)))
            || (x.reads@.contains(k) && y.writes@.contains(k))
}

/// One greedy pass over `s` in order: a transaction joins the group unless it conflicts with
/// the group so far; the others stay, in order.
pub open spec fn pick(s: Seq<TransactionWithDeps>) -> (Seq<TransactionWithDeps>, Seq<TransactionWithDeps>)
    decreases s.len(),
{
    if s.len() == 0 {
        (Seq::empty(), Seq::empty())
    } else {
        let p = pick(s.drop_last());
        if conflicts_group(s.last(), p.0) {
            (p.0, p.1.push(s.last()))
        } else {
            (p.0.push(s.last()), p.1)
        }
    }
}

/// A pass places every transaction once, and takes at least one when there is any.
pub proof fn lemma_pick_len(s: Seq<TransactionWithDeps>)
    ensures
        pick(s).0.len() + pick(s).1.len() == s.len(),
        s.len() > 0 ==> pick(s).0.len() > 0,
    decreases s.len(),
{
    if s.len() > 0 {
        lemma_pick_len(s.drop_last());
        if s.len() == 1 {
            assert(s.drop_last().len() == 0);
            assert(pick(s.drop_last()).0 == Seq::<TransactionWithDeps>::empty());
            assert(!conflicts_group(s.last(), Seq::<TransactionWithDeps>::empty()));
        }
    }
}

/// The execution groups: greedy passes until every transaction is placed.
pub open spec fn groups_spec(s: Seq<TransactionWithDeps>) -> Seq<Seq<TransactionWithDeps>>
    decreases s.len(),
{
    if s.len() == 0 {
        Seq::empty()
    } else {
        proof {
            lemma_pick_len(s);
        }
        seq![pick(s).0] + groups_spec(pick(s).1)
    }
}

/// The groups one after another.
pub open spec fn flatten(gs: Seq<Seq<TransactionWithDeps>>) -> Seq<TransactionWithDeps>
    decreases gs.len(),
{
    if gs.len() == 0 {
        Seq::empty()
    } else {
        gs[0] + flatten(gs.drop_first())
    }
}

/// A balance as the executor reads it: the first 8 bytes, little-endian; 0 when absent.
pub open spec fn balance8(state: Map<Seq<char>, Seq<u8>>, a: Seq<char>) -> u64 {
    if state.dom().contains(a) {
        spec_u64_from_le_bytes(state[a].take(8))
    } else {
        0
    }
}

/// Whether the sender can pay.
pub open spec fn exec_ok(state: Map<Seq<char>, Seq<u8>>, tx: Transaction) -> bool {
    balance8(state, tx.from@) >= tx.value
}

/// The new balances of an executed transfer, as (account, bytes), sender first; the
/// recipient's is its balance before the transfer plus the value (for a transfer to oneself
/// that is the only change).
pub open spec fn exec_changes(state: Map<Seq<char>, Seq<u8>>, tx: Transaction) -> Seq<(Seq<char>, Seq<u8>)> {
    let sender = (tx.from@, spec_u64_to_le_bytes((balance8(state, tx.from@) - tx.value) as u64));
    match tx.to {
        None => seq![sender],
        Some(t) => {
            let receiver = (t@, spec_u64_to_le_bytes((balance8(state, t@) + tx.value) as u64));
            if t@ == tx.from@ {
                seq![receiver]
            } else {
                seq![sender, receiver]
            }
        },
    }
}

/// The state with the changes written in order.
pub open spec fn write_all(state: Map<Seq<char>, Seq<u8>>, cs: Seq<(Seq<char>, Seq<u8>)>) -> Map<Seq<char>, Seq<u8>>
    decreases cs.len(),
{
    if cs.len() == 0 {
        state
    } else {
        write_all(state, cs.drop_last()).insert(cs.last().0, cs.last().1)
    }
}

/// The state after executing `tx`.
pub open spec fn exec_state(state: Map<Seq<char>, Seq<u8>>, tx: Transaction) -> Map<Seq<char>, Seq<u8>> {
    if exec_ok(state, tx) {
        write_all(state, exec_changes(state, tx))
    } else {
        state
    }
}

/// The state before the `k`-th of the transactions executed in order.
pub open spec fn state_at(state: Map<Seq<char>, Seq<u8>>, ds: Seq<TransactionWithDeps>, k: nat) -> Map<Seq<char>, Seq<u8>>
    decreases k,
{
    if k == 0 || k > ds.len() {
        state
    } else {
        exec_state(state_at(state, ds, (k - 1) as nat), ds[k - 1].tx)
    }
}

/// The values of the transactions, added up.
pub open spec fn total_value(s: Seq<Transaction>) -> int
    decreases s.len(),
{
    if s.len() == 0 {
        0
    } else {
        total_value(s.drop_last()) + s.last().value
    }
}

/// The executor's demands on the state: the accounts the transactions touch hold at least 8
/// bytes, and no recipient's balance can overflow even if it received every value.
pub open spec fn state_fits(state: Map<Seq<char>, Seq<u8>>, txs: Seq<Transaction>) -> bool {
    &&& total_value(txs) <= u64::MAX
    &&& forall|i: int|
        0 <= i < txs.len() ==> (state.dom().contains(#[trigger] txs[i].from@) ==> state[txs[i].from@].len() >= 8)
    &&& forall|i: int|
        0 <= i < txs.len() ==> (#[trigger] txs[i].to matches Some(t) ==> (state.dom().contains(t@)
            ==> state[t@].len() >= 8) && balance8(state, t@) + total_value(txs) <= u64::MAX)
}

/// The accounts a transaction reads: its sender.
pub open spec fn tx_reads(tx: Transaction) -> Set<Seq<char>> {
    set![tx.from@]
}

/// The accounts a transaction writes: its sender and its recipient, if any.
pub open spec fn tx_writes(tx: Transaction) -> Set<Seq<char>> {
    match tx.to {
        Some(t) => set![tx.from@, t@],
        None => set![tx.from@],
    }
}

impl ExecutionResult {
    /// The result of executing `tx` (hashed `hash`) against `state`: 21000 gas either way;
    /// refused with "Insufficient balance" when the sender cannot pay, else the new balances.
    pub open spec fn describes(&self, state: Map<Seq<char>, Seq<u8>>, tx: Transaction, hash: crate::hash_utils::Hash) -> bool {
        &&& self.tx_hash == hash
        &&& self.gas_used == EXEC_GAS
        &&& self.success == exec_ok(state, tx)
        &&& (match self.error {
            Some(e) => !exec_ok(state, tx) && e@ == "Insufficient balance"@,
            None => exec_ok(state, tx),
        })
        &&& self.state_changes@.map_values(|c: (String, Vec<u8>)| (c.0@, c.1@)) == (if exec_ok(
            state,
            tx,
        ) {
            exec_changes(state, tx)
        } else {
            Seq::empty()
        })
    }
}

/// Executes transactions in groups of independent transactions.
pub struct ParallelExecutor {
    max_threads: usize,
    execution_stats: IdMap<ExecutionBatch>,
    batch_counter: u64,
}

impl ParallelExecutor {
    pub closed spec fn threads(&self) -> usize {
        self.max_threads
    }

    /// The recorded executions, by batch id.
    pub closed spec fn stats(&self) -> Map<u64, ExecutionBatch> {
        self.execution_stats@
    }

    /// The recorded executions, in the order they were first recorded.
    pub closed spec fn stats_seq(&self) -> Seq<ExecutionBatch> {
        self.execution_stats.values()
    }

    /// The id the next execution gets.
    pub closed spec fn next_batch(&self) -> u64 {
        self.batch_counter
    }

    pub closed spec fn wf(&self) -> bool {
        self.execution_stats.wf()
    }

    pub fn new(max_threads: usize) -> (e: Self)
        ensures
            e.wf(),
            e.threads() == max_threads,
            e.stats() == Map::<u64, ExecutionBatch>::empty(),
            e.next_batch() == 0,
    {
        ParallelExecutor { max_threads, execution_stats: IdMap::new(), batch_counter: 0 }
    }

    /// The accounts `tx` reads and writes: it reads its sender and writes its sender and its
    /// recipient.
    pub fn analyze_dependencies(&self, tx: &Transaction) -> (r: (StrSet, StrSet))
        ensures
            r.0.wf(),
            r.1.wf(),
            r.0@ == tx_reads(*tx),
            r.1@ == tx_writes(*tx),
    {
        let mut reads = StrSet::new();
        let mut writes = StrSet::new();
        writes.insert(tx.from.clone());
        reads.insert(tx.from.clone());
        match &tx.to {
            Some(to) => {
                writes.insert(to.clone());
            },
            None => {},
        }
        assert(reads@ =~= tx_reads(*tx));
        assert(writes@ =~= tx_writes(*tx));
        (reads, writes)
    }

    /// Whether `x` conflicts with a group whose writes and reads are `gw` and `gr`.
    fn conflicts_with(x: &TransactionWithDeps, gw: &StrSet, gr: &StrSet, Ghost(g): Ghost<Seq<TransactionWithDeps>>) -> (b: bool)
        requires
            x.reads.wf(),
            x.writes.wf(),
            gw.wf(),
            gr.wf(),
            gw@ == writes_of(g),
            gr@ == reads_of(g),
        ensures
            b == conflicts_group(*x, g),
    {
        proof {
            x.writes.lemma_members();
            x.reads.lemma_members();
        }
        let mut i: usize = 0;
        while i < x.writes.len()
            invariant
                x.writes.wf(),
                gw.wf(),
                gr.wf(),
                gw@ == writes_of(g),
                gr@ == reads_of(g),
                0 <= i <= x.writes.members().len(),
                forall|j: int|
                    0 <= j < i ==> !gw@.contains(#[trigger] x.writes.members()[j]@) && !gr@.contains(
                        x.writes.members()[j]@,
                    ),
            decreases x.writes.members().len() - i,
        {
            let w = x.writes.member_at(i);
            if gw.contains(w.as_str()) || gr.contains(w.as_str()) {
                proof {
                    x.writes.lemma_members();
                    let k = w@;
                    assert(x.writes@.contains(k));
                    assert(x.writes@.contains(k) && (writes_of(g).contains(k) || reads_of(g).contains(k)));
                }
                return true;
            }
            i = i + 1;
        }
        let mut j: usize = 0;
        while j < x.reads.len()
            invariant
                x.reads.wf(),
                gw.wf(),
                gw@ == writes_of(g),
                0 <= j <= x.reads.members().len(),
                forall|m: int| 0 <= m < j ==> !gw@.contains(#[trigger] x.reads.members()[m]@),
            decreases x.reads.members().len() - j,
        {
            let r = x.reads.member_at(j);
            if gw.contains(r.as_str()) {
                proof {
                    x.reads.lemma_members();
                    let k = r@;
                    assert(x.reads@.contains(k));
                    assert(x.reads@.contains(k) && writes_of(g).contains(k));
                }
                return true;
            }
            j = j + 1;
        }
        proof {
            assert forall|k: Seq<char>|
                #![trigger x.writes@.contains(k)]
                #![trigger x.reads@.contains(k)]
                !((x.writes@.contains(k) && (writes_of(g).contains(k) || reads_of(g).contains(k)))
                    || (x.reads@.contains(k) && writes_of(g).contains(k))) by {
                if x.writes@.contains(k) {
                    let a = choose|a: int| 0 <= a < x.writes.members().len() && x.writes.members()[a]@ == k;
                    assert(!gw@.contains(x.writes.members()[a]@));
                }
                if x.reads@.contains(k) {
                    let a = choose|a: int| 0 <= a < x.reads.members().len() && x.reads.members()[a]@ == k;
                    assert(!gw@.contains(x.reads.members()[a]@));
                }
            }
        }
        false
    }

    /// Split the transactions into groups of mutually independent ones (see `groups_spec`):
    /// each pass takes, in order, every transaction that does not conflict with those already
    /// taken; the rest wait for the next pass.
    pub fn build_execution_groups(&self, transactions: Vec<TransactionWithDeps>) -> (groups: Vec<Vec<TransactionWithDeps>>)
        requires
            forall|i: int|
                0 <= i < transactions@.len() ==> (#[trigger] transactions@[i]).reads.wf()
                    && transactions@[i].writes.wf(),
        ensures
            groups@.map_values(|g: Vec<TransactionWithDeps>| g@) == groups_spec(transactions@),
    {
        let ghost all = transactions@;
        let mut groups: Vec<Vec<TransactionWithDeps>> = Vec::new();
        let mut remaining = transactions;
        while remaining.len() > 0
            invariant
                forall|i: int|
                    0 <= i < remaining@.len() ==> (#[trigger] remaining@[i]).reads.wf()
                        && remaining@[i].writes.wf(),
                groups@.map_values(|g: Vec<TransactionWithDeps>| g@) + groups_spec(remaining@)
                    == groups_spec(all),
            decreases remaining@.len(),
        {
            let ghost orig = remaining@;
            let mut current_group: Vec<TransactionWithDeps> = Vec::new();
            let mut group_writes = StrSet::new();
            let mut group_reads = StrSet::new();
            let mut i: usize = 0;
            let ghost mut p: int = 0;
            proof {
                assert(orig.take(0) =~= Seq::<TransactionWithDeps>::empty());
                assert(group_writes@ =~= writes_of(Seq::<TransactionWithDeps>::empty()));
                assert(group_reads@ =~= reads_of(Seq::<TransactionWithDeps>::empty()));
                assert(remaining@ =~= Seq::<TransactionWithDeps>::empty() + orig.skip(0));
            }
            while i < remaining.len()
                invariant
                    forall|k: int|
                        0 <= k < orig.len() ==> (#[trigger] orig[k]).reads.wf() && orig[k].writes.wf(),
                    0 <= p <= orig.len(),
                    current_group@ == pick(orig.take(p)).0,
                    i == pick(orig.take(p)).1.len(),
                    remaining@ == pick(orig.take(p)).1 + orig.skip(p),
                    group_writes.wf(),
                    group_reads.wf(),
                    group_writes@ == writes_of(current_group@),
                    group_reads@ == reads_of(current_group@),
                decreases orig.len() - p,
            {
                proof {
                    lemma_pick_len(orig.take(p));
                    assert(orig.take(p + 1).drop_last() =~= orig.take(p));
                    assert(remaining@[i as int] == orig[p]);
                }
                let conflict = Self::conflicts_with(
                    &remaining[i],
                    &group_writes,
                    &group_reads,
                    Ghost(current_group@),
                );
                if !conflict {
                    let tx = remaining.remove(i);
                    let ghost g0 = current_group@;
                    let mut w: usize = 0;
                    let ghost gw0 = group_writes@;
                    let ghost gr0 = group_reads@;
                    proof {
                        tx.writes.lemma_members();
                        tx.reads.lemma_members();
                    }
                    while w < tx.writes.len()
                        invariant
                            tx.writes.wf(),
                            group_writes.wf(),
                            0 <= w <= tx.writes.members().len(),
                            group_writes@ == gw0 + tx.writes.members().take(w as int).map_values(
                                |x: String| x@,
                            ).to_set(),
                        decreases tx.writes.members().len() - w,
                    {
                        let x = tx.writes.member_at(w).clone();
                        proof {
                            assert(tx.writes.members().take(w + 1).map_values(|x: String| x@)
                                =~= tx.writes.members().take(w as int).map_values(|x: String| x@).push(
                                x@,
                            ));
                            tx.writes.members().take(w as int).map_values(|x: String| x@).lemma_push_to_set_commute(x@);
                        }
                        group_writes.insert(x);
                        assert(group_writes@ =~= gw0 + tx.writes.members().take(w + 1).map_values(
                            |x: String| x@,
                        ).to_set());
                        w = w + 1;
                    }
                    let mut r: usize = 0;
                    while r < tx.reads.len()
                        invariant
                            tx.reads.wf(),
                            group_reads.wf(),
                            0 <= r <= tx.reads.members().len(),
                            group_reads@ == gr0 + tx.reads.members().take(r as int).map_values(
                                |x: String| x@,
                            ).to_set(),
                        decreases tx.reads.members().len() - r,
                    {
                        let x = tx.reads.member_at(r).clone();
                        proof {
                            assert(tx.reads.members().take(r + 1).map_values(|x: String| x@)
                                =~= tx.reads.members().take(r as int).map_values(|x: String| x@).push(
                                x@,
                            ));
                            tx.reads.members().take(r as int).map_values(|x: String| x@).lemma_push_to_set_commute(x@);
                        }
                        group_reads.insert(x);
                        assert(group_reads@ =~= gr0 + tx.reads.members().take(r + 1).map_values(
                            |x: String| x@,
                        ).to_set());
                        r = r + 1;
                    }
                    current_group.push(tx);
                    proof {
                        assert(tx.writes.members().take(tx.writes.members().len() as int) =~= tx.writes.members());
                        assert(tx.reads.members().take(tx.reads.members().len() as int) =~= tx.reads.members());
                        lemma_union_push(g0, tx, group_writes@, group_reads@, gw0, gr0);
                        assert(remaining@ =~= pick(orig.take(p + 1)).1 + orig.skip(p + 1));
                        p = p + 1;
                    }
                } else {
                    proof {
                        assert(remaining@ =~= pick(orig.take(p + 1)).1 + orig.skip(p + 1));
                        p = p + 1;
                    }
                    i = i + 1;
                }
            }
            proof {
                assert(orig.take(p) =~= orig);
                assert(orig.skip(p) =~= Seq::<TransactionWithDeps>::empty());
                assert(remaining@ =~= pick(orig).1);
                lemma_pick_len(orig);
                assert(groups_spec(orig) == seq![pick(orig).0] + groups_spec(pick(orig).1));
            }
            let ghost before = groups@.map_values(|g: Vec<TransactionWithDeps>| g@);
            groups.push(current_group);
            proof {
                assert(groups@.map_values(|g: Vec<TransactionWithDeps>| g@) =~= before.push(pick(orig).0));
                assert(before.push(pick(orig).0) + groups_spec(remaining@) =~= before + (seq![pick(orig).0] + groups_spec(pick(orig).1)));
                lemma_pick_wf(orig);
            }
        }
        assert(groups_spec(remaining@) =~= Seq::<Seq<TransactionWithDeps>>::empty());
        assert(groups@.map_values(|g: Vec<TransactionWithDeps>| g@) =~= groups@.map_values(|g: Vec<TransactionWithDeps>| g@) + Seq::<Seq<TransactionWithDeps>>::empty());
        groups
    }
}

proof fn lemma_union_push(
    g0: Seq<TransactionWithDeps>,
    tx: TransactionWithDeps,
    gw: Set<Seq<char>>,
    gr: Set<Seq<char>>,
    gw0: Set<Seq<char>>,
    gr0: Set<Seq<char>>,
)
    requires
        tx.writes.wf(),
        tx.reads.wf(),
        gw0 == writes_of(g0),
        gr0 == reads_of(g0),
        gw == gw0 + tx.writes.members().map_values(|x: String| x@).to_set(),
        gr == gr0 + tx.reads.members().map_values(|x: String| x@).to_set(),
    ensures
        gw == writes_of(g0.push(tx)),
        gr == reads_of(g0.push(tx)),
{
    tx.writes.lemma_members();
    tx.reads.lemma_members();
    let g = g0.push(tx);
    let ws = tx.writes.members().map_values(|x: String| x@);
    let rs = tx.reads.members().map_values(|x: String| x@);
    assert(g[g0.len() as int] == tx);
    assert forall|k: Seq<char>| ws.to_set().contains(k) <==> tx.writes@.contains(k) by {
        if ws.to_set().contains(k) {
            assert(ws.contains(k));
            let a = choose|a: int| 0 <= a < ws.len() && #[trigger] ws[a] == k;
            assert(tx.writes@.contains(tx.writes.members()[a]@));
        }
        if tx.writes@.contains(k) {
            let a = choose|a: int| 0 <= a < tx.writes.members().len() && tx.writes.members()[a]@ == k;
            assert(ws[a] == k);
            assert(ws.contains(k));
        }
    }
    assert forall|k: Seq<char>| rs.to_set().contains(k) <==> tx.reads@.contains(k) by {
        if rs.to_set().contains(k) {
            assert(rs.contains(k));
            let a = choose|a: int| 0 <= a < rs.len() && #[trigger] rs[a] == k;
            assert(tx.reads@.contains(tx.reads.members()[a]@));
        }
        if tx.reads@.contains(k) {
            let a = choose|a: int| 0 <= a < tx.reads.members().len() && tx.reads.members()[a]@ == k;
            assert(rs[a] == k);
            assert(rs.contains(k));
        }
    }
    assert forall|k: Seq<char>| gw.contains(k) <==> writes_of(g).contains(k) by {
        if writes_of(g).contains(k) {
            let j = choose|j: int| 0 <= j < g.len() && #[trigger] g[j].writes@.contains(k);
            if j < g0.len() {
                assert(g0[j] == g[j]);
                assert(writes_of(g0).contains(k));
            } else {
                assert(g[j] == tx);
                assert(ws.to_set().contains(k));
            }
        }
        if gw0.contains(k) {
            let j = choose|j: int| 0 <= j < g0.len() && #[trigger] g0[j].writes@.contains(k);
            assert(g[j] == g0[j]);
            assert(g[j].writes@.contains(k));
        }
        if ws.to_set().contains(k) {
            assert(tx.writes@.contains(k));
            assert(g[g0.len() as int].writes@.contains(k));
        }
    }
    assert forall|k: Seq<char>| gr.contains(k) <==> reads_of(g).contains(k) by {
        if reads_of(g).contains(k) {
            let j = choose|j: int| 0 <= j < g.len() && #[trigger] g[j].reads@.contains(k);
            if j < g0.len() {
                assert(g0[j] == g[j]);
                assert(reads_of(g0).contains(k));
            } else {
                assert(g[j] == tx);
                assert(rs.to_set().contains(k));
            }
        }
        if gr0.contains(k) {
            let j = choose|j: int| 0 <= j < g0.len() && #[trigger] g0[j].reads@.contains(k);
            assert(g[j] == g0[j]);
            assert(g[j].reads@.contains(k));
        }
        if rs.to_set().contains(k) {
            assert(tx.reads@.contains(k));
            assert(g[g0.len() as int].reads@.contains(k));
        }
    }
    assert(gw =~= writes_of(g));
    assert(gr =~= reads_of(g));
}

proof fn lemma_pick_wf(s: Seq<TransactionWithDeps>)
    ensures
        forall|i: int| 0 <= i < pick(s).1.len() ==> exists|j: int| 0 <= j < s.len() && #[trigger] pick(s).1[i] == s[j],
    decreases s.len(),
{
    if s.len() > 0 {
        lemma_pick_wf(s.drop_last());
        let p = pick(s.drop_last());
        assert forall|i: int| 0 <= i < pick(s).1.len() implies exists|j: int| 0 <= j < s.len() && #[trigger] pick(s).1[i] == s[j] by {
            if i < p.1.len() {
                let j = choose|j: int| 0 <= j < s.drop_last().len() && p.1[i] == s.drop_last()[j];
                assert(pick(s).1[i] == s[j]);
            } else {
                assert(pick(s).1[i] == s[s.len() - 1]);
            }
        }
    }
}

/// Conflict is symmetric.
pub proof fn lemma_conflicts_symmetric(x: TransactionWithDeps, y: TransactionWithDeps)
    ensures
        conflicts(x, y) == conflicts(y, x),
{
    if conflicts(x, y) {
        let k = choose|k: Seq<char>|
            #![trigger x.writes@.contains(k)]
            #![trigger x.reads@.contains(k)]
            (x.writes@.contains(k) && (y.writes@.contains(k) || y.reads@.contains(k)))
                || (x.reads@.contains(k) && y.writes@.contains(k));
        if y.writes@.contains(k) {
            assert(y.writes@.contains(k) && (x.writes@.contains(k) || x.reads@.contains(k)));
        } else {
            assert(y.reads@.contains(k) && x.writes@.contains(k));
        }
    }
    if conflicts(y, x) {
        let k = choose|k: Seq<char>|
            #![trigger y.writes@.contains(k)]
            #![trigger y.reads@.contains(k)]
            (y.writes@.contains(k) && (x.writes@.contains(k) || x.reads@.contains(k)))
                || (y.reads@.contains(k) && x.writes@.contains(k));
        if x.writes@.contains(k) {
            assert(x.writes@.contains(k) && (y.writes@.contains(k) || y.reads@.contains(k)));
        } else {
            assert(x.reads@.contains(k) && y.writes@.contains(k));
        }
    }
}

proof fn lemma_pick_independent(s: Seq<TransactionWithDeps>)
    ensures
        forall|a: int, b: int|
            0 <= a < pick(s).0.len() && 0 <= b < pick(s).0.len() && a != b ==> !conflicts(
                #[trigger] pick(s).0[a],
                #[trigger] pick(s).0[b],
            ),
        pick(s).0.to_multiset().add(pick(s).1.to_multiset()) == s.to_multiset(),
    decreases s.len(),
{
    if s.len() > 0 {
        let t = s.drop_last();
        lemma_pick_independent(t);
        let p = pick(t);
        let x = s.last();
        assert(s =~= t.push(x));
        if conflicts_group(x, p.0) {
            assert(pick(s).1 == p.1.push(x));
        } else {
            let g = p.0.push(x);
            assert forall|j: int| 0 <= j < p.0.len() implies !conflicts(x, #[trigger] p.0[j]) && !conflicts(p.0[j], x) by {
                lemma_conflicts_symmetric(x, p.0[j]);
                if conflicts(x, p.0[j]) {
                    let k = choose|k: Seq<char>|
                        #![trigger x.writes@.contains(k)]
                        #![trigger x.reads@.contains(k)]
                        (x.writes@.contains(k) && (p.0[j].writes@.contains(k) || p.0[j].reads@.contains(k)))
                            || (x.reads@.contains(k) && p.0[j].writes@.contains(k));
                    if p.0[j].writes@.contains(k) {
                        assert(writes_of(p.0).contains(k));
                    }
                    if p.0[j].reads@.contains(k) {
                        assert(reads_of(p.0).contains(k));
                    }
                }
            }
            assert forall|a: int, b: int|
                0 <= a < g.len() && 0 <= b < g.len() && a != b implies !conflicts(
                #[trigger] g[a],
                #[trigger] g[b],
            ) by {
                if a < p.0.len() && b < p.0.len() {
                    assert(g[a] == p.0[a] && g[b] == p.0[b]);
                } else if a == p.0.len() {
                    assert(g[b] == p.0[b]);
                } else {
                    assert(g[a] == p.0[a]);
                }
            }
        }
        vstd::seq_lib::to_multiset_build(t, x);
        vstd::seq_lib::to_multiset_build(p.0, x);
        vstd::seq_lib::to_multiset_build(p.1, x);
        assert(pick(s).0.to_multiset().add(pick(s).1.to_multiset()) =~= s.to_multiset());
    } else {
        broadcast use vstd::seq_lib::group_to_multiset_ensures;
        broadcast use vstd::multiset::group_multiset_axioms;
        assert(s.to_multiset().len() == 0);
        assert(s.to_multiset() =~= vstd::multiset::Multiset::<TransactionWithDeps>::empty());
        assert(pick(s).0.to_multiset().add(pick(s).1.to_multiset()) =~= s.to_multiset());
    }
}

/// The execution groups are sound: each is nonempty, no two transactions in a group
/// conflict, and together they hold exactly the given transactions.
pub proof fn lemma_groups_sound(s: Seq<TransactionWithDeps>)
    ensures
        forall|i: int| 0 <= i < groups_spec(s).len() ==> #[trigger] groups_spec(s)[i].len() > 0,
        forall|i: int, a: int, b: int|
            0 <= i < groups_spec(s).len() && 0 <= a < groups_spec(s)[i].len() && 0 <= b
                < groups_spec(s)[i].len() && a != b ==> !conflicts(
                #[trigger] groups_spec(s)[i][a],
                #[trigger] groups_spec(s)[i][b],
            ),
        flatten(groups_spec(s)).to_multiset() == s.to_multiset(),
    decreases s.len(),
{
    broadcast use vstd::seq_lib::group_to_multiset_ensures;
    broadcast use vstd::multiset::group_multiset_axioms;

    if s.len() == 0 {
        assert(flatten(groups_spec(s)) =~= Seq::<TransactionWithDeps>::empty());
        assert(s.to_multiset() =~= vstd::multiset::Multiset::<TransactionWithDeps>::empty());
        assert(flatten(groups_spec(s)).to_multiset() =~= s.to_multiset());
    } else {
        lemma_pick_len(s);
        lemma_pick_independent(s);
        let p = pick(s);
        let gs = groups_spec(s);
        lemma_groups_sound(p.1);
        assert(gs == seq![p.0] + groups_spec(p.1));
        assert(gs[0] == p.0);
        assert(gs.drop_first() =~= groups_spec(p.1));
        assert(flatten(gs) == p.0 + flatten(groups_spec(p.1)));
        vstd::seq_lib::lemma_multiset_commutative(p.0, flatten(groups_spec(p.1)));
        assert forall|i: int| 0 <= i < gs.len() implies #[trigger] gs[i].len() > 0 by {
            if i > 0 {
                assert(gs[i] == groups_spec(p.1)[i - 1]);
            }
        }
        assert forall|i: int, a: int, b: int|
            0 <= i < gs.len() && 0 <= a < gs[i].len() && 0 <= b < gs[i].len() && a != b implies !conflicts(
            #[trigger] gs[i][a],
            #[trigger] gs[i][b],
        ) by {
            if i > 0 {
                assert(gs[i] == groups_spec(p.1)[i - 1]);
            }
        }
        assert(flatten(gs).to_multiset() =~= s.to_multiset());
    }
}

/// The values of the transactions, added up.
pub open spec fn dvalue(s: Seq<TransactionWithDeps>) -> int
    decreases s.len(),
{
    if s.len() == 0 {
        0
    } else {
        dvalue(s.drop_last()) + s.last().tx.value
    }
}

proof fn lemma_dvalue_remove(s: Seq<TransactionWithDeps>, j: int)
    requires
        0 <= j < s.len(),
    ensures
        dvalue(s) == dvalue(s.remove(j)) + s[j].tx.value,
    decreases s.len(),
{
    if j < s.len() - 1 {
        assert(s.remove(j).drop_last() =~= s.drop_last().remove(j));
        assert(s.remove(j).last() == s.last());
        lemma_dvalue_remove(s.drop_last(), j);
    } else {
        assert(s.remove(j) =~= s.drop_last());
    }
}

proof fn lemma_dvalue_perm(a: Seq<TransactionWithDeps>, b: Seq<TransactionWithDeps>)
    requires
        a.to_multiset() == b.to_multiset(),
    ensures
        dvalue(a) == dvalue(b),
    decreases a.len(),
{
    broadcast use vstd::seq_lib::group_to_multiset_ensures;
    broadcast use vstd::multiset::group_multiset_axioms;

    if a.len() == 0 {
        assert(a.to_multiset().len() == 0);
        assert(b.to_multiset().len() == b.len());
    } else {
        let x = a.last();
        assert(a.to_multiset().count(x) > 0) by {
            assert(a.contains(x)) by {
                assert(a[a.len() - 1] == x);
            }
        }
        assert(b.contains(x));
        let j = choose|j: int| 0 <= j < b.len() && b[j] == x;
        assert(a =~= a.drop_last().push(x));
        assert(a.drop_last().to_multiset() =~= b.remove(j).to_multiset()) by {
            assert(a.drop_last().push(x).to_multiset() == a.drop_last().to_multiset().insert(x));
            assert(b.remove(j).to_multiset() == b.to_multiset().remove(x));
        }
        lemma_dvalue_perm(a.drop_last(), b.remove(j));
        lemma_dvalue_remove(b, j);
    }
}

proof fn lemma_dvalue_take(s: Seq<TransactionWithDeps>, k: int)
    requires
        0 <= k < s.len(),
    ensures
        dvalue(s.take(k + 1)) == dvalue(s.take(k)) + s[k].tx.value,
        dvalue(s.take(k + 1)) <= dvalue(s),
    decreases s.len() - k,
{
    assert(s.take(k + 1).drop_last() =~= s.take(k));
    if k + 1 < s.len() {
        lemma_dvalue_take(s, k + 1);
    } else {
        assert(s.take(k + 1) =~= s);
    }
}

proof fn lemma_total_value_deps(txs: Seq<Transaction>, ds: Seq<TransactionWithDeps>)
    requires
        txs.len() == ds.len(),
        forall|i: int| 0 <= i < ds.len() ==> #[trigger] ds[i].tx == txs[i],
    ensures
        total_value(txs) == dvalue(ds),
    decreases txs.len(),
{
    if txs.len() > 0 {
        lemma_total_value_deps(txs.drop_last(), ds.drop_last());
    }
}

fn read_balance(state: &StrMap<Vec<u8>>, a: &str) -> (b: u64)
    requires
        state.wf(),
        bytes_view(*state).dom().contains(a@) ==> bytes_view(*state)[a@].len() >= 8,
    ensures
        b == balance8(bytes_view(*state), a@),
{
    match state.get(a) {
        None => 0,
        Some(data) => {
            let mut head: Vec<u8> = Vec::new();
            let mut i: usize = 0;
            while i < 8
                invariant
                    0 <= i <= 8,
                    data@.len() >= 8,
                    head@ == data@.take(i as int),
                decreases 8 - i,
            {
                head.push(data[i]);
                assert(head@ =~= data@.take(i + 1));
                i = i + 1;
            }
            u64_from_le_bytes(head.as_slice())
        },
    }
}

/// The state's bytes, by account.
pub open spec fn bytes_view(state: StrMap<Vec<u8>>) -> Map<Seq<char>, Seq<u8>> {
    state@.map_values(|v: Vec<u8>| v@)
}

fn write_balance(state: &mut StrMap<Vec<u8>>, a: String, x: u64)
    requires
        old(state).wf(),
    ensures
        final(state).wf(),
        bytes_view(*final(state)) == bytes_view(*old(state)).insert(a@, spec_u64_to_le_bytes(x)),
{
    let ghost k = a@;
    let v = u64_to_le_bytes(x);
    state.insert(a, v);
    assert(bytes_view(*state) =~= bytes_view(*old(state)).insert(k, spec_u64_to_le_bytes(x)));
}

impl ParallelExecutor {
    /// Execute `tx` against `state` (see `ExecutionResult::describes` and `exec_state`).
    fn execute_transaction(&self, tx: &Transaction, tx_hash: crate::hash_utils::Hash, state: &mut StrMap<Vec<u8>>) -> (r: ExecutionResult)
        requires
            old(state).wf(),
            bytes_view(*old(state)).dom().contains(tx.from@) ==> bytes_view(*old(state))[tx.from@].len() >= 8,
            tx.to matches Some(t) ==> (bytes_view(*old(state)).dom().contains(t@) ==> bytes_view(*old(state))[t@].len() >= 8),
            exec_ok(bytes_view(*old(state)), *tx) ==> (tx.to matches Some(t) ==> balance8(bytes_view(*old(state)), t@) + tx.value <= u64::MAX),
        ensures
            final(state).wf(),
            bytes_view(*final(state)) == exec_state(bytes_view(*old(state)), *tx),
            r.describes(bytes_view(*old(state)), *tx, tx_hash),
    {
        let ghost s0 = bytes_view(*state);
        proof {
            reveal_with_fuel(write_all, 3);
        }
        let sender_balance = read_balance(state, tx.from.as_str());
        if sender_balance < tx.value {
            let r = ExecutionResult {
                tx_hash,
                success: false,
                gas_used: EXEC_GAS,
                error: Some("Insufficient balance".to_owned()),
                state_changes: Vec::new(),
            };
            assert(r.state_changes@.map_values(|c: (String, Vec<u8>)| (c.0@, c.1@)) =~= Seq::empty());
            return r;
        }
        let new_sender = sender_balance - tx.value;
        let mut changes: Vec<(String, Vec<u8>)> = Vec::new();
        match &tx.to {
            Some(to) => {
                let receiver_balance = read_balance(state, to.as_str());
                let new_receiver = receiver_balance + tx.value;
                if *to == tx.from {
                    changes.push((to.clone(), u64_to_le_bytes(new_receiver)));
                } else {
                    changes.push((tx.from.clone(), u64_to_le_bytes(new_sender)));
                    changes.push((to.clone(), u64_to_le_bytes(new_receiver)));
                }
                write_balance(state, tx.from.clone(), new_sender);
                write_balance(state, to.clone(), new_receiver);
                proof {
                    let cs = exec_changes(s0, *tx);
                    if to@ == tx.from@ {
                        assert(write_all(s0, cs) == s0.insert(to@, spec_u64_to_le_bytes(new_receiver))) by {
                            assert(cs.drop_last() =~= Seq::<(Seq<char>, Seq<u8>)>::empty());
                        }
                        assert(bytes_view(*state) =~= s0.insert(to@, spec_u64_to_le_bytes(new_receiver)));
                    } else {
                        assert(cs.drop_last().drop_last() =~= Seq::<(Seq<char>, Seq<u8>)>::empty());
                        assert(write_all(s0, cs) == s0.insert(tx.from@, spec_u64_to_le_bytes(new_sender)).insert(to@, spec_u64_to_le_bytes(new_receiver)));
                    }
                }
            },
            None => {
                changes.push((tx.from.clone(), u64_to_le_bytes(new_sender)));
                write_balance(state, tx.from.clone(), new_sender);
                proof {
                    let cs = exec_changes(s0, *tx);
                    assert(cs.drop_last() =~= Seq::<(Seq<char>, Seq<u8>)>::empty());
                }
            },
        }
        let r = ExecutionResult { tx_hash, success: true, gas_used: EXEC_GAS, error: None, state_changes: changes };
        assert(r.state_changes@.map_values(|c: (String, Vec<u8>)| (c.0@, c.1@)) =~= exec_changes(s0, *tx));
        r
    }
}

/// The accounts the transactions touch hold at least 8 bytes where present.
pub open spec fn touched_ok(view: Map<Seq<char>, Seq<u8>>, txs: Seq<Transaction>) -> bool {
    &&& forall|i: int|
        0 <= i < txs.len() ==> (view.dom().contains(#[trigger] txs[i].from@) ==> view[txs[i].from@].len() >= 8)
    &&& forall|i: int|
        0 <= i < txs.len() ==> (#[trigger] txs[i].to matches Some(t) ==> (view.dom().contains(t@) ==> view[t@].len() >= 8))
}

/// Every recipient's balance has grown by at most `p` since `s0`.
pub open spec fn bounded(view: Map<Seq<char>, Seq<u8>>, s0: Map<Seq<char>, Seq<u8>>, txs: Seq<Transaction>, p: int) -> bool {
    forall|i: int|
        0 <= i < txs.len() ==> (#[trigger] txs[i].to matches Some(t) ==> balance8(view, t@) <= balance8(s0, t@) + p)
}

proof fn lemma_exec_step(
    view: Map<Seq<char>, Seq<u8>>,
    s0: Map<Seq<char>, Seq<u8>>,
    txs: Seq<Transaction>,
    i: int,
    p: int,
)
    requires
        0 <= i < txs.len(),
        touched_ok(view, txs),
        bounded(view, s0, txs, p),
        exec_ok(view, txs[i]) ==> (txs[i].to matches Some(t) ==> balance8(view, t@) + txs[i].value <= u64::MAX),
    ensures
        touched_ok(exec_state(view, txs[i]), txs),
        bounded(exec_state(view, txs[i]), s0, txs, p + txs[i].value),
{
    reveal_with_fuel(write_all, 3);
    vstd::bytes::lemma_auto_spec_u64_to_from_le_bytes();
    let tx = txs[i];
    let nv = exec_state(view, tx);
    if exec_ok(view, tx) {
        let b = balance8(view, tx.from@);
        let sb = spec_u64_to_le_bytes((b - tx.value) as u64);
        assert(sb.len() == 8);
        assert(sb.take(8) =~= sb);
        match tx.to {
            Some(t) => {
                let r = balance8(view, t@);
                let rb = spec_u64_to_le_bytes((r + tx.value) as u64);
                assert(rb.len() == 8);
                assert(rb.take(8) =~= rb);
                if t@ == tx.from@ {
                    assert(nv == view.insert(t@, rb));
                } else {
                    assert(exec_changes(view, tx).drop_last().drop_last() =~= Seq::<(Seq<char>, Seq<u8>)>::empty());
                    assert(nv == view.insert(tx.from@, sb).insert(t@, rb));
                }
                assert forall|j: int| 0 <= j < txs.len() implies (#[trigger] txs[j].to matches Some(u) ==> balance8(nv, u@) <= balance8(s0, u@) + p + tx.value) by {
                    if let Some(u) = txs[j].to {
                        assert(balance8(view, u@) <= balance8(s0, u@) + p);
                        if u@ == t@ {
                        } else if u@ == tx.from@ {
                        } else {
                            assert(nv.dom().contains(u@) == view.dom().contains(u@));
                        }
                    }
                }
            },
            None => {
                assert(exec_changes(view, tx).drop_last() =~= Seq::<(Seq<char>, Seq<u8>)>::empty());
                assert(nv == view.insert(tx.from@, sb));
                assert forall|j: int| 0 <= j < txs.len() implies (#[trigger] txs[j].to matches Some(u) ==> balance8(nv, u@) <= balance8(s0, u@) + p + tx.value) by {
                    if let Some(u) = txs[j].to {
                        assert(balance8(view, u@) <= balance8(s0, u@) + p);
                    }
                }
            },
        }
    }
}

/// `ds` are the given transactions, in order, each with its hash and the accounts it reads and
/// writes.
pub open spec fn deps_for(ds: Seq<TransactionWithDeps>, txs: Seq<Transaction>) -> bool {
    &&& ds.len() == txs.len()
    &&& forall|i: int|
        0 <= i < ds.len() ==> {
            &&& (#[trigger] ds[i]).tx == txs[i]
            &&& ds[i].tx_hash@ == txs[i].hash_spec()
            &&& ds[i].reads.wf()
            &&& ds[i].writes.wf()
            &&& ds[i].reads@ == tx_reads(txs[i])
            &&& ds[i].writes@ == tx_writes(txs[i])
        }
}

impl ParallelExecutor {
    /// Execute the transactions group by group (see `groups_spec`), in group order, writing
    /// the new balances into `state` (see `state_at`), and record the run under the next
    /// batch id.
    pub fn execute_parallel(&mut self, transactions: Vec<Transaction>, state: &mut StrMap<Vec<u8>>) -> (results: Vec<ExecutionResult>)
        requires
            old(self).wf(),
            old(state).wf(),
            state_fits(bytes_view(*old(state)), transactions@),
        ensures
            final(self).wf(),
            final(state).wf(),
            exists|ds: Seq<TransactionWithDeps>|
                #[trigger] deps_for(ds, transactions@) && {
                    let order = flatten(groups_spec(ds));
                    &&& results@.len() == order.len()
                    &&& forall|k: int|
                        0 <= k < order.len() ==> #[trigger] results@[k].describes(
                            state_at(bytes_view(*old(state)), order, k as nat),
                            order[k].tx,
                            order[k].tx_hash,
                        )
                    &&& bytes_view(*final(state)) == state_at(bytes_view(*old(state)), order, order.len())
                    &&& final(self).stats().dom().contains(old(self).next_batch())
                    &&& final(self).stats() == old(self).stats().insert(
                        old(self).next_batch(),
                        final(self).stats()[old(self).next_batch()],
                    )
                    &&& final(self).stats()[old(self).next_batch()].batch_id == old(self).next_batch()
                    &&& final(self).stats()[old(self).next_batch()].total_transactions == transactions@.len()
                    &&& final(self).stats()[old(self).next_batch()].parallel_groups == groups_spec(ds).len()
                    &&& final(self).stats()[old(self).next_batch()].speedup_factor_ppm == speedup_spec(
                        transactions@.len() as int,
                        final(self).stats()[old(self).next_batch()].execution_time_ms,
                    )
                },
            final(self).next_batch() == (if old(self).next_batch() == u64::MAX {
                0
            } else {
                (old(self).next_batch() + 1) as u64
            }),
            final(self).threads() == old(self).threads(),
    {
        let start = now_millis();
        let total_txs = transactions.len();
        let ghost txs = transactions@;
        let ghost s0 = bytes_view(*state);
        let mut deps: Vec<TransactionWithDeps> = Vec::new();
        let mut rest = transactions;
        let mut i: usize = 0;
        while rest.len() > 0
            invariant
                total_txs == txs.len(),
                0 <= i <= total_txs,
                rest@ == txs.skip(i as int),
                deps@.len() == i,
                deps_for(deps@, txs.take(i as int)),
            decreases rest.len(),
        {
            let tx = rest.remove(0);
            assert(tx == txs[i as int]);
            let tx_hash = tx.hash();
            let (reads, writes) = self.analyze_dependencies(&tx);
            deps.push(TransactionWithDeps { tx, tx_hash, reads, writes });
            assert(rest@ =~= txs.skip(i + 1));
            i = i + 1;
            assert forall|j: int| 0 <= j < deps@.len() implies {
                &&& (#[trigger] deps@[j]).tx == txs.take(i as int)[j]
                &&& deps@[j].tx_hash@ == txs.take(i as int)[j].hash_spec()
                &&& deps@[j].reads.wf()
                &&& deps@[j].writes.wf()
                &&& deps@[j].reads@ == tx_reads(txs.take(i as int)[j])
                &&& deps@[j].writes@ == tx_writes(txs.take(i as int)[j])
            } by {
                if j < i - 1 {
                    assert(txs.take(i as int)[j] == txs.take(i - 1)[j]);
                }
            }
        }
        assert(txs.take(total_txs as int) =~= txs);
        let ghost ds = deps@;
        assert(deps_for(ds, txs));
        let groups = self.build_execution_groups(deps);
        let group_count = groups.len();
        let ghost gs = groups_spec(ds);
        let mut order: Vec<TransactionWithDeps> = Vec::new();
        let mut pending = groups;
        while pending.len() > 0
            invariant
                order@ + flatten(pending@.map_values(|g: Vec<TransactionWithDeps>| g@)) == flatten(gs),
            decreases pending.len(),
        {
            let ghost pv = pending@.map_values(|g: Vec<TransactionWithDeps>| g@);
            let mut g = pending.remove(0);
            assert(pending@.map_values(|g: Vec<TransactionWithDeps>| g@) =~= pv.drop_first());
            let ghost gv = g@;
            let ghost o0 = order@;
            while g.len() > 0
                invariant
                    order@ + g@ == o0 + gv,
                decreases g.len(),
            {
                let x = g.remove(0);
                order.push(x);
                assert(order@ + g@ =~= o0 + gv);
            }
            assert(g@ =~= Seq::<TransactionWithDeps>::empty());
            assert(order@ =~= o0 + gv);
            assert(flatten(pv) == pv[0] + flatten(pv.drop_first()));
            assert(order@ + flatten(pending@.map_values(|g: Vec<TransactionWithDeps>| g@)) =~= o0 + flatten(pv));
        }
        assert(flatten(pending@.map_values(|g: Vec<TransactionWithDeps>| g@)) =~= Seq::<TransactionWithDeps>::empty());
        assert(order@ =~= flatten(gs));
        let ghost ord = order@;
        proof {
            lemma_groups_sound(ds);
            lemma_dvalue_perm(ord, ds);
            lemma_total_value_deps(txs, ds);
        }
        let mut results: Vec<ExecutionResult> = Vec::new();
        let mut k: usize = 0;
        while k < order.len()
            invariant
                ord == order@,
                ord.to_multiset() == ds.to_multiset(),
                deps_for(ds, txs),
                dvalue(ord) == total_value(txs),
                state_fits(s0, txs),
                state.wf(),
                0 <= k <= ord.len(),
                results@.len() == k,
                bytes_view(*state) == state_at(s0, ord, k as nat),
                touched_ok(bytes_view(*state), txs),
                bounded(bytes_view(*state), s0, txs, dvalue(ord.take(k as int))),
                forall|m: int|
                    0 <= m < k ==> #[trigger] results@[m].describes(
                        state_at(s0, ord, m as nat),
                        ord[m].tx,
                        ord[m].tx_hash,
                    ),
            decreases ord.len() - k,
        {
            let ghost view = bytes_view(*state);
            proof {
                broadcast use vstd::seq_lib::group_to_multiset_ensures;
                assert(ord.contains(ord[k as int]));
                assert(ds.to_multiset().count(ord[k as int]) > 0);
                let j = choose|j: int| 0 <= j < ds.len() && ds[j] == ord[k as int];
                assert(ds[j].tx == txs[j]);
                lemma_dvalue_take(ord, k as int);
                if let Some(t) = txs[j].to {
                    assert(balance8(view, t@) <= balance8(s0, t@) + dvalue(ord.take(k as int)));
                    assert(balance8(s0, t@) + total_value(txs) <= u64::MAX);
                }
                lemma_exec_step(view, s0, txs, j, dvalue(ord.take(k as int)));
                assert(touched_ok(s0, txs));
            }
            let r = self.execute_transaction(&order[k].tx, order[k].tx_hash, state);
            results.push(r);
            k = k + 1;
        }
        let end = now_millis();
        let execution_time: u64 = if end >= start {
            end - start
        } else {
            0
        };
        let batch_id = self.batch_counter;
        self.batch_counter = self.batch_counter.wrapping_add(1);
        self.execution_stats.insert(
            batch_id,
            ExecutionBatch {
                batch_id,
                total_transactions: total_txs,
                parallel_groups: group_count,
                execution_time_ms: execution_time,
                speedup_factor_ppm: speedup(total_txs, execution_time),
            },
        );
        assert(deps_for(ds, txs));
        results
    }

    /// The recorded executions, in the order they were first recorded.
    pub fn get_stats(&self) -> (r: Vec<ExecutionBatch>)
        ensures
            r@ == self.stats_seq(),
    {
        let mut r: Vec<ExecutionBatch> = Vec::new();
        let mut i: usize = 0;
        while i < self.execution_stats.len_entries()
            invariant
                0 <= i <= self.execution_stats.entries().len(),
                r@ == self.execution_stats.entries().take(i as int).map_values(|e: (u64, ExecutionBatch)| e.1),
            decreases self.execution_stats.entries().len() - i,
        {
            r.push(*self.execution_stats.value_at(i));
            assert(r@ =~= self.execution_stats.entries().take(i + 1).map_values(|e: (u64, ExecutionBatch)| e.1));
            i = i + 1;
        }
        assert(self.execution_stats.entries().take(i as int) =~= self.execution_stats.entries());
        r
    }
}

impl ParallelExecutor {
    /// The mean estimated speedup over the recorded executions, in millionths; 1_000_000
    /// when none is recorded.
    pub fn get_average_speedup_ppm(&self) -> (r: u64)
        ensures
            r == mean_speedup_spec(self.stats_seq()),
    {
        let ghost s = self.stats_seq();
        let n = self.execution_stats.len_entries();
        if n == 0 {
            return 1_000_000;
        }
        let mut total: u128 = 0;
        let mut i: usize = 0;
        while i < n
            invariant
                n == s.len(),
                s == self.stats_seq(),
                s == self.execution_stats.entries().map_values(|e: (u64, ExecutionBatch)| e.1),
                0 <= i <= n,
                total == speedup_sum(s.take(i as int)),
                total <= i * u64::MAX,
            decreases n - i,
        {
            let x = self.execution_stats.value_at(i).speedup_factor_ppm;
            proof {
                assert(x == s[i as int].speedup_factor_ppm);
                assert(s.take(i + 1).drop_last() =~= s.take(i as int));
            }
            total = total + (x as u128);
            i = i + 1;
        }
        assert(s.take(n as int) =~= s);
        let q: u128 = total / (n as u128);
        assert(q <= u64::MAX) by (nonlinear_arith)
            requires
                q == total / (n as u128),
                total <= n * u64::MAX,
                n > 0,
        {
            assert((total as int) / (n as int) <= (n * u64::MAX) / (n as int));
            assert((n * u64::MAX) / (n as int) == u64::MAX);
        }
        q as u64
    }
}

/// The number of CPUs this process may use: calls `num_cpus::get`, which is documented to
/// answer at least 1.
#[verifier::external_body]
fn cpu_count() -> (n: usize)
    ensures
        n >= 1,
{
    num_cpus::get()
}

impl Default for ParallelExecutor {
    /// An executor with one thread per CPU this process may use.
    fn default() -> (e: Self)
        ensures
            e.wf(),
            e.threads() >= 1,
            e.stats() == Map::<u64, ExecutionBatch>::empty(),
            e.next_batch() == 0,
    {
        Self::new(cpu_count())
    }
}

/// Executing a transfer between two accounts moves its value: the sender's balance falls by
/// it and the recipient's rises by it, and no other account changes; a sender who cannot pay
/// leaves the state as it was.
pub proof fn lemma_transfer_moves_value(state: Map<Seq<char>, Seq<u8>>, tx: Transaction, other: Seq<char>)
    requires
        tx.to is Some,
        tx.to->Some_0@ != tx.from@,
        balance8(state, tx.to->Some_0@) + tx.value <= u64::MAX,
        other != tx.from@,
        other != tx.to->Some_0@,
    ensures
        !exec_ok(state, tx) ==> exec_state(state, tx) == state,
        exec_ok(state, tx) ==> {
            let next = exec_state(state, tx);
            &&& balance8(next, tx.from@) == balance8(state, tx.from@) - tx.value
            &&& balance8(next, tx.to->Some_0@) == balance8(state, tx.to->Some_0@) + tx.value
            &&& balance8(next, other) == balance8(state, other)
        },
{
    if exec_ok(state, tx) {
        let t = tx.to->Some_0@;
        let cs = exec_changes(state, tx);
        vstd::bytes::lemma_auto_spec_u64_to_from_le_bytes();
        let a = spec_u64_to_le_bytes((balance8(state, tx.from@) - tx.value) as u64);
        let b = spec_u64_to_le_bytes((balance8(state, t) + tx.value) as u64);
        assert(cs =~= seq![(tx.from@, a), (t, b)]);
        assert(cs.drop_last().drop_last() =~= Seq::<(Seq<char>, Seq<u8>)>::empty());
        assert(cs.drop_last() =~= seq![(tx.from@, a)]);
        assert(write_all(state, cs.drop_last().drop_last()) == state);
        assert(write_all(state, cs.drop_last()) == state.insert(tx.from@, a));
        let next = write_all(state, cs);
        assert(next == state.insert(tx.from@, a).insert(t, b));
        assert(a.take(8) =~= a);
        assert(b.take(8) =~= b);
    }
}

/// The speedup of running `total` transactions in `time_ms` is the sequential estimate of 10 ms
/// a transaction over the time taken (at least 1 ms), in millionths rounded down: the largest
/// `r` with `r * time_ms <= total * 10 * 1_000_000` (within 64 bits).
pub proof fn lemma_speedup_floor(total: int, time_ms: u64)
    requires
        total >= 0,
        time_ms > 0,
        total * 10 * 1_000_000 / (time_ms as int) <= u64::MAX,
    ensures
        speedup_spec(total, time_ms) * time_ms <= total * 10 * 1_000_000 < (speedup_spec(total, time_ms) + 1) * time_ms,
{
    assert(total * 10 * 1_000_000 >= 0) by (nonlinear_arith)
        requires
            total >= 0,
    ;
    crate::util::lemma_floor_div(total * 10 * 1_000_000, time_ms as int);
}

/// Two transactions conflict exactly when they touch a common account (as sender or
/// recipient), since each writes every account it touches; so transactions over disjoint
/// accounts run in the same group, and two from the same sender never do.
pub proof fn lemma_conflict_iff_shared_account(x: TransactionWithDeps, y: TransactionWithDeps, a: Transaction, b: Transaction)
    requires
        x.reads@ == tx_reads(a),
        x.writes@ == tx_writes(a),
        y.reads@ == tx_reads(b),
        y.writes@ == tx_writes(b),
    ensures
        conflicts(x, y) <==> exists|k: Seq<char>| #[trigger] tx_writes(a).contains(k) && tx_writes(b).contains(k),
        a.from@ == b.from@ ==> conflicts(x, y),
{
    if conflicts(x, y) {
        let k = choose|k: Seq<char>|
            #![trigger x.writes@.contains(k)]
            #![trigger x.reads@.contains(k)]
            (x.writes@.contains(k) && (y.writes@.contains(k) || y.reads@.contains(k)))
                || (x.reads@.contains(k) && y.writes@.contains(k));
        assert(tx_writes(a).contains(k) && tx_writes(b).contains(k));
    }
    if exists|k: Seq<char>| #[trigger] tx_writes(a).contains(k) && tx_writes(b).contains(k) {
        let k = choose|k: Seq<char>| #[trigger] tx_writes(a).contains(k) && tx_writes(b).contains(k);
        assert(x.writes@.contains(k) && y.writes@.contains(k));
    }
    if a.from@ == b.from@ {
        assert(tx_writes(a).contains(a.from@) && tx_writes(b).contains(a.from@));
    }
}

} // verus!
