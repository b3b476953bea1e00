use vstd::prelude::*;

use crate::clock::now_micros;
use crate::types::{opt_string_view, utf8_spec, Transaction};
use crate::util::{copy_all, copy_opt_string, copy_strings, copy_vec, DeepCopy};

verus! {

#[derive(Debug)]
pub struct ExecutionTrace {
    pub tx_hash: crate::hash_utils::Hash,
    pub steps: Vec<TraceStep>,
    pub total_gas_used: u64,
    pub execution_time_us: u64,
    pub state_accesses: Vec<StateAccess>,
    pub logs: Vec<TraceLog>,
    pub revert_reason: Option<String>,
    pub error: Option<String>,
}

#[derive(Debug)]
pub struct TraceStep {
    pub step_number: usize,
    pub operation: String,
    pub gas_cost: u64,
    pub gas_remaining: u64,
    pub stack: Vec<String>,
    pub memory_changes: Vec<MemoryChange>,
    pub storage_changes: Vec<StorageChange>,
}

#[derive(Debug)]
pub struct StateAccess {
    pub access_type: AccessType,
    pub address: String,
    pub key: Option<String>,
    pub value: Option<Vec<u8>>,
    pub gas_cost: u64,
}

#[derive(Debug, Clone, Copy, PartialEq, Eq, Structural)]
pub enum AccessType {
    Read,
    Write,
    Create,
    Delete,
}

#[derive(Debug)]
pub struct MemoryChange {
    pub offset: usize,
    pub size: usize,
    pub data: Vec<u8>,
}

#[derive(Debug)]
pub struct StorageChange {
    pub slot: String,
    pub before: Vec<u8>,
    pub after: Vec<u8>,
}

#[derive(Debug)]
pub struct TraceLog {
    pub level: TraceLogLevel,
    pub message: String,
    pub step: usize,
    pub gas_used: u64,
}

#[derive(Debug, Clone, Copy, PartialEq, Eq, Structural)]
pub enum TraceLogLevel {
    Debug,
    Info,
    Warning,
    Error,
}

#[derive(Debug, Clone, Copy, PartialEq, Eq, Structural)]
pub struct TraceStats {
    pub total_traces: usize,
    pub total_gas_used: u64,
    pub avg_gas_per_trace: u64,
    pub avg_execution_time_us: u64,
    pub traces_with_errors: usize,
}

/// Why a debug query was refused.
#[derive(Debug, Clone, Copy, PartialEq, Eq, Structural)]
pub enum TraceError {
    TraceNotFound,
}

/// What a memory change holds.
pub struct MemoryChangeModel {
    pub offset: usize,
    pub size: usize,
    pub data: Seq<u8>,
}

/// What a storage change holds.
pub struct StorageChangeModel {
    pub slot: Seq<char>,
    pub before: Seq<u8>,
    pub after: Seq<u8>,
}

/// What a state access holds.
pub struct StateAccessModel {
    pub access_type: AccessType,
    pub address: Seq<char>,
    pub key: Option<Seq<char>>,
    pub value: Option<Seq<u8>>,
    pub gas_cost: u64,
}

/// What a trace step holds.
pub struct TraceStepModel {
    pub step_number: usize,
    pub operation: Seq<char>,
    pub gas_cost: u64,
    pub gas_remaining: u64,
    pub stack: Seq<Seq<char>>,
    pub memory_changes: Seq<MemoryChangeModel>,
    pub storage_changes: Seq<StorageChangeModel>,
}

/// What a trace log holds.
pub struct TraceLogModel {
    pub level: TraceLogLevel,
    pub message: Seq<char>,
    pub step: usize,
    pub gas_used: u64,
}

/// What an execution trace holds.
pub struct ExecutionTraceModel {
    pub tx_hash: Seq<u8>,
    pub steps: Seq<TraceStepModel>,
    pub total_gas_used: u64,
    pub execution_time_us: u64,
    pub state_accesses: Seq<StateAccessModel>,
    pub logs: Seq<TraceLogModel>,
    pub revert_reason: Option<Seq<char>>,
    pub error: Option<Seq<char>>,
}

/// The bytes of an optional byte vector.
pub open spec fn opt_bytes_view(o: Option<Vec<u8>>) -> Option<Seq<u8>> {
    match o {
        None => None,
        Some(v) => Some(v@),
    }
}

/// The characters of each string.
pub open spec fn strings_view(v: Seq<String>) -> Seq<Seq<char>> {
    v.map_values(|s: String| s@)
}

impl View for MemoryChange {
    type V = MemoryChangeModel;

    open spec fn view(&self) -> MemoryChangeModel {
        MemoryChangeModel { offset: self.offset, size: self.size, data: self.data@ }
    }
}

impl View for StorageChange {
    type V = StorageChangeModel;

    open spec fn view(&self) -> StorageChangeModel {
        StorageChangeModel { slot: self.slot@, before: self.before@, after: self.after@ }
    }
}

impl View for StateAccess {
    type V = StateAccessModel;

    open spec fn view(&self) -> StateAccessModel {
        StateAccessModel {
            access_type: self.access_type,
            address: self.address@,
            key: opt_string_view(self.key),
            value: opt_bytes_view(self.value),
            gas_cost: self.gas_cost,
        }
    }
}

impl View for TraceStep {
    type V = TraceStepModel;

    open spec fn view(&self) -> TraceStepModel {
        TraceStepModel {
            step_number: self.step_number,
            operation: self.operation@,
            gas_cost: self.gas_cost,
            gas_remaining: self.gas_remaining,
            stack: strings_view(self.stack@),
            memory_changes: self.memory_changes@.map_values(|m: MemoryChange| m@),
            storage_changes: self.storage_changes@.map_values(|s: StorageChange| s@),
        }
    }
}

impl View for TraceLog {
    type V = TraceLogModel;

    open spec fn view(&self) -> TraceLogModel {
        TraceLogModel { level: self.level, message: self.message@, step: self.step, gas_used: self.gas_used }
    }
}

impl View for ExecutionTrace {
    type V = ExecutionTraceModel;

    open spec fn view(&self) -> ExecutionTraceModel {
        ExecutionTraceModel {
            tx_hash: self.tx_hash@,
            steps: self.steps@.map_values(|s: TraceStep| s@),
            total_gas_used: self.total_gas_used,
            execution_time_us: self.execution_time_us,
            state_accesses: self.state_accesses@.map_values(|a: StateAccess| a@),
            logs: self.logs@.map_values(|l: TraceLog| l@),
            revert_reason: opt_string_view(self.revert_reason),
            error: opt_string_view(self.error),
        }
    }
}

fn copy_opt_bytes(o: &Option<Vec<u8>>) -> (r: Option<Vec<u8>>)
    ensures
        opt_bytes_view(r) == opt_bytes_view(*o),
{
    match o {
        None => None,
        Some(v) => Some(copy_vec(v)),
    }
}

impl DeepCopy for MemoryChange {
    fn deep_copy(&self) -> (r: Self) {
        MemoryChange { offset: self.offset, size: self.size, data: copy_vec(&self.data) }
    }
}

impl DeepCopy for StorageChange {
    fn deep_copy(&self) -> (r: Self) {
        StorageChange { slot: self.slot.clone(), before: copy_vec(&self.before), after: copy_vec(&self.after) }
    }
}

impl DeepCopy for StateAccess {
    fn deep_copy(&self) -> (r: Self) {
        StateAccess {
            access_type: self.access_type,
            address: self.address.clone(),
            key: copy_opt_string(&self.key),
            value: copy_opt_bytes(&self.value),
            gas_cost: self.gas_cost,
        }
    }
}

impl DeepCopy for TraceStep {
    fn deep_copy(&self) -> (r: Self) {
        let stack = copy_strings(&self.stack);
        let r = TraceStep {
            step_number: self.step_number,
            operation: self.operation.clone(),
            gas_cost: self.gas_cost,
            gas_remaining: self.gas_remaining,
            stack,
            memory_changes: copy_all(&self.memory_changes),
            storage_changes: copy_all(&self.storage_changes),
        };
        assert(strings_view(r.stack@) =~= strings_view(self.stack@));
        r
    }
}

impl DeepCopy for TraceLog {
    fn deep_copy(&self) -> (r: Self) {
        TraceLog { level: self.level, message: self.message.clone(), step: self.step, gas_used: self.gas_used }
    }
}

impl DeepCopy for ExecutionTrace {
    fn deep_copy(&self) -> (r: Self) {
        ExecutionTrace {
            tx_hash: self.tx_hash,
            steps: copy_all(&self.steps),
            total_gas_used: self.total_gas_used,
            execution_time_us: self.execution_time_us,
            state_accesses: copy_all(&self.state_accesses),
            logs: copy_all(&self.logs),
            revert_reason: copy_opt_string(&self.revert_reason),
            error: copy_opt_string(&self.error),
        }
    }
}

/// What a trace builder holds.
pub struct TraceBuilderModel {
    pub tx_hash: Seq<u8>,
    pub steps: Seq<TraceStepModel>,
    pub state_accesses: Seq<StateAccessModel>,
    pub logs: Seq<TraceLogModel>,
    pub start_us: u64,
    pub total_gas_used: u64,
    pub revert_reason: Option<Seq<char>>,
    pub error: Option<Seq<char>>,
    pub debug_mode: bool,
}

/// Builds an execution trace step by step.
pub struct TraceBuilder {
    tx_hash: crate::hash_utils::Hash,
    steps: Vec<TraceStep>,
    state_accesses: Vec<StateAccess>,
    logs: Vec<TraceLog>,
    start_us: u64,
    total_gas_used: u64,
    revert_reason: Option<String>,
    error: Option<String>,
    debug_mode: bool,
}

impl View for TraceBuilder {
    type V = TraceBuilderModel;

    closed spec fn view(&self) -> TraceBuilderModel {
        TraceBuilderModel {
            tx_hash: self.tx_hash@,
            steps: self.steps@.map_values(|s: TraceStep| s@),
            state_accesses: self.state_accesses@.map_values(|a: StateAccess| a@),
            logs: self.logs@.map_values(|l: TraceLog| l@),
            start_us: self.start_us,
            total_gas_used: self.total_gas_used,
            revert_reason: opt_string_view(self.revert_reason),
            error: opt_string_view(self.error),
            debug_mode: self.debug_mode,
        }
    }
}

/// Outside debug mode a trace keeps at most this many steps and one more.
pub const MAX_STEPS: usize = 1000;

/// Whether a step is recorded: always in debug mode, else while the trace holds no more
/// than `MAX_STEPS` steps.
pub open spec fn records_step(b: TraceBuilderModel) -> bool {
    b.debug_mode || b.steps.len() <= MAX_STEPS
}

/// The elapsed time between two clock readings, never negative.
pub open spec fn elapsed_spec(start: u64, end: u64) -> u64 {
    if end >= start { (end - start) as u64 } else { 0 }
}

/// The trace a builder gives when finished at `now_us`.
pub open spec fn built(b: TraceBuilderModel, now_us: u64) -> ExecutionTraceModel {
    ExecutionTraceModel {
        tx_hash: b.tx_hash,
        steps: b.steps,
        total_gas_used: b.total_gas_used,
        execution_time_us: elapsed_spec(b.start_us, now_us),
        state_accesses: b.state_accesses,
        logs: b.logs,
        revert_reason: b.revert_reason,
        error: b.error,
    }
}

impl TraceBuilder {
    /// An empty trace of `tx_hash`, started at `start_us`.
    pub fn new_at(tx_hash: crate::hash_utils::Hash, debug_mode: bool, start_us: u64) -> (b: Self)
        ensures
            b@ == (TraceBuilderModel {
                tx_hash: tx_hash@,
                steps: Seq::empty(),
                state_accesses: Seq::empty(),
                logs: Seq::empty(),
                start_us,
                total_gas_used: 0,
                revert_reason: None,
                error: None,
                debug_mode,
            }),
    {
        let b = TraceBuilder {
            tx_hash,
            steps: Vec::new(),
            state_accesses: Vec::new(),
            logs: Vec::new(),
            start_us,
            total_gas_used: 0,
            revert_reason: None,
            error: None,
            debug_mode,
        };
        assert(b@.steps =~= Seq::empty());
        assert(b@.state_accesses =~= Seq::empty());
        assert(b@.logs =~= Seq::empty());
        b
    }

    /// An empty trace of `tx_hash`, started now by the wall clock.
    pub fn new(tx_hash: crate::hash_utils::Hash, debug_mode: bool) -> (b: Self)
        ensures
            b@.tx_hash == tx_hash@,
            b@.steps == Seq::<TraceStepModel>::empty(),
            b@.state_accesses == Seq::<StateAccessModel>::empty(),
            b@.logs == Seq::<TraceLogModel>::empty(),
            b@.total_gas_used == 0,
            b@.revert_reason is None,
            b@.error is None,
            b@.debug_mode == debug_mode,
    {
        Self::new_at(tx_hash, debug_mode, now_micros())
    }

    /// Record a step, numbered by its place, and add its gas cost to the total; outside
    /// debug mode nothing is recorded once the trace holds more than `MAX_STEPS` steps.
    pub fn add_step(&mut self, operation: String, gas_cost: u64, gas_remaining: u64, stack: Vec<String>)
        requires
            records_step(old(self)@) ==> old(self)@.total_gas_used + gas_cost <= u64::MAX,
        ensures
            !records_step(old(self)@) ==> final(self)@ == old(self)@,
            records_step(old(self)@) ==> final(self)@ == (TraceBuilderModel {
                steps: old(self)@.steps.push(TraceStepModel {
                    step_number: old(self)@.steps.len() as usize,
                    operation: operation@,
                    gas_cost,
                    gas_remaining,
                    stack: strings_view(stack@),
                    memory_changes: Seq::empty(),
                    storage_changes: Seq::empty(),
                }),
                total_gas_used: (old(self)@.total_gas_used + gas_cost) as u64,
                ..old(self)@
            }),
    {
        if !self.debug_mode && self.steps.len() > MAX_STEPS {
            return;
        }
        self.total_gas_used = self.total_gas_used + gas_cost;
        let step = TraceStep {
            step_number: self.steps.len(),
            operation,
            gas_cost,
            gas_remaining,
            stack,
            memory_changes: Vec::new(),
            storage_changes: Vec::new(),
        };
        let ghost sv = step@;
        assert(sv.memory_changes =~= Seq::empty());
        assert(sv.storage_changes =~= Seq::empty());
        let ghost s0 = self.steps@;
        self.steps.push(step);
        assert(self.steps@.map_values(|s: TraceStep| s@) =~= s0.map_values(|s: TraceStep| s@).push(sv));
    }

    /// Record an access to state.
    pub fn add_state_access(&mut self, access_type: AccessType, address: String, key: Option<String>, value: Option<Vec<u8>>, gas_cost: u64)
        ensures
            final(self)@ == (TraceBuilderModel {
                state_accesses: old(self)@.state_accesses.push(StateAccessModel {
                    access_type,
                    address: address@,
                    key: opt_string_view(key),
                    value: opt_bytes_view(value),
                    gas_cost,
                }),
                ..old(self)@
            }),
    {
        let a = StateAccess { access_type, address, key, value, gas_cost };
        let ghost av = a@;
        let ghost s0 = self.state_accesses@;
        self.state_accesses.push(a);
        assert(self.state_accesses@.map_values(|a: StateAccess| a@) =~= s0.map_values(|a: StateAccess| a@).push(av));
    }

    /// Record a log line, stamped with the current step count and gas total.
    pub fn add_log(&mut self, level: TraceLogLevel, message: String)
        ensures
            final(self)@ == (TraceBuilderModel {
                logs: old(self)@.logs.push(TraceLogModel {
                    level,
                    message: message@,
                    step: old(self)@.steps.len() as usize,
                    gas_used: old(self)@.total_gas_used,
                }),
                ..old(self)@
            }),
    {
        let l = TraceLog { level, message, step: self.steps.len(), gas_used: self.total_gas_used };
        let ghost lv = l@;
        let ghost s0 = self.logs@;
        self.logs.push(l);
        assert(self.logs@.map_values(|l: TraceLog| l@) =~= s0.map_values(|l: TraceLog| l@).push(lv));
    }

    pub fn set_revert_reason(&mut self, reason: String)
        ensures
            final(self)@ == (TraceBuilderModel { revert_reason: Some(reason@), ..old(self)@ }),
    {
        self.revert_reason = Some(reason);
    }

    pub fn set_error(&mut self, error: String)
        ensures
            final(self)@ == (TraceBuilderModel { error: Some(error@), ..old(self)@ }),
    {
        self.error = Some(error);
    }

    /// The finished trace, timed up to `now_us`.
    pub fn build_at(self, now_us: u64) -> (t: ExecutionTrace)
        ensures
            t@ == built(self@, now_us),
    {
        let elapsed = now_us.saturating_sub(self.start_us);
        ExecutionTrace {
            tx_hash: self.tx_hash,
            steps: self.steps,
            total_gas_used: self.total_gas_used,
            execution_time_us: elapsed,
            state_accesses: self.state_accesses,
            logs: self.logs,
            revert_reason: self.revert_reason,
            error: self.error,
        }
    }

    /// The finished trace, timed up to now by the wall clock.
    pub fn build(self) -> (t: ExecutionTrace)
        ensures
            exists|now_us: u64| t@ == #[trigger] built(self@, now_us),
    {
        let now = now_micros();
        self.build_at(now)
    }
}

/// The position of the trace of `h`, if any.
pub open spec fn trace_pos(s: Seq<ExecutionTraceModel>, h: Seq<u8>) -> Option<int> {
    crate::util::find_first(s, |t: ExecutionTraceModel| t.tx_hash == h)
}

/// The traces after `t` is stored: it replaces a trace of the same transaction in its place,
/// or else goes last.
pub open spec fn stored(s: Seq<ExecutionTraceModel>, t: ExecutionTraceModel) -> Seq<ExecutionTraceModel> {
    match trace_pos(s, t.tx_hash) {
        Some(i) => s.update(i, t),
        None => s.push(t),
    }
}

/// A quantity of each trace, added up.
pub open spec fn trace_total(s: Seq<ExecutionTraceModel>, f: spec_fn(ExecutionTraceModel) -> nat) -> nat
    decreases s.len(),
{
    if s.len() == 0 {
        0
    } else {
        trace_total(s.drop_last(), f) + f(s.last())
    }
}

pub open spec fn gas_f() -> spec_fn(ExecutionTraceModel) -> nat {
    |t: ExecutionTraceModel| t.total_gas_used as nat
}

pub open spec fn time_f() -> spec_fn(ExecutionTraceModel) -> nat {
    |t: ExecutionTraceModel| t.execution_time_us as nat
}

/// A prefix adds up to no more than the whole, and one more element adds its own amount.
pub proof fn lemma_trace_total_take(s: Seq<ExecutionTraceModel>, f: spec_fn(ExecutionTraceModel) -> nat, i: int)
    requires
        0 <= i <= s.len(),
    ensures
        trace_total(s.take(i), f) <= trace_total(s, f),
        i < s.len() ==> trace_total(s.take(i + 1), f) == trace_total(s.take(i), f) + f(s[i]),
    decreases s.len(),
{
    if i < s.len() {
        assert(s.take(i + 1).drop_last() =~= s.take(i));
        if i + 1 < s.len() {
            assert(s.drop_last().take(i + 1) =~= s.take(i + 1));
            lemma_trace_total_take(s.drop_last(), f, i + 1);
        } else {
            assert(s.take(i + 1) =~= s);
        }
    } else {
        assert(s.take(i) =~= s);
    }
}

/// The statistics of a list of traces.
pub open spec fn trace_stats_spec(s: Seq<ExecutionTraceModel>) -> TraceStats {
    let n = s.len();
    TraceStats {
        total_traces: n as usize,
        total_gas_used: trace_total(s, gas_f()) as u64,
        avg_gas_per_trace: if n > 0 { (trace_total(s, gas_f()) / n) as u64 } else { 0 },
        avg_execution_time_us: if n > 0 { (trace_total(s, time_f()) / n) as u64 } else { 0 },
        traces_with_errors: s.filter(|t: ExecutionTraceModel| t.error is Some).len() as usize,
    }
}

/// The trace statistics: the total gas is the traces' gas added up; the averages are the
/// totals divided by the number of traces, rounded down (`avg * n <= total < (avg + 1) * n`),
/// and zero with no traces; no more traces have errors than there are traces.
pub proof fn lemma_trace_stats_averages(s: Seq<ExecutionTraceModel>)
    requires
        trace_total(s, gas_f()) <= u64::MAX,
        trace_total(s, time_f()) <= u64::MAX,
    ensures
        ({
            let st = trace_stats_spec(s);
            let n = s.len() as int;
            let g = trace_total(s, gas_f()) as int;
            let t = trace_total(s, time_f()) as int;
            &&& st.total_gas_used == g
            &&& n > 0 ==> st.avg_gas_per_trace * n <= g < (st.avg_gas_per_trace + 1) * n
            &&& n > 0 ==> st.avg_execution_time_us * n <= t < (st.avg_execution_time_us + 1) * n
            &&& n == 0 ==> st.avg_gas_per_trace == 0 && st.avg_execution_time_us == 0
            &&& st.traces_with_errors <= n
        }),
{
    let n = s.len() as int;
    if n > 0 {
        crate::util::lemma_floor_div(trace_total(s, gas_f()) as int, n);
        crate::util::lemma_floor_div(trace_total(s, time_f()) as int, n);
    }
    s.lemma_filter_len(|t: ExecutionTraceModel| t.error is Some);
}

/// Stores finished traces, one per transaction.
pub struct TransactionTracer {
    traces: Vec<ExecutionTrace>,
    debug_mode: bool,
}

impl TransactionTracer {
    /// The stored traces, in the order their transactions were first stored.
    pub closed spec fn traces(&self) -> Seq<ExecutionTraceModel> {
        self.traces@.map_values(|t: ExecutionTrace| t@)
    }

    pub closed spec fn debug_mode(&self) -> bool {
        self.debug_mode
    }

    /// No transaction has two traces.
    pub open spec fn wf(&self) -> bool {
        forall|i: int, j: int| 0 <= i < j < self.traces().len() ==> (#[trigger] self.traces()[i]).tx_hash
            != (#[trigger] self.traces()[j]).tx_hash
    }

    pub fn new(debug_mode: bool) -> (t: Self)
        ensures
            t.wf(),
            t.traces() == Seq::<ExecutionTraceModel>::empty(),
            t.debug_mode() == debug_mode,
    {
        let t = TransactionTracer { traces: Vec::new(), debug_mode };
        assert(t.traces() =~= Seq::<ExecutionTraceModel>::empty());
        t
    }

    /// A builder for a trace of `tx_hash`, in this tracer's mode, started now.
    pub fn start_trace(&self, tx_hash: crate::hash_utils::Hash) -> (b: TraceBuilder)
        ensures
            b@.tx_hash == tx_hash@,
            b@.steps == Seq::<TraceStepModel>::empty(),
            b@.state_accesses == Seq::<StateAccessModel>::empty(),
            b@.logs == Seq::<TraceLogModel>::empty(),
            b@.total_gas_used == 0,
            b@.revert_reason is None,
            b@.error is None,
            b@.debug_mode == self.debug_mode(),
    {
        TraceBuilder::new(tx_hash, self.debug_mode)
    }

    fn find(&self, h: &crate::hash_utils::Hash) -> (r: Option<usize>)
        ensures
            match r {
                Some(i) => trace_pos(self.traces(), h@) == Some(i as int) && (i as int) < self.traces().len(),
                None => trace_pos(self.traces(), h@) is None,
            },
    {
        let ghost pred = |t: ExecutionTraceModel| t.tx_hash == h@;
        let mut i: usize = 0;
        while i < self.traces.len()
            invariant
                0 <= i <= self.traces@.len(),
                pred == (|t: ExecutionTraceModel| t.tx_hash == h@),
                forall|j: int| 0 <= j < i ==> !pred(#[trigger] self.traces()[j]),
            decreases self.traces@.len() - i,
        {
            if self.traces[i].tx_hash == *h {
                proof {
                    crate::util::lemma_find_first_at(self.traces(), pred, i as int);
                }
                return Some(i);
            }
            i = i + 1;
        }
        proof {
            crate::util::lemma_find_first(self.traces(), pred);
        }
        None
    }

    /// Store a finished trace, replacing an earlier trace of the same transaction.
    pub fn store_trace(&mut self, trace: ExecutionTrace)
        requires
            old(self).wf(),
        ensures
            final(self).wf(),
            final(self).traces() == stored(old(self).traces(), trace@),
            final(self).debug_mode() == old(self).debug_mode(),
    {
        let ghost s0 = self.traces();
        let ghost tv = trace@;
        match self.find(&trace.tx_hash) {
            Some(i) => {
                self.traces.set(i, trace);
                assert(self.traces() =~= s0.update(i as int, tv));
                assert forall|a: int, b: int| 0 <= a < b < self.traces().len() implies (#[trigger] self.traces()[a]).tx_hash
                    != (#[trigger] self.traces()[b]).tx_hash by {
                    if a != i && b != i {
                        assert(self.traces()[a] == s0[a] && self.traces()[b] == s0[b]);
                    } else if a == i {
                        assert(self.traces()[b] == s0[b]);
                        assert(s0[a].tx_hash == tv.tx_hash);
                    } else {
                        assert(self.traces()[a] == s0[a]);
                        assert(s0[b].tx_hash == tv.tx_hash);
                    }
                }
            },
            None => {
                self.traces.push(trace);
                assert(self.traces() =~= s0.push(tv));
                proof {
                    crate::util::lemma_find_first_none(s0, |t: ExecutionTraceModel| t.tx_hash == tv.tx_hash);
                }
                assert forall|a: int, b: int| 0 <= a < b < self.traces().len() implies (#[trigger] self.traces()[a]).tx_hash
                    != (#[trigger] self.traces()[b]).tx_hash by {
                    if b == s0.len() {
                        assert(self.traces()[a] == s0[a]);
                    } else {
                        assert(self.traces()[a] == s0[a] && self.traces()[b] == s0[b]);
                    }
                }
            },
        }
    }

    /// A copy of the trace of `tx_hash`, if stored.
    pub fn get_trace(&self, tx_hash: &crate::hash_utils::Hash) -> (r: Option<ExecutionTrace>)
        ensures
            match r {
                Some(t) => trace_pos(self.traces(), tx_hash@) matches Some(i) && t@ == self.traces()[i],
                None => trace_pos(self.traces(), tx_hash@) is None,
            },
    {
        match self.find(tx_hash) {
            Some(i) => Some(self.traces[i].deep_copy()),
            None => None,
        }
    }

    /// Copies of all stored traces, in order.
    pub fn get_all_traces(&self) -> (r: Vec<ExecutionTrace>)
        ensures
            r@.map_values(|t: ExecutionTrace| t@) == self.traces(),
    {
        copy_all(&self.traces)
    }

    /// Keep at most `max_traces` traces, dropping the earliest stored.
    pub fn cleanup(&mut self, max_traces: usize)
        requires
            old(self).wf(),
        ensures
            final(self).wf(),
            old(self).traces().len() > max_traces ==> final(self).traces() == old(self).traces().subrange(
                old(self).traces().len() - max_traces,
                old(self).traces().len() as int,
            ),
            old(self).traces().len() <= max_traces ==> final(self).traces() == old(self).traces(),
            final(self).debug_mode() == old(self).debug_mode(),
    {
        if self.traces.len() > max_traces {
            let ghost s0 = self.traces@;
            let to_remove = self.traces.len() - max_traces;
            let tail = self.traces.split_off(to_remove);
            self.traces = tail;
            assert(self.traces() =~= s0.map_values(|t: ExecutionTrace| t@).subrange(to_remove as int, s0.len() as int));
            assert forall|a: int, b: int| 0 <= a < b < self.traces().len() implies (#[trigger] self.traces()[a]).tx_hash
                != (#[trigger] self.traces()[b]).tx_hash by {
                assert(self.traces()[a] == old(self).traces()[a + to_remove]);
                assert(self.traces()[b] == old(self).traces()[b + to_remove]);
            }
        }
    }

    /// How many traces there are, their gas and time totals and means, and how many failed.
    pub fn get_stats(&self) -> (r: TraceStats)
        requires
            trace_total(self.traces(), gas_f()) <= u64::MAX,
            trace_total(self.traces(), time_f()) <= u64::MAX,
        ensures
            r == trace_stats_spec(self.traces()),
    {
        let ghost s = self.traces();
        let ghost pred = |t: ExecutionTraceModel| t.error is Some;
        let n = self.traces.len();
        let mut gas: u64 = 0;
        let mut time: u64 = 0;
        let mut errors: usize = 0;
        let mut i: usize = 0;
        while i < n
            invariant
                n == s.len(),
                s == self.traces(),
                0 <= i <= n,
                pred == (|t: ExecutionTraceModel| t.error is Some),
                trace_total(s, gas_f()) <= u64::MAX,
                trace_total(s, time_f()) <= u64::MAX,
                gas == trace_total(s.take(i as int), gas_f()),
                time == trace_total(s.take(i as int), time_f()),
                errors == s.take(i as int).filter(pred).len(),
            decreases n - i,
        {
            let t = &self.traces[i];
            assert(t@ == s[i as int]);
            proof {
                lemma_trace_total_take(s, gas_f(), i as int);
                lemma_trace_total_take(s, gas_f(), i + 1);
                lemma_trace_total_take(s, time_f(), i as int);
                lemma_trace_total_take(s, time_f(), i + 1);
                assert(s.take(i + 1) =~= s.take(i as int).push(s[i as int]));
                s.take(i as int).lemma_filter_push(s[i as int], pred);
                s.take(i as int).lemma_filter_len(pred);
            }
            gas = gas + t.total_gas_used;
            time = time + t.execution_time_us;
            if t.error.is_some() {
                errors = errors + 1;
            }
            i = i + 1;
        }
        assert(s.take(n as int) =~= s);
        TraceStats {
            total_traces: n,
            total_gas_used: gas,
            avg_gas_per_trace: if n > 0 { gas / (n as u64) } else { 0 },
            avg_execution_time_us: if n > 0 { time / (n as u64) } else { 0 },
            traces_with_errors: errors,
        }
    }
}

impl Default for TransactionTracer {
    /// A tracer outside debug mode.
    fn default() -> (t: Self)
        ensures
            t.wf(),
            t.traces() == Seq::<ExecutionTraceModel>::empty(),
            !t.debug_mode(),
    {
        Self::new(false)
    }
}

/// The gas a trace's steps spent, by operation.
pub struct GasBreakdown {
    pub total_gas: u64,
    pub breakdown: crate::table::StrMap<u64>,
}

/// The bytes "CALL", which a call operation's name starts with.
pub open spec fn call_prefix() -> Seq<u8> {
    seq![67u8, 65u8, 76u8, 76u8]
}

/// Whether an operation's name starts with "CALL", compared by its UTF-8 bytes.
pub open spec fn is_call(operation: Seq<char>) -> bool {
    utf8_spec(operation).len() >= 4 && utf8_spec(operation).take(4) == call_prefix()
}

/// Whether `s` starts with "CALL".
fn starts_with_call(s: &String) -> (b: bool)
    ensures
        b == is_call(s@),
{
    let bytes = s.as_str().as_bytes();
    let b = bytes.len() >= 4 && bytes[0] == 67u8 && bytes[1] == 65u8 && bytes[2] == 76u8 && bytes[3] == 76u8;
    proof {
        if bytes@.len() >= 4 {
            assert(b == (bytes@.take(4) =~= call_prefix()));
        }
    }
    b
}

/// The names of the call operations among `steps`, in order.
pub open spec fn call_stack_spec(steps: Seq<TraceStepModel>) -> Seq<Seq<char>> {
    steps.filter(|s: TraceStepModel| is_call(s.operation)).map_values(|s: TraceStepModel| s.operation)
}

/// The gas of the steps named `op`, added up.
pub open spec fn op_gas(steps: Seq<TraceStepModel>, op: Seq<char>) -> nat
    decreases steps.len(),
{
    if steps.len() == 0 {
        0
    } else {
        op_gas(steps.drop_last(), op) + if steps.last().operation == op { steps.last().gas_cost as nat } else { 0 }
    }
}

/// Each operation of `steps` with its gas added up.
pub open spec fn gas_by_op(steps: Seq<TraceStepModel>) -> Map<Seq<char>, u64> {
    Map::new(
        |op: Seq<char>| exists|i: int| 0 <= i < steps.len() && #[trigger] steps[i].operation == op,
        |op: Seq<char>| op_gas(steps, op) as u64,
    )
}

/// A prefix spends no more on an operation than the whole.
pub proof fn lemma_op_gas_take(s: Seq<TraceStepModel>, op: Seq<char>, i: int)
    requires
        0 <= i <= s.len(),
    ensures
        op_gas(s.take(i), op) <= op_gas(s, op),
        i < s.len() ==> op_gas(s.take(i + 1), op) == op_gas(s.take(i), op) + if s[i].operation == op {
            s[i].gas_cost as nat
        } else {
            0
        },
    decreases s.len(),
{
    if i < s.len() {
        assert(s.take(i + 1).drop_last() =~= s.take(i));
        if i + 1 < s.len() {
            assert(s.drop_last().take(i + 1) =~= s.take(i + 1));
            lemma_op_gas_take(s.drop_last(), op, i + 1);
        } else {
            assert(s.take(i + 1) =~= s);
        }
    } else {
        assert(s.take(i) =~= s);
    }
}

/// The trace a replay of `tx` gives, taking `elapsed_us`: one call step, one read of the
/// sender's balance and one log line.
pub open spec fn replay_spec(tx: Transaction, elapsed_us: u64) -> ExecutionTraceModel {
    ExecutionTraceModel {
        tx_hash: tx.hash_spec(),
        steps: seq![TraceStepModel {
            step_number: 0,
            operation: "CALL"@,
            gas_cost: 21000,
            gas_remaining: 100000,
            stack: seq!["addr1"@, "addr2"@],
            memory_changes: Seq::empty(),
            storage_changes: Seq::empty(),
        }],
        total_gas_used: 21000,
        execution_time_us: elapsed_us,
        state_accesses: seq![StateAccessModel {
            access_type: AccessType::Read,
            address: tx.from@,
            key: Some("balance"@),
            value: Some(seq![0u8, 1u8, 2u8, 3u8]),
            gas_cost: 100,
        }],
        logs: seq![TraceLogModel {
            level: TraceLogLevel::Info,
            message: "Transaction execution started"@,
            step: 1,
            gas_used: 21000,
        }],
        revert_reason: None,
        error: None,
    }
}

/// Inspection of stored traces, and replays that store new ones.
pub struct DebugAPI {
    tracer: TransactionTracer,
}

impl DebugAPI {
    pub fn new(tracer: TransactionTracer) -> (d: Self)
        ensures
            d.tracer() == tracer,
    {
        DebugAPI { tracer }
    }

    pub closed spec fn tracer(&self) -> TransactionTracer {
        self.tracer
    }

    /// The tracer the traces are kept in.
    pub fn tracer_ref(&self) -> (t: &TransactionTracer)
        ensures
            *t == self.tracer(),
    {
        &self.tracer
    }

    /// A copy of the trace of `tx_hash`; refused when there is none.
    pub fn debug_transaction(&self, tx_hash: crate::hash_utils::Hash) -> (r: Result<ExecutionTrace, TraceError>)
        ensures
            match r {
                Ok(t) => trace_pos(self.tracer().traces(), tx_hash@) matches Some(i) && t@ == self.tracer().traces()[i],
                Err(e) => e == TraceError::TraceNotFound && trace_pos(self.tracer().traces(), tx_hash@) is None,
            },
    {
        match self.tracer.get_trace(&tx_hash) {
            Some(t) => Ok(t),
            None => Err(TraceError::TraceNotFound),
        }
    }

    /// Replay `tx`, started at `started_us` and finished at `finished_us`: the trace (see
    /// `replay_spec`) is stored and a copy answered.
    pub fn replay_transaction_at(&mut self, tx: Transaction, started_us: u64, finished_us: u64) -> (r: Result<ExecutionTrace, TraceError>)
        requires
            old(self).tracer().wf(),
        ensures
            final(self).tracer().wf(),
            r matches Ok(t) && t@ == replay_spec(tx, elapsed_spec(started_us, finished_us)),
            final(self).tracer().traces() == stored(old(self).tracer().traces(), replay_spec(tx, elapsed_spec(started_us, finished_us))),
            final(self).tracer().debug_mode() == old(self).tracer().debug_mode(),
    {
        let tx_hash = tx.hash();
        let mut builder = TraceBuilder::new_at(tx_hash, self.tracer.debug_mode, started_us);
        let mut stack: Vec<String> = Vec::new();
        stack.push("addr1".to_owned());
        stack.push("addr2".to_owned());
        builder.add_step("CALL".to_owned(), 21000, 100000, stack);
        let mut value: Vec<u8> = Vec::new();
        value.push(0u8);
        value.push(1u8);
        value.push(2u8);
        value.push(3u8);
        assert(value@ =~= seq![0u8, 1u8, 2u8, 3u8]);
        builder.add_state_access(AccessType::Read, tx.from.clone(), Some("balance".to_owned()), Some(value), 100);
        builder.add_log(TraceLogLevel::Info, "Transaction execution started".to_owned());
        let trace = builder.build_at(finished_us);
        let ghost want = replay_spec(tx, elapsed_spec(started_us, finished_us));
        assert(trace@.steps[0].stack =~= want.steps[0].stack);
        assert(trace@.steps[0] == want.steps[0]);
        assert(trace@.steps =~= want.steps);
        assert(trace@.state_accesses[0] == want.state_accesses[0]);
        assert(trace@.state_accesses =~= want.state_accesses);
        assert(trace@.logs =~= want.logs);
        let copy = trace.deep_copy();
        self.tracer.store_trace(trace);
        Ok(copy)
    }

    /// Replay `tx` now, by the wall clock (see `replay_transaction_at`).
    pub fn replay_transaction(&mut self, tx: Transaction) -> (r: Result<ExecutionTrace, TraceError>)
        requires
            old(self).tracer().wf(),
        ensures
            final(self).tracer().wf(),
            exists|elapsed_us: u64| {
                &&& r matches Ok(t) && t@ == #[trigger] replay_spec(tx, elapsed_us)
                &&& final(self).tracer().traces() == stored(old(self).tracer().traces(), replay_spec(tx, elapsed_us))
            },
            final(self).tracer().debug_mode() == old(self).tracer().debug_mode(),
    {
        let started = now_micros();
        let finished = now_micros();
        self.replay_transaction_at(tx, started, finished)
    }

    /// The names of the call operations of the trace of `tx_hash`, in order; refused when
    /// there is no trace.
    pub fn get_call_stack(&self, tx_hash: crate::hash_utils::Hash) -> (r: Result<Vec<String>, TraceError>)
        ensures
            match r {
                Ok(v) => trace_pos(self.tracer().traces(), tx_hash@) matches Some(i)
                    && strings_view(v@) == call_stack_spec(self.tracer().traces()[i].steps),
                Err(e) => e == TraceError::TraceNotFound && trace_pos(self.tracer().traces(), tx_hash@) is None,
            },
    {
        let i = match self.tracer.find(&tx_hash) {
            None => return Err(TraceError::TraceNotFound),
            Some(i) => i,
        };
        let trace = &self.tracer.traces[i];
        let ghost steps = trace@.steps;
        let ghost pred = |s: TraceStepModel| is_call(s.operation);
        let mut out: Vec<String> = Vec::new();
        let mut j: usize = 0;
        while j < trace.steps.len()
            invariant
                0 <= j <= trace.steps@.len(),
                steps == trace@.steps,
                pred == (|s: TraceStepModel| is_call(s.operation)),
                strings_view(out@) == steps.take(j as int).filter(pred).map_values(|s: TraceStepModel| s.operation),
            decreases trace.steps@.len() - j,
        {
            let step = &trace.steps[j];
            assert(step@ == steps[j as int]);
            proof {
                assert(steps.take(j + 1) =~= steps.take(j as int).push(steps[j as int]));
                steps.take(j as int).lemma_filter_push(steps[j as int], pred);
            }
            let call = starts_with_call(&step.operation);
            if call {
                let ghost o = out@;
                out.push(step.operation.clone());
                assert(strings_view(out@) =~= strings_view(o).push(step.operation@));
            }
            j = j + 1;
            assert(strings_view(out@) =~= steps.take(j as int).filter(pred).map_values(|s: TraceStepModel| s.operation));
        }
        assert(steps.take(j as int) =~= steps);
        Ok(out)
    }

    /// Copies of the state accesses of the trace of `tx_hash`; refused when there is none.
    pub fn get_state_changes(&self, tx_hash: crate::hash_utils::Hash) -> (r: Result<Vec<StateAccess>, TraceError>)
        ensures
            match r {
                Ok(v) => trace_pos(self.tracer().traces(), tx_hash@) matches Some(i)
                    && v@.map_values(|a: StateAccess| a@) == self.tracer().traces()[i].state_accesses,
                Err(e) => e == TraceError::TraceNotFound && trace_pos(self.tracer().traces(), tx_hash@) is None,
            },
    {
        match self.tracer.find(&tx_hash) {
            None => Err(TraceError::TraceNotFound),
            Some(i) => Ok(copy_all(&self.tracer.traces[i].state_accesses)),
        }
    }

    /// The total gas of the trace of `tx_hash`, and its steps' gas added up by operation;
    /// refused when there is no trace.
    pub fn get_gas_breakdown(&self, tx_hash: crate::hash_utils::Hash) -> (r: Result<GasBreakdown, TraceError>)
        requires
            trace_pos(self.tracer().traces(), tx_hash@) matches Some(i) ==> forall|k: int|
                0 <= k < self.tracer().traces()[i].steps.len() ==> op_gas(self.tracer().traces()[i].steps,
                    #[trigger] self.tracer().traces()[i].steps[k].operation) <= u64::MAX,
        ensures
            match r {
                Ok(g) => trace_pos(self.tracer().traces(), tx_hash@) matches Some(i) && g.total_gas
                    == self.tracer().traces()[i].total_gas_used && g.breakdown.wf() && g.breakdown@ == gas_by_op(
                    self.tracer().traces()[i].steps),
                Err(e) => e == TraceError::TraceNotFound && trace_pos(self.tracer().traces(), tx_hash@) is None,
            },
    {
        let i = match self.tracer.find(&tx_hash) {
            None => return Err(TraceError::TraceNotFound),
            Some(i) => i,
        };
        let trace = &self.tracer.traces[i];
        let ghost steps = trace@.steps;
        let mut breakdown: crate::table::StrMap<u64> = crate::table::StrMap::new();
        let mut j: usize = 0;
        while j < trace.steps.len()
            invariant
                0 <= j <= trace.steps@.len(),
                steps == trace@.steps,
                forall|k: int| 0 <= k < steps.len() ==> op_gas(steps, #[trigger] steps[k].operation) <= u64::MAX,
                breakdown.wf(),
                breakdown@ == gas_by_op(steps.take(j as int)),
            decreases trace.steps@.len() - j,
        {
            let step = &trace.steps[j];
            assert(step@ == steps[j as int]);
            let ghost op = steps[j as int].operation;
            let ghost pre = steps.take(j as int);
            let ghost post = steps.take(j + 1);
            proof {
                lemma_op_gas_take(steps, op, j as int);
                lemma_op_gas_take(steps, op, j + 1);
                assert(post =~= pre.push(steps[j as int]));
            }
            let cur: u64 = match breakdown.get(step.operation.as_str()) {
                Some(g) => *g,
                None => 0,
            };
            assert(cur == op_gas(pre, op)) by {
                if !breakdown@.dom().contains(op) {
                    if op_gas(pre, op) > 0 {
                        lemma_op_gas_positive(pre, op);
                    }
                }
            }
            breakdown.insert(step.operation.clone(), cur + step.gas_cost);
            proof {
                assert forall|o: Seq<char>| #[trigger] gas_by_op(post).dom().contains(o) == breakdown@.dom().contains(o) by {
                    if o != op {
                        if exists|k: int| 0 <= k < post.len() && #[trigger] post[k].operation == o {
                            let k = choose|k: int| 0 <= k < post.len() && #[trigger] post[k].operation == o;
                            assert(pre[k].operation == o);
                        }
                    } else {
                        assert(post[j as int].operation == o);
                    }
                }
                assert forall|o: Seq<char>| #[trigger] gas_by_op(post).dom().contains(o) implies gas_by_op(post)[o] == breakdown@[o] by {
                    if o != op {
                        lemma_op_gas_take(steps, o, j as int);
                        lemma_op_gas_take(steps, o, j + 1);
                    }
                }
                assert(gas_by_op(post) =~= breakdown@);
            }
            j = j + 1;
        }
        assert(steps.take(j as int) =~= steps);
        Ok(GasBreakdown { total_gas: trace.total_gas_used, breakdown })
    }
}

/// An operation with gas spent on it occurs among the steps.
pub proof fn lemma_op_gas_positive(s: Seq<TraceStepModel>, op: Seq<char>)
    requires
        op_gas(s, op) > 0,
    ensures
        exists|k: int| 0 <= k < s.len() && #[trigger] s[k].operation == op,
    decreases s.len(),
{
    if s.last().operation == op {
        assert(s[s.len() - 1].operation == op);
    } else {
        lemma_op_gas_positive(s.drop_last(), op);
        let k = choose|k: int| 0 <= k < s.drop_last().len() && #[trigger] s.drop_last()[k].operation == op;
        assert(s[k].operation == op);
    }
}

} // verus!
