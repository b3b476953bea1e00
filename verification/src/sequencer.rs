use vstd::prelude::*;

verus! {

/// Configuration for the sequencer.
pub struct SequencerConfig {
    pub max_batch_size: u32,
    pub rpc_url: String,
    pub enable_settlement: bool,
}

impl Default for SequencerConfig {
    /// Batches of 10, the devnet RPC endpoint, settlement off.
    fn default() -> (r: Self)
        ensures
            r.max_batch_size == 10,
            r.rpc_url@ == "https://api.devnet.solana.com"@,
            !r.enable_settlement,
    {
        SequencerConfig {
            max_batch_size: 10,
            rpc_url: "https://api.devnet.solana.com".to_owned(),
            enable_settlement: false,
        }
    }
}

/// What happened to a received transaction.
#[derive(Debug, Clone, Copy, PartialEq, Eq, Structural)]
pub enum SequencerEvent {
    /// The request to lock its accounts could not be sent.
    LockFailed,
    /// Its signatures did not verify.
    VerifyFailed,
    /// It was executed.
    Processed,
    /// Its execution could not be set up or run.
    ProcessFailed,
}

/// What the sequencer asks of the database after an event.
#[derive(Debug, Clone, Copy, PartialEq, Eq, Structural)]
pub enum SequencerAction {
    /// Nothing: go on with the next transaction.
    Skip,
    /// Unlock the transaction's accounts.
    UnlockAccounts,
    /// Store the processed transaction.
    StoreProcessed,
    /// Store the processed transaction, then ask for a batch to settle.
    StoreAndSettle,
}

/// The sequencer's own state: transactions processed since the last settlement.
#[derive(Debug, Clone, Copy, PartialEq, Eq, Structural)]
pub struct SequencerState {
    pub tx_counter: u32,
}

/// The state and action that follow `event` (see `SequencerState::step`).
pub open spec fn step_spec(state: SequencerState, config_settle: bool, max_batch_size: u32, event: SequencerEvent) -> (SequencerState, SequencerAction) {
    match event {
        SequencerEvent::LockFailed => (state, SequencerAction::Skip),
        SequencerEvent::VerifyFailed => (state, SequencerAction::UnlockAccounts),
        SequencerEvent::ProcessFailed => (state, SequencerAction::UnlockAccounts),
        SequencerEvent::Processed => {
            let n = (state.tx_counter + 1) as u32;
            if config_settle && n >= max_batch_size {
                (SequencerState { tx_counter: 0 }, SequencerAction::StoreAndSettle)
            } else {
                (SequencerState { tx_counter: n }, SequencerAction::StoreProcessed)
            }
        },
    }
}

impl SequencerState {
    pub fn new() -> (s: Self)
        ensures
            s.tx_counter == 0,
    {
        SequencerState { tx_counter: 0 }
    }

    /// The sequencer's decision after a transaction's `event`: a failure to lock is skipped,
    /// a failed verification or execution unlocks the accounts, and a processed transaction
    /// is stored and counted; with settlement on, reaching the batch size asks for a
    /// settlement and starts the count again.
    pub fn step(self, config: &SequencerConfig, event: SequencerEvent) -> (r: (SequencerState, SequencerAction))
        requires
            event == SequencerEvent::Processed ==> self.tx_counter < u32::MAX,
        ensures
            r == step_spec(self, config.enable_settlement, config.max_batch_size, event),
    {
        match event {
            SequencerEvent::LockFailed => (self, SequencerAction::Skip),
            SequencerEvent::VerifyFailed => (self, SequencerAction::UnlockAccounts),
            SequencerEvent::ProcessFailed => (self, SequencerAction::UnlockAccounts),
            SequencerEvent::Processed => {
                let n = self.tx_counter + 1;
                if config.enable_settlement && n >= config.max_batch_size {
                    (SequencerState { tx_counter: 0 }, SequencerAction::StoreAndSettle)
                } else {
                    (SequencerState { tx_counter: n }, SequencerAction::StoreProcessed)
                }
            },
        }
    }
}

/// With settlement on and a batch size of at least one, the count stays below the batch size.
pub proof fn lemma_counter_below_batch(state: SequencerState, max_batch_size: u32, event: SequencerEvent)
    requires
        max_batch_size >= 1,
        state.tx_counter < max_batch_size,
    ensures
        step_spec(state, true, max_batch_size, event).0.tx_counter < max_batch_size,
{
}

/// The state and the actions after `events`, in order, starting from `state`.
pub open spec fn run_spec(state: SequencerState, config_settle: bool, max_batch_size: u32, events: Seq<SequencerEvent>) -> (SequencerState, Seq<SequencerAction>)
    decreases events.len(),
{
    if events.len() == 0 {
        (state, Seq::empty())
    } else {
        let before = run_spec(state, config_settle, max_batch_size, events.drop_last());
        let next = step_spec(before.0, config_settle, max_batch_size, events.last());
        (next.0, before.1.push(next.1))
    }
}

/// How many of `events` are processed transactions.
pub open spec fn count_processed(events: Seq<SequencerEvent>) -> nat
    decreases events.len(),
{
    if events.len() == 0 {
        0
    } else {
        count_processed(events.drop_last()) + if events.last() == SequencerEvent::Processed {
            1nat
        } else {
            0nat
        }
    }
}

/// How many of `actions` ask for a settlement.
pub open spec fn count_settlements(actions: Seq<SequencerAction>) -> nat
    decreases actions.len(),
{
    if actions.len() == 0 {
        0
    } else {
        count_settlements(actions.drop_last()) + if actions.last() == SequencerAction::StoreAndSettle {
            1nat
        } else {
            0nat
        }
    }
}

proof fn lemma_run_counts(c: u32, n: u32, events: Seq<SequencerEvent>)
    requires
        n >= 1,
        c < n,
    ensures
        run_spec(SequencerState { tx_counter: c }, true, n, events).0.tx_counter == (c + count_processed(
            events,
        )) % (n as int),
        count_settlements(run_spec(SequencerState { tx_counter: c }, true, n, events).1) == (c
            + count_processed(events)) / (n as int),
    decreases events.len(),
{
    if events.len() == 0 {
        vstd::arithmetic::div_mod::lemma_fundamental_div_mod_converse(c as int, n as int, 0, c as int);
    } else {
        let init = SequencerState { tx_counter: c };
        let pre = events.drop_last();
        lemma_run_counts(c, n, pre);
        let before = run_spec(init, true, n, pre);
        let next = step_spec(before.0, true, n, events.last());
        let x: int = c + count_processed(pre);
        let q = x / (n as int);
        let r = x % (n as int);
        vstd::arithmetic::div_mod::lemma_fundamental_div_mod(x, n as int);
        vstd::arithmetic::div_mod::lemma_mod_bound(x, n as int);
        assert(x == q * n + r) by (nonlinear_arith)
            requires
                x == n * q + r,
        ;
        assert(before.1.push(next.1).drop_last() =~= before.1);
        assert(run_spec(init, true, n, events) == (next.0, before.1.push(next.1)));
        assert(count_settlements(before.1.push(next.1)) == count_settlements(before.1) + if next.1
            == SequencerAction::StoreAndSettle {
            1nat
        } else {
            0nat
        });
        if events.last() == SequencerEvent::Processed {
            assert(count_processed(events) == count_processed(pre) + 1);
            if r + 1 >= n {
                assert(x + 1 == (q + 1) * n + 0) by (nonlinear_arith)
                    requires
                        x == q * n + r,
                        r + 1 == n,
                ;
                vstd::arithmetic::div_mod::lemma_fundamental_div_mod_converse(x + 1, n as int, q + 1, 0);
            } else {
                vstd::arithmetic::div_mod::lemma_fundamental_div_mod_converse(x + 1, n as int, q, r + 1);
            }
        }
    }
}

/// With settlement on and a batch size `n` of at least one, a run from a fresh state over
/// any events asks for one settlement per `n` processed transactions (`k / n` after `k`),
/// and the count left over is `k % n`.
pub proof fn lemma_settlement_per_batch(n: u32, events: Seq<SequencerEvent>)
    requires
        n >= 1,
    ensures
        count_settlements(run_spec(SequencerState { tx_counter: 0 }, true, n, events).1)
            == count_processed(events) as int / (n as int),
        run_spec(SequencerState { tx_counter: 0 }, true, n, events).0.tx_counter
            == count_processed(events) as int % (n as int),
{
    lemma_run_counts(0, n, events);
}

/// With settlement off, a run never asks for a settlement.
pub proof fn lemma_no_settlement_when_off(state: SequencerState, n: u32, events: Seq<SequencerEvent>)
    ensures
        count_settlements(run_spec(state, false, n, events).1) == 0,
    decreases events.len(),
{
    if events.len() > 0 {
        lemma_no_settlement_when_off(state, n, events.drop_last());
        let before = run_spec(state, false, n, events.drop_last());
        let next = step_spec(before.0, false, n, events.last());
        assert(before.1.push(next.1).drop_last() =~= before.1);
    }
}

/// Each event of a run gets one action: a failed lock is skipped, a failed verification or
/// execution unlocks the accounts, and a processed transaction is stored (with or without a
/// settlement request).
pub proof fn lemma_run_actions(state: SequencerState, settle: bool, n: u32, events: Seq<SequencerEvent>)
    ensures
        run_spec(state, settle, n, events).1.len() == events.len(),
        forall|i: int|
            0 <= i < events.len() ==> {
                let a = #[trigger] run_spec(state, settle, n, events).1[i];
                &&& (events[i] == SequencerEvent::LockFailed <==> a == SequencerAction::Skip)
                &&& (events[i] == SequencerEvent::VerifyFailed || events[i] == SequencerEvent::ProcessFailed
                    <==> a == SequencerAction::UnlockAccounts)
                &&& (events[i] == SequencerEvent::Processed <==> (a == SequencerAction::StoreProcessed || a
                    == SequencerAction::StoreAndSettle))
            },
    decreases events.len(),
{
    if events.len() > 0 {
        let pre = events.drop_last();
        lemma_run_actions(state, settle, n, pre);
        let before = run_spec(state, settle, n, pre);
        let acts = run_spec(state, settle, n, events).1;
        assert forall|i: int| 0 <= i < events.len() - 1 implies acts[i] == before.1[i] && events[i] == pre[i] by {}
    }
}

} // verus!
