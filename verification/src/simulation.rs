use vstd::prelude::*;
use vstd::bytes::{spec_u64_from_le_bytes, spec_u64_to_le_bytes, u64_from_le_bytes, u64_to_le_bytes};

use crate::table::StrMap;
use crate::types::Transaction;
use crate::util::{decimal_spec, push_decimal, push_str};

verus! {

/// Gas of a plain transfer.
pub const BASE_GAS: u64 = 21000;

/// Gas per byte of call data.
pub const GAS_PER_BYTE: u64 = 16;

/// Extra gas of a contract call.
pub const CALL_GAS: u64 = 30000;

/// Extra gas of a contract deployment (besides its data).
pub const CREATION_GAS: u64 = 50000;

/// Wei per unit of gas (one gwei).
pub const GWEI: u64 = 1_000_000_000;

#[derive(Debug, Clone)]
pub struct SimulationResult {
    pub success: bool,
    pub gas_used: u64,
    pub gas_estimate: GasEstimate,
    /// The balance changes, one per account, sender first.
    pub state_changes: Vec<(String, StateChange)>,
    pub logs: Vec<SimulationLog>,
    pub error: Option<String>,
    pub revert_reason: Option<String>,
}

#[derive(Debug, Clone, Copy, PartialEq, Eq, Structural)]
pub struct GasEstimate {
    pub base_fee: u64,
    pub execution_fee: u64,
    pub data_fee: u64,
    pub total_gas: u64,
    pub estimated_cost: u64,
    pub recommended_gas_limit: u64,
}

#[derive(Debug, Clone)]
pub struct StateChange {
    pub before: Vec<u8>,
    pub after: Vec<u8>,
    pub change_type: StateChangeType,
}

#[derive(Debug, Clone, Copy, PartialEq, Eq, Structural)]
pub enum StateChangeType {
    BalanceUpdate,
    NonceUpdate,
    StorageWrite,
    CodeDeployment,
    AccountCreation,
    AccountDeletion,
}

#[derive(Debug, Clone)]
pub struct SimulationLog {
    pub level: LogLevel,
    pub message: String,
    pub data: Vec<u8>,
}

#[derive(Debug, Clone, Copy, PartialEq, Eq, Structural)]
pub enum LogLevel {
    Info,
    Warning,
    Error,
}

/// The gas of the call data.
pub open spec fn data_fee_spec(tx: Transaction, gas_per_byte: u64) -> int {
    tx.data@.len() * gas_per_byte
}

/// The execution gas: a deployment pays for its data again on top of the creation gas, a call
/// pays the call gas, a transfer nothing; a failed transaction nothing.
pub open spec fn exec_fee_spec(tx: Transaction, successful: bool, gas_per_byte: u64) -> int {
    if !successful {
        0
    } else if tx.to is None {
        CREATION_GAS + data_fee_spec(tx, gas_per_byte)
    } else if tx.data@.len() > 0 {
        CALL_GAS as int
    } else {
        0
    }
}

/// The total gas: base, execution and data.
pub open spec fn total_gas_spec(tx: Transaction, successful: bool, base: u64, gas_per_byte: u64) -> int {
    base + exec_fee_spec(tx, successful, gas_per_byte) + data_fee_spec(tx, gas_per_byte)
}

/// The gas limit recommended for `total` gas: 20% more, rounded down (at most `u64::MAX`).
pub open spec fn recommended_spec(total: int) -> int {
    if total * 6 / 5 > u64::MAX {
        u64::MAX as int
    } else {
        total * 6 / 5
    }
}

/// The estimate for `tx`; the cost assumes one gwei per unit of gas.
pub open spec fn estimate_spec(tx: Transaction, successful: bool, base: u64, gas_per_byte: u64) -> GasEstimate {
    let total = total_gas_spec(tx, successful, base, gas_per_byte);
    GasEstimate {
        base_fee: base,
        execution_fee: exec_fee_spec(tx, successful, gas_per_byte) as u64,
        data_fee: data_fee_spec(tx, gas_per_byte) as u64,
        total_gas: total as u64,
        estimated_cost: (total * GWEI) as u64,
        recommended_gas_limit: recommended_spec(total) as u64,
    }
}

/// The numbers of the estimate for a successful or failed run fit in 64 bits, cost included.
pub open spec fn estimate_fits(tx: Transaction, successful: bool, base: u64, gas_per_byte: u64) -> bool {
    total_gas_spec(tx, successful, base, gas_per_byte) * GWEI <= u64::MAX
}

/// A balance as the state stores it: the first 8 bytes, little-endian; 0 when absent or
/// shorter.
pub open spec fn balance_of(state: Map<Seq<char>, Seq<u8>>, a: Seq<char>) -> u64 {
    if state.dom().contains(a) && state[a].len() >= 8 {
        spec_u64_from_le_bytes(state[a].take(8))
    } else {
        0
    }
}

/// Why a transaction is malformed, if it is: an empty sender, a gas limit below the base gas,
/// or a zero fee cap.
pub open spec fn validation_error(tx: Transaction, base: u64) -> Option<Seq<char>> {
    if tx.from@.len() == 0 {
        Some("Sender address is empty"@)
    } else if tx.gas_limit < base {
        Some(
            "Gas limit "@ + decimal_spec(tx.gas_limit as nat) + " is below minimum "@
                + decimal_spec(base as nat),
        )
    } else if tx.max_fee_per_gas == 0 {
        Some("Max fee per gas cannot be zero"@)
    } else {
        None
    }
}

/// Whether the simulation succeeds: a well-formed transaction whose sender can pay its value.
pub open spec fn sim_ok(state: Map<Seq<char>, Seq<u8>>, tx: Transaction, base: u64) -> bool {
    validation_error(tx, base) is None && balance_of(state, tx.from@) >= tx.value
}

/// The balance changes of a successful simulation, as (account, before, after): the sender
/// pays the value and the recipient, if any, receives it, its balance read from the state
/// before the transfer (a transfer to oneself leaves one change, the recipient's).
pub open spec fn sim_changes(state: Map<Seq<char>, Seq<u8>>, tx: Transaction) -> Seq<(Seq<char>, Seq<u8>, Seq<u8>)> {
    let b = balance_of(state, tx.from@);
    let sender = (tx.from@, spec_u64_to_le_bytes(b), spec_u64_to_le_bytes((b - tx.value) as u64));
    match tx.to {
        None => seq![sender],
        Some(t) => {
            let r = balance_of(state, t@);
            let receiver = (t@, spec_u64_to_le_bytes(r), spec_u64_to_le_bytes((r + tx.value) as u64));
            if t@ == tx.from@ {
                seq![receiver]
            } else {
                seq![sender, receiver]
            }
        },
    }
}

/// The log messages of a simulation, in order.
pub open spec fn sim_logs(state: Map<Seq<char>, Seq<u8>>, tx: Transaction, base: u64, gas_per_byte: u64) -> Seq<Seq<char>> {
    let v = seq!["Validating transaction"@];
    if validation_error(tx, base) is Some {
        v
    } else if balance_of(state, tx.from@) < tx.value {
        v.push("Checking sender balance"@)
    } else {
        let w = v.push("Checking sender balance"@).push("Executing transaction"@);
        let w2 = if tx.to is None {
            w.push("Contract deployment detected"@)
        } else {
            w
        };
        w2.push(
            "Simulation successful, gas used: "@ + decimal_spec(
                total_gas_spec(tx, true, base, gas_per_byte) as nat,
            ),
        )
    }
}

/// No arithmetic of the simulation overflows: the estimate of the outcome fits (that of a
/// failed run when it fails, of a successful one when it succeeds), and on success a
/// recipient's balance can take the value.
pub open spec fn sim_fits(state: Map<Seq<char>, Seq<u8>>, tx: Transaction, base: u64, gas_per_byte: u64) -> bool {
    &&& estimate_fits(tx, false, base, gas_per_byte)
    &&& sim_ok(state, tx, base) ==> {
        &&& estimate_fits(tx, true, base, gas_per_byte)
        &&& match tx.to {
            Some(t) => balance_of(state, t@) + tx.value <= u64::MAX,
            None => true,
        }
    }
}

/// The state after the changes' new values are written, in order.
pub open spec fn apply_changes(state: Map<Seq<char>, Seq<u8>>, changes: Seq<(Seq<char>, Seq<u8>, Seq<u8>)>) -> Map<Seq<char>, Seq<u8>>
    decreases changes.len(),
{
    if changes.len() == 0 {
        state
    } else {
        apply_changes(state, changes.drop_last()).insert(changes.last().0, changes.last().2)
    }
}

/// The state a batch simulation sees before its `i`-th transaction: the start state with the
/// changes of the earlier successful simulations written in.
pub open spec fn state_before(
    state0: Map<Seq<char>, Seq<u8>>,
    txs: Seq<Transaction>,
    i: nat,
    base: u64,
) -> Map<Seq<char>, Seq<u8>>
    decreases i,
{
    if i == 0 {
        state0
    } else {
        let s = state_before(state0, txs, (i - 1) as nat, base);
        if sim_ok(s, txs[i - 1], base) {
            apply_changes(s, sim_changes(s, txs[i - 1]))
        } else {
            s
        }
    }
}

/// A change as (account, before, after).
pub open spec fn change_view(c: (String, StateChange)) -> (Seq<char>, Seq<u8>, Seq<u8>) {
    (c.0@, c.1.before@, c.1.after@)
}

/// The views of an optional string.
pub open spec fn opt_view(o: Option<String>) -> Option<Seq<char>> {
    match o {
        Some(s) => Some(s@),
        None => None,
    }
}

impl SimulationResult {
    /// The result of simulating `tx` against `state` (balances as `balance_of` reads them).
    pub open spec fn describes(&self, state: Map<Seq<char>, Seq<u8>>, tx: Transaction, base: u64, gas_per_byte: u64) -> bool {
        let ok = sim_ok(state, tx, base);
        &&& self.success == ok
        &&& self.gas_estimate == estimate_spec(tx, ok, base, gas_per_byte)
        &&& self.gas_used == (if ok {
            total_gas_spec(tx, true, base, gas_per_byte) as u64
        } else {
            base
        })
        &&& self.state_changes@.map_values(|c: (String, StateChange)| change_view(c)) == (if ok {
            sim_changes(state, tx)
        } else {
            Seq::empty()
        })
        &&& forall|k: int|
            0 <= k < self.state_changes@.len() ==> #[trigger] self.state_changes@[k].1.change_type
                == StateChangeType::BalanceUpdate
        &&& self.logs@.map_values(|l: SimulationLog| l.message@) == sim_logs(state, tx, base, gas_per_byte)
        &&& forall|k: int|
            0 <= k < self.logs@.len() ==> #[trigger] self.logs@[k].level == LogLevel::Info
                && self.logs@[k].data@.len() == 0
        &&& opt_view(self.error) == (match validation_error(tx, base) {
            Some(m) => Some(m),
            None => if ok {
                None
            } else {
                Some("Insufficient balance"@)
            },
        })
        &&& opt_view(self.revert_reason) == (if validation_error(tx, base) is None && !ok {
            Some(
                "Balance "@ + decimal_spec(balance_of(state, tx.from@) as nat) + " < required "@
                    + decimal_spec(tx.value as nat),
            )
        } else {
            None
        })
    }
}

/// Simulates transactions against a snapshot of account state.
pub struct TransactionSimulator {
    state_snapshot: StrMap<Vec<u8>>,
    base_gas: u64,
    gas_per_byte: u64,
}

impl TransactionSimulator {
    /// The snapshot: each key's bytes.
    pub closed spec fn state(&self) -> Map<Seq<char>, Seq<u8>> {
        self.state_snapshot@.map_values(|v: Vec<u8>| v@)
    }

    pub closed spec fn base(&self) -> u64 {
        self.base_gas
    }

    pub closed spec fn gas_per_byte(&self) -> u64 {
        self.gas_per_byte
    }

    pub closed spec fn wf(&self) -> bool {
        self.state_snapshot.wf()
    }

    pub fn new() -> (s: Self)
        ensures
            s.wf(),
            s.state() == Map::<Seq<char>, Seq<u8>>::empty(),
            s.base() == BASE_GAS,
            s.gas_per_byte() == GAS_PER_BYTE,
    {
        let s = TransactionSimulator { state_snapshot: StrMap::new(), base_gas: BASE_GAS, gas_per_byte: GAS_PER_BYTE };
        assert(s.state() =~= Map::<Seq<char>, Seq<u8>>::empty());
        s
    }

    fn put(&mut self, key: String, value: Vec<u8>)
        requires
            old(self).wf(),
        ensures
            final(self).wf(),
            final(self).state() == old(self).state().insert(key@, value@),
            final(self).base() == old(self).base(),
            final(self).gas_per_byte() == old(self).gas_per_byte(),
    {
        let ghost k = key@;
        let ghost v = value@;
        self.state_snapshot.insert(key, value);
        assert(self.state() =~= old(self).state().insert(k, v));
    }

    /// Load state: each pair is written in order, a later value for a key replacing an earlier
    /// one.
    pub fn load_state(&mut self, state: Vec<(String, Vec<u8>)>)
        requires
            old(self).wf(),
        ensures
            final(self).wf(),
            final(self).state() == apply_changes(
                old(self).state(),
                state@.map_values(|e: (String, Vec<u8>)| (e.0@, Seq::<u8>::empty(), e.1@)),
            ),
            final(self).base() == old(self).base(),
            final(self).gas_per_byte() == old(self).gas_per_byte(),
    {
        let ghost all = state@.map_values(|e: (String, Vec<u8>)| (e.0@, Seq::<u8>::empty(), e.1@));
        let n: usize = state.len();
        let mut rest = state;
        let mut i: usize = 0;
        while rest.len() > 0
            invariant
                self.wf(),
                n == all.len(),
                n <= usize::MAX,
                0 <= i <= n,
                rest@.len() == n - i,
                forall|j: int| 0 <= j < rest@.len() ==> (rest@[j].0@, Seq::<u8>::empty(), rest@[j].1@) == all[i + j],
                self.state() == apply_changes(old(self).state(), all.take(i as int)),
                self.base() == old(self).base(),
                self.gas_per_byte() == old(self).gas_per_byte(),
            decreases rest.len(),
        {
            let (k, v) = rest.remove(0);
            assert(all.take(i + 1).drop_last() =~= all.take(i as int));
            self.put(k, v);
            i = i + 1;
        }
        assert(all.take(n as int) =~= all);
    }

    /// The balance the snapshot holds for `address` (see `balance_of`).
    fn get_balance(&self, address: &str) -> (b: u64)
        requires
            self.wf(),
        ensures
            b == balance_of(self.state(), address@),
    {
        match self.state_snapshot.get(address) {
            None => 0,
            Some(data) => {
                if data.len() >= 8 {
                    let mut head: Vec<u8> = Vec::new();
                    let mut i: usize = 0;
                    while i < 8
                        invariant
                            0 <= i <= 8,
                            data@.len() >= 8,
                            head@ == data@.take(i as int),
                        decreases 8 - i,
                    {
                        head.push(data[i]);
                        assert(head@ =~= data@.take(i + 1));
                        i = i + 1;
                    }
                    u64_from_le_bytes(head.as_slice())
                } else {
                    0
                }
            },
        }
    }

    /// Estimate the gas of `tx` (see `estimate_spec`).
    pub fn estimate_gas(&self, tx: &Transaction, successful: bool) -> (e: GasEstimate)
        requires
            estimate_fits(*tx, successful, self.base(), self.gas_per_byte()),
        ensures
            e == estimate_spec(*tx, successful, self.base(), self.gas_per_byte()),
    {
        estimate(tx, successful, self.base_gas, self.gas_per_byte)
    }

    /// Simulate `tx` against the snapshot, changing nothing (see `SimulationResult::describes`).
    pub fn simulate(&self, tx: &Transaction) -> (r: SimulationResult)
        requires
            self.wf(),
            sim_fits(self.state(), *tx, self.base(), self.gas_per_byte()),
        ensures
            r.describes(self.state(), *tx, self.base(), self.gas_per_byte()),
    {
        let mut logs: Vec<SimulationLog> = Vec::new();
        let mut state_changes: Vec<(String, StateChange)> = Vec::new();
        logs.push(info_log("Validating transaction"));
        match self.validate_transaction(tx) {
            Some(e) => {
                let r = SimulationResult {
                    success: false,
                    gas_used: self.base_gas,
                    gas_estimate: self.estimate_gas(tx, false),
                    state_changes,
                    logs,
                    error: Some(e),
                    revert_reason: None,
                };
                assert(r.state_changes@.map_values(|c: (String, StateChange)| change_view(c)) =~= Seq::empty());
                assert(r.logs@.map_values(|l: SimulationLog| l.message@) =~= sim_logs(self.state(), *tx, self.base(), self.gas_per_byte()));
                return r;
            },
            None => {},
        }
        logs.push(info_log("Checking sender balance"));
        let sender_balance = self.get_balance(tx.from.as_str());
        if sender_balance < tx.value {
            let mut reason = "Balance ".to_owned();
            push_decimal(&mut reason, sender_balance);
            push_str(&mut reason, " < required ");
            push_decimal(&mut reason, tx.value);
            let r = SimulationResult {
                success: false,
                gas_used: self.base_gas,
                gas_estimate: self.estimate_gas(tx, false),
                state_changes,
                logs,
                error: Some("Insufficient balance".to_owned()),
                revert_reason: Some(reason),
            };
            assert(r.state_changes@.map_values(|c: (String, StateChange)| change_view(c)) =~= Seq::empty());
            assert(r.logs@.map_values(|l: SimulationLog| l.message@) =~= sim_logs(self.state(), *tx, self.base(), self.gas_per_byte()));
            return r;
        }
        logs.push(info_log("Executing transaction"));
        let new_sender_balance = sender_balance - tx.value;
        let sender_change = StateChange {
            before: u64_to_le_bytes(sender_balance),
            after: u64_to_le_bytes(new_sender_balance),
            change_type: StateChangeType::BalanceUpdate,
        };
        match &tx.to {
            Some(to) => {
                let receiver_balance = self.get_balance(to.as_str());
                let new_receiver_balance = receiver_balance + tx.value;
                let receiver_change = StateChange {
                    before: u64_to_le_bytes(receiver_balance),
                    after: u64_to_le_bytes(new_receiver_balance),
                    change_type: StateChangeType::BalanceUpdate,
                };
                if *to == tx.from {
                    state_changes.push((to.clone(), receiver_change));
                } else {
                    state_changes.push((tx.from.clone(), sender_change));
                    state_changes.push((to.clone(), receiver_change));
                }
            },
            None => {
                state_changes.push((tx.from.clone(), sender_change));
                logs.push(info_log("Contract deployment detected"));
            },
        }
        let gas_estimate = self.estimate_gas(tx, true);
        let mut msg = "Simulation successful, gas used: ".to_owned();
        push_decimal(&mut msg, gas_estimate.total_gas);
        logs.push(SimulationLog { level: LogLevel::Info, message: msg, data: Vec::new() });
        let r = SimulationResult {
            success: true,
            gas_used: gas_estimate.total_gas,
            gas_estimate,
            state_changes,
            logs,
            error: None,
            revert_reason: None,
        };
        assert(r.state_changes@.map_values(|c: (String, StateChange)| change_view(c)) =~= sim_changes(self.state(), *tx));
        assert(r.logs@.map_values(|l: SimulationLog| l.message@) =~= sim_logs(self.state(), *tx, self.base(), self.gas_per_byte()));
        r
    }

    /// Why `tx` is malformed, if it is (see `validation_error`).
    fn validate_transaction(&self, tx: &Transaction) -> (r: Option<String>)
        ensures
            opt_view(r) == validation_error(*tx, self.base()),
    {
        if tx.from.as_str().is_empty() {
            return Some("Sender address is empty".to_owned());
        }
        if tx.gas_limit < self.base_gas {
            let mut m = "Gas limit ".to_owned();
            push_decimal(&mut m, tx.gas_limit);
            push_str(&mut m, " is below minimum ");
            push_decimal(&mut m, self.base_gas);
            return Some(m);
        }
        if tx.max_fee_per_gas == 0 {
            return Some("Max fee per gas cannot be zero".to_owned());
        }
        None
    }

    /// Write a successful simulation's new balances into the snapshot.
    fn apply(&mut self, r: &SimulationResult)
        requires
            old(self).wf(),
        ensures
            final(self).wf(),
            final(self).state() == apply_changes(
                old(self).state(),
                r.state_changes@.map_values(|c: (String, StateChange)| change_view(c)),
            ),
            final(self).base() == old(self).base(),
            final(self).gas_per_byte() == old(self).gas_per_byte(),
    {
        let ghost all = r.state_changes@.map_values(|c: (String, StateChange)| change_view(c));
        let mut i: usize = 0;
        while i < r.state_changes.len()
            invariant
                self.wf(),
                all == r.state_changes@.map_values(|c: (String, StateChange)| change_view(c)),
                0 <= i <= all.len(),
                self.state() == apply_changes(old(self).state(), all.take(i as int)),
                self.base() == old(self).base(),
                self.gas_per_byte() == old(self).gas_per_byte(),
            decreases all.len() - i,
        {
            let key = r.state_changes[i].0.clone();
            let value = crate::util::copy_vec(&r.state_changes[i].1.after);
            assert(all.take(i + 1).drop_last() =~= all.take(i as int));
            self.put(key, value);
            i = i + 1;
        }
        assert(all.take(all.len() as int) =~= all);
    }

    /// Simulate transactions in order, each against the snapshot with the earlier successful
    /// ones' balances written in (see `state_before`). The snapshot keeps what was written
    /// before the last transaction.
    pub fn simulate_batch(&mut self, transactions: &[Transaction]) -> (rs: Vec<SimulationResult>)
        requires
            old(self).wf(),
            forall|i: int|
                0 <= i < transactions@.len() ==> sim_fits(
                    #[trigger] state_before(old(self).state(), transactions@, i as nat, old(self).base()),
                    transactions@[i],
                    old(self).base(),
                    old(self).gas_per_byte(),
                ),
        ensures
            final(self).wf(),
            rs@.len() == transactions@.len(),
            forall|i: int|
                0 <= i < rs@.len() ==> #[trigger] rs@[i].describes(
                    state_before(old(self).state(), transactions@, i as nat, old(self).base()),
                    transactions@[i],
                    old(self).base(),
                    old(self).gas_per_byte(),
                ),
            final(self).state() == (if transactions@.len() == 0 {
                old(self).state()
            } else {
                state_before(
                    old(self).state(),
                    transactions@,
                    (transactions@.len() - 1) as nat,
                    old(self).base(),
                )
            }),
            final(self).base() == old(self).base(),
            final(self).gas_per_byte() == old(self).gas_per_byte(),
    {
        let ghost s0 = self.state();
        let ghost txs = transactions@;
        let ghost bg = self.base();
        let ghost gp = self.gas_per_byte();
        let mut results: Vec<SimulationResult> = Vec::new();
        let mut i: usize = 0;
        while i < transactions.len()
            invariant
                self.wf(),
                txs == transactions@,
                0 <= i <= txs.len(),
                results@.len() == i,
                self.base() == bg,
                self.gas_per_byte() == gp,
                bg == old(self).base(),
                gp == old(self).gas_per_byte(),
                forall|k: int|
                    0 <= k < txs.len() ==> sim_fits(
                        #[trigger] state_before(s0, txs, k as nat, bg),
                        txs[k],
                        bg,
                        gp,
                    ),
                forall|k: int|
                    0 <= k < i ==> #[trigger] results@[k].describes(
                        state_before(s0, txs, k as nat, bg),
                        txs[k],
                        bg,
                        gp,
                    ),
                i == 0 ==> self.state() == s0,
                i > 0 ==> self.state() == state_before(s0, txs, (i - 1) as nat, bg),
                i > 0 ==> results@[i - 1].success == sim_ok(
                    state_before(s0, txs, (i - 1) as nat, bg),
                    txs[i - 1],
                    bg,
                ),
                i > 0 ==> results@[i - 1].state_changes@.map_values(
                    |c: (String, StateChange)| change_view(c),
                ) == (if results@[i - 1].success {
                    sim_changes(state_before(s0, txs, (i - 1) as nat, bg), txs[i - 1])
                } else {
                    Seq::empty()
                }),
            decreases txs.len() - i,
        {
            if i > 0 {
                if results[i - 1].success {
                    self.apply(&results[i - 1]);
                }
                assert(self.state() == state_before(s0, txs, i as nat, bg)) by {
                    assert(apply_changes(
                        state_before(s0, txs, (i - 1) as nat, bg),
                        Seq::empty(),
                    ) == state_before(s0, txs, (i - 1) as nat, bg));
                }
            }
            assert(self.state() == state_before(s0, txs, i as nat, bg));
            proof {
                let k: int = i as int;
                assert(0 <= k < txs.len());
                assert(sim_fits(state_before(s0, txs, k as nat, bg), txs[k], bg, gp));
            }
            let r = self.simulate(&transactions[i]);
            results.push(r);
            i = i + 1;
        }
        results
    }

    /// Empty the snapshot.
    pub fn clear_state(&mut self)
        ensures
            final(self).wf(),
            final(self).state() == Map::<Seq<char>, Seq<u8>>::empty(),
            final(self).base() == old(self).base(),
            final(self).gas_per_byte() == old(self).gas_per_byte(),
    {
        self.state_snapshot.clear();
        assert(self.state() =~= Map::<Seq<char>, Seq<u8>>::empty());
    }
}

impl Default for TransactionSimulator {
    fn default() -> (s: Self)
        ensures
            s.wf(),
            s.state() == Map::<Seq<char>, Seq<u8>>::empty(),
            s.base() == BASE_GAS,
            s.gas_per_byte() == GAS_PER_BYTE,
    {
        Self::new()
    }
}

fn info_log(message: &str) -> (l: SimulationLog)
    ensures
        l.level == LogLevel::Info,
        l.message@ == message@,
        l.data@.len() == 0,
{
    SimulationLog { level: LogLevel::Info, message: message.to_owned(), data: Vec::new() }
}

/// The estimate (see `estimate_spec`).
fn estimate(tx: &Transaction, successful: bool, base: u64, gas_per_byte: u64) -> (e: GasEstimate)
    requires
        estimate_fits(*tx, successful, base, gas_per_byte),
    ensures
        e == estimate_spec(*tx, successful, base, gas_per_byte),
{
    proof {
        lemma_total_bounds(*tx, successful, base, gas_per_byte);
    }
    let data_fee = (tx.data.len() as u64) * gas_per_byte;
    let execution_fee: u64 = if !successful {
        0
    } else if tx.to.is_none() {
        CREATION_GAS + data_fee
    } else if tx.data.len() > 0 {
        CALL_GAS
    } else {
        0
    };
    let total_gas = base + execution_fee + data_fee;
    let wide = (total_gas as u128) * 6 / 5;
    let recommended_gas_limit: u64 = if wide > u64::MAX as u128 {
        u64::MAX
    } else {
        wide as u64
    };
    let estimated_cost = total_gas * GWEI;
    GasEstimate {
        base_fee: base,
        execution_fee,
        data_fee,
        total_gas,
        estimated_cost,
        recommended_gas_limit,
    }
}

proof fn lemma_total_bounds(tx: Transaction, successful: bool, base: u64, gas_per_byte: u64)
    requires
        estimate_fits(tx, successful, base, gas_per_byte),
    ensures
        total_gas_spec(tx, successful, base, gas_per_byte) <= u64::MAX,
        data_fee_spec(tx, gas_per_byte) <= u64::MAX,
        total_gas_spec(tx, successful, base, gas_per_byte) * GWEI <= u64::MAX,
{
    let t = total_gas_spec(tx, successful, base, gas_per_byte);
    assert(data_fee_spec(tx, gas_per_byte) >= 0) by (nonlinear_arith)
        requires
            data_fee_spec(tx, gas_per_byte) == tx.data@.len() * gas_per_byte,
    ;
    assert(t <= t * GWEI) by (nonlinear_arith)
        requires
            t >= 0,
    ;
}

/// Quick gas estimates without a simulation.
pub struct GasEstimator {
    base_gas: u64,
    gas_per_byte: u64,
    transfer_gas: u64,
    contract_call_gas: u64,
    contract_creation_gas: u64,
}

/// The quick estimate for `tx`: base gas and data gas, plus the creation gas and the data
/// again for a deployment, or the call gas for a call with data.
pub open spec fn quick_spec(tx: Transaction) -> int {
    total_gas_spec(tx, true, BASE_GAS, GAS_PER_BYTE)
}

/// The quick estimates of the transactions, added up.
pub open spec fn batch_gas_spec(s: Seq<Transaction>) -> int
    decreases s.len(),
{
    if s.len() == 0 {
        0
    } else {
        batch_gas_spec(s.drop_last()) + quick_spec(s.last())
    }
}

/// Margins are given in millionths (200_000 is 20%).
pub const MARGIN_SCALE: u64 = 1_000_000;

impl GasEstimator {
    pub closed spec fn wf(&self) -> bool {
        &&& self.base_gas == BASE_GAS
        &&& self.gas_per_byte == GAS_PER_BYTE
        &&& self.transfer_gas == BASE_GAS
        &&& self.contract_call_gas == CALL_GAS
        &&& self.contract_creation_gas == CREATION_GAS
    }

    pub fn new() -> (g: Self)
        ensures
            g.wf(),
    {
        GasEstimator {
            base_gas: BASE_GAS,
            gas_per_byte: GAS_PER_BYTE,
            transfer_gas: BASE_GAS,
            contract_call_gas: CALL_GAS,
            contract_creation_gas: CREATION_GAS,
        }
    }

    /// The quick estimate (see `quick_spec`).
    pub fn quick_estimate(&self, tx: &Transaction) -> (g: u64)
        requires
            self.wf(),
            quick_spec(*tx) <= u64::MAX,
        ensures
            g == quick_spec(*tx),
    {
        assert(tx.data@.len() * GAS_PER_BYTE >= 0) by (nonlinear_arith);
        let base = self.base_gas;
        let data_cost = (tx.data.len() as u64) * self.gas_per_byte;
        let execution_cost = if tx.to.is_none() {
            self.contract_creation_gas + data_cost
        } else if tx.data.len() > 0 {
            self.contract_call_gas
        } else {
            0
        };
        base + execution_cost + data_cost
    }

    /// The quick estimates of a batch, added up.
    pub fn estimate_batch(&self, transactions: &[Transaction]) -> (g: u64)
        requires
            self.wf(),
            batch_gas_spec(transactions@) <= u64::MAX,
        ensures
            g == batch_gas_spec(transactions@),
    {
        let ghost s = transactions@;
        let mut total: u64 = 0;
        let mut i: usize = 0;
        proof {
            lemma_batch_gas_mono(s, s.len() as int);
        }
        while i < transactions.len()
            invariant
                self.wf(),
                s == transactions@,
                0 <= i <= s.len(),
                batch_gas_spec(s) <= u64::MAX,
                total == batch_gas_spec(s.take(i as int)),
            decreases s.len() - i,
        {
            proof {
                assert(s.take(i + 1).drop_last() =~= s.take(i as int));
                lemma_batch_gas_mono(s, i + 1);
                lemma_quick_nonneg(s[i as int]);
            }
            let g = self.quick_estimate(&transactions[i]);
            total = total + g;
            i = i + 1;
        }
        assert(s.take(s.len() as int) =~= s);
        total
    }

    /// The quick estimate with a safety margin of `margin` millionths added, rounded down (at
    /// most `u64::MAX`).
    pub fn recommend_gas_limit(&self, tx: &Transaction, margin: u64) -> (g: u64)
        requires
            self.wf(),
            quick_spec(*tx) <= u64::MAX,
        ensures
            g == (if quick_spec(*tx) * (MARGIN_SCALE + margin) / (MARGIN_SCALE as int) > u64::MAX {
                u64::MAX as int
            } else {
                quick_spec(*tx) * (MARGIN_SCALE + margin) / (MARGIN_SCALE as int)
            }),
    {
        let estimate = self.quick_estimate(tx);
        let extra = crate::util::mul_wide(estimate, margin) / (MARGIN_SCALE as u128);
        assert(extra <= u64::MAX * u64::MAX / 1_000_000) by (nonlinear_arith)
            requires
                extra == (estimate * margin) / 1_000_000,
                estimate <= u64::MAX,
                margin <= u64::MAX,
        ;
        let wide: u128 = estimate as u128 + extra;
        assert(wide == estimate * (MARGIN_SCALE + margin) / (MARGIN_SCALE as int)) by (nonlinear_arith)
            requires
                wide == estimate + (estimate * margin) / 1_000_000,
                estimate >= 0,
                margin >= 0,
        ;
        if wide > u64::MAX as u128 {
            u64::MAX
        } else {
            wide as u64
        }
    }
}

proof fn lemma_quick_nonneg(tx: Transaction)
    ensures
        quick_spec(tx) >= 0,
{
    assert(tx.data@.len() * GAS_PER_BYTE >= 0) by (nonlinear_arith);
}

proof fn lemma_batch_gas_mono(s: Seq<Transaction>, n: int)
    requires
        0 <= n <= s.len(),
    ensures
        batch_gas_spec(s.take(n)) <= batch_gas_spec(s),
    decreases s.len() - n,
{
    if n < s.len() {
        lemma_batch_gas_mono(s, n + 1);
        assert(s.take(n + 1).drop_last() =~= s.take(n));
        lemma_quick_nonneg(s[n]);
    } else {
        assert(s.take(n) =~= s);
    }
}

impl Default for GasEstimator {
    fn default() -> (g: Self)
        ensures
            g.wf(),
    {
        Self::new()
    }
}

/// The gas of a transaction: the base gas and its data at `gas_per_byte` a byte, plus, when it
/// succeeds, 50_000 and its data again for a deployment, or 30_000 for a call with data (a
/// plain transfer adds nothing); a failed one pays only the base and its data. The estimated
/// cost is one gwei a unit, and the recommended limit 20% more, rounded down.
pub proof fn lemma_gas_estimate_parts(tx: Transaction, successful: bool, base: u64, gas_per_byte: u64)
    ensures
        ({
            let n = tx.data@.len() * gas_per_byte;
            let e = estimate_spec(tx, successful, base, gas_per_byte);
            let total = total_gas_spec(tx, successful, base, gas_per_byte);
            &&& total == base + n + if !successful {
                0
            } else if tx.to is None {
                50_000 + n
            } else if tx.data@.len() > 0 {
                30_000
            } else {
                0
            }
            &&& total <= u64::MAX ==> e.total_gas == total
            &&& total * 1_000_000_000 <= u64::MAX ==> e.estimated_cost == total * 1_000_000_000
            &&& total * 6 <= u64::MAX ==> e.recommended_gas_limit * 5 <= total * 6 < (e.recommended_gas_limit + 1) * 5
        }),
{
    let total = total_gas_spec(tx, successful, base, gas_per_byte);
    assert(tx.data@.len() * gas_per_byte >= 0) by (nonlinear_arith);
    assert(total >= 0);
    crate::util::lemma_floor_div(total * 6, 5);
}

/// A simulation succeeds exactly for a transaction with a sender, a gas limit of at least the
/// base gas and a nonzero fee cap, whose sender can pay its value. A successful transfer
/// between two accounts moves the value and nothing more: the sender ends with its balance
/// less the value, the recipient with its balance plus the value, so the two balances add up
/// to what they did before.
pub proof fn lemma_simulation_moves_value(state: Map<Seq<char>, Seq<u8>>, tx: Transaction, base: u64)
    ensures
        sim_ok(state, tx, base) <==> (tx.from@.len() > 0 && tx.gas_limit >= base && tx.max_fee_per_gas > 0
            && balance_of(state, tx.from@) >= tx.value),
        (sim_ok(state, tx, base) && tx.to is Some && tx.to->Some_0@ != tx.from@ && balance_of(state, tx.to->Some_0@)
            + tx.value <= u64::MAX) ==> {
            let c = sim_changes(state, tx);
            let a = balance_of(state, tx.from@);
            let b = balance_of(state, tx.to->Some_0@);
            &&& c.len() == 2
            &&& c[0].0 == tx.from@ && c[1].0 == tx.to->Some_0@
            &&& spec_u64_from_le_bytes(c[0].1) == a && spec_u64_from_le_bytes(c[1].1) == b
            &&& spec_u64_from_le_bytes(c[0].2) == a - tx.value
            &&& spec_u64_from_le_bytes(c[1].2) == b + tx.value
            &&& spec_u64_from_le_bytes(c[0].2) + spec_u64_from_le_bytes(c[1].2) == a + b
        },
{
    vstd::bytes::lemma_auto_spec_u64_to_from_le_bytes();
}

} // verus!
