use vstd::prelude::*;

use crate::clock::now_secs;
use crate::table::StrMap;
use crate::util::{copy_all, copy_vec, decimal_spec, push_decimal, DeepCopy};

verus! {

#[derive(Debug)]
pub struct DeployedContract {
    pub address: String,
    pub deployer: String,
    pub code_hash: crate::hash_utils::Hash,
    pub bytecode: Vec<u8>,
    pub deployed_at: u64,
    pub deployment_tx: crate::hash_utils::Hash,
    pub is_verified: bool,
    pub total_calls: u64,
    pub total_gas_used: u64,
}

#[derive(Debug)]
pub struct ContractABI {
    pub contract_address: String,
    /// The ABI as JSON text.
    pub abi: String,
    pub functions: Vec<FunctionSignature>,
    pub events: Vec<EventSignature>,
    pub constructor: Option<FunctionSignature>,
}

#[derive(Debug)]
pub struct FunctionSignature {
    pub name: String,
    pub inputs: Vec<Parameter>,
    pub outputs: Vec<Parameter>,
    pub state_mutability: StateMutability,
}

#[derive(Debug)]
pub struct EventSignature {
    pub name: String,
    pub inputs: Vec<Parameter>,
    pub anonymous: bool,
}

#[derive(Debug)]
pub struct Parameter {
    pub name: String,
    pub param_type: String,
    pub indexed: bool,
}

#[derive(Debug, Clone, Copy, PartialEq, Eq, Structural)]
pub enum StateMutability {
    Pure,
    View,
    NonPayable,
    Payable,
}

#[derive(Debug)]
pub struct VerificationInfo {
    pub contract_address: String,
    pub source_code: String,
    pub compiler_version: String,
    pub optimization_enabled: bool,
    pub optimization_runs: u32,
    pub verified_at: u64,
    pub verifier: String,
}

#[derive(Debug, Clone, Copy, PartialEq, Eq, Structural)]
pub struct ContractStats {
    pub total_contracts: usize,
    pub verified_contracts: usize,
    pub total_calls: u64,
    pub total_gas_used: u64,
}

/// Why a contract operation was refused.
#[derive(Debug, Clone, Copy, PartialEq, Eq, Structural)]
pub enum ContractError {
    ContractNotFound,
}

/// What a deployed contract holds.
pub struct ContractModel {
    pub address: Seq<char>,
    pub deployer: Seq<char>,
    pub code_hash: Seq<u8>,
    pub bytecode: Seq<u8>,
    pub deployed_at: u64,
    pub deployment_tx: Seq<u8>,
    pub is_verified: bool,
    pub total_calls: u64,
    pub total_gas_used: u64,
}

/// What a function signature holds.
pub struct FunctionSignatureModel {
    pub name: Seq<char>,
    pub inputs: Seq<Parameter>,
    pub outputs: Seq<Parameter>,
    pub state_mutability: StateMutability,
}

/// What an event signature holds.
pub struct EventSignatureModel {
    pub name: Seq<char>,
    pub inputs: Seq<Parameter>,
    pub anonymous: bool,
}

/// What an ABI holds.
pub struct ContractAbiModel {
    pub contract_address: Seq<char>,
    pub abi: Seq<char>,
    pub functions: Seq<FunctionSignatureModel>,
    pub events: Seq<EventSignatureModel>,
    pub constructor: Option<FunctionSignatureModel>,
}

impl View for DeployedContract {
    type V = ContractModel;

    open spec fn view(&self) -> ContractModel {
        ContractModel {
            address: self.address@,
            deployer: self.deployer@,
            code_hash: self.code_hash@,
            bytecode: self.bytecode@,
            deployed_at: self.deployed_at,
            deployment_tx: self.deployment_tx@,
            is_verified: self.is_verified,
            total_calls: self.total_calls,
            total_gas_used: self.total_gas_used,
        }
    }
}

impl View for FunctionSignature {
    type V = FunctionSignatureModel;

    open spec fn view(&self) -> FunctionSignatureModel {
        FunctionSignatureModel {
            name: self.name@,
            inputs: self.inputs@,
            outputs: self.outputs@,
            state_mutability: self.state_mutability,
        }
    }
}

impl View for EventSignature {
    type V = EventSignatureModel;

    open spec fn view(&self) -> EventSignatureModel {
        EventSignatureModel { name: self.name@, inputs: self.inputs@, anonymous: self.anonymous }
    }
}

/// The view of an optional function signature.
pub open spec fn opt_signature_view(o: Option<FunctionSignature>) -> Option<FunctionSignatureModel> {
    match o {
        None => None,
        Some(f) => Some(f@),
    }
}

impl View for ContractABI {
    type V = ContractAbiModel;

    open spec fn view(&self) -> ContractAbiModel {
        ContractAbiModel {
            contract_address: self.contract_address@,
            abi: self.abi@,
            functions: self.functions@.map_values(|f: FunctionSignature| f@),
            events: self.events@.map_values(|e: EventSignature| e@),
            constructor: opt_signature_view(self.constructor),
        }
    }
}

impl Parameter {
    /// A field-by-field copy.
    pub fn duplicate(&self) -> (r: Parameter)
        ensures
            r == *self,
    {
        Parameter { name: self.name.clone(), param_type: self.param_type.clone(), indexed: self.indexed }
    }
}

/// A copy of each parameter, in order.
fn copy_params(v: &Vec<Parameter>) -> (r: Vec<Parameter>)
    ensures
        r@ == v@,
{
    let mut r: Vec<Parameter> = Vec::new();
    let mut i: usize = 0;
    while i < v.len()
        invariant
            0 <= i <= v@.len(),
            r@ == v@.take(i as int),
        decreases v@.len() - i,
    {
        r.push(v[i].duplicate());
        i = i + 1;
        assert(r@ =~= v@.take(i as int));
    }
    assert(v@.take(i as int) =~= v@);
    r
}

impl DeepCopy for DeployedContract {
    fn deep_copy(&self) -> (r: Self) {
        DeployedContract {
            address: self.address.clone(),
            deployer: self.deployer.clone(),
            code_hash: self.code_hash,
            bytecode: copy_vec(&self.bytecode),
            deployed_at: self.deployed_at,
            deployment_tx: self.deployment_tx,
            is_verified: self.is_verified,
            total_calls: self.total_calls,
            total_gas_used: self.total_gas_used,
        }
    }
}

impl DeepCopy for FunctionSignature {
    fn deep_copy(&self) -> (r: Self) {
        FunctionSignature {
            name: self.name.clone(),
            inputs: copy_params(&self.inputs),
            outputs: copy_params(&self.outputs),
            state_mutability: self.state_mutability,
        }
    }
}

impl DeepCopy for EventSignature {
    fn deep_copy(&self) -> (r: Self) {
        EventSignature { name: self.name.clone(), inputs: copy_params(&self.inputs), anonymous: self.anonymous }
    }
}

impl DeepCopy for ContractABI {
    fn deep_copy(&self) -> (r: Self) {
        let constructor = match &self.constructor {
            None => None,
            Some(f) => Some(f.deep_copy()),
        };
        ContractABI {
            contract_address: self.contract_address.clone(),
            abi: self.abi.clone(),
            functions: copy_all(&self.functions),
            events: copy_all(&self.events),
            constructor,
        }
    }
}

impl VerificationInfo {
    /// A field-by-field copy.
    pub fn duplicate(&self) -> (r: VerificationInfo)
        ensures
            r == *self,
    {
        VerificationInfo {
            contract_address: self.contract_address.clone(),
            source_code: self.source_code.clone(),
            compiler_version: self.compiler_version.clone(),
            optimization_enabled: self.optimization_enabled,
            optimization_runs: self.optimization_runs,
            verified_at: self.verified_at,
            verifier: self.verifier.clone(),
        }
    }
}

/// The address the deployment numbered `id` gets: "contract_<id>".
pub open spec fn contract_address_spec(id: u64) -> Seq<char> {
    "contract_"@ + decimal_spec(id as nat)
}

/// The contract a deployment at time `now` creates.
pub open spec fn deployed_spec(id: u64, deployer: Seq<char>, bytecode: Seq<u8>, deployment_tx: Seq<u8>, now: u64) -> ContractModel {
    ContractModel {
        address: contract_address_spec(id),
        deployer,
        code_hash: crate::hash_utils::sha256_spec(bytecode),
        bytecode,
        deployed_at: now,
        deployment_tx,
        is_verified: false,
        total_calls: 0,
        total_gas_used: 0,
    }
}

/// A quantity of each contract, added up.
pub open spec fn contract_total(s: Seq<ContractModel>, f: spec_fn(ContractModel) -> nat) -> nat
    decreases s.len(),
{
    if s.len() == 0 {
        0
    } else {
        contract_total(s.drop_last(), f) + f(s.last())
    }
}

pub open spec fn calls_f() -> spec_fn(ContractModel) -> nat {
    |c: ContractModel| c.total_calls as nat
}

pub open spec fn gas_f() -> spec_fn(ContractModel) -> nat {
    |c: ContractModel| c.total_gas_used as nat
}

/// A prefix adds up to no more than the whole, and one more element adds its own amount.
pub proof fn lemma_contract_total_take(s: Seq<ContractModel>, f: spec_fn(ContractModel) -> nat, i: int)
    requires
        0 <= i <= s.len(),
    ensures
        contract_total(s.take(i), f) <= contract_total(s, f),
        i < s.len() ==> contract_total(s.take(i + 1), f) == contract_total(s.take(i), f) + f(s[i]),
    decreases s.len(),
{
    if i < s.len() {
        assert(s.take(i + 1).drop_last() =~= s.take(i));
        if i + 1 < s.len() {
            assert(s.drop_last().take(i + 1) =~= s.take(i + 1));
            lemma_contract_total_take(s.drop_last(), f, i + 1);
        } else {
            assert(s.take(i + 1) =~= s);
        }
    } else {
        assert(s.take(i) =~= s);
    }
}

/// Deployed contracts, their ABIs and source verifications.
pub struct ContractManager {
    contracts: StrMap<DeployedContract>,
    abis: StrMap<ContractABI>,
    verified_contracts: StrMap<VerificationInfo>,
    deployment_counter: u64,
}

impl ContractManager {
    /// The contracts, by address.
    pub closed spec fn contracts(&self) -> Map<Seq<char>, ContractModel> {
        self.contracts@.map_values(|c: DeployedContract| c@)
    }

    /// The contracts, in the order their addresses were first used.
    pub closed spec fn contract_list(&self) -> Seq<ContractModel> {
        self.contracts.values().map_values(|c: DeployedContract| c@)
    }

    /// The registered ABIs, by contract address.
    pub closed spec fn abis(&self) -> Map<Seq<char>, ContractAbiModel> {
        self.abis@.map_values(|a: ContractABI| a@)
    }

    /// The source verifications, by contract address.
    pub closed spec fn verifications(&self) -> Map<Seq<char>, VerificationInfo> {
        self.verified_contracts@
    }

    /// The number the next deployment gets.
    pub closed spec fn deployment_counter(&self) -> u64 {
        self.deployment_counter
    }

    pub closed spec fn wf(&self) -> bool {
        &&& self.contracts.wf()
        &&& self.abis.wf()
        &&& self.verified_contracts.wf()
        &&& forall|k: Seq<char>| #[trigger] self.contracts@.dom().contains(k) ==> self.contracts@[k].address@ == k
    }

    pub fn new() -> (m: Self)
        ensures
            m.wf(),
            m.contracts() == Map::<Seq<char>, ContractModel>::empty(),
            m.contract_list() == Seq::<ContractModel>::empty(),
            m.abis() == Map::<Seq<char>, ContractAbiModel>::empty(),
            m.verifications() == Map::<Seq<char>, VerificationInfo>::empty(),
            m.deployment_counter() == 0,
    {
        let m = ContractManager {
            contracts: StrMap::new(),
            abis: StrMap::new(),
            verified_contracts: StrMap::new(),
            deployment_counter: 0,
        };
        assert(m.contracts() =~= Map::<Seq<char>, ContractModel>::empty());
        assert(m.contract_list() =~= Seq::<ContractModel>::empty());
        assert(m.abis() =~= Map::<Seq<char>, ContractAbiModel>::empty());
        m
    }

    /// Deploy `bytecode` at time `now`: the contract gets the address "contract_<n>" for the
    /// next deployment number `n`, and the SHA-256 of its bytecode as code hash; it replaces
    /// a contract at that address. Answers a copy.
    pub fn deploy_contract_at(&mut self, deployer: String, bytecode: Vec<u8>, deployment_tx: crate::hash_utils::Hash, now: u64) -> (r: Result<DeployedContract, ContractError>)
        requires
            old(self).wf(),
        ensures
            final(self).wf(),
            r matches Ok(c) && c@ == deployed_spec(old(self).deployment_counter(), deployer@, bytecode@, deployment_tx@, now),
            final(self).contracts() == old(self).contracts().insert(
                contract_address_spec(old(self).deployment_counter()),
                deployed_spec(old(self).deployment_counter(), deployer@, bytecode@, deployment_tx@, now),
            ),
            final(self).deployment_counter() == old(self).deployment_counter().wrapping_add(1),
            final(self).abis() == old(self).abis(),
            final(self).verifications() == old(self).verifications(),
    {
        let id = self.deployment_counter;
        self.deployment_counter = self.deployment_counter.wrapping_add(1);
        let mut address = "contract_".to_owned();
        push_decimal(&mut address, id);
        let code_hash = crate::hash_utils::Hash::new(bytecode.as_slice());
        let contract = DeployedContract {
            address: address.clone(),
            deployer,
            code_hash,
            bytecode,
            deployed_at: now,
            deployment_tx,
            is_verified: false,
            total_calls: 0,
            total_gas_used: 0,
        };
        let copy = contract.deep_copy();
        let ghost m0 = self.contracts@;
        self.contracts.insert(address, contract);
        proof {
            assert(self.contracts() =~= m0.map_values(|c: DeployedContract| c@).insert(copy@.address, copy@));
        }
        Ok(copy)
    }

    /// Deploy a contract now, by the wall clock (see `deploy_contract_at`).
    pub fn deploy_contract(&mut self, deployer: String, bytecode: Vec<u8>, deployment_tx: crate::hash_utils::Hash) -> (r: Result<DeployedContract, ContractError>)
        requires
            old(self).wf(),
        ensures
            final(self).wf(),
            exists|now: u64| {
                &&& r matches Ok(c) && c@ == #[trigger] deployed_spec(old(self).deployment_counter(), deployer@, bytecode@, deployment_tx@, now)
                &&& final(self).contracts() == old(self).contracts().insert(
                    contract_address_spec(old(self).deployment_counter()),
                    deployed_spec(old(self).deployment_counter(), deployer@, bytecode@, deployment_tx@, now),
                )
            },
            final(self).deployment_counter() == old(self).deployment_counter().wrapping_add(1),
            final(self).abis() == old(self).abis(),
            final(self).verifications() == old(self).verifications(),
    {
        let now = now_secs();
        self.deploy_contract_at(deployer, bytecode, deployment_tx, now)
    }

    /// Register the ABI of a deployed contract, replacing an earlier one; refused for an
    /// unknown contract.
    pub fn register_abi(&mut self, abi: ContractABI) -> (r: Result<(), ContractError>)
        requires
            old(self).wf(),
        ensures
            final(self).wf(),
            r is Ok <==> old(self).contracts().dom().contains(abi.contract_address@),
            r is Ok ==> final(self).abis() == old(self).abis().insert(abi.contract_address@, abi@),
            r is Err ==> final(self).abis() == old(self).abis(),
            final(self).contracts() == old(self).contracts(),
            final(self).verifications() == old(self).verifications(),
            final(self).deployment_counter() == old(self).deployment_counter(),
    {
        if !self.contracts.contains_key(abi.contract_address.as_str()) {
            return Err(ContractError::ContractNotFound);
        }
        let ghost m0 = self.abis@;
        let ghost av = abi@;
        let key = abi.contract_address.clone();
        self.abis.insert(key, abi);
        assert(self.abis() =~= m0.map_values(|a: ContractABI| a@).insert(av.contract_address, av));
        Ok(())
    }

    /// Mark a contract verified and keep its verification, replacing an earlier one; refused
    /// for an unknown contract.
    pub fn verify_contract(&mut self, verification: VerificationInfo) -> (r: Result<(), ContractError>)
        requires
            old(self).wf(),
        ensures
            final(self).wf(),
            r is Ok <==> old(self).contracts().dom().contains(verification.contract_address@),
            r is Ok ==> final(self).contracts() == old(self).contracts().insert(
                verification.contract_address@,
                ContractModel { is_verified: true, ..old(self).contracts()[verification.contract_address@] },
            ),
            r is Ok ==> final(self).verifications() == old(self).verifications().insert(verification.contract_address@, verification),
            r is Err ==> final(self).contracts() == old(self).contracts() && final(self).verifications() == old(self).verifications(),
            final(self).abis() == old(self).abis(),
            final(self).deployment_counter() == old(self).deployment_counter(),
    {
        proof {
            self.contracts.lemma_view();
        }
        let p = match self.contracts.position(verification.contract_address.as_str()) {
            None => return Err(ContractError::ContractNotFound),
            Some(p) => p,
        };
        let ghost m0 = self.contracts@;
        let mut c = self.contracts.value_at(p).deep_copy();
        c.is_verified = true;
        let ghost cv = c@;
        self.contracts.set_value_at(p, c);
        assert(self.contracts() =~= m0.map_values(|c: DeployedContract| c@).insert(verification.contract_address@, cv));
        let key = verification.contract_address.clone();
        self.verified_contracts.insert(key, verification);
        Ok(())
    }

    /// Count a call of a contract and the gas it used; refused for an unknown contract.
    pub fn record_call(&mut self, contract_address: &str, gas_used: u64) -> (r: Result<(), ContractError>)
        requires
            old(self).wf(),
            old(self).contracts().dom().contains(contract_address@) ==> {
                &&& old(self).contracts()[contract_address@].total_calls < u64::MAX
                &&& old(self).contracts()[contract_address@].total_gas_used + gas_used <= u64::MAX
            },
        ensures
            final(self).wf(),
            r is Ok <==> old(self).contracts().dom().contains(contract_address@),
            r is Ok ==> final(self).contracts() == old(self).contracts().insert(
                contract_address@,
                ContractModel {
                    total_calls: (old(self).contracts()[contract_address@].total_calls + 1) as u64,
                    total_gas_used: (old(self).contracts()[contract_address@].total_gas_used + gas_used) as u64,
                    ..old(self).contracts()[contract_address@]
                },
            ),
            r is Err ==> final(self).contracts() == old(self).contracts(),
            final(self).abis() == old(self).abis(),
            final(self).verifications() == old(self).verifications(),
            final(self).deployment_counter() == old(self).deployment_counter(),
    {
        proof {
            self.contracts.lemma_view();
        }
        let p = match self.contracts.position(contract_address) {
            None => return Err(ContractError::ContractNotFound),
            Some(p) => p,
        };
        let ghost m0 = self.contracts@;
        let mut c = self.contracts.value_at(p).deep_copy();
        c.total_calls = c.total_calls + 1;
        c.total_gas_used = c.total_gas_used + gas_used;
        let ghost cv = c@;
        self.contracts.set_value_at(p, c);
        assert(self.contracts() =~= m0.map_values(|c: DeployedContract| c@).insert(contract_address@, cv));
        Ok(())
    }

    /// A copy of the contract at `address`, if deployed.
    pub fn get_contract(&self, address: &str) -> (r: Option<DeployedContract>)
        requires
            self.wf(),
        ensures
            match r {
                Some(c) => self.contracts().dom().contains(address@) && c@ == self.contracts()[address@],
                None => !self.contracts().dom().contains(address@),
            },
    {
        match self.contracts.get(address) {
            Some(c) => Some(c.deep_copy()),
            None => None,
        }
    }

    /// A copy of the ABI of the contract at `address`, if registered.
    pub fn get_abi(&self, address: &str) -> (r: Option<ContractABI>)
        requires
            self.wf(),
        ensures
            match r {
                Some(a) => self.abis().dom().contains(address@) && a@ == self.abis()[address@],
                None => !self.abis().dom().contains(address@),
            },
    {
        match self.abis.get(address) {
            Some(a) => Some(a.deep_copy()),
            None => None,
        }
    }

    /// A copy of the verification of the contract at `address`, if any.
    pub fn get_verification(&self, address: &str) -> (r: Option<VerificationInfo>)
        requires
            self.wf(),
        ensures
            r == if self.verifications().dom().contains(address@) {
                Some(self.verifications()[address@])
            } else {
                None::<VerificationInfo>
            },
    {
        match self.verified_contracts.get(address) {
            Some(v) => Some(v.duplicate()),
            None => None,
        }
    }

    /// Copies of the contracts that satisfy `keep` (which `pred` states), in order.
    fn collect_contracts<F: Fn(&DeployedContract) -> bool>(&self, keep: F, Ghost(pred): Ghost<spec_fn(ContractModel) -> bool>) -> (r: Vec<DeployedContract>)
        requires
            forall|c: &DeployedContract| #[trigger] keep.requires((c,)),
            forall|c: &DeployedContract, b: bool| keep.ensures((c,), b) ==> b == pred(c@),
        ensures
            r@.map_values(|c: DeployedContract| c@) == self.contract_list().filter(pred),
    {
        let ghost s = self.contract_list();
        let n = self.contracts.len_entries();
        let mut r: Vec<DeployedContract> = Vec::new();
        let mut i: usize = 0;
        while i < n
            invariant
                s == self.contract_list(),
                n == s.len(),
                n == self.contracts.entries().len(),
                0 <= i <= n,
                forall|c: &DeployedContract| #[trigger] keep.requires((c,)),
                forall|c: &DeployedContract, b: bool| keep.ensures((c,), b) ==> b == pred(c@),
                r@.map_values(|c: DeployedContract| c@) == s.take(i as int).filter(pred),
            decreases n - i,
        {
            let c = self.contracts.value_at(i);
            assert(c@ == s[i as int]);
            proof {
                assert(s.take(i + 1) =~= s.take(i as int).push(c@));
                s.take(i as int).lemma_filter_push(c@, pred);
            }
            if keep(c) {
                let ghost r0 = r@;
                r.push(c.deep_copy());
                assert(r@.map_values(|c: DeployedContract| c@) =~= r0.map_values(|c: DeployedContract| c@).push(c@));
            }
            i = i + 1;
        }
        assert(s.take(n as int) =~= s);
        r
    }

    /// Copies of all contracts, in order.
    pub fn get_all_contracts(&self) -> (r: Vec<DeployedContract>)
        ensures
            r@.map_values(|c: DeployedContract| c@) == self.contract_list(),
    {
        let keep = (|c: &DeployedContract| -> (b: bool) ensures b == true { true });
        let r = self.collect_contracts(keep, Ghost(|c: ContractModel| true));
        proof {
            let s = self.contract_list();
            assert(s.filter(|c: ContractModel| true) =~= s) by {
                lemma_filter_all_true(s);
            }
        }
        r
    }

    /// Copies of the verified contracts, in order.
    pub fn get_verified_contracts(&self) -> (r: Vec<DeployedContract>)
        ensures
            r@.map_values(|c: DeployedContract| c@) == self.contract_list().filter(|c: ContractModel| c.is_verified),
    {
        let keep = (|c: &DeployedContract| -> (b: bool) ensures b == c.is_verified { c.is_verified });
        self.collect_contracts(keep, Ghost(|c: ContractModel| c.is_verified))
    }

    /// Copies of the contracts deployed by `deployer`, in order.
    pub fn get_contracts_by_deployer(&self, deployer: &str) -> (r: Vec<DeployedContract>)
        ensures
            r@.map_values(|c: DeployedContract| c@) == self.contract_list().filter(|c: ContractModel| c.deployer == deployer@),
    {
        let d = deployer.to_owned();
        let keep = (|c: &DeployedContract| -> (b: bool) ensures b == (c.deployer@ == d@) { c.deployer == d });
        self.collect_contracts(keep, Ghost(|c: ContractModel| c.deployer == deployer@))
    }

    /// How many contracts there are and are verified, and their calls and gas added up.
    pub fn get_stats(&self) -> (st: ContractStats)
        requires
            contract_total(self.contract_list(), calls_f()) <= u64::MAX,
            contract_total(self.contract_list(), gas_f()) <= u64::MAX,
        ensures
            st.total_contracts == self.contract_list().len(),
            st.verified_contracts == self.contract_list().filter(|c: ContractModel| c.is_verified).len(),
            st.total_calls == contract_total(self.contract_list(), calls_f()),
            st.total_gas_used == contract_total(self.contract_list(), gas_f()),
    {
        let ghost s = self.contract_list();
        let ghost pred = |c: ContractModel| c.is_verified;
        let n = self.contracts.len_entries();
        let mut verified: usize = 0;
        let mut calls: u64 = 0;
        let mut gas: u64 = 0;
        let mut i: usize = 0;
        while i < n
            invariant
                s == self.contract_list(),
                n == s.len(),
                n == self.contracts.entries().len(),
                0 <= i <= n,
                pred == (|c: ContractModel| c.is_verified),
                contract_total(s, calls_f()) <= u64::MAX,
                contract_total(s, gas_f()) <= u64::MAX,
                verified == s.take(i as int).filter(pred).len(),
                calls == contract_total(s.take(i as int), calls_f()),
                gas == contract_total(s.take(i as int), gas_f()),
            decreases n - i,
        {
            let c = self.contracts.value_at(i);
            assert(c@ == s[i as int]);
            proof {
                lemma_contract_total_take(s, calls_f(), i as int);
                lemma_contract_total_take(s, calls_f(), i + 1);
                lemma_contract_total_take(s, gas_f(), i as int);
                lemma_contract_total_take(s, gas_f(), i + 1);
                assert(s.take(i + 1) =~= s.take(i as int).push(c@));
                s.take(i as int).lemma_filter_push(c@, pred);
                s.take(i as int).lemma_filter_len(pred);
            }
            if c.is_verified {
                verified = verified + 1;
            }
            calls = calls + c.total_calls;
            gas = gas + c.total_gas_used;
            i = i + 1;
        }
        assert(s.take(n as int) =~= s);
        ContractStats { total_contracts: n, verified_contracts: verified, total_calls: calls, total_gas_used: gas }
    }
}

/// Filtering by a predicate that holds everywhere keeps everything.
pub proof fn lemma_filter_all_true(s: Seq<ContractModel>)
    ensures
        s.filter(|c: ContractModel| true) == s,
    decreases s.len(),
{
    reveal(Seq::filter);
    if s.len() > 0 {
        lemma_filter_all_true(s.drop_last());
        assert(s.drop_last().push(s.last()) =~= s);
    } else {
        assert(s.filter(|c: ContractModel| true) =~= s);
    }
}

impl Default for ContractManager {
    fn default() -> (m: Self)
        ensures
            m.wf(),
            m.contracts() == Map::<Seq<char>, ContractModel>::empty(),
            m.deployment_counter() == 0,
    {
        Self::new()
    }
}

/// Every deployment gets an address of its own: deployments numbered differently get
/// different addresses. A fresh contract sits at its address, starts unverified with no calls
/// and no gas used, and carries the SHA-256 of its bytecode as code hash.
pub proof fn lemma_deployment_addresses(
    a: u64,
    b: u64,
    deployer: Seq<char>,
    bytecode: Seq<u8>,
    deployment_tx: Seq<u8>,
    now: u64,
)
    ensures
        a != b ==> contract_address_spec(a) != contract_address_spec(b),
        ({
            let c = deployed_spec(a, deployer, bytecode, deployment_tx, now);
            &&& c.address == contract_address_spec(a)
            &&& !c.is_verified
            &&& c.total_calls == 0
            &&& c.total_gas_used == 0
            &&& c.code_hash == crate::hash_utils::sha256_spec(bytecode)
            &&& c.deployer == deployer
            &&& c.deployed_at == now
        }),
{
    if contract_address_spec(a) == contract_address_spec(b) {
        assert(contract_address_spec(a) =~= "contract_"@ + decimal_spec(a as nat) + Seq::<char>::empty());
        assert(contract_address_spec(b) =~= "contract_"@ + decimal_spec(b as nat) + Seq::<char>::empty());
        crate::util::lemma_framed_decimal_injective("contract_"@, Seq::<char>::empty(), a as nat, b as nat);
    }
}

} // verus!
