use vstd::prelude::*;

use crate::clock::{now_secs, reads_past};
use crate::table::{IdMap, StrMap};
use crate::util::{copy_vec, mul_div, push_str};

verus! {

/// Rates (commission, slashing, uptime) are fractions written in parts per million.
pub const PPM: u64 = 1_000_000;

/// How long unbonded stake stays locked: seven days, in seconds.
pub const UNBONDING_PERIOD: u64 = 604_800;

#[derive(Debug)]
pub struct Validator {
    pub address: String,
    pub public_key: String,
    pub status: ValidatorStatus,
    pub stake_amount: u64,
    /// The validator's commission, in parts per million (at most `PPM`).
    pub commission_rate_ppm: u64,
    pub total_blocks_produced: u64,
    pub total_blocks_missed: u64,
    pub total_rewards_earned: u64,
    pub total_slashed: u64,
    pub registered_at: u64,
    pub last_active: u64,
    /// The share of blocks produced among those recorded, in parts per million.
    pub uptime_ppm: u64,
}

#[derive(Debug, Clone, Copy, PartialEq, Eq, Structural)]
pub enum ValidatorStatus {
    Active,
    Inactive,
    Slashed,
    Jailed { until: u64 },
    Unbonding { unlock_time: u64 },
}

#[derive(Debug)]
pub struct StakeInfo {
    pub staker_address: String,
    pub validator_address: String,
    pub amount: u64,
    pub staked_at: u64,
    pub pending_rewards: u64,
    pub unbonding_amount: u64,
    pub unbonding_completion: Option<u64>,
}

#[derive(Debug)]
pub struct SlashEvent {
    pub event_id: u64,
    pub validator_address: String,
    pub reason: SlashReason,
    pub amount_slashed: u64,
    pub timestamp: u64,
    pub evidence: Vec<u8>,
}

#[derive(Debug, PartialEq, Eq)]
pub enum SlashReason {
    DoubleSign,
    Downtime,
    InvalidBlock,
    Misbehavior { description: String },
}

#[derive(Debug)]
pub struct RewardDistribution {
    pub distribution_id: u64,
    pub epoch: u64,
    pub total_rewards: u64,
    /// Each active validator's address with its reward, in registration order.
    pub rewards_per_validator: Vec<(String, u64)>,
    pub timestamp: u64,
}

#[derive(Debug, Clone, Copy, PartialEq, Eq, Structural)]
pub struct ValidatorStats {
    pub total_validators: usize,
    pub active_validators: usize,
    pub total_stake: u64,
    pub total_slashed: u64,
    pub total_rewards_distributed: u64,
    /// The validators' mean uptime, in parts per million, rounded down (0 with no validators).
    pub avg_uptime_ppm: u64,
}

/// Why a validator operation was refused.
#[derive(Debug, Clone, Copy, PartialEq, Eq, Structural)]
pub enum ValidatorError {
    StakeBelowMinimum,
    InvalidCommissionRate,
    AlreadyRegistered,
    ValidatorNotFound,
    StakeNotFound,
    InsufficientStake,
    NoActiveValidators,
    NoStake,
    /// The clock reads a time so late that the unlock time would not fit in 64 bits.
    ClockOutOfRange,
}

impl Validator {
    /// A field-by-field copy.
    pub fn duplicate(&self) -> (r: Validator)
        ensures
            r == *self,
    {
        Validator {
            address: self.address.clone(),
            public_key: self.public_key.clone(),
            status: self.status,
            stake_amount: self.stake_amount,
            commission_rate_ppm: self.commission_rate_ppm,
            total_blocks_produced: self.total_blocks_produced,
            total_blocks_missed: self.total_blocks_missed,
            total_rewards_earned: self.total_rewards_earned,
            total_slashed: self.total_slashed,
            registered_at: self.registered_at,
            last_active: self.last_active,
            uptime_ppm: self.uptime_ppm,
        }
    }
}

impl StakeInfo {
    /// A field-by-field copy.
    pub fn duplicate(&self) -> (r: StakeInfo)
        ensures
            r == *self,
    {
        StakeInfo {
            staker_address: self.staker_address.clone(),
            validator_address: self.validator_address.clone(),
            amount: self.amount,
            staked_at: self.staked_at,
            pending_rewards: self.pending_rewards,
            unbonding_amount: self.unbonding_amount,
            unbonding_completion: self.unbonding_completion,
        }
    }
}

impl SlashReason {
    /// A variant-by-variant copy.
    pub fn duplicate(&self) -> (r: SlashReason)
        ensures
            r == *self,
    {
        match self {
            SlashReason::DoubleSign => SlashReason::DoubleSign,
            SlashReason::Downtime => SlashReason::Downtime,
            SlashReason::InvalidBlock => SlashReason::InvalidBlock,
            SlashReason::Misbehavior { description } => SlashReason::Misbehavior {
                description: description.clone(),
            },
        }
    }
}

/// The key a delegation is filed under: "<staker>:<validator>".
pub open spec fn stake_key(staker: Seq<char>, validator: Seq<char>) -> Seq<char> {
    staker + ":"@ + validator
}

/// Two slash events that agree in every field, the evidence compared by its bytes.
pub open spec fn same_event(a: SlashEvent, b: SlashEvent) -> bool {
    &&& a.event_id == b.event_id
    &&& a.validator_address == b.validator_address
    &&& a.reason == b.reason
    &&& a.amount_slashed == b.amount_slashed
    &&& a.timestamp == b.timestamp
    &&& a.evidence@ == b.evidence@
}

/// The amount a slash of `ppm` parts per million takes from `stake`, rounded down.
pub open spec fn slash_amount(stake: u64, ppm: u64) -> int {
    (stake as int * ppm as int) / (PPM as int)
}

/// The share of blocks produced, in parts per million, rounded down.
pub open spec fn uptime_spec(produced: u64, missed: u64) -> int {
    (produced as int * PPM as int) / (produced as int + missed as int)
}

/// A newly registered validator.
pub open spec fn fresh_validator(address: String, public_key: String, stake_amount: u64, commission_rate_ppm: u64, now: u64) -> Validator {
    Validator {
        address,
        public_key,
        status: ValidatorStatus::Active,
        stake_amount,
        commission_rate_ppm,
        total_blocks_produced: 0,
        total_blocks_missed: 0,
        total_rewards_earned: 0,
        total_slashed: 0,
        registered_at: now,
        last_active: now,
        uptime_ppm: PPM,
    }
}

/// The stake a validator puts up itself at registration.
pub open spec fn self_stake(address: String, amount: u64, now: u64) -> StakeInfo {
    StakeInfo {
        staker_address: address,
        validator_address: address,
        amount,
        staked_at: now,
        pending_rewards: 0,
        unbonding_amount: 0,
        unbonding_completion: None,
    }
}

/// A new delegation.
pub open spec fn fresh_stake(staker: String, validator_address: String, amount: u64, now: u64) -> StakeInfo {
    StakeInfo {
        staker_address: staker,
        validator_address,
        amount,
        staked_at: now,
        pending_rewards: 0,
        unbonding_amount: 0,
        unbonding_completion: None,
    }
}

/// A quantity of each validator, added up over `s`.
pub open spec fn total_of(s: Seq<Validator>, f: spec_fn(Validator) -> nat) -> nat
    decreases s.len(),
{
    if s.len() == 0 {
        0
    } else {
        total_of(s.drop_last(), f) + f(s.last())
    }
}

/// A validator's stake if it is active, else nothing.
pub open spec fn active_stake_f() -> spec_fn(Validator) -> nat {
    |v: Validator| if v.status is Active { v.stake_amount as nat } else { 0 }
}

/// The summed stake of the active validators in `s`.
pub open spec fn active_stake(s: Seq<Validator>) -> nat {
    total_of(s, active_stake_f())
}

/// An active validator's reward: its stake's proportion of `total_rewards`, rounded down.
pub open spec fn reward_share(total_rewards: u64, stake: u64, stake_sum: nat) -> int {
    (total_rewards as int * stake as int) / (stake_sum as int)
}

/// The commission a validator keeps of `reward`, rounded down.
pub open spec fn commission_share(reward: int, ppm: u64) -> int {
    (reward * ppm as int) / (PPM as int)
}

/// The active validators of `s`, each with its reward, in order.
pub open spec fn reward_entries(s: Seq<Validator>, total_rewards: u64, stake_sum: nat) -> Seq<(String, u64)>
    decreases s.len(),
{
    if s.len() == 0 {
        Seq::empty()
    } else {
        let r = reward_entries(s.drop_last(), total_rewards, stake_sum);
        let v = s.last();
        if v.status is Active {
            r.push((v.address, reward_share(total_rewards, v.stake_amount, stake_sum) as u64))
        } else {
            r
        }
    }
}

/// The validators after each active one in `s` is credited its reward.
pub open spec fn credit_validators(m: Map<Seq<char>, Validator>, s: Seq<Validator>, total_rewards: u64, stake_sum: nat) -> Map<Seq<char>, Validator>
    decreases s.len(),
{
    if s.len() == 0 {
        m
    } else {
        let m0 = credit_validators(m, s.drop_last(), total_rewards, stake_sum);
        let v = s.last();
        if v.status is Active {
            m0.insert(v.address@, Validator {
                total_rewards_earned: (v.total_rewards_earned + reward_share(total_rewards, v.stake_amount, stake_sum)) as u64,
                ..v
            })
        } else {
            m0
        }
    }
}

/// The stakes after each active validator in `s` passes the part of its reward above its
/// commission to the stake filed under `stake_key(address, address)`, where there is one.
pub open spec fn credit_stakes(m: Map<Seq<char>, StakeInfo>, s: Seq<Validator>, total_rewards: u64, stake_sum: nat) -> Map<Seq<char>, StakeInfo>
    decreases s.len(),
{
    if s.len() == 0 {
        m
    } else {
        let m0 = credit_stakes(m, s.drop_last(), total_rewards, stake_sum);
        let v = s.last();
        let key = stake_key(v.address@, v.address@);
        let reward = reward_share(total_rewards, v.stake_amount, stake_sum);
        if v.status is Active && m0.dom().contains(key) {
            m0.insert(key, StakeInfo {
                pending_rewards: (m0[key].pending_rewards + reward - commission_share(reward, v.commission_rate_ppm)) as u64,
                ..m0[key]
            })
        } else {
            m0
        }
    }
}

/// Two distributions that agree in every field, the rewards compared as sequences.
pub open spec fn same_distribution(a: RewardDistribution, b: RewardDistribution) -> bool {
    &&& a.distribution_id == b.distribution_id
    &&& a.epoch == b.epoch
    &&& a.total_rewards == b.total_rewards
    &&& a.rewards_per_validator@ == b.rewards_per_validator@
    &&& a.timestamp == b.timestamp
}

/// A prefix adds up to no more than the whole.
pub proof fn lemma_total_of_take(s: Seq<Validator>, f: spec_fn(Validator) -> nat, i: int)
    requires
        0 <= i <= s.len(),
    ensures
        total_of(s.take(i), f) <= total_of(s, f),
        i < s.len() ==> total_of(s.take(i + 1), f) == total_of(s.take(i), f) + f(s[i]),
    decreases s.len(),
{
    if i < s.len() {
        assert(s.take(i + 1).drop_last() =~= s.take(i));
        if i + 1 < s.len() {
            assert(s.drop_last().take(i + 1) =~= s.take(i + 1));
            lemma_total_of_take(s.drop_last(), f, i + 1);
        } else {
            assert(s.take(i + 1) =~= s);
        }
    } else {
        assert(s.take(i) =~= s);
    }
}

/// Distinct addresses give distinct self-delegation keys.
pub proof fn lemma_stake_key_injective(a: Seq<char>, b: Seq<char>)
    requires
        a != b,
    ensures
        stake_key(a, a) != stake_key(b, b),
{
    reveal_strlit(":");
    assert(":"@.len() == 1);
    if stake_key(a, a) == stake_key(b, b) {
        assert(stake_key(a, a).len() == 2 * a.len() + 1);
        assert(stake_key(b, b).len() == 2 * b.len() + 1);
        assert(a.len() == b.len());
        assert(stake_key(a, a).subrange(0, a.len() as int) =~= a);
        assert(stake_key(b, b).subrange(0, b.len() as int) =~= b);
    }
}

/// Crediting never adds a stake, and leaves alone a stake that no validator of `s` owns.
pub proof fn lemma_credit_stakes_untouched(m: Map<Seq<char>, StakeInfo>, s: Seq<Validator>, total_rewards: u64, stake_sum: nat, key: Seq<char>)
    requires
        forall|i: int| 0 <= i < s.len() ==> stake_key(s[i].address@, s[i].address@) != key,
    ensures
        credit_stakes(m, s, total_rewards, stake_sum).dom() == m.dom(),
        m.dom().contains(key) ==> credit_stakes(m, s, total_rewards, stake_sum)[key] == m[key],
    decreases s.len(),
{
    if s.len() > 0 {
        lemma_credit_stakes_untouched(m, s.drop_last(), total_rewards, stake_sum, key);
        let m0 = credit_stakes(m, s.drop_last(), total_rewards, stake_sum);
        let v = s.last();
        let k = stake_key(v.address@, v.address@);
        if v.status is Active && m0.dom().contains(k) {
            assert(m0.insert(k, m0[k]).dom() =~= m0.dom());
        }
    }
}

/// Validators, their stakes, slash events and reward distributions.
pub struct ValidatorManager {
    validators: StrMap<Validator>,
    stakes: StrMap<StakeInfo>,
    slash_events: IdMap<SlashEvent>,
    reward_pool: IdMap<RewardDistribution>,
    total_stake: u64,
    min_stake: u64,
    slash_counter: u64,
    reward_counter: u64,
}

impl ValidatorManager {
    /// The validators, by address.
    pub closed spec fn validators(&self) -> Map<Seq<char>, Validator> {
        self.validators@
    }

    /// The validators, in registration order.
    pub closed spec fn validator_list(&self) -> Seq<Validator> {
        self.validators.values()
    }

    /// The stakes, by key: a validator's own stake under its address, a delegation under
    /// `stake_key(staker, validator)`.
    pub closed spec fn stakes(&self) -> Map<Seq<char>, StakeInfo> {
        self.stakes@
    }

    /// The slash events, by id.
    pub closed spec fn slash_events(&self) -> Map<u64, SlashEvent> {
        self.slash_events@
    }

    /// The reward distributions, by id.
    pub closed spec fn distributions(&self) -> Map<u64, RewardDistribution> {
        self.reward_pool@
    }

    pub closed spec fn total_stake(&self) -> u64 {
        self.total_stake
    }

    pub closed spec fn min_stake(&self) -> u64 {
        self.min_stake
    }

    /// The id the next slash event gets.
    pub closed spec fn slash_counter(&self) -> u64 {
        self.slash_counter
    }

    /// The id the next reward distribution gets.
    pub closed spec fn reward_counter(&self) -> u64 {
        self.reward_counter
    }

    /// Every validator is filed under its own address, with a commission and an uptime of
    /// at most one whole.
    pub open spec fn validators_wf(m: Map<Seq<char>, Validator>) -> bool {
        forall|k: Seq<char>| #[trigger] m.dom().contains(k) ==> {
            &&& m[k].address@ == k
            &&& m[k].commission_rate_ppm <= PPM
            &&& m[k].uptime_ppm <= PPM
        }
    }

    pub closed spec fn wf(&self) -> bool {
        &&& self.validators.wf()
        &&& self.stakes.wf()
        &&& self.slash_events.wf()
        &&& self.reward_pool.wf()
        &&& Self::validators_wf(self.validators@)
    }

    /// A manager with no validators that asks at least `min_stake` of a new one.
    pub fn new(min_stake: u64) -> (m: Self)
        ensures
            m.wf(),
            m.validators() == Map::<Seq<char>, Validator>::empty(),
            m.validator_list() == Seq::<Validator>::empty(),
            m.stakes() == Map::<Seq<char>, StakeInfo>::empty(),
            m.slash_events() == Map::<u64, SlashEvent>::empty(),
            m.distributions() == Map::<u64, RewardDistribution>::empty(),
            m.total_stake() == 0,
            m.min_stake() == min_stake,
            m.slash_counter() == 0,
            m.reward_counter() == 0,
    {
        let m = ValidatorManager {
            validators: StrMap::new(),
            stakes: StrMap::new(),
            slash_events: IdMap::new(),
            reward_pool: IdMap::new(),
            total_stake: 0,
            min_stake,
            slash_counter: 0,
            reward_counter: 0,
        };
        assert(m.validator_list() =~= Seq::<Validator>::empty());
        m
    }

    /// What registering `address` with `stake_amount` and commission `ppm` answers.
    pub open spec fn register_result(&self, address: Seq<char>, stake_amount: u64, ppm: u64) -> Result<(), ValidatorError> {
        if stake_amount < self.min_stake() {
            Err(ValidatorError::StakeBelowMinimum)
        } else if ppm > PPM {
            Err(ValidatorError::InvalidCommissionRate)
        } else if self.validators().dom().contains(address) {
            Err(ValidatorError::AlreadyRegistered)
        } else {
            Ok(())
        }
    }

    /// A successful registration at time `now`: the validator is added, active, and its own
    /// stake is filed under its address; the total stake grows by the stake (wrapping).
    pub open spec fn registered(&self, next: &Self, address: String, public_key: String, stake_amount: u64, ppm: u64, now: u64) -> bool {
        &&& next.validators() == self.validators().insert(address@, fresh_validator(address, public_key, stake_amount, ppm, now))
        &&& next.validator_list() == self.validator_list().push(fresh_validator(address, public_key, stake_amount, ppm, now))
        &&& next.stakes() == self.stakes().insert(address@, self_stake(address, stake_amount, now))
        &&& next.total_stake() == (self.total_stake() + stake_amount) % 0x1_0000_0000_0000_0000
        &&& next.slash_events() == self.slash_events()
        &&& next.distributions() == self.distributions()
        &&& next.min_stake() == self.min_stake()
        &&& next.slash_counter() == self.slash_counter()
        &&& next.reward_counter() == self.reward_counter()
    }

    /// Register a validator at time `now`. Refused when the stake is below the minimum, the
    /// commission above one whole, or the address already registered.
    pub fn register_validator_at(&mut self, address: String, public_key: String, stake_amount: u64, commission_rate_ppm: u64, now: u64) -> (r: Result<(), ValidatorError>)
        requires
            old(self).wf(),
        ensures
            final(self).wf(),
            r == old(self).register_result(address@, stake_amount, commission_rate_ppm),
            r is Ok ==> old(self).registered(final(self), address, public_key, stake_amount, commission_rate_ppm, now),
            r is Err ==> *final(self) == *old(self),
    {
        if stake_amount < self.min_stake {
            return Err(ValidatorError::StakeBelowMinimum);
        }
        if commission_rate_ppm > PPM {
            return Err(ValidatorError::InvalidCommissionRate);
        }
        if self.validators.contains_key(address.as_str()) {
            return Err(ValidatorError::AlreadyRegistered);
        }
        let validator = Validator {
            address: address.clone(),
            public_key,
            status: ValidatorStatus::Active,
            stake_amount,
            commission_rate_ppm,
            total_blocks_produced: 0,
            total_blocks_missed: 0,
            total_rewards_earned: 0,
            total_slashed: 0,
            registered_at: now,
            last_active: now,
            uptime_ppm: PPM,
        };
        let ghost v = validator;
        let ghost e0 = self.validators.entries();
        self.validators.insert(address.clone(), validator);
        let stake = StakeInfo {
            staker_address: address.clone(),
            validator_address: address.clone(),
            amount: stake_amount,
            staked_at: now,
            pending_rewards: 0,
            unbonding_amount: 0,
            unbonding_completion: None,
        };
        self.stakes.insert(address, stake);
        self.total_stake = self.total_stake.wrapping_add(stake_amount);
        proof {
            assert(self.validators.entries() == e0.push((address, v)));
            assert(self.validators.values() =~= e0.map_values(|e: (String, Validator)| e.1).push(v));
        }
        Ok(())
    }

    /// Register a validator now, by the wall clock (see `register_validator_at`).
    pub fn register_validator(&mut self, address: String, public_key: String, stake_amount: u64, commission_rate_ppm: u64) -> (r: Result<(), ValidatorError>)
        requires
            old(self).wf(),
        ensures
            final(self).wf(),
            r == old(self).register_result(address@, stake_amount, commission_rate_ppm),
            r is Ok ==> exists|now: u64| #[trigger] old(self).registered(final(self), address, public_key, stake_amount, commission_rate_ppm, now),
            r is Err ==> *final(self) == *old(self),
    {
        let now = now_secs();
        self.register_validator_at(address, public_key, stake_amount, commission_rate_ppm, now)
    }
    /// The position of `address` among the validators, if registered.
    fn validator_pos(&self, address: &str) -> (r: Option<usize>)
        requires
            self.wf(),
        ensures
            match r {
                Some(i) => i < self.validators.entries().len() && self.validators.entries()[i as int].0@ == address@
                    && self.validators()[address@] == self.validators.entries()[i as int].1
                    && self.validators().dom().contains(address@),
                None => !self.validators().dom().contains(address@),
            },
    {
        proof {
            self.validators.lemma_view();
        }
        self.validators.position(address)
    }

    /// Replace the validator at position `i` by `v`, filed under the same address.
    fn set_validator(&mut self, i: usize, v: Validator)
        requires
            old(self).wf(),
            i < old(self).validators.entries().len(),
            v.address@ == old(self).validators.entries()[i as int].0@,
            v.commission_rate_ppm <= PPM,
            v.uptime_ppm <= PPM,
        ensures
            final(self).wf(),
            final(self).validators() == old(self).validators().insert(v.address@, v),
            final(self).stakes() == old(self).stakes(),
            final(self).slash_events() == old(self).slash_events(),
            final(self).distributions() == old(self).distributions(),
            final(self).total_stake() == old(self).total_stake(),
            final(self).min_stake() == old(self).min_stake(),
            final(self).slash_counter() == old(self).slash_counter(),
            final(self).reward_counter() == old(self).reward_counter(),
            final(self).validators.entries().len() == old(self).validators.entries().len(),
            final(self).validators.entries() == old(self).validators.entries().update(i as int, (old(self).validators.entries()[i as int].0, v)),
    {
        self.validators.set_value_at(i, v);
    }

    /// What delegating to `validator_address` answers.
    pub open spec fn delegate_result(&self, validator_address: Seq<char>) -> Result<(), ValidatorError> {
        if self.validators().dom().contains(validator_address) {
            Ok(())
        } else {
            Err(ValidatorError::ValidatorNotFound)
        }
    }

    /// A successful delegation of `amount` from `staker` at time `now`: the delegation under
    /// `stake_key(staker, validator)` grows by `amount` (or is created), and so do the
    /// validator's stake and (wrapping) the total stake.
    pub open spec fn delegated(&self, next: &Self, staker: String, validator_address: String, amount: u64, now: u64) -> bool {
        let key = stake_key(staker@, validator_address@);
        let v = self.validators()[validator_address@];
        &&& next.stakes() == if self.stakes().dom().contains(key) {
            self.stakes().insert(key, StakeInfo { amount: (self.stakes()[key].amount + amount) as u64, ..self.stakes()[key] })
        } else {
            self.stakes().insert(key, fresh_stake(staker, validator_address, amount, now))
        }
        &&& next.validators() == self.validators().insert(validator_address@, Validator { stake_amount: (v.stake_amount + amount) as u64, ..v })
        &&& next.total_stake() == self.total_stake().wrapping_add(amount)
        &&& next.slash_events() == self.slash_events()
        &&& next.distributions() == self.distributions()
        &&& next.min_stake() == self.min_stake()
        &&& next.slash_counter() == self.slash_counter()
        &&& next.reward_counter() == self.reward_counter()
    }

    /// The additions a delegation makes fit in 64 bits.
    pub open spec fn delegate_fits(&self, staker: Seq<char>, validator_address: Seq<char>, amount: u64) -> bool {
        let key = stake_key(staker, validator_address);
        self.validators().dom().contains(validator_address) ==> {
            &&& self.validators()[validator_address].stake_amount + amount <= u64::MAX
            &&& self.stakes().dom().contains(key) ==> self.stakes()[key].amount + amount <= u64::MAX
        }
    }

    /// Delegate `amount` of stake from `staker` to a registered validator, at time `now`.
    pub fn delegate_stake_at(&mut self, staker: String, validator_address: String, amount: u64, now: u64) -> (r: Result<(), ValidatorError>)
        requires
            old(self).wf(),
            old(self).delegate_fits(staker@, validator_address@, amount),
        ensures
            final(self).wf(),
            r == old(self).delegate_result(validator_address@),
            r is Ok ==> old(self).delegated(final(self), staker, validator_address, amount, now),
            r is Err ==> *final(self) == *old(self),
    {
        let i = match self.validator_pos(validator_address.as_str()) {
            None => return Err(ValidatorError::ValidatorNotFound),
            Some(i) => i,
        };
        let mut key = staker.clone();
        push_str(&mut key, ":");
        push_str(&mut key, validator_address.as_str());
        assert(key@ == stake_key(staker@, validator_address@));
        proof {
            self.stakes.lemma_view();
        }
        match self.stakes.position(key.as_str()) {
            Some(p) => {
                let mut st = self.stakes.value_at(p).duplicate();
                st.amount = st.amount + amount;
                self.stakes.set_value_at(p, st);
            },
            None => {
                let st = StakeInfo {
                    staker_address: staker,
                    validator_address: validator_address.clone(),
                    amount,
                    staked_at: now,
                    pending_rewards: 0,
                    unbonding_amount: 0,
                    unbonding_completion: None,
                };
                self.stakes.insert(key, st);
            },
        }
        let mut v = self.validators.value_at(i).duplicate();
        v.stake_amount = v.stake_amount + amount;
        self.set_validator(i, v);
        self.total_stake = self.total_stake.wrapping_add(amount);
        Ok(())
    }

    /// Delegate stake now, by the wall clock (see `delegate_stake_at`).
    pub fn delegate_stake(&mut self, staker: String, validator_address: String, amount: u64) -> (r: Result<(), ValidatorError>)
        requires
            old(self).wf(),
            old(self).delegate_fits(staker@, validator_address@, amount),
        ensures
            final(self).wf(),
            r == old(self).delegate_result(validator_address@),
            r is Ok ==> exists|now: u64| #[trigger] old(self).delegated(final(self), staker, validator_address, amount, now),
            r is Err ==> *final(self) == *old(self),
    {
        let now = now_secs();
        self.delegate_stake_at(staker, validator_address, amount, now)
    }

    /// What unbonding `amount` from the stake under `key` at time `now` answers: the unlock
    /// time, seven days on.
    pub open spec fn unbond_result(&self, key: Seq<char>, amount: u64, now: u64) -> Result<u64, ValidatorError> {
        if !self.stakes().dom().contains(key) {
            Err(ValidatorError::StakeNotFound)
        } else if self.stakes()[key].amount < amount {
            Err(ValidatorError::InsufficientStake)
        } else {
            Ok((now + UNBONDING_PERIOD) as u64)
        }
    }

    /// A successful unbonding of `amount`, unlocking at `unlock_time`: it moves from the
    /// stake's amount to its unbonding amount; the validator, if registered, loses it from
    /// its stake and is marked unbonding; the total stake shrinks by it (wrapping).
    pub open spec fn unbonded(&self, next: &Self, staker: Seq<char>, validator_address: Seq<char>, amount: u64, unlock_time: u64) -> bool {
        let key = stake_key(staker, validator_address);
        let s = self.stakes()[key];
        let v = self.validators()[validator_address];
        &&& next.stakes() == self.stakes().insert(key, StakeInfo {
            amount: (s.amount - amount) as u64,
            unbonding_amount: (s.unbonding_amount + amount) as u64,
            unbonding_completion: Some(unlock_time),
            ..s
        })
        &&& next.validators() == if self.validators().dom().contains(validator_address) {
            self.validators().insert(validator_address, Validator {
                stake_amount: (v.stake_amount - amount) as u64,
                status: ValidatorStatus::Unbonding { unlock_time },
                ..v
            })
        } else {
            self.validators()
        }
        &&& next.total_stake() == self.total_stake().wrapping_sub(amount)
        &&& next.slash_events() == self.slash_events()
        &&& next.distributions() == self.distributions()
        &&& next.min_stake() == self.min_stake()
        &&& next.slash_counter() == self.slash_counter()
        &&& next.reward_counter() == self.reward_counter()
    }

    /// What an unbonding that goes ahead needs: its unbonding amount fits, and the validator,
    /// if registered, holds at least `amount`.
    pub open spec fn unbond_fits(&self, staker: Seq<char>, validator_address: Seq<char>, amount: u64) -> bool {
        let key = stake_key(staker, validator_address);
        (self.stakes().dom().contains(key) && self.stakes()[key].amount >= amount) ==> {
            &&& self.stakes()[key].unbonding_amount + amount <= u64::MAX
            &&& self.validators().dom().contains(validator_address) ==> self.validators()[validator_address].stake_amount >= amount
        }
    }

    /// Start unbonding `amount` of the stake `staker` delegated to `validator_address`, at time
    /// `now`; answers the unlock time.
    pub fn unbond_stake_at(&mut self, staker: String, validator_address: String, amount: u64, now: u64) -> (r: Result<u64, ValidatorError>)
        requires
            old(self).wf(),
            old(self).unbond_fits(staker@, validator_address@, amount),
            now + UNBONDING_PERIOD <= u64::MAX,
        ensures
            final(self).wf(),
            r == old(self).unbond_result(stake_key(staker@, validator_address@), amount, now),
            r matches Ok(t) ==> old(self).unbonded(final(self), staker@, validator_address@, amount, t),
            r is Err ==> *final(self) == *old(self),
    {
        let mut key = staker.clone();
        push_str(&mut key, ":");
        push_str(&mut key, validator_address.as_str());
        assert(key@ == stake_key(staker@, validator_address@));
        proof {
            self.stakes.lemma_view();
        }
        let p = match self.stakes.position(key.as_str()) {
            None => return Err(ValidatorError::StakeNotFound),
            Some(p) => p,
        };
        if self.stakes.value_at(p).amount < amount {
            return Err(ValidatorError::InsufficientStake);
        }
        let unlock_time = now + UNBONDING_PERIOD;
        let mut st = self.stakes.value_at(p).duplicate();
        st.amount = st.amount - amount;
        st.unbonding_amount = st.unbonding_amount + amount;
        st.unbonding_completion = Some(unlock_time);
        self.stakes.set_value_at(p, st);
        match self.validator_pos(validator_address.as_str()) {
            Some(i) => {
                let mut v = self.validators.value_at(i).duplicate();
                v.stake_amount = v.stake_amount - amount;
                v.status = ValidatorStatus::Unbonding { unlock_time };
                self.set_validator(i, v);
            },
            None => {},
        }
        self.total_stake = self.total_stake.wrapping_sub(amount);
        Ok(unlock_time)
    }

    /// Start unbonding now, by the wall clock (see `unbond_stake_at`). A missing or too small
    /// stake is refused before the clock is read; a valid request is refused with
    /// `ClockOutOfRange` only when the clock reads so late that the unlock time would not fit.
    pub fn unbond_stake(&mut self, staker: String, validator_address: String, amount: u64) -> (r: Result<u64, ValidatorError>)
        requires
            old(self).wf(),
            old(self).unbond_fits(staker@, validator_address@, amount),
        ensures
            final(self).wf(),
            r is Err ==> *final(self) == *old(self),
            r != Err::<u64, ValidatorError>(ValidatorError::ClockOutOfRange) ==> exists|now: u64|
                now + UNBONDING_PERIOD <= u64::MAX
                && r == #[trigger] old(self).unbond_result(stake_key(staker@, validator_address@), amount, now),
            r matches Ok(t) ==> old(self).unbonded(final(self), staker@, validator_address@, amount, t),
            old(self).unbond_result(stake_key(staker@, validator_address@), amount, 0) is Err ==> r
                == old(self).unbond_result(stake_key(staker@, validator_address@), amount, 0),
            r == Err::<u64, ValidatorError>(ValidatorError::ClockOutOfRange) ==> {
                &&& old(self).unbond_result(stake_key(staker@, validator_address@), amount, 0) is Ok
                &&& exists|now: u64| #[trigger] reads_past(now, u64::MAX - UNBONDING_PERIOD)
            },
    {
        let mut key = staker.clone();
        push_str(&mut key, ":");
        push_str(&mut key, validator_address.as_str());
        assert(key@ == stake_key(staker@, validator_address@));
        proof {
            self.stakes.lemma_view();
        }
        match self.stakes.position(key.as_str()) {
            None => {
                return Err(ValidatorError::StakeNotFound);
            },
            Some(p) => {
                if self.stakes.value_at(p).amount < amount {
                    return Err(ValidatorError::InsufficientStake);
                }
            },
        }
        let now = now_secs();
        if now > u64::MAX - UNBONDING_PERIOD {
            proof {
                assert(reads_past(now, u64::MAX - UNBONDING_PERIOD));
            }
            return Err(ValidatorError::ClockOutOfRange);
        }
        self.unbond_stake_at(staker, validator_address, amount, now)
    }

    /// What slashing `validator_address` answers.
    pub open spec fn slash_result(&self, validator_address: Seq<char>) -> Result<(), ValidatorError> {
        if self.validators().dom().contains(validator_address) {
            Ok(())
        } else {
            Err(ValidatorError::ValidatorNotFound)
        }
    }

    /// A successful slash of `ppm` parts per million of the validator's stake at time `now`,
    /// answered by `e`: the validator loses the amount, which is added to its slashed total,
    /// and is marked slashed; the total stake shrinks by it (wrapping); the event is filed
    /// under the next slash id.
    pub open spec fn slashed(&self, next: &Self, validator_address: String, reason: SlashReason, ppm: u64, evidence: Seq<u8>, now: u64, e: SlashEvent) -> bool {
        let v = self.validators()[validator_address@];
        let amount = slash_amount(v.stake_amount, ppm);
        let id = self.slash_counter();
        &&& next.validators() == self.validators().insert(validator_address@, Validator {
            stake_amount: (v.stake_amount - amount) as u64,
            total_slashed: (v.total_slashed + amount) as u64,
            status: ValidatorStatus::Slashed,
            ..v
        })
        &&& next.total_stake() == self.total_stake().wrapping_sub(amount as u64)
        &&& e.event_id == id
        &&& e.validator_address == validator_address
        &&& e.reason == reason
        &&& e.amount_slashed == amount
        &&& e.timestamp == now
        &&& e.evidence@ == evidence
        &&& next.slash_events() == self.slash_events().insert(id, next.slash_events()[id])
        &&& same_event(next.slash_events()[id], e)
        &&& next.slash_counter() == self.slash_counter().wrapping_add(1)
        &&& next.stakes() == self.stakes()
        &&& next.distributions() == self.distributions()
        &&& next.min_stake() == self.min_stake()
        &&& next.reward_counter() == self.reward_counter()
    }

    /// A slash of `ppm` takes no more than the validator holds, and its slashed total fits.
    pub open spec fn slash_fits(&self, validator_address: Seq<char>, ppm: u64) -> bool {
        let v = self.validators()[validator_address];
        self.validators().dom().contains(validator_address) ==> {
            &&& slash_amount(v.stake_amount, ppm) <= v.stake_amount
            &&& v.total_slashed + slash_amount(v.stake_amount, ppm) <= u64::MAX
        }
    }

    /// Slash a validator by `slash_ppm` parts per million of its stake, at time `now`.
    pub fn slash_validator_at(&mut self, validator_address: String, reason: SlashReason, slash_ppm: u64, evidence: Vec<u8>, now: u64) -> (r: Result<SlashEvent, ValidatorError>)
        requires
            old(self).wf(),
            old(self).slash_fits(validator_address@, slash_ppm),
        ensures
            final(self).wf(),
            r is Err ==> r == Err::<SlashEvent, ValidatorError>(ValidatorError::ValidatorNotFound) && old(self).slash_result(validator_address@) is Err && *final(self) == *old(self),
            r is Ok <==> old(self).slash_result(validator_address@) is Ok,
            r matches Ok(e) ==> old(self).slashed(final(self), validator_address, reason, slash_ppm, evidence@, now, e),
    {
        let i = match self.validator_pos(validator_address.as_str()) {
            None => return Err(ValidatorError::ValidatorNotFound),
            Some(i) => i,
        };
        let mut v = self.validators.value_at(i).duplicate();
        let stake = v.stake_amount;
        let amount: u64 = if slash_ppm <= PPM {
            mul_div(stake, slash_ppm, PPM)
        } else {
            let w: u128 = crate::util::mul_wide(stake, slash_ppm);
            (w / (PPM as u128)) as u64
        };
        assert(amount == slash_amount(stake, slash_ppm));
        v.stake_amount = stake - amount;
        v.total_slashed = v.total_slashed + amount;
        v.status = ValidatorStatus::Slashed;
        self.set_validator(i, v);
        self.total_stake = self.total_stake.wrapping_sub(amount);
        let id = self.slash_counter;
        self.slash_counter = self.slash_counter.wrapping_add(1);
        let stored = SlashEvent {
            event_id: id,
            validator_address: validator_address.clone(),
            reason: reason.duplicate(),
            amount_slashed: amount,
            timestamp: now,
            evidence: copy_vec(&evidence),
        };
        self.slash_events.insert(id, stored);
        Ok(SlashEvent {
            event_id: id,
            validator_address,
            reason,
            amount_slashed: amount,
            timestamp: now,
            evidence,
        })
    }

    /// Slash a validator now, by the wall clock (see `slash_validator_at`).
    pub fn slash_validator(&mut self, validator_address: String, reason: SlashReason, slash_ppm: u64, evidence: Vec<u8>) -> (r: Result<SlashEvent, ValidatorError>)
        requires
            old(self).wf(),
            old(self).slash_fits(validator_address@, slash_ppm),
        ensures
            final(self).wf(),
            r is Err ==> r == Err::<SlashEvent, ValidatorError>(ValidatorError::ValidatorNotFound) && old(self).slash_result(validator_address@) is Err && *final(self) == *old(self),
            r is Ok <==> old(self).slash_result(validator_address@) is Ok,
            r matches Ok(e) ==> exists|now: u64| #[trigger] old(self).slashed(final(self), validator_address, reason, slash_ppm, evidence@, now, e),
    {
        let now = now_secs();
        self.slash_validator_at(validator_address, reason, slash_ppm, evidence, now)
    }

    /// A validator after a block is recorded for it at time `now`: produced or missed.
    pub open spec fn recorded(v: Validator, missed: bool, now: u64) -> Validator {
        let produced = if missed { v.total_blocks_produced } else { (v.total_blocks_produced + 1) as u64 };
        let miss = if missed { (v.total_blocks_missed + 1) as u64 } else { v.total_blocks_missed };
        Validator {
            last_active: now,
            total_blocks_produced: produced,
            total_blocks_missed: miss,
            uptime_ppm: uptime_spec(produced, miss) as u64,
            ..v
        }
    }

    /// The counters a recorded block raises fit in 64 bits.
    pub open spec fn record_fits(&self, address: Seq<char>) -> bool {
        let v = self.validators()[address];
        self.validators().dom().contains(address) ==> v.total_blocks_produced + v.total_blocks_missed + 1 <= u64::MAX
    }

    /// Record, at time `now`, that a validator produced a block or missed one; its uptime
    /// becomes the share of blocks produced. Nothing happens for an unknown address.
    pub fn record_block_at(&mut self, validator_address: &str, missed: bool, now: u64)
        requires
            old(self).wf(),
            old(self).record_fits(validator_address@),
        ensures
            final(self).wf(),
            old(self).validators().dom().contains(validator_address@) ==> final(self).validators()
                == old(self).validators().insert(validator_address@, Self::recorded(old(self).validators()[validator_address@], missed, now)),
            !old(self).validators().dom().contains(validator_address@) ==> final(self).validators() == old(self).validators(),
            final(self).stakes() == old(self).stakes(),
            final(self).slash_events() == old(self).slash_events(),
            final(self).distributions() == old(self).distributions(),
            final(self).total_stake() == old(self).total_stake(),
            final(self).min_stake() == old(self).min_stake(),
            final(self).slash_counter() == old(self).slash_counter(),
            final(self).reward_counter() == old(self).reward_counter(),
    {
        match self.validator_pos(validator_address) {
            Some(i) => {
                let mut v = self.validators.value_at(i).duplicate();
                v.last_active = now;
                if missed {
                    v.total_blocks_missed = v.total_blocks_missed + 1;
                } else {
                    v.total_blocks_produced = v.total_blocks_produced + 1;
                }
                let total = v.total_blocks_produced + v.total_blocks_missed;
                v.uptime_ppm = mul_div(PPM, v.total_blocks_produced, total);
                proof {
                    assert(PPM as int * v.total_blocks_produced as int == v.total_blocks_produced as int * PPM as int) by (nonlinear_arith);
                }
                self.set_validator(i, v);
            },
            None => {},
        }
    }

    /// Record a block now, by the wall clock (see `record_block_at`).
    pub fn record_block(&mut self, validator_address: &str, missed: bool)
        requires
            old(self).wf(),
            old(self).record_fits(validator_address@),
        ensures
            final(self).wf(),
            old(self).validators().dom().contains(validator_address@) ==> exists|now: u64| final(self).validators()
                == old(self).validators().insert(validator_address@, #[trigger] Self::recorded(old(self).validators()[validator_address@], missed, now)),
            !old(self).validators().dom().contains(validator_address@) ==> final(self).validators() == old(self).validators(),
            final(self).stakes() == old(self).stakes(),
            final(self).slash_events() == old(self).slash_events(),
            final(self).distributions() == old(self).distributions(),
            final(self).total_stake() == old(self).total_stake(),
            final(self).min_stake() == old(self).min_stake(),
            final(self).slash_counter() == old(self).slash_counter(),
            final(self).reward_counter() == old(self).reward_counter(),
    {
        let now = now_secs();
        self.record_block_at(validator_address, missed, now)
    }

    /// The validator registered at `address`, if any.
    pub fn get_validator(&self, address: &str) -> (r: Option<Validator>)
        requires
            self.wf(),
        ensures
            r == if self.validators().dom().contains(address@) {
                Some(self.validators()[address@])
            } else {
                None::<Validator>
            },
    {
        match self.validator_pos(address) {
            Some(i) => Some(self.validators.value_at(i).duplicate()),
            None => None,
        }
    }

    /// Every validator, in registration order.
    pub fn get_all_validators(&self) -> (r: Vec<Validator>)
        ensures
            r@ == self.validator_list(),
    {
        let mut r: Vec<Validator> = Vec::new();
        let n = self.validators.len_entries();
        let mut i: usize = 0;
        while i < n
            invariant
                n == self.validators.entries().len(),
                0 <= i <= n,
                r@ == self.validator_list().take(i as int),
            decreases n - i,
        {
            let v = self.validators.value_at(i).duplicate();
            r.push(v);
            i = i + 1;
            assert(r@ =~= self.validator_list().take(i as int));
        }
        assert(self.validator_list().take(n as int) =~= self.validator_list());
        r
    }

    /// The active validators, in registration order.
    pub fn get_active_validators(&self) -> (r: Vec<Validator>)
        ensures
            r@ == self.validator_list().filter(|v: Validator| v.status is Active),
    {
        let ghost pred = |v: Validator| v.status is Active;
        let mut r: Vec<Validator> = Vec::new();
        let n = self.validators.len_entries();
        let mut i: usize = 0;
        while i < n
            invariant
                n == self.validators.entries().len(),
                0 <= i <= n,
                pred == (|v: Validator| v.status is Active),
                r@ == self.validator_list().take(i as int).filter(pred),
            decreases n - i,
        {
            let v = self.validators.value_at(i);
            proof {
                assert(self.validator_list().take(i + 1) =~= self.validator_list().take(i as int).push(*v));
                self.validator_list().take(i as int).lemma_filter_push(*v, pred);
            }
            if v.status == ValidatorStatus::Active {
                r.push(v.duplicate());
            }
            i = i + 1;
        }
        assert(self.validator_list().take(n as int) =~= self.validator_list());
        r
    }
    /// What distributing rewards answers: refused when no validator is active, or the active
    /// ones hold no stake.
    pub open spec fn distribute_result(&self) -> Result<(), ValidatorError> {
        if !(exists|i: int| 0 <= i < self.validator_list().len() && #[trigger] self.validator_list()[i].status is Active) {
            Err(ValidatorError::NoActiveValidators)
        } else if active_stake(self.validator_list()) == 0 {
            Err(ValidatorError::NoStake)
        } else {
            Ok(())
        }
    }

    /// The sums and credits a distribution of `total_rewards` makes fit in 64 bits.
    pub open spec fn distribute_fits(&self, total_rewards: u64) -> bool {
        let l = self.validator_list();
        let sum = active_stake(l);
        &&& sum <= u64::MAX
        &&& sum > 0 ==> forall|i: int| 0 <= i < l.len() && #[trigger] l[i].status is Active ==> {
            let reward = reward_share(total_rewards, l[i].stake_amount, sum);
            let key = stake_key(l[i].address@, l[i].address@);
            &&& l[i].total_rewards_earned + reward <= u64::MAX
            &&& self.stakes().dom().contains(key) ==> self.stakes()[key].pending_rewards + reward
                - commission_share(reward, l[i].commission_rate_ppm) <= u64::MAX
        }
    }

    /// A successful distribution of `total_rewards` for `epoch` at time `now`, answered by
    /// `d`: each active validator gets its stake's proportion, rounded down, added to its
    /// rewards earned; the part above its commission goes to the pending rewards of the stake
    /// under `stake_key(address, address)`, where there is one; `d` lists the rewards and is
    /// filed under the next distribution id.
    pub open spec fn distributed(&self, next: &Self, epoch: u64, total_rewards: u64, now: u64, d: RewardDistribution) -> bool {
        let l = self.validator_list();
        let sum = active_stake(l);
        let id = self.reward_counter();
        &&& d.distribution_id == id
        &&& d.epoch == epoch
        &&& d.total_rewards == total_rewards
        &&& d.timestamp == now
        &&& d.rewards_per_validator@ == reward_entries(l, total_rewards, sum)
        &&& next.validators() == credit_validators(self.validators(), l, total_rewards, sum)
        &&& next.stakes() == credit_stakes(self.stakes(), l, total_rewards, sum)
        &&& next.distributions() == self.distributions().insert(id, next.distributions()[id])
        &&& same_distribution(next.distributions()[id], d)
        &&& next.reward_counter() == self.reward_counter().wrapping_add(1)
        &&& next.total_stake() == self.total_stake()
        &&& next.slash_events() == self.slash_events()
        &&& next.min_stake() == self.min_stake()
        &&& next.slash_counter() == self.slash_counter()
    }

    /// The validators are filed under their addresses, in list order.
    proof fn lemma_list_keys(&self)
        requires
            self.wf(),
        ensures
            self.validator_list().len() == self.validators.entries().len(),
            forall|i: int| 0 <= i < self.validator_list().len() ==> {
                &&& #[trigger] self.validator_list()[i] == self.validators.entries()[i].1
                &&& self.validator_list()[i].address@ == self.validators.entries()[i].0@
                &&& self.validator_list()[i].commission_rate_ppm <= PPM
                &&& self.validator_list()[i].uptime_ppm <= PPM
                &&& self.validators()[self.validator_list()[i].address@] == self.validator_list()[i]
            },
            forall|i: int, j: int| 0 <= i < j < self.validator_list().len() ==> #[trigger] self.validator_list()[i].address@
                != #[trigger] self.validator_list()[j].address@,
    {
        self.validators.lemma_view();
        assert forall|i: int| 0 <= i < self.validator_list().len() implies {
            &&& #[trigger] self.validator_list()[i] == self.validators.entries()[i].1
            &&& self.validator_list()[i].address@ == self.validators.entries()[i].0@
            &&& self.validator_list()[i].commission_rate_ppm <= PPM
            &&& self.validator_list()[i].uptime_ppm <= PPM
            &&& self.validators()[self.validator_list()[i].address@] == self.validator_list()[i]
        } by {
            assert(self.validators@.dom().contains(self.validators.entries()[i].0@));
        }
        assert forall|i: int, j: int| 0 <= i < j < self.validator_list().len() implies #[trigger] self.validator_list()[i].address@
            != #[trigger] self.validator_list()[j].address@ by {
            assert(self.validators@.dom().contains(self.validators.entries()[i].0@));
            assert(self.validators@.dom().contains(self.validators.entries()[j].0@));
        }
    }

    /// A copy of a list of rewards.
    fn copy_rewards(v: &Vec<(String, u64)>) -> (r: Vec<(String, u64)>)
        ensures
            r@ == v@,
    {
        let mut r: Vec<(String, u64)> = Vec::new();
        let mut i: usize = 0;
        while i < v.len()
            invariant
                0 <= i <= v@.len(),
                r@ == v@.take(i as int),
            decreases v@.len() - i,
        {
            r.push((v[i].0.clone(), v[i].1));
            i = i + 1;
            assert(r@ =~= v@.take(i as int));
        }
        assert(v@.take(i as int) =~= v@);
        r
    }

    /// The summed stake of the active validators, and whether there is one.
    fn active_stake_sum(&self) -> (r: (bool, u64))
        requires
            self.wf(),
            active_stake(self.validator_list()) <= u64::MAX,
        ensures
            r.0 == exists|i: int| 0 <= i < self.validator_list().len() && #[trigger] self.validator_list()[i].status is Active,
            r.1 == active_stake(self.validator_list()),
    {
        let ghost l = self.validator_list();
        let n = self.validators.len_entries();
        let mut any = false;
        let mut sum: u64 = 0;
        let mut i: usize = 0;
        while i < n
            invariant
                n == l.len(),
                l == self.validator_list(),
                n == self.validators.entries().len(),
                0 <= i <= n,
                active_stake(l) <= u64::MAX,
                sum == active_stake(l.take(i as int)),
                any == exists|j: int| 0 <= j < i && #[trigger] l[j].status is Active,
            decreases n - i,
        {
            let v = self.validators.value_at(i);
            assert(*v == l[i as int]);
            proof {
                lemma_total_of_take(l, active_stake_f(), i as int);
                lemma_total_of_take(l, active_stake_f(), i + 1);
            }
            if v.status == ValidatorStatus::Active {
                any = true;
                sum = sum + v.stake_amount;
            }
            i = i + 1;
        }
        assert(l.take(n as int) =~= l);
        (any, sum)
    }

    /// Distribute `total_rewards` for `epoch` among the active validators in proportion to
    /// their stakes, at time `now`.
    #[verifier::rlimit(40)]
    pub fn distribute_rewards_at(&mut self, epoch: u64, total_rewards: u64, now: u64) -> (r: Result<RewardDistribution, ValidatorError>)
        requires
            old(self).wf(),
            old(self).distribute_fits(total_rewards),
        ensures
            final(self).wf(),
            r is Ok <==> old(self).distribute_result() is Ok,
            r matches Err(e) ==> old(self).distribute_result() == Err::<(), ValidatorError>(e) && *final(self) == *old(self),
            r matches Ok(d) ==> old(self).distributed(final(self), epoch, total_rewards, now, d),
    {
        let ghost l = self.validator_list();
        let ghost e0 = self.validators.entries();
        let ghost s0 = self.stakes@;
        let ghost m0 = self.validators@;
        proof {
            self.lemma_list_keys();
        }
        let (any, sum) = self.active_stake_sum();
        if !any {
            return Err(ValidatorError::NoActiveValidators);
        }
        if sum == 0 {
            return Err(ValidatorError::NoStake);
        }
        let ghost sumn: nat = sum as nat;
        let mut rewards: Vec<(String, u64)> = Vec::new();
        let n = self.validators.len_entries();
        let mut j: usize = 0;
        while j < n
            invariant
                n == l.len(),
                n == e0.len(),
                0 <= j <= n,
                sumn == sum,
                sum == active_stake(l),
                sum > 0,
                self.wf(),
                old(self).distribute_fits(total_rewards),
                l == old(self).validator_list(),
                s0 == old(self).stakes(),
                m0 == old(self).validators(),
                forall|i: int| 0 <= i < l.len() ==> {
                    &&& #[trigger] l[i] == e0[i].1
                    &&& l[i].address@ == e0[i].0@
                    &&& l[i].commission_rate_ppm <= PPM
                    &&& l[i].uptime_ppm <= PPM
                    &&& m0[l[i].address@] == l[i]
                },
                forall|a: int, b: int| 0 <= a < b < l.len() ==> #[trigger] l[a].address@ != #[trigger] l[b].address@,
                self.validators.entries().len() == n,
                forall|k: int| j <= k < n ==> #[trigger] self.validators.entries()[k] == e0[k],
                forall|k: int| 0 <= k < n ==> #[trigger] self.validators.entries()[k].0 == e0[k].0,
                self.validators@ == credit_validators(m0, l.take(j as int), total_rewards, sumn),
                self.stakes@ == credit_stakes(s0, l.take(j as int), total_rewards, sumn),
                rewards@ == reward_entries(l.take(j as int), total_rewards, sumn),
                self.slash_events() == old(self).slash_events(),
                self.distributions() == old(self).distributions(),
                self.total_stake == old(self).total_stake,
                self.min_stake == old(self).min_stake,
                self.slash_counter == old(self).slash_counter,
                self.reward_counter == old(self).reward_counter,
            decreases n - j,
        {
            let ghost vj = l[j as int];
            assert(l.take(j + 1).drop_last() =~= l.take(j as int));
            assert(l.take(j + 1).last() == vj);
            let v = self.validators.value_at(j);
            assert(*v == vj);
            if v.status == ValidatorStatus::Active {
                proof {
                    lemma_total_of_take(l, active_stake_f(), j as int);
                    lemma_total_of_take(l, active_stake_f(), j + 1);
                }
                let reward = mul_div(total_rewards, v.stake_amount, sum);
                let commission = mul_div(reward, v.commission_rate_ppm, PPM);
                assert(commission as int == commission_share(reward as int, vj.commission_rate_ppm)) by (nonlinear_arith)
                    requires
                        commission as int == (reward as int * vj.commission_rate_ppm as int) / (PPM as int),
                ;
                let delegator_reward = reward - commission;
                rewards.push((v.address.clone(), reward));
                let mut nv = v.duplicate();
                nv.total_rewards_earned = nv.total_rewards_earned + reward;
                let mut key = nv.address.clone();
                push_str(&mut key, ":");
                push_str(&mut key, nv.address.as_str());
                assert(key@ == stake_key(vj.address@, vj.address@));
                self.set_validator(j, nv);
                proof {
                    assert forall|i: int| 0 <= i < l.take(j as int).len() implies stake_key(l.take(j as int)[i].address@, l.take(j as int)[i].address@) != key@ by {
                        lemma_stake_key_injective(l[i].address@, vj.address@);
                    }
                    lemma_credit_stakes_untouched(s0, l.take(j as int), total_rewards, sumn, key@);
                    self.stakes.lemma_view();
                }
                match self.stakes.position(key.as_str()) {
                    Some(p) => {
                        let mut st = self.stakes.value_at(p).duplicate();
                        assert(self.stakes@[key@] == st);
                        st.pending_rewards = st.pending_rewards + delegator_reward;
                        self.stakes.set_value_at(p, st);
                    },
                    None => {},
                }
            }
            j = j + 1;
        }
        assert(l.take(n as int) =~= l);
        let id = self.reward_counter;
        self.reward_counter = self.reward_counter.wrapping_add(1);
        let stored = RewardDistribution {
            distribution_id: id,
            epoch,
            total_rewards,
            rewards_per_validator: Self::copy_rewards(&rewards),
            timestamp: now,
        };
        self.reward_pool.insert(id, stored);
        Ok(RewardDistribution {
            distribution_id: id,
            epoch,
            total_rewards,
            rewards_per_validator: rewards,
            timestamp: now,
        })
    }
    /// Distribute rewards now, by the wall clock (see `distribute_rewards_at`).
    pub fn distribute_rewards(&mut self, epoch: u64, total_rewards: u64) -> (r: Result<RewardDistribution, ValidatorError>)
        requires
            old(self).wf(),
            old(self).distribute_fits(total_rewards),
        ensures
            final(self).wf(),
            r is Ok <==> old(self).distribute_result() is Ok,
            r matches Err(e) ==> old(self).distribute_result() == Err::<(), ValidatorError>(e) && *final(self) == *old(self),
            r matches Ok(d) ==> exists|now: u64| #[trigger] old(self).distributed(final(self), epoch, total_rewards, now, d),
    {
        let now = now_secs();
        self.distribute_rewards_at(epoch, total_rewards, now)
    }

    /// The validator list and the map agree: each listed validator is the one filed under its
    /// address, no address is listed twice, and every filed validator is listed.
    pub proof fn lemma_validator_list(&self)
        requires
            self.wf(),
        ensures
            self.validator_list().len() == self.validators().dom().len(),
            self.validators().dom().finite(),
            forall|i: int| 0 <= i < self.validator_list().len() ==> self.validators().dom().contains(
                #[trigger] self.validator_list()[i].address@) && self.validators()[self.validator_list()[i].address@]
                == self.validator_list()[i],
            forall|i: int, j: int| 0 <= i < j < self.validator_list().len() ==> #[trigger] self.validator_list()[i].address@
                != #[trigger] self.validator_list()[j].address@,
            forall|k: Seq<char>| #[trigger] self.validators().dom().contains(k) ==> exists|i: int|
                0 <= i < self.validator_list().len() && #[trigger] self.validator_list()[i].address@ == k,
    {
        self.lemma_list_keys();
        self.validators.lemma_view();
        assert forall|k: Seq<char>| #[trigger] self.validators().dom().contains(k) implies exists|i: int|
            0 <= i < self.validator_list().len() && #[trigger] self.validator_list()[i].address@ == k by {
            let i = choose|i: int| 0 <= i < self.validators.entries().len() && self.validators.entries()[i].0@ == k;
            assert(self.validator_list()[i].address@ == k);
        }
    }

    /// How many validators of `s` are active.
    pub open spec fn active_count(s: Seq<Validator>) -> nat {
        s.filter(|v: Validator| v.status is Active).len()
    }

    /// The validators' slashed totals added up.
    pub open spec fn slashed_f() -> spec_fn(Validator) -> nat {
        |v: Validator| v.total_slashed as nat
    }

    /// The validators' rewards earned added up.
    pub open spec fn rewards_f() -> spec_fn(Validator) -> nat {
        |v: Validator| v.total_rewards_earned as nat
    }

    /// The validators' uptimes added up.
    pub open spec fn uptime_f() -> spec_fn(Validator) -> nat {
        |v: Validator| v.uptime_ppm as nat
    }

    /// The statistics of `s`, with `total_stake` as the recorded total.
    pub open spec fn stats_spec(s: Seq<Validator>, total_stake: u64) -> ValidatorStats {
        ValidatorStats {
            total_validators: s.len() as usize,
            active_validators: Self::active_count(s) as usize,
            total_stake,
            total_slashed: total_of(s, Self::slashed_f()) as u64,
            total_rewards_distributed: total_of(s, Self::rewards_f()) as u64,
            avg_uptime_ppm: if s.len() > 0 { (total_of(s, Self::uptime_f()) / s.len()) as u64 } else { 0 },
        }
    }

    /// Counts, the recorded total stake, the slashed and rewarded totals, and the mean uptime.
    pub fn get_stats(&self) -> (r: ValidatorStats)
        requires
            self.wf(),
            total_of(self.validator_list(), Self::slashed_f()) <= u64::MAX,
            total_of(self.validator_list(), Self::rewards_f()) <= u64::MAX,
        ensures
            r == Self::stats_spec(self.validator_list(), self.total_stake()),
    {
        proof {
            self.lemma_list_keys();
        }
        let ghost l = self.validator_list();
        let ghost pred = |v: Validator| v.status is Active;
        let n = self.validators.len_entries();
        let mut active: usize = 0;
        let mut slashed: u64 = 0;
        let mut rewards: u64 = 0;
        let mut uptime: u128 = 0;
        let mut i: usize = 0;
        while i < n
            invariant
                n == l.len(),
                l == self.validator_list(),
                n == self.validators.entries().len(),
                0 <= i <= n,
                pred == (|v: Validator| v.status is Active),
                forall|k: int| 0 <= k < l.len() ==> (#[trigger] l[k]).uptime_ppm <= PPM,
                total_of(l, Self::slashed_f()) <= u64::MAX,
                total_of(l, Self::rewards_f()) <= u64::MAX,
                active == l.take(i as int).filter(pred).len(),
                slashed == total_of(l.take(i as int), Self::slashed_f()),
                rewards == total_of(l.take(i as int), Self::rewards_f()),
                uptime == total_of(l.take(i as int), Self::uptime_f()),
                uptime <= i * PPM,
            decreases n - i,
        {
            let v = self.validators.value_at(i);
            assert(*v == l[i as int]);
            proof {
                lemma_total_of_take(l, Self::slashed_f(), i as int);
                lemma_total_of_take(l, Self::slashed_f(), i + 1);
                lemma_total_of_take(l, Self::rewards_f(), i as int);
                lemma_total_of_take(l, Self::rewards_f(), i + 1);
                lemma_total_of_take(l, Self::uptime_f(), i as int);
                assert(l.take(i + 1) =~= l.take(i as int).push(*v));
                l.take(i as int).lemma_filter_push(*v, pred);
                l.take(i as int).lemma_filter_len(pred);
            }
            if v.status == ValidatorStatus::Active {
                active = active + 1;
            }
            slashed = slashed + v.total_slashed;
            rewards = rewards + v.total_rewards_earned;
            uptime = uptime + v.uptime_ppm as u128;
            i = i + 1;
        }
        assert(l.take(n as int) =~= l);
        let avg: u64 = if n > 0 {
            assert(uptime / (n as u128) <= PPM) by (nonlinear_arith)
                requires
                    uptime <= n * PPM,
                    n > 0,
            ;
            (uptime / (n as u128)) as u64
        } else {
            0
        };
        ValidatorStats {
            total_validators: self.validators.len(),
            active_validators: active,
            total_stake: self.total_stake,
            total_slashed: slashed,
            total_rewards_distributed: rewards,
            avg_uptime_ppm: avg,
        }
    }
}

/// The amounts of a list of rewards, added up.
pub open spec fn reward_sum(s: Seq<(String, u64)>) -> int
    decreases s.len(),
{
    if s.len() == 0 {
        0
    } else {
        reward_sum(s.drop_last()) + s.last().1
    }
}

proof fn lemma_rewards_scaled(s: Seq<Validator>, t: u64, sum: nat)
    requires
        sum > 0,
        active_stake(s) <= sum,
    ensures
        reward_sum(reward_entries(s, t, sum)) * sum <= t * active_stake(s),
        reward_sum(reward_entries(s, t, sum)) >= 0,
    decreases s.len(),
{
    if s.len() > 0 {
        let p = s.drop_last();
        let v = s.last();
        assert(active_stake(s) == active_stake(p) + (active_stake_f())(v));
        lemma_rewards_scaled(p, t, sum);
        let r = reward_sum(reward_entries(p, t, sum));
        let ap = active_stake(p);
        if v.status is Active {
            let st = v.stake_amount;
            let x = reward_share(t, st, sum);
            assert(st <= sum);
            assert(x * sum <= t * st && 0 <= x <= t) by (nonlinear_arith)
                requires
                    x == (t as int * st as int) / (sum as int),
                    st <= sum,
                    sum > 0,
                    t >= 0,
                    st >= 0,
            {
                assert(t as int * st as int <= t as int * sum as int);
            }
            let e = reward_entries(s, t, sum);
            assert(e.drop_last() == reward_entries(p, t, sum));
            assert(e.last().1 == x as u64);
            assert(reward_sum(e) == r + x);
            assert((r + x) * sum <= t * (ap + st)) by (nonlinear_arith)
                requires
                    r * sum <= t * ap,
                    x * sum <= t * st,
            ;
        } else {
            assert(reward_entries(s, t, sum) == reward_entries(p, t, sum));
        }
    }
}

/// The rewards handed out never exceed the pot: the shares of the active validators add up
/// to at most `total_rewards`.
pub proof fn lemma_rewards_within_pot(s: Seq<Validator>, total_rewards: u64)
    requires
        active_stake(s) > 0,
    ensures
        reward_sum(reward_entries(s, total_rewards, active_stake(s))) <= total_rewards,
{
    let sum = active_stake(s);
    lemma_rewards_scaled(s, total_rewards, sum);
    let r = reward_sum(reward_entries(s, total_rewards, sum));
    assert(r <= total_rewards) by (nonlinear_arith)
        requires
            r * sum <= total_rewards * sum,
            sum > 0,
    ;
}

/// An active validator's reward is its stake's proportion of the rewards, rounded down: the
/// largest `r` with `r * stake_sum <= total_rewards * stake`.
pub proof fn lemma_reward_share_proportional(total_rewards: u64, stake: u64, stake_sum: nat)
    requires
        stake_sum > 0,
    ensures
        reward_share(total_rewards, stake, stake_sum) * stake_sum <= total_rewards * stake
            < (reward_share(total_rewards, stake, stake_sum) + 1) * stake_sum,
{
    assert(total_rewards * stake >= 0) by (nonlinear_arith);
    crate::util::lemma_floor_div(total_rewards * stake, stake_sum as int);
}

/// The commission kept of a reward `reward` at `ppm` millionths is the largest `c` with
/// `c * 1_000_000 <= reward * ppm`.
pub proof fn lemma_commission_proportional(reward: int, ppm: u64)
    requires
        reward >= 0,
    ensures
        commission_share(reward, ppm) * 1_000_000 <= reward * ppm < (commission_share(reward, ppm) + 1)
            * 1_000_000,
{
    assert(reward * ppm >= 0) by (nonlinear_arith)
        requires
            reward >= 0,
    ;
    crate::util::lemma_floor_div(reward * ppm, 1_000_000);
}

/// A slash of `ppm` millionths takes the largest `a` with `a * 1_000_000 <= stake * ppm`:
/// all of the stake at 1_000_000, none at 0.
pub proof fn lemma_slash_proportional(stake: u64, ppm: u64)
    ensures
        slash_amount(stake, ppm) * 1_000_000 <= stake * ppm < (slash_amount(stake, ppm) + 1) * 1_000_000,
        ppm == 1_000_000 ==> slash_amount(stake, ppm) == stake,
        ppm == 0 ==> slash_amount(stake, ppm) == 0,
{
    assert(stake * ppm >= 0) by (nonlinear_arith);
    crate::util::lemma_floor_div(stake * ppm, 1_000_000);
    if ppm == 1_000_000 {
        assert(slash_amount(stake, ppm) == stake) by (nonlinear_arith)
            requires
                slash_amount(stake, ppm) * 1_000_000 <= stake * 1_000_000 < (slash_amount(stake, ppm) + 1)
                    * 1_000_000,
        ;
    }
    if ppm == 0 {
        assert(slash_amount(stake, ppm) == 0) by (nonlinear_arith)
            requires
                slash_amount(stake, ppm) * 1_000_000 <= 0 < (slash_amount(stake, ppm) + 1) * 1_000_000,
        ;
    }
}

/// A validator's uptime is the share of the blocks it produced among those it produced or
/// missed, in millionths rounded down: the largest `u` with `u * (produced + missed) <=
/// produced * 1_000_000`.
pub proof fn lemma_uptime_share(produced: u64, missed: u64)
    requires
        produced + missed > 0,
    ensures
        uptime_spec(produced, missed) * (produced + missed) <= produced * 1_000_000
            < (uptime_spec(produced, missed) + 1) * (produced + missed),
{
    assert(produced * 1_000_000 >= 0) by (nonlinear_arith);
    crate::util::lemma_floor_div(produced * 1_000_000, produced + missed);
}

/// A validator is admitted exactly when it stakes at least the minimum, asks a commission of
/// at most 100%, and is not registered yet.
pub proof fn lemma_register_admits(m: &ValidatorManager, address: Seq<char>, stake_amount: u64, ppm: u64)
    ensures
        (m.register_result(address, stake_amount, ppm) is Ok) == (stake_amount >= m.min_stake() && ppm <= 1_000_000
            && !m.validators().dom().contains(address)),
{
}

/// Unbonding: it is admitted exactly for an existing stake of at least `amount`, and unlocks
/// a week (604 800 seconds) after `now`. It moves the amount from the stake to its unbonding
/// part, so the two together stay the same, and the validator's stake drops by it.
pub proof fn lemma_unbond_moves_stake(
    m: &ValidatorManager,
    next: &ValidatorManager,
    staker: Seq<char>,
    validator_address: Seq<char>,
    amount: u64,
    now: u64,
)
    requires
        now + 604_800 <= u64::MAX,
        m.unbond_fits(staker, validator_address, amount),
    ensures
        ({
            let key = stake_key(staker, validator_address);
            &&& (m.unbond_result(key, amount, now) is Ok) <==> (m.stakes().dom().contains(key) && m.stakes()[key].amount
                >= amount)
            &&& m.unbond_result(key, amount, now) is Ok ==> m.unbond_result(key, amount, now) == Ok::<u64, ValidatorError>(
                (now + 604_800) as u64,
            )
            &&& (m.unbond_result(key, amount, now) is Ok && m.unbonded(next, staker, validator_address, amount, (now + 604_800) as u64))
                ==> {
                &&& next.stakes()[key].amount == m.stakes()[key].amount - amount
                &&& next.stakes()[key].amount + next.stakes()[key].unbonding_amount == m.stakes()[key].amount
                    + m.stakes()[key].unbonding_amount
                &&& next.stakes()[key].unbonding_completion == Some((now + 604_800) as u64)
                &&& m.validators().dom().contains(validator_address) ==> next.validators()[validator_address].stake_amount
                    == m.validators()[validator_address].stake_amount - amount
            }
        }),
{
}

/// Delegating `amount` to a registered validator adds it to the staker's delegation and to
/// the validator's stake (a first delegation starts at `amount`).
pub proof fn lemma_delegation_adds(
    m: &ValidatorManager,
    next: &ValidatorManager,
    staker: String,
    validator_address: String,
    amount: u64,
    now: u64,
)
    requires
        m.delegate_fits(staker@, validator_address@, amount),
        m.delegate_result(validator_address@) is Ok,
        m.delegated(next, staker, validator_address, amount, now),
    ensures
        ({
            let key = stake_key(staker@, validator_address@);
            &&& next.stakes().dom().contains(key)
            &&& next.stakes()[key].amount == (if m.stakes().dom().contains(key) { m.stakes()[key].amount as int } else { 0 })
                + amount
            &&& next.validators()[validator_address@].stake_amount == m.validators()[validator_address@].stake_amount
                + amount
        }),
{
}

} // verus!
