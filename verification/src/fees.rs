use vstd::prelude::*;

use crate::util::mul_wide;

verus! {

/// Multipliers are written in parts per million: `PPM` is one.
pub const PPM: u64 = 1_000_000;

/// Fee tier based on transaction priority.
#[derive(Debug, Clone, Copy, PartialEq, Eq, Structural)]
pub enum FeeTier {
    /// Low priority, low fee.
    Economy,
    /// Normal priority, standard fee.
    Standard,
    /// High priority, higher fee.
    Fast,
    /// Urgent priority, highest fee.
    Instant,
}

/// A tier's price multiplier, in parts per million: a half, one, two and four.
pub open spec fn tier_multiplier(t: FeeTier) -> u64 {
    match t {
        FeeTier::Economy => 500_000,
        FeeTier::Standard => 1_000_000,
        FeeTier::Fast => 2_000_000,
        FeeTier::Instant => 4_000_000,
    }
}

impl FeeTier {
    /// The tier's price multiplier, in parts per million (see `tier_multiplier`).
    pub fn multiplier_ppm(&self) -> (m: u64)
        ensures
            m == tier_multiplier(*self),
    {
        match self {
            FeeTier::Economy => 500_000,
            FeeTier::Standard => 1_000_000,
            FeeTier::Fast => 2_000_000,
            FeeTier::Instant => 4_000_000,
        }
    }
}

/// Breakdown of a transaction's fee.
#[derive(Debug, Clone, Copy, PartialEq, Eq, Structural)]
pub struct TransactionFee {
    /// Fee for execution (compute).
    pub execution_fee: u64,
    /// Fee for data storage.
    pub data_fee: u64,
    /// Additional fee for priority.
    pub priority_fee: u64,
    pub total_fee: u64,
    /// Effective gas price.
    pub gas_price: u64,
    pub compute_units: u64,
}

/// Fee estimates for all tiers.
#[derive(Debug, Clone, Copy, PartialEq, Eq, Structural)]
pub struct FeeEstimates {
    pub economy: TransactionFee,
    pub standard: TransactionFee,
    pub fast: TransactionFee,
    pub instant: TransactionFee,
}

#[derive(Debug, Clone, Copy, PartialEq, Eq, Structural)]
pub struct FeeMarketStats {
    pub total_collected: u64,
    pub total_burned: u64,
    pub base_fee: u64,
    /// The congestion multiplier, in parts per million.
    pub congestion_ppm: u64,
}

/// The gas price: the base fee times the tier's and the congestion multiplier, rounded down
/// and capped at `u64::MAX`.
pub open spec fn gas_price_spec(base_fee: u64, tier: FeeTier, congestion_ppm: u64) -> u64 {
    let g = (base_fee as int * tier_multiplier(tier) as int * congestion_ppm as int) / (PPM as int * PPM as int);
    if g > u64::MAX { u64::MAX } else { g as u64 }
}

/// The priority fee: nothing for economy, a tenth, a fifth and a half of the base fee for
/// the others.
pub open spec fn priority_fee_spec(base_fee: u64, tier: FeeTier) -> u64 {
    match tier {
        FeeTier::Economy => 0,
        FeeTier::Standard => base_fee / 10,
        FeeTier::Fast => base_fee / 5,
        FeeTier::Instant => base_fee / 2,
    }
}

/// The fee of a transaction: execution costs the gas price per million compute units, data
/// the gas price per ten thousand bytes, both rounded down, plus the priority fee.
pub open spec fn fee_spec(base_fee: u64, congestion_ppm: u64, compute_units: u64, tier: FeeTier, data_size: usize) -> TransactionFee {
    let gas = gas_price_spec(base_fee, tier, congestion_ppm);
    let execution_fee = (gas as int * compute_units as int) / 1_000_000;
    let data_fee = (data_size as int * gas as int) / 10_000;
    let priority_fee = priority_fee_spec(base_fee, tier);
    TransactionFee {
        execution_fee: execution_fee as u64,
        data_fee: data_fee as u64,
        priority_fee,
        total_fee: (execution_fee + data_fee + priority_fee) as u64,
        gas_price: gas,
        compute_units,
    }
}

/// The products and the sum of a fee fit in 64 bits.
pub open spec fn fee_fits(base_fee: u64, congestion_ppm: u64, compute_units: u64, tier: FeeTier, data_size: usize) -> bool {
    let gas = gas_price_spec(base_fee, tier, congestion_ppm);
    &&& gas as int * compute_units as int <= u64::MAX
    &&& data_size as int * gas as int <= u64::MAX
    &&& (gas as int * compute_units as int) / 1_000_000 + (data_size as int * gas as int) / 10_000 + priority_fee_spec(base_fee, tier)
        <= u64::MAX
}

/// The congestion multiplier for a mempool filled `utilization_ppm` parts per million: two
/// from 90% up, one and a half from 70%, 1.2 from 50%, else one.
pub open spec fn congestion_spec(utilization_ppm: u64) -> u64 {
    if utilization_ppm >= 900_000 {
        2_000_000
    } else if utilization_ppm >= 700_000 {
        1_500_000
    } else if utilization_ppm >= 500_000 {
        1_200_000
    } else {
        1_000_000
    }
}

/// Gas price oracle for dynamic fee calculation.
pub struct GasPriceOracle {
    base_fee: u64,
    min_fee: u64,
    max_fee: u64,
    congestion_ppm: u64,
}

impl GasPriceOracle {
    pub closed spec fn base_fee(&self) -> u64 {
        self.base_fee
    }

    pub closed spec fn min_fee(&self) -> u64 {
        self.min_fee
    }

    pub closed spec fn max_fee(&self) -> u64 {
        self.max_fee
    }

    /// The congestion multiplier, in parts per million.
    pub closed spec fn congestion(&self) -> u64 {
        self.congestion_ppm
    }

    /// Every congestion multiplier is at most two.
    pub closed spec fn wf(&self) -> bool {
        self.congestion_ppm <= 2_000_000
    }

    /// An oracle at `base_fee`, kept between `min_fee` and `max_fee`, with no congestion.
    pub fn new(base_fee: u64, min_fee: u64, max_fee: u64) -> (o: Self)
        ensures
            o.wf(),
            o.base_fee() == base_fee,
            o.min_fee() == min_fee,
            o.max_fee() == max_fee,
            o.congestion() == PPM,
    {
        GasPriceOracle { base_fee, min_fee, max_fee, congestion_ppm: PPM }
    }

    pub fn get_base_fee(&self) -> (f: u64)
        ensures
            f == self.base_fee(),
    {
        self.base_fee
    }

    /// The congestion multiplier, in parts per million.
    pub fn get_congestion_ppm(&self) -> (c: u64)
        ensures
            c == self.congestion(),
    {
        self.congestion_ppm
    }

    /// Set the base fee, clamped between the minimum and the maximum.
    pub fn update_base_fee(&mut self, new_base_fee: u64)
        requires
            old(self).min_fee() <= old(self).max_fee(),
        ensures
            final(self).base_fee() == if new_base_fee < old(self).min_fee() {
                old(self).min_fee()
            } else if new_base_fee > old(self).max_fee() {
                old(self).max_fee()
            } else {
                new_base_fee
            },
            final(self).min_fee() == old(self).min_fee(),
            final(self).max_fee() == old(self).max_fee(),
            final(self).congestion() == old(self).congestion(),
            final(self).wf() == old(self).wf(),
    {
        let clamped = if new_base_fee < self.min_fee {
            self.min_fee
        } else if new_base_fee > self.max_fee {
            self.max_fee
        } else {
            new_base_fee
        };
        self.base_fee = clamped;
    }

    /// The fee of a transaction of `compute_units` and `data_size` bytes in `tier` (see
    /// `fee_spec`).
    pub fn calculate_fee(&self, compute_units: u64, tier: FeeTier, data_size: usize) -> (f: TransactionFee)
        requires
            self.wf(),
            fee_fits(self.base_fee(), self.congestion(), compute_units, tier, data_size),
        ensures
            f == fee_spec(self.base_fee(), self.congestion(), compute_units, tier, data_size),
    {
        let base_fee = self.base_fee;
        let m = tier.multiplier_ppm();
        let bt: u128 = mul_wide(base_fee, m);
        assert(bt * self.congestion_ppm <= u128::MAX) by (nonlinear_arith)
            requires
                bt == base_fee * m,
                m <= 4_000_000,
                self.congestion_ppm <= 2_000_000,
        ;
        let prod: u128 = bt * (self.congestion_ppm as u128);
        let g: u128 = prod / ((PPM as u128) * (PPM as u128));
        let gas_price: u64 = if g > (u64::MAX as u128) { u64::MAX } else { g as u64 };
        assert(gas_price == gas_price_spec(base_fee, tier, self.congestion_ppm)) by (nonlinear_arith)
            requires
                bt == base_fee * m,
                m == tier_multiplier(tier),
                prod == bt * self.congestion_ppm,
                g == prod / 1_000_000_000_000u128,
                gas_price == if g > u64::MAX { u64::MAX } else { g as u64 },
        ;
        let execution_fee = (gas_price * compute_units) / 1_000_000;
        let data_fee = (data_size as u64 * gas_price) / 10_000;
        let priority_fee: u64 = match tier {
            FeeTier::Economy => 0,
            FeeTier::Standard => base_fee / 10,
            FeeTier::Fast => base_fee / 5,
            FeeTier::Instant => base_fee / 2,
        };
        let total_fee = execution_fee + data_fee + priority_fee;
        TransactionFee { execution_fee, data_fee, priority_fee, total_fee, gas_price, compute_units }
    }

    /// Set the congestion multiplier from the mempool's utilization, in parts per million
    /// (see `congestion_spec`).
    pub fn update_congestion(&mut self, mempool_utilization_ppm: u64)
        ensures
            final(self).wf(),
            final(self).congestion() == congestion_spec(mempool_utilization_ppm),
            final(self).base_fee() == old(self).base_fee(),
            final(self).min_fee() == old(self).min_fee(),
            final(self).max_fee() == old(self).max_fee(),
    {
        let m = if mempool_utilization_ppm >= 900_000 {
            2_000_000
        } else if mempool_utilization_ppm >= 700_000 {
            1_500_000
        } else if mempool_utilization_ppm >= 500_000 {
            1_200_000
        } else {
            1_000_000
        };
        self.congestion_ppm = m;
    }

    /// The fee in every tier.
    pub fn get_fee_estimates(&self, compute_units: u64, data_size: usize) -> (e: FeeEstimates)
        requires
            self.wf(),
            fee_fits(self.base_fee(), self.congestion(), compute_units, FeeTier::Economy, data_size),
            fee_fits(self.base_fee(), self.congestion(), compute_units, FeeTier::Standard, data_size),
            fee_fits(self.base_fee(), self.congestion(), compute_units, FeeTier::Fast, data_size),
            fee_fits(self.base_fee(), self.congestion(), compute_units, FeeTier::Instant, data_size),
        ensures
            e.economy == fee_spec(self.base_fee(), self.congestion(), compute_units, FeeTier::Economy, data_size),
            e.standard == fee_spec(self.base_fee(), self.congestion(), compute_units, FeeTier::Standard, data_size),
            e.fast == fee_spec(self.base_fee(), self.congestion(), compute_units, FeeTier::Fast, data_size),
            e.instant == fee_spec(self.base_fee(), self.congestion(), compute_units, FeeTier::Instant, data_size),
    {
        FeeEstimates {
            economy: self.calculate_fee(compute_units, FeeTier::Economy, data_size),
            standard: self.calculate_fee(compute_units, FeeTier::Standard, data_size),
            fast: self.calculate_fee(compute_units, FeeTier::Fast, data_size),
            instant: self.calculate_fee(compute_units, FeeTier::Instant, data_size),
        }
    }
}

impl Default for GasPriceOracle {
    /// A base fee of 5000 lamports, kept between 1000 and one million.
    fn default() -> (o: Self)
        ensures
            o.wf(),
            o.base_fee() == 5000,
            o.min_fee() == 1000,
            o.max_fee() == 1_000_000,
            o.congestion() == PPM,
    {
        Self::new(5000, 1000, 1_000_000)
    }
}

/// A fee market: fees are collected at the oracle's prices and half the execution fee is
/// burned.
pub struct FeeMarket {
    oracle: GasPriceOracle,
    total_fees_collected: u64,
    total_fees_burned: u64,
}

impl FeeMarket {
    pub closed spec fn oracle(&self) -> GasPriceOracle {
        self.oracle
    }

    pub closed spec fn collected(&self) -> u64 {
        self.total_fees_collected
    }

    pub closed spec fn burned(&self) -> u64 {
        self.total_fees_burned
    }

    pub fn new(oracle: GasPriceOracle) -> (m: Self)
        ensures
            m.oracle() == oracle,
            m.collected() == 0,
            m.burned() == 0,
    {
        FeeMarket { oracle, total_fees_collected: 0, total_fees_burned: 0 }
    }

    /// The oracle the market prices by.
    pub fn oracle_ref(&self) -> (o: &GasPriceOracle)
        ensures
            *o == self.oracle(),
    {
        &self.oracle
    }

    /// Work out a transaction's fee, collect it, and burn half its execution fee (both totals
    /// wrap around).
    pub fn collect_fee(&mut self, compute_units: u64, tier: FeeTier, data_size: usize) -> (f: TransactionFee)
        requires
            old(self).oracle().wf(),
            fee_fits(old(self).oracle().base_fee(), old(self).oracle().congestion(), compute_units, tier, data_size),
        ensures
            f == fee_spec(old(self).oracle().base_fee(), old(self).oracle().congestion(), compute_units, tier, data_size),
            final(self).collected() == old(self).collected().wrapping_add(f.total_fee),
            final(self).burned() == old(self).burned().wrapping_add(f.execution_fee / 2),
            final(self).oracle() == old(self).oracle(),
    {
        let fee = self.oracle.calculate_fee(compute_units, tier, data_size);
        self.total_fees_collected = self.total_fees_collected.wrapping_add(fee.total_fee);
        let burn_amount = fee.execution_fee / 2;
        self.total_fees_burned = self.total_fees_burned.wrapping_add(burn_amount);
        fee
    }

    pub fn get_total_fees_collected(&self) -> (t: u64)
        ensures
            t == self.collected(),
    {
        self.total_fees_collected
    }

    pub fn get_total_fees_burned(&self) -> (t: u64)
        ensures
            t == self.burned(),
    {
        self.total_fees_burned
    }

    /// The totals, and the oracle's base fee and congestion multiplier.
    pub fn get_stats(&self) -> (st: FeeMarketStats)
        ensures
            st == (FeeMarketStats {
                total_collected: self.collected(),
                total_burned: self.burned(),
                base_fee: self.oracle().base_fee(),
                congestion_ppm: self.oracle().congestion(),
            }),
    {
        FeeMarketStats {
            total_collected: self.total_fees_collected,
            total_burned: self.total_fees_burned,
            base_fee: self.oracle.get_base_fee(),
            congestion_ppm: self.oracle.get_congestion_ppm(),
        }
    }
}

/// A higher tier never charges less: with the base fee, congestion, compute units and data
/// size fixed, each tier's fee is at least the one below it.
pub proof fn lemma_fee_monotone_in_tier(base_fee: u64, congestion_ppm: u64, compute_units: u64, data_size: usize)
    requires
        congestion_ppm <= 2_000_000,
        fee_fits(base_fee, congestion_ppm, compute_units, FeeTier::Instant, data_size),
    ensures
        fee_spec(base_fee, congestion_ppm, compute_units, FeeTier::Economy, data_size).total_fee
            <= fee_spec(base_fee, congestion_ppm, compute_units, FeeTier::Standard, data_size).total_fee,
        fee_spec(base_fee, congestion_ppm, compute_units, FeeTier::Standard, data_size).total_fee
            <= fee_spec(base_fee, congestion_ppm, compute_units, FeeTier::Fast, data_size).total_fee,
        fee_spec(base_fee, congestion_ppm, compute_units, FeeTier::Fast, data_size).total_fee
            <= fee_spec(base_fee, congestion_ppm, compute_units, FeeTier::Instant, data_size).total_fee,
{
    let b = base_fee as int;
    let c = congestion_ppm as int;
    let d = PPM as int * PPM as int;
    assert(b * 500_000 * c <= b * 1_000_000 * c <= b * 2_000_000 * c <= b * 4_000_000 * c) by (nonlinear_arith)
        requires
            b >= 0,
            c >= 0,
    ;
    let ge = gas_price_spec(base_fee, FeeTier::Economy, congestion_ppm) as int;
    let gs = gas_price_spec(base_fee, FeeTier::Standard, congestion_ppm) as int;
    let gf = gas_price_spec(base_fee, FeeTier::Fast, congestion_ppm) as int;
    let gi = gas_price_spec(base_fee, FeeTier::Instant, congestion_ppm) as int;
    assert((b * 500_000 * c) / d <= (b * 1_000_000 * c) / d) by (nonlinear_arith)
        requires
            b * 500_000 * c <= b * 1_000_000 * c,
            d > 0,
    ;
    assert((b * 1_000_000 * c) / d <= (b * 2_000_000 * c) / d) by (nonlinear_arith)
        requires
            b * 1_000_000 * c <= b * 2_000_000 * c,
            d > 0,
    ;
    assert((b * 2_000_000 * c) / d <= (b * 4_000_000 * c) / d) by (nonlinear_arith)
        requires
            b * 2_000_000 * c <= b * 4_000_000 * c,
            d > 0,
    ;
    assert(ge <= gs <= gf <= gi);
    let cu = compute_units as int;
    let ds = data_size as int;
    assert((ge * cu) / 1_000_000 <= (gs * cu) / 1_000_000 <= (gf * cu) / 1_000_000 <= (gi * cu) / 1_000_000) by (nonlinear_arith)
        requires
            0 <= ge <= gs <= gf <= gi,
            cu >= 0,
    ;
    assert((ds * ge) / 10_000 <= (ds * gs) / 10_000 <= (ds * gf) / 10_000 <= (ds * gi) / 10_000) by (nonlinear_arith)
        requires
            0 <= ge <= gs <= gf <= gi,
            ds >= 0,
    ;
}

/// A fee's burnt part never exceeds the fee: half the execution fee is at most the total.
pub proof fn lemma_burn_within_fee(base_fee: u64, congestion_ppm: u64, compute_units: u64, tier: FeeTier, data_size: usize)
    requires
        fee_fits(base_fee, congestion_ppm, compute_units, tier, data_size),
    ensures
        fee_spec(base_fee, congestion_ppm, compute_units, tier, data_size).execution_fee / 2
            <= fee_spec(base_fee, congestion_ppm, compute_units, tier, data_size).total_fee,
{
}

/// The priority fee of each tier, over any base fee: none for economy, and for standard,
/// fast and instant the largest amount that taken ten, five and two times (respectively)
/// stays within the base fee. From a base fee of 10 on, each tier pays strictly more than the
/// one below it.
pub proof fn lemma_priority_fee_by_tier(base_fee: u64, congestion_ppm: u64, compute_units: u64, data_size: usize)
    ensures
        ({
            let e = fee_spec(base_fee, congestion_ppm, compute_units, FeeTier::Economy, data_size).priority_fee;
            let s = fee_spec(base_fee, congestion_ppm, compute_units, FeeTier::Standard, data_size).priority_fee;
            let f = fee_spec(base_fee, congestion_ppm, compute_units, FeeTier::Fast, data_size).priority_fee;
            let i = fee_spec(base_fee, congestion_ppm, compute_units, FeeTier::Instant, data_size).priority_fee;
            &&& e == 0
            &&& s * 10 <= base_fee < (s + 1) * 10
            &&& f * 5 <= base_fee < (f + 1) * 5
            &&& i * 2 <= base_fee < (i + 1) * 2
            &&& e <= s <= f <= i
            &&& base_fee >= 10 ==> e < s && s < f && f < i
        }),
{
}

/// With no congestion, the gas price is half the base fee for economy, the base fee for
/// standard, twice it for fast and four times it for instant (capped at `u64::MAX`).
pub proof fn lemma_gas_price_by_tier(base_fee: u64)
    ensures
        gas_price_spec(base_fee, FeeTier::Economy, PPM) == base_fee / 2,
        gas_price_spec(base_fee, FeeTier::Standard, PPM) == base_fee,
        gas_price_spec(base_fee, FeeTier::Fast, PPM) == if 2 * base_fee > u64::MAX { u64::MAX as int } else { 2 * base_fee },
        gas_price_spec(base_fee, FeeTier::Instant, PPM) == if 4 * base_fee > u64::MAX { u64::MAX as int } else { 4 * base_fee },
{
    let b = base_fee as int;
    let m = 1_000_000int;
    assert forall|k: int| k >= 0 implies #[trigger] (b * k * m) / (m * m) == (b * k) / m by {
        assert(b * k * m == m * (b * k)) by (nonlinear_arith);
        if b * k > 0 {
            vstd::arithmetic::div_mod::lemma_div_multiples_vanish_quotient(m, b * k, m);
        } else {
            assert(b * k == 0) by (nonlinear_arith)
                requires
                    b >= 0,
                    k >= 0,
                    b * k <= 0,
            ;
        }
    }
    assert((b * 500_000int * m) / (m * m) == (b * 500_000int) / m);
    assert((b * 500_000int) / m == b / 2) by {
        vstd::arithmetic::div_mod::lemma_div_multiples_vanish_quotient(500_000int, b, 2);
        assert(500_000int * b == b * 500_000int) by (nonlinear_arith);
    }
    assert((b * 1_000_000int * m) / (m * m) == (b * 1_000_000int) / m);
    assert((b * 1_000_000int) / m == b) by {
        vstd::arithmetic::div_mod::lemma_div_multiples_vanish(b, m);
        assert(m * b == b * 1_000_000int) by (nonlinear_arith)
            requires
                m == 1_000_000int,
        ;
    }
    assert((b * 2_000_000int * m) / (m * m) == (b * 2_000_000int) / m);
    assert((b * 2_000_000int) / m == 2 * b) by {
        vstd::arithmetic::div_mod::lemma_div_multiples_vanish(2 * b, m);
        assert(m * (2 * b) == b * 2_000_000int) by (nonlinear_arith)
            requires
                m == 1_000_000int,
        ;
    }
    assert((b * 4_000_000int * m) / (m * m) == (b * 4_000_000int) / m);
    assert((b * 4_000_000int) / m == 4 * b) by {
        vstd::arithmetic::div_mod::lemma_div_multiples_vanish(4 * b, m);
        assert(m * (4 * b) == b * 4_000_000int) by (nonlinear_arith)
            requires
                m == 1_000_000int,
        ;
    }
}

/// A fee is the execution fee (the gas price per million compute units), the data fee (the
/// gas price per ten thousand bytes), both rounded down, and the priority fee, added up.
pub proof fn lemma_fee_parts(base_fee: u64, congestion_ppm: u64, compute_units: u64, tier: FeeTier, data_size: usize)
    requires
        fee_fits(base_fee, congestion_ppm, compute_units, tier, data_size),
    ensures
        ({
            let f = fee_spec(base_fee, congestion_ppm, compute_units, tier, data_size);
            &&& f.gas_price == gas_price_spec(base_fee, tier, congestion_ppm)
            &&& f.execution_fee == (f.gas_price as int * compute_units as int) / 1_000_000
            &&& f.data_fee == (data_size as int * f.gas_price as int) / 10_000
            &&& f.total_fee == f.execution_fee + f.data_fee + f.priority_fee
            &&& f.compute_units == compute_units
        }),
{
    let g = gas_price_spec(base_fee, tier, congestion_ppm);
    assert((g as int * compute_units as int) / 1_000_000 <= g as int * compute_units as int) by (nonlinear_arith)
        requires
            g as int * compute_units as int >= 0,
    ;
    assert((data_size as int * g as int) / 10_000 <= data_size as int * g as int) by (nonlinear_arith)
        requires
            data_size as int * g as int >= 0,
    ;
}

/// The congestion multiplier never falls as the mempool fills: it is 2.0 from 90% utilization
/// up, 1.5 from 70%, 1.2 from 50%, and 1.0 below, in millionths.
pub proof fn lemma_congestion_steps(u: u64, v: u64)
    ensures
        u <= v ==> congestion_spec(u) <= congestion_spec(v),
        u >= 900_000 ==> congestion_spec(u) == 2_000_000,
        700_000 <= u < 900_000 ==> congestion_spec(u) == 1_500_000,
        500_000 <= u < 700_000 ==> congestion_spec(u) == 1_200_000,
        u < 500_000 ==> congestion_spec(u) == 1_000_000,
{
}

} // verus!
