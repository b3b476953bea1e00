use vstd::prelude::*;
use vstd::bytes::spec_u64_to_le_bytes;

use crate::clock::now_secs;
use crate::types::encode_str_spec;
use crate::util::{find_first, isqrt_u128, is_isqrt, lemma_find_first, lemma_find_first_at, lemma_floor_div, mul_wide};

verus! {

/// Fees are given in millionths of the amount swapped (3000 is 0.3%).
pub const FEE_SCALE: u64 = 1_000_000;

#[derive(Debug, Clone)]
pub struct LiquidityPool {
    pub pool_id: String,
    pub token_a: String,
    pub token_b: String,
    pub reserve_a: u64,
    pub reserve_b: u64,
    pub total_liquidity: u64,
    /// Fee in millionths of the input amount.
    pub fee_rate: u64,
    pub total_volume: u64,
    pub total_fees_collected: u64,
    pub providers: u64,
}

#[derive(Debug, Clone)]
pub struct Order {
    pub order_id: u64,
    pub trader: String,
    pub order_type: OrderType,
    pub token_in: String,
    pub token_out: String,
    pub amount_in: u64,
    pub min_amount_out: u64,
    pub status: OrderStatus,
    pub created_at: u64,
    pub filled_at: Option<u64>,
}

#[derive(Debug, Clone, Copy, PartialEq, Eq, Structural)]
pub enum OrderType {
    Market,
    Limit { limit_price: u64 },
}

#[derive(Debug, Clone, Copy, PartialEq, Eq, Structural)]
pub enum OrderStatus {
    Pending,
    Filled,
    PartiallyFilled,
    Cancelled,
    Expired,
}

#[derive(Debug, Clone)]
pub struct Trade {
    pub trade_hash: crate::hash_utils::Hash,
    pub pool_id: String,
    pub trader: String,
    pub token_in: String,
    pub token_out: String,
    pub amount_in: u64,
    pub amount_out: u64,
    pub fee_paid: u64,
    pub timestamp: u64,
}

#[derive(Debug, Clone, Copy)]
pub struct DEXStats {
    pub total_pools: usize,
    pub total_liquidity: u64,
    pub total_volume: u64,
    pub total_fees: u64,
    pub total_trades: usize,
    pub total_orders: usize,
}

/// Why a DEX operation was refused.
#[derive(Debug, Clone, Copy, PartialEq, Eq, Structural)]
pub enum DexError {
    PoolAlreadyExists,
    ZeroInitialReserve,
    PoolNotFound,
    TokenNotInPool,
    InsufficientOutput { amount_out: u64, min_amount_out: u64 },
}

/// The part of `amount_in` that goes into the pool after the fee (none when the fee is 100% or
/// more).
pub open spec fn after_fee_spec(amount_in: u64, fee_rate: u64) -> int {
    if fee_rate >= FEE_SCALE {
        0
    } else {
        (amount_in * (FEE_SCALE - fee_rate)) / (FEE_SCALE as int)
    }
}

/// The constant-product output for `amount_in` (after the fee) against the two reserves.
pub open spec fn swap_output_spec(reserve_in: u64, reserve_out: u64, amount_in: u64, fee_rate: u64) -> int {
    let x = after_fee_spec(amount_in, fee_rate);
    if reserve_in + x == 0 {
        0
    } else {
        (reserve_out * x) / (reserve_in + x)
    }
}

/// The pool with `id`, if any.
pub open spec fn pool_pos(pools: Seq<LiquidityPool>, id: Seq<char>) -> Option<int> {
    find_first(pools, |p: LiquidityPool| p.pool_id@ == id)
}

/// The reserves a swap of `token_in` reads, input side first, with the output token; `None`
/// when `token_in` is neither of the pool's tokens.
pub open spec fn swap_sides(p: LiquidityPool, token_in: Seq<char>) -> Option<(u64, u64, bool)> {
    if token_in == p.token_a@ {
        Some((p.reserve_a, p.reserve_b, true))
    } else if token_in == p.token_b@ {
        Some((p.reserve_b, p.reserve_a, false))
    } else {
        None
    }
}

/// The liquidity minted for a deposit: the integer square root of the product for an empty
/// pool, else the smaller of the two proportional shares.
pub open spec fn minted_spec(p: LiquidityPool, amount_a: u64, amount_b: u64) -> int {
    if p.total_liquidity == 0 {
        choose|r: int| #[trigger] is_isqrt(amount_a * amount_b, r)
    } else {
        let la = if p.reserve_a == 0 { 0 } else { (amount_a * p.total_liquidity) / (p.reserve_a as int) };
        let lb = if p.reserve_b == 0 { 0 } else { (amount_b * p.total_liquidity) / (p.reserve_b as int) };
        if la <= lb { la } else { lb }
    }
}

/// The bytes a trade's hash is taken over: the pool id, the trader and the time.
pub open spec fn trade_key_spec(pool_id: Seq<char>, trader: Seq<char>, now: u64) -> Seq<u8> {
    encode_str_spec(pool_id) + encode_str_spec(trader) + spec_u64_to_le_bytes(now)
}

/// Sum of a pool field over all pools.
pub open spec fn sum_pools(s: Seq<LiquidityPool>, f: spec_fn(LiquidityPool) -> u64) -> int
    decreases s.len(),
{
    if s.len() == 0 {
        0
    } else {
        sum_pools(s.drop_last(), f) + f(s.last())
    }
}

fn copy_pool(p: &LiquidityPool) -> (r: LiquidityPool)
    ensures
        r == *p,
{
    LiquidityPool {
        pool_id: p.pool_id.clone(),
        token_a: p.token_a.clone(),
        token_b: p.token_b.clone(),
        reserve_a: p.reserve_a,
        reserve_b: p.reserve_b,
        total_liquidity: p.total_liquidity,
        fee_rate: p.fee_rate,
        total_volume: p.total_volume,
        total_fees_collected: p.total_fees_collected,
        providers: p.providers,
    }
}

fn copy_trade(t: &Trade) -> (r: Trade)
    ensures
        r == *t,
{
    Trade {
        trade_hash: t.trade_hash,
        pool_id: t.pool_id.clone(),
        trader: t.trader.clone(),
        token_in: t.token_in.clone(),
        token_out: t.token_out.clone(),
        amount_in: t.amount_in,
        amount_out: t.amount_out,
        fee_paid: t.fee_paid,
        timestamp: t.timestamp,
    }
}

fn copy_order(o: &Order) -> (r: Order)
    ensures
        r == *o,
{
    Order {
        order_id: o.order_id,
        trader: o.trader.clone(),
        order_type: o.order_type,
        token_in: o.token_in.clone(),
        token_out: o.token_out.clone(),
        amount_in: o.amount_in,
        min_amount_out: o.min_amount_out,
        status: o.status,
        created_at: o.created_at,
        filled_at: o.filled_at,
    }
}

/// The after-fee amount (see `after_fee_spec`).
fn after_fee(amount_in: u64, fee_rate: u64) -> (x: u64)
    ensures
        x == after_fee_spec(amount_in, fee_rate),
        x <= amount_in,
{
    if fee_rate >= FEE_SCALE {
        0
    } else {
        let prod: u128 = mul_wide(amount_in, FEE_SCALE - fee_rate);
        assert(prod <= amount_in * 1_000_000) by (nonlinear_arith)
            requires
                prod == amount_in * (FEE_SCALE - fee_rate),
                fee_rate < FEE_SCALE,
        ;
        let x = prod / (FEE_SCALE as u128);
        assert(x <= amount_in) by (nonlinear_arith)
            requires
                x == prod / 1_000_000u128,
                prod <= amount_in * 1_000_000,
        ;
        x as u64
    }
}

/// The constant-product output (see `swap_output_spec`).
fn swap_output(reserve_in: u64, reserve_out: u64, amount_in: u64, fee_rate: u64) -> (out: u64)
    ensures
        out == swap_output_spec(reserve_in, reserve_out, amount_in, fee_rate),
        reserve_in > 0 ==> out < reserve_out || reserve_out == 0,
        out <= reserve_out,
{
    let x = after_fee(amount_in, fee_rate);
    let denom: u128 = reserve_in as u128 + x as u128;
    if denom == 0 {
        return 0;
    }
    let num: u128 = mul_wide(reserve_out, x);
    let out = num / denom;
    assert(out <= reserve_out) by (nonlinear_arith)
        requires
            out == num / denom,
            num == reserve_out * x,
            denom == reserve_in + x,
            denom > 0,
    ;
    assert(reserve_in > 0 ==> out < reserve_out || reserve_out == 0) by (nonlinear_arith)
        requires
            out == num / denom,
            num == reserve_out * x,
            denom == reserve_in + x,
            denom > 0,
    ;
    out as u64
}

/// DEX with constant-product liquidity pools and an order book.
pub struct DEXManager {
    pools: Vec<LiquidityPool>,
    orders: Vec<Order>,
    trades: Vec<Trade>,
    order_counter: u64,
}

impl DEXManager {
    pub closed spec fn pools(&self) -> Seq<LiquidityPool> {
        self.pools@
    }

    pub closed spec fn orders(&self) -> Seq<Order> {
        self.orders@
    }

    pub closed spec fn trades(&self) -> Seq<Trade> {
        self.trades@
    }

    pub closed spec fn next_order_id(&self) -> u64 {
        self.order_counter
    }

    /// The pool with `id`, if any.
    pub open spec fn pool(&self, id: Seq<char>) -> Option<LiquidityPool> {
        match pool_pos(self.pools(), id) {
            Some(i) => Some(self.pools()[i]),
            None => None,
        }
    }

    /// Every pool has nonzero reserves, and no two trades share a hash.
    pub closed spec fn wf(&self) -> bool {
        &&& forall|i: int|
            0 <= i < self.pools@.len() ==> #[trigger] self.pools@[i].reserve_a > 0
                && self.pools@[i].reserve_b > 0
        &&& forall|i: int, j: int|
            0 <= i < j < self.trades@.len() ==> self.trades@[i].trade_hash@
                != self.trades@[j].trade_hash@
    }

    pub fn new() -> (d: Self)
        ensures
            d.wf(),
            d.pools() == Seq::<LiquidityPool>::empty(),
            d.orders() == Seq::<Order>::empty(),
            d.trades() == Seq::<Trade>::empty(),
            d.next_order_id() == 0,
    {
        DEXManager { pools: Vec::new(), orders: Vec::new(), trades: Vec::new(), order_counter: 0 }
    }

    fn find_pool(&self, pool_id: &str) -> (r: Option<usize>)
        ensures
            match r {
                Some(i) => pool_pos(self.pools(), pool_id@) == Some(i as int) && (i as int) < self.pools@.len(),
                None => pool_pos(self.pools(), pool_id@) is None,
            },
    {
        let key = pool_id.to_owned();
        let ghost pred = |p: LiquidityPool| p.pool_id@ == pool_id@;
        let mut i: usize = 0;
        while i < self.pools.len()
            invariant
                0 <= i <= self.pools@.len(),
                key@ == pool_id@,
                pred == (|p: LiquidityPool| p.pool_id@ == pool_id@),
                forall|j: int| 0 <= j < i ==> !pred(#[trigger] self.pools@[j]),
            decreases self.pools@.len() - i,
        {
            if self.pools[i].pool_id == key {
                proof {
                    lemma_find_first_at(self.pools@, pred, i as int);
                }
                return Some(i);
            }
            i = i + 1;
        }
        proof {
            lemma_find_first(self.pools@, pred);
        }
        None
    }

    /// Create a new liquidity pool; its liquidity is the integer square root of the product
    /// of the two initial reserves.
    pub fn create_pool(
        &mut self,
        pool_id: String,
        token_a: String,
        token_b: String,
        initial_reserve_a: u64,
        initial_reserve_b: u64,
        fee_rate: u64,
    ) -> (r: Result<LiquidityPool, DexError>)
        requires
            old(self).wf(),
        ensures
            final(self).wf(),
            old(self).pool(pool_id@) is Some ==> r == Err::<LiquidityPool, DexError>(
                DexError::PoolAlreadyExists,
            ) && *final(self) == *old(self),
            old(self).pool(pool_id@) is None && (initial_reserve_a == 0 || initial_reserve_b == 0)
                ==> r == Err::<LiquidityPool, DexError>(DexError::ZeroInitialReserve) && *final(self) == *old(self),
            old(self).pool(pool_id@) is None && initial_reserve_a > 0 && initial_reserve_b > 0
                ==> (r matches Ok(p) && {
                &&& p.pool_id == pool_id
                &&& p.token_a == token_a
                &&& p.token_b == token_b
                &&& p.reserve_a == initial_reserve_a
                &&& p.reserve_b == initial_reserve_b
                &&& is_isqrt(initial_reserve_a * initial_reserve_b, p.total_liquidity as int)
                &&& p.fee_rate == fee_rate
                &&& p.total_volume == 0
                &&& p.total_fees_collected == 0
                &&& p.providers == 1
                &&& final(self).pools() == old(self).pools().push(p)
                &&& final(self).orders() == old(self).orders()
                &&& final(self).trades() == old(self).trades()
                &&& final(self).next_order_id() == old(self).next_order_id()
            }),
    {
        if self.find_pool(pool_id.as_str()).is_some() {
            return Err(DexError::PoolAlreadyExists);
        }
        if initial_reserve_a == 0 || initial_reserve_b == 0 {
            return Err(DexError::ZeroInitialReserve);
        }
        let total_liquidity = isqrt_u128(mul_wide(initial_reserve_a, initial_reserve_b));
        let pool = LiquidityPool {
            pool_id,
            token_a,
            token_b,
            reserve_a: initial_reserve_a,
            reserve_b: initial_reserve_b,
            total_liquidity,
            fee_rate,
            total_volume: 0,
            total_fees_collected: 0,
            providers: 1,
        };
        self.pools.push(copy_pool(&pool));
        Ok(pool)
    }

    /// Add liquidity to a pool; returns the liquidity minted (see `minted_spec`).
    pub fn add_liquidity(&mut self, pool_id: &str, amount_a: u64, amount_b: u64) -> (r: Result<
        u64,
        DexError,
    >)
        requires
            old(self).wf(),
            old(self).pool(pool_id@) matches Some(p) ==> {
                &&& p.reserve_a + amount_a <= u64::MAX
                &&& p.reserve_b + amount_b <= u64::MAX
                &&& p.total_liquidity + minted_spec(p, amount_a, amount_b) <= u64::MAX
                &&& p.providers + 1 <= u64::MAX
            },
        ensures
            final(self).wf(),
            old(self).pool(pool_id@) is None ==> r == Err::<u64, DexError>(DexError::PoolNotFound)
                && *final(self) == *old(self),
            old(self).pool(pool_id@) matches Some(p) ==> (r matches Ok(minted) && {
                let i = pool_pos(old(self).pools(), pool_id@).unwrap();
                &&& minted == minted_spec(p, amount_a, amount_b)
                &&& final(self).pools() == old(self).pools().update(
                    i,
                    LiquidityPool {
                        reserve_a: (p.reserve_a + amount_a) as u64,
                        reserve_b: (p.reserve_b + amount_b) as u64,
                        total_liquidity: (p.total_liquidity + minted) as u64,
                        providers: (p.providers + 1) as u64,
                        ..p
                    },
                )
                &&& final(self).orders() == old(self).orders()
                &&& final(self).trades() == old(self).trades()
                &&& final(self).next_order_id() == old(self).next_order_id()
            }),
    {
        let idx = match self.find_pool(pool_id) {
            None => {
                return Err(DexError::PoolNotFound);
            },
            Some(i) => i,
        };
        proof {
            lemma_find_first(self.pools@, |p: LiquidityPool| p.pool_id@ == pool_id@);
        }
        let ghost p = self.pools@[idx as int];
        let reserve_a = self.pools[idx].reserve_a;
        let reserve_b = self.pools[idx].reserve_b;
        let total = self.pools[idx].total_liquidity;
        let liquidity_minted: u64 = if total == 0 {
            let r = isqrt_u128(mul_wide(amount_a, amount_b));
            proof {
                let w = choose|w: int| #[trigger] is_isqrt(amount_a * amount_b, w);
                lemma_isqrt_unique(amount_a * amount_b, w, r as int);
            }
            r
        } else {
            let la = mul_wide(amount_a, total) / (reserve_a as u128);
            let lb = mul_wide(amount_b, total) / (reserve_b as u128);
            let m = if la <= lb {
                la
            } else {
                lb
            };
            assert(m <= u64::MAX);
            m as u64
        };
        self.pools[idx].reserve_a = reserve_a + amount_a;
        self.pools[idx].reserve_b = reserve_b + amount_b;
        self.pools[idx].total_liquidity = total + liquidity_minted;
        self.pools[idx].providers = self.pools[idx].providers + 1;
        proof {
            assert(self.pools@ =~= old(self).pools@.update(
                idx as int,
                LiquidityPool {
                    reserve_a: (p.reserve_a + amount_a) as u64,
                    reserve_b: (p.reserve_b + amount_b) as u64,
                    total_liquidity: (p.total_liquidity + liquidity_minted) as u64,
                    providers: (p.providers + 1) as u64,
                    ..p
                },
            ));
        }
        Ok(liquidity_minted)
    }

    /// Swap `amount_in` of `token_in` in a pool (constant product, after the pool's fee).
    /// The clock gives the trade's time; the trade's hash is taken over the pool id, the
    /// trader and that time, and a trade with the same hash is replaced.
    pub fn swap(
        &mut self,
        pool_id: &str,
        trader: String,
        token_in: String,
        amount_in: u64,
        min_amount_out: u64,
    ) -> (r: Result<Trade, DexError>)
        requires
            old(self).wf(),
            old(self).pool(pool_id@) matches Some(p) ==> (swap_sides(p, token_in@) matches Some(
                (rin, rout, a_in),
            ) ==> {
                &&& rin + amount_in <= u64::MAX
                &&& p.total_volume + amount_in <= u64::MAX
                &&& p.total_fees_collected + (amount_in - after_fee_spec(amount_in, p.fee_rate)) <= u64::MAX
            }),
        ensures
            final(self).wf(),
            old(self).pool(pool_id@) is None ==> r == Err::<Trade, DexError>(DexError::PoolNotFound)
                && *final(self) == *old(self),
            old(self).pool(pool_id@) matches Some(p) ==> match swap_sides(p, token_in@) {
                None => r == Err::<Trade, DexError>(DexError::TokenNotInPool) && *final(self) == *old(self),
                Some((rin, rout, a_in)) => {
                    let out = swap_output_spec(rin, rout, amount_in, p.fee_rate);
                    let fee = amount_in - after_fee_spec(amount_in, p.fee_rate);
                    let i = pool_pos(old(self).pools(), pool_id@).unwrap();
                    if out < min_amount_out {
                        &&& r == Err::<Trade, DexError>(
                            DexError::InsufficientOutput {
                                amount_out: out as u64,
                                min_amount_out,
                            },
                        )
                        &&& *final(self) == *old(self)
                    } else {
                        r matches Ok(t) && {
                            &&& t.pool_id@ == pool_id@
                            &&& t.trader == trader
                            &&& t.token_in == token_in
                            &&& t.token_out == (if a_in {
                                p.token_b
                            } else {
                                p.token_a
                            })
                            &&& t.amount_in == amount_in
                            &&& t.amount_out == out
                            &&& t.fee_paid == fee
                            &&& t.trade_hash@ == crate::hash_utils::sha256_spec(
                                trade_key_spec(pool_id@, trader@, t.timestamp),
                            )
                            &&& final(self).pools() == old(self).pools().update(
                                i,
                                LiquidityPool {
                                    reserve_a: (if a_in {
                                        p.reserve_a + amount_in
                                    } else {
                                        p.reserve_a - out
                                    }) as u64,
                                    reserve_b: (if a_in {
                                        p.reserve_b - out
                                    } else {
                                        p.reserve_b + amount_in
                                    }) as u64,
                                    total_volume: (p.total_volume + amount_in) as u64,
                                    total_fees_collected: (p.total_fees_collected + fee) as u64,
                                    ..p
                                },
                            )
                            &&& final(self).pools()[i].reserve_a * final(self).pools()[i].reserve_b
                                >= p.reserve_a * p.reserve_b
                            &&& final(self).trades().contains(t)
                            &&& final(self).orders() == old(self).orders()
                            &&& final(self).next_order_id() == old(self).next_order_id()
                        }
                    }
                },
            },
    {
        let idx = match self.find_pool(pool_id) {
            None => {
                return Err(DexError::PoolNotFound);
            },
            Some(i) => i,
        };
        proof {
            lemma_find_first(self.pools@, |p: LiquidityPool| p.pool_id@ == pool_id@);
        }
        let ghost p = self.pools@[idx as int];
        let a_in: bool;
        let reserve_in: u64;
        let reserve_out: u64;
        let token_out: String;
        if token_in == self.pools[idx].token_a {
            a_in = true;
            reserve_in = self.pools[idx].reserve_a;
            reserve_out = self.pools[idx].reserve_b;
            token_out = self.pools[idx].token_b.clone();
        } else if token_in == self.pools[idx].token_b {
            a_in = false;
            reserve_in = self.pools[idx].reserve_b;
            reserve_out = self.pools[idx].reserve_a;
            token_out = self.pools[idx].token_a.clone();
        } else {
            return Err(DexError::TokenNotInPool);
        }
        let fee_rate = self.pools[idx].fee_rate;
        let amount_in_with_fee = after_fee(amount_in, fee_rate);
        let amount_out = swap_output(reserve_in, reserve_out, amount_in, fee_rate);
        if amount_out < min_amount_out {
            return Err(DexError::InsufficientOutput { amount_out, min_amount_out });
        }
        let fee_paid = amount_in - amount_in_with_fee;
        proof {
            lemma_swap_keeps_product(reserve_in, reserve_out, amount_in, fee_rate);
            let new_in = reserve_in + amount_in;
            let new_out = reserve_out - amount_out;
            assert(new_out * new_in == new_in * new_out) by (nonlinear_arith);
            assert(reserve_out * reserve_in == reserve_in * reserve_out) by (nonlinear_arith);
        }
        if a_in {
            self.pools[idx].reserve_a = reserve_in + amount_in;
            self.pools[idx].reserve_b = reserve_out - amount_out;
        } else {
            self.pools[idx].reserve_b = reserve_in + amount_in;
            self.pools[idx].reserve_a = reserve_out - amount_out;
        }
        self.pools[idx].total_volume = self.pools[idx].total_volume + amount_in;
        self.pools[idx].total_fees_collected = self.pools[idx].total_fees_collected + fee_paid;
        proof {
            assert(self.pools@ =~= old(self).pools@.update(
                idx as int,
                LiquidityPool {
                    reserve_a: (if a_in {
                        p.reserve_a + amount_in
                    } else {
                        p.reserve_a - amount_out
                    }) as u64,
                    reserve_b: (if a_in {
                        p.reserve_b - amount_out
                    } else {
                        p.reserve_b + amount_in
                    }) as u64,
                    total_volume: (p.total_volume + amount_in) as u64,
                    total_fees_collected: (p.total_fees_collected + fee_paid) as u64,
                    ..p
                },
            ));
            assert forall|k: int| 0 <= k < self.pools@.len() implies #[trigger] self.pools@[k].reserve_a
                > 0 && self.pools@[k].reserve_b > 0 by {
                if k != idx {
                    assert(self.pools@[k] == old(self).pools@[k]);
                }
            }
        }
        let now = now_secs();
        let trade_hash = trade_hash_of(pool_id, trader.as_str(), now);
        let trade = Trade {
            trade_hash,
            pool_id: pool_id.to_owned(),
            trader,
            token_in,
            token_out,
            amount_in,
            amount_out,
            fee_paid,
            timestamp: now,
        };
        self.put_trade(copy_trade(&trade));
        Ok(trade)
    }

    /// Store a trade, replacing one with the same hash.
    fn put_trade(&mut self, t: Trade)
        requires
            old(self).wf(),
        ensures
            final(self).wf(),
            final(self).trades().contains(t),
            final(self).pools() == old(self).pools(),
            final(self).orders() == old(self).orders(),
            final(self).next_order_id() == old(self).next_order_id(),
    {
        let mut i: usize = 0;
        while i < self.trades.len()
            invariant
                0 <= i <= self.trades@.len(),
                self.trades@ == old(self).trades@,
                self.pools@ == old(self).pools@,
                self.orders@ == old(self).orders@,
                self.order_counter == old(self).order_counter,
                self.wf(),
                forall|j: int| 0 <= j < i ==> self.trades@[j].trade_hash@ != t.trade_hash@,
            decreases self.trades@.len() - i,
        {
            if self.trades[i].trade_hash == t.trade_hash {
                self.trades.set(i, t);
                proof {
                    assert(self.trades@[i as int] == t);
                    assert forall|a: int, b: int|
                        0 <= a < b < self.trades@.len() implies self.trades@[a].trade_hash@
                        != self.trades@[b].trade_hash@ by {
                        if a == i {
                            assert(old(self).trades@[b].trade_hash@ != old(self).trades@[a].trade_hash@);
                        } else if b == i {
                            assert(old(self).trades@[b].trade_hash@ != old(self).trades@[a].trade_hash@);
                        }
                    }
                }
                return;
            }
            i = i + 1;
        }
        self.trades.push(t);
        proof {
            assert(self.trades@[self.trades@.len() - 1] == t);
        }
    }

    /// Place an order; it gets the next order id and the clock's time.
    pub fn place_order(
        &mut self,
        trader: String,
        token_in: String,
        token_out: String,
        amount_in: u64,
        min_amount_out: u64,
        order_type: OrderType,
    ) -> (o: Order)
        requires
            old(self).wf(),
        ensures
            final(self).wf(),
            o.order_id == old(self).next_order_id(),
            o.trader == trader,
            o.order_type == order_type,
            o.token_in == token_in,
            o.token_out == token_out,
            o.amount_in == amount_in,
            o.min_amount_out == min_amount_out,
            o.status == OrderStatus::Pending,
            o.filled_at is None,
            final(self).orders() == old(self).orders().push(o),
            final(self).next_order_id() == crate::emergency::bump(old(self).next_order_id()),
            final(self).pools() == old(self).pools(),
            final(self).trades() == old(self).trades(),
    {
        let order_id = self.order_counter;
        self.order_counter = self.order_counter.wrapping_add(1);
        let order = Order {
            order_id,
            trader,
            order_type,
            token_in,
            token_out,
            amount_in,
            min_amount_out,
            status: OrderStatus::Pending,
            created_at: now_secs(),
            filled_at: None,
        };
        self.orders.push(copy_order(&order));
        order
    }

    /// Get a copy of the pool with `pool_id`.
    pub fn get_pool(&self, pool_id: &str) -> (r: Option<LiquidityPool>)
        ensures
            r == self.pool(pool_id@),
    {
        match self.find_pool(pool_id) {
            None => None,
            Some(i) => Some(copy_pool(&self.pools[i])),
        }
    }

    /// Quote a swap: the output `swap` would give, without changing anything.
    pub fn get_quote(&self, pool_id: &str, token_in: &str, amount_in: u64) -> (r: Result<
        u64,
        DexError,
    >)
        ensures
            match self.pool(pool_id@) {
                None => r == Err::<u64, DexError>(DexError::PoolNotFound),
                Some(p) => match swap_sides(p, token_in@) {
                    None => r == Err::<u64, DexError>(DexError::TokenNotInPool),
                    Some((rin, rout, _)) => r == Ok::<u64, DexError>(
                        swap_output_spec(rin, rout, amount_in, p.fee_rate) as u64,
                    ),
                },
            },
    {
        let idx = match self.find_pool(pool_id) {
            None => {
                return Err(DexError::PoolNotFound);
            },
            Some(i) => i,
        };
        proof {
            lemma_find_first(self.pools@, |p: LiquidityPool| p.pool_id@ == pool_id@);
        }
        let key = token_in.to_owned();
        let (reserve_in, reserve_out) = if key == self.pools[idx].token_a {
            (self.pools[idx].reserve_a, self.pools[idx].reserve_b)
        } else if key == self.pools[idx].token_b {
            (self.pools[idx].reserve_b, self.pools[idx].reserve_a)
        } else {
            return Err(DexError::TokenNotInPool);
        };
        Ok(swap_output(reserve_in, reserve_out, amount_in, self.pools[idx].fee_rate))
    }

    /// Copies of all pools, in the order they were created.
    pub fn get_all_pools(&self) -> (r: Vec<LiquidityPool>)
        ensures
            r@ == self.pools(),
    {
        let mut r: Vec<LiquidityPool> = Vec::new();
        let mut i: usize = 0;
        while i < self.pools.len()
            invariant
                0 <= i <= self.pools@.len(),
                r@ =~= self.pools@.subrange(0, i as int),
            decreases self.pools@.len() - i,
        {
            r.push(copy_pool(&self.pools[i]));
            i = i + 1;
        }
        assert(r@ =~= self.pools@);
        r
    }

    /// DEX statistics: pool count, the sums of liquidity, volume and fees over all pools, and
    /// the trade and order counts.
    pub fn get_stats(&self) -> (st: DEXStats)
        requires
            sum_pools(self.pools(), |p: LiquidityPool| p.total_liquidity) <= u64::MAX,
            sum_pools(self.pools(), |p: LiquidityPool| p.total_volume) <= u64::MAX,
            sum_pools(self.pools(), |p: LiquidityPool| p.total_fees_collected) <= u64::MAX,
        ensures
            st.total_pools == self.pools().len(),
            st.total_liquidity == sum_pools(self.pools(), |p: LiquidityPool| p.total_liquidity),
            st.total_volume == sum_pools(self.pools(), |p: LiquidityPool| p.total_volume),
            st.total_fees == sum_pools(self.pools(), |p: LiquidityPool| p.total_fees_collected),
            st.total_trades == self.trades().len(),
            st.total_orders == self.orders().len(),
    {
        let ghost fl = |p: LiquidityPool| p.total_liquidity;
        let ghost fv = |p: LiquidityPool| p.total_volume;
        let ghost ff = |p: LiquidityPool| p.total_fees_collected;
        let mut liq: u64 = 0;
        let mut vol: u64 = 0;
        let mut fees: u64 = 0;
        let mut i: usize = 0;
        while i < self.pools.len()
            invariant
                0 <= i <= self.pools@.len(),
                fl == (|p: LiquidityPool| p.total_liquidity),
                fv == (|p: LiquidityPool| p.total_volume),
                ff == (|p: LiquidityPool| p.total_fees_collected),
                sum_pools(self.pools@, fl) <= u64::MAX,
                sum_pools(self.pools@, fv) <= u64::MAX,
                sum_pools(self.pools@, ff) <= u64::MAX,
                liq == sum_pools(self.pools@.subrange(0, i as int), fl),
                vol == sum_pools(self.pools@.subrange(0, i as int), fv),
                fees == sum_pools(self.pools@.subrange(0, i as int), ff),
            decreases self.pools@.len() - i,
        {
            let ghost s = self.pools@;
            assert(s.subrange(0, i + 1).drop_last() =~= s.subrange(0, i as int));
            proof {
                lemma_sum_pools_prefix(s, fl, i + 1);
                lemma_sum_pools_prefix(s, fv, i + 1);
                lemma_sum_pools_prefix(s, ff, i + 1);
            }
            liq = liq + self.pools[i].total_liquidity;
            vol = vol + self.pools[i].total_volume;
            fees = fees + self.pools[i].total_fees_collected;
            i = i + 1;
        }
        assert(self.pools@.subrange(0, self.pools@.len() as int) =~= self.pools@);
        DEXStats {
            total_pools: self.pools.len(),
            total_liquidity: liq,
            total_volume: vol,
            total_fees: fees,
            total_trades: self.trades.len(),
            total_orders: self.orders.len(),
        }
    }
}

impl Default for DEXManager {
    fn default() -> (d: Self)
        ensures
            d.wf(),
            d.pools() == Seq::<LiquidityPool>::empty(),
            d.orders() == Seq::<Order>::empty(),
            d.trades() == Seq::<Trade>::empty(),
            d.next_order_id() == 0,
    {
        Self::new()
    }
}

/// A trade's hash (see `trade_key_spec`).
fn trade_hash_of(pool_id: &str, trader: &str, now: u64) -> (h: crate::hash_utils::Hash)
    ensures
        h@ == crate::hash_utils::sha256_spec(trade_key_spec(pool_id@, trader@, now)),
{
    let mut bytes: Vec<u8> = Vec::new();
    crate::types::append_str(&mut bytes, pool_id);
    crate::types::append_str(&mut bytes, trader);
    crate::types::append_u64(&mut bytes, now);
    assert(bytes@ =~= trade_key_spec(pool_id@, trader@, now));
    crate::hash_utils::Hash::new(bytes.as_slice())
}

proof fn lemma_sum_pools_prefix(s: Seq<LiquidityPool>, f: spec_fn(LiquidityPool) -> u64, n: int)
    requires
        0 < n <= s.len(),
    ensures
        sum_pools(s.subrange(0, n), f) == sum_pools(s.subrange(0, n - 1), f) + f(s[n - 1]),
        sum_pools(s.subrange(0, n - 1), f) + f(s[n - 1]) <= sum_pools(s, f),
    decreases s.len(),
{
    assert(s.subrange(0, n).drop_last() =~= s.subrange(0, n - 1));
    lemma_sum_pools_monotone(s, n);
    assert(sum_pools(s.subrange(0, n), f) <= sum_pools(s, f));
}

proof fn lemma_sum_pools_monotone(s: Seq<LiquidityPool>, n: int)
    requires
        0 <= n <= s.len(),
    ensures
        forall|f: spec_fn(LiquidityPool) -> u64|
            #[trigger] sum_pools(s.subrange(0, n), f) <= sum_pools(s, f),
    decreases s.len() - n,
{
    if n < s.len() {
        lemma_sum_pools_monotone(s, n + 1);
        assert forall|f: spec_fn(LiquidityPool) -> u64|
            #[trigger] sum_pools(s.subrange(0, n), f) <= sum_pools(s, f) by {
            assert(s.subrange(0, n + 1).drop_last() =~= s.subrange(0, n));
            assert(sum_pools(s.subrange(0, n + 1), f) <= sum_pools(s, f));
        }
    } else {
        assert(s.subrange(0, n) =~= s);
    }
}

/// The integer square root is unique.
pub proof fn lemma_isqrt_unique(n: int, a: int, b: int)
    requires
        is_isqrt(n, a),
        is_isqrt(n, b),
    ensures
        a == b,
{
    if a < b {
        assert((a + 1) * (a + 1) <= b * b) by (nonlinear_arith)
            requires
                0 <= a < b,
        ;
    } else if b < a {
        assert((b + 1) * (b + 1) <= a * a) by (nonlinear_arith)
            requires
                0 <= b < a,
        ;
    }
}

/// Which reserve a swap sells into: paying in the pool's first token, the input goes to the
/// first reserve and the output comes out of the second; paying in the second token (and not
/// the first), the other way round; any other token finds no side.
pub proof fn lemma_swap_direction(p: LiquidityPool, token_in: Seq<char>)
    ensures
        token_in == p.token_a@ ==> swap_sides(p, token_in) == Some((p.reserve_a, p.reserve_b, true)),
        token_in != p.token_a@ && token_in == p.token_b@ ==> swap_sides(p, token_in) == Some(
            (p.reserve_b, p.reserve_a, false),
        ),
        token_in != p.token_a@ && token_in != p.token_b@ ==> swap_sides(p, token_in) is None,
{
}

/// A swap never empties a pool and never lowers the product of its reserves: with
/// `out = swap_output_spec(rin, rout, amount_in, fee)` and nonzero reserves,
/// `out < rout` and `(rin + amount_in) * (rout - out) >= rin * rout`.
pub proof fn lemma_swap_keeps_product(rin: u64, rout: u64, amount_in: u64, fee_rate: u64)
    requires
        rin > 0,
        rout > 0,
    ensures
        swap_output_spec(rin, rout, amount_in, fee_rate) < rout,
        (rin + amount_in) * (rout - swap_output_spec(rin, rout, amount_in, fee_rate)) >= rin * rout,
{
    let x = after_fee_spec(amount_in, fee_rate);
    let out = swap_output_spec(rin, rout, amount_in, fee_rate);
    assert(0 <= x <= amount_in) by (nonlinear_arith)
        requires
            x == after_fee_spec(amount_in, fee_rate),
    {
        if fee_rate < FEE_SCALE {
            assert(amount_in * (FEE_SCALE - fee_rate) <= amount_in * 1_000_000);
        }
    }
    let d = rin + x;
    assert(out * d <= rout * x) by (nonlinear_arith)
        requires
            out == (rout * x) / d,
            d > 0,
            x >= 0,
    ;
    assert(out < rout) by (nonlinear_arith)
        requires
            out * d <= rout * x,
            d == rin + x,
            rin > 0,
            rout > 0,
            x >= 0,
            out >= 0,
    ;
    assert((rin + x) * (rout - out) >= rin * rout) by (nonlinear_arith)
        requires
            out * d <= rout * x,
            d == rin + x,
    ;
    assert((rin + amount_in) * (rout - out) >= (rin + x) * (rout - out)) by (nonlinear_arith)
        requires
            x <= amount_in,
            out < rout,
    ;
}

/// Adding liquidity to a pool that already has some never dilutes the providers: the
/// liquidity minted is at most the deposit's proportional share of each reserve
/// (`minted * reserve_a <= amount_a * total_liquidity`, and the same for `b`), and it is the
/// largest amount that is, so the deposit's larger side is not credited beyond the smaller.
pub proof fn lemma_minted_within_both_shares(p: LiquidityPool, amount_a: u64, amount_b: u64)
    requires
        p.reserve_a > 0,
        p.reserve_b > 0,
        p.total_liquidity > 0,
    ensures
        ({
            let m = minted_spec(p, amount_a, amount_b);
            &&& m >= 0
            &&& m * p.reserve_a <= amount_a * p.total_liquidity
            &&& m * p.reserve_b <= amount_b * p.total_liquidity
            &&& (m + 1) * p.reserve_a > amount_a * p.total_liquidity || (m + 1) * p.reserve_b > amount_b
                * p.total_liquidity
        }),
{
    let xa = amount_a * p.total_liquidity;
    let xb = amount_b * p.total_liquidity;
    assert(xa >= 0 && xb >= 0) by (nonlinear_arith)
        requires
            xa == amount_a * p.total_liquidity,
            xb == amount_b * p.total_liquidity,
    ;
    lemma_floor_div(xa, p.reserve_a as int);
    lemma_floor_div(xb, p.reserve_b as int);
    let la = xa / (p.reserve_a as int);
    let lb = xb / (p.reserve_b as int);
    let m = minted_spec(p, amount_a, amount_b);
    assert(m == if la <= lb { la } else { lb });
    assert(m * p.reserve_a <= la * p.reserve_a) by (nonlinear_arith)
        requires
            m <= la,
            p.reserve_a > 0,
    ;
    assert(m * p.reserve_b <= lb * p.reserve_b) by (nonlinear_arith)
        requires
            m <= lb,
            p.reserve_b > 0,
    ;
}

/// Every natural number has an integer square root.
proof fn lemma_isqrt_exists(n: nat)
    ensures
        exists|r: int| #[trigger] is_isqrt(n as int, r),
    decreases n,
{
    if n == 0 {
        assert(is_isqrt(0, 0));
    } else {
        lemma_isqrt_exists((n - 1) as nat);
        let r = choose|r: int| #[trigger] is_isqrt((n - 1) as int, r);
        if (r + 1) * (r + 1) <= n {
            assert((r + 2) * (r + 2) > n) by (nonlinear_arith)
                requires
                    r >= 0,
                    n - 1 < (r + 1) * (r + 1),
            ;
            assert(is_isqrt(n as int, r + 1));
        } else {
            assert(is_isqrt(n as int, r));
        }
    }
}

/// The first deposit into an empty pool mints the integer square root of the product of its
/// two amounts: the largest `m` with `m * m <= amount_a * amount_b`.
pub proof fn lemma_first_deposit_mints_sqrt(p: LiquidityPool, amount_a: u64, amount_b: u64)
    requires
        p.total_liquidity == 0,
    ensures
        ({
            let m = minted_spec(p, amount_a, amount_b);
            &&& m >= 0
            &&& m * m <= amount_a * amount_b
            &&& amount_a * amount_b < (m + 1) * (m + 1)
        }),
{
    assert(amount_a * amount_b >= 0) by (nonlinear_arith);
    lemma_isqrt_exists((amount_a * amount_b) as nat);
}

/// A swap's output, over any amounts: the fee of `fee_rate` millionths is taken off the input
/// first, leaving `x`, the largest amount with `x * 1_000_000 <= amount_in * (1_000_000 -
/// fee_rate)` (nothing when the fee is everything); the output is then the largest amount
/// `out` with `out * (reserve_in + x) <= reserve_out * x`, that is, the most that keeps the
/// product of the reserves from falling once `x` is added.
pub proof fn lemma_swap_output_exact(reserve_in: u64, reserve_out: u64, amount_in: u64, fee_rate: u64)
    requires
        reserve_in > 0,
    ensures
        ({
            let x = after_fee_spec(amount_in, fee_rate);
            let out = swap_output_spec(reserve_in, reserve_out, amount_in, fee_rate);
            &&& fee_rate >= 1_000_000 ==> x == 0
            &&& fee_rate < 1_000_000 ==> x * 1_000_000 <= amount_in * (1_000_000 - fee_rate) < (x + 1) * 1_000_000
            &&& x >= 0
            &&& out * (reserve_in + x) <= reserve_out * x < (out + 1) * (reserve_in + x)
            &&& out >= 0
        }),
{
    if fee_rate < 1_000_000 {
        let y = amount_in * (1_000_000 - fee_rate);
        assert(y >= 0) by (nonlinear_arith)
            requires
                y == amount_in * (1_000_000 - fee_rate),
                fee_rate < 1_000_000,
        ;
        lemma_floor_div(y, 1_000_000);
    }
    let x = after_fee_spec(amount_in, fee_rate);
    let z = reserve_out * x;
    assert(z >= 0) by (nonlinear_arith)
        requires
            z == reserve_out * x,
            x >= 0,
    ;
    lemma_floor_div(z, reserve_in + x);
}

} // verus!
