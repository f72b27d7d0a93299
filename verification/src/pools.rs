//! Pools of two tokens, and the prices that they imply.

use crate::admin::MAX_DEVIATION_BPS;
use crate::aggregation::{capped_deviation, deviation_bps};
use crate::arith::mul_div;
use crate::contract::PriceOracleContract;
use crate::env::Env;
use crate::error::{refused_if, reply, ErrorCode};
use crate::events::Transfer;
use crate::price_book::lookup;
use crate::table::{Key, Table};
use crate::types::{Address, Symbol};
use vstd::prelude::*;

verus! {

/// A weight of a hundred percent, in ten-thousandths.
pub const FULL_WEIGHT_BPS: u32 = 10_000;

/// What is left of a thousand parts after the fee of a swap.
pub const AFTER_FEE: u128 = 997;

/// The parts of which the fee of a swap is taken.
pub const FEE_PARTS: u128 = 1000;

/// The most decimals by which a price can be scaled.
pub const MAX_SCALE: u32 = 38;

/// A pool whose reserves keep their product.
#[derive(Clone, Copy, Debug, PartialEq, Eq)]
pub struct AmmPool {
    pub asset_x: Address,
    pub asset_y: Address,
    pub reserve_x: i128,
    pub reserve_y: i128,
    /// The product of the reserves.
    pub k: i128,
    pub enabled: bool,
}

impl AmmPool {
    /// Whether the reserves are above zero and `k` is their product.
    pub open spec fn sound(self) -> bool {
        self.reserve_x > 0 && self.reserve_y > 0 && self.k == self.reserve_x * self.reserve_y
    }
}

/// How much a pool counts in an aggregation.
#[derive(Clone, Copy, Debug, PartialEq, Eq, Structural)]
pub struct AmmWeightConfig {
    pub weight_bps: u32,
    pub enabled: bool,
}

/// A pool of another exchange.
#[derive(Clone, Copy, Debug, PartialEq, Eq, Structural)]
pub struct SoroswapPool {
    pub reserve_a: i128,
    pub reserve_b: i128,
    pub fee_bps: u32,
    pub enabled: bool,
}

/// The price of a token in another one.
#[derive(Clone, Copy, Debug, PartialEq, Eq)]
pub struct DexPrice {
    /// The token in which the price is given.
    pub paired_asset: Address,
    pub price: i128,
}

/// What one token of a pair is to the other.
#[derive(Clone, Copy, Debug, PartialEq, Eq)]
pub struct DexSide {
    pub paired_asset: Address,
    pub reserve: i128,
    pub paired_reserve: i128,
}

/// The pools.
#[derive(Debug)]
pub struct Pools {
    pub amm: Table<Symbol, AmmPool>,
    /// How far a swap may take a pool from the aggregate, in ten-thousandths.
    pub max_deviation_bps: u32,
    pub weights: Table<Address, AmmWeightConfig>,
    pub soroswap: Table<(Address, Address), SoroswapPool>,
    pub dex: Table<Address, DexSide>,
}

/// What a swap of `amount_in` yields from reserves `x` and `y`.
pub open spec fn swap_output(x: int, y: int, amount_in: int) -> int {
    (amount_in * 997) * y / (x * 1000 + amount_in * 997)
}

/// A swap pays as much as may be paid: one more would take the product of the reserves, with what is
/// paid in counted after the fee, below what it was.
pub proof fn a_swap_pays_all_it_may(x: int, y: int, amount_in: int)
    requires
        x > 0,
        y > 0,
        amount_in > 0,
    ensures
        (1000 * x + 997 * amount_in) * (y - swap_output(x, y, amount_in)) >= 1000 * x * y,
        (1000 * x + 997 * amount_in) * (y - swap_output(x, y, amount_in) - 1) < 1000 * x * y,
{
    let out = swap_output(x, y, amount_in);
    let d = x * 1000 + amount_in * 997;
    let n = (amount_in * 997) * y;
    vstd::arithmetic::div_mod::lemma_fundamental_div_mod(n, d);
    assert((1000 * x + 997 * amount_in) * (y - out) >= 1000 * x * y && (1000 * x + 997 * amount_in) * (y
        - out - 1) < 1000 * x * y) by (nonlinear_arith)
        requires
            n == d * out + n % d,
            0 <= n % d < d,
            d == x * 1000 + amount_in * 997,
            n == (amount_in * 997) * y,
    ;
}

/// A swap takes less than the whole reserve out and never lets the product of the reserves fall.
pub proof fn a_swap_keeps_the_product(x: int, y: int, amount_in: int)
    requires
        x > 0,
        y > 0,
        amount_in > 0,
    ensures
        0 <= swap_output(x, y, amount_in) < y,
        (x + amount_in) * (y - swap_output(x, y, amount_in)) >= x * y,
{
    let i = amount_in * 997;
    let d = x * 1000 + i;
    let out = swap_output(x, y, amount_in);
    assert(i * y >= 0) by (nonlinear_arith)
        requires
            i >= 0,
            y >= 0,
    ;
    vstd::arithmetic::div_mod::lemma_fundamental_div_mod(i * y, d);
    vstd::arithmetic::div_mod::lemma_div_pos_is_pos(i * y, d);
    assert(d * out <= i * y) by (nonlinear_arith)
        requires
            i * y == d * (i * y / d) + (i * y) % d,
            0 <= (i * y) % d,
            out == i * y / d,
    ;
    assert(out < y) by (nonlinear_arith)
        requires
            d * out <= i * y,
            d == x * 1000 + i,
            x > 0,
            y > 0,
            i > 0,
            out >= 0,
    ;
    assert((x + amount_in) * (y - out) >= x * y) by (nonlinear_arith)
        requires
            d * out <= i * y,
            d == x * 1000 + i,
            i == amount_in * 997,
            0 <= out < y,
            x > 0,
            amount_in > 0,
    {
        assert(1000 * ((x + amount_in) * (y - out)) == 1000 * (x * y) + 1000 * (amount_in * y) - 1000 * (
        x * out) - 1000 * (amount_in * out));
        assert(d * out == 1000 * (x * out) + 997 * (amount_in * out));
        assert(i * y == 997 * (amount_in * y));
        assert(amount_in * out <= amount_in * y);
    }
}

/// Ten to the power of `n`.
pub open spec fn ten_to(n: nat) -> nat
    decreases n,
{
    if n == 0 {
        1
    } else {
        10 * ten_to((n - 1) as nat)
    }
}

proof fn lemma_ten_to(n: nat)
    requires
        n <= 38,
    ensures
        0 < ten_to(n) <= 100_000_000_000_000_000_000_000_000_000_000_000_000,
    decreases 38 - n,
{
    reveal_with_fuel(ten_to, 40);
}

pub(crate) proof fn powers_of_ten_are_positive(n: nat)
    ensures
        ten_to(n) > 0,
    decreases n,
{
    if n > 0 {
        powers_of_ten_are_positive((n - 1) as nat);
    }
}

pub(crate) proof fn large_powers_of_ten(n: nat)
    requires
        n > 38,
    ensures
        ten_to(n) > 0x1_0000_0000_0000_0000_0000_0000_0000_0000,
    decreases n,
{
    if n == 39 {
        reveal_with_fuel(ten_to, 41);
    } else {
        large_powers_of_ten((n - 1) as nat);
    }
}

pub(crate) proof fn powers_of_ten_fit(n: nat)
    requires
        n <= 38,
    ensures
        ten_to(n) <= i128::MAX,
{
    lemma_ten_to(n);
}

/// Ten to the power of `n`, if it fits.
pub fn power_of_ten(n: u32) -> (r: Option<u128>)
    ensures
        r is Some <==> n <= MAX_SCALE,
        r matches Some(p) ==> p == ten_to(n as nat) && p > 0,
{
    if n > MAX_SCALE {
        return None;
    }
    let mut p: u128 = 1;
    let mut i: u32 = 0;
    while i < n
        invariant
            i <= n <= 38,
            p == ten_to(i as nat),
        decreases n - i,
    {
        proof {
            lemma_ten_to((i + 1) as nat);
        }
        p = p * 10;
        i += 1;
    }
    proof {
        lemma_ten_to(n as nat);
    }
    Some(p)
}

/// The price of the first token of a pair in the second, with `decimals` decimals.
pub open spec fn spot_price(reserve: i128, paired_reserve: i128, decimals: u32) -> Option<i128> {
    let p = paired_reserve * ten_to(decimals as nat) / (reserve as int);
    if reserve <= 0 || paired_reserve <= 0 || decimals > MAX_SCALE || p > i128::MAX {
        None
    } else {
        Some(p as i128)
    }
}

/// The price of the first token of a pair in the second, with `decimals` decimals.
pub fn spot(reserve: i128, paired_reserve: i128, decimals: u32) -> (r: Option<i128>)
    ensures
        r == spot_price(reserve, paired_reserve, decimals),
{
    if reserve <= 0 || paired_reserve <= 0 {
        return None;
    }
    let scale: u128 = match power_of_ten(decimals) {
        Some(s) => s,
        None => {
            return None;
        },
    };
    proof {
        assert(paired_reserve * scale >= 0) by (nonlinear_arith)
            requires
                paired_reserve >= 0,
                scale >= 0,
        ;
        vstd::arithmetic::div_mod::lemma_div_pos_is_pos(
            paired_reserve * scale,
            reserve as int,
        );
    }
    match mul_div(paired_reserve as u128, scale, reserve as u128) {
        Some(p) => if p <= i128::MAX as u128 {
            Some(p as i128)
        } else {
            None
        },
        None => None,
    }
}

/// The product of two numbers above zero, if it fits.
fn product(a: i128, b: i128) -> (r: Option<i128>)
    requires
        a > 0,
        b > 0,
    ensures
        r == (if a * b <= i128::MAX {
            Some((a * b) as i128)
        } else {
            None
        }),
{
    proof {
        assert(a * b > 0) by (nonlinear_arith)
            requires
                a > 0,
                b > 0,
        ;
    }
    a.checked_mul(b)
}

/// What a pool adds to an aggregation.
#[derive(Clone, Copy, Debug, PartialEq, Eq, Structural)]
pub struct MarketShare {
    /// The price that the pool implies.
    pub price: i128,
    /// How much it counts, in ten-thousandths.
    pub weight_bps: u32,
}

/// The price above zero that a pool implies for `asset`, if it is open and trades it as its first
/// token.
pub open spec fn implied_price(p: AmmPool, asset: Address, decimals: u32) -> Option<i128> {
    if p.enabled && p.asset_x == asset {
        match spot_price(p.reserve_x, p.reserve_y, decimals) {
            Some(s) => if s > 0 {
                Some(s)
            } else {
                None
            },
            None => None,
        }
    } else {
        None
    }
}

/// The price that the oldest of the first `n` pools implies that implies one for `asset`.
pub open spec fn market_price(pools: Table<Symbol, AmmPool>, asset: Address, decimals: u32, n: int) -> Option<
    i128,
>
    decreases n,
{
    if n <= 0 {
        None
    } else {
        match market_price(pools, asset, decimals, n - 1) {
            Some(p) => Some(p),
            None => implied_price(pools@[pools.keys()[n - 1]], asset, decimals),
        }
    }
}

/// What a pool adds to the aggregation of `asset`, if a weight is set for it and a pool implies a
/// price.
pub open spec fn market_share(pools: Pools, asset: Address, decimals: u32) -> Option<MarketShare> {
    match lookup(pools.weights@, asset) {
        Some(w) => if w.enabled && 0 < w.weight_bps <= FULL_WEIGHT_BPS {
            match market_price(pools.amm, asset, decimals, pools.amm.keys().len() as int) {
                Some(price) => Some(MarketShare { price, weight_bps: w.weight_bps }),
                None => None,
            }
        } else {
            None
        },
        None => None,
    }
}

/// The price of the sources, moved towards that of the pool by as many ten-thousandths of their
/// distance as the pool counts, rounded down.
pub open spec fn blended(price: i128, share: Option<MarketShare>) -> i128 {
    match share {
        None => price,
        Some(m) => if m.price >= price {
            (price + (m.price - price) * m.weight_bps / FULL_WEIGHT_BPS as int) as i128
        } else {
            (price - (price - m.price) * m.weight_bps / FULL_WEIGHT_BPS as int) as i128
        },
    }
}

proof fn lemma_part(whole: int, weight_bps: u32)
    requires
        whole >= 0,
        weight_bps <= FULL_WEIGHT_BPS,
    ensures
        0 <= whole * weight_bps / FULL_WEIGHT_BPS as int <= whole,
        weight_bps == FULL_WEIGHT_BPS ==> whole * weight_bps / FULL_WEIGHT_BPS as int == whole,
{
    assert(0 <= whole * weight_bps <= whole * 10_000) by (nonlinear_arith)
        requires
            whole >= 0,
            0 <= weight_bps <= 10_000,
    ;
    assert(weight_bps == 10_000 ==> whole * weight_bps == whole * 10_000) by (nonlinear_arith);
}

/// A blended price lies between that of the sources and that of the pool, and is the pool's where
/// it counts for all.
pub proof fn a_blended_price_lies_between(price: i128, m: MarketShare)
    requires
        m.weight_bps <= FULL_WEIGHT_BPS,
    ensures
        price <= blended(price, Some(m)) <= m.price || m.price <= blended(price, Some(m)) <= price,
        m.weight_bps == FULL_WEIGHT_BPS ==> blended(price, Some(m)) == m.price,
{
    if m.price >= price {
        lemma_part(m.price - price, m.weight_bps);
    } else {
        lemma_part(price - m.price, m.weight_bps);
    }
}

/// What a pool implies is above zero, and it counts for no more than all.
pub proof fn a_market_share_is_sound(pools: Pools, asset: Address, decimals: u32)
    ensures
        market_share(pools, asset, decimals) matches Some(m) ==> m.price > 0 && m.weight_bps
            <= FULL_WEIGHT_BPS,
{
    lemma_market_price(pools.amm, asset, decimals, pools.amm.keys().len() as int);
}

proof fn lemma_market_price(pools: Table<Symbol, AmmPool>, asset: Address, decimals: u32, n: int)
    ensures
        market_price(pools, asset, decimals, n) matches Some(p) ==> p > 0,
    decreases n,
{
    if n > 0 {
        lemma_market_price(pools, asset, decimals, n - 1);
    }
}

/// The price of the sources, moved towards that of the pool by its weight.
pub(crate) fn blend(price: i128, share: Option<MarketShare>) -> (r: i128)
    requires
        price > 0,
        share matches Some(m) ==> m.price > 0 && m.weight_bps <= FULL_WEIGHT_BPS,
    ensures
        r == blended(price, share),
        r > 0,
{
    match share {
        None => price,
        Some(m) => {
            proof {
                a_blended_price_lies_between(price, m);
            }
            let apart: u128 = if m.price >= price {
                (m.price - price) as u128
            } else {
                (price - m.price) as u128
            };
            proof {
                lemma_part(apart as int, m.weight_bps);
            }
            match mul_div(apart, m.weight_bps as u128, FULL_WEIGHT_BPS as u128) {
                Some(part) => if m.price >= price {
                    price + part as i128
                } else {
                    price - part as i128
                },
                None => price,
            }
        },
    }
}

impl AmmPool {
    /// The price above zero that the pool implies for `asset`, if it is open and trades it as its
    /// first token.
    fn implies(&self, asset: &Address, decimals: u32) -> (r: Option<i128>)
        ensures
            r == implied_price(*self, *asset, decimals),
    {
        if !self.enabled || !self.asset_x.same(asset) {
            return None;
        }
        match spot(self.reserve_x, self.reserve_y, decimals) {
            Some(s) => if s > 0 {
                Some(s)
            } else {
                None
            },
            None => None,
        }
    }
}

impl Pools {
    /// What a pool adds to the aggregation of `asset`.
    pub(crate) fn share_of(&self, asset: &Address, decimals: u32) -> (r: Option<MarketShare>)
        ensures
            r == market_share(*self, *asset, decimals),
            r matches Some(m) ==> m.price > 0 && m.weight_bps <= FULL_WEIGHT_BPS,
    {
        proof {
            a_market_share_is_sound(*self, *asset, decimals);
        }
        let weight_bps: u32 = match self.weights.get(asset) {
            Some(w) => if w.enabled && w.weight_bps > 0 && w.weight_bps <= FULL_WEIGHT_BPS {
                w.weight_bps
            } else {
                return None;
            },
            None => {
                return None;
            },
        };
        let mut price: Option<i128> = None;
        let mut i: usize = 0;
        while i < self.amm.len()
            invariant
                i <= self.amm.keys().len(),
                price == market_price(self.amm, *asset, decimals, i as int),
            decreases self.amm.keys().len() - i,
        {
            if price.is_none() {
                let k: Symbol = self.amm.key_at(i);
                if let Some(p) = self.amm.get(&k) {
                    price = p.implies(asset, decimals);
                }
            }
            i += 1;
        }
        match price {
            Some(price) => Some(MarketShare { price, weight_bps }),
            None => None,
        }
    }
}

impl PriceOracleContract {
    /// Whether `post` differs from `pre` only in the constant-product pools.
    pub open spec fn only_amm_differs(pre: Self, post: Self) -> bool {
        post == (PriceOracleContract {
            pools: Pools { amm: post.pools.amm, ..pre.pools },
            transfers: post.transfers,
            ..pre
        })
    }

    /// Opens a pool with its first reserves.
    pub fn amm_init(
        &mut self,
        env: &Env,
        asset: Symbol,
        asset_x: Address,
        asset_y: Address,
        initial_x: i128,
        initial_y: i128,
    ) -> (r: Result<(), ErrorCode>)
        ensures
            r == reply(
                refused_if(
                    refused_if(
                        refused_if(
                            old(self).guarded_admin_refusal(*env),
                            old(self).pools.amm@.contains_key(asset),
                            ErrorCode::PoolAlreadyExists,
                        ),
                        initial_x <= 0 || initial_y <= 0,
                        ErrorCode::InvalidConfiguration,
                    ),
                    initial_x * initial_y > i128::MAX,
                    ErrorCode::ArithmeticOverflow,
                ),
            ),
            r is Err ==> *final(self) == *old(self),
            r is Ok ==> {
                let pool = AmmPool {
                    asset_x,
                    asset_y,
                    reserve_x: initial_x,
                    reserve_y: initial_y,
                    k: (initial_x * initial_y) as i128,
                    enabled: true,
                };
                &&& final(self).pools.amm@ == old(self).pools.amm@.insert(asset, pool)
                &&& pool.sound()
            },
            final(self).transfers == old(self).transfers,
            PriceOracleContract::only_amm_differs(*old(self), *final(self)),
    {
        if let Some(e) = self.check_guarded_admin(env) {
            return Err(e);
        }
        if self.pools.amm.contains_key(&asset) {
            return Err(ErrorCode::PoolAlreadyExists);
        }
        if initial_x <= 0 || initial_y <= 0 {
            return Err(ErrorCode::InvalidConfiguration);
        }
        proof {
            assert(initial_x * initial_y > 0) by (nonlinear_arith)
                requires
                    initial_x > 0,
                    initial_y > 0,
            ;
        }
        match product(initial_x, initial_y) {
            None => Err(ErrorCode::ArithmeticOverflow),
            Some(k) => {
                self.pools.amm.insert(
                    asset,
                    AmmPool {
                        asset_x,
                        asset_y,
                        reserve_x: initial_x,
                        reserve_y: initial_y,
                        k,
                        enabled: true,
                    },
                );
                Ok(())
            },
        }
    }

    /// Adds to the reserves of a pool, which is asked for as two transfers.
    pub fn amm_add_liquidity(
        &mut self,
        env: &Env,
        caller: Address,
        asset: Symbol,
        amount_x: i128,
        amount_y: i128,
    ) -> (r: Result<(), ErrorCode>)
        ensures
            ({
                let p = old(self).pools.amm@[asset];
                let x = p.reserve_x + amount_x;
                let y = p.reserve_y + amount_y;
                &&& r == (if old(self).entered {
                    Err(ErrorCode::Reentrancy)
                } else if !env.authorizes(caller) {
                    Err(ErrorCode::NotAuthorized)
                } else if !old(self).pools.amm@.contains_key(asset) {
                    Err(ErrorCode::PoolNotFound)
                } else if amount_x <= 0 || amount_y <= 0 {
                    Err(ErrorCode::InvalidPrice)
                } else if !(0 < x <= i128::MAX && 0 < y <= i128::MAX && x * y <= i128::MAX) {
                    Err(ErrorCode::ArithmeticOverflow)
                } else {
                    Ok(())
                })
                &&& r is Ok ==> {
                    let pool = AmmPool {
                        reserve_x: x as i128,
                        reserve_y: y as i128,
                        k: (x * y) as i128,
                        ..p
                    };
                    &&& final(self).pools.amm@ == old(self).pools.amm@.insert(asset, pool)
                    &&& pool.sound()
                    &&& final(self).transfers@ == old(self).transfers@.push(
                        Transfer::Receive { token: p.asset_x, from: caller, amount: amount_x },
                    ).push(Transfer::Receive { token: p.asset_y, from: caller, amount: amount_y })
                }
            }),
            r is Err ==> *final(self) == *old(self),
            PriceOracleContract::only_amm_differs(*old(self), *final(self)),
    {
        if self.entered {
            return Err(ErrorCode::Reentrancy);
        }
        if !env.is_authorized_by(&caller) {
            return Err(ErrorCode::NotAuthorized);
        }
        let p: AmmPool = match self.pools.amm.get(&asset) {
            Some(p) => *p,
            None => {
                return Err(ErrorCode::PoolNotFound);
            },
        };
        if amount_x <= 0 || amount_y <= 0 {
            return Err(ErrorCode::InvalidPrice);
        }
        let (x, y) = match (p.reserve_x.checked_add(amount_x), p.reserve_y.checked_add(amount_y)) {
            (Some(x), Some(y)) => (x, y),
            _ => {
                return Err(ErrorCode::ArithmeticOverflow);
            },
        };
        if x <= 0 || y <= 0 {
            return Err(ErrorCode::ArithmeticOverflow);
        }
        match product(x, y) {
            None => Err(ErrorCode::ArithmeticOverflow),
            Some(k) => {
                proof {
                    assert(x * y > 0) by (nonlinear_arith)
                        requires
                            x > 0,
                            y > 0,
                    ;
                }
                self.pools.amm.insert(asset, AmmPool { reserve_x: x, reserve_y: y, k, ..p });
                self.transfers.push(
                    Transfer::Receive { token: p.asset_x, from: caller, amount: amount_x },
                );
                self.transfers.push(
                    Transfer::Receive { token: p.asset_y, from: caller, amount: amount_y },
                );
                Ok(())
            },
        }
    }

    /// The reserves of a pool after a swap: first that of the token paid in, then the other.
    pub open spec fn after_swap(p: AmmPool, forward: bool, amount_in: int) -> (int, int) {
        let (a, b) = if forward {
            (p.reserve_x as int, p.reserve_y as int)
        } else {
            (p.reserve_y as int, p.reserve_x as int)
        };
        (a + amount_in, b - swap_output(a, b, amount_in))
    }

    /// The pool after a swap.
    pub open spec fn swapped(p: AmmPool, forward: bool, amount_in: int) -> AmmPool {
        let (a, b) = Self::after_swap(p, forward, amount_in);
        AmmPool {
            reserve_x: (if forward {
                a
            } else {
                b
            }) as i128,
            reserve_y: (if forward {
                b
            } else {
                a
            }) as i128,
            k: (a * b) as i128,
            ..p
        }
    }

    /// Whether the price that a pool implies is too far from the aggregate of its first token.
    pub open spec fn manipulated(self, p: AmmPool) -> bool {
        match lookup(self.book.aggregates@, p.asset_x) {
            Some(v) => if v.aggregate.price > 0 {
                match spot_price(p.reserve_x, p.reserve_y, self.config.decimals) {
                    Some(s) => s <= 0 || capped_deviation(s, v.aggregate.price)
                        > self.pools.max_deviation_bps,
                    None => true,
                }
            } else {
                false
            },
            None => false,
        }
    }

    fn looks_manipulated(&self, p: &AmmPool) -> (r: bool)
        ensures
            r == self.manipulated(*p),
    {
        match self.book.aggregates.get(&p.asset_x) {
            Some(v) => if v.aggregate.price > 0 {
                match spot(p.reserve_x, p.reserve_y, self.config.decimals) {
                    Some(s) => s <= 0 || deviation_bps(s, v.aggregate.price)
                        > self.pools.max_deviation_bps,
                    None => true,
                }
            } else {
                false
            },
            None => false,
        }
    }

    /// Why a swap is refused, if it is.
    pub open spec fn swap_refusal(
        self,
        env: Env,
        caller: Address,
        asset: Symbol,
        from_asset: Address,
        to_asset: Address,
        amount_in: i128,
        min_return: i128,
    ) -> Option<ErrorCode> {
        let p = self.pools.amm@[asset];
        let forward = from_asset == p.asset_x && to_asset == p.asset_y;
        let backward = from_asset == p.asset_y && to_asset == p.asset_x;
        let (a, b) = Self::after_swap(p, forward, amount_in as int);
        let (x, y) = if forward {
            (p.reserve_x as int, p.reserve_y as int)
        } else {
            (p.reserve_y as int, p.reserve_x as int)
        };
        let out = swap_output(x, y, amount_in as int);
        if self.entered {
            Some(ErrorCode::Reentrancy)
        } else if !env.authorizes(caller) {
            Some(ErrorCode::NotAuthorized)
        } else if !self.pools.amm@.contains_key(asset) || !p.enabled {
            Some(ErrorCode::PoolNotFound)
        } else if !forward && !backward {
            Some(ErrorCode::InvalidConfiguration)
        } else if amount_in <= 0 {
            Some(ErrorCode::InvalidPrice)
        } else if x <= 0 || y <= 0 || x * 1000 + amount_in * 997 > u128::MAX || a > i128::MAX {
            Some(ErrorCode::ArithmeticOverflow)
        } else if out < min_return {
            Some(ErrorCode::SlippageExceeded)
        } else if a * b > i128::MAX {
            Some(ErrorCode::ArithmeticOverflow)
        } else if self.manipulated(Self::swapped(p, forward, amount_in as int)) {
            Some(ErrorCode::AmmPriceManipulation)
        } else {
            None
        }
    }

    /// Swaps `amount_in` of one token of a pool for the other, after a fee of three in a
    /// thousand, and gives back what it yields. What is paid and what is yielded are asked for
    /// as transfers.
    pub fn amm_swap(
        &mut self,
        env: &Env,
        caller: Address,
        asset: Symbol,
        from_asset: Address,
        to_asset: Address,
        amount_in: i128,
        min_return: i128,
    ) -> (r: Result<i128, ErrorCode>)
        ensures
            match r {
                Err(e) => *final(self) == *old(self) && Some(e) == old(self).swap_refusal(
                    *env,
                    caller,
                    asset,
                    from_asset,
                    to_asset,
                    amount_in,
                    min_return,
                ),
                Ok(out) => {
                    let p = old(self).pools.amm@[asset];
                    let forward = from_asset == p.asset_x && to_asset == p.asset_y;
                    let q = PriceOracleContract::swapped(p, forward, amount_in as int);
                    &&& old(self).swap_refusal(
                        *env,
                        caller,
                        asset,
                        from_asset,
                        to_asset,
                        amount_in,
                        min_return,
                    ) is None
                    &&& out == (if forward {
                        swap_output(p.reserve_x as int, p.reserve_y as int, amount_in as int)
                    } else {
                        swap_output(p.reserve_y as int, p.reserve_x as int, amount_in as int)
                    })
                    &&& ({
                        let (x, y) = if forward {
                            (p.reserve_x, p.reserve_y)
                        } else {
                            (p.reserve_y, p.reserve_x)
                        };
                        &&& (1000 * x + 997 * amount_in) * (y - out) >= 1000 * x * y
                        &&& (1000 * x + 997 * amount_in) * (y - out - 1) < 1000 * x * y
                    })
                    &&& final(self).pools.amm@ == old(self).pools.amm@.insert(asset, q)
                    &&& q.sound()
                    &&& p.sound() ==> q.k >= p.k
                    &&& final(self).transfers@ == old(self).transfers@.push(
                        Transfer::Receive { token: from_asset, from: caller, amount: amount_in },
                    ).push(Transfer::Send { token: to_asset, to: caller, amount: out })
                },
            },
            PriceOracleContract::only_amm_differs(*old(self), *final(self)),
    {
        if self.entered {
            return Err(ErrorCode::Reentrancy);
        }
        if !env.is_authorized_by(&caller) {
            return Err(ErrorCode::NotAuthorized);
        }
        let p: AmmPool = match self.pools.amm.get(&asset) {
            Some(p) => *p,
            None => {
                return Err(ErrorCode::PoolNotFound);
            },
        };
        if !p.enabled {
            return Err(ErrorCode::PoolNotFound);
        }
        let forward: bool = from_asset.same(&p.asset_x) && to_asset.same(&p.asset_y);
        let backward: bool = from_asset.same(&p.asset_y) && to_asset.same(&p.asset_x);
        if !forward && !backward {
            return Err(ErrorCode::InvalidConfiguration);
        }
        if amount_in <= 0 {
            return Err(ErrorCode::InvalidPrice);
        }
        let (x, y) = if forward {
            (p.reserve_x, p.reserve_y)
        } else {
            (p.reserve_y, p.reserve_x)
        };
        if x <= 0 || y <= 0 {
            return Err(ErrorCode::ArithmeticOverflow);
        }
        let (out, a, b) = match Self::quote(x, y, amount_in) {
            Some(q) => q,
            None => {
                return Err(ErrorCode::ArithmeticOverflow);
            },
        };
        if out < min_return {
            return Err(ErrorCode::SlippageExceeded);
        }
        let k: i128 = match product(a, b) {
            Some(k) => k,
            None => {
                return Err(ErrorCode::ArithmeticOverflow);
            },
        };
        let q = AmmPool {
            reserve_x: if forward {
                a
            } else {
                b
            },
            reserve_y: if forward {
                b
            } else {
                a
            },
            k,
            ..p
        };
        proof {
            assert(a * b > 0) by (nonlinear_arith)
                requires
                    a > 0,
                    b > 0,
            ;
            assert(a * b == b * a) by (nonlinear_arith);
            assert(x * y == y * x) by (nonlinear_arith);
            assert(q == PriceOracleContract::swapped(p, forward, amount_in as int));
        }
        if self.looks_manipulated(&q) {
            return Err(ErrorCode::AmmPriceManipulation);
        }
        self.pools.amm.insert(asset, q);
        self.transfers.push(Transfer::Receive { token: from_asset, from: caller, amount: amount_in });
        self.transfers.push(Transfer::Send { token: to_asset, to: caller, amount: out });
        Ok(out)
    }

    /// What a swap yields, and the reserves after it; `None` where a number does not fit.
    fn quote(x: i128, y: i128, amount_in: i128) -> (r: Option<(i128, i128, i128)>)
        requires
            x > 0,
            y > 0,
            amount_in > 0,
        ensures
            r is Some <==> x * 1000 + amount_in * 997 <= u128::MAX && x + amount_in <= i128::MAX,
            r matches Some((out, a, b)) ==> {
                &&& out == swap_output(x as int, y as int, amount_in as int)
                &&& a == x + amount_in
                &&& b == y - out
                &&& b > 0
                &&& a * b >= x * y
                &&& (1000 * x + 997 * amount_in) * (y - out) >= 1000 * x * y
                &&& (1000 * x + 997 * amount_in) * (y - out - 1) < 1000 * x * y
            },
    {
        proof {
            a_swap_keeps_the_product(x as int, y as int, amount_in as int);
            a_swap_pays_all_it_may(x as int, y as int, amount_in as int);
        }
        let a: i128 = match x.checked_add(amount_in) {
            Some(a) => a,
            None => {
                return None;
            },
        };
        let paid: u128 = match (amount_in as u128).checked_mul(AFTER_FEE) {
            Some(v) => v,
            None => {
                return None;
            },
        };
        let base: u128 = match (x as u128).checked_mul(FEE_PARTS) {
            Some(v) => v,
            None => {
                return None;
            },
        };
        let whole: u128 = match base.checked_add(paid) {
            Some(v) => v,
            None => {
                return None;
            },
        };
        match mul_div(paid, y as u128, whole) {
            None => None,
            Some(out) => Some((out as i128, a, y - out as i128)),
        }
    }

    /// Opens or closes a pool.
    pub fn amm_set_status(&mut self, env: &Env, asset: Symbol, enabled: bool) -> (r: Result<(), ErrorCode>)
        ensures
            r == reply(
                refused_if(
                    old(self).guarded_admin_refusal(*env),
                    !old(self).pools.amm@.contains_key(asset),
                    ErrorCode::PoolNotFound,
                ),
            ),
            r is Err ==> *final(self) == *old(self),
            r is Ok ==> final(self).pools.amm@ == old(self).pools.amm@.insert(
                asset,
                AmmPool { enabled, ..old(self).pools.amm@[asset] },
            ),
            final(self).transfers == old(self).transfers,
            PriceOracleContract::only_amm_differs(*old(self), *final(self)),
    {
        if let Some(e) = self.check_guarded_admin(env) {
            return Err(e);
        }
        match self.pools.amm.get(&asset) {
            None => Err(ErrorCode::PoolNotFound),
            Some(p) => {
                let p: AmmPool = *p;
                self.pools.amm.insert(asset, AmmPool { enabled, ..p });
                Ok(())
            },
        }
    }

    /// A pool, if there is one.
    pub fn amm_get_pool(&self, asset: Symbol) -> (r: Option<AmmPool>)
        ensures
            r == lookup(self.pools.amm@, asset),
    {
        match self.pools.amm.get(&asset) {
            Some(p) => Some(*p),
            None => None,
        }
    }

    /// Sets how much a pool of `asset` counts in an aggregation: the price that it implies draws
    /// the aggregate towards it by that weight.
    pub fn amm_set_weight(&mut self, env: &Env, asset: Address, weight_bps: u32, enabled: bool) -> (r: Result<
        (),
        ErrorCode,
    >)
        ensures
            r == reply(
                refused_if(
                    old(self).admin_refusal(*env),
                    weight_bps > FULL_WEIGHT_BPS,
                    ErrorCode::InvalidConfiguration,
                ),
            ),
            r is Err ==> *final(self) == *old(self),
            r is Ok ==> final(self).pools.weights@ == old(self).pools.weights@.insert(
                asset,
                AmmWeightConfig { weight_bps, enabled },
            ),
            *final(self) == (PriceOracleContract {
                pools: Pools { weights: final(self).pools.weights, ..old(self).pools },
                ..*old(self)
            }),
    {
        if let Some(e) = self.check_admin(env) {
            return Err(e);
        }
        if weight_bps > FULL_WEIGHT_BPS {
            return Err(ErrorCode::InvalidConfiguration);
        }
        self.pools.weights.insert(asset, AmmWeightConfig { weight_bps, enabled });
        Ok(())
    }

    /// How much a pool of `asset` counts in an aggregation, if that is set.
    pub fn amm_get_weight(&self, asset: Address) -> (r: Option<AmmWeightConfig>)
        ensures
            r == lookup(self.pools.weights@, asset),
    {
        match self.pools.weights.get(&asset) {
            Some(w) => Some(*w),
            None => None,
        }
    }

    /// Registers a pool of another exchange.
    pub fn soroswap_register_pool(
        &mut self,
        env: &Env,
        asset_a: Address,
        asset_b: Address,
        reserve_a: i128,
        reserve_b: i128,
        fee_bps: u32,
    ) -> (r: Result<(), ErrorCode>)
        ensures
            r == reply(
                refused_if(
                    old(self).admin_refusal(*env),
                    reserve_a <= 0 || reserve_b <= 0,
                    ErrorCode::InvalidConfiguration,
                ),
            ),
            r is Err ==> *final(self) == *old(self),
            r is Ok ==> final(self).pools.soroswap@ == old(self).pools.soroswap@.insert(
                (asset_a, asset_b),
                SoroswapPool { reserve_a, reserve_b, fee_bps, enabled: true },
            ),
            *final(self) == (PriceOracleContract {
                pools: Pools { soroswap: final(self).pools.soroswap, ..old(self).pools },
                ..*old(self)
            }),
    {
        if let Some(e) = self.check_admin(env) {
            return Err(e);
        }
        if reserve_a <= 0 || reserve_b <= 0 {
            return Err(ErrorCode::InvalidConfiguration);
        }
        self.pools.soroswap.insert(
            (asset_a, asset_b),
            SoroswapPool { reserve_a, reserve_b, fee_bps, enabled: true },
        );
        Ok(())
    }

    /// A pool of another exchange, if there is one.
    pub fn soroswap_get_pool(&self, asset_a: Address, asset_b: Address) -> (r: Option<SoroswapPool>)
        ensures
            r == lookup(self.pools.soroswap@, (asset_a, asset_b)),
    {
        match self.pools.soroswap.get(&(asset_a, asset_b)) {
            Some(p) => Some(*p),
            None => None,
        }
    }

    /// Opens or closes a pool of another exchange.
    pub fn soroswap_set_pool_status(
        &mut self,
        env: &Env,
        asset_a: Address,
        asset_b: Address,
        enabled: bool,
    ) -> (r: Result<(), ErrorCode>)
        ensures
            r == reply(
                refused_if(
                    old(self).admin_refusal(*env),
                    !old(self).pools.soroswap@.contains_key((asset_a, asset_b)),
                    ErrorCode::PoolNotFound,
                ),
            ),
            r is Err ==> *final(self) == *old(self),
            r is Ok ==> final(self).pools.soroswap@ == old(self).pools.soroswap@.insert(
                (asset_a, asset_b),
                SoroswapPool { enabled, ..old(self).pools.soroswap@[(asset_a, asset_b)] },
            ),
            *final(self) == (PriceOracleContract {
                pools: Pools { soroswap: final(self).pools.soroswap, ..old(self).pools },
                ..*old(self)
            }),
    {
        if let Some(e) = self.check_admin(env) {
            return Err(e);
        }
        match self.soroswap_get_pool(asset_a, asset_b) {
            None => Err(ErrorCode::PoolNotFound),
            Some(p) => {
                self.pools.soroswap.insert((asset_a, asset_b), SoroswapPool { enabled, ..p });
                Ok(())
            },
        }
    }

    /// The price of `asset_a` in `asset_b` that a pool of another exchange implies.
    pub fn get_soroswap_price(&self, asset_a: Address, asset_b: Address) -> (r: Option<i128>)
        ensures
            r == (match lookup(self.pools.soroswap@, (asset_a, asset_b)) {
                Some(p) => if p.enabled {
                    spot_price(p.reserve_a, p.reserve_b, self.config.decimals)
                } else {
                    None
                },
                None => None,
            }),
    {
        match self.soroswap_get_pool(asset_a, asset_b) {
            Some(p) => if p.enabled {
                spot(p.reserve_a, p.reserve_b, self.config.decimals)
            } else {
                None
            },
            None => None,
        }
    }

    /// Registers a pair of tokens that are traded for each other.
    pub fn dex_register_pool(
        &mut self,
        env: &Env,
        asset_a: Address,
        asset_b: Address,
        reserve_a: i128,
        reserve_b: i128,
    ) -> (r: Result<(), ErrorCode>)
        ensures
            r == reply(
                refused_if(
                    old(self).admin_refusal(*env),
                    reserve_a <= 0 || reserve_b <= 0,
                    ErrorCode::InvalidConfiguration,
                ),
            ),
            r is Err ==> *final(self) == *old(self),
            r is Ok ==> final(self).pools.dex@ == old(self).pools.dex@.insert(
                asset_b,
                DexSide { paired_asset: asset_a, reserve: reserve_b, paired_reserve: reserve_a },
            ).insert(
                asset_a,
                DexSide { paired_asset: asset_b, reserve: reserve_a, paired_reserve: reserve_b },
            ),
            *final(self) == (PriceOracleContract {
                pools: Pools { dex: final(self).pools.dex, ..old(self).pools },
                ..*old(self)
            }),
    {
        if let Some(e) = self.check_admin(env) {
            return Err(e);
        }
        if reserve_a <= 0 || reserve_b <= 0 {
            return Err(ErrorCode::InvalidConfiguration);
        }
        self.pools.dex.insert(
            asset_b,
            DexSide { paired_asset: asset_a, reserve: reserve_b, paired_reserve: reserve_a },
        );
        self.pools.dex.insert(
            asset_a,
            DexSide { paired_asset: asset_b, reserve: reserve_a, paired_reserve: reserve_b },
        );
        Ok(())
    }

    /// The price of `asset` in the token that it was last paired with.
    pub fn get_dex_price(&self, asset: Address) -> (r: Option<DexPrice>)
        ensures
            r == (match lookup(self.pools.dex@, asset) {
                Some(d) => match spot_price(d.reserve, d.paired_reserve, self.config.decimals) {
                    Some(price) => Some(DexPrice { paired_asset: d.paired_asset, price }),
                    None => None,
                },
                None => None,
            }),
    {
        match self.pools.dex.get(&asset) {
            Some(d) => match spot(d.reserve, d.paired_reserve, self.config.decimals) {
                Some(price) => Some(DexPrice { paired_asset: d.paired_asset, price }),
                None => None,
            },
            None => None,
        }
    }

    /// Sets how far a swap may take a pool from the aggregate, in ten-thousandths.
    pub fn amm_set_max_deviation_bps(&mut self, env: &Env, bps: u32) -> (r: Result<(), ErrorCode>)
        ensures
            r == reply(
                refused_if(
                    old(self).admin_refusal(*env),
                    bps > MAX_DEVIATION_BPS,
                    ErrorCode::InvalidConfiguration,
                ),
            ),
            *final(self) == (if r is Ok {
                PriceOracleContract {
                    pools: Pools { max_deviation_bps: bps, ..old(self).pools },
                    ..*old(self)
                }
            } else {
                *old(self)
            }),
    {
        if let Some(e) = self.check_admin(env) {
            return Err(e);
        }
        if bps > MAX_DEVIATION_BPS {
            return Err(ErrorCode::InvalidConfiguration);
        }
        self.pools.max_deviation_bps = bps;
        Ok(())
    }

    /// How far a swap may take a pool from the aggregate, in ten-thousandths.
    pub fn amm_get_max_deviation_bps(&self) -> (r: u32)
        ensures
            r == self.pools.max_deviation_bps,
    {
        self.pools.max_deviation_bps
    }
}

} // verus!
