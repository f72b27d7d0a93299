//! Assets whose value follows from that of other assets.

use crate::arith::mul_div;
use crate::bridges::{fits, rescale, rescaled};
use crate::contract::PriceOracleContract;
use crate::env::Env;
use crate::error::{reply, ErrorCode};
use crate::types::{contains_address, Address};
use vstd::prelude::*;

verus! {

/// How deep the components of an asset may be nested.
pub const MAX_DEPTH: usize = 3;

/// The decimals of a fair value.
pub const FAIR_VALUE_DECIMALS: u32 = 18;

/// The whole of an index, in ten-thousandths.
pub const WHOLE_BPS: u128 = 10_000;

/// How an asset is priced.
#[derive(Debug)]
pub enum AssetPricingConfig {
    /// By its own price.
    Direct,
    /// As a share of the reserves of a pool.
    LPToken {
        asset_a: Address,
        reserve_a: u128,
        asset_b: Address,
        reserve_b: u128,
        /// How many shares there are.
        supply: u128,
    },
    /// As a basket of assets, each with its weight in ten-thousandths.
    Index { components: Vec<(Address, u32)> },
    /// By what it would pay if it were exercised now.
    OptionOn {
        underlying: Address,
        /// The agreed price, with the decimals of a fair value.
        strike: u128,
        is_call: bool,
    },
}

/// How far `a` lies above `b`; zero where it does not.
pub open spec fn above(a: u128, b: u128) -> u128 {
    if a > b {
        (a - b) as u128
    } else {
        0
    }
}

/// What `amount` parts of `whole` are worth, rounded down, where the whole is worth `value`.
pub open spec fn part_of(value: Result<u128, ErrorCode>, amount: u128, whole: u128) -> Result<u128, ErrorCode> {
    match value {
        Err(e) => Err(e),
        Ok(v) => if whole > 0 && (amount * v) / whole as int <= u128::MAX {
            Ok(((amount * v) / whole as int) as u128)
        } else {
            Err(ErrorCode::ArithmeticOverflow)
        },
    }
}

/// Two values together.
pub open spec fn together(a: Result<u128, ErrorCode>, b: Result<u128, ErrorCode>) -> Result<u128, ErrorCode> {
    match (a, b) {
        (Err(e), _) => Err(e),
        (_, Err(e)) => Err(e),
        (Ok(x), Ok(y)) => if x + y <= u128::MAX {
            Ok((x + y) as u128)
        } else {
            Err(ErrorCode::ArithmeticOverflow)
        },
    }
}

fn part(value: Result<u128, ErrorCode>, amount: u128, whole: u128) -> (r: Result<u128, ErrorCode>)
    ensures
        r == part_of(value, amount, whole),
{
    match value {
        Err(e) => Err(e),
        Ok(v) => {
            if whole == 0 {
                return Err(ErrorCode::ArithmeticOverflow);
            }
            match mul_div(amount, v, whole) {
                Some(x) => Ok(x),
                None => Err(ErrorCode::ArithmeticOverflow),
            }
        },
    }
}

fn sum_of_values(a: Result<u128, ErrorCode>, b: Result<u128, ErrorCode>) -> (r: Result<u128, ErrorCode>)
    ensures
        r == together(a, b),
{
    match (a, b) {
        (Err(e), _) => Err(e),
        (_, Err(e)) => Err(e),
        (Ok(x), Ok(y)) => match x.checked_add(y) {
            Some(s) => Ok(s),
            None => Err(ErrorCode::ArithmeticOverflow),
        },
    }
}

impl PriceOracleContract {
    /// The reported price of `asset` with the decimals of a fair value.
    pub open spec fn market_value(self, asset: Address) -> Result<u128, ErrorCode> {
        if !self.book.assets@.contains_key(asset) {
            Err(ErrorCode::NoData)
        } else {
            match self.reported(asset) {
                None => Err(ErrorCode::NoData),
                Some(a) => {
                    let v = rescaled(a.price as int, self.decimals_of(asset), FAIR_VALUE_DECIMALS);
                    if fits(v) && v >= 0 {
                        Ok(v as u128)
                    } else {
                        Err(ErrorCode::ArithmeticOverflow)
                    }
                },
            }
        }
    }

    /// The value of `asset`, which is a component of the last asset of `path`, that of the one
    /// before it, and so on.
    pub open spec fn fair_value(self, asset: Address, path: Seq<Address>) -> Result<u128, ErrorCode>
        decreases 8 - path.len(), 0int,
    {
        if !self.exotics@.contains_key(asset) {
            self.market_value(asset)
        } else if path.contains(asset) {
            Err(ErrorCode::ExoticCycleDetected)
        } else if path.len() > MAX_DEPTH {
            Err(ErrorCode::ExoticCycleLimitExceeded)
        } else {
            let inner = path.push(asset);
            match self.exotics@[asset] {
                AssetPricingConfig::Direct => self.market_value(asset),
                AssetPricingConfig::LPToken { asset_a, reserve_a, asset_b, reserve_b, supply } => together(
                    part_of(self.fair_value(asset_a, inner), reserve_a, supply),
                    part_of(self.fair_value(asset_b, inner), reserve_b, supply),
                ),
                AssetPricingConfig::Index { components } => self.basket_value(components@, inner),
                AssetPricingConfig::OptionOn { underlying, strike, is_call } => match self.fair_value(
                    underlying,
                    inner,
                ) {
                    Err(e) => Err(e),
                    Ok(v) => Ok(
                        if is_call {
                            above(v, strike)
                        } else {
                            above(strike, v)
                        },
                    ),
                },
            }
        }
    }

    /// The value of a basket whose components are reached over `path`.
    pub open spec fn basket_value(self, components: Seq<(Address, u32)>, path: Seq<Address>) -> Result<
        u128,
        ErrorCode,
    >
        decreases 8 - path.len(), components.len() + 1,
    {
        if components.len() == 0 {
            Ok(0)
        } else {
            together(
                self.basket_value(components.drop_last(), path),
                part_of(
                    self.fair_value(components.last().0, path),
                    components.last().1 as u128,
                    WHOLE_BPS,
                ),
            )
        }
    }

    fn find_market_value(&self, asset: &Address) -> (r: Result<u128, ErrorCode>)
        ensures
            r == self.market_value(*asset),
    {
        match self.get_aggregate_price(*asset) {
            None => Err(ErrorCode::NoData),
            Some(a) => match rescale(a.price, self.get_asset_decimals(*asset), FAIR_VALUE_DECIMALS) {
                Some(v) => if v >= 0 {
                    Ok(v as u128)
                } else {
                    Err(ErrorCode::ArithmeticOverflow)
                },
                None => Err(ErrorCode::ArithmeticOverflow),
            },
        }
    }

    fn find_fair_value(&self, asset: &Address, path: &mut Vec<Address>) -> (r: Result<u128, ErrorCode>)
        requires
            old(path)@.len() <= MAX_DEPTH + 1,
        ensures
            r == self.fair_value(*asset, old(path)@),
            final(path)@ == old(path)@,
        decreases 8 - old(path)@.len(), 0int,
    {
        let config: &AssetPricingConfig = match self.exotics.get(asset) {
            None => {
                return self.find_market_value(asset);
            },
            Some(c) => c,
        };
        if contains_address(path, asset) {
            return Err(ErrorCode::ExoticCycleDetected);
        }
        if path.len() > MAX_DEPTH {
            return Err(ErrorCode::ExoticCycleLimitExceeded);
        }
        let ghost before = path@;
        path.push(*asset);
        let ghost inner = path@;
        let value: Result<u128, ErrorCode> = match config {
            AssetPricingConfig::Direct => self.find_market_value(asset),
            AssetPricingConfig::LPToken { asset_a, reserve_a, asset_b, reserve_b, supply } => {
                let a = part(self.find_fair_value(asset_a, path), *reserve_a, *supply);
                let b = part(self.find_fair_value(asset_b, path), *reserve_b, *supply);
                sum_of_values(a, b)
            },
            AssetPricingConfig::Index { components } => self.find_basket_value(components, path),
            AssetPricingConfig::OptionOn { underlying, strike, is_call } => match self.find_fair_value(
                underlying,
                path,
            ) {
                Err(e) => Err(e),
                Ok(v) => Ok(
                    if *is_call {
                        v.saturating_sub(*strike)
                    } else {
                        strike.saturating_sub(v)
                    },
                ),
            },
        };
        let _ = path.pop();
        assert(path@ =~= before);
        value
    }

    fn find_basket_value(&self, components: &Vec<(Address, u32)>, path: &mut Vec<Address>) -> (r: Result<
        u128,
        ErrorCode,
    >)
        requires
            0 < old(path)@.len() <= MAX_DEPTH + 1,
        ensures
            r == self.basket_value(components@, old(path)@),
            final(path)@ == old(path)@,
        decreases 8 - old(path)@.len(), 1int,
    {
        let mut value: Result<u128, ErrorCode> = Ok(0);
        let mut i: usize = 0;
        assert(components@.take(0) =~= Seq::<(Address, u32)>::empty());
        while i < components.len()
            invariant
                i <= components@.len(),
                path@ == old(path)@,
                0 < path@.len() <= MAX_DEPTH + 1,
                value == self.basket_value(components@.take(i as int), path@),
            decreases components@.len() - i,
        {
            let (asset, weight) = components[i];
            proof {
                assert(components@.take(i + 1).drop_last() =~= components@.take(i as int));
                assert(components@.take(i + 1).last() == components@[i as int]);
            }
            let next = part(self.find_fair_value(&asset, path), weight as u128, WHOLE_BPS);
            value = sum_of_values(value, next);
            i += 1;
        }
        assert(components@.take(components@.len() as int) =~= components@);
        value
    }

    /// Sets how `asset` is priced.
    pub fn exotic_set_config(&mut self, env: &Env, asset: Address, config: AssetPricingConfig) -> (r: Result<
        (),
        ErrorCode,
    >)
        ensures
            r == reply(old(self).admin_refusal(*env)),
            r is Ok ==> final(self).exotics@ == old(self).exotics@.insert(asset, config),
            *final(self) == (PriceOracleContract { exotics: final(self).exotics, ..*old(self) }),
            r is Err ==> *final(self) == *old(self),
    {
        if let Some(e) = self.check_admin(env) {
            return Err(e);
        }
        self.exotics.insert(asset, config);
        Ok(())
    }

    /// How `asset` is priced, if that was set.
    pub fn exotic_get_config(&self, asset: Address) -> (r: Option<&AssetPricingConfig>)
        ensures
            r == (if self.exotics@.contains_key(asset) {
                Some(&self.exotics@[asset])
            } else {
                None
            }),
    {
        self.exotics.get(&asset)
    }

    /// The fair value of `asset`, with eighteen decimals: the values of its components are worked
    /// out first, as deep as [`MAX_DEPTH`].
    pub fn exotic_get_price(&self, asset: Address) -> (r: Result<i128, ErrorCode>)
        ensures
            r == (if !self.exotics@.contains_key(asset) {
                Err(ErrorCode::ExoticAssetNotConfigured)
            } else {
                match self.fair_value(asset, Seq::empty()) {
                    Err(e) => Err(e),
                    Ok(v) => if v <= i128::MAX {
                        Ok(v as i128)
                    } else {
                        Err(ErrorCode::ArithmeticOverflow)
                    },
                }
            }),
    {
        if !self.exotics.contains_key(&asset) {
            return Err(ErrorCode::ExoticAssetNotConfigured);
        }
        let mut path: Vec<Address> = Vec::new();
        assert(path@ =~= Seq::<Address>::empty());
        match self.find_fair_value(&asset, &mut path) {
            Err(e) => Err(e),
            Ok(v) => if v <= i128::MAX as u128 {
                Ok(v as i128)
            } else {
                Err(ErrorCode::ArithmeticOverflow)
            },
        }
    }
}

proof fn lemma_basket_fails(c: PriceOracleContract, components: Seq<(Address, u32)>, path: Seq<Address>, i: int)
    requires
        0 <= i < components.len(),
        c.fair_value(components[i].0, path) is Err,
    ensures
        c.basket_value(components, path) is Err,
    decreases components.len(),
{
    if i < components.len() - 1 {
        lemma_basket_fails(c, components.drop_last(), path, i);
    }
}

/// A basket that holds itself has no price.
pub proof fn a_basket_of_itself_has_no_price(c: PriceOracleContract, asset: Address, i: int)
    requires
        c.exotics@.contains_key(asset),
        c.exotics@[asset] is Index,
        0 <= i < c.exotics@[asset]->components@.len(),
        c.exotics@[asset]->components@[i].0 == asset,
    ensures
        c.fair_value(asset, Seq::empty()) is Err,
{
    let inner = Seq::empty().push(asset);
    assert(inner[0] == asset);
    assert(c.fair_value(asset, inner) == Err::<u128, ErrorCode>(ErrorCode::ExoticCycleDetected));
    lemma_basket_fails(c, c.exotics@[asset]->components@, inner, i);
}

/// A basket of two components is worth the same in either order.
pub proof fn a_pair_is_worth_the_same_in_either_order(c: PriceOracleContract, x: (Address, u32), y: (Address, u32), path: Seq<Address>)
    ensures
        c.basket_value(seq![x, y], path) matches Ok(v) ==> c.basket_value(seq![y, x], path) == Ok::<
            u128,
            ErrorCode,
        >(v),
{
    assert(seq![x, y].drop_last() =~= seq![x]);
    assert(seq![y, x].drop_last() =~= seq![y]);
    assert(seq![x].drop_last() =~= Seq::<(Address, u32)>::empty());
    assert(seq![y].drop_last() =~= Seq::<(Address, u32)>::empty());
    reveal_with_fuel(PriceOracleContract::basket_value, 3);
}

} // verus!
