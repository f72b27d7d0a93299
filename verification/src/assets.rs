//! The registry of assets.

use crate::contract::{PriceOracleContract, Settings};
use crate::env::Env;
use crate::error::{refused_if, reply, ErrorCode};
use crate::price_book::PriceBook;
use crate::table::{Key, Table};
use crate::types::{Address, Asset, Symbol};
use vstd::prelude::*;

verus! {

impl PriceOracleContract {
    /// Whether `post` is `pre` without the asset `asset` and its aggregate.
    pub open spec fn unregistered(pre: Self, post: Self, asset: Address) -> bool {
        &&& post == (PriceOracleContract {
            book: PriceBook {
                assets: post.book.assets,
                aggregates: post.book.aggregates,
                ..pre.book
            },
            ..pre
        })
        &&& post.book.assets@ == pre.book.assets@.remove(asset)
        &&& post.book.assets.keys() == pre.book.assets.keys().remove_value(asset)
        &&& post.book.aggregates@ == pre.book.aggregates@.remove(asset)
    }

    /// Sets how many assets may be registered.
    pub fn set_max_assets(&mut self, env: &Env, count: u32) -> (r: Result<(), ErrorCode>)
        ensures
            r == reply(
                refused_if(
                    old(self).admin_refusal(*env),
                    count == 0,
                    ErrorCode::InvalidConfiguration,
                ),
            ),
            *final(self) == (if r is Ok {
                PriceOracleContract {
                    settings: Settings { max_assets: count, ..old(self).settings },
                    ..*old(self)
                }
            } else {
                *old(self)
            }),
    {
        if let Some(e) = self.check_admin(env) {
            return Err(e);
        }
        if count == 0 {
            return Err(ErrorCode::InvalidConfiguration);
        }
        self.settings.max_assets = count;
        Ok(())
    }

    /// How many assets may be registered.
    pub fn get_max_assets(&self) -> (r: u32)
        ensures
            r == self.settings.max_assets,
    {
        self.settings.max_assets
    }

    /// Registers `asset`, which may then be priced.
    pub fn register_asset(&mut self, env: &Env, asset: Address) -> (r: Result<(), ErrorCode>)
        ensures
            r == reply(
                refused_if(
                    refused_if(
                        old(self).guarded_admin_refusal(*env),
                        old(self).book.assets@.contains_key(asset),
                        ErrorCode::AssetAlreadyRegistered,
                    ),
                    old(self).book.assets.keys().len() >= old(self).settings.max_assets,
                    ErrorCode::MaxAssetsReached,
                ),
            ),
            r is Err ==> *final(self) == *old(self),
            r is Ok ==> final(self).book.assets@ == old(self).book.assets@.insert(asset, env.ledger)
                && final(self).book.assets.keys() == old(self).book.assets.keys().push(asset),
            *final(self) == (PriceOracleContract {
                book: PriceBook { assets: final(self).book.assets, ..old(self).book },
                ..*old(self)
            }),
    {
        if let Some(e) = self.check_guarded_admin(env) {
            return Err(e);
        }
        if self.book.assets.contains_key(&asset) {
            return Err(ErrorCode::AssetAlreadyRegistered);
        }
        if self.book.assets.len() >= self.settings.max_assets as usize {
            return Err(ErrorCode::MaxAssetsReached);
        }
        self.book.assets.insert(asset, env.ledger);
        Ok(())
    }

    fn forget_asset(&mut self, asset: &Address)
        ensures
            PriceOracleContract::unregistered(*old(self), *final(self), *asset),
    {
        let _ = self.book.assets.remove(asset);
        let _ = self.book.aggregates.remove(asset);
    }

    /// Removes `asset` and its aggregate. What was recorded of it stays.
    pub fn unregister_asset(&mut self, env: &Env, asset: Address) -> (r: Result<(), ErrorCode>)
        ensures
            r == reply(
                refused_if(
                    old(self).guarded_admin_refusal(*env),
                    !old(self).book.assets@.contains_key(asset),
                    ErrorCode::AssetNotRegistered,
                ),
            ),
            r is Err ==> *final(self) == *old(self),
            r is Ok ==> PriceOracleContract::unregistered(*old(self), *final(self), asset),
    {
        if let Some(e) = self.check_guarded_admin(env) {
            return Err(e);
        }
        if !self.book.assets.contains_key(&asset) {
            return Err(ErrorCode::AssetNotRegistered);
        }
        self.forget_asset(&asset);
        Ok(())
    }

    /// Whether `asset` is registered.
    pub fn is_asset_registered(&self, asset: Address) -> (r: Result<bool, ErrorCode>)
        ensures
            r == self.guarded(self.book.assets@.contains_key(asset)),
    {
        if self.entered {
            return Err(ErrorCode::Reentrancy);
        }
        Ok(self.book.assets.contains_key(&asset))
    }

    /// The registered assets, in the order of their registration.
    pub fn get_all_assets(&self) -> (r: Vec<Address>)
        ensures
            r@ == self.book.assets.keys(),
    {
        let mut r: Vec<Address> = Vec::new();
        let mut i: usize = 0;
        while i < self.book.assets.len()
            invariant
                i <= self.book.assets.keys().len(),
                r@ == self.book.assets.keys().take(i as int),
            decreases self.book.assets.keys().len() - i,
        {
            r.push(self.book.assets.key_at(i));
            i += 1;
            assert(r@ =~= self.book.assets.keys().take(i as int));
        }
        assert(r@ =~= self.book.assets.keys());
        r
    }

    /// The registered assets as the standard interface names them.
    pub fn assets(&self) -> (r: Result<Vec<Asset>, ErrorCode>)
        ensures
            match r {
                Err(e) => self.entered && e == ErrorCode::Reentrancy,
                Ok(list) => !self.entered && list@ == self.book.assets.keys().map_values(
                    |a: Address| Asset::Stellar(a),
                ),
            },
    {
        if self.entered {
            return Err(ErrorCode::Reentrancy);
        }
        let ghost all = self.book.assets.keys().map_values(|a: Address| Asset::Stellar(a));
        let mut r: Vec<Asset> = Vec::new();
        let mut i: usize = 0;
        while i < self.book.assets.len()
            invariant
                i <= self.book.assets.keys().len(),
                all == self.book.assets.keys().map_values(|a: Address| Asset::Stellar(a)),
                r@ == all.take(i as int),
            decreases self.book.assets.keys().len() - i,
        {
            r.push(Asset::Stellar(self.book.assets.key_at(i)));
            i += 1;
            assert(r@ =~= all.take(i as int));
        }
        assert(r@ =~= all);
        Ok(r)
    }

    /// The decimals of every price, for the standard interface.
    pub fn decimals(&self) -> (r: Result<u32, ErrorCode>)
        ensures
            r == self.guarded(self.config.decimals),
    {
        self.get_decimals()
    }

    /// The resolution in seconds, for the standard interface.
    pub fn resolution(&self) -> (r: Result<u32, ErrorCode>)
        ensures
            r == self.guarded(self.config.resolution),
    {
        self.get_resolution()
    }

    /// What prices are quoted in: the dollar.
    pub fn base(&self) -> (r: Result<Asset, ErrorCode>)
        ensures
            match r {
                Err(e) => self.entered && e == ErrorCode::Reentrancy,
                Ok(a) => !self.entered && (a matches Asset::Other(s) && s.text@ == dollar()),
            },
    {
        if self.entered {
            return Err(ErrorCode::Reentrancy);
        }
        let mut text: [u8; 32] = [0; 32];
        text[0] = 85;
        text[1] = 83;
        text[2] = 68;
        assert(text@ =~= dollar());
        Ok(Asset::Other(Symbol { text }))
    }

    /// How many ledgers without a price make `asset` inactive; `0` for never.
    pub open spec fn timeout_of(self, asset: Address) -> u32 {
        if self.asset_timeouts@.contains_key(asset) {
            self.asset_timeouts@[asset]
        } else {
            self.settings.inactivity_timeout
        }
    }

    /// Whether `asset` has gone without a price for too long.
    pub open spec fn asset_inactive(self, env: Env, asset: Address) -> bool {
        &&& self.book.assets@.contains_key(asset)
        &&& self.timeout_of(asset) > 0
        &&& env.ledger - self.book.assets@[asset] > self.timeout_of(asset)
    }

    /// Sets after how many ledgers without a price an asset counts as inactive; `0` for never.
    pub fn set_inactivity_timeout(&mut self, env: &Env, timeout_ledgers: u32) -> (r: Result<(), ErrorCode>)
        ensures
            r == reply(old(self).admin_refusal(*env)),
            *final(self) == (if r is Ok {
                PriceOracleContract {
                    settings: Settings { inactivity_timeout: timeout_ledgers, ..old(self).settings },
                    ..*old(self)
                }
            } else {
                *old(self)
            }),
    {
        if let Some(e) = self.check_admin(env) {
            return Err(e);
        }
        self.settings.inactivity_timeout = timeout_ledgers;
        Ok(())
    }

    /// After how many ledgers without a price an asset counts as inactive; `0` for never.
    pub fn get_inactivity_timeout(&self) -> (r: u32)
        ensures
            r == self.settings.inactivity_timeout,
    {
        self.settings.inactivity_timeout
    }

    /// Replaces the inactivity timeout for one asset; `0` puts the contract's own into force again.
    pub fn set_asset_inactivity_timeout(&mut self, env: &Env, asset: Address, timeout_ledgers: u32) -> (r:
        Result<(), ErrorCode>)
        ensures
            r == reply(old(self).admin_refusal(*env)),
            r is Err ==> *final(self) == *old(self),
            r is Ok ==> final(self).asset_timeouts@ == (if timeout_ledgers == 0 {
                old(self).asset_timeouts@.remove(asset)
            } else {
                old(self).asset_timeouts@.insert(asset, timeout_ledgers)
            }),
            *final(self) == (PriceOracleContract {
                asset_timeouts: final(self).asset_timeouts,
                ..*old(self)
            }),
    {
        if let Some(e) = self.check_admin(env) {
            return Err(e);
        }
        if timeout_ledgers == 0 {
            let _ = self.asset_timeouts.remove(&asset);
        } else {
            self.asset_timeouts.insert(asset, timeout_ledgers);
        }
        Ok(())
    }

    /// The inactivity timeout that holds for `asset`.
    pub fn get_asset_inactivity_timeout(&self, asset: Address) -> (r: u32)
        ensures
            r == self.timeout_of(asset),
    {
        match self.asset_timeouts.get(&asset) {
            Some(t) => *t,
            None => self.settings.inactivity_timeout,
        }
    }

    /// Whether `asset` has gone without a price for too long.
    pub fn is_asset_inactive(&self, env: &Env, asset: Address) -> (r: bool)
        ensures
            r == self.asset_inactive(*env, asset),
    {
        let timeout: u32 = self.get_asset_inactivity_timeout(asset);
        match self.book.assets.get(&asset) {
            Some(last) => timeout > 0 && env.ledger > *last && env.ledger - *last > timeout,
            None => false,
        }
    }

    /// Removes `asset` if it has gone without a price for too long.
    pub fn check_and_deregister_if_inactive(&mut self, env: &Env, asset: Address) -> (r: Result<
        (),
        ErrorCode,
    >)
        ensures
            r == reply(
                refused_if(
                    old(self).admin_refusal(*env),
                    !old(self).book.assets@.contains_key(asset),
                    ErrorCode::AssetNotRegistered,
                ),
            ),
            r is Ok && old(self).asset_inactive(*env, asset) ==> PriceOracleContract::unregistered(
                *old(self),
                *final(self),
                asset,
            ),
            !(r is Ok && old(self).asset_inactive(*env, asset)) ==> *final(self) == *old(self),
    {
        if let Some(e) = self.check_admin(env) {
            return Err(e);
        }
        if !self.book.assets.contains_key(&asset) {
            return Err(ErrorCode::AssetNotRegistered);
        }
        if self.is_asset_inactive(env, asset) {
            self.forget_asset(&asset);
        }
        Ok(())
    }

    /// Whether no price is accepted for `asset` for the time being.
    pub open spec fn asset_paused(self, asset: Address) -> bool {
        self.paused_assets@.contains_key(asset)
    }

    /// Accepts no price for `asset` for the time being.
    pub fn pause_asset(&mut self, env: &Env, asset: Address) -> (r: Result<(), ErrorCode>)
        ensures
            r == reply(
                refused_if(
                    old(self).guarded_admin_refusal(*env),
                    !old(self).book.assets@.contains_key(asset),
                    ErrorCode::AssetNotRegistered,
                ),
            ),
            r is Err ==> *final(self) == *old(self),
            r is Ok ==> final(self).paused_assets@ == old(self).paused_assets@.insert(asset, env.ledger),
            *final(self) == (PriceOracleContract {
                paused_assets: final(self).paused_assets,
                ..*old(self)
            }),
    {
        if let Some(e) = self.check_guarded_admin(env) {
            return Err(e);
        }
        if !self.book.assets.contains_key(&asset) {
            return Err(ErrorCode::AssetNotRegistered);
        }
        self.paused_assets.insert(asset, env.ledger);
        Ok(())
    }

    /// Accepts prices for `asset` again.
    pub fn unpause_asset(&mut self, env: &Env, asset: Address) -> (r: Result<(), ErrorCode>)
        ensures
            r == reply(
                refused_if(
                    old(self).guarded_admin_refusal(*env),
                    !old(self).book.assets@.contains_key(asset),
                    ErrorCode::AssetNotRegistered,
                ),
            ),
            r is Err ==> *final(self) == *old(self),
            r is Ok ==> final(self).paused_assets@ == old(self).paused_assets@.remove(asset),
            *final(self) == (PriceOracleContract {
                paused_assets: final(self).paused_assets,
                ..*old(self)
            }),
    {
        if let Some(e) = self.check_guarded_admin(env) {
            return Err(e);
        }
        if !self.book.assets.contains_key(&asset) {
            return Err(ErrorCode::AssetNotRegistered);
        }
        let _ = self.paused_assets.remove(&asset);
        Ok(())
    }

    /// Whether no price is accepted for `asset` for the time being.
    pub fn is_asset_paused(&self, asset: Address) -> (r: bool)
        ensures
            r == self.asset_paused(asset),
    {
        self.paused_assets.contains_key(&asset)
    }

    /// Sets how many ledgers an optimistic proposal may be disputed.
    pub fn set_optimistic_dispute_window(&mut self, env: &Env, dispute_window_ledgers: u32) -> (r: Result<
        (),
        ErrorCode,
    >)
        ensures
            r == reply(
                refused_if(
                    old(self).admin_refusal(*env),
                    dispute_window_ledgers == 0,
                    ErrorCode::InvalidConfiguration,
                ),
            ),
            *final(self) == (if r is Ok {
                PriceOracleContract {
                    settings: Settings {
                        optimistic_dispute_window: dispute_window_ledgers,
                        ..old(self).settings
                    },
                    ..*old(self)
                }
            } else {
                *old(self)
            }),
    {
        if let Some(e) = self.check_admin(env) {
            return Err(e);
        }
        if dispute_window_ledgers == 0 {
            return Err(ErrorCode::InvalidConfiguration);
        }
        self.settings.optimistic_dispute_window = dispute_window_ledgers;
        Ok(())
    }

    /// How many ledgers an optimistic proposal may be disputed.
    pub fn get_optimistic_dispute_window(&self) -> (r: u32)
        ensures
            r == self.settings.optimistic_dispute_window,
    {
        self.settings.optimistic_dispute_window
    }

    /// Sets the least bond of an optimistic proposal or dispute.
    pub fn set_optimistic_min_bond(&mut self, env: &Env, min_bond: i128) -> (r: Result<(), ErrorCode>)
        ensures
            r == reply(
                refused_if(
                    old(self).admin_refusal(*env),
                    min_bond <= 0,
                    ErrorCode::InvalidConfiguration,
                ),
            ),
            *final(self) == (if r is Ok {
                PriceOracleContract {
                    settings: Settings { optimistic_min_bond: min_bond, ..old(self).settings },
                    ..*old(self)
                }
            } else {
                *old(self)
            }),
    {
        if let Some(e) = self.check_admin(env) {
            return Err(e);
        }
        if min_bond <= 0 {
            return Err(ErrorCode::InvalidConfiguration);
        }
        self.settings.optimistic_min_bond = min_bond;
        Ok(())
    }

    /// The least bond of an optimistic proposal or dispute.
    pub fn get_optimistic_min_bond(&self) -> (r: i128)
        ensures
            r == self.settings.optimistic_min_bond,
    {
        self.settings.optimistic_min_bond
    }
}

/// The text of the dollar's symbol.
pub open spec fn dollar() -> Seq<u8> {
    Seq::new(
        32,
        |i: int|
            if i == 0 {
                85u8
            } else if i == 1 {
                83u8
            } else if i == 2 {
                68u8
            } else {
                0u8
            },
    )
}

} // verus!
