//! Assets whose prices belong together.

use crate::contract::PriceOracleContract;
use crate::env::Env;
use crate::error::{refused_if, reply, ErrorCode};
use crate::price_book::{CorrelationPair, PriceBook};
use crate::types::Address;
use vstd::prelude::*;

verus! {

impl PriceOracleContract {
    /// Sets how the price of `base_asset` may stand to that of `quote_asset`, in ten-thousandths.
    /// A submission of a source that is out of line with its price for the other asset is
    /// flagged.
    pub fn set_correlation_pair(
        &mut self,
        env: &Env,
        base_asset: Address,
        quote_asset: Address,
        min_ratio: u128,
        max_ratio: u128,
        enabled: bool,
    ) -> (r: Result<(), ErrorCode>)
        ensures
            r == reply(
                refused_if(
                    old(self).admin_refusal(*env),
                    min_ratio > max_ratio,
                    ErrorCode::InvalidConfiguration,
                ),
            ),
            r is Err ==> *final(self) == *old(self),
            r is Ok ==> final(self).book.pairs@ == old(self).book.pairs@.insert(
                (base_asset, quote_asset),
                CorrelationPair { min_ratio, max_ratio, enabled },
            ),
            *final(self) == (PriceOracleContract {
                book: PriceBook { pairs: final(self).book.pairs, ..old(self).book },
                ..*old(self)
            }),
    {
        if let Some(e) = self.check_admin(env) {
            return Err(e);
        }
        if min_ratio > max_ratio {
            return Err(ErrorCode::InvalidConfiguration);
        }
        self.book.pairs.insert(
            (base_asset, quote_asset),
            CorrelationPair { min_ratio, max_ratio, enabled },
        );
        Ok(())
    }

    /// Whether a submission of `source` for `asset` was flagged.
    pub open spec fn flagged(self, source: Address, asset: Address) -> bool {
        self.book.flags@.contains_key((source, asset)) && self.book.flags@[(source, asset)]
    }

    /// Whether a submission of `source` for `asset` was flagged.
    pub fn is_correlation_flagged(&self, source: Address, asset: Address) -> (r: bool)
        ensures
            r == self.flagged(source, asset),
    {
        match self.book.flags.get(&(source, asset)) {
            Some(f) => *f,
            None => false,
        }
    }

    /// Takes the flag of `source` for `asset` away.
    pub fn clear_correlation_flag(&mut self, env: &Env, source: Address, asset: Address) -> (r: Result<
        (),
        ErrorCode,
    >)
        ensures
            r == reply(old(self).admin_refusal(*env)),
            r is Err ==> *final(self) == *old(self),
            r is Ok ==> final(self).book.flags@ == old(self).book.flags@.remove((source, asset))
                && !final(self).flagged(source, asset),
            *final(self) == (PriceOracleContract {
                book: PriceBook { flags: final(self).book.flags, ..old(self).book },
                ..*old(self)
            }),
    {
        if let Some(e) = self.check_admin(env) {
            return Err(e);
        }
        let _ = self.book.flags.remove(&(source, asset));
        Ok(())
    }
}

} // verus!
