//! The administrator and the settings.

use crate::aggregation::AggregationMethod;
use crate::contract::{Config, PriceOracleContract, Settings};
use crate::env::Env;
use crate::error::{refused_if, reply, ErrorCode};
use crate::events::Event;
use crate::types::Address;
use vstd::prelude::*;

verus! {

/// The longest description, in characters.
pub const MAX_DESCRIPTION: usize = 256;

/// The largest deviation that can be configured, in ten-thousandths.
pub const MAX_DEVIATION_BPS: u32 = 100_000;

/// `v`, or `default` where `v` is zero.
pub open spec fn or_default(v: u32, default: u32) -> u32 {
    if v == 0 {
        default
    } else {
        v
    }
}

impl PriceOracleContract {
    /// Puts the contract into service. It can be done once.
    ///
    /// A `min_sources_required` of `0` stands for `1`, a `max_history_length` of `0` for `100`.
    pub fn initialize(
        &mut self,
        env: &Env,
        admin: Address,
        min_sources_required: u32,
        max_history_length: u32,
        decimals: u32,
        description: String,
    ) -> (r: Result<(), ErrorCode>)
        ensures
            r == (if old(self).entered {
                Err(ErrorCode::Reentrancy)
            } else if old(self).admin is Some {
                Err(ErrorCode::AlreadyInitialized)
            } else if !env.authorizes(admin) {
                Err(ErrorCode::NotAuthorized)
            } else if description@.len() > MAX_DESCRIPTION {
                Err(ErrorCode::DescriptionTooLong)
            } else {
                Ok(())
            }),
            *final(self) == (if r is Ok {
                PriceOracleContract {
                    admin: Some(admin),
                    description,
                    config: Config {
                        min_sources_required: or_default(min_sources_required, 1),
                        max_history_length: or_default(max_history_length, 100),
                        decimals,
                        ..old(self).config
                    },
                    ..*old(self)
                }
            } else {
                *old(self)
            }),
    {
        if self.entered {
            return Err(ErrorCode::Reentrancy);
        }
        if self.admin.is_some() {
            return Err(ErrorCode::AlreadyInitialized);
        }
        if !env.is_authorized_by(&admin) {
            return Err(ErrorCode::NotAuthorized);
        }
        if description.as_str().unicode_len() > MAX_DESCRIPTION {
            return Err(ErrorCode::DescriptionTooLong);
        }
        self.admin = Some(admin);
        self.description = description;
        self.config = Config {
            min_sources_required: if min_sources_required == 0 {
                1
            } else {
                min_sources_required
            },
            max_history_length: if max_history_length == 0 {
                100
            } else {
                max_history_length
            },
            decimals,
            ..self.config
        };
        Ok(())
    }

    /// Allows the contract's code to be replaced, and gives back the hash of the code to install.
    pub fn upgrade(&self, env: &Env, new_wasm_hash: [u8; 32]) -> (r: Result<[u8; 32], ErrorCode>)
        ensures
            r == (match self.guarded_admin_refusal(*env) {
                Some(e) => Err(e),
                None => Ok(new_wasm_hash),
            }),
    {
        if let Some(e) = self.check_guarded_admin(env) {
            return Err(e);
        }
        Ok(new_wasm_hash)
    }

    /// Makes `new_admin` the administrator.
    pub fn set_admin(&mut self, env: &Env, new_admin: Address) -> (r: Result<(), ErrorCode>)
        ensures
            r == reply(old(self).guarded_admin_refusal(*env)),
            *final(self) == (if r is Ok {
                PriceOracleContract { admin: Some(new_admin), ..*old(self) }
            } else {
                *old(self)
            }),
    {
        if let Some(e) = self.check_guarded_admin(env) {
            return Err(e);
        }
        self.admin = Some(new_admin);
        Ok(())
    }

    /// The administrator.
    pub fn get_admin_address(&self) -> (r: Result<Address, ErrorCode>)
        ensures
            r == (if self.entered {
                Err(ErrorCode::Reentrancy)
            } else {
                match self.admin {
                    Some(a) => Ok(a),
                    None => Err(ErrorCode::NoData),
                }
            }),
    {
        if self.entered {
            return Err(ErrorCode::Reentrancy);
        }
        match &self.admin {
            Some(a) => Ok(*a),
            None => Err(ErrorCode::NoData),
        }
    }

    /// The administrator, if the contract is in service.
    pub fn get_admin(&self) -> (r: Option<Address>)
        ensures
            r == self.admin,
    {
        self.admin
    }

    /// Sets the description.
    pub fn set_description(&mut self, env: &Env, new_description: String) -> (r: Result<(), ErrorCode>)
        ensures
            r == reply(
                refused_if(
                    old(self).guarded_admin_refusal(*env),
                    new_description@.len() > MAX_DESCRIPTION,
                    ErrorCode::DescriptionTooLong,
                ),
            ),
            *final(self) == (if r is Ok {
                PriceOracleContract { description: new_description, ..*old(self) }
            } else {
                *old(self)
            }),
    {
        if let Some(e) = self.check_guarded_admin(env) {
            return Err(e);
        }
        if new_description.as_str().unicode_len() > MAX_DESCRIPTION {
            return Err(ErrorCode::DescriptionTooLong);
        }
        self.description = new_description;
        Ok(())
    }

    /// The description.
    pub fn get_description(&self) -> (r: Result<&String, ErrorCode>)
        ensures
            r == self.guarded(&self.description),
    {
        if self.entered {
            return Err(ErrorCode::Reentrancy);
        }
        Ok(&self.description)
    }

    /// Sets how many sources an aggregate needs: at least one, and no more than are registered, if any is.
    pub fn set_min_sources_required(&mut self, env: &Env, new_min: u32) -> (r: Result<(), ErrorCode>)
        ensures
            r == reply(
                refused_if(
                    old(self).guarded_admin_refusal(*env),
                    new_min == 0 || (old(self).sources.keys().len() > 0 && new_min > old(self).sources.keys().len()),
                    ErrorCode::InvalidConfiguration,
                ),
            ),
            r is Ok ==> PriceOracleContract::configured(
                *old(self),
                *final(self),
                *env,
                Config { min_sources_required: new_min, ..old(self).config },
            ),
            r is Err ==> *final(self) == *old(self),
    {
        if let Some(e) = self.check_guarded_admin(env) {
            return Err(e);
        }
        if new_min == 0 || (self.sources.len() > 0 && new_min as usize > self.sources.len()) {
            return Err(ErrorCode::InvalidConfiguration);
        }
        self.configure(env, Config { min_sources_required: new_min, ..self.config });
        Ok(())
    }

    /// How many sources an aggregate needs.
    pub fn get_min_sources_required(&self) -> (r: Result<u32, ErrorCode>)
        ensures
            r == self.guarded(self.config.min_sources_required),
    {
        if self.entered {
            return Err(ErrorCode::Reentrancy);
        }
        Ok(self.config.min_sources_required)
    }

    /// Sets how many recorded prices are kept for an asset.
    pub fn set_max_history_length(&mut self, env: &Env, new_max: u32) -> (r: Result<(), ErrorCode>)
        ensures
            r == reply(old(self).guarded_admin_refusal(*env)),
            r is Ok ==> PriceOracleContract::configured(
                *old(self),
                *final(self),
                *env,
                Config { max_history_length: new_max, ..old(self).config },
            ),
            r is Err ==> *final(self) == *old(self),
    {
        if let Some(e) = self.check_guarded_admin(env) {
            return Err(e);
        }
        self.configure(env, Config { max_history_length: new_max, ..self.config });
        Ok(())
    }

    /// How many recorded prices are kept for an asset.
    pub fn get_max_history_length(&self) -> (r: Result<u32, ErrorCode>)
        ensures
            r == self.guarded(self.config.max_history_length),
    {
        if self.entered {
            return Err(ErrorCode::Reentrancy);
        }
        Ok(self.config.max_history_length)
    }

    /// Sets the age in seconds beyond which a price is not reported; `0` for no limit.
    pub fn set_resolution(&mut self, env: &Env, new_resolution: u32) -> (r: Result<(), ErrorCode>)
        ensures
            r == reply(old(self).guarded_admin_refusal(*env)),
            r is Ok ==> PriceOracleContract::configured(
                *old(self),
                *final(self),
                *env,
                Config { resolution: new_resolution, ..old(self).config },
            ),
            r is Err ==> *final(self) == *old(self),
    {
        if let Some(e) = self.check_guarded_admin(env) {
            return Err(e);
        }
        self.configure(env, Config { resolution: new_resolution, ..self.config });
        Ok(())
    }

    /// The age in seconds beyond which a price is not reported; `0` for no limit.
    pub fn get_resolution(&self) -> (r: Result<u32, ErrorCode>)
        ensures
            r == self.guarded(self.config.resolution),
    {
        if self.entered {
            return Err(ErrorCode::Reentrancy);
        }
        Ok(self.config.resolution)
    }

    /// Sets the decimals of every price. Prices that are already stored stay as they are.
    pub fn set_decimals(&mut self, env: &Env, new_decimals: u32) -> (r: Result<(), ErrorCode>)
        ensures
            r == reply(old(self).guarded_admin_refusal(*env)),
            r is Ok ==> PriceOracleContract::configured(
                *old(self),
                *final(self),
                *env,
                Config { decimals: new_decimals, ..old(self).config },
            ),
            r is Err ==> *final(self) == *old(self),
    {
        if let Some(e) = self.check_guarded_admin(env) {
            return Err(e);
        }
        self.configure(env, Config { decimals: new_decimals, ..self.config });
        Ok(())
    }

    /// The decimals of every price.
    pub fn get_decimals(&self) -> (r: Result<u32, ErrorCode>)
        ensures
            r == self.guarded(self.config.decimals),
    {
        if self.entered {
            return Err(ErrorCode::Reentrancy);
        }
        Ok(self.config.decimals)
    }

    /// Sets how far ahead of the ledger's time an observation may lie, in seconds.
    pub fn set_timestamp_threshold(&mut self, env: &Env, threshold: u64) -> (r: Result<(), ErrorCode>)
        ensures
            r == reply(old(self).guarded_admin_refusal(*env)),
            r is Ok ==> PriceOracleContract::configured(
                *old(self),
                *final(self),
                *env,
                Config { timestamp_threshold: threshold, ..old(self).config },
            ),
            r is Err ==> *final(self) == *old(self),
    {
        if let Some(e) = self.check_guarded_admin(env) {
            return Err(e);
        }
        self.configure(env, Config { timestamp_threshold: threshold, ..self.config });
        Ok(())
    }

    /// How far ahead of the ledger's time an observation may lie, in seconds.
    pub fn get_timestamp_threshold(&self) -> (r: Result<u64, ErrorCode>)
        ensures
            r == self.guarded(self.config.timestamp_threshold),
    {
        if self.entered {
            return Err(ErrorCode::Reentrancy);
        }
        Ok(self.config.timestamp_threshold)
    }

    /// Sets the largest deviation of a price, in ten-thousandths.
    pub fn set_max_price_deviation(&mut self, env: &Env, deviation_basis_points: u32) -> (r: Result<(), ErrorCode>)
        ensures
            r == reply(
                refused_if(
                    old(self).guarded_admin_refusal(*env),
                    deviation_basis_points > MAX_DEVIATION_BPS,
                    ErrorCode::InvalidConfiguration,
                ),
            ),
            r is Ok ==> PriceOracleContract::configured(
                *old(self),
                *final(self),
                *env,
                Config { max_price_deviation: deviation_basis_points, ..old(self).config },
            ),
            r is Err ==> *final(self) == *old(self),
    {
        if let Some(e) = self.check_guarded_admin(env) {
            return Err(e);
        }
        if deviation_basis_points > MAX_DEVIATION_BPS {
            return Err(ErrorCode::InvalidConfiguration);
        }
        self.configure(env, Config { max_price_deviation: deviation_basis_points, ..self.config });
        Ok(())
    }

    /// The largest deviation of a price, in ten-thousandths.
    pub fn get_max_price_deviation(&self) -> (r: Result<u32, ErrorCode>)
        ensures
            r == self.guarded(self.config.max_price_deviation),
    {
        if self.entered {
            return Err(ErrorCode::Reentrancy);
        }
        Ok(self.config.max_price_deviation)
    }

    /// Sets after how many seconds a silent source counts as inactive.
    pub fn set_heartbeat_interval(&mut self, env: &Env, interval: u64) -> (r: Result<(), ErrorCode>)
        ensures
            r == reply(
                refused_if(
                    old(self).guarded_admin_refusal(*env),
                    interval == 0,
                    ErrorCode::InvalidConfiguration,
                ),
            ),
            r is Ok ==> PriceOracleContract::configured(
                *old(self),
                *final(self),
                *env,
                Config { heartbeat_interval: interval, ..old(self).config },
            ),
            r is Err ==> *final(self) == *old(self),
    {
        if let Some(e) = self.check_guarded_admin(env) {
            return Err(e);
        }
        if interval == 0 {
            return Err(ErrorCode::InvalidConfiguration);
        }
        self.configure(env, Config { heartbeat_interval: interval, ..self.config });
        Ok(())
    }

    /// After how many seconds a silent source counts as inactive.
    pub fn get_heartbeat_interval(&self) -> (r: Result<u64, ErrorCode>)
        ensures
            r == self.guarded(self.config.heartbeat_interval),
    {
        if self.entered {
            return Err(ErrorCode::Reentrancy);
        }
        Ok(self.config.heartbeat_interval)
    }

    /// Sets how many price queries one ledger may hold.
    pub fn set_query_rate_limit(&mut self, env: &Env, max_per_ledger: u32) -> (r: Result<(), ErrorCode>)
        ensures
            r == reply(
                refused_if(
                    old(self).admin_refusal(*env),
                    max_per_ledger == 0,
                    ErrorCode::InvalidConfiguration,
                ),
            ),
            r is Ok ==> PriceOracleContract::configured(
                *old(self),
                *final(self),
                *env,
                Config { query_rate_limit: max_per_ledger, ..old(self).config },
            ),
            r is Err ==> *final(self) == *old(self),
    {
        if let Some(e) = self.check_admin(env) {
            return Err(e);
        }
        if max_per_ledger == 0 {
            return Err(ErrorCode::InvalidConfiguration);
        }
        self.configure(env, Config { query_rate_limit: max_per_ledger, ..self.config });
        Ok(())
    }

    /// How many price queries one ledger may hold.
    pub fn get_query_rate_limit(&self) -> (r: u32)
        ensures
            r == self.config.query_rate_limit,
    {
        self.config.query_rate_limit
    }

    /// Sets how many ledgers must pass between two triggered aggregations.
    pub fn set_aggregation_cooldown(&mut self, env: &Env, cooldown_ledgers: u32) -> (r: Result<(), ErrorCode>)
        ensures
            r == reply(old(self).admin_refusal(*env)),
            *final(self) == (if r is Ok {
                PriceOracleContract {
                    settings: Settings { aggregation_cooldown: cooldown_ledgers, ..old(self).settings },
                    ..*old(self)
                }
            } else {
                *old(self)
            }),
    {
        if let Some(e) = self.check_admin(env) {
            return Err(e);
        }
        self.settings.aggregation_cooldown = cooldown_ledgers;
        Ok(())
    }

    /// How many ledgers must pass between two triggered aggregations.
    pub fn get_aggregation_cooldown(&self) -> (r: u32)
        ensures
            r == self.settings.aggregation_cooldown,
    {
        self.settings.aggregation_cooldown
    }

    /// Sets how many ledgers a source may stay silent and still count; `0` for no limit.
    pub fn set_min_submission_interval(&mut self, env: &Env, interval_ledgers: u32) -> (r: Result<(), ErrorCode>)
        ensures
            r == reply(old(self).admin_refusal(*env)),
            *final(self) == (if r is Ok {
                PriceOracleContract {
                    settings: Settings { min_submission_interval: interval_ledgers, ..old(self).settings },
                    ..*old(self)
                }
            } else {
                *old(self)
            }),
    {
        if let Some(e) = self.check_admin(env) {
            return Err(e);
        }
        self.settings.min_submission_interval = interval_ledgers;
        Ok(())
    }

    /// How many ledgers a source may stay silent and still count; `0` for no limit.
    pub fn get_min_submission_interval(&self) -> (r: u32)
        ensures
            r == self.settings.min_submission_interval,
    {
        self.settings.min_submission_interval
    }

    /// Sets how many sources may be registered; `0` for no limit.
    pub fn set_max_sources(&mut self, env: &Env, new_max: u32) -> (r: Result<(), ErrorCode>)
        ensures
            r == reply(old(self).admin_refusal(*env)),
            *final(self) == (if r is Ok {
                PriceOracleContract {
                    settings: Settings { max_sources: new_max, ..old(self).settings },
                    ..*old(self)
                }
            } else {
                *old(self)
            }),
    {
        if let Some(e) = self.check_admin(env) {
            return Err(e);
        }
        self.settings.max_sources = new_max;
        Ok(())
    }

    /// How many sources may be registered; `0` for no limit.
    pub fn get_max_sources(&self) -> (r: u32)
        ensures
            r == self.settings.max_sources,
    {
        self.settings.max_sources
    }

    /// Sets how many recorded prices are kept for any asset.
    pub fn set_max_history_per_asset(&mut self, env: &Env, new_max: u32) -> (r: Result<(), ErrorCode>)
        ensures
            r == reply(old(self).admin_refusal(*env)),
            *final(self) == (if r is Ok {
                PriceOracleContract {
                    settings: Settings { max_history_per_asset: new_max, ..old(self).settings },
                    ..*old(self)
                }
            } else {
                *old(self)
            }),
    {
        if let Some(e) = self.check_admin(env) {
            return Err(e);
        }
        self.settings.max_history_per_asset = new_max;
        Ok(())
    }

    /// How many recorded prices are kept for any asset.
    pub fn get_max_history_per_asset(&self) -> (r: u32)
        ensures
            r == self.settings.max_history_per_asset,
    {
        self.settings.max_history_per_asset
    }

    /// Sets how many announcements one aggregation may make.
    pub fn set_max_events_per_call(&mut self, env: &Env, new_max: u32) -> (r: Result<(), ErrorCode>)
        ensures
            r == reply(old(self).admin_refusal(*env)),
            *final(self) == (if r is Ok {
                PriceOracleContract {
                    settings: Settings { max_events_per_call: new_max, ..old(self).settings },
                    ..*old(self)
                }
            } else {
                *old(self)
            }),
    {
        if let Some(e) = self.check_admin(env) {
            return Err(e);
        }
        self.settings.max_events_per_call = new_max;
        Ok(())
    }

    /// How many announcements one aggregation may make.
    pub fn get_max_events_per_call(&self) -> (r: u32)
        ensures
            r == self.settings.max_events_per_call,
    {
        self.settings.max_events_per_call
    }

    /// Sets how many sources one aggregation uses; `0` for no limit.
    pub fn set_max_aggregation_sources(&mut self, env: &Env, new_max: u32) -> (r: Result<(), ErrorCode>)
        ensures
            r == reply(old(self).admin_refusal(*env)),
            *final(self) == (if r is Ok {
                PriceOracleContract {
                    settings: Settings { max_aggregation_sources: new_max, ..old(self).settings },
                    ..*old(self)
                }
            } else {
                *old(self)
            }),
    {
        if let Some(e) = self.check_admin(env) {
            return Err(e);
        }
        self.settings.max_aggregation_sources = new_max;
        Ok(())
    }

    /// How many sources one aggregation uses; `0` for no limit.
    pub fn get_max_aggregation_sources(&self) -> (r: u32)
        ensures
            r == self.settings.max_aggregation_sources,
    {
        self.settings.max_aggregation_sources
    }

    /// Chooses how prices are combined: `0` for the median, `1` for the mean, `2` for the
    /// trimmed mean, `3` for the weighted median. The change is announced.
    pub fn set_aggregation_method(&mut self, env: &Env, method: u32) -> (r: Result<(), ErrorCode>)
        ensures
            r == reply(
                refused_if(
                    old(self).guarded_admin_refusal(*env),
                    method > 3,
                    ErrorCode::InvalidConfiguration,
                ),
            ),
            r is Err ==> *final(self) == *old(self),
            r is Ok ==> {
                &&& final(self).settings.aggregation_method.number() == method
                &&& *final(self) == (PriceOracleContract {
                    settings: Settings {
                        aggregation_method: final(self).settings.aggregation_method,
                        ..old(self).settings
                    },
                    events: final(self).events,
                    ..*old(self)
                })
                &&& final(self).events@ == old(self).events@.push(
                    Event::AggregationMethodChanged {
                        method: final(self).settings.aggregation_method,
                    },
                )
            },
    {
        if let Some(e) = self.check_guarded_admin(env) {
            return Err(e);
        }
        match AggregationMethod::from_number(method) {
            Some(m) => {
                self.settings.aggregation_method = m;
                self.events.push(Event::AggregationMethodChanged { method: m });
                Ok(())
            },
            None => Err(ErrorCode::InvalidConfiguration),
        }
    }

    /// The number of the way in which prices are combined.
    pub fn get_aggregation_method(&self) -> (r: u32)
        ensures
            r == self.settings.aggregation_method.number(),
    {
        self.settings.aggregation_method.to_number()
    }

    /// Replaces the resolution for one asset; `0` puts the contract's own into force again.
    pub fn set_asset_resolution(&mut self, env: &Env, asset: Address, resolution: u32) -> (r: Result<
        (),
        ErrorCode,
    >)
        ensures
            r == reply(old(self).admin_refusal(*env)),
            r is Ok ==> final(self).asset_resolution@ == (if resolution == 0 {
                old(self).asset_resolution@.remove(asset)
            } else {
                old(self).asset_resolution@.insert(asset, resolution)
            }),
            *final(self) == (PriceOracleContract {
                asset_resolution: final(self).asset_resolution,
                ..*old(self)
            }),
            r is Err ==> *final(self) == *old(self),
    {
        if let Some(e) = self.check_admin(env) {
            return Err(e);
        }
        if resolution == 0 {
            let _ = self.asset_resolution.remove(&asset);
        } else {
            self.asset_resolution.insert(asset, resolution);
        }
        Ok(())
    }
}

} // verus!
