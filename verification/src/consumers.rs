//! Those who ask for prices: their subscriptions and their access.

use crate::arith::mul_div;
use crate::contract::{PriceOracleContract, QueryCount};
use crate::env::Env;
use crate::error::{refused_if, reply, ErrorCode};
use crate::events::{Event, Transfer};
use crate::multisig::without_first;
use crate::prices::MAX_TEXT;
use crate::table::Table;
use crate::types::{contains_address, Address, AggregatePrice, Asset, PriceData};
use vstd::prelude::*;

verus! {

/// A paid right to be served until some time.
#[derive(Clone, Copy, Debug, PartialEq, Eq, Structural)]
pub struct Subscription {
    /// When the subscription began, in seconds.
    pub started: u64,
    /// When it ends, in seconds.
    pub expiry: u64,
    /// What it cost.
    pub amount: i128,
}

/// Who may ask for prices.
#[derive(Clone, Copy, Debug, PartialEq, Eq, Structural)]
pub enum ConsumerAccessMode {
    /// Everyone.
    Public,
    /// Those who were granted access.
    AllowedOnly,
    /// All but those whose access was revoked.
    BlockedOnly,
}

impl ConsumerAccessMode {
    /// The number that stands for the mode.
    pub open spec fn number(self) -> u32 {
        match self {
            ConsumerAccessMode::Public => 0,
            ConsumerAccessMode::AllowedOnly => 1,
            ConsumerAccessMode::BlockedOnly => 2,
        }
    }
}

/// Where an observer wants to be told of events of one kind.
#[derive(Debug)]
pub struct NotificationPreference {
    /// The kind of notification.
    pub channel: String,
    /// Where it goes.
    pub target: String,
}

/// Those who ask for prices.
#[derive(Debug)]
pub struct Consumers {
    /// The cost of a subscription by its duration in seconds.
    pub plans: Table<u32, i128>,
    pub subscriptions: Table<Address, Subscription>,
    /// The token in which subscriptions are paid.
    pub token: Option<Address>,
    pub access_mode: ConsumerAccessMode,
    /// Whose access was granted or revoked.
    pub access: Table<Address, bool>,
    /// Who wants to be told of new prices, by asset.
    pub update_subscribers: Table<Address, Vec<Address>>,
    /// What observers want to be told of, by the kind of event.
    pub notifications: Table<u32, Vec<NotificationPreference>>,
}

/// What is paid back of `amount` for a subscription that is cancelled at `now`: the part of its
/// time that is left.
pub open spec fn refund_of(s: Subscription, now: u64) -> int {
    if s.amount <= 0 || now >= s.expiry {
        0
    } else if now <= s.started {
        s.amount as int
    } else {
        s.amount * (s.expiry - now) / (s.expiry - s.started)
    }
}

/// No more is paid back than was paid.
pub proof fn a_refund_is_at_most_the_price(s: Subscription, now: u64)
    ensures
        0 <= refund_of(s, now),
        s.amount >= 0 ==> refund_of(s, now) <= s.amount,
{
    if s.amount > 0 && s.started < now < s.expiry {
        let total = s.expiry - s.started;
        let left = s.expiry - now;
        assert(0 <= s.amount * left <= s.amount * total) by (nonlinear_arith)
            requires
                0 < s.amount,
                0 < left <= total,
        ;
        assert(0 <= s.amount * left / total <= s.amount) by (nonlinear_arith)
            requires
                0 <= s.amount * left <= s.amount * total,
                0 < total,
        ;
    }
}

fn refund(s: &Subscription, now: u64) -> (r: i128)
    ensures
        r == refund_of(*s, now),
{
    proof {
        a_refund_is_at_most_the_price(*s, now);
    }
    if s.amount <= 0 || now >= s.expiry {
        0
    } else if now <= s.started {
        s.amount
    } else {
        match mul_div(s.amount as u128, (s.expiry - now) as u128, (s.expiry - s.started) as u128) {
            Some(x) => x as i128,
            None => s.amount,
        }
    }
}

impl PriceOracleContract {
    /// Whether `post` differs from `pre` only in the subscriptions and in what was asked for.
    pub open spec fn only_subscriptions_differ(pre: Self, post: Self) -> bool {
        post == (PriceOracleContract {
            consumers: Consumers { subscriptions: post.consumers.subscriptions, ..pre.consumers },
            transfers: post.transfers,
            ..pre
        })
    }

    /// Subscribes `consumer` for one of the durations on offer. Where a token is set, the cost is
    /// asked for as a transfer.
    pub fn subscribe(&mut self, env: &Env, consumer: Address, duration: u32) -> (r: Result<(), ErrorCode>)
        ensures
            r == (if !env.authorizes(consumer) {
                Err(ErrorCode::NotAuthorized)
            } else if !old(self).consumers.plans@.contains_key(duration) {
                Err(ErrorCode::InvalidDuration)
            } else if env.timestamp + duration > u64::MAX {
                Err(ErrorCode::ArithmeticOverflow)
            } else {
                Ok(())
            }),
            r is Err ==> *final(self) == *old(self),
            r is Ok ==> {
                let amount = old(self).consumers.plans@[duration];
                &&& final(self).consumers.subscriptions@ == old(self).consumers.subscriptions@.insert(
                    consumer,
                    Subscription {
                        started: env.timestamp,
                        expiry: (env.timestamp + duration) as u64,
                        amount,
                    },
                )
                &&& final(self).transfers@ == (match old(self).consumers.token {
                    Some(token) => old(self).transfers@.push(
                        Transfer::Receive { token, from: consumer, amount },
                    ),
                    None => old(self).transfers@,
                })
            },
            PriceOracleContract::only_subscriptions_differ(*old(self), *final(self)),
    {
        if !env.is_authorized_by(&consumer) {
            return Err(ErrorCode::NotAuthorized);
        }
        let amount: i128 = match self.consumers.plans.get(&duration) {
            Some(a) => *a,
            None => {
                return Err(ErrorCode::InvalidDuration);
            },
        };
        let expiry: u64 = match env.timestamp.checked_add(duration as u64) {
            Some(t) => t,
            None => {
                return Err(ErrorCode::ArithmeticOverflow);
            },
        };
        self.consumers.subscriptions.insert(
            consumer,
            Subscription { started: env.timestamp, expiry, amount },
        );
        if let Some(token) = self.consumers.token {
            self.transfers.push(Transfer::Receive { token, from: consumer, amount });
        }
        Ok(())
    }

    /// Renews a subscription that runs: the time that is left is added once more.
    pub fn renew_subscription(&mut self, env: &Env, consumer: Address) -> (r: Result<(), ErrorCode>)
        ensures
            ({
                let s = old(self).consumers.subscriptions@[consumer];
                &&& r == (if !env.authorizes(consumer) {
                    Err(ErrorCode::NotAuthorized)
                } else if !old(self).consumers.subscriptions@.contains_key(consumer) {
                    Err(ErrorCode::NoData)
                } else if env.timestamp >= s.expiry {
                    Err(ErrorCode::SubscriptionExpired)
                } else if s.expiry + (s.expiry - env.timestamp) > u64::MAX {
                    Err(ErrorCode::ArithmeticOverflow)
                } else {
                    Ok(())
                })
                &&& r is Ok ==> final(self).consumers.subscriptions@ == old(
                    self,
                ).consumers.subscriptions@.insert(
                    consumer,
                    Subscription { expiry: (s.expiry + (s.expiry - env.timestamp)) as u64, ..s },
                )
            }),
            r is Err ==> *final(self) == *old(self),
            final(self).transfers == old(self).transfers,
            PriceOracleContract::only_subscriptions_differ(*old(self), *final(self)),
    {
        if !env.is_authorized_by(&consumer) {
            return Err(ErrorCode::NotAuthorized);
        }
        let s: Subscription = match self.consumers.subscriptions.get(&consumer) {
            Some(s) => *s,
            None => {
                return Err(ErrorCode::NoData);
            },
        };
        if env.timestamp >= s.expiry {
            return Err(ErrorCode::SubscriptionExpired);
        }
        match s.expiry.checked_add(s.expiry - env.timestamp) {
            None => Err(ErrorCode::ArithmeticOverflow),
            Some(expiry) => {
                self.consumers.subscriptions.insert(consumer, Subscription { expiry, ..s });
                Ok(())
            },
        }
    }

    /// When the subscription of `consumer` ends, in seconds; `0` where there is none.
    pub fn get_subscription_expiry(&self, consumer: Address) -> (r: u64)
        ensures
            r == (if self.consumers.subscriptions@.contains_key(consumer) {
                self.consumers.subscriptions@[consumer].expiry
            } else {
                0
            }),
    {
        match self.consumers.subscriptions.get(&consumer) {
            Some(s) => s.expiry,
            None => 0,
        }
    }

    /// The durations on offer with their costs.
    pub fn get_subscription_plans(&self) -> (r: Vec<(u32, i128)>)
        ensures
            r@.len() == self.consumers.plans.keys().len(),
            forall|i: int|
                0 <= i < r@.len() ==> #[trigger] r@[i] == (
                    self.consumers.plans.keys()[i],
                    self.consumers.plans@[self.consumers.plans.keys()[i]],
                ),
    {
        let mut r: Vec<(u32, i128)> = Vec::new();
        let mut i: usize = 0;
        while i < self.consumers.plans.len()
            invariant
                i <= self.consumers.plans.keys().len(),
                r@.len() == i,
                forall|j: int|
                    0 <= j < i ==> #[trigger] r@[j] == (
                        self.consumers.plans.keys()[j],
                        self.consumers.plans@[self.consumers.plans.keys()[j]],
                    ),
            decreases self.consumers.plans.keys().len() - i,
        {
            let d: u32 = self.consumers.plans.key_at(i);
            let amount: i128 = match self.consumers.plans.get(&d) {
                Some(a) => *a,
                None => 0,
            };
            r.push((d, amount));
            i += 1;
        }
        r
    }

    /// Offers subscriptions of a duration at a cost.
    pub fn set_subscription_price(&mut self, env: &Env, duration: u32, amount: i128) -> (r: Result<
        (),
        ErrorCode,
    >)
        ensures
            r == reply(old(self).admin_refusal(*env)),
            r is Err ==> *final(self) == *old(self),
            r is Ok ==> final(self).consumers.plans@ == old(self).consumers.plans@.insert(duration, amount),
            *final(self) == (PriceOracleContract {
                consumers: Consumers { plans: final(self).consumers.plans, ..old(self).consumers },
                ..*old(self)
            }),
    {
        if let Some(e) = self.check_admin(env) {
            return Err(e);
        }
        self.consumers.plans.insert(duration, amount);
        Ok(())
    }

    /// Sets the token in which subscriptions are paid.
    pub fn set_subscription_token(&mut self, env: &Env, token_contract: Address) -> (r: Result<(), ErrorCode>)
        ensures
            r == reply(old(self).admin_refusal(*env)),
            *final(self) == (if r is Ok {
                PriceOracleContract {
                    consumers: Consumers { token: Some(token_contract), ..old(self).consumers },
                    ..*old(self)
                }
            } else {
                *old(self)
            }),
    {
        if let Some(e) = self.check_admin(env) {
            return Err(e);
        }
        self.consumers.token = Some(token_contract);
        Ok(())
    }

    /// The token in which subscriptions are paid, if one is set.
    pub fn get_subscription_token(&self) -> (r: Option<Address>)
        ensures
            r == self.consumers.token,
    {
        self.consumers.token
    }

    /// Cancels the subscription of `consumer`. Where a token is set, the unused part of the cost
    /// is paid back.
    pub fn cancel_subscription(&mut self, env: &Env, consumer: Address) -> (r: Result<(), ErrorCode>)
        ensures
            ({
                let s = old(self).consumers.subscriptions@[consumer];
                &&& r == (if !env.authorizes(consumer) {
                    Err(ErrorCode::NotAuthorized)
                } else if !old(self).consumers.subscriptions@.contains_key(consumer) || env.timestamp
                    >= s.expiry {
                    Err(ErrorCode::NoActiveSubscription)
                } else {
                    Ok(())
                })
                &&& r is Ok ==> final(self).transfers@ == (match old(self).consumers.token {
                    Some(token) => if refund_of(s, env.timestamp) > 0 {
                        old(self).transfers@.push(
                            Transfer::Send {
                                token,
                                to: consumer,
                                amount: refund_of(s, env.timestamp) as i128,
                            },
                        )
                    } else {
                        old(self).transfers@
                    },
                    None => old(self).transfers@,
                })
            }),
            r is Err ==> *final(self) == *old(self),
            r is Ok ==> final(self).consumers.subscriptions@ == old(
                self,
            ).consumers.subscriptions@.remove(consumer),
            PriceOracleContract::only_subscriptions_differ(*old(self), *final(self)),
    {
        if !env.is_authorized_by(&consumer) {
            return Err(ErrorCode::NotAuthorized);
        }
        let s: Subscription = match self.consumers.subscriptions.get(&consumer) {
            Some(s) => *s,
            None => {
                return Err(ErrorCode::NoActiveSubscription);
            },
        };
        if env.timestamp >= s.expiry {
            return Err(ErrorCode::NoActiveSubscription);
        }
        let _ = self.consumers.subscriptions.remove(&consumer);
        if let Some(token) = self.consumers.token {
            let amount: i128 = refund(&s, env.timestamp);
            if amount > 0 {
                self.transfers.push(Transfer::Send { token, to: consumer, amount });
            }
        }
        Ok(())
    }

    /// Grants `consumer` access.
    pub fn add_authorized_consumer(&mut self, env: &Env, consumer: Address) -> (r: Result<(), ErrorCode>)
        ensures
            r == reply(old(self).admin_refusal(*env)),
            r is Err ==> *final(self) == *old(self),
            r is Ok ==> final(self).consumers.access@ == old(self).consumers.access@.insert(consumer, true),
            *final(self) == (PriceOracleContract {
                consumers: Consumers { access: final(self).consumers.access, ..old(self).consumers },
                ..*old(self)
            }),
    {
        if let Some(e) = self.check_admin(env) {
            return Err(e);
        }
        self.consumers.access.insert(consumer, true);
        Ok(())
    }

    /// Revokes the access of `consumer`.
    pub fn remove_authorized_consumer(&mut self, env: &Env, consumer: Address) -> (r: Result<(), ErrorCode>)
        ensures
            r == reply(old(self).admin_refusal(*env)),
            r is Err ==> *final(self) == *old(self),
            r is Ok ==> final(self).consumers.access@ == old(self).consumers.access@.insert(consumer, false),
            *final(self) == (PriceOracleContract {
                consumers: Consumers { access: final(self).consumers.access, ..old(self).consumers },
                ..*old(self)
            }),
    {
        if let Some(e) = self.check_admin(env) {
            return Err(e);
        }
        self.consumers.access.insert(consumer, false);
        Ok(())
    }

    /// Sets who may ask for prices: `0` for everyone, `1` for those who were granted access, `2`
    /// for all but those whose access was revoked.
    pub fn set_consumer_access_mode(&mut self, env: &Env, mode: u32) -> (r: Result<(), ErrorCode>)
        ensures
            r == reply(
                refused_if(
                    old(self).admin_refusal(*env),
                    mode > 2,
                    ErrorCode::InvalidConfiguration,
                ),
            ),
            r is Err ==> *final(self) == *old(self),
            r is Ok ==> final(self).consumers.access_mode.number() == mode,
            *final(self) == (PriceOracleContract {
                consumers: Consumers {
                    access_mode: final(self).consumers.access_mode,
                    ..old(self).consumers
                },
                ..*old(self)
            }),
    {
        if let Some(e) = self.check_admin(env) {
            return Err(e);
        }
        match mode {
            0 => {
                self.consumers.access_mode = ConsumerAccessMode::Public;
            },
            1 => {
                self.consumers.access_mode = ConsumerAccessMode::AllowedOnly;
            },
            2 => {
                self.consumers.access_mode = ConsumerAccessMode::BlockedOnly;
            },
            _ => {
                return Err(ErrorCode::InvalidConfiguration);
            },
        }
        Ok(())
    }

    /// Who may ask for prices.
    pub fn get_consumer_access_mode(&self) -> (r: ConsumerAccessMode)
        ensures
            r == self.consumers.access_mode,
    {
        self.consumers.access_mode
    }

    /// Whether `consumer` may ask for prices.
    pub open spec fn may_ask(self, consumer: Address) -> bool {
        match self.consumers.access_mode {
            ConsumerAccessMode::Public => true,
            ConsumerAccessMode::AllowedOnly => self.consumers.access@.contains_key(consumer)
                && self.consumers.access@[consumer],
            ConsumerAccessMode::BlockedOnly => !(self.consumers.access@.contains_key(consumer)
                && !self.consumers.access@[consumer]),
        }
    }

    /// Whether `consumer` may ask for prices.
    pub fn is_consumer_authorized(&self, consumer: Address) -> (r: bool)
        ensures
            r == self.may_ask(consumer),
    {
        let known: Option<&bool> = self.consumers.access.get(&consumer);
        match self.consumers.access_mode {
            ConsumerAccessMode::Public => true,
            ConsumerAccessMode::AllowedOnly => match known {
                Some(granted) => *granted,
                None => false,
            },
            ConsumerAccessMode::BlockedOnly => match known {
                Some(granted) => *granted,
                None => true,
            },
        }
    }

    /// Whether `consumer` authorizes the call and may ask for prices.
    pub open spec fn consumer_admitted(self, env: Env, consumer: Address) -> bool {
        env.authorizes(consumer) && self.may_ask(consumer)
    }

    fn admits(&self, env: &Env, consumer: &Address) -> (r: bool)
        ensures
            r == self.consumer_admitted(*env, *consumer),
    {
        env.is_authorized_by(consumer) && self.is_consumer_authorized(*consumer)
    }

    /// The aggregate of `asset` for a consumer who may ask for it; see [`Self::get_price`].
    pub fn get_price_authorized(&mut self, env: &Env, consumer: Address, asset: Address, max_age: u64) -> (r:
        Result<Option<AggregatePrice>, ErrorCode>)
        ensures
            r == (if !old(self).consumer_admitted(*env, consumer) {
                Err(ErrorCode::NotAuthorized)
            } else {
                match old(self).query_refusal(*env, asset) {
                    Some(e) => Err(e),
                    None => Ok(old(self).answer(*env, asset, max_age)),
                }
            }),
            r is Err ==> *final(self) == *old(self),
            r is Ok ==> {
                &&& *final(self) == (PriceOracleContract {
                    queries: QueryCount {
                        ledger: env.ledger,
                        count: (old(self).queries_in(env.ledger) + 1) as u32,
                    },
                    events: final(self).events,
                    ..*old(self)
                })
                &&& final(self).events@ == (if old(self).too_old(*env, asset, max_age) {
                    old(self).events@.push(
                        Event::PriceStale {
                            asset,
                            timestamp: old(self).reported(asset).unwrap().timestamp,
                        },
                    )
                } else {
                    old(self).events@
                })
            },
    {
        if !self.admits(env, &consumer) {
            return Err(ErrorCode::NotAuthorized);
        }
        self.get_price(env, asset, max_age)
    }

    /// The last price of an asset for a consumer who may ask for it; see [`Self::lastprice`].
    pub fn lastprice_authorized(&self, env: &Env, consumer: Address, asset: Asset) -> (r: Result<
        Option<PriceData>,
        ErrorCode,
    >)
        ensures
            r == (if !self.consumer_admitted(*env, consumer) {
                Err(ErrorCode::NotAuthorized)
            } else {
                self.guarded(self.last_answer(*env, asset))
            }),
    {
        if !self.admits(env, &consumer) {
            return Err(ErrorCode::NotAuthorized);
        }
        self.lastprice(env, asset)
    }

    /// The price of an asset at `timestamp` for a consumer who may ask for it; see
    /// [`Self::price`].
    pub fn price_authorized(&self, env: &Env, consumer: Address, asset: Asset, timestamp: u64) -> (r: Result<
        Option<PriceData>,
        ErrorCode,
    >)
        ensures
            r == (if !self.consumer_admitted(*env, consumer) {
                Err(ErrorCode::NotAuthorized)
            } else {
                self.guarded(self.answer_at(*env, asset, timestamp))
            }),
    {
        if !self.admits(env, &consumer) {
            return Err(ErrorCode::NotAuthorized);
        }
        self.price(env, asset, timestamp)
    }

    /// The newest recorded prices of an asset for a consumer who may ask for them; see
    /// [`Self::prices`].
    pub fn prices_authorized(&self, env: &Env, consumer: Address, asset: Asset, records: u32) -> (r: Result<
        Option<Vec<PriceData>>,
        ErrorCode,
    >)
        ensures
            match r {
                Err(e) => Some(e) == (if !self.consumer_admitted(*env, consumer) {
                    Some(ErrorCode::NotAuthorized)
                } else if self.entered {
                    Some(ErrorCode::Reentrancy)
                } else {
                    None
                }),
                Ok(list) => self.consumer_admitted(*env, consumer) && !self.entered && self.lists_prices(
                    *env,
                    asset,
                    records,
                    list,
                ),
            },
    {
        if !self.admits(env, &consumer) {
            return Err(ErrorCode::NotAuthorized);
        }
        self.prices(env, asset, records)
    }

    /// Who wants to be told of new prices of `asset`.
    pub open spec fn subscribers_of(self, asset: Address) -> Seq<Address> {
        if self.consumers.update_subscribers@.contains_key(asset) {
            self.consumers.update_subscribers@[asset]@
        } else {
            Seq::empty()
        }
    }

    /// Whether `post` is `pre` with the subscribers `list` of `asset`.
    pub open spec fn subscribers_replaced(pre: Self, post: Self, asset: Address, list: Seq<Address>) -> bool {
        &&& post == (PriceOracleContract {
            consumers: Consumers {
                update_subscribers: post.consumers.update_subscribers,
                ..pre.consumers
            },
            ..pre
        })
        &&& post.subscribers_of(asset) == list
        &&& forall|other: Address|
            other != asset ==> #[trigger] post.subscribers_of(other) == pre.subscribers_of(other)
    }

    /// Lets `consumer` be told of new prices of `asset`. Nothing changes for one who is already.
    pub fn subscribe_price_updates(&mut self, env: &Env, consumer: Address, asset: Address) -> (r: Result<
        (),
        ErrorCode,
    >)
        ensures
            r == (if !env.authorizes(consumer) {
                Err(ErrorCode::NotAuthorized)
            } else if !old(self).book.assets@.contains_key(asset) {
                Err(ErrorCode::AssetNotRegistered)
            } else {
                Ok(())
            }),
            r is Err ==> *final(self) == *old(self),
            r is Ok ==> PriceOracleContract::subscribers_replaced(
                *old(self),
                *final(self),
                asset,
                if old(self).subscribers_of(asset).contains(consumer) {
                    old(self).subscribers_of(asset)
                } else {
                    old(self).subscribers_of(asset).push(consumer)
                },
            ),
    {
        if !env.is_authorized_by(&consumer) {
            return Err(ErrorCode::NotAuthorized);
        }
        if !self.book.assets.contains_key(&asset) {
            return Err(ErrorCode::AssetNotRegistered);
        }
        let ghost before = self.consumers.update_subscribers@;
        let mut list: Vec<Address> = match self.consumers.update_subscribers.remove(&asset) {
            Some(l) => l,
            None => Vec::new(),
        };
        if !contains_address(&list, &consumer) {
            list.push(consumer);
        }
        self.consumers.update_subscribers.insert(asset, list);
        assert forall|other: Address| other != asset implies #[trigger] self.subscribers_of(other) == old(
            self,
        ).subscribers_of(other) by {
            assert(self.consumers.update_subscribers@.contains_key(other) == before.contains_key(other));
        }
        Ok(())
    }

    /// Lets `consumer` no longer be told of new prices of `asset`. Nothing changes for one who
    /// is not.
    pub fn unsubscribe_price_updates(&mut self, env: &Env, consumer: Address, asset: Address) -> (r: Result<
        (),
        ErrorCode,
    >)
        ensures
            r == (if !env.authorizes(consumer) {
                Err(ErrorCode::NotAuthorized)
            } else if !old(self).book.assets@.contains_key(asset) {
                Err(ErrorCode::AssetNotRegistered)
            } else {
                Ok(())
            }),
            r is Err ==> *final(self) == *old(self),
            r is Ok ==> PriceOracleContract::subscribers_replaced(
                *old(self),
                *final(self),
                asset,
                old(self).subscribers_of(asset).remove_value(consumer),
            ),
    {
        if !env.is_authorized_by(&consumer) {
            return Err(ErrorCode::NotAuthorized);
        }
        if !self.book.assets.contains_key(&asset) {
            return Err(ErrorCode::AssetNotRegistered);
        }
        let ghost before = self.consumers.update_subscribers@;
        let list: Vec<Address> = match self.consumers.update_subscribers.remove(&asset) {
            Some(l) => l,
            None => Vec::new(),
        };
        self.consumers.update_subscribers.insert(asset, without_first(list, &consumer));
        assert forall|other: Address| other != asset implies #[trigger] self.subscribers_of(other) == old(
            self,
        ).subscribers_of(other) by {
            assert(self.consumers.update_subscribers@.contains_key(other) == before.contains_key(other));
        }
        Ok(())
    }

    /// Who wants to be told of new prices of `asset`.
    pub fn get_subscribed_consumers(&self, asset: Address) -> (r: Result<Vec<Address>, ErrorCode>)
        ensures
            match r {
                Err(e) => !self.book.assets@.contains_key(asset) && e == ErrorCode::AssetNotRegistered,
                Ok(list) => self.book.assets@.contains_key(asset) && list@ == self.subscribers_of(asset),
            },
    {
        if !self.book.assets.contains_key(&asset) {
            return Err(ErrorCode::AssetNotRegistered);
        }
        let mut r: Vec<Address> = Vec::new();
        if let Some(list) = self.consumers.update_subscribers.get(&asset) {
            let mut i: usize = 0;
            while i < list.len()
                invariant
                    i <= list@.len(),
                    r@ == list@.take(i as int),
                decreases list@.len() - i,
            {
                r.push(list[i]);
                i += 1;
                assert(r@ =~= list@.take(i as int));
            }
            assert(r@ =~= list@);
        }
        Ok(r)
    }

    /// What is told of events of the kind `event_type`.
    pub open spec fn preferences_of(self, event_type: u32) -> Seq<NotificationPreference> {
        if self.consumers.notifications@.contains_key(event_type) {
            self.consumers.notifications@[event_type]@
        } else {
            Seq::empty()
        }
    }

    /// Asks for notifications of events of the kind `event_type`.
    pub fn set_notification_preference(
        &mut self,
        env: &Env,
        event_type: u32,
        channel: String,
        target: String,
    ) -> (r: Result<(), ErrorCode>)
        ensures
            r == reply(
                refused_if(
                    old(self).admin_refusal(*env),
                    channel@.len() > MAX_TEXT || target@.len() > MAX_TEXT,
                    ErrorCode::NotificationConfigInvalid,
                ),
            ),
            r is Err ==> *final(self) == *old(self),
            r is Ok ==> {
                &&& final(self).preferences_of(event_type) == old(self).preferences_of(event_type).push(
                    NotificationPreference { channel, target },
                )
                &&& final(self).consumers.notifications@.remove(event_type) == old(
                    self,
                ).consumers.notifications@.remove(event_type)
                &&& final(self).consumers.notifications@.contains_key(event_type)
            },
            *final(self) == (PriceOracleContract {
                consumers: Consumers {
                    notifications: final(self).consumers.notifications,
                    ..old(self).consumers
                },
                ..*old(self)
            }),
    {
        if let Some(e) = self.check_admin(env) {
            return Err(e);
        }
        if channel.as_str().unicode_len() > MAX_TEXT || target.as_str().unicode_len() > MAX_TEXT {
            return Err(ErrorCode::NotificationConfigInvalid);
        }
        let mut list: Vec<NotificationPreference> = match self.consumers.notifications.remove(&event_type) {
            Some(l) => l,
            None => Vec::new(),
        };
        list.push(NotificationPreference { channel, target });
        self.consumers.notifications.insert(event_type, list);
        assert(self.consumers.notifications@.remove(event_type) =~= old(
            self,
        ).consumers.notifications@.remove(event_type));
        Ok(())
    }

    /// What is told of events of the kind `event_type`.
    pub fn list_notification_preferences(&self, event_type: u32) -> (r: Vec<&NotificationPreference>)
        ensures
            r@.len() == self.preferences_of(event_type).len(),
            forall|i: int| 0 <= i < r@.len() ==> *(#[trigger] r@[i]) == self.preferences_of(event_type)[i],
    {
        let mut r: Vec<&NotificationPreference> = Vec::new();
        if let Some(list) = self.consumers.notifications.get(&event_type) {
            let mut i: usize = 0;
            while i < list.len()
                invariant
                    i <= list@.len(),
                    r@.len() == i,
                    forall|j: int| 0 <= j < i ==> *(#[trigger] r@[j]) == list@[j],
                decreases list@.len() - i,
            {
                r.push(&list[i]);
                i += 1;
            }
        }
        r
    }

    /// The kinds of events of which something is told.
    pub fn list_notification_event_types(&self) -> (r: Vec<u32>)
        ensures
            r@ == self.consumers.notifications.keys(),
    {
        let mut r: Vec<u32> = Vec::new();
        let mut i: usize = 0;
        while i < self.consumers.notifications.len()
            invariant
                i <= self.consumers.notifications.keys().len(),
                r@ == self.consumers.notifications.keys().take(i as int),
            decreases self.consumers.notifications.keys().len() - i,
        {
            r.push(self.consumers.notifications.key_at(i));
            i += 1;
            assert(r@ =~= self.consumers.notifications.keys().take(i as int));
        }
        assert(r@ =~= self.consumers.notifications.keys());
        r
    }

    /// Asks for no more notifications of events of the kind `event_type`.
    pub fn clear_notification_preferences(&mut self, env: &Env, event_type: u32) -> (r: Result<(), ErrorCode>)
        ensures
            r == reply(old(self).admin_refusal(*env)),
            r is Err ==> *final(self) == *old(self),
            r is Ok ==> final(self).consumers.notifications@ == old(
                self,
            ).consumers.notifications@.remove(event_type) && final(self).consumers.notifications.keys()
                == old(self).consumers.notifications.keys().remove_value(event_type),
            *final(self) == (PriceOracleContract {
                consumers: Consumers {
                    notifications: final(self).consumers.notifications,
                    ..old(self).consumers
                },
                ..*old(self)
            }),
    {
        if let Some(e) = self.check_admin(env) {
            return Err(e);
        }
        let _ = self.consumers.notifications.remove(&event_type);
        Ok(())
    }
}

} // verus!
