//! Prices that are committed first and revealed later.

use crate::contract::{PriceOracleContract, Settings};
use crate::digest::{le_bytes, lemma_le_len, push_all, push_le, sha256, sha256_of};
use crate::env::Env;
use crate::error::{refused_if, reply, ErrorCode};
use crate::price_book::{lookup, AggregationRules, PriceState};
use crate::table::{Key, Table};
use crate::types::{same_bytes, Address, PriceEntry};
use vstd::prelude::*;

verus! {

/// How many prices can be revealed together.
pub const MAX_REVEALS: usize = 100;

/// The longest salt, in bytes: no digest can be taken of a longer one.
pub const MAX_SALT: usize = 1_799_980;

/// A price that its source has committed to.
#[derive(Clone, Copy, Debug, PartialEq, Eq)]
pub struct PriceCommit {
    /// The digest of the price, the salt and the round.
    pub hash: [u8; 32],
    /// The ledger of the commitment.
    pub ledger: u32,
    /// How many ledgers after that it is kept.
    pub lifetime: u64,
}

impl PriceCommit {
    /// Whether the commitment is still kept in `ledger`.
    pub open spec fn kept_in(self, ledger: u32) -> bool {
        ledger - self.ledger <= self.lifetime
    }

    fn is_kept_in(&self, ledger: u32) -> (r: bool)
        ensures
            r == self.kept_in(ledger),
    {
        ledger <= self.ledger || (ledger - self.ledger) as u64 <= self.lifetime
    }
}

/// How many ledgers a commitment is kept.
pub open spec fn commit_lifetime(commit_window: u32, reveal_window: u32) -> u64 {
    (commit_window + reveal_window + 1) as u64
}

/// A commitment is found by its source, its asset and its round.
pub type CommitKey = (Address, (Address, u32));

/// The commitments and the windows in which they are made and revealed.
#[derive(Debug)]
pub struct CommitReveal {
    /// How many ledgers a round takes.
    pub commit_window: u32,
    /// How many ledgers after its round a price may be revealed.
    pub reveal_window: u32,
    pub commits: Table<CommitKey, PriceCommit>,
}

/// A price to be revealed, with the digest of what is revealed.
#[derive(Clone, Copy, Debug, PartialEq, Eq)]
pub struct HashedReveal {
    pub asset: Address,
    pub price: i128,
    pub round_ledger: u32,
    pub digest: [u8; 32],
}

/// A price to be revealed, with its salt.
#[derive(Debug)]
pub struct Reveal {
    pub asset: Address,
    pub price: i128,
    pub salt: Vec<u8>,
    pub round_ledger: u32,
}

/// The bytes of which a commitment is the digest.
pub open spec fn commit_preimage(price: i128, salt: Seq<u8>, round_ledger: u32) -> Seq<u8> {
    le_bytes(price as u128 as nat, 16) + salt + le_bytes(round_ledger as nat, 4)
}

/// The first ledger of the round of `ledger`.
pub open spec fn round_of(ledger: u32, window: u32) -> u32 {
    if window == 0 {
        ledger
    } else {
        (ledger / window * window) as u32
    }
}

/// The first ledger of the round of `ledger`.
fn round_start(ledger: u32, window: u32) -> (r: u32)
    ensures
        r == round_of(ledger, window),
        r <= ledger,
{
    if window == 0 {
        ledger
    } else {
        proof {
            assert(ledger / window * window <= ledger) by (nonlinear_arith)
                requires
                    window > 0,
            ;
        }
        ledger / window * window
    }
}

/// The digest that a commitment to `price` holds. A salt must not be too long.
pub fn commit_hash(price: i128, salt: &Vec<u8>, round_ledger: u32) -> (r: Option<[u8; 32]>)
    ensures
        r is Some <==> salt@.len() <= MAX_SALT,
        r matches Some(h) ==> h@ == sha256_of(commit_preimage(price, salt@, round_ledger)),
{
    if salt.len() > MAX_SALT {
        return None;
    }
    let mut data: Vec<u8> = Vec::new();
    push_le(&mut data, price as u128, 16);
    push_all(&mut data, salt.as_slice());
    push_le(&mut data, round_ledger as u128, 4);
    proof {
        lemma_le_len(price as u128 as nat, 16);
        lemma_le_len(round_ledger as nat, 4);
        assert(data@ =~= commit_preimage(price, salt@, round_ledger));
    }
    Some(sha256(data.as_slice()))
}

/// The entry that a revealed price stores.
pub open spec fn revealed_entry(env: Env, source: Address, x: HashedReveal) -> PriceEntry {
    PriceEntry {
        source,
        asset: x.asset,
        price: x.price,
        timestamp: env.timestamp,
        ledger: env.ledger,
    }
}

impl PriceState {
    /// After all revealed prices, one after the other.
    pub open spec fn revealed_all(
        self,
        rules: AggregationRules,
        env: Env,
        source: Address,
        s: Seq<HashedReveal>,
    ) -> PriceState
        decreases s.len(),
    {
        if s.len() == 0 {
            self
        } else {
            self.revealed_all(rules, env, source, s.drop_last()).submitted(
                rules,
                revealed_entry(env, source, s.last()),
            )
        }
    }
}

/// The commitments that are left after prices were revealed.
pub open spec fn commits_left(
    m: Map<CommitKey, PriceCommit>,
    source: Address,
    s: Seq<HashedReveal>,
) -> Map<CommitKey, PriceCommit>
    decreases s.len(),
{
    if s.len() == 0 {
        m
    } else {
        commits_left(m, source, s.drop_last()).remove((source, (s.last().asset, s.last().round_ledger)))
    }
}

/// Whether one of the first `n` prices was committed in the same round for the same asset as `x`.
pub open spec fn revealed_before(s: Seq<HashedReveal>, n: int, x: HashedReveal) -> bool {
    exists|j: int|
        0 <= j < n && (#[trigger] s[j]).asset == x.asset && s[j].round_ledger == x.round_ledger
}

impl PriceOracleContract {
    /// The first ledger of the current round.
    pub fn current_round_ledger(&self, env: &Env) -> (r: u32)
        ensures
            r == round_of(env.ledger, self.commit_reveal.commit_window),
    {
        round_start(env.ledger, self.commit_reveal.commit_window)
    }

    /// The commitment that is kept under `key`, if there is one.
    pub open spec fn commit_at(self, env: Env, key: CommitKey) -> Option<PriceCommit> {
        if self.commit_reveal.commits@.contains_key(key) && self.commit_reveal.commits@[key].kept_in(
            env.ledger,
        ) {
            Some(self.commit_reveal.commits@[key])
        } else {
            None
        }
    }

    fn find_commit(&self, env: &Env, key: &CommitKey) -> (r: Option<PriceCommit>)
        ensures
            r == self.commit_at(*env, *key),
    {
        match self.commit_reveal.commits.get(key) {
            Some(c) => if c.is_kept_in(env.ledger) {
                Some(*c)
            } else {
                None
            },
            None => None,
        }
    }

    /// Commits `source` to a price for `asset` in the current round. The commitment is kept for
    /// both windows and one ledger more.
    pub fn commit_price(&mut self, env: &Env, source: Address, asset: Address, hash: [u8; 32]) -> (r: Result<
        (),
        ErrorCode,
    >)
        ensures
            ({
                let key = (source, (asset, round_of(env.ledger, old(self).commit_reveal.commit_window)));
                &&& r == (if old(self).entered {
                    Err(ErrorCode::Reentrancy)
                } else if !env.authorizes(source) {
                    Err(ErrorCode::NotAuthorized)
                } else if !old(self).sources@.contains_key(source) {
                    Err(ErrorCode::SourceNotFound)
                } else if !old(self).book.assets@.contains_key(asset) {
                    Err(ErrorCode::AssetNotRegistered)
                } else if old(self).commit_at(*env, key) is Some {
                    Err(ErrorCode::AlreadyCommitted)
                } else {
                    Ok(())
                })
                &&& r is Ok ==> final(self).commit_reveal.commits@ == old(
                    self,
                ).commit_reveal.commits@.insert(
                    key,
                    PriceCommit {
                        hash,
                        ledger: env.ledger,
                        lifetime: commit_lifetime(
                            old(self).commit_reveal.commit_window,
                            old(self).commit_reveal.reveal_window,
                        ),
                    },
                )
            }),
            r is Err ==> *final(self) == *old(self),
            *final(self) == (PriceOracleContract {
                commit_reveal: CommitReveal {
                    commits: final(self).commit_reveal.commits,
                    ..old(self).commit_reveal
                },
                ..*old(self)
            }),
    {
        if self.entered {
            return Err(ErrorCode::Reentrancy);
        }
        if !env.is_authorized_by(&source) {
            return Err(ErrorCode::NotAuthorized);
        }
        if !self.sources.contains_key(&source) {
            return Err(ErrorCode::SourceNotFound);
        }
        if !self.book.assets.contains_key(&asset) {
            return Err(ErrorCode::AssetNotRegistered);
        }
        let key: CommitKey = (source, (asset, self.current_round_ledger(env)));
        if self.find_commit(env, &key).is_some() {
            return Err(ErrorCode::AlreadyCommitted);
        }
        let lifetime: u64 = self.commit_reveal.commit_window as u64
            + self.commit_reveal.reveal_window as u64 + 1;
        self.commit_reveal.commits.insert(key, PriceCommit { hash, ledger: env.ledger, lifetime });
        Ok(())
    }

    /// Why a price that `source` reveals is refused, if it is.
    pub open spec fn reveal_refusal(self, env: Env, source: Address, x: HashedReveal) -> Option<ErrorCode> {
        let key = (source, (x.asset, x.round_ledger));
        let opens = x.round_ledger + self.commit_reveal.commit_window;
        if self.commit_at(env, key) is None {
            Some(ErrorCode::CommitNotFound)
        } else if env.ledger < opens {
            Some(ErrorCode::RevealWindowClosed)
        } else if env.ledger >= opens + self.commit_reveal.reveal_window {
            Some(ErrorCode::CommitExpired)
        } else if self.commit_reveal.commits@[key].hash != x.digest {
            Some(ErrorCode::CommitHashMismatch)
        } else {
            self.price_refusal(env, source, x.asset, x.price, env.timestamp)
        }
    }

    fn check_reveal(&self, env: &Env, source: &Address, x: &HashedReveal) -> (r: Option<ErrorCode>)
        ensures
            r == self.reveal_refusal(*env, *source, *x),
    {
        let opens: u64 = x.round_ledger as u64 + self.commit_reveal.commit_window as u64;
        match self.find_commit(env, &(*source, (x.asset, x.round_ledger))) {
            None => Some(ErrorCode::CommitNotFound),
            Some(c) => {
                if (env.ledger as u64) < opens {
                    Some(ErrorCode::RevealWindowClosed)
                } else if env.ledger as u64 >= opens + self.commit_reveal.reveal_window as u64 {
                    Some(ErrorCode::CommitExpired)
                } else if !same_bytes(&c.hash, &x.digest) {
                    Some(ErrorCode::CommitHashMismatch)
                } else {
                    self.check_price(env, source, &x.asset, x.price, env.timestamp)
                }
            },
        }
    }

    /// Whether `post` differs from `pre` only in prices, announcements and commitments.
    pub open spec fn only_reveals_differ(pre: Self, post: Self) -> bool {
        post == (PriceOracleContract {
            book: post.book,
            events: post.events,
            commit_reveal: CommitReveal {
                commits: post.commit_reveal.commits,
                ..pre.commit_reveal
            },
            ..pre
        })
    }

    /// Reveals a price whose commitment has the digest `x.digest`: it is stored like any other,
    /// and the commitment is used up.
    pub fn reveal_hashed(&mut self, env: &Env, source: Address, x: HashedReveal) -> (r: Result<(), ErrorCode>)
        ensures
            r == (if old(self).entered {
                Err(ErrorCode::Reentrancy)
            } else if !env.authorizes(source) {
                Err(ErrorCode::NotAuthorized)
            } else {
                reply(old(self).reveal_refusal(*env, source, x))
            }),
            r is Err ==> *final(self) == *old(self),
            r is Ok ==> {
                &&& final(self).price_state() == old(self).price_state().submitted(
                    old(self).rules(*env),
                    revealed_entry(*env, source, x),
                )
                &&& final(self).commit_reveal.commits@ == old(self).commit_reveal.commits@.remove(
                    (source, (x.asset, x.round_ledger)),
                )
            },
            PriceOracleContract::only_reveals_differ(*old(self), *final(self)),
    {
        if self.entered {
            return Err(ErrorCode::Reentrancy);
        }
        if !env.is_authorized_by(&source) {
            return Err(ErrorCode::NotAuthorized);
        }
        if let Some(e) = self.check_reveal(env, &source, &x) {
            return Err(e);
        }
        self.accept_reveal(env, &source, &x);
        Ok(())
    }

    fn accept_reveal(&mut self, env: &Env, source: &Address, x: &HashedReveal)
        requires
            x.price > 0,
        ensures
            final(self).price_state() == old(self).price_state().submitted(
                old(self).rules(*env),
                revealed_entry(*env, *source, *x),
            ),
            final(self).commit_reveal.commits@ == old(self).commit_reveal.commits@.remove(
                (*source, (x.asset, x.round_ledger)),
            ),
            PriceOracleContract::only_reveals_differ(*old(self), *final(self)),
    {
        self.take_price(
            env,
            PriceEntry {
                source: *source,
                asset: x.asset,
                price: x.price,
                timestamp: env.timestamp,
                ledger: env.ledger,
            },
        );
        let _ = self.commit_reveal.commits.remove(&(*source, (x.asset, x.round_ledger)));
    }

    /// Reveals a price that `source` has committed to. A salt of which no digest can be taken is
    /// refused.
    pub fn reveal_price(
        &mut self,
        env: &Env,
        source: Address,
        asset: Address,
        price: i128,
        salt: Vec<u8>,
        round_ledger: u32,
    ) -> (r: Result<(), ErrorCode>)
        ensures
            salt@.len() > MAX_SALT ==> r == Err::<(), ErrorCode>(
                if old(self).entered {
                    ErrorCode::Reentrancy
                } else if !env.authorizes(source) {
                    ErrorCode::NotAuthorized
                } else {
                    ErrorCode::InvalidConfiguration
                },
            ),
            salt@.len() <= MAX_SALT ==> exists|x: HashedReveal|
                {
                    &&& #[trigger] x.digest@ == sha256_of(commit_preimage(price, salt@, round_ledger))
                    &&& x.asset == asset
                    &&& x.price == price
                    &&& x.round_ledger == round_ledger
                    &&& r == (if old(self).entered {
                        Err(ErrorCode::Reentrancy)
                    } else if !env.authorizes(source) {
                        Err(ErrorCode::NotAuthorized)
                    } else {
                        reply(old(self).reveal_refusal(*env, source, x))
                    })
                    &&& r is Ok ==> final(self).price_state() == old(self).price_state().submitted(
                        old(self).rules(*env),
                        revealed_entry(*env, source, x),
                    )
                },
            r is Err ==> *final(self) == *old(self),
            r is Ok ==> final(self).commit_reveal.commits@ == old(self).commit_reveal.commits@.remove(
                (source, (asset, round_ledger)),
            ),
            PriceOracleContract::only_reveals_differ(*old(self), *final(self)),
    {
        match commit_hash(price, &salt, round_ledger) {
            None => if self.entered {
                Err(ErrorCode::Reentrancy)
            } else if !env.is_authorized_by(&source) {
                Err(ErrorCode::NotAuthorized)
            } else {
                Err(ErrorCode::InvalidConfiguration)
            },
            Some(digest) => {
                let x = HashedReveal { asset, price, round_ledger, digest };
                assert(x.digest@ == sha256_of(commit_preimage(price, salt@, round_ledger)));
                self.reveal_hashed(env, source, x)
            },
        }
    }

    /// Why the first refused price of a batch is refused, if one is. A commitment can be used
    /// once.
    pub open spec fn reveals_refusal(self, env: Env, source: Address, s: Seq<HashedReveal>) -> Option<
        ErrorCode,
    >
        decreases s.len(),
    {
        if s.len() == 0 {
            None
        } else {
            match self.reveals_refusal(env, source, s.drop_last()) {
                Some(e) => Some(e),
                None => if revealed_before(s, s.len() - 1, s.last()) {
                    Some(ErrorCode::CommitNotFound)
                } else {
                    self.reveal_refusal(env, source, s.last())
                },
            }
        }
    }

    proof fn lemma_reveals_refusal(self, env: Env, source: Address, s: Seq<HashedReveal>, n: int)
        requires
            0 <= n <= s.len(),
            self.reveals_refusal(env, source, s.take(n)) is Some,
        ensures
            self.reveals_refusal(env, source, s) == self.reveals_refusal(env, source, s.take(n)),
        decreases s.len() - n,
    {
        if n < s.len() {
            assert(s.take(n + 1).drop_last() =~= s.take(n));
            self.lemma_reveals_refusal(env, source, s, n + 1);
        } else {
            assert(s.take(n) =~= s);
        }
    }

    /// Why a batch of prices that `source` reveals is refused, if it is.
    pub open spec fn reveal_batch_refusal(self, env: Env, source: Address, s: Seq<HashedReveal>) -> Option<
        ErrorCode,
    > {
        if self.entered {
            Some(ErrorCode::Reentrancy)
        } else if !env.authorizes(source) {
            Some(ErrorCode::NotAuthorized)
        } else if s.len() > MAX_REVEALS {
            Some(ErrorCode::InvalidConfiguration)
        } else {
            self.reveals_refusal(env, source, s)
        }
    }

    /// Reveals several prices whose commitments have the given digests, all of them or none.
    pub fn reveal_batch_hashed(&mut self, env: &Env, source: Address, reveals: &Vec<HashedReveal>) -> (r:
        Result<(), ErrorCode>)
        ensures
            r == reply(old(self).reveal_batch_refusal(*env, source, reveals@)),
            r is Err ==> *final(self) == *old(self),
            r is Ok ==> {
                &&& final(self).price_state() == old(self).price_state().revealed_all(
                    old(self).rules(*env),
                    *env,
                    source,
                    reveals@,
                )
                &&& final(self).commit_reveal.commits@ == commits_left(
                    old(self).commit_reveal.commits@,
                    source,
                    reveals@,
                )
            },
            PriceOracleContract::only_reveals_differ(*old(self), *final(self)),
    {
        if self.entered {
            return Err(ErrorCode::Reentrancy);
        }
        if !env.is_authorized_by(&source) {
            return Err(ErrorCode::NotAuthorized);
        }
        if reveals.len() > MAX_REVEALS {
            return Err(ErrorCode::InvalidConfiguration);
        }
        let ghost all = reveals@;
        let mut i: usize = 0;
        assert(all.take(0) =~= Seq::<HashedReveal>::empty());
        while i < reveals.len()
            invariant
                i <= all.len(),
                all == reveals@,
                *self == *old(self),
                !self.entered,
                env.authorizes(source),
                all.len() <= MAX_REVEALS,
                self.reveals_refusal(*env, source, all.take(i as int)) is None,
                forall|j: int| 0 <= j < i ==> (#[trigger] all[j]).price > 0,
            decreases all.len() - i,
        {
            let x: HashedReveal = reveals[i];
            let mut seen: bool = false;
            let mut j: usize = 0;
            while j < i
                invariant
                    j <= i < all.len(),
                    all == reveals@,
                    x == all[i as int],
                    seen == revealed_before(all, j as int, x),
                decreases i - j,
            {
                let same: bool = reveals[j].asset.same(&x.asset) && reveals[j].round_ledger
                    == x.round_ledger;
                proof {
                    if revealed_before(all, j + 1, x) && !same {
                        let w = choose|w: int|
                            0 <= w < j + 1 && (#[trigger] all[w]).asset == x.asset && all[w].round_ledger
                                == x.round_ledger;
                        assert(all[w].asset == x.asset);
                        assert(w < j);
                    }
                    if same {
                        assert(all[j as int].asset == x.asset);
                    }
                    if revealed_before(all, j as int, x) {
                        let w = choose|w: int|
                            0 <= w < j && (#[trigger] all[w]).asset == x.asset && all[w].round_ledger
                                == x.round_ledger;
                        assert(all[w].asset == x.asset);
                    }
                }
                if same {
                    seen = true;
                }
                j += 1;
            }
            proof {
                let t = all.take(i + 1);
                assert(t.drop_last() =~= all.take(i as int));
                assert(t.last() == x);
                if revealed_before(t, i as int, x) {
                    let w = choose|w: int|
                        0 <= w < i && (#[trigger] t[w]).asset == x.asset && t[w].round_ledger
                            == x.round_ledger;
                    assert(all[w].asset == x.asset);
                }
                if revealed_before(all, i as int, x) {
                    let w = choose|w: int|
                        0 <= w < i && (#[trigger] all[w]).asset == x.asset && all[w].round_ledger
                            == x.round_ledger;
                    assert(t[w].asset == x.asset);
                }
                assert(seen == revealed_before(t, t.len() - 1, t.last()));
            }
            if seen {
                proof {
                    self.lemma_reveals_refusal(*env, source, all, i + 1);
                }
                return Err(ErrorCode::CommitNotFound);
            }
            if let Some(e) = self.check_reveal(env, &source, &x) {
                proof {
                    self.lemma_reveals_refusal(*env, source, all, i + 1);
                }
                return Err(e);
            }
            i += 1;
        }
        assert(all.take(all.len() as int) =~= all);
        let mut k: usize = 0;
        while k < reveals.len()
            invariant
                k <= all.len(),
                all == reveals@,
                forall|j: int| 0 <= j < all.len() ==> (#[trigger] all[j]).price > 0,
                self.rules(*env) == old(self).rules(*env),
                self.price_state() == old(self).price_state().revealed_all(
                    old(self).rules(*env),
                    *env,
                    source,
                    all.take(k as int),
                ),
                self.commit_reveal.commits@ == commits_left(
                    old(self).commit_reveal.commits@,
                    source,
                    all.take(k as int),
                ),
                PriceOracleContract::only_reveals_differ(*old(self), *self),
            decreases all.len() - k,
        {
            let x: HashedReveal = reveals[k];
            proof {
                assert(all[k as int].price > 0);
                assert(all.take(k + 1).drop_last() =~= all.take(k as int));
                assert(all.take(k + 1).last() == x);
            }
            self.accept_reveal(env, &source, &x);
            k += 1;
        }
        Ok(())
    }

    /// Reveals several prices that `source` has committed to, all of them or none. They are refused
    /// where no digest can be taken of the salt of one.
    pub fn reveal_prices_batch(&mut self, env: &Env, source: Address, reveals: &Vec<Reveal>) -> (r: Result<
        (),
        ErrorCode,
    >)
        ensures
            r is Err ==> *final(self) == *old(self),
            (exists|i: int| 0 <= i < reveals@.len() && (#[trigger] reveals@[i]).salt@.len() > MAX_SALT)
                ==> r == Err::<(), ErrorCode>(
                if old(self).entered {
                    ErrorCode::Reentrancy
                } else if !env.authorizes(source) {
                    ErrorCode::NotAuthorized
                } else {
                    ErrorCode::InvalidConfiguration
                },
            ),
            (forall|i: int| 0 <= i < reveals@.len() ==> (#[trigger] reveals@[i]).salt@.len() <= MAX_SALT)
                ==> exists|s: Seq<HashedReveal>|
                {
                    &&& #[trigger] hashes_of(reveals@, s)
                    &&& r == reply(old(self).reveal_batch_refusal(*env, source, s))
                    &&& r is Ok ==> {
                        &&& final(self).price_state() == old(self).price_state().revealed_all(
                            old(self).rules(*env),
                            *env,
                            source,
                            s,
                        )
                        &&& final(self).commit_reveal.commits@ == commits_left(
                            old(self).commit_reveal.commits@,
                            source,
                            s,
                        )
                    }
                },
            PriceOracleContract::only_reveals_differ(*old(self), *final(self)),
    {
        let mut hashed: Vec<HashedReveal> = Vec::new();
        let mut i: usize = 0;
        while i < reveals.len()
            invariant
                i <= reveals@.len(),
                *self == *old(self),
                hashes_of(reveals@.take(i as int), hashed@),
                forall|j: int| 0 <= j < i ==> (#[trigger] reveals@[j]).salt@.len() <= MAX_SALT,
            decreases reveals@.len() - i,
        {
            let x: &Reveal = &reveals[i];
            match commit_hash(x.price, &x.salt, x.round_ledger) {
                None => {
                    assert(reveals@[i as int].salt@.len() > MAX_SALT);
                    return if self.entered {
                        Err(ErrorCode::Reentrancy)
                    } else if !env.is_authorized_by(&source) {
                        Err(ErrorCode::NotAuthorized)
                    } else {
                        Err(ErrorCode::InvalidConfiguration)
                    };
                },
                Some(digest) => {
                    hashed.push(
                        HashedReveal {
                            asset: x.asset,
                            price: x.price,
                            round_ledger: x.round_ledger,
                            digest,
                        },
                    );
                },
            }
            i += 1;
        }
        assert(reveals@.take(reveals@.len() as int) =~= reveals@);
        self.reveal_batch_hashed(env, source, &hashed)
    }

    /// Sets how many ledgers a round takes.
    pub fn set_commit_window(&mut self, env: &Env, ledgers: u32) -> (r: Result<(), ErrorCode>)
        ensures
            r == reply(
                refused_if(
                    old(self).admin_refusal(*env),
                    ledgers == 0,
                    ErrorCode::InvalidConfiguration,
                ),
            ),
            *final(self) == (if r is Ok {
                PriceOracleContract {
                    commit_reveal: CommitReveal {
                        commit_window: ledgers,
                        ..old(self).commit_reveal
                    },
                    ..*old(self)
                }
            } else {
                *old(self)
            }),
    {
        if let Some(e) = self.check_admin(env) {
            return Err(e);
        }
        if ledgers == 0 {
            return Err(ErrorCode::InvalidConfiguration);
        }
        self.commit_reveal.commit_window = ledgers;
        Ok(())
    }

    /// How many ledgers a round takes.
    pub fn get_commit_window(&self) -> (r: u32)
        ensures
            r == self.commit_reveal.commit_window,
    {
        self.commit_reveal.commit_window
    }

    /// Sets how many ledgers after its round a price may be revealed.
    pub fn set_reveal_window(&mut self, env: &Env, ledgers: u32) -> (r: Result<(), ErrorCode>)
        ensures
            r == reply(
                refused_if(
                    old(self).admin_refusal(*env),
                    ledgers == 0,
                    ErrorCode::InvalidConfiguration,
                ),
            ),
            *final(self) == (if r is Ok {
                PriceOracleContract {
                    commit_reveal: CommitReveal {
                        reveal_window: ledgers,
                        ..old(self).commit_reveal
                    },
                    ..*old(self)
                }
            } else {
                *old(self)
            }),
    {
        if let Some(e) = self.check_admin(env) {
            return Err(e);
        }
        if ledgers == 0 {
            return Err(ErrorCode::InvalidConfiguration);
        }
        self.commit_reveal.reveal_window = ledgers;
        Ok(())
    }

    /// How many ledgers after its round a price may be revealed.
    pub fn get_reveal_window(&self) -> (r: u32)
        ensures
            r == self.commit_reveal.reveal_window,
    {
        self.commit_reveal.reveal_window
    }

    /// Sets how many faulty sources are tolerated, and how their prices are combined. Where any
    /// are, prices must be committed and revealed.
    pub fn set_bft_parameters(&mut self, env: &Env, fault_tolerance: u32, method: u32) -> (r: Result<
        (),
        ErrorCode,
    >)
        ensures
            r == reply(
                refused_if(
                    old(self).guarded_admin_refusal(*env),
                    method > 3,
                    ErrorCode::InvalidConfiguration,
                ),
            ),
            *final(self) == (if r is Ok {
                PriceOracleContract {
                    settings: Settings {
                        bft_fault_tolerance: fault_tolerance,
                        bft_aggregation_method: method,
                        ..old(self).settings
                    },
                    ..*old(self)
                }
            } else {
                *old(self)
            }),
    {
        if let Some(e) = self.check_guarded_admin(env) {
            return Err(e);
        }
        if method > 3 {
            return Err(ErrorCode::InvalidConfiguration);
        }
        self.settings.bft_fault_tolerance = fault_tolerance;
        self.settings.bft_aggregation_method = method;
        Ok(())
    }

    /// How many faulty sources are tolerated.
    pub fn get_bft_fault_tolerance(&self) -> (r: u32)
        ensures
            r == self.settings.bft_fault_tolerance,
    {
        self.settings.bft_fault_tolerance
    }

    /// How prices are combined where faulty sources are tolerated.
    pub fn get_bft_aggregation_method(&self) -> (r: u32)
        ensures
            r == self.settings.bft_aggregation_method,
    {
        self.settings.bft_aggregation_method
    }
}

/// Whether `s` holds the prices of `reveals` with their digests.
pub open spec fn hashes_of(reveals: Seq<Reveal>, s: Seq<HashedReveal>) -> bool {
    &&& s.len() == reveals.len()
    &&& forall|i: int|
        0 <= i < s.len() ==> (#[trigger] s[i]).asset == reveals[i].asset && s[i].price == reveals[i].price
            && s[i].round_ledger == reveals[i].round_ledger && s[i].digest@ == sha256_of(
            commit_preimage(reveals[i].price, reveals[i].salt@, reveals[i].round_ledger),
        )
}

/// A price that was committed with its own digest is refused neither for its digest nor because
/// the commitment is no longer kept, when it is revealed in its window with the same salt and
/// round.
pub proof fn a_committed_price_can_be_revealed(
    c: PriceOracleContract,
    env: Env,
    source: Address,
    x: HashedReveal,
    ledger: u32,
)
    requires
        c.commit_reveal.commits@.contains_key((source, (x.asset, x.round_ledger))),
        c.commit_reveal.commits@[(source, (x.asset, x.round_ledger))] == (PriceCommit {
            hash: x.digest,
            ledger,
            lifetime: commit_lifetime(c.commit_reveal.commit_window, c.commit_reveal.reveal_window),
        }),
        x.round_ledger == round_of(ledger, c.commit_reveal.commit_window),
        x.round_ledger + c.commit_reveal.commit_window <= env.ledger,
        env.ledger < x.round_ledger + c.commit_reveal.commit_window + c.commit_reveal.reveal_window,
    ensures
        c.reveal_refusal(env, source, x) == c.price_refusal(
            env,
            source,
            x.asset,
            x.price,
            env.timestamp,
        ),
{
    let window = c.commit_reveal.commit_window;
    if window > 0 {
        assert(ledger / window * window <= ledger) by (nonlinear_arith)
            requires
                window > 0,
        ;
    }
}

/// A commitment that is no longer kept is as good as none: its price cannot be revealed, and its
/// round is open for another.
pub proof fn a_lapsed_commitment_is_none(
    c: PriceOracleContract,
    env: Env,
    source: Address,
    x: HashedReveal,
    commit: PriceCommit,
)
    requires
        lookup(c.commit_reveal.commits@, (source, (x.asset, x.round_ledger))) == Some(commit),
        env.ledger > commit.ledger + commit.lifetime,
    ensures
        c.commit_at(env, (source, (x.asset, x.round_ledger))) is None,
        c.reveal_refusal(env, source, x) == Some(ErrorCode::CommitNotFound),
{
}

} // verus!
