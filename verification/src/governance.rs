//! Roles, and what governs the registry of sources.

use crate::aggregation::{all_positive, combine, combined};
use crate::contract::PriceOracleContract;
use crate::env::Env;
use crate::error::{refused_if, reply, ErrorCode};
use crate::events::Transfer;
use crate::multisig::without_first;
use crate::pools::{blend, blended, market_share};
use crate::price_book::weights_of;
use crate::registry::Registry;
use crate::relayers::{balance, balance_of};
use crate::table::Table;
use crate::timelock::{elapsed, has_elapsed};
use crate::types::{contains_address, Address};
use vstd::prelude::*;

verus! {

/// Whether and by whom a source was verified.
#[derive(Debug)]
pub struct SourceVerification {
    pub verified: bool,
    pub verification_method: String,
    pub verifier: Address,
}

/// Who decides on new sources.
#[derive(Debug)]
pub struct SourceGovernance {
    pub approvers: Vec<Address>,
    /// How many of them must approve.
    pub threshold: u32,
}

/// A source that was proposed.
#[derive(Debug)]
pub struct SourceProposal {
    pub source: Address,
    pub name: String,
    pub approvals: Vec<Address>,
    /// Whether the source was registered.
    pub accepted: bool,
}

/// Roles, and what governs the registry of sources.
#[derive(Debug)]
pub struct Governance {
    /// Who holds a role, by its number.
    pub roles: Table<u32, Vec<Address>>,
    /// The assets that a source is meant to price.
    pub source_assets: Table<Address, Vec<Address>>,
    pub verifications: Table<Address, SourceVerification>,
    /// How fast a reputation fades.
    pub reputation_decay_factor: u32,
    /// How many ledgers lie between the announcement of a removal and the removal.
    pub removal_cooldown: u32,
    /// The sources whose removal was announced, with the ledger of the announcement.
    pub removals: Table<Address, u32>,
    pub approval: Option<SourceGovernance>,
    pub proposals: Registry<SourceProposal>,
    /// The bond that a source must deposit.
    pub source_bond: i128,
    pub source_bonds: Table<Address, i128>,
}

/// The list that stands under `k`; an empty one where none does.
pub open spec fn list_of<K>(m: Map<K, Vec<Address>>, k: K) -> Seq<Address> {
    if m.contains_key(k) {
        m[k]@
    } else {
        Seq::empty()
    }
}

/// The list that stands under `k`; an empty one where none does.
fn copy_list(list: Option<&Vec<Address>>) -> (r: Vec<Address>)
    ensures
        r@ == (match list {
            Some(l) => l@,
            None => Seq::empty(),
        }),
{
    let mut r: Vec<Address> = Vec::new();
    if let Some(l) = list {
        let mut i: usize = 0;
        while i < l.len()
            invariant
                i <= l@.len(),
                r@ == l@.take(i as int),
            decreases l@.len() - i,
        {
            r.push(l[i]);
            i += 1;
            assert(r@ =~= l@.take(i as int));
        }
        assert(r@ =~= l@);
    }
    r
}

impl PriceOracleContract {
    /// Who holds the role `role`.
    pub open spec fn holders_of(self, role: u32) -> Seq<Address> {
        list_of(self.governance.roles@, role)
    }

    /// Whether `caller` holds the role `role`.
    pub fn has_role(&self, caller: Address, role: u32) -> (r: bool)
        ensures
            r == self.holders_of(role).contains(caller),
    {
        match self.governance.roles.get(&role) {
            Some(l) => contains_address(l, &caller),
            None => false,
        }
    }

    /// Whether `post` is `pre` with the holders `list` of the role `role`.
    pub open spec fn holders_replaced(pre: Self, post: Self, role: u32, list: Seq<Address>) -> bool {
        &&& post.holders_of(role) == list
        &&& post.governance.roles@.remove(role) == pre.governance.roles@.remove(role)
        &&& post == (PriceOracleContract {
            governance: Governance { roles: post.governance.roles, ..pre.governance },
            ..pre
        })
    }

    /// Gives `delegatee` the role `role`. Nothing changes for one who holds it.
    pub fn delegate_role(&mut self, env: &Env, delegatee: Address, role: u32) -> (r: Result<(), ErrorCode>)
        ensures
            r == reply(old(self).admin_refusal(*env)),
            r is Err ==> *final(self) == *old(self),
            r is Ok ==> PriceOracleContract::holders_replaced(
                *old(self),
                *final(self),
                role,
                if old(self).holders_of(role).contains(delegatee) {
                    old(self).holders_of(role)
                } else {
                    old(self).holders_of(role).push(delegatee)
                },
            ),
    {
        if let Some(e) = self.check_admin(env) {
            return Err(e);
        }
        let mut list: Vec<Address> = match self.governance.roles.remove(&role) {
            Some(l) => l,
            None => Vec::new(),
        };
        if !contains_address(&list, &delegatee) {
            list.push(delegatee);
        }
        self.governance.roles.insert(role, list);
        assert(self.governance.roles@.remove(role) =~= old(self).governance.roles@.remove(role));
        Ok(())
    }

    /// Takes the role `role` from `delegatee`. Nothing changes for one who does not hold it.
    pub fn revoke_role(&mut self, env: &Env, delegatee: Address, role: u32) -> (r: Result<(), ErrorCode>)
        ensures
            r == reply(old(self).admin_refusal(*env)),
            r is Err ==> *final(self) == *old(self),
            r is Ok ==> PriceOracleContract::holders_replaced(
                *old(self),
                *final(self),
                role,
                old(self).holders_of(role).remove_value(delegatee),
            ),
    {
        if let Some(e) = self.check_admin(env) {
            return Err(e);
        }
        let list: Vec<Address> = match self.governance.roles.remove(&role) {
            Some(l) => l,
            None => Vec::new(),
        };
        self.governance.roles.insert(role, without_first(list, &delegatee));
        assert(self.governance.roles@.remove(role) =~= old(self).governance.roles@.remove(role));
        Ok(())
    }

    /// Who holds the role `role`, in the order in which they got it.
    pub fn get_role_holders(&self, role: u32) -> (r: Vec<Address>)
        ensures
            r@ == self.holders_of(role),
    {
        copy_list(self.governance.roles.get(&role))
    }

    /// The roles among the first `n` that were ever given which `holder` holds.
    pub open spec fn roles_among(self, holder: Address, n: int) -> Seq<u32>
        decreases n,
    {
        if n <= 0 {
            Seq::empty()
        } else {
            let role = self.governance.roles.keys()[n - 1];
            if self.holders_of(role).contains(holder) {
                self.roles_among(holder, n - 1).push(role)
            } else {
                self.roles_among(holder, n - 1)
            }
        }
    }

    /// The roles that `holder` holds.
    pub fn get_roles_for_holder(&self, holder: Address) -> (r: Vec<u32>)
        ensures
            r@ == self.roles_among(holder, self.governance.roles.keys().len() as int),
    {
        let mut r: Vec<u32> = Vec::new();
        let mut i: usize = 0;
        while i < self.governance.roles.len()
            invariant
                i <= self.governance.roles.keys().len(),
                r@ == self.roles_among(holder, i as int),
            decreases self.governance.roles.keys().len() - i,
        {
            let role: u32 = self.governance.roles.key_at(i);
            if self.has_role(holder, role) {
                r.push(role);
            }
            i += 1;
        }
        r
    }

    /// The numbers of the roles that `holder` holds.
    pub fn get_address_roles(&self, holder: Address) -> (r: Vec<u32>)
        ensures
            r@ == self.roles_among(holder, self.governance.roles.keys().len() as int),
    {
        self.get_roles_for_holder(holder)
    }

    /// What the method in force makes of `hypothetical_prices` of `asset`, each with its source,
    /// drawn towards the price of a pool where one counts; `None` where there are too few of them
    /// or one is not above zero.
    pub open spec fn simulated(self, asset: Address, hypothetical_prices: Seq<(Address, i128)>) -> Option<i128> {
        let prices = hypothetical_prices.map_values(|x: (Address, i128)| x.1);
        let sources = hypothetical_prices.map_values(|x: (Address, i128)| x.0);
        if prices.len() == 0 || prices.len() < self.config.min_sources_required || !all_positive(prices) {
            None
        } else {
            Some(
                blended(
                    combined(
                        self.settings.aggregation_method,
                        prices,
                        weights_of(self.weights@, sources),
                    ) as i128,
                    market_share(self.pools, asset, self.config.decimals),
                ),
            )
        }
    }

    /// What the method in force would make of some prices of `asset`, each with its source. The
    /// prices that were submitted are not looked at.
    pub fn simulate_aggregation(&self, asset: Address, hypothetical_prices: &Vec<(Address, i128)>) -> (r: Option<
        i128,
    >)
        ensures
            r == (if self.book.assets@.contains_key(asset) {
                self.simulated(asset, hypothetical_prices@)
            } else {
                None
            }),
    {
        if !self.book.assets.contains_key(&asset) {
            return None;
        }
        let ghost given = hypothetical_prices@;
        let ghost all = given.map_values(|x: (Address, i128)| x.1);
        let ghost sources = given.map_values(|x: (Address, i128)| x.0);
        let mut prices: Vec<i128> = Vec::new();
        let mut weights: Vec<u32> = Vec::new();
        let mut i: usize = 0;
        while i < hypothetical_prices.len()
            invariant
                i <= given.len(),
                given == hypothetical_prices@,
                all == given.map_values(|x: (Address, i128)| x.1),
                sources == given.map_values(|x: (Address, i128)| x.0),
                prices@ == all.take(i as int),
                weights@ == weights_of(self.weights@, sources).take(i as int),
                all_positive(prices@),
                self.book.assets@.contains_key(asset),
            decreases given.len() - i,
        {
            let (source, price) = hypothetical_prices[i];
            if price <= 0 {
                assert(all[i as int] <= 0);
                return None;
            }
            prices.push(price);
            weights.push(
                match self.weights.get(&source) {
                    Some(w) => *w,
                    None => 1,
                },
            );
            i += 1;
            assert(prices@ =~= all.take(i as int));
            assert(weights@ =~= weights_of(self.weights@, sources).take(i as int));
        }
        assert(prices@ =~= all);
        assert(weights@ =~= weights_of(self.weights@, sources));
        if prices.len() == 0 || prices.len() < self.config.min_sources_required as usize {
            return None;
        }
        Some(
            blend(
                combine(self.settings.aggregation_method, &prices, &weights),
                self.pools.share_of(&asset, self.config.decimals),
            ),
        )
    }

    /// The assets that `source` is meant to price.
    pub open spec fn assets_of(self, source: Address) -> Seq<Address> {
        list_of(self.governance.source_assets@, source)
    }

    /// Whether `post` is `pre` with the assets `list` of `source`.
    pub open spec fn assets_replaced(pre: Self, post: Self, source: Address, list: Seq<Address>) -> bool {
        &&& post.assets_of(source) == list
        &&& post.governance.source_assets@.remove(source) == pre.governance.source_assets@.remove(source)
        &&& post == (PriceOracleContract {
            governance: Governance { source_assets: post.governance.source_assets, ..pre.governance },
            ..pre
        })
    }

    /// Registers `source` together with the assets that it is meant to price.
    pub fn add_source_with_assets(&mut self, env: &Env, source: Address, name: String, assets: Vec<Address>) -> (r:
        Result<(), ErrorCode>)
        ensures
            r == reply(old(self).add_source_refusal(*env, source)),
            r is Err ==> *final(self) == *old(self),
            r is Ok ==> {
                &&& final(self).op_counts@ == old(self).counts_with(*env, crate::sources::OP_ADD_SOURCE)
                &&& final(self).governance.source_assets@ == old(self).governance.source_assets@.insert(
                    source,
                    assets,
                )
                &&& PriceOracleContract::source_registered(
                    PriceOracleContract {
                        op_counts: final(self).op_counts,
                        governance: Governance {
                            source_assets: final(self).governance.source_assets,
                            ..old(self).governance
                        },
                        ..*old(self)
                    },
                    *final(self),
                    *env,
                    source,
                    name,
                )
            },
    {
        match self.add_source(env, source, name) {
            Err(e) => Err(e),
            Ok(_) => {
                self.governance.source_assets.insert(source, assets);
                Ok(())
            },
        }
    }

    /// The assets that `source` is meant to price.
    pub fn get_source_assets(&self, source: Address) -> (r: Vec<Address>)
        ensures
            r@ == self.assets_of(source),
    {
        copy_list(self.governance.source_assets.get(&source))
    }

    /// Means `source` to price `asset` too. Nothing changes where it already is.
    pub fn add_source_asset(&mut self, env: &Env, source: Address, asset: Address) -> (r: Result<(), ErrorCode>)
        ensures
            r == reply(
                refused_if(
                    old(self).guarded_admin_refusal(*env),
                    !old(self).sources@.contains_key(source),
                    ErrorCode::SourceNotFound,
                ),
            ),
            r is Err ==> *final(self) == *old(self),
            r is Ok ==> PriceOracleContract::assets_replaced(
                *old(self),
                *final(self),
                source,
                if old(self).assets_of(source).contains(asset) {
                    old(self).assets_of(source)
                } else {
                    old(self).assets_of(source).push(asset)
                },
            ),
    {
        if let Some(e) = self.check_guarded_admin(env) {
            return Err(e);
        }
        if !self.sources.contains_key(&source) {
            return Err(ErrorCode::SourceNotFound);
        }
        let mut list: Vec<Address> = match self.governance.source_assets.remove(&source) {
            Some(l) => l,
            None => Vec::new(),
        };
        if !contains_address(&list, &asset) {
            list.push(asset);
        }
        self.governance.source_assets.insert(source, list);
        assert(self.governance.source_assets@.remove(source) =~= old(
            self,
        ).governance.source_assets@.remove(source));
        Ok(())
    }

    /// Means `source` to price `asset` no longer. Nothing changes where it is not.
    pub fn remove_source_asset(&mut self, env: &Env, source: Address, asset: Address) -> (r: Result<
        (),
        ErrorCode,
    >)
        ensures
            r == reply(
                refused_if(
                    old(self).guarded_admin_refusal(*env),
                    !old(self).sources@.contains_key(source),
                    ErrorCode::SourceNotFound,
                ),
            ),
            r is Err ==> *final(self) == *old(self),
            r is Ok ==> PriceOracleContract::assets_replaced(
                *old(self),
                *final(self),
                source,
                old(self).assets_of(source).remove_value(asset),
            ),
    {
        if let Some(e) = self.check_guarded_admin(env) {
            return Err(e);
        }
        if !self.sources.contains_key(&source) {
            return Err(ErrorCode::SourceNotFound);
        }
        let list: Vec<Address> = match self.governance.source_assets.remove(&source) {
            Some(l) => l,
            None => Vec::new(),
        };
        self.governance.source_assets.insert(source, without_first(list, &asset));
        assert(self.governance.source_assets@.remove(source) =~= old(
            self,
        ).governance.source_assets@.remove(source));
        Ok(())
    }

    /// Notes whether and by whom `source` was verified.
    pub fn set_source_verification(
        &mut self,
        env: &Env,
        source: Address,
        verified: bool,
        verification_method: String,
        verifier: Address,
    ) -> (r: Result<(), ErrorCode>)
        ensures
            r == reply(
                refused_if(
                    old(self).guarded_admin_refusal(*env),
                    !old(self).sources@.contains_key(source),
                    ErrorCode::SourceNotFound,
                ),
            ),
            r is Err ==> *final(self) == *old(self),
            r is Ok ==> final(self).governance.verifications@ == old(
                self,
            ).governance.verifications@.insert(
                source,
                SourceVerification { verified, verification_method, verifier },
            ),
            *final(self) == (PriceOracleContract {
                governance: Governance {
                    verifications: final(self).governance.verifications,
                    ..old(self).governance
                },
                ..*old(self)
            }),
    {
        if let Some(e) = self.check_guarded_admin(env) {
            return Err(e);
        }
        if !self.sources.contains_key(&source) {
            return Err(ErrorCode::SourceNotFound);
        }
        self.governance.verifications.insert(
            source,
            SourceVerification { verified, verification_method, verifier },
        );
        Ok(())
    }

    /// Whether and by whom `source` was verified, if that is noted.
    pub fn get_source_verification(&self, source: Address) -> (r: Option<&SourceVerification>)
        ensures
            r == (if self.governance.verifications@.contains_key(source) {
                Some(&self.governance.verifications@[source])
            } else {
                None
            }),
    {
        self.governance.verifications.get(&source)
    }

    /// Whether `post` differs from `pre` only in the announced removals.
    pub open spec fn only_removals_differ(pre: Self, post: Self) -> bool {
        post == (PriceOracleContract {
            governance: Governance { removals: post.governance.removals, ..pre.governance },
            ..pre
        })
    }

    /// Announces the removal of `source`.
    pub fn mark_source_for_removal(&mut self, env: &Env, source: Address) -> (r: Result<(), ErrorCode>)
        ensures
            r == reply(
                refused_if(
                    old(self).admin_refusal(*env),
                    !old(self).sources@.contains_key(source),
                    ErrorCode::SourceNotFound,
                ),
            ),
            r is Err ==> *final(self) == *old(self),
            r is Ok ==> final(self).governance.removals@ == old(self).governance.removals@.insert(
                source,
                env.ledger,
            ),
            PriceOracleContract::only_removals_differ(*old(self), *final(self)),
    {
        if let Some(e) = self.check_admin(env) {
            return Err(e);
        }
        if !self.sources.contains_key(&source) {
            return Err(ErrorCode::SourceNotFound);
        }
        self.governance.removals.insert(source, env.ledger);
        Ok(())
    }

    /// Takes the announcement of a removal back.
    pub fn cancel_source_removal(&mut self, env: &Env, source: Address) -> (r: Result<(), ErrorCode>)
        ensures
            r == reply(
                refused_if(
                    old(self).admin_refusal(*env),
                    !old(self).governance.removals@.contains_key(source),
                    ErrorCode::NoData,
                ),
            ),
            r is Err ==> *final(self) == *old(self),
            r is Ok ==> final(self).governance.removals@ == old(self).governance.removals@.remove(source),
            PriceOracleContract::only_removals_differ(*old(self), *final(self)),
    {
        if let Some(e) = self.check_admin(env) {
            return Err(e);
        }
        if !self.governance.removals.contains_key(&source) {
            return Err(ErrorCode::NoData);
        }
        let _ = self.governance.removals.remove(&source);
        Ok(())
    }

    /// Removes `source`, whose removal was announced long enough ago.
    pub fn finalize_source_removal(&mut self, env: &Env, source: Address) -> (r: Result<(), ErrorCode>)
        ensures
            r == reply(
                refused_if(
                    refused_if(
                        old(self).admin_refusal(*env),
                        !old(self).governance.removals@.contains_key(source),
                        ErrorCode::NoData,
                    ),
                    !elapsed(
                        old(self).governance.removals@[source],
                        env.ledger,
                        old(self).governance.removal_cooldown,
                    ),
                    ErrorCode::TimelockNotReady,
                ),
            ),
            r is Err ==> *final(self) == *old(self),
            r is Ok ==> {
                &&& final(self).governance.removals@ == old(self).governance.removals@.remove(source)
                &&& final(self).sources@ == old(self).sources@.remove(source)
                &&& final(self).sources.keys() == old(self).sources.keys().remove_value(source)
            },
            PriceOracleContract::only_removals_differ(
                PriceOracleContract { sources: final(self).sources, ..*old(self) },
                *final(self),
            ),
    {
        if let Some(e) = self.check_admin(env) {
            return Err(e);
        }
        match self.governance.removals.get(&source) {
            None => {
                return Err(ErrorCode::NoData);
            },
            Some(since) => if !has_elapsed(*since, env.ledger, self.governance.removal_cooldown) {
                return Err(ErrorCode::TimelockNotReady);
            },
        }
        let _ = self.governance.removals.remove(&source);
        let _ = self.sources.remove(&source);
        Ok(())
    }

    /// Whether the removal of `source` was announced.
    pub fn is_source_pending_removal(&self, source: Address) -> (r: bool)
        ensures
            r == self.governance.removals@.contains_key(source),
    {
        self.governance.removals.contains_key(&source)
    }

    /// Sets who decides on new sources.
    pub fn set_source_governance(&mut self, env: &Env, approvers: Vec<Address>, threshold: u32) -> (r: Result<
        (),
        ErrorCode,
    >)
        ensures
            r == reply(
                refused_if(
                    old(self).guarded_admin_refusal(*env),
                    threshold == 0 || threshold > approvers@.len(),
                    ErrorCode::InvalidConfiguration,
                ),
            ),
            *final(self) == (if r is Ok {
                PriceOracleContract {
                    governance: Governance {
                        approval: Some(SourceGovernance { approvers, threshold }),
                        ..old(self).governance
                    },
                    ..*old(self)
                }
            } else {
                *old(self)
            }),
    {
        if let Some(e) = self.check_guarded_admin(env) {
            return Err(e);
        }
        if threshold == 0 || threshold as usize > approvers.len() {
            return Err(ErrorCode::InvalidConfiguration);
        }
        self.governance.approval = Some(SourceGovernance { approvers, threshold });
        Ok(())
    }

    /// Who decides on new sources, if that is set.
    pub fn get_source_governance(&self) -> (r: Option<&SourceGovernance>)
        ensures
            r == (match &self.governance.approval {
                Some(g) => Some(g),
                None => None,
            }),
    {
        match &self.governance.approval {
            Some(g) => Some(g),
            None => None,
        }
    }

    /// Whether `a` authorizes the call as one who decides on new sources.
    pub open spec fn approver_authorizes(self, env: Env, a: Address) -> bool {
        env.authorizes(a) && (self.governance.approval matches Some(g) && g.approvers@.contains(a))
    }

    fn is_approver(&self, env: &Env, a: &Address) -> (r: bool)
        ensures
            r == self.approver_authorizes(*env, *a),
    {
        env.is_authorized_by(a) && match &self.governance.approval {
            Some(g) => contains_address(&g.approvers, a),
            None => false,
        }
    }

    /// Proposes a new source, and gives back the number of the proposal.
    pub fn propose_source(&mut self, env: &Env, proposer: Address, source: Address, name: String) -> (r: Result<
        u32,
        ErrorCode,
    >)
        ensures
            match r {
                Err(e) => *final(self) == *old(self) && Some(e) == (if old(self).entered {
                    Some(ErrorCode::Reentrancy)
                } else if !old(self).approver_authorizes(*env, proposer) {
                    Some(ErrorCode::NotAuthorized)
                } else if old(self).sources@.contains_key(source) {
                    Some(ErrorCode::SourceAlreadyExists)
                } else if old(self).governance.proposals.issued() == u32::MAX {
                    Some(ErrorCode::ArithmeticOverflow)
                } else {
                    None
                }),
                Ok(id) => {
                    let p = final(self).governance.proposals@[id];
                    &&& !old(self).entered
                    &&& old(self).approver_authorizes(*env, proposer)
                    &&& !old(self).sources@.contains_key(source)
                    &&& id == old(self).governance.proposals.issued() + 1
                    &&& !old(self).governance.proposals@.contains_key(id)
                    &&& final(self).governance.proposals.issued() == id
                    &&& final(self).governance.proposals@ == old(self).governance.proposals@.insert(id, p)
                    &&& p.source == source
                    &&& p.name == name
                    &&& p.approvals@ == Seq::<Address>::empty()
                    &&& !p.accepted
                },
            },
            *final(self) == (PriceOracleContract {
                governance: Governance {
                    proposals: final(self).governance.proposals,
                    ..old(self).governance
                },
                ..*old(self)
            }),
    {
        if self.entered {
            return Err(ErrorCode::Reentrancy);
        }
        if !self.is_approver(env, &proposer) {
            return Err(ErrorCode::NotAuthorized);
        }
        if self.sources.contains_key(&source) {
            return Err(ErrorCode::SourceAlreadyExists);
        }
        match self.governance.proposals.issue(
            SourceProposal { source, name, approvals: Vec::new(), accepted: false },
        ) {
            Some(id) => Ok(id),
            None => Err(ErrorCode::ArithmeticOverflow),
        }
    }

    /// Why the approval of a proposed source is refused, if it is. Where it would make the
    /// approvals enough, the source must be able to be registered.
    pub open spec fn approval_refusal(self, env: Env, approver: Address, proposal_id: u32) -> Option<
        ErrorCode,
    > {
        let p = self.governance.proposals@[proposal_id];
        if self.entered {
            Some(ErrorCode::Reentrancy)
        } else if !self.approver_authorizes(env, approver) {
            Some(ErrorCode::NotAuthorized)
        } else if !self.governance.proposals@.contains_key(proposal_id) || p.accepted {
            Some(ErrorCode::OperationNotFound)
        } else if p.approvals@.contains(approver) {
            Some(ErrorCode::AlreadyApproved)
        } else if p.approvals@.len() + 1 < self.governance.approval.unwrap().threshold {
            None
        } else if self.sources@.contains_key(p.source) {
            Some(ErrorCode::SourceAlreadyExists)
        } else if self.sources_full() {
            Some(ErrorCode::MaxSourcesReached)
        } else {
            None
        }
    }

    /// Approves a proposed source. The approval that makes them enough registers it.
    pub fn approve_source(&mut self, env: &Env, approver: Address, proposal_id: u32) -> (r: Result<
        (),
        ErrorCode,
    >)
        ensures
            r == reply(old(self).approval_refusal(*env, approver, proposal_id)),
            r is Err ==> *final(self) == *old(self),
            final(self).governance.proposals.issued() == old(self).governance.proposals.issued(),
            r is Ok ==> {
                let p = old(self).governance.proposals@[proposal_id];
                let q = final(self).governance.proposals@[proposal_id];
                let enough = p.approvals@.len() + 1 >= old(self).governance.approval.unwrap().threshold;
                let mid = PriceOracleContract {
                    governance: Governance {
                        proposals: final(self).governance.proposals,
                        ..old(self).governance
                    },
                    ..*old(self)
                };
                &&& final(self).governance.proposals@ == old(self).governance.proposals@.insert(
                    proposal_id,
                    q,
                )
                &&& q.source == p.source
                &&& q.name == p.name
                &&& q.approvals@ == p.approvals@.push(approver)
                &&& q.accepted == enough
                &&& enough ==> PriceOracleContract::source_registered(
                    mid,
                    *final(self),
                    *env,
                    p.source,
                    p.name,
                )
                &&& !enough ==> *final(self) == mid
            },
    {
        if self.entered {
            return Err(ErrorCode::Reentrancy);
        }
        if !self.is_approver(env, &approver) {
            return Err(ErrorCode::NotAuthorized);
        }
        let threshold: u32 = match &self.governance.approval {
            Some(g) => g.threshold,
            None => {
                return Err(ErrorCode::NotAuthorized);
            },
        };
        let (source, name, enough) = match self.governance.proposals.get(proposal_id) {
            None => {
                return Err(ErrorCode::OperationNotFound);
            },
            Some(p) => {
                if p.accepted {
                    return Err(ErrorCode::OperationNotFound);
                }
                if contains_address(&p.approvals, &approver) {
                    return Err(ErrorCode::AlreadyApproved);
                }
                let enough: bool = threshold == 0 || p.approvals.len() >= threshold as usize - 1;
                if enough {
                    if self.sources.contains_key(&p.source) {
                        return Err(ErrorCode::SourceAlreadyExists);
                    }
                    if !self.has_room() {
                        return Err(ErrorCode::MaxSourcesReached);
                    }
                }
                (p.source, p.name.clone(), enough)
            },
        };
        let p: SourceProposal = self.governance.proposals.exchange(
            proposal_id,
            SourceProposal { source, name: String::new(), approvals: Vec::new(), accepted: true },
        );
        let mut approvals: Vec<Address> = p.approvals;
        approvals.push(approver);
        self.governance.proposals.replace(
            proposal_id,
            SourceProposal { source: p.source, name: p.name, approvals, accepted: enough },
        );
        proof {
            assert(self.governance.proposals@ =~= old(self).governance.proposals@.insert(
                proposal_id,
                self.governance.proposals@[proposal_id],
            ));
        }
        if enough {
            self.register_source(env, source, name);
        }
        Ok(())
    }

    /// A proposed source.
    pub fn get_source_proposal(&self, proposal_id: u32) -> (r: Result<&SourceProposal, ErrorCode>)
        ensures
            r == (if self.governance.proposals@.contains_key(proposal_id) {
                Ok(&self.governance.proposals@[proposal_id])
            } else {
                Err(ErrorCode::OperationNotFound)
            }),
    {
        match self.governance.proposals.get(proposal_id) {
            Some(p) => Ok(p),
            None => Err(ErrorCode::OperationNotFound),
        }
    }

    /// Deposits what is missing of the bond of `source`, which is asked for as a transfer.
    /// Nothing happens where nothing is missing.
    pub fn deposit_source_bond(&mut self, env: &Env, source: Address) -> (r: Result<(), ErrorCode>)
        ensures
            ({
                let held = balance_of(old(self).governance.source_bonds@, source);
                let owed = old(self).governance.source_bond;
                &&& r == (if old(self).entered {
                    Err(ErrorCode::Reentrancy)
                } else if !env.authorizes(source) {
                    Err(ErrorCode::NotAuthorized)
                } else if !old(self).sources@.contains_key(source) {
                    Err(ErrorCode::SourceNotFound)
                } else if owed <= 0 || held >= owed {
                    Ok(())
                } else if old(self).relayers.stake_token is None {
                    Err(ErrorCode::StakeTokenNotConfigured)
                } else if owed - held > i128::MAX {
                    Err(ErrorCode::ArithmeticOverflow)
                } else {
                    Ok(())
                })
                &&& r is Err || owed <= 0 || held >= owed ==> *final(self) == *old(self)
                &&& r is Ok && owed > 0 && held < owed ==> {
                    &&& final(self).governance.source_bonds@ == old(
                        self,
                    ).governance.source_bonds@.insert(source, owed)
                    &&& final(self).transfers@ == old(self).transfers@.push(
                        Transfer::Receive {
                            token: old(self).relayers.stake_token.unwrap(),
                            from: source,
                            amount: (owed - held) as i128,
                        },
                    )
                }
            }),
            *final(self) == (PriceOracleContract {
                governance: Governance {
                    source_bonds: final(self).governance.source_bonds,
                    ..old(self).governance
                },
                transfers: final(self).transfers,
                ..*old(self)
            }),
    {
        if self.entered {
            return Err(ErrorCode::Reentrancy);
        }
        if !env.is_authorized_by(&source) {
            return Err(ErrorCode::NotAuthorized);
        }
        if !self.sources.contains_key(&source) {
            return Err(ErrorCode::SourceNotFound);
        }
        let held: i128 = balance(&self.governance.source_bonds, &source);
        let owed: i128 = self.governance.source_bond;
        if owed <= 0 || held >= owed {
            return Ok(());
        }
        let token: Address = match &self.relayers.stake_token {
            Some(t) => *t,
            None => {
                return Err(ErrorCode::StakeTokenNotConfigured);
            },
        };
        match owed.checked_sub(held) {
            None => Err(ErrorCode::ArithmeticOverflow),
            Some(amount) => {
                self.governance.source_bonds.insert(source, owed);
                self.transfers.push(Transfer::Receive { token, from: source, amount });
                Ok(())
            },
        }
    }

    /// What is deposited for `source`.
    pub fn get_source_deposited_bond(&self, source: Address) -> (r: i128)
        ensures
            r == balance_of(self.governance.source_bonds@, source),
    {
        balance(&self.governance.source_bonds, &source)
    }

    /// Sets the bond that a source must deposit.
    pub fn set_source_bond(&mut self, env: &Env, amount: i128) -> (r: Result<(), ErrorCode>)
        ensures
            r == reply(old(self).guarded_admin_refusal(*env)),
            *final(self) == (if r is Ok {
                PriceOracleContract {
                    governance: Governance { source_bond: amount, ..old(self).governance },
                    ..*old(self)
                }
            } else {
                *old(self)
            }),
    {
        if let Some(e) = self.check_guarded_admin(env) {
            return Err(e);
        }
        self.governance.source_bond = amount;
        Ok(())
    }

    /// The bond that a source must deposit.
    pub fn get_source_bond(&self) -> (r: i128)
        ensures
            r == self.governance.source_bond,
    {
        self.governance.source_bond
    }

    /// Sets how fast a reputation fades.
    pub fn set_reputation_decay_factor(&mut self, env: &Env, factor: u32) -> (r: Result<(), ErrorCode>)
        ensures
            r == reply(old(self).admin_refusal(*env)),
            *final(self) == (if r is Ok {
                PriceOracleContract {
                    governance: Governance { reputation_decay_factor: factor, ..old(self).governance },
                    ..*old(self)
                }
            } else {
                *old(self)
            }),
    {
        if let Some(e) = self.check_admin(env) {
            return Err(e);
        }
        self.governance.reputation_decay_factor = factor;
        Ok(())
    }

    /// How fast a reputation fades.
    pub fn get_reputation_decay_factor(&self) -> (r: u32)
        ensures
            r == self.governance.reputation_decay_factor,
    {
        self.governance.reputation_decay_factor
    }

    /// Sets how many ledgers lie between the announcement of a removal and the removal.
    pub fn set_removal_cooldown(&mut self, env: &Env, ledgers: u32) -> (r: Result<(), ErrorCode>)
        ensures
            r == reply(old(self).admin_refusal(*env)),
            *final(self) == (if r is Ok {
                PriceOracleContract {
                    governance: Governance { removal_cooldown: ledgers, ..old(self).governance },
                    ..*old(self)
                }
            } else {
                *old(self)
            }),
    {
        if let Some(e) = self.check_admin(env) {
            return Err(e);
        }
        self.governance.removal_cooldown = ledgers;
        Ok(())
    }

    /// How many ledgers lie between the announcement of a removal and the removal.
    pub fn get_removal_cooldown(&self) -> (r: u32)
        ensures
            r == self.governance.removal_cooldown,
    {
        self.governance.removal_cooldown
    }
}

} // verus!
