//! What is known of sources and of the contract outside of its prices.

use crate::contract::PriceOracleContract;
use crate::env::Env;
use crate::error::{refused_if, reply, ErrorCode};
use crate::price_book::lookup;
use crate::table::Table;
use crate::types::Address;
use vstd::prelude::*;

verus! {

/// The longest identity document, in characters.
pub const MAX_DOCUMENT: usize = 4096;

/// Which identity a source has.
#[derive(Clone, Copy, Debug, PartialEq, Eq)]
pub struct SourceDidLink {
    pub source: Address,
    pub did: Address,
    pub verified: bool,
}

/// How the contract presents itself.
#[derive(Debug)]
pub struct EcosystemMetadata {
    pub name: String,
    pub description: String,
    pub version: String,
    pub url: String,
}

/// How a price feed presents itself.
#[derive(Debug)]
pub struct FeedMetadata {
    pub asset: Address,
    pub name: String,
    pub decimals: u32,
}

/// What is known outside of prices.
#[derive(Debug)]
pub struct Directory {
    /// The documents of the identities.
    pub documents: Table<Address, String>,
    pub links: Table<Address, SourceDidLink>,
    pub metadata: Option<EcosystemMetadata>,
    pub feeds: Table<Address, FeedMetadata>,
}

impl PriceOracleContract {
    /// Stores the document of an identity.
    pub fn did_register(&mut self, env: &Env, did_address: Address, document: String) -> (r: Result<
        (),
        ErrorCode,
    >)
        ensures
            r == reply(
                refused_if(
                    old(self).admin_refusal(*env),
                    document@.len() > MAX_DOCUMENT,
                    ErrorCode::InvalidConfiguration,
                ),
            ),
            r is Err ==> *final(self) == *old(self),
            r is Ok ==> final(self).directory.documents@ == old(self).directory.documents@.insert(
                did_address,
                document,
            ),
            *final(self) == (PriceOracleContract {
                directory: Directory {
                    documents: final(self).directory.documents,
                    ..old(self).directory
                },
                ..*old(self)
            }),
    {
        if let Some(e) = self.check_admin(env) {
            return Err(e);
        }
        if document.as_str().unicode_len() > MAX_DOCUMENT {
            return Err(ErrorCode::InvalidConfiguration);
        }
        self.directory.documents.insert(did_address, document);
        Ok(())
    }

    /// Notes which identity a source has.
    pub fn did_link_source(&mut self, env: &Env, source: Address, did: Address, verified: bool) -> (r: Result<
        (),
        ErrorCode,
    >)
        ensures
            r == reply(old(self).admin_refusal(*env)),
            r is Err ==> *final(self) == *old(self),
            r is Ok ==> final(self).directory.links@ == old(self).directory.links@.insert(
                source,
                SourceDidLink { source, did, verified },
            ),
            *final(self) == (PriceOracleContract {
                directory: Directory { links: final(self).directory.links, ..old(self).directory },
                ..*old(self)
            }),
    {
        if let Some(e) = self.check_admin(env) {
            return Err(e);
        }
        self.directory.links.insert(source, SourceDidLink { source, did, verified });
        Ok(())
    }

    /// Whether the document of an identity is stored.
    pub fn did_verify(&self, did_address: Address) -> (r: bool)
        ensures
            r == self.directory.documents@.contains_key(did_address),
    {
        self.directory.documents.contains_key(&did_address)
    }

    /// The identity of a source, if it is known.
    pub fn did_get_source_link(&self, source: Address) -> (r: Option<SourceDidLink>)
        ensures
            r == lookup(self.directory.links@, source),
    {
        match self.directory.links.get(&source) {
            Some(l) => Some(*l),
            None => None,
        }
    }

    /// The identities of all sources, in the order in which the sources were first linked.
    pub fn did_get_all_source_links(&self) -> (r: Vec<SourceDidLink>)
        ensures
            r@ == self.directory.links.keys().map_values(|s: Address| self.directory.links@[s]),
    {
        let ghost all = self.directory.links.keys().map_values(|s: Address| self.directory.links@[s]);
        let mut r: Vec<SourceDidLink> = Vec::new();
        let mut i: usize = 0;
        while i < self.directory.links.len()
            invariant
                i <= self.directory.links.keys().len(),
                all == self.directory.links.keys().map_values(|s: Address| self.directory.links@[s]),
                r@ == all.take(i as int),
            decreases self.directory.links.keys().len() - i,
        {
            let s: Address = self.directory.links.key_at(i);
            if let Some(l) = self.directory.links.get(&s) {
                r.push(*l);
            }
            i += 1;
            assert(r@ =~= all.take(i as int));
        }
        assert(r@ =~= all);
        r
    }

    /// Sets how the contract presents itself.
    pub fn metadata_register(&mut self, env: &Env, metadata: EcosystemMetadata) -> (r: Result<(), ErrorCode>)
        ensures
            r == reply(old(self).admin_refusal(*env)),
            *final(self) == (if r is Ok {
                PriceOracleContract {
                    directory: Directory { metadata: Some(metadata), ..old(self).directory },
                    ..*old(self)
                }
            } else {
                *old(self)
            }),
    {
        if let Some(e) = self.check_admin(env) {
            return Err(e);
        }
        self.directory.metadata = Some(metadata);
        Ok(())
    }

    /// Changes how the contract presents itself.
    pub fn metadata_update(&mut self, env: &Env, metadata: EcosystemMetadata) -> (r: Result<(), ErrorCode>)
        ensures
            r == reply(old(self).admin_refusal(*env)),
            *final(self) == (if r is Ok {
                PriceOracleContract {
                    directory: Directory { metadata: Some(metadata), ..old(self).directory },
                    ..*old(self)
                }
            } else {
                *old(self)
            }),
    {
        self.metadata_register(env, metadata)
    }

    /// How the contract presents itself, if that is set.
    pub fn metadata_get(&self) -> (r: Option<&EcosystemMetadata>)
        ensures
            r == (match &self.directory.metadata {
                Some(m) => Some(m),
                None => None,
            }),
    {
        match &self.directory.metadata {
            Some(m) => Some(m),
            None => None,
        }
    }

    /// Sets how a price feed presents itself.
    pub fn metadata_register_feed(&mut self, env: &Env, feed: FeedMetadata) -> (r: Result<(), ErrorCode>)
        ensures
            r == reply(old(self).admin_refusal(*env)),
            r is Err ==> *final(self) == *old(self),
            r is Ok ==> final(self).directory.feeds@ == old(self).directory.feeds@.insert(
                feed.asset,
                feed,
            ),
            *final(self) == (PriceOracleContract {
                directory: Directory { feeds: final(self).directory.feeds, ..old(self).directory },
                ..*old(self)
            }),
    {
        if let Some(e) = self.check_admin(env) {
            return Err(e);
        }
        self.directory.feeds.insert(feed.asset, feed);
        Ok(())
    }

    /// How all price feeds present themselves, in the order in which they were first set.
    pub fn metadata_list_feeds(&self) -> (r: Vec<&FeedMetadata>)
        ensures
            r@.len() == self.directory.feeds.keys().len(),
            forall|i: int|
                0 <= i < r@.len() ==> *(#[trigger] r@[i])
                    == self.directory.feeds@[self.directory.feeds.keys()[i]],
    {
        let mut r: Vec<&FeedMetadata> = Vec::new();
        let mut i: usize = 0;
        while i < self.directory.feeds.len()
            invariant
                i <= self.directory.feeds.keys().len(),
                r@.len() == i,
                forall|j: int|
                    0 <= j < i ==> *(#[trigger] r@[j])
                        == self.directory.feeds@[self.directory.feeds.keys()[j]],
            decreases self.directory.feeds.keys().len() - i,
        {
            let a: Address = self.directory.feeds.key_at(i);
            if let Some(f) = self.directory.feeds.get(&a) {
                r.push(f);
            }
            i += 1;
        }
        r
    }

    /// The document of an identity, if it is stored.
    pub fn did_get_document(&self, did_address: Address) -> (r: Option<&String>)
        ensures
            r == (if self.directory.documents@.contains_key(did_address) {
                Some(&self.directory.documents@[did_address])
            } else {
                None
            }),
    {
        self.directory.documents.get(&did_address)
    }

    /// How the price feed of `asset` presents itself, if that is set.
    pub fn metadata_get_feed(&self, asset: Address) -> (r: Option<&FeedMetadata>)
        ensures
            r == (if self.directory.feeds@.contains_key(asset) {
                Some(&self.directory.feeds@[asset])
            } else {
                None
            }),
    {
        self.directory.feeds.get(&asset)
    }
}

} // verus!
