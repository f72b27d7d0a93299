//! Channels over which a source updates its prices many times with one signature.

use crate::contract::PriceOracleContract;
use crate::digest::{
    le_bytes, lemma_le_len, lemma_le_tells_apart, lemma_same_amount, lemma_same_parts, lemma_spans, push_le,
};
use crate::env::Env;
use crate::error::{reply, ErrorCode};
use crate::events::Transfer;
use crate::submissions::{address_bytes, lemma_same_address, push_address};
use crate::table::Table;
use crate::timelock::{elapsed, has_elapsed};
use crate::types::Address;
use vstd::prelude::*;

verus! {

/// One price of a batch.
#[derive(Clone, Copy, Debug, PartialEq, Eq)]
pub struct BatchItem {
    pub asset: Address,
    pub price: i128,
    pub timestamp: u64,
    /// Counts the prices of the channel.
    pub nonce: u64,
}

/// An open channel of a source.
#[derive(Clone, Copy, Debug, PartialEq, Eq)]
pub struct StateChannel {
    /// What the source has locked.
    pub deposit: i128,
    pub token: Address,
    /// The last price, if there is one.
    pub latest: Option<BatchItem>,
    /// The ledger in which the channel was opened or last updated.
    pub updated_ledger: u32,
}

/// The open channels.
#[derive(Debug)]
pub struct Channels {
    /// How many ledgers a source must be silent before others may update its channel.
    pub dispute_timeout: u32,
    pub open: Table<Address, StateChannel>,
}

/// The number of the last price of a channel; `0` where there is none.
pub open spec fn channel_nonce(c: StateChannel) -> u64 {
    match c.latest {
        Some(item) => item.nonce,
        None => 0,
    }
}

/// Whether the numbers of the prices strictly increase from `after` on, and there is one.
pub open spec fn advances(batch: Seq<BatchItem>, after: u64) -> bool {
    &&& batch.len() > 0
    &&& batch[0].nonce > after
    &&& forall|i: int, j: int| 0 <= i < j < batch.len() ==> (#[trigger] batch[i]).nonce < (#[trigger] batch[j]).nonce
}

/// The bytes of one price of a batch.
pub open spec fn item_bytes(item: BatchItem) -> Seq<u8> {
    address_bytes(item.asset) + le_bytes(item.price as u128 as nat, 16) + le_bytes(
        item.timestamp as nat,
        8,
    ) + le_bytes(item.nonce as nat, 8)
}

/// The bytes that a source signs for a batch: its own, and those of the prices in turn.
pub open spec fn batch_bytes(source: Address, batch: Seq<BatchItem>) -> Seq<u8>
    decreases batch.len(),
{
    if batch.len() == 0 {
        address_bytes(source)
    } else {
        batch_bytes(source, batch.drop_last()) + item_bytes(batch.last())
    }
}

/// The bytes that a source signs for a batch.
pub fn batch_to_sign(source: &Address, batch: &Vec<BatchItem>) -> (r: Vec<u8>)
    ensures
        r@ == batch_bytes(*source, batch@),
{
    let mut out: Vec<u8> = Vec::new();
    push_address(&mut out, source);
    assert(out@ =~= address_bytes(*source));
    let mut i: usize = 0;
    assert(batch@.take(0) =~= Seq::<BatchItem>::empty());
    while i < batch.len()
        invariant
            i <= batch@.len(),
            out@ == batch_bytes(*source, batch@.take(i as int)),
        decreases batch@.len() - i,
    {
        let ghost before = out@;
        push_address(&mut out, &batch[i].asset);
        push_le(&mut out, batch[i].price as u128, 16);
        push_le(&mut out, batch[i].timestamp as u128, 8);
        push_le(&mut out, batch[i].nonce as u128, 8);
        proof {
            assert(out@ =~= before + item_bytes(batch@[i as int]));
            assert(batch@.take(i + 1).drop_last() =~= batch@.take(i as int));
            assert(batch@.take(i + 1).last() == batch@[i as int]);
        }
        i += 1;
    }
    assert(batch@.take(batch@.len() as int) =~= batch@);
    out
}

proof fn lemma_item_bytes(item: BatchItem)
    ensures
        item_bytes(item).len() == 65,
{
    lemma_le_len(item.price as u128 as nat, 16);
    lemma_le_len(item.timestamp as nat, 8);
    lemma_le_len(item.nonce as nat, 8);
}

proof fn lemma_same_item(a: BatchItem, b: BatchItem)
    requires
        item_bytes(a) == item_bytes(b),
    ensures
        a == b,
{
    lemma_le_len(a.price as u128 as nat, 16);
    lemma_le_len(b.price as u128 as nat, 16);
    lemma_le_len(a.timestamp as nat, 8);
    lemma_le_len(b.timestamp as nat, 8);
    lemma_le_len(a.nonce as nat, 8);
    lemma_le_len(b.nonce as nat, 8);
    let (a1, b1) = (address_bytes(a.asset), address_bytes(b.asset));
    let (a2, b2) = (le_bytes(a.price as u128 as nat, 16), le_bytes(b.price as u128 as nat, 16));
    let (a3, b3) = (le_bytes(a.timestamp as nat, 8), le_bytes(b.timestamp as nat, 8));
    let (a4, b4) = (le_bytes(a.nonce as nat, 8), le_bytes(b.nonce as nat, 8));
    lemma_same_parts(a1 + a2 + a3, a4, b1 + b2 + b3, b4);
    lemma_same_parts(a1 + a2, a3, b1 + b2, b3);
    lemma_same_parts(a1, a2, b1, b2);
    lemma_same_address(a.asset, b.asset);
    lemma_same_amount(a.price, b.price);
    lemma_spans();
    lemma_le_tells_apart(a.timestamp as nat, b.timestamp as nat, 8);
    lemma_le_tells_apart(a.nonce as nat, b.nonce as nat, 8);
}

proof fn lemma_batch_bytes(source: Address, batch: Seq<BatchItem>)
    ensures
        batch_bytes(source, batch).len() == 33 + 65 * batch.len(),
    decreases batch.len(),
{
    if batch.len() > 0 {
        lemma_batch_bytes(source, batch.drop_last());
        lemma_item_bytes(batch.last());
    }
}

/// Whoever signs the bytes of a batch signs that batch of that source and no other.
pub proof fn a_signed_batch_is_one_batch(
    source: Address,
    batch: Seq<BatchItem>,
    other_source: Address,
    other_batch: Seq<BatchItem>,
)
    requires
        batch_bytes(source, batch) == batch_bytes(other_source, other_batch),
    ensures
        source == other_source,
        batch == other_batch,
    decreases batch.len(),
{
    lemma_batch_bytes(source, batch);
    lemma_batch_bytes(other_source, other_batch);
    if batch.len() == 0 {
        lemma_same_address(source, other_source);
        assert(batch =~= other_batch);
    } else {
        lemma_item_bytes(batch.last());
        lemma_item_bytes(other_batch.last());
        lemma_same_parts(
            batch_bytes(source, batch.drop_last()),
            item_bytes(batch.last()),
            batch_bytes(other_source, other_batch.drop_last()),
            item_bytes(other_batch.last()),
        );
        a_signed_batch_is_one_batch(
            source,
            batch.drop_last(),
            other_source,
            other_batch.drop_last(),
        );
        lemma_same_item(batch.last(), other_batch.last());
        assert(batch =~= batch.drop_last().push(batch.last()));
        assert(other_batch =~= other_batch.drop_last().push(other_batch.last()));
    }
}

fn does_advance(batch: &Vec<BatchItem>, after: u64) -> (r: bool)
    ensures
        r == advances(batch@, after),
{
    if batch.len() == 0 || batch[0].nonce <= after {
        return false;
    }
    let mut i: usize = 1;
    while i < batch.len()
        invariant
            1 <= i <= batch@.len(),
            batch@[0].nonce > after,
            forall|a: int, b: int| 0 <= a < b < i ==> (#[trigger] batch@[a]).nonce < (#[trigger] batch@[b]).nonce,
        decreases batch@.len() - i,
    {
        if batch[i].nonce <= batch[i - 1].nonce {
            assert(batch@[i - 1].nonce >= batch@[i as int].nonce);
            return false;
        }
        assert forall|a: int, b: int| 0 <= a < b < i + 1 implies (#[trigger] batch@[a]).nonce < (
        #[trigger] batch@[b]).nonce by {
            if b == i && a < i - 1 {
                assert(batch@[a].nonce < batch@[i - 1].nonce);
            }
        }
        i += 1;
    }
    true
}

impl PriceOracleContract {
    /// Whether `post` differs from `pre` only in the channels and in what was asked for.
    pub open spec fn only_channels_differ(pre: Self, post: Self) -> bool {
        post == (PriceOracleContract {
            channels: Channels { open: post.channels.open, ..pre.channels },
            transfers: post.transfers,
            ..pre
        })
    }

    /// Opens a channel for `source`, whose deposit is asked for as a transfer.
    pub fn sc_open_channel(&mut self, env: &Env, source: Address, deposit: i128, token_contract: Address) -> (r:
        Result<(), ErrorCode>)
        ensures
            r == (if old(self).entered {
                Err(ErrorCode::Reentrancy)
            } else if !env.authorizes(source) {
                Err(ErrorCode::NotAuthorized)
            } else if old(self).channels.open@.contains_key(source) {
                Err(ErrorCode::ChannelAlreadyOpen)
            } else if deposit <= 0 {
                Err(ErrorCode::InvalidPrice)
            } else {
                Ok(())
            }),
            r is Err ==> *final(self) == *old(self),
            r is Ok ==> {
                &&& final(self).channels.open@ == old(self).channels.open@.insert(
                    source,
                    StateChannel {
                        deposit,
                        token: token_contract,
                        latest: None,
                        updated_ledger: env.ledger,
                    },
                )
                &&& final(self).transfers@ == old(self).transfers@.push(
                    Transfer::Receive { token: token_contract, from: source, amount: deposit },
                )
            },
            PriceOracleContract::only_channels_differ(*old(self), *final(self)),
    {
        if self.entered {
            return Err(ErrorCode::Reentrancy);
        }
        if !env.is_authorized_by(&source) {
            return Err(ErrorCode::NotAuthorized);
        }
        if self.channels.open.contains_key(&source) {
            return Err(ErrorCode::ChannelAlreadyOpen);
        }
        if deposit <= 0 {
            return Err(ErrorCode::InvalidPrice);
        }
        self.channels.open.insert(
            source,
            StateChannel {
                deposit,
                token: token_contract,
                latest: None,
                updated_ledger: env.ledger,
            },
        );
        self.transfers.push(
            Transfer::Receive { token: token_contract, from: source, amount: deposit },
        );
        Ok(())
    }

    /// Why an update of a channel is refused, if it is.
    pub open spec fn channel_refusal(
        self,
        source: Address,
        batch: Seq<BatchItem>,
        signature_valid: bool,
    ) -> Option<ErrorCode> {
        if !signature_valid {
            Some(ErrorCode::NotAuthorized)
        } else if !advances(batch, channel_nonce(self.channels.open@[source])) {
            Some(ErrorCode::InvalidTimestamp)
        } else {
            None
        }
    }

    fn update_channel(&mut self, env: &Env, source: &Address, batch: &Vec<BatchItem>, signature_valid: bool) -> (r:
        Result<(), ErrorCode>)
        requires
            old(self).channels.open@.contains_key(*source),
        ensures
            r == reply(old(self).channel_refusal(*source, batch@, signature_valid)),
            r is Err ==> *final(self) == *old(self),
            r is Ok ==> final(self).channels.open@ == old(self).channels.open@.insert(
                *source,
                StateChannel {
                    latest: Some(batch@.last()),
                    updated_ledger: env.ledger,
                    ..old(self).channels.open@[*source]
                },
            ),
            final(self).transfers == old(self).transfers,
            PriceOracleContract::only_channels_differ(*old(self), *final(self)),
    {
        if !signature_valid {
            return Err(ErrorCode::NotAuthorized);
        }
        match self.channels.open.get(source) {
            None => Err(ErrorCode::ChannelNotFound),
            Some(c) => {
                let c: StateChannel = *c;
                let after: u64 = match &c.latest {
                    Some(item) => item.nonce,
                    None => 0,
                };
                if !does_advance(batch, after) {
                    return Err(ErrorCode::InvalidTimestamp);
                }
                let last: BatchItem = batch[batch.len() - 1];
                self.channels.open.insert(
                    *source,
                    StateChannel { latest: Some(last), updated_ledger: env.ledger, ..c },
                );
                Ok(())
            },
        }
    }

    /// Updates the channel of `source` with signed prices, of which the last one stays.
    /// `signature_valid` tells whether the source signs [`batch_to_sign`] for them.
    pub fn sc_submit_batch(
        &mut self,
        env: &Env,
        source: Address,
        batch: Vec<BatchItem>,
        signature_valid: bool,
    ) -> (r: Result<(), ErrorCode>)
        ensures
            r == (if old(self).entered {
                Err(ErrorCode::Reentrancy)
            } else if !old(self).channels.open@.contains_key(source) {
                Err(ErrorCode::ChannelNotFound)
            } else {
                reply(old(self).channel_refusal(source, batch@, signature_valid))
            }),
            r is Err ==> *final(self) == *old(self),
            r is Ok ==> final(self).channels.open@ == old(self).channels.open@.insert(
                source,
                StateChannel {
                    latest: Some(batch@.last()),
                    updated_ledger: env.ledger,
                    ..old(self).channels.open@[source]
                },
            ),
            final(self).transfers == old(self).transfers,
            PriceOracleContract::only_channels_differ(*old(self), *final(self)),
    {
        if self.entered {
            return Err(ErrorCode::Reentrancy);
        }
        if !self.channels.open.contains_key(&source) {
            return Err(ErrorCode::ChannelNotFound);
        }
        self.update_channel(env, &source, &batch, signature_valid)
    }

    /// Closes the channel of `source` and pays its deposit back.
    pub fn sc_close_channel(&mut self, env: &Env, source: Address) -> (r: Result<(), ErrorCode>)
        ensures
            r == (if old(self).entered {
                Err(ErrorCode::Reentrancy)
            } else if !env.authorizes(source) {
                Err(ErrorCode::NotAuthorized)
            } else if !old(self).channels.open@.contains_key(source) {
                Err(ErrorCode::ChannelNotFound)
            } else {
                Ok(())
            }),
            r is Err ==> *final(self) == *old(self),
            r is Ok ==> {
                let c = old(self).channels.open@[source];
                &&& final(self).channels.open@ == old(self).channels.open@.remove(source)
                &&& final(self).transfers@ == old(self).transfers@.push(
                    Transfer::Send { token: c.token, to: source, amount: c.deposit },
                )
            },
            PriceOracleContract::only_channels_differ(*old(self), *final(self)),
    {
        if self.entered {
            return Err(ErrorCode::Reentrancy);
        }
        if !env.is_authorized_by(&source) {
            return Err(ErrorCode::NotAuthorized);
        }
        match self.channels.open.remove(&source) {
            None => Err(ErrorCode::ChannelNotFound),
            Some(c) => {
                self.transfers.push(
                    Transfer::Send { token: c.token, to: source, amount: c.deposit },
                );
                Ok(())
            },
        }
    }

    /// Updates the channel of a source that has been silent for too long. Anyone may ask for it.
    /// `signature_valid` tells whether the source signs [`batch_to_sign`] for the prices.
    pub fn sc_dispute_channel(
        &mut self,
        env: &Env,
        source: Address,
        last_known_batch: Vec<BatchItem>,
        signature_valid: bool,
    ) -> (r: Result<(), ErrorCode>)
        ensures
            r == (if old(self).entered {
                Err(ErrorCode::Reentrancy)
            } else if !old(self).channels.open@.contains_key(source) {
                Err(ErrorCode::ChannelNotFound)
            } else if !elapsed(
                old(self).channels.open@[source].updated_ledger,
                env.ledger,
                old(self).channels.dispute_timeout,
            ) {
                Err(ErrorCode::TimelockNotReady)
            } else {
                reply(old(self).channel_refusal(source, last_known_batch@, signature_valid))
            }),
            r is Err ==> *final(self) == *old(self),
            r is Ok ==> final(self).channels.open@ == old(self).channels.open@.insert(
                source,
                StateChannel {
                    latest: Some(last_known_batch@.last()),
                    updated_ledger: env.ledger,
                    ..old(self).channels.open@[source]
                },
            ),
            final(self).transfers == old(self).transfers,
            PriceOracleContract::only_channels_differ(*old(self), *final(self)),
    {
        if self.entered {
            return Err(ErrorCode::Reentrancy);
        }
        match self.channels.open.get(&source) {
            None => {
                return Err(ErrorCode::ChannelNotFound);
            },
            Some(c) => if !has_elapsed(c.updated_ledger, env.ledger, self.channels.dispute_timeout) {
                return Err(ErrorCode::TimelockNotReady);
            },
        }
        self.update_channel(env, &source, &last_known_batch, signature_valid)
    }

    /// The channel of `source`, if it is open.
    pub fn sc_get_channel(&self, source: Address) -> (r: Option<StateChannel>)
        ensures
            r == crate::price_book::lookup(self.channels.open@, source),
    {
        match self.channels.open.get(&source) {
            Some(c) => Some(*c),
            None => None,
        }
    }
}

/// A channel's number only grows: an update that is accepted ends with a higher one.
pub proof fn a_channel_only_advances(c: PriceOracleContract, source: Address, batch: Seq<BatchItem>)
    requires
        c.channel_refusal(source, batch, true) is None,
    ensures
        batch.last().nonce > channel_nonce(c.channels.open@[source]),
{
    if batch.len() > 1 {
        assert(batch[0].nonce < batch[batch.len() - 1].nonce);
    }
}

} // verus!
