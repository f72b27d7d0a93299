//! Prices that come over a bridge, and messages to other chains.

use crate::contract::PriceOracleContract;
use crate::digest::{
    be_bytes, le_bytes, lemma_le_len, push_all, push_be_u32, push_le, sha256, sha256_of,
};
use crate::env::Env;
use crate::error::{refused_if, reply, ErrorCode};
use crate::events::{Event, PriceEventPayload};
use crate::pools::{
    large_powers_of_ten, power_of_ten, powers_of_ten_are_positive, powers_of_ten_fit, ten_to,
};
use crate::price_book::lookup;
use crate::references::MAX_DECIMALS;
use crate::table::Table;
use crate::types::{same_bytes, Address, Symbol};
use vstd::prelude::*;

verus! {

/// Who reports the price of an asset of another chain, and with which decimals.
#[derive(Clone, Copy, Debug, PartialEq, Eq)]
pub struct BridgeOracleConfig {
    pub source_asset: Address,
    pub target_asset: Address,
    /// The contract that reports the price.
    pub oracle: Address,
    /// The decimals of the reported price.
    pub source_decimals: u32,
}

/// A price that came over a bridge.
#[derive(Clone, Copy, Debug, PartialEq, Eq, Structural)]
pub struct BridgedPrice {
    pub price: i128,
    pub timestamp: u64,
    pub ledger: u32,
}

/// What other chains must show to be believed.
#[derive(Clone, Copy, Debug, PartialEq, Eq, Structural)]
pub struct CrossChainRelayConfig {
    /// The part of the validators that must have signed, in ten-thousandths.
    pub quorum_threshold_bps: u32,
    /// On which side of the path the siblings of a proof stand, one bit a level from the leaf up:
    /// one for the left.
    pub merkle_path_bits: u32,
}

/// What a ledger of another chain is said to be.
#[derive(Clone, Copy, Debug, PartialEq, Eq)]
pub struct StellarHeader {
    pub sequence: u32,
    pub tx_set_hash: [u8; 32],
    pub bucket_list_hash: [u8; 32],
    pub expected_hash: [u8; 32],
}

/// The bridges and the settings for other chains.
#[derive(Debug)]
pub struct Bridges {
    pub oracles: Table<(Address, Address), BridgeOracleConfig>,
    pub prices: Table<(Address, Address), BridgedPrice>,
    pub relay: Option<CrossChainRelayConfig>,
    /// How many sources one round of sampling selects.
    pub sampling_size: u32,
}

/// A price with `from` decimals as one with `to` decimals, rounded towards zero.
pub open spec fn rescaled(price: int, from: u32, to: u32) -> int {
    if to >= from {
        price * ten_to((to - from) as nat)
    } else if price >= 0 {
        price / ten_to((from - to) as nat) as int
    } else {
        -((-price) / ten_to((from - to) as nat) as int)
    }
}

/// Whether a number fits.
pub open spec fn fits(x: int) -> bool {
    i128::MIN <= x <= i128::MAX
}

/// A price with `from` decimals as one with `to` decimals; `None` where it does not fit.
pub fn rescale(price: i128, from: u32, to: u32) -> (r: Option<i128>)
    ensures
        r == (if fits(rescaled(price as int, from, to)) {
            Some(rescaled(price as int, from, to) as i128)
        } else {
            None
        }),
{
    if to >= from {
        match power_of_ten(to - from) {
            None => {
                proof {
                    let scale = ten_to((to - from) as nat);
                    large_powers_of_ten((to - from) as nat);
                    assert(price != 0 ==> !fits(price * scale)) by (nonlinear_arith)
                        requires
                            scale > 0x1_0000_0000_0000_0000_0000_0000_0000_0000,
                    ;
                    assert(price == 0 ==> price * scale == 0) by (nonlinear_arith);
                }
                if price == 0 {
                    Some(0)
                } else {
                    None
                }
            },
            Some(scale) => {
                proof {
                    powers_of_ten_fit((to - from) as nat);
                }
                price.checked_mul(scale as i128)
            },
        }
    } else {
        let magnitude: u128 = if price >= 0 {
            price as u128
        } else {
            (-(price + 1)) as u128 + 1
        };
        match power_of_ten(from - to) {
            None => {
                proof {
                    let scale = ten_to((from - to) as nat) as int;
                    large_powers_of_ten((from - to) as nat);
                    assert(magnitude as int / scale == 0) by (nonlinear_arith)
                        requires
                            0 <= magnitude < scale,
                    ;
                }
                Some(0)
            },
            Some(scale) => {
                proof {
                    assert(ten_to((from - to) as nat) == 10 * ten_to((from - to - 1) as nat));
                    powers_of_ten_fit((from - to - 1) as nat);
                    assert(0 <= magnitude / scale && magnitude / scale * 10 <= magnitude) by (nonlinear_arith)
                        requires
                            scale >= 10,
                            magnitude >= 0,
                    ;
                }
                let q: u128 = magnitude / scale;
                if price >= 0 {
                    Some(q as i128)
                } else {
                    Some(-(q as i128))
                }
            },
        }
    }
}

/// A price keeps its value when decimals are added and taken away again.
pub proof fn added_decimals_can_be_taken_away(price: int, from: u32, to: u32)
    requires
        from <= to,
    ensures
        rescaled(rescaled(price, from, to), to, from) == price,
{
    let scale = ten_to((to - from) as nat) as int;
    powers_of_ten_are_positive((to - from) as nat);
    if to == from {
        assert(price * 1 == price);
    } else if price >= 0 {
        assert(price * scale >= 0 && price * scale / scale == price) by (nonlinear_arith)
            requires
                price >= 0,
                scale > 0,
        ;
    } else {
        assert(price * scale < 0 && (-(price * scale)) / scale == -price) by (nonlinear_arith)
            requires
                price < 0,
                scale > 0,
        {
            assert(-(price * scale) == (-price) * scale);
        }
    }
}

/// The bytes of a header of which its hash is the digest.
pub open spec fn header_bytes(h: StellarHeader) -> Seq<u8> {
    be_bytes(h.sequence as nat, 4) + h.tx_set_hash@ + h.bucket_list_hash@
}

proof fn lemma_be_len(x: nat, n: nat)
    ensures
        be_bytes(x, n).len() == n,
    decreases n,
{
    if n > 0 {
        lemma_be_len(x / 256, (n - 1) as nat);
    }
}

/// The bytes of which the seed of a ledger is the digest.
pub open spec fn seed_bytes(ledger: u32, timestamp: u64) -> Seq<u8> {
    be_bytes(ledger as nat, 4) + le_bytes(timestamp as nat, 8)
}

/// Whether `digest` is the hash that a header is said to have.
pub fn header_has_hash(h: &StellarHeader, digest: &[u8; 32]) -> (r: bool)
    ensures
        r == (h.expected_hash == *digest),
{
    same_bytes(&h.expected_hash, digest)
}

/// How many of the signatures hold.
pub open spec fn valid_count(s: Seq<bool>) -> nat
    decreases s.len(),
{
    if s.len() == 0 {
        0
    } else {
        valid_count(s.drop_last()) + if s.last() {
            1nat
        } else {
            0nat
        }
    }
}

/// How many of `validators` have signed, where the signatures belong to them in turn.
pub open spec fn signed_count(validators: nat, signatures_valid: Seq<bool>) -> nat {
    if signatures_valid.len() > validators {
        valid_count(signatures_valid.take(validators as int))
    } else {
        valid_count(signatures_valid)
    }
}

/// The digest of two digests, one behind the other.
pub open spec fn joined(left: Seq<u8>, right: Seq<u8>) -> Seq<u8> {
    sha256_of(left + right)
}

/// Where the first `n` siblings of a proof lead from a leaf.
pub open spec fn proof_root(leaf: Seq<u8>, siblings: Seq<[u8; 32]>, bits: u32, n: nat) -> Seq<u8>
    decreases n,
{
    if n == 0 {
        leaf
    } else {
        let below = proof_root(leaf, siblings, bits, (n - 1) as nat);
        let sibling = siblings[n - 1]@;
        if left_at(bits, (n - 1) as nat) {
            joined(sibling, below)
        } else {
            joined(below, sibling)
        }
    }
}

/// Whether the sibling at a level stands on the left.
pub open spec fn left_at(bits: u32, level: nat) -> bool
    decreases level,
{
    if level == 0 {
        bits % 2 == 1
    } else {
        left_at(bits / 2, (level - 1) as nat)
    }
}

/// The bytes of a price message.
pub open spec fn payload_bytes(p: PriceEventPayload) -> Seq<u8> {
    p.symbol.text@ + le_bytes(p.price as u128 as nat, 16) + le_bytes(
        p.timestamp as nat,
        8,
    ) + be_bytes(p.ledger as nat, 4)
}

/// The digest of a price message, which is the leaf of its proof.
pub fn payload_digest(p: &PriceEventPayload) -> (r: [u8; 32])
    ensures
        r@ == sha256_of(payload_bytes(*p)),
{
    let mut out: Vec<u8> = Vec::new();
    push_all(&mut out, p.symbol.text.as_slice());
    push_le(&mut out, p.price as u128, 16);
    push_le(&mut out, p.timestamp as u128, 8);
    push_be_u32(&mut out, p.ledger);
    proof {
        lemma_le_len(p.price as u128 as nat, 16);
        lemma_le_len(p.timestamp as nat, 8);
        lemma_be_len(p.ledger as nat, 4);
        assert(out@ =~= payload_bytes(*p));
    }
    sha256(out.as_slice())
}

fn join(left: &[u8; 32], right: &[u8; 32]) -> (r: [u8; 32])
    ensures
        r@ == joined(left@, right@),
{
    let mut out: Vec<u8> = Vec::new();
    push_all(&mut out, left.as_slice());
    push_all(&mut out, right.as_slice());
    assert(out@ =~= left@ + right@);
    sha256(out.as_slice())
}

/// Where the siblings of a proof lead from a leaf.
pub fn root_of(leaf: &[u8; 32], siblings: &Vec<[u8; 32]>, bits: u32) -> (r: [u8; 32])
    ensures
        r@ == proof_root(leaf@, siblings@, bits, siblings@.len()),
{
    let mut root: [u8; 32] = *leaf;
    let mut rest: u32 = bits;
    let mut i: usize = 0;
    while i < siblings.len()
        invariant
            i <= siblings@.len(),
            root@ == proof_root(leaf@, siblings@, bits, i as nat),
            forall|k: nat| #[trigger] left_at(rest, k) == left_at(bits, k + i as nat),
        decreases siblings@.len() - i,
    {
        assert(left_at(rest, 0) == left_at(bits, i as nat));
        let sibling: [u8; 32] = siblings[i];
        if rest % 2 == 1 {
            root = join(&sibling, &root);
        } else {
            root = join(&root, &sibling);
        }
        proof {
            let next = (rest / 2) as u32;
            assert forall|k: nat| #[trigger] left_at(next, k) == left_at(bits, k + (i + 1) as nat) by {
                assert(left_at(rest, k + 1) == left_at(bits, (k + 1) + i as nat));
            }
        }
        rest = rest / 2;
        i += 1;
    }
    root
}

impl PriceOracleContract {
    /// Registers who reports the price of an asset of another chain.
    pub fn bridge_register_oracle(&mut self, env: &Env, config: BridgeOracleConfig) -> (r: Result<
        (),
        ErrorCode,
    >)
        ensures
            r == reply(
                refused_if(
                    old(self).admin_refusal(*env),
                    config.source_decimals > MAX_DECIMALS,
                    ErrorCode::InvalidConfiguration,
                ),
            ),
            r is Err ==> *final(self) == *old(self),
            r is Ok ==> final(self).bridges.oracles@ == old(self).bridges.oracles@.insert(
                (config.source_asset, config.target_asset),
                config,
            ),
            *final(self) == (PriceOracleContract {
                bridges: Bridges { oracles: final(self).bridges.oracles, ..old(self).bridges },
                ..*old(self)
            }),
    {
        if let Some(e) = self.check_admin(env) {
            return Err(e);
        }
        if config.source_decimals > MAX_DECIMALS {
            return Err(ErrorCode::InvalidConfiguration);
        }
        self.bridges.oracles.insert((config.source_asset, config.target_asset), config);
        Ok(())
    }

    /// Who reports the price of an asset of another chain, if that is registered.
    pub fn bridge_get_oracle(&self, source_asset: Address, target_asset: Address) -> (r: Option<
        BridgeOracleConfig,
    >)
        ensures
            r == lookup(self.bridges.oracles@, (source_asset, target_asset)),
    {
        match self.bridges.oracles.get(&(source_asset, target_asset)) {
            Some(c) => Some(*c),
            None => None,
        }
    }

    /// Takes a price from the contract that reports it.
    pub fn bridge_submit_price(
        &mut self,
        env: &Env,
        source_asset: Address,
        target_asset: Address,
        price: i128,
        timestamp: u64,
    ) -> (r: Result<(), ErrorCode>)
        ensures
            r == (match lookup(old(self).bridges.oracles@, (source_asset, target_asset)) {
                None => Err(ErrorCode::NotAuthorized),
                Some(c) => if !env.authorizes(c.oracle) {
                    Err(ErrorCode::NotAuthorized)
                } else if price <= 0 {
                    Err(ErrorCode::InvalidConfiguration)
                } else {
                    Ok(())
                },
            }),
            r is Err ==> *final(self) == *old(self),
            r is Ok ==> final(self).bridges.prices@ == old(self).bridges.prices@.insert(
                (source_asset, target_asset),
                BridgedPrice { price, timestamp, ledger: env.ledger },
            ),
            *final(self) == (PriceOracleContract {
                bridges: Bridges { prices: final(self).bridges.prices, ..old(self).bridges },
                ..*old(self)
            }),
    {
        match self.bridges.oracles.get(&(source_asset, target_asset)) {
            None => {
                return Err(ErrorCode::NotAuthorized);
            },
            Some(c) => if !env.is_authorized_by(&c.oracle) {
                return Err(ErrorCode::NotAuthorized);
            },
        }
        if price <= 0 {
            return Err(ErrorCode::InvalidConfiguration);
        }
        self.bridges.prices.insert(
            (source_asset, target_asset),
            BridgedPrice { price, timestamp, ledger: env.ledger },
        );
        Ok(())
    }

    /// The last price that came over a bridge, if there is one.
    pub fn bridge_get_price(&self, source_asset: Address, target_asset: Address) -> (r: Option<BridgedPrice>)
        ensures
            r == lookup(self.bridges.prices@, (source_asset, target_asset)),
    {
        match self.bridges.prices.get(&(source_asset, target_asset)) {
            Some(p) => Some(*p),
            None => None,
        }
    }

    /// A reported price with the decimals `target_decimals`.
    pub fn bridge_normalize_price(&self, raw_price: i128, target_decimals: u32, config: &BridgeOracleConfig) -> (r:
        Result<i128, ErrorCode>)
        ensures
            r == (if fits(rescaled(raw_price as int, config.source_decimals, target_decimals)) {
                Ok(rescaled(raw_price as int, config.source_decimals, target_decimals) as i128)
            } else {
                Err(ErrorCode::ArithmeticOverflow)
            }),
    {
        match rescale(raw_price, config.source_decimals, target_decimals) {
            Some(p) => Ok(p),
            None => Err(ErrorCode::ArithmeticOverflow),
        }
    }

    /// Announces a price to other chains.
    pub fn relay_emit_price_update(&mut self, asset_symbol: Symbol, payload: PriceEventPayload)
        ensures
            final(self).events@ == old(self).events@.push(
                Event::PriceUpdate { symbol: asset_symbol, payload },
            ),
            *final(self) == (PriceOracleContract { events: final(self).events, ..*old(self) }),
    {
        self.events.push(Event::PriceUpdate { symbol: asset_symbol, payload });
    }

    /// Whether enough of `validators` have signed. `signatures_valid` tells of the signatures in
    /// turn whether they are good ones of the validators at the same places; a validator without
    /// a signature has not signed, and a signature without a validator counts for nothing.
    pub fn relay_verify_validator_set(&self, validators: &Vec<[u8; 32]>, signatures_valid: &Vec<bool>) -> (r:
        bool)
        ensures
            r == (match self.bridges.relay {
                Some(c) => validators@.len() > 0 && signed_count(
                    validators@.len(),
                    signatures_valid@,
                ) * 10_000 >= validators@.len() * c.quorum_threshold_bps,
                None => false,
            }),
    {
        let threshold: u32 = match &self.bridges.relay {
            Some(c) => c.quorum_threshold_bps,
            None => {
                return false;
            },
        };
        let mut n: usize = 0;
        let mut i: usize = 0;
        assert(signatures_valid@.take(0) =~= Seq::<bool>::empty());
        while i < signatures_valid.len() && i < validators.len()
            invariant
                i <= signatures_valid@.len(),
                i <= validators@.len(),
                n <= i,
                n == valid_count(signatures_valid@.take(i as int)),
            decreases signatures_valid@.len() - i,
        {
            proof {
                assert(signatures_valid@.take(i + 1).drop_last() =~= signatures_valid@.take(i as int));
                assert(signatures_valid@.take(i + 1).last() == signatures_valid@[i as int]);
            }
            if signatures_valid[i] {
                n += 1;
            }
            i += 1;
        }
        assert(signatures_valid@.take(signatures_valid@.len() as int) =~= signatures_valid@);
        let all: usize = validators.len();
        proof {
            assert(all * threshold <= 0x1_0000_0000_0000_0000 * 0x1_0000_0000) by (nonlinear_arith)
                requires
                    0 <= all <= 0x1_0000_0000_0000_0000,
                    0 <= threshold <= 0x1_0000_0000,
            ;
        }
        all > 0 && n as u128 * 10_000 >= all as u128 * threshold as u128
    }

    /// Whether a price message is part of the ledger whose hash is `header_hash`: whether the
    /// siblings of its proof lead from its digest to that hash. Nothing is believed as long as no
    /// settings for other chains are made.
    pub fn relay_verify_event_proof(
        &self,
        header_hash: [u8; 32],
        siblings: &Vec<[u8; 32]>,
        event_data: PriceEventPayload,
    ) -> (r: bool)
        ensures
            r == (match self.bridges.relay {
                Some(c) => header_hash@ == proof_root(
                    sha256_of(payload_bytes(event_data)),
                    siblings@,
                    c.merkle_path_bits,
                    siblings@.len(),
                ),
                None => false,
            }),
    {
        match &self.bridges.relay {
            None => false,
            Some(c) => {
                let leaf: [u8; 32] = payload_digest(&event_data);
                let root: [u8; 32] = root_of(&leaf, siblings, c.merkle_path_bits);
                proof {
                    if header_hash@ == root@ {
                        assert(header_hash =~= root);
                    }
                }
                same_bytes(&header_hash, &root)
            },
        }
    }

    /// The seed of the randomness of the current ledger, which comes from its number and its time.
    pub fn vdf_get_current_seed(&self, env: &Env) -> (r: [u8; 32])
        ensures
            r@ == sha256_of(seed_bytes(env.ledger, env.timestamp)),
    {
        let mut out: Vec<u8> = Vec::new();
        push_be_u32(&mut out, env.ledger);
        push_le(&mut out, env.timestamp as u128, 8);
        proof {
            lemma_be_len(env.ledger as nat, 4);
            lemma_le_len(env.timestamp as nat, 8);
            assert(out@ =~= seed_bytes(env.ledger, env.timestamp));
        }
        sha256(out.as_slice())
    }

    /// Whether a header has the hash that it is said to have.
    pub fn relay_verify_header(&self, header: &StellarHeader) -> (r: bool)
        ensures
            r == (header.expected_hash@ == sha256_of(header_bytes(*header))),
    {
        let mut out: Vec<u8> = Vec::new();
        push_be_u32(&mut out, header.sequence);
        push_all(&mut out, header.tx_set_hash.as_slice());
        push_all(&mut out, header.bucket_list_hash.as_slice());
        proof {
            lemma_be_len(header.sequence as nat, 4);
            assert(out@ =~= header_bytes(*header));
        }
        let digest: [u8; 32] = sha256(out.as_slice());
        proof {
            if header.expected_hash@ == digest@ {
                assert(header.expected_hash =~= digest);
            }
        }
        header_has_hash(header, &digest)
    }

    /// Sets what other chains must show to be believed.
    pub fn relay_set_config(&mut self, env: &Env, config: CrossChainRelayConfig) -> (r: Result<(), ErrorCode>)
        ensures
            r == reply(old(self).admin_refusal(*env)),
            *final(self) == (if r is Ok {
                PriceOracleContract {
                    bridges: Bridges { relay: Some(config), ..old(self).bridges },
                    ..*old(self)
                }
            } else {
                *old(self)
            }),
    {
        if let Some(e) = self.check_admin(env) {
            return Err(e);
        }
        self.bridges.relay = Some(config);
        Ok(())
    }

    /// What other chains must show to be believed, if that is set.
    pub fn relay_get_config(&self) -> (r: Option<CrossChainRelayConfig>)
        ensures
            r == self.bridges.relay,
    {
        self.bridges.relay
    }

    /// Sets how many sources one round of sampling selects.
    pub fn vdf_set_sampling_size(&mut self, env: &Env, n: u32) -> (r: Result<(), ErrorCode>)
        ensures
            r == reply(
                refused_if(
                    old(self).admin_refusal(*env),
                    n == 0,
                    ErrorCode::InvalidConfiguration,
                ),
            ),
            *final(self) == (if r is Ok {
                PriceOracleContract {
                    bridges: Bridges { sampling_size: n, ..old(self).bridges },
                    ..*old(self)
                }
            } else {
                *old(self)
            }),
    {
        if let Some(e) = self.check_admin(env) {
            return Err(e);
        }
        if n == 0 {
            return Err(ErrorCode::InvalidConfiguration);
        }
        self.bridges.sampling_size = n;
        Ok(())
    }

    /// How many sources one round of sampling selects.
    pub fn vdf_get_sampling_size(&self) -> (r: u32)
        ensures
            r == self.bridges.sampling_size,
    {
        self.bridges.sampling_size
    }
}

} // verus!
