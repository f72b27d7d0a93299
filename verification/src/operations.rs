//! The operations that wait for their time or for approvals, and what they do.

use crate::admin::MAX_DESCRIPTION;
use crate::config_history::{with_snapshot, ConfigSnapshot};
use crate::contract::{Config, PriceOracleContract};
use crate::digest::{be_bytes, lemma_spans, push_all, span};
use crate::env::Env;
use crate::error::ErrorCode;
use crate::submissions::{address_bytes, lemma_same_address, push_address, value_of};
use crate::types::Address;
use vstd::utf8::{decode_utf8, valid_utf8};
use vstd::prelude::*;

verus! {

/// What an operation does.
#[derive(Clone, Copy, Debug, PartialEq, Eq, Structural)]
pub enum OperationType {
    Upgrade,
    SetAdmin,
    SetMinSources,
    SetMaxHistory,
    SetResolution,
    SetDecimals,
    SetDescription,
    SetTimestampThreshold,
}

impl OperationType {
    /// The number that stands for the operation.
    pub open spec fn number(self) -> u32 {
        match self {
            OperationType::Upgrade => 0,
            OperationType::SetAdmin => 1,
            OperationType::SetMinSources => 2,
            OperationType::SetMaxHistory => 3,
            OperationType::SetResolution => 4,
            OperationType::SetDecimals => 5,
            OperationType::SetDescription => 6,
            OperationType::SetTimestampThreshold => 7,
        }
    }

    /// The operation that a number stands for, if it stands for one.
    pub fn from_number(n: u32) -> (r: Option<OperationType>)
        ensures
            r is Some <==> n <= 7,
            r matches Some(op) ==> op.number() == n,
    {
        match n {
            0 => Some(OperationType::Upgrade),
            1 => Some(OperationType::SetAdmin),
            2 => Some(OperationType::SetMinSources),
            3 => Some(OperationType::SetMaxHistory),
            4 => Some(OperationType::SetResolution),
            5 => Some(OperationType::SetDecimals),
            6 => Some(OperationType::SetDescription),
            7 => Some(OperationType::SetTimestampThreshold),
            _ => None,
        }
    }
}

/// What the bytes that an operation carries stand for.
#[verifier::ext_equal]
pub enum Meaning {
    /// The hash of the code to install.
    Hash([u8; 32]),
    Admin(Address),
    Number(u32),
    Seconds(u64),
    Text(Seq<char>),
}

/// What the bytes `data` of an operation stand for, if they stand for anything: the 32 bytes of a
/// hash, the 33 bytes of an address, a number of four or eight bytes with the highest first, or a
/// text in UTF-8.
pub open spec fn meaning_of(op: OperationType, data: Seq<u8>) -> Option<Meaning> {
    match op {
        OperationType::Upgrade => if data.len() == 32 {
            Some(Meaning::Hash(choose|h: [u8; 32]| h@ == data))
        } else {
            None
        },
        OperationType::SetAdmin => if data.len() == 33 && data[0] <= 1 {
            Some(Meaning::Admin(choose|a: Address| address_bytes(a) == data))
        } else {
            None
        },
        OperationType::SetDescription => if valid_utf8(data) {
            Some(Meaning::Text(decode_utf8(data)))
        } else {
            None
        },
        OperationType::SetTimestampThreshold => if data.len() == 8 {
            Some(Meaning::Seconds(value_of(data) as u64))
        } else {
            None
        },
        _ => if data.len() == 4 {
            Some(Meaning::Number(value_of(data) as u32))
        } else {
            None
        },
    }
}

/// The bytes of an address stand for that address.
pub proof fn an_address_is_read_back(a: Address)
    ensures
        meaning_of(OperationType::SetAdmin, address_bytes(a)) == Some(Meaning::Admin(a)),
{
    let b = choose|b: Address| address_bytes(b) == address_bytes(a);
    assert(address_bytes(b) == address_bytes(a));
    lemma_same_address(a, b);
}

/// The bytes of a hash stand for that hash.
pub proof fn a_hash_is_read_back(hash: [u8; 32])
    ensures
        meaning_of(OperationType::Upgrade, hash@) == Some(Meaning::Hash(hash)),
{
    let h = choose|h: [u8; 32]| h@ == hash@;
    assert(h@ == hash@);
    assert(h =~= hash);
}

proof fn lemma_number_read_back(x: nat, n: nat)
    requires
        x < span(n),
    ensures
        be_bytes(x, n).len() == n,
        value_of(be_bytes(x, n)) == x,
    decreases n,
{
    if n > 0 {
        let front = be_bytes(x / 256, (n - 1) as nat);
        lemma_number_read_back(x / 256, (n - 1) as nat);
        assert(be_bytes(x, n).drop_last() =~= front);
    }
}

/// The bytes of a number stand for that number.
pub proof fn a_number_is_read_back(op: OperationType, n: u32)
    requires
        2 <= op.number() <= 5,
    ensures
        meaning_of(op, be_bytes(n as nat, 4)) == Some(Meaning::Number(n)),
{
    lemma_spans();
    lemma_number_read_back(n as nat, 4);
}

/// The bytes of a number of seconds stand for that number.
pub proof fn seconds_are_read_back(n: u64)
    ensures
        meaning_of(OperationType::SetTimestampThreshold, be_bytes(n as nat, 8)) == Some(
            Meaning::Seconds(n),
        ),
{
    lemma_spans();
    lemma_number_read_back(n as nat, 8);
}

/// The value that an operation carries.
#[derive(Debug)]
enum Payload {
    Hash([u8; 32]),
    Admin(Address),
    Number(u32),
    Seconds(u64),
    Text(String),
}

impl Payload {
    spec fn meaning(self) -> Meaning {
        match self {
            Payload::Hash(h) => Meaning::Hash(h),
            Payload::Admin(a) => Meaning::Admin(a),
            Payload::Number(n) => Meaning::Number(n),
            Payload::Seconds(s) => Meaning::Seconds(s),
            Payload::Text(t) => Meaning::Text(t@),
        }
    }
}

/// The text that bytes in UTF-8 stand for.
///
/// This is `String::from_utf8` of the standard library. What is claimed of it without proof is that
/// it succeeds exactly on the bytes that are valid UTF-8, and then gives the text that they encode.
#[verifier::external_body]
fn text_from_utf8(bytes: Vec<u8>) -> (r: Option<String>)
    ensures
        r is Some <==> valid_utf8(bytes@),
        r matches Some(t) ==> t@ == decode_utf8(bytes@),
{
    String::from_utf8(bytes).ok()
}

proof fn lemma_value_bound(s: Seq<u8>)
    ensures
        s.len() <= 4 ==> value_of(s) < 0x1_0000_0000,
        s.len() <= 8 ==> value_of(s) < 0x1_0000_0000_0000_0000,
{
    reveal_with_fuel(value_of, 9);
}

/// The number that up to eight bytes stand for, the highest first.
fn read_number(data: &Vec<u8>) -> (r: u64)
    requires
        data@.len() <= 8,
    ensures
        r == value_of(data@),
{
    let mut v: u64 = 0;
    let mut i: usize = 0;
    assert(data@.take(0) =~= Seq::<u8>::empty());
    while i < data.len()
        invariant
            i <= data@.len() <= 8,
            v == value_of(data@.take(i as int)),
        decreases data@.len() - i,
    {
        proof {
            lemma_value_bound(data@.take(i + 1));
            assert(data@.take(i + 1).drop_last() =~= data@.take(i as int));
            assert(data@.take(i + 1).last() == data@[i as int]);
        }
        v = v * 256 + data[i] as u64;
        i += 1;
    }
    assert(data@.take(data@.len() as int) =~= data@);
    v
}

/// The 32 bytes from place `from` on.
fn read_id(data: &Vec<u8>, from: usize) -> (r: [u8; 32])
    requires
        from + 32 <= data@.len(),
    ensures
        r@ == data@.subrange(from as int, from + 32),
{
    let mut r: [u8; 32] = [0; 32];
    let len: usize = data.len();
    let mut i: usize = 0;
    while i < 32
        invariant
            i <= 32,
            from + 32 <= len == data@.len(),
            forall|j: int| 0 <= j < i ==> #[trigger] r@[j] == data@[from + j],
        decreases 32 - i,
    {
        r[i] = data[from + i];
        i += 1;
    }
    assert(r@ =~= data@.subrange(from as int, from + 32));
    r
}

/// What the bytes of an operation stand for, if they stand for anything.
fn decode(op: OperationType, data: &Vec<u8>) -> (r: Option<Payload>)
    ensures
        match r {
            None => meaning_of(op, data@) is None,
            Some(p) => meaning_of(op, data@) == Some(p.meaning()),
        },
{
    match op {
        OperationType::Upgrade => if data.len() == 32 {
            let hash: [u8; 32] = read_id(data, 0);
            proof {
                assert(data@.subrange(0, 32) =~= data@);
                a_hash_is_read_back(hash);
            }
            Some(Payload::Hash(hash))
        } else {
            None
        },
        OperationType::SetAdmin => if data.len() == 33 && data[0] <= 1 {
            let a = Address { is_contract: data[0] == 1, id: read_id(data, 1) };
            proof {
                assert(address_bytes(a) =~= data@);
                an_address_is_read_back(a);
            }
            Some(Payload::Admin(a))
        } else {
            None
        },
        OperationType::SetDescription => match text_from_utf8(copy_of(data)) {
            Some(t) => Some(Payload::Text(t)),
            None => None,
        },
        OperationType::SetTimestampThreshold => if data.len() == 8 {
            Some(Payload::Seconds(read_number(data)))
        } else {
            None
        },
        _ => if data.len() == 4 {
            proof {
                lemma_value_bound(data@);
            }
            Some(Payload::Number(read_number(data) as u32))
        } else {
            None
        },
    }
}

fn copy_of(data: &Vec<u8>) -> (r: Vec<u8>)
    ensures
        r@ == data@,
{
    let mut r: Vec<u8> = Vec::new();
    push_all(&mut r, data.as_slice());
    assert(r@ =~= data@);
    r
}

/// The bytes of an address.
pub(crate) fn encode_address(a: &Address) -> (r: Vec<u8>)
    ensures
        r@ == address_bytes(*a),
{
    let mut r: Vec<u8> = Vec::new();
    push_address(&mut r, a);
    assert(r@ =~= address_bytes(*a));
    r
}

/// What operations can change.
#[verifier::ext_equal]
pub struct CoreState {
    pub admin: Option<Address>,
    pub description: Seq<char>,
    pub config: Config,
    pub snapshots: Seq<ConfigSnapshot>,
}

impl CoreState {
    /// With the configuration `config`, the one before kept as a snapshot.
    pub open spec fn configured(self, ledger: u32, config: Config) -> CoreState {
        CoreState {
            config,
            snapshots: with_snapshot(self.snapshots, self.config, ledger),
            ..self
        }
    }

    /// After an operation that carries `data`.
    pub open spec fn after(self, ledger: u32, op: OperationType, data: Seq<u8>) -> CoreState {
        match (op, meaning_of(op, data)) {
            (OperationType::SetAdmin, Some(Meaning::Admin(a))) => CoreState { admin: Some(a), ..self },
            (OperationType::SetMinSources, Some(Meaning::Number(n))) => self.configured(
                ledger,
                Config { min_sources_required: n, ..self.config },
            ),
            (OperationType::SetMaxHistory, Some(Meaning::Number(n))) => self.configured(
                ledger,
                Config { max_history_length: n, ..self.config },
            ),
            (OperationType::SetResolution, Some(Meaning::Number(n))) => self.configured(
                ledger,
                Config { resolution: n, ..self.config },
            ),
            (OperationType::SetDecimals, Some(Meaning::Number(n))) => self.configured(
                ledger,
                Config { decimals: n, ..self.config },
            ),
            (OperationType::SetDescription, Some(Meaning::Text(t))) => CoreState {
                description: t,
                ..self
            },
            (OperationType::SetTimestampThreshold, Some(Meaning::Seconds(s))) => self.configured(
                ledger,
                Config { timestamp_threshold: s, ..self.config },
            ),
            _ => self,
        }
    }
}

/// The hash of the code that an operation installs, if it installs any.
pub open spec fn code_to_install(op: OperationType, data: Seq<u8>) -> Option<[u8; 32]> {
    match (op, meaning_of(op, data)) {
        (OperationType::Upgrade, Some(Meaning::Hash(h))) => Some(h),
        _ => None,
    }
}

impl PriceOracleContract {
    /// What operations can change.
    pub open spec fn core_state(self) -> CoreState {
        CoreState {
            admin: self.admin,
            description: self.description@,
            config: self.config,
            snapshots: self.config_history@,
        }
    }

    /// Whether `n` may be the number of sources that an aggregate needs.
    pub open spec fn min_sources_fits(self, n: u32) -> bool {
        n > 0 && (self.sources.keys().len() == 0 || n <= self.sources.keys().len())
    }

    /// Why an operation fails, if it does. It does where its bytes stand for nothing.
    pub open spec fn operation_error(self, op: OperationType, data: Seq<u8>) -> Option<ErrorCode> {
        match (op, meaning_of(op, data)) {
            (_, None) => Some(ErrorCode::InvalidConfiguration),
            (OperationType::SetMinSources, Some(Meaning::Number(n))) => if self.min_sources_fits(n) {
                None
            } else {
                Some(ErrorCode::InvalidConfiguration)
            },
            (OperationType::SetDescription, Some(Meaning::Text(t))) => if t.len() > MAX_DESCRIPTION {
                Some(ErrorCode::DescriptionTooLong)
            } else {
                None
            },
            _ => None,
        }
    }

    /// Why an operation fails, if it does.
    pub(crate) fn check_operation(&self, op: OperationType, data: &Vec<u8>) -> (r: Option<ErrorCode>)
        ensures
            r == self.operation_error(op, data@),
    {
        match (op, decode(op, data)) {
            (_, None) => Some(ErrorCode::InvalidConfiguration),
            (OperationType::SetMinSources, Some(Payload::Number(n))) => if n > 0 && (self.sources.len()
                == 0 || n as usize <= self.sources.len()) {
                None
            } else {
                Some(ErrorCode::InvalidConfiguration)
            },
            (OperationType::SetDescription, Some(Payload::Text(t))) => if t.as_str().unicode_len()
                > MAX_DESCRIPTION {
                Some(ErrorCode::DescriptionTooLong)
            } else {
                None
            },
            _ => None,
        }
    }

    /// Whether `post` differs from `pre` only in what operations can change.
    pub open spec fn only_core_differs(pre: Self, post: Self) -> bool {
        post == (PriceOracleContract {
            admin: post.admin,
            description: post.description,
            config: post.config,
            config_history: post.config_history,
            ..pre
        })
    }

    /// Performs an operation that does not fail, and gives back the hash of the code to install.
    pub(crate) fn perform(&mut self, env: &Env, op: OperationType, data: &Vec<u8>) -> (r: Option<[u8; 32]>)
        requires
            old(self).operation_error(op, data@) is None,
        ensures
            r == code_to_install(op, data@),
            final(self).core_state() == old(self).core_state().after(env.ledger, op, data@),
            PriceOracleContract::only_core_differs(*old(self), *final(self)),
    {
        match (op, decode(op, data)) {
            (OperationType::Upgrade, Some(Payload::Hash(h))) => {
                return Some(h);
            },
            (OperationType::SetAdmin, Some(Payload::Admin(a))) => {
                self.admin = Some(a);
            },
            (OperationType::SetMinSources, Some(Payload::Number(n))) => {
                self.configure(env, Config { min_sources_required: n, ..self.config });
            },
            (OperationType::SetMaxHistory, Some(Payload::Number(n))) => {
                self.configure(env, Config { max_history_length: n, ..self.config });
            },
            (OperationType::SetResolution, Some(Payload::Number(n))) => {
                self.configure(env, Config { resolution: n, ..self.config });
            },
            (OperationType::SetDecimals, Some(Payload::Number(n))) => {
                self.configure(env, Config { decimals: n, ..self.config });
            },
            (OperationType::SetDescription, Some(Payload::Text(t))) => {
                self.description = t;
            },
            (OperationType::SetTimestampThreshold, Some(Payload::Seconds(s))) => {
                self.configure(env, Config { timestamp_threshold: s, ..self.config });
            },
            _ => {},
        }
        None
    }
}

} // verus!
