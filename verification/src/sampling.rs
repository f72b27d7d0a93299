//! Choosing sources at random.

use crate::contract::PriceOracleContract;
use crate::digest::{le_bytes, lemma_le_len, push_all, push_le, sha256, sha256_of, MAX_DIGESTED};
use crate::bridges::seed_bytes;
use crate::env::Env;
use crate::types::{same_bytes, Address};
use vstd::prelude::*;

verus! {

/// The longest proof that is looked at: no digest can be taken of a longer one.
pub const MAX_PROOF: usize = 1_799_960;

/// The bytes of which the outcome of a delay function is the digest.
pub open spec fn delay_bytes(seed: Seq<u8>, proof: Seq<u8>, iterations: u64) -> Seq<u8> {
    seed + proof + le_bytes(iterations as nat, 8)
}

/// Whether `output` is what `proof` shows to come from `seed`.
pub open spec fn shows(seed: Seq<u8>, proof: Seq<u8>, iterations: u64, output: Seq<u8>) -> bool {
    &&& 0 < proof.len() <= MAX_PROOF
    &&& iterations > 0
    &&& output == sha256_of(delay_bytes(seed, proof, iterations))
}

/// The number that the `k`th group of four bytes holds, the highest first; after the last group
/// comes the first again.
pub open spec fn word_of(bytes: Seq<u8>, k: nat) -> nat {
    let i = 4 * (k % 8) as int;
    (16_777_216 * bytes[i] + 65_536 * bytes[i + 1] + 256 * bytes[i + 2] + bytes[i + 3]) as nat
}

/// At most `n` of `pool`: each choice takes the one at the place that the next number names,
/// counted around, and leaves the others.
pub open spec fn chosen(pool: Seq<Address>, bytes: Seq<u8>, n: nat, k: nat) -> Seq<Address>
    decreases n,
{
    if n == 0 || pool.len() == 0 {
        Seq::empty()
    } else {
        let i = (word_of(bytes, k) % pool.len()) as int;
        seq![pool[i]] + chosen(pool.remove(i), bytes, (n - 1) as nat, k + 1)
    }
}

fn word_at(bytes: &[u8; 32], k: usize) -> (r: u32)
    ensures
        r == word_of(bytes@, k as nat),
{
    let i: usize = 4 * (k % 8);
    16_777_216 * bytes[i] as u32 + 65_536 * bytes[i + 1] as u32 + 256 * bytes[i + 2] as u32 + bytes[i
        + 3] as u32
}

/// The addresses that a choice of `n` takes are all different, all from the pool, and `n` of them
/// where the pool has that many.
pub proof fn a_choice_is_of_different_members(pool: Seq<Address>, bytes: Seq<u8>, n: nat, k: nat)
    requires
        pool.no_duplicates(),
    ensures
        chosen(pool, bytes, n, k).no_duplicates(),
        chosen(pool, bytes, n, k).len() == (if n < pool.len() {
            n
        } else {
            pool.len()
        }),
        forall|i: int| 0 <= i < chosen(pool, bytes, n, k).len() ==> pool.contains(#[trigger] chosen(pool, bytes, n, k)[i]),
    decreases n,
{
    if n > 0 && pool.len() > 0 {
        let i = (word_of(bytes, k) % pool.len()) as int;
        let rest = pool.remove(i);
        assert forall|a: int, b: int| 0 <= a < b < rest.len() implies rest[a] != rest[b] by {
            let p = if a < i { a } else { a + 1 };
            let q = if b < i { b } else { b + 1 };
            assert(rest[a] == pool[p] && rest[b] == pool[q]);
        }
        a_choice_is_of_different_members(rest, bytes, (n - 1) as nat, k + 1);
        let more = chosen(rest, bytes, (n - 1) as nat, k + 1);
        let all = chosen(pool, bytes, n, k);
        assert forall|j: int| 0 <= j < all.len() implies pool.contains(#[trigger] all[j]) && (j > 0 ==> all[j]
            != pool[i]) by {
            if j > 0 {
                assert(all[j] == more[j - 1]);
                let a = choose|a: int| 0 <= a < rest.len() && rest[a] == all[j];
                let p = if a < i { a } else { a + 1 };
                assert(pool[p] == all[j]);
            }
        }
        assert forall|a: int, b: int| 0 <= a < b < all.len() implies all[a] != all[b] by {
            assert(all[b] == more[b - 1]);
            if a > 0 {
                assert(all[a] == more[a - 1]);
            } else {
                assert(all[b] != pool[i]);
            }
        }
    }
}

impl PriceOracleContract {
    /// The sources that a round of sampling selects: all of them where nothing was shown.
    pub open spec fn selected(self, output: Seq<u8>, shown: bool) -> Seq<Address> {
        if shown {
            chosen(self.sources.keys(), output, self.bridges.sampling_size as nat, 0)
        } else {
            self.sources.keys()
        }
    }

    /// Whether `proof` shows that `output` comes from `seed`.
    pub fn vdf_verify_proof(&self, seed: [u8; 32], proof: &Vec<u8>, iterations: u64, output: [u8; 32]) -> (r: bool)
        ensures
            r == shows(seed@, proof@, iterations, output@),
    {
        if proof.len() == 0 || proof.len() > MAX_PROOF || iterations == 0 {
            return false;
        }
        let mut out: Vec<u8> = Vec::new();
        push_all(&mut out, seed.as_slice());
        push_all(&mut out, proof.as_slice());
        push_le(&mut out, iterations as u128, 8);
        proof {
            lemma_le_len(iterations as nat, 8);
            assert(out@ =~= delay_bytes(seed@, proof@, iterations));
            assert(out@.len() <= MAX_DIGESTED);
        }
        let digest: [u8; 32] = sha256(out.as_slice());
        let same = same_bytes(&output, &digest);
        assert(output@ == digest@ ==> output =~= digest);
        same
    }

    /// The sources that `output` selects; all of them where it was not shown where it comes from.
    pub fn select_sources(&self, output: [u8; 32], shown: bool) -> (r: Vec<Address>)
        ensures
            r@ == self.selected(output@, shown),
    {
        let mut pool: Vec<Address> = self.get_sources();
        if !shown {
            return pool;
        }
        let ghost all = pool@;
        let n: usize = self.bridges.sampling_size as usize;
        let mut list: Vec<Address> = Vec::new();
        let mut k: usize = 0;
        assert(list@ + chosen(pool@, output@, n as nat, 0) =~= chosen(all, output@, n as nat, 0));
        while k < n && pool.len() > 0
            invariant
                k <= n,
                list@ + chosen(pool@, output@, (n - k) as nat, k as nat) == chosen(all, output@, n as nat, 0),
            decreases n - k,
        {
            let i: usize = word_at(&output, k) as usize % pool.len();
            let ghost before = list@;
            let ghost rest = pool@.remove(i as int);
            assert(before.push(pool@[i as int]) + chosen(rest, output@, (n - k - 1) as nat, (k + 1) as nat)
                =~= before + chosen(pool@, output@, (n - k) as nat, k as nat));
            let a: Address = pool.remove(i);
            list.push(a);
            k += 1;
        }
        assert(list@ + chosen(pool@, output@, (n - k) as nat, k as nat) =~= list@);
        list
    }

    /// The sources that the randomness of the current ledger selects. Where `proof` does not show
    /// that `output` comes from the ledger's seed, these are all sources.
    pub fn vdf_sample_sources(&self, env: &Env, proof: &Vec<u8>, output: [u8; 32], iterations: u64) -> (r: Vec<
        Address,
    >)
        ensures
            r@ == self.selected(
                output@,
                shows(sha256_of(seed_bytes(env.ledger, env.timestamp)), proof@, iterations, output@),
            ),
    {
        let seed: [u8; 32] = self.vdf_get_current_seed(env);
        let shown: bool = self.vdf_verify_proof(seed, proof, iterations, output);
        self.select_sources(output, shown)
    }
}

} // verus!
