//! Digests, and the byte strings that they are taken of.

use vstd::prelude::*;

verus! {

/// The longest byte string of which a digest is taken. The budget of a host environment, a hundred
/// million instructions of which a digest takes some fifty-five for a byte, allows hardly more.
pub const MAX_DIGESTED: usize = 1_800_000;

/// The SHA-256 digest of a byte string.
pub uninterp spec fn sha256_of(data: Seq<u8>) -> Seq<u8>;

/// The SHA-256 digest of `data`.
///
/// This is `soroban_sdk::crypto::Crypto::sha256`, called in a host environment of its own. What
/// is claimed of it without proof is that its result depends on the bytes alone, which is what
/// the name [`sha256_of`] says. A host environment has a budget that a longer byte string would
/// exhaust, in which case the call would not return, so the length is bounded.
#[verifier::external_body]
pub(crate) fn sha256(data: &[u8]) -> (digest: [u8; 32])
    requires
        data@.len() <= MAX_DIGESTED,
    ensures
        digest@ == sha256_of(data@),
{
    let env = soroban_sdk::Env::default();
    env.crypto().sha256(&soroban_sdk::Bytes::from_slice(&env, data)).to_array()
}

/// The lowest `n` bytes of `x`, the lowest first.
pub open spec fn le_bytes(x: nat, n: nat) -> Seq<u8>
    decreases n,
{
    if n == 0 {
        Seq::empty()
    } else {
        seq![(x % 256) as u8] + le_bytes(x / 256, (n - 1) as nat)
    }
}

/// The lowest `n` bytes of `x`, the lowest last.
pub open spec fn be_bytes(x: nat, n: nat) -> Seq<u8>
    decreases n,
{
    if n == 0 {
        Seq::empty()
    } else {
        be_bytes(x / 256, (n - 1) as nat).push((x % 256) as u8)
    }
}

pub(crate) proof fn lemma_le_len(x: nat, n: nat)
    ensures
        le_bytes(x, n).len() == n,
    decreases n,
{
    if n > 0 {
        lemma_le_len(x / 256, (n - 1) as nat);
    }
}

/// How many numbers `n` bytes can tell apart.
pub open spec fn span(n: nat) -> nat
    decreases n,
{
    if n == 0 {
        1
    } else {
        256 * span((n - 1) as nat)
    }
}

pub(crate) proof fn lemma_spans()
    ensures
        span(4) == 0x1_0000_0000,
        span(8) == 0x1_0000_0000_0000_0000,
        span(16) == 0x1_0000_0000_0000_0000_0000_0000_0000_0000,
{
    reveal_with_fuel(span, 17);
}

pub(crate) proof fn lemma_le_tells_apart(x: nat, y: nat, n: nat)
    requires
        x < span(n),
        y < span(n),
        le_bytes(x, n) == le_bytes(y, n),
    ensures
        x == y,
    decreases n,
{
    if n > 0 {
        let a = le_bytes(x, n);
        let b = le_bytes(y, n);
        assert(a[0] == (x % 256) as u8);
        assert(b[0] == (y % 256) as u8);
        assert(a.skip(1) =~= le_bytes(x / 256, (n - 1) as nat));
        assert(b.skip(1) =~= le_bytes(y / 256, (n - 1) as nat));
        lemma_le_tells_apart(x / 256, y / 256, (n - 1) as nat);
    }
}

pub(crate) proof fn lemma_same_parts(a: Seq<u8>, b: Seq<u8>, c: Seq<u8>, d: Seq<u8>)
    requires
        a + b == c + d,
        a.len() == c.len() || b.len() == d.len(),
    ensures
        a == c,
        b == d,
{
    assert((a + b).len() == (c + d).len());
    assert((a + b).take(a.len() as int) =~= a);
    assert((c + d).take(a.len() as int) =~= c);
    assert((a + b).skip(a.len() as int) =~= b);
    assert((c + d).skip(a.len() as int) =~= d);
}

pub(crate) proof fn lemma_same_amount(x: i128, y: i128)
    requires
        le_bytes(x as u128 as nat, 16) == le_bytes(y as u128 as nat, 16),
    ensures
        x == y,
{
    lemma_spans();
    lemma_le_tells_apart(x as u128 as nat, y as u128 as nat, 16);
    assert(x as u128 == y as u128 ==> x == y) by (bit_vector);
}

/// Appends the lowest `n` bytes of `x`, the lowest first.
pub fn push_le(out: &mut Vec<u8>, x: u128, n: usize)
    ensures
        final(out)@ == old(out)@ + le_bytes(x as nat, n as nat),
{
    let mut rest: u128 = x;
    let mut left: usize = n;
    assert(out@ + le_bytes(rest as nat, left as nat) =~= old(out)@ + le_bytes(x as nat, n as nat));
    while left > 0
        invariant
            out@ + le_bytes(rest as nat, left as nat) == old(out)@ + le_bytes(x as nat, n as nat),
        decreases left,
    {
        let ghost before = out@;
        out.push((rest % 256) as u8);
        assert(out@ + le_bytes((rest / 256) as nat, (left - 1) as nat) =~= before + le_bytes(
            rest as nat,
            left as nat,
        ));
        rest = rest / 256;
        left -= 1;
    }
    assert(out@ + le_bytes(rest as nat, 0) =~= out@);
}

/// Appends the four bytes of `x`, the lowest last.
pub fn push_be_u32(out: &mut Vec<u8>, x: u32)
    ensures
        final(out)@ == old(out)@ + be_bytes(x as nat, 4),
{
    out.push((x / 16_777_216) as u8);
    out.push((x / 65_536 % 256) as u8);
    out.push((x / 256 % 256) as u8);
    out.push((x % 256) as u8);
    proof {
        reveal_with_fuel(be_bytes, 5);
        let n = x as nat;
        assert(n / 256 / 256 == n / 65_536);
        assert(n / 256 / 256 / 256 == n / 16_777_216);
        assert(out@ =~= old(out)@ + be_bytes(x as nat, 4));
    }
}

/// Appends `bytes`.
pub fn push_all(out: &mut Vec<u8>, bytes: &[u8])
    ensures
        final(out)@ == old(out)@ + bytes@,
{
    let mut i: usize = 0;
    assert(out@ =~= old(out)@ + bytes@.take(0));
    while i < bytes.len()
        invariant
            i <= bytes@.len(),
            out@ == old(out)@ + bytes@.take(i as int),
        decreases bytes@.len() - i,
    {
        out.push(bytes[i]);
        i += 1;
        assert(out@ =~= old(out)@ + bytes@.take(i as int));
    }
    assert(bytes@.take(bytes@.len() as int) =~= bytes@);
}

} // verus!
