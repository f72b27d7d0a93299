//! Natural numbers of any size.

use vstd::arithmetic::power::pow;
use vstd::prelude::*;

verus! {

/// One more than the largest digit.
pub const BASE: u128 = 0x1_0000_0000_0000_0000;

/// What a digit at place `i` counts.
pub open spec fn place(i: nat) -> nat
    decreases i,
{
    if i == 0 {
        1
    } else {
        BASE as nat * place((i - 1) as nat)
    }
}

/// The digit at place `i`; zero beyond the last.
pub open spec fn digit(s: Seq<u64>, i: int) -> nat {
    if 0 <= i < s.len() {
        s[i] as nat
    } else {
        0
    }
}

/// The number that the first `n` digits make, the lowest first.
pub open spec fn value_to(s: Seq<u64>, n: nat) -> nat
    decreases n,
{
    if n == 0 {
        0
    } else {
        value_to(s, (n - 1) as nat) + digit(s, n - 1) * place((n - 1) as nat)
    }
}

/// The number that the digits make.
pub open spec fn value(s: Seq<u64>) -> nat {
    value_to(s, s.len())
}

/// A natural number of any size.
#[derive(Debug)]
pub struct Wide {
    /// The digits, the lowest first.
    pub digits: Vec<u64>,
}

impl View for Wide {
    type V = nat;

    open spec fn view(&self) -> nat {
        value(self.digits@)
    }
}

proof fn lemma_value_push(s: Seq<u64>, d: u64, n: nat)
    requires
        n <= s.len(),
    ensures
        value_to(s.push(d), n) == value_to(s, n),
    decreases n,
{
    if n > 0 {
        lemma_value_push(s, d, (n - 1) as nat);
    }
}

proof fn lemma_value_beyond(s: Seq<u64>, n: nat)
    requires
        n >= s.len(),
    ensures
        value_to(s, n) == value(s),
    decreases n,
{
    if n > s.len() {
        lemma_value_beyond(s, (n - 1) as nat);
        assert(0 * place((n - 1) as nat) == 0) by (nonlinear_arith);
    }
}

proof fn lemma_value_below(s: Seq<u64>, n: nat)
    ensures
        value_to(s, n) < place(n),
    decreases n,
{
    if n > 0 {
        lemma_value_below(s, (n - 1) as nat);
        let d = digit(s, n - 1);
        let p = place((n - 1) as nat);
        assert(d * p + p <= BASE * p) by (nonlinear_arith)
            requires
                d + 1 <= BASE,
                p >= 0,
        ;
    }
}

proof fn lemma_value_shifted(s: Seq<u64>, n: nat)
    ensures
        value_to(seq![0u64] + s, n + 1) == BASE * value_to(s, n),
    decreases n,
{
    let t = seq![0u64] + s;
    if n == 0 {
        assert(value_to(t, 1) == value_to(t, 0) + digit(t, 0) * place(0));
        assert(digit(t, 0) == 0);
        assert(value_to(t, 0) == 0 && value_to(s, 0) == 0);
        assert(0 * place(0) == 0 && BASE * 0 == 0) by (nonlinear_arith);
    } else {
        lemma_value_shifted(s, (n - 1) as nat);
        assert(digit(t, n as int) == digit(s, n - 1));
        let v = value_to(s, (n - 1) as nat);
        let d = digit(s, n - 1);
        let p = place((n - 1) as nat);
        assert(BASE * v + d * (BASE * p) == BASE * (v + d * p)) by (nonlinear_arith);
    }
}

impl Wide {
    /// One.
    pub fn one() -> (r: Self)
        ensures
            r@ == 1,
    {
        let mut digits: Vec<u64> = Vec::new();
        digits.push(1);
        proof {
            assert(value_to(digits@, 1) == value_to(digits@, 0) + digit(digits@, 0) * place(0));
            assert(value_to(digits@, 0) == 0);
            assert(1 * place(0) == 1) by (nonlinear_arith)
                requires
                    place(0) == 1,
            ;
        }
        Wide { digits }
    }

    /// The product with one digit.
    fn times_digit(&self, m: u64) -> (r: Self)
        ensures
            r@ == self@ * m,
    {
        let ghost s = self.digits@;
        let mut out: Vec<u64> = Vec::new();
        let mut carry: u64 = 0;
        let mut i: usize = 0;
        assert(0 * m == 0 && 0 * place(0) == 0) by (nonlinear_arith);
        while i < self.digits.len()
            invariant
                i <= s.len(),
                s == self.digits@,
                out@.len() == i,
                value(out@) + carry * place(i as nat) == value_to(s, i as nat) * m,
            decreases s.len() - i,
        {
            let x: u64 = self.digits[i];
            proof {
                assert(x * m + carry < BASE * BASE) by (nonlinear_arith)
                    requires
                        x < BASE,
                        m < BASE,
                        carry < BASE,
                        BASE == 0x1_0000_0000_0000_0000,
                ;
                assert(x * m <= x as u128 * m as u128);
            }
            let t: u128 = x as u128 * m as u128 + carry as u128;
            let low: u64 = (t % BASE) as u64;
            let high: u64 = (t / BASE) as u64;
            let ghost before = out@;
            let ghost old_carry: int = carry as int;
            out.push(low);
            proof {
                lemma_value_push(before, low, i as nat);
                let p = place(i as nat) as int;
                let v = value_to(s, i as nat) as int;
                assert(low + BASE * high == x * m + old_carry);
                assert(value(before) + low * p + high * (BASE * p) == (v + x * p) * m) by (nonlinear_arith)
                    requires
                        value(before) + old_carry * p == v * m,
                        low + BASE * high == x * m + old_carry,
                ;
            }
            carry = high;
            i += 1;
        }
        let ghost before = out@;
        out.push(carry);
        proof {
            lemma_value_push(before, carry, before.len());
        }
        Wide { digits: out }
    }

    /// The sum with a number shifted up by one place.
    fn plus_shifted(&self, other: &Wide) -> (r: Self)
        ensures
            r@ == self@ + BASE * other@,
    {
        let ghost a = self.digits@;
        let ghost b = seq![0u64] + other.digits@;
        let n: usize = if self.digits.len() > other.digits.len() {
            self.digits.len()
        } else {
            other.digits.len()
        };
        let mut out: Vec<u64> = Vec::new();
        let mut carry: u64 = 0;
        let mut i: usize = 0;
        assert(0 * place(0) == 0) by (nonlinear_arith);
        // one place more than the longer number has
        let mut more: bool = true;
        while more
            invariant
                a == self.digits@,
                b == seq![0u64] + other.digits@,
                n >= self.digits@.len(),
                n >= other.digits@.len(),
                i <= n || !more,
                !more ==> out@.len() == n + 1,
                more ==> out@.len() == i,
                carry <= 1,
                value(out@) + carry * place(out@.len()) == value_to(a, out@.len()) + value_to(b, out@.len()),
            decreases n - i + (if more {
                1int
            } else {
                0
            }),
        {
            let x: u64 = if i < self.digits.len() {
                self.digits[i]
            } else {
                0
            };
            let y: u64 = if 0 < i && i - 1 < other.digits.len() {
                other.digits[i - 1]
            } else {
                0
            };
            proof {
                assert(digit(a, i as int) == x);
                assert(digit(b, i as int) == y);
            }
            let t: u128 = x as u128 + y as u128 + carry as u128;
            let low: u64 = (t % BASE) as u64;
            let high: u64 = (t / BASE) as u64;
            let ghost before = out@;
            let ghost old_carry: int = carry as int;
            out.push(low);
            proof {
                lemma_value_push(before, low, i as nat);
                let p = place(i as nat) as int;
                assert(low + BASE * high == x + y + old_carry);
                assert(low * p + high * (BASE * p) == x * p + y * p + old_carry * p) by (nonlinear_arith)
                    requires
                        low + BASE * high == x + y + old_carry,
                ;
            }
            carry = high;
            if i < n {
                i += 1;
            } else {
                more = false;
            }
        }
        let ghost before = out@;
        out.push(carry);
        proof {
            lemma_value_push(before, carry, before.len());
            lemma_value_beyond(a, before.len());
            lemma_value_beyond(b, before.len());
            lemma_value_shifted(other.digits@, other.digits@.len());
            assert(b.len() == other.digits@.len() + 1);
        }
        Wide { digits: out }
    }

    /// The product with `m`.
    pub fn times(&self, m: u128) -> (r: Self)
        ensures
            r@ == self@ * m,
    {
        let low: u64 = (m % BASE) as u64;
        let high: u64 = (m / BASE) as u64;
        let r = self.times_digit(low).plus_shifted(&self.times_digit(high));
        proof {
            assert(self@ * low + BASE * (self@ * high) == self@ * m) by (nonlinear_arith)
                requires
                    m == low + BASE * high,
            ;
        }
        r
    }

    fn digit_at(&self, i: usize) -> (r: u64)
        ensures
            r == digit(self.digits@, i as int),
    {
        if i < self.digits.len() {
            self.digits[i]
        } else {
            0
        }
    }

    /// Whether the number is at most `other`.
    pub fn at_most(&self, other: &Wide) -> (r: bool)
        ensures
            r == (self@ <= other@),
    {
        let ghost a = self.digits@;
        let ghost b = other.digits@;
        let mut i: usize = if self.digits.len() > other.digits.len() {
            self.digits.len()
        } else {
            other.digits.len()
        };
        proof {
            lemma_value_beyond(a, i as nat);
            lemma_value_beyond(b, i as nat);
        }
        while i > 0
            invariant
                a == self.digits@,
                b == other.digits@,
                self@ - other@ == value_to(a, i as nat) - value_to(b, i as nat),
            decreases i,
        {
            let x: u64 = self.digit_at(i - 1);
            let y: u64 = other.digit_at(i - 1);
            proof {
                lemma_value_below(a, (i - 1) as nat);
                lemma_value_below(b, (i - 1) as nat);
            }
            let ghost p = place((i - 1) as nat);
            if x < y {
                assert(x * p + p <= y * p) by (nonlinear_arith)
                    requires
                        x + 1 <= y,
                        p >= 0,
                ;
                return true;
            }
            if x > y {
                assert(y * p + p <= x * p) by (nonlinear_arith)
                    requires
                        y + 1 <= x,
                        p >= 0,
                ;
                return false;
            }
            i -= 1;
        }
        true
    }

    /// The `n`th power of `b`.
    pub fn power(b: u128, n: usize) -> (r: Self)
        ensures
            r@ == pow(b as int, n as nat),
    {
        let mut r = Wide::one();
        let mut i: usize = 0;
        proof {
            vstd::arithmetic::power::lemma_pow0(b as int);
        }
        while i < n
            invariant
                i <= n,
                r@ == pow(b as int, i as nat),
            decreases n - i,
        {
            let ghost before = r@ as int;
            r = r.times(b);
            proof {
                reveal(pow);
                assert(before * b == b * before) by (nonlinear_arith);
            }
            i += 1;
        }
        r
    }
}

} // verus!
