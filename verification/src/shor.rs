//! Period finding and factor extraction in the style of Shor's algorithm.
//!
//! The quantum phase-estimation step is replaced by a direct classical scan
//! for the multiplicative order of `a` modulo `n`; the classical
//! post-processing (`factorize`) then derives candidate factors from the
//! period via greatest common divisors.

use vstd::prelude::*;

verus! {

use vstd::arithmetic::power::{pow, lemma_pow_mod_noop, lemma_pow_multiplies, lemma_square_is_pow2};
use vstd::arithmetic::div_mod::{lemma_mul_mod_noop_left, lemma_mul_mod_noop_right, lemma_small_mod};
use vstd::arithmetic::mul::{lemma_mul_is_associative, lemma_mul_upper_bound, lemma_mul_basics};

/// The product of two 64-bit values fits in 128 bits.
proof fn lemma_u64_mul_fits(x: u64, y: u64)
    ensures
        (x as int) * (y as int) <= 0xfffffffffffffffe0000000000000001,
{
    lemma_mul_upper_bound(x as int, u64::MAX as int, y as int, u64::MAX as int);
}

/// `base^exp mod n` as a mathematical value.
pub open spec fn pow_mod(base: nat, exp: nat, n: nat) -> int {
    pow(base as int, exp) % (n as int)
}

/// Binary modular exponentiation: `base^exp mod n`.
pub fn mod_pow(base: u64, exp: u64, n: u64) -> (r: u64)
    requires
        n > 0,
    ensures
        r == pow_mod(base as nat, exp as nat, n as nat),
        r < n,
{
    let mut b: u64 = base % n;
    let mut e: u64 = exp;
    let mut res: u64 = 1 % n;
    let ghost m = n as int;
    proof {
        lemma_pow_mod_noop(base as int, exp as nat, m);
        if n == 1 {
            assert(res == 0);
            assert(pow(base as int, exp as nat) % m == 0);
            assert((res * pow(b as int, e as nat)) % m == 0);
        } else {
            lemma_small_mod(1nat, n as nat);
            assert(res == 1);
            lemma_mul_basics(pow(b as int, e as nat));
        }
    }
    while e > 0
        invariant
            n > 0,
            m == n as int,
            b < n,
            res < n,
            pow(base as int, exp as nat) % m == (res * pow(b as int, e as nat)) % m,
        decreases e,
    {
        if e % 2 == 1 {
            proof {
                lemma_u64_mul_fits(res, b);
            }
            let prod: u128 = (res as u128) * (b as u128);
            let ghost res0 = res as int;
            res = (prod % (n as u128)) as u64;
            proof {
                let bi = b as int;
                let pm = pow(bi, (e - 1) as nat);
                assert(pow(bi, e as nat) == bi * pm) by {
                    reveal(pow);
                }
                lemma_mul_mod_noop_left(res0 * bi, pm, m);
                assert(res as int == (res0 * bi) % m);
                lemma_mul_is_associative(res0, bi, pm);
            }
            e = e - 1;
        } else {
            proof {
                lemma_u64_mul_fits(b, b);
            }
            let sq: u128 = (b as u128) * (b as u128);
            let ghost b0 = b as int;
            b = (sq % (n as u128)) as u64;
            proof {
                let k = (e / 2) as nat;
                lemma_square_is_pow2(b0);
                lemma_pow_multiplies(b0, 2, k);
                assert(pow(b0 * b0, k) == pow(b0, e as nat));
                lemma_pow_mod_noop(b0 * b0, k, m);
                assert(b as int == (b0 * b0) % m);
                lemma_mul_mod_noop_right(res as int, pow(b as int, k), m);
                lemma_mul_mod_noop_right(res as int, pow((b0 * b0) % m, k), m);
                lemma_mul_mod_noop_right(res as int, pow(b0 * b0, k), m);
            }
            e = e / 2;
        }
    }
    proof {
        assert(pow(b as int, 0) == 1) by {
            reveal(pow);
        }
        lemma_small_mod(res as nat, n as nat);
    }
    res
}

/// Mathematical greatest common divisor by the Euclidean recursion.
pub open spec fn spec_gcd(a: nat, b: nat) -> nat
    decreases b,
{
    if b == 0 {
        a
    } else {
        spec_gcd(b, a % b)
    }
}

/// Euclid's algorithm.
pub fn gcd(a: u64, b: u64) -> (r: u64)
    ensures
        r == spec_gcd(a as nat, b as nat),
{
    let mut x: u64 = a;
    let mut y: u64 = b;
    while y != 0
        invariant
            spec_gcd(x as nat, y as nat) == spec_gcd(a as nat, b as nat),
        decreases y,
    {
        let t: u64 = x % y;
        x = y;
        y = t;
    }
    x
}

/// Period finding for `a^x mod n`: the order of `a` in the multiplicative
/// group modulo `n`, sought by direct scan.
pub struct ShorSim {
    a: u64,
    n: u64,
}

impl ShorSim {
    /// The base whose period is sought.
    pub closed spec fn base(&self) -> nat {
        self.a as nat
    }

    /// The modulus.
    pub closed spec fn modulus(&self) -> nat {
        self.n as nat
    }

    pub fn new(a: u64, n: u64) -> (s: Self)
        ensures
            s.base() == a as nat,
            s.modulus() == n as nat,
    {
        ShorSim { a, n }
    }

    /// Scans `x = 1, 2, ...` for the least exponent with `a^x mod n == 1`;
    /// returns `None` when no exponent below `n` works.
    pub fn find_period(&self) -> (r: Option<u64>)
        requires
            self.modulus() > 0,
        ensures
            match r {
                Some(x) => {
                    &&& 1 <= x < self.modulus()
                    &&& pow_mod(self.base(), x as nat, self.modulus()) == 1
                    &&& forall|y: nat|
                        1 <= y < x ==> pow_mod(self.base(), y, self.modulus()) != 1
                },
                None => forall|y: nat|
                    1 <= y < self.modulus() ==> pow_mod(self.base(), y, self.modulus()) != 1,
            },
    {
        let mut x: u64 = 1;
        while x < self.n
            invariant
                self.n > 0,
                1 <= x,
                forall|y: nat| 1 <= y < x ==> pow_mod(self.base(), y, self.modulus()) != 1,
            decreases self.n - x,
    {
            let val = mod_pow(self.a, x, self.n);
            if val == 1 {
                return Some(x);
            }
            x = x + 1;
        }
        None
    }

    /// Classical post-processing: candidate factors `gcd(a^(r/2) +/- 1, n)`
    /// from an (even) period `r`.
    pub fn factorize(&self, r: u64) -> (f: (u64, u64))
        requires
            self.modulus() > 1,
        ensures
            ({
                let x = pow_mod(self.base(), (r / 2) as nat, self.modulus());
                &&& f.0 == spec_gcd((x + 1) as nat, self.modulus())
                &&& (x > 1 ==> f.1 == spec_gcd((x - 1) as nat, self.modulus()))
                &&& (x <= 1 ==> f.1 == spec_gcd((self.modulus() - 1 + x) as nat, self.modulus()))
            }),
    {
        let x = mod_pow(self.a, r / 2, self.n);
        let f1 = gcd(x + 1, self.n);
        let f2 = if x > 1 {
            gcd(x - 1, self.n)
        } else {
            gcd(self.n - (1 - x), self.n)
        };
        (f1, f2)
    }
}

} // verus!
