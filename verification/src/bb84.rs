//! The BB84 key-distribution protocol, with the quantum channel modelled
//! exactly: where the two parties pick the same basis the receiver reads
//! the sender's bit, and where they differ the receiver reads an
//! independent random bit.  Sifting keeps the matching-basis positions,
//! and the sifted keys of the two parties always agree.

use vstd::prelude::*;
use crate::rng::coin;

verus! {

/// A measurement basis.
#[derive(Clone, Copy, Debug, PartialEq, Eq, Structural)]
pub enum Basis {
    Rectilinear,
    Diagonal,
}

/// A classical key bit.
#[derive(Clone, Copy, Debug, PartialEq, Eq, Structural)]
pub enum Bit {
    Zero,
    One,
}

/// What the receiver reads at each position.
pub open spec fn measured(
    alice_bits: Seq<Bit>,
    alice_bases: Seq<Basis>,
    bob_bases: Seq<Basis>,
    noise: Seq<Bit>,
    i: int,
) -> Bit {
    if alice_bases[i] == bob_bases[i] {
        alice_bits[i]
    } else {
        noise[i]
    }
}

/// The sifted key: the bits at matching-basis positions, in order, over
/// the first `k` positions.
pub open spec fn sifted(bits: Seq<Bit>, alice_bases: Seq<Basis>, bob_bases: Seq<Basis>, k: int) -> Seq<
    Bit,
>
    decreases k,
{
    if k <= 0 {
        Seq::empty()
    } else {
        let prefix = sifted(bits, alice_bases, bob_bases, k - 1);
        if alice_bases[k - 1] == bob_bases[k - 1] {
            prefix.push(bits[k - 1])
        } else {
            prefix
        }
    }
}

/// One protocol round over a fixed number of raw bits.
pub struct BB84 {
    num_bits: usize,
}

impl BB84 {
    /// Raw bits sent per round.
    pub closed spec fn bit_count(&self) -> nat {
        self.num_bits as nat
    }

    pub fn new(num_bits: usize) -> (p: BB84)
        ensures
            p.bit_count() == num_bits as nat,
    {
        BB84 { num_bits }
    }

    /// A fresh random bit string of the round's length.
    pub fn random_bits(&self) -> (r: Vec<Bit>)
        ensures
            r@.len() == self.bit_count(),
    {
        let mut out: Vec<Bit> = Vec::new();
        let mut i: usize = 0;
        while i < self.num_bits
            invariant
                i <= self.num_bits,
                out@.len() == i,
            decreases self.num_bits - i,
        {
            if coin() {
                out.push(Bit::One);
            } else {
                out.push(Bit::Zero);
            }
            i = i + 1;
        }
        out
    }

    /// A fresh random basis string of the round's length.
    pub fn random_bases(&self) -> (r: Vec<Basis>)
        ensures
            r@.len() == self.bit_count(),
    {
        let mut out: Vec<Basis> = Vec::new();
        let mut i: usize = 0;
        while i < self.num_bits
            invariant
                i <= self.num_bits,
                out@.len() == i,
            decreases self.num_bits - i,
        {
            if coin() {
                out.push(Basis::Diagonal);
            } else {
                out.push(Basis::Rectilinear);
            }
            i = i + 1;
        }
        out
    }

    /// The receiver's measurement: the sender's bit where the bases
    /// match, the given collapse bit where they differ.
    pub fn measure(
        &self,
        alice_bits: &Vec<Bit>,
        alice_bases: &Vec<Basis>,
        bob_bases: &Vec<Basis>,
        noise: &Vec<Bit>,
    ) -> (r: Vec<Bit>)
        requires
            alice_bits@.len() == self.bit_count(),
            alice_bases@.len() == self.bit_count(),
            bob_bases@.len() == self.bit_count(),
            noise@.len() == self.bit_count(),
        ensures
            r@.len() == self.bit_count(),
            forall|i: int|
                0 <= i < r@.len() ==> #[trigger] r@[i] == measured(
                    alice_bits@,
                    alice_bases@,
                    bob_bases@,
                    noise@,
                    i,
                ),
    {
        let n = self.num_bits;
        let mut out: Vec<Bit> = Vec::new();
        let mut i: usize = 0;
        while i < n
            invariant
                i <= n,
                n as nat == self.bit_count(),
                alice_bits@.len() == n,
                alice_bases@.len() == n,
                bob_bases@.len() == n,
                noise@.len() == n,
                out@.len() == i,
                forall|j: int|
                    0 <= j < i ==> #[trigger] out@[j] == measured(
                        alice_bits@,
                        alice_bases@,
                        bob_bases@,
                        noise@,
                        j,
                    ),
            decreases n - i,
        {
            if basis_equal(alice_bases[i], bob_bases[i]) {
                out.push(alice_bits[i]);
            } else {
                out.push(noise[i]);
            }
            i = i + 1;
        }
        out
    }

    /// The sifted key: keeps the positions where the two bases match.
    pub fn sift(&self, bits: &Vec<Bit>, alice_bases: &Vec<Basis>, bob_bases: &Vec<Basis>) -> (r:
        Vec<Bit>)
        requires
            bits@.len() == self.bit_count(),
            alice_bases@.len() == self.bit_count(),
            bob_bases@.len() == self.bit_count(),
        ensures
            r@ == sifted(bits@, alice_bases@, bob_bases@, self.bit_count() as int),
    {
        let n = self.num_bits;
        let mut out: Vec<Bit> = Vec::new();
        let mut i: usize = 0;
        proof {
            assert(out@ =~= sifted(bits@, alice_bases@, bob_bases@, 0));
        }
        while i < n
            invariant
                i <= n,
                n as nat == self.bit_count(),
                bits@.len() == n,
                alice_bases@.len() == n,
                bob_bases@.len() == n,
                out@ == sifted(bits@, alice_bases@, bob_bases@, i as int),
            decreases n - i,
        {
            if basis_equal(alice_bases[i], bob_bases[i]) {
                out.push(bits[i]);
            }
            i = i + 1;
        }
        out
    }

    /// One full round: random sender bits and bases, random receiver
    /// bases, measurement with fresh collapse bits, and sifting on both
    /// sides.  Returns the sender's key, the receiver's key, and whether
    /// they agree -- which they always do.
    pub fn simulate(&self) -> (r: (Vec<Bit>, Vec<Bit>, bool))
        ensures
            r.0@ == r.1@,
            r.2 == true,
    {
        let alice_bits = self.random_bits();
        let alice_bases = self.random_bases();
        let bob_bases = self.random_bases();
        let noise = self.random_bits();
        let bob_bits = self.measure(&alice_bits, &alice_bases, &bob_bases, &noise);
        let alice_key = self.sift(&alice_bits, &alice_bases, &bob_bases);
        let bob_key = self.sift(&bob_bits, &alice_bases, &bob_bases);
        proof {
            lemma_sifted_agree(
                alice_bits@,
                bob_bits@,
                alice_bases@,
                bob_bases@,
                self.bit_count() as int,
            );
        }
        (alice_key, bob_key, true)
    }
}

/// Whether two bases are the same.
fn basis_equal(a: Basis, b: Basis) -> (r: bool)
    ensures
        r == (a == b),
{
    match (a, b) {
        (Basis::Rectilinear, Basis::Rectilinear) => true,
        (Basis::Diagonal, Basis::Diagonal) => true,
        _ => false,
    }
}

/// Two bit strings that agree wherever the bases match sift to the same
/// key.
pub proof fn lemma_sifted_agree(
    bits1: Seq<Bit>,
    bits2: Seq<Bit>,
    alice_bases: Seq<Basis>,
    bob_bases: Seq<Basis>,
    k: int,
)
    requires
        k <= bits1.len(),
        k <= bits2.len(),
        forall|i: int|
            0 <= i < k && alice_bases[i] == bob_bases[i] ==> #[trigger] bits1[i] == bits2[i],
    ensures
        sifted(bits1, alice_bases, bob_bases, k) == sifted(bits2, alice_bases, bob_bases, k),
    decreases k,
{
    if k > 0 {
        lemma_sifted_agree(bits1, bits2, alice_bases, bob_bases, k - 1);
    }
}

} // verus!
