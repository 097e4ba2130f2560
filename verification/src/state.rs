//! The dense n-qubit state vector.
//!
//! `2^n` exact amplitudes share one positive scale: the stored coordinates
//! divided by `den * sqrt(2)^rt` give the physical amplitude.  Keeping the
//! `sqrt(2)` exponent in the scale lets the Hadamard gate stay inside
//! integer arithmetic, and keeping `den` lets teleportation and the
//! bit-flip code start from arbitrary rational amplitude pairs.

use vstd::prelude::*;
use crate::amplitude::{Amp, AmpValue, amp_zero, amp_one, amp_add, norm_p, norm_q, in_limit, COORD_LIMIT,
    lemma_norm_constants};

verus! {

use vstd::arithmetic::power2::{pow2, lemma2_to64, lemma2_to64_rest, lemma_pow2_unfold,
    lemma_pow2_strictly_increases, lemma_pow2_pos, lemma_pow2_adds};
use vstd::arithmetic::div_mod::lemma_fundamental_div_mod;

/// Everything that a precondition violation can report; detected before any
/// mutation, per the validate-then-mutate rule.
#[derive(Clone, Copy, Debug, PartialEq, Eq, Structural)]
pub enum QuantumError {
    /// Qubit count zero, or too large to simulate.
    InvalidDimension,
    /// A referenced qubit is not below the qubit count.
    InvalidQubitIndex,
    /// A controlled gate was given `control == target`.
    ControlEqualsTarget,
    /// A basis index at or above `2^n`.
    IndexOutOfRange,
    /// Normalizing a zero-norm vector.
    DegenerateState,
    /// The exact representation would leave the 64-bit coordinate range,
    /// or a normalization factor is not representable in the scale.
    AmplitudeOverflow,
}

/// Mathematical content of a state vector: unbounded amplitude coordinates
/// plus the shared scale `den * sqrt(2)^rt`.
#[verifier::ext_equal]
pub struct StateModel {
    pub nums: Seq<AmpValue>,
    pub den: int,
    pub rt: nat,
    pub qubits: nat,
}

/// Largest supported qubit count; simulation cost is `O(2^n)`.
pub const MAX_QUBITS: usize = 30;

/// Shape and range invariant of every state vector the library hands out.
pub open spec fn state_wf(m: StateModel) -> bool {
    &&& 1 <= m.qubits <= MAX_QUBITS as nat
    &&& m.nums.len() == pow2(m.qubits)
    &&& 1 <= m.den <= 0x8000_0000
    &&& m.rt <= u32::MAX
    &&& forall|i: int| 0 <= i < m.nums.len() ==> in_limit(#[trigger] m.nums[i])
}

/// Rational part of the unscaled total squared magnitude.
pub open spec fn sum_p(s: Seq<AmpValue>) -> int
    decreases s.len(),
{
    if s.len() == 0 {
        0
    } else {
        sum_p(s.drop_last()) + norm_p(s.last())
    }
}

/// `sqrt(2)` part of the unscaled total squared magnitude.
pub open spec fn sum_q(s: Seq<AmpValue>) -> int
    decreases s.len(),
{
    if s.len() == 0 {
        0
    } else {
        sum_q(s.drop_last()) + norm_q(s.last())
    }
}

/// The state has total probability exactly one: the unscaled squared
/// magnitudes add up to the squared scale, with no `sqrt(2)` remainder.
pub open spec fn is_unit(m: StateModel) -> bool {
    &&& sum_p(m.nums) == (m.den * m.den) * pow2(m.rt)
    &&& sum_q(m.nums) == 0
}

/// Splitting a sequence splits its magnitude sums.
pub proof fn lemma_sum_concat(s: Seq<AmpValue>, t: Seq<AmpValue>)
    ensures
        sum_p(s + t) == sum_p(s) + sum_p(t),
        sum_q(s + t) == sum_q(s) + sum_q(t),
    decreases t.len(),
{
    if t.len() == 0 {
        assert(s + t =~= s);
    } else {
        lemma_sum_concat(s, t.drop_last());
        assert((s + t).drop_last() =~= s + t.drop_last());
        assert((s + t).last() == t.last());
    }
}

/// Sequences with pointwise equal squared magnitudes have equal sums.
pub proof fn lemma_sum_pointwise(s: Seq<AmpValue>, t: Seq<AmpValue>)
    requires
        s.len() == t.len(),
        forall|i: int|
            0 <= i < s.len() ==> norm_p(#[trigger] s[i]) == norm_p(t[i]) && norm_q(s[i])
                == norm_q(t[i]),
    ensures
        sum_p(s) == sum_p(t),
        sum_q(s) == sum_q(t),
    decreases s.len(),
{
    if s.len() > 0 {
        lemma_sum_pointwise(s.drop_last(), t.drop_last());
    }
}

/// A sequence that is zero away from one index sums to that index's norm.
pub proof fn lemma_sum_single(s: Seq<AmpValue>, k: int)
    requires
        0 <= k < s.len(),
        forall|i: int| 0 <= i < s.len() && i != k ==> #[trigger] s[i] == amp_zero(),
    ensures
        sum_p(s) == norm_p(s[k]),
        sum_q(s) == norm_q(s[k]),
    decreases s.len(),
{
    lemma_norm_constants();
    if k == s.len() - 1 {
        lemma_sum_zero(s.drop_last());
    } else {
        lemma_sum_single(s.drop_last(), k);
    }
}

/// The all-zero sequence has zero magnitude.
pub proof fn lemma_sum_zero(s: Seq<AmpValue>)
    requires
        forall|i: int| 0 <= i < s.len() ==> #[trigger] s[i] == amp_zero(),
    ensures
        sum_p(s) == 0,
        sum_q(s) == 0,
    decreases s.len(),
{
    lemma_norm_constants();
    if s.len() > 0 {
        lemma_sum_zero(s.drop_last());
    }
}

/// Extending a prefix by one element extends its sums by one norm.
pub proof fn lemma_sum_prefix_step(s: Seq<AmpValue>, i: int)
    requires
        0 <= i < s.len(),
    ensures
        sum_p(s.subrange(0, i + 1)) == sum_p(s.subrange(0, i)) + norm_p(s[i]),
        sum_q(s.subrange(0, i + 1)) == sum_q(s.subrange(0, i)) + norm_q(s[i]),
{
    assert(s.subrange(0, i + 1).drop_last() =~= s.subrange(0, i));
    assert(s.subrange(0, i + 1).last() == s[i]);
}


/// Coordinatewise total of a sequence of amplitudes.
pub open spec fn amp_total(s: Seq<AmpValue>) -> AmpValue
    decreases s.len(),
{
    if s.len() == 0 {
        amp_zero()
    } else {
        amp_add(amp_total(s.drop_last()), s.last())
    }
}

/// Extending a prefix extends the coordinatewise total.
pub proof fn lemma_total_prefix_step(s: Seq<AmpValue>, i: int)
    requires
        0 <= i < s.len(),
    ensures
        amp_total(s.subrange(0, i + 1)) == amp_add(amp_total(s.subrange(0, i)), s[i]),
{
    assert(s.subrange(0, i + 1).drop_last() =~= s.subrange(0, i));
    assert(s.subrange(0, i + 1).last() == s[i]);
}

/// A constant sequence of ones sums to its length in the rational part.
pub proof fn lemma_sum_ones(s: Seq<AmpValue>)
    requires
        forall|i: int| 0 <= i < s.len() ==> #[trigger] s[i] == amp_one(),
    ensures
        sum_p(s) == s.len(),
        sum_q(s) == 0,
    decreases s.len(),
{
    lemma_norm_constants();
    if s.len() > 0 {
        lemma_sum_ones(s.drop_last());
    }
}

/// A squared coordinate within the stored bound fits comfortably in 128 bits.
pub proof fn lemma_coord_square_bound(u: int)
    by (nonlinear_arith)
    requires
        -(COORD_LIMIT as int) <= u <= COORD_LIMIT as int,
    ensures
        0 <= u * u <= (COORD_LIMIT as int) * (COORD_LIMIT as int),
{
}

/// A product of two coordinates within the stored bound is likewise bounded.
pub proof fn lemma_coord_product_bound(u: int, v: int)
    by (nonlinear_arith)
    requires
        -(COORD_LIMIT as int) <= u <= COORD_LIMIT as int,
        -(COORD_LIMIT as int) <= v <= COORD_LIMIT as int,
    ensures
        -((COORD_LIMIT as int) * (COORD_LIMIT as int)) <= u * v <= (COORD_LIMIT as int) * (
        COORD_LIMIT as int),
{
}


/// Exponent of the largest power of two dividing a positive integer.
pub open spec fn two_val(x: int) -> nat
    decreases x
    when x >= 1
{
    if x >= 1 && x % 2 == 0 {
        two_val(x / 2) + 1
    } else {
        0
    }
}

/// The odd factor of a positive integer.
pub open spec fn odd_part(x: int) -> int
    decreases x
    when x >= 1
{
    if x >= 1 && x % 2 == 0 {
        odd_part(x / 2)
    } else {
        x
    }
}

/// `r` is the nonnegative square root of `v`.
pub open spec fn is_square_root(r: int, v: int) -> bool {
    0 <= r && r * r == v
}

/// The squared-norm sum has an exact square root in the scale: it fits in
/// 128 bits, has no `sqrt(2)` part, its odd factor is a perfect square,
/// and the resulting denominator fits.
pub open spec fn norm_exactly_scalable(s: Seq<AmpValue>) -> bool {
    &&& sum_p(s) <= i128::MAX
    &&& sum_q(s) == 0
    &&& exists|r: int|
        #[trigger] is_square_root(r, odd_part(sum_p(s))) && r * (pow2(
            (two_val(sum_p(s)) / 2) as nat,
        ) as int) <= 0x8000_0000
}

/// Two nonnegative integers with the same square are equal.
proof fn lemma_square_root_unique(r: int, root: int, u: int)
    by (nonlinear_arith)
    requires
        r >= 0,
        root >= 0,
        r * r == u,
        root * root <= u,
        u < (root + 1) * (root + 1),
    ensures
        r == root,
{
}

/// A squared magnitude has no negative rational part.
pub proof fn lemma_norm_p_nonneg(x: AmpValue)
    by (nonlinear_arith)
    ensures
        norm_p(x) >= 0,
{
}

/// The `sqrt(2)` part of a squared magnitude is dominated by the
/// rational part.
pub proof fn lemma_norm_q_bound(x: AmpValue)
    by (nonlinear_arith)
    ensures
        -norm_p(x) <= norm_q(x) <= norm_p(x),
{
}

/// A prefix of the magnitude sum never exceeds the whole.
pub proof fn lemma_sum_p_prefix_bound(s: Seq<AmpValue>, k: int)
    requires
        0 <= k <= s.len(),
    ensures
        sum_p(s.subrange(0, k)) <= sum_p(s),
    decreases s.len(),
{
    if k == s.len() {
        assert(s.subrange(0, k) =~= s);
    } else {
        assert(s.drop_last().subrange(0, k) =~= s.subrange(0, k));
        lemma_sum_p_prefix_bound(s.drop_last(), k);
        lemma_norm_p_nonneg(s.last());
    }
}

/// Integer square root by binary search: the greatest `r` with
/// `r * r <= x`.
pub fn isqrt_u64(x: i128) -> (r: u64)
    requires
        0 <= x < 0x8000_0000_0000_0000_0000_0000_0000_0000,
    ensures
        (r as int) * (r as int) <= x,
        x < ((r as int) + 1) * ((r as int) + 1),
{
    let mut lo: u64 = 0;
    let mut hi: u64 = 0xffff_ffff_ffff_ffff;
    // invariant: lo*lo <= x < (hi+1)*(hi+1)
    proof {
        assert((0xffff_ffff_ffff_ffffu64 as int + 1) * (0xffff_ffff_ffff_ffffu64 as int + 1)
            > x) by (nonlinear_arith)
            requires
                x < 0x8000_0000_0000_0000_0000_0000_0000_0000,
        ;
    }
    while lo < hi
        invariant
            lo <= hi,
            (lo as int) * (lo as int) <= x,
            x < ((hi as int) + 1) * ((hi as int) + 1),
        decreases hi - lo,
    {
        let mid = hi - (hi - lo) / 2;
        proof {
            vstd::arithmetic::mul::lemma_mul_upper_bound(
                mid as int,
                u64::MAX as int,
                mid as int,
                u64::MAX as int,
            );
        }
        let msq: u128 = (mid as u128) * (mid as u128);
        if msq <= (x as u128) {
            lo = mid;
        } else {
            hi = mid - 1;
            proof {
                assert(x < ((mid - 1) as int + 1) * ((mid - 1) as int + 1)) by (nonlinear_arith)
                    requires
                        x < (mid as int) * (mid as int),
                ;
            }
        }
    }
    lo
}

/// One exact measurement probability: the value `(p + q*sqrt(2)) / (den^2 * 2^exp)`.
#[derive(Clone, Copy, Debug, PartialEq, Eq, Structural)]
pub struct Probability {
    pub p: i128,
    pub q: i128,
    pub den: u64,
    pub exp: u32,
}

/// `2^e` as an executable value.
pub fn pow2_exec(e: u32) -> (r: u64)
    requires
        e <= 62,
    ensures
        r == pow2(e as nat),
{
    let mut r: u64 = 1;
    let mut k: u32 = 0;
    proof {
        lemma2_to64();
    }
    while k < e
        invariant
            k <= e <= 62,
            r == pow2(k as nat),
        decreases e - k,
    {
        proof {
            lemma_pow2_unfold((k + 1) as nat);
            lemma_pow2_strictly_increases(k as nat, 62);
            lemma2_to64();
            lemma2_to64_rest();
        }
        r = r * 2;
        k = k + 1;
    }
    r
}

/// A dense vector of `2^n` exact amplitudes over the scale `den * sqrt(2)^rt`.
#[derive(Debug)]
pub struct StateVector {
    amplitudes: Vec<Amp>,
    num_qubits: usize,
    den: u64,
    rt: u32,
}

impl View for StateVector {
    type V = StateModel;

    closed spec fn view(&self) -> StateModel {
        StateModel {
            nums: Seq::new(
                self.amplitudes@.len() as nat,
                |i: int| self.amplitudes@[i]@,
            ),
            den: self.den as int,
            rt: self.rt as nat,
            qubits: self.num_qubits as nat,
        }
    }
}

impl StateVector {
    /// Shape and range invariant; established by `create` and kept by every gate.
    pub open spec fn wf(&self) -> bool {
        state_wf(self@)
    }

    /// Number of qubits.
    pub fn num_qubits(&self) -> (n: usize)
        ensures
            n as nat == self@.qubits,
    {
        self.num_qubits
    }

    /// Number of basis states, `2^n`.
    pub fn dimension(&self) -> (d: usize)
        requires
            self.wf(),
        ensures
            d as nat == self@.nums.len(),
    {
        self.amplitudes.len()
    }

    /// The state `|0...0>`: amplitude one at basis index zero.
    ///
    /// Fails with `InvalidDimension` exactly when `n` is zero or exceeds
    /// `MAX_QUBITS`.
    pub fn create(n: usize) -> (r: Result<StateVector, QuantumError>)
        ensures
            match r {
                Ok(s) => {
                    &&& s.wf()
                    &&& s@.qubits == n as nat
                    &&& s@.den == 1
                    &&& s@.rt == 0
                    &&& s@.nums.len() == pow2(n as nat)
                    &&& s@.nums[0] == amp_one()
                    &&& forall|i: int| 1 <= i < s@.nums.len() ==> #[trigger] s@.nums[i] == amp_zero()
                    &&& is_unit(s@)
                },
                Err(e) => {
                    &&& e == QuantumError::InvalidDimension
                    &&& (n == 0 || n > MAX_QUBITS)
                },
            },
    {
        if n == 0 || n > MAX_QUBITS {
            return Err(QuantumError::InvalidDimension);
        }
        let size_u64 = pow2_exec(n as u32);
        proof {
            lemma_pow2_strictly_increases(n as nat, 31);
            lemma2_to64();
        }
        let size: usize = size_u64 as usize;
        let mut amplitudes: Vec<Amp> = Vec::new();
        amplitudes.push(Amp::one());
        let mut i: usize = 1;
        while i < size
            invariant
                1 <= i <= size,
                amplitudes@.len() == i,
                amplitudes@[0]@ == amp_one(),
                forall|j: int| 1 <= j < i ==> #[trigger] amplitudes@[j]@ == amp_zero(),
            decreases size - i,
        {
            amplitudes.push(Amp::zero());
            i = i + 1;
        }
        let s = StateVector { amplitudes, num_qubits: n, den: 1, rt: 0 };
        proof {
            assert(s@.nums.len() == pow2(n as nat));
            assert(s@.nums[0] == amp_one());
            lemma_sum_single(s@.nums, 0);
            lemma_norm_constants();
            assert(pow2(0) == 1) by {
                lemma2_to64();
            }
        }
        Ok(s)
    }

    /// Shared scale, rational denominator part.
    pub fn scale_den(&self) -> (d: u64)
        ensures
            d == self@.den,
    {
        self.den
    }

    /// Shared scale, `sqrt(2)` exponent part.
    pub fn scale_rt(&self) -> (e: u32)
        ensures
            e == self@.rt,
    {
        self.rt
    }

    /// The stored amplitude at a known-good index.
    pub fn amp_at(&self, i: usize) -> (a: Amp)
        requires
            self.wf(),
            (i as int) < self@.nums.len(),
        ensures
            a@ == self@.nums[i as int],
            in_limit(a@),
    {
        self.amplitudes[i]
    }



    /// Builds a state directly from an explicit amplitude assignment over
    /// the scale `den` (with no `sqrt(2)` factors pending).
    ///
    /// Fails with `InvalidDimension` exactly when the amplitude count is
    /// not `2^n` for a supported `n` or `den` is out of range, and with
    /// `AmplitudeOverflow` exactly when a coordinate is out of the stored
    /// range.
    pub fn from_amplitudes(amplitudes: Vec<Amp>, num_qubits: usize, den: u64) -> (r: Result<
        StateVector,
        QuantumError,
    >)
        ensures
            match r {
                Ok(s) => {
                    &&& s.wf()
                    &&& s@.qubits == num_qubits as nat
                    &&& s@.den == den as int
                    &&& s@.rt == 0
                    &&& s@.nums.len() == amplitudes@.len()
                    &&& forall|i: int| #![trigger s@.nums[i]] 0 <= i < amplitudes@.len()
                        ==> s@.nums[i] == amplitudes@[i]@
                },
                Err(e) => {
                    &&& (e == QuantumError::InvalidDimension || e
                        == QuantumError::AmplitudeOverflow)
                    &&& (e == QuantumError::InvalidDimension <==> (num_qubits == 0 || num_qubits
                        > MAX_QUBITS || amplitudes@.len() != pow2(num_qubits as nat) || den == 0
                        || den > 0x8000_0000))
                    &&& (e == QuantumError::AmplitudeOverflow <==> (1 <= num_qubits <= MAX_QUBITS
                        && amplitudes@.len() == pow2(num_qubits as nat) && 1 <= den
                        <= 0x8000_0000 && exists|i: int|
                        0 <= i < amplitudes@.len() && !in_limit(#[trigger] amplitudes@[i]@)))
                },
            },
    {
        if num_qubits == 0 || num_qubits > MAX_QUBITS {
            return Err(QuantumError::InvalidDimension);
        }
        let size_u64 = pow2_exec(num_qubits as u32);
        proof {
            lemma_pow2_strictly_increases(num_qubits as nat, 31);
            lemma2_to64();
        }
        if amplitudes.len() as u64 != size_u64 || den == 0 || den > 0x8000_0000 {
            return Err(QuantumError::InvalidDimension);
        }
        let n = amplitudes.len();
        let mut i: usize = 0;
        while i < n
            invariant
                i <= n,
                n == amplitudes@.len(),
                amplitudes@.len() == pow2(num_qubits as nat),
                1 <= num_qubits <= MAX_QUBITS,
                1 <= den <= 0x8000_0000,
                forall|j: int| 0 <= j < i ==> in_limit(#[trigger] amplitudes@[j]@),
            decreases n - i,
        {
            let a = &amplitudes[i];
            if !(-COORD_LIMIT <= a.a && a.a <= COORD_LIMIT && -COORD_LIMIT <= a.b && a.b
                <= COORD_LIMIT && -COORD_LIMIT <= a.c && a.c <= COORD_LIMIT && -COORD_LIMIT <= a.d
                && a.d <= COORD_LIMIT) {
                proof {
                    assert(!in_limit(amplitudes@[i as int]@));
                }
                return Err(QuantumError::AmplitudeOverflow);
            }
            i = i + 1;
        }
        Ok(StateVector::from_raw(amplitudes, num_qubits, den, 0))
    }


    /// Builds a state from prepared parts; the callers establish the shape.
    pub(crate) fn from_raw(amplitudes: Vec<Amp>, num_qubits: usize, den: u64, rt: u32) -> (s:
        StateVector)
        requires
            1 <= num_qubits <= MAX_QUBITS,
            amplitudes@.len() == pow2(num_qubits as nat),
            1 <= den <= 0x8000_0000,
            forall|i: int| 0 <= i < amplitudes@.len() ==> in_limit(#[trigger] amplitudes@[i]@),
        ensures
            s.wf(),
            s@.qubits == num_qubits as nat,
            s@.den == den as int,
            s@.rt == rt as nat,
            s@.nums.len() == amplitudes@.len(),
            forall|i: int| #![trigger s@.nums[i]] 0 <= i < amplitudes@.len() ==> s@.nums[i]
                == amplitudes@[i]@,
    {
        StateVector { amplitudes, num_qubits, den, rt }
    }

    /// Replaces the amplitudes with a prepared vector of the same shape and
    /// adds `rt_inc` to the `sqrt(2)` exponent of the scale.
    pub(crate) fn install(&mut self, out: Vec<Amp>, rt_inc: u32) -> (r: ())
        requires
            old(self).wf(),
            out@.len() == old(self)@.nums.len(),
            forall|i: int| 0 <= i < out@.len() ==> in_limit(#[trigger] out@[i]@),
            old(self)@.rt + rt_inc <= u32::MAX,
        ensures
            final(self).wf(),
            final(self)@.nums.len() == out@.len(),
            forall|i: int| #![trigger final(self)@.nums[i]] 0 <= i < out@.len() ==> final(self)@.nums[i] == out@[i]@,
            final(self)@.den == old(self)@.den,
            final(self)@.qubits == old(self)@.qubits,
            final(self)@.rt == old(self)@.rt + rt_inc,
    {
        self.amplitudes = out;
        self.rt = self.rt + rt_inc;
    }


    /// Rescales the state to total probability one, exactly: the
    /// amplitude coordinates stay as they are and the scale is set to the
    /// square root of the unscaled squared-magnitude sum.  That square
    /// root lives in the scale (an integer times a power of `sqrt(2)`)
    /// exactly when the sum is a perfect square times a power of two and
    /// the `sqrt(2)` part of the sum vanishes.
    ///
    /// Fails with `DegenerateState` exactly when every amplitude is zero;
    /// fails with `AmplitudeOverflow` when the sum leaves 128 bits, when
    /// its square root is not representable in the scale, or when the new
    /// denominator would be too large.  On failure the state is
    /// untouched.
    pub fn normalize(&mut self) -> (r: Result<(), QuantumError>)
        requires
            old(self).wf(),
        ensures
            final(self).wf(),
            match r {
                Ok(()) => {
                    &&& final(self)@.nums == old(self)@.nums
                    &&& final(self)@.qubits == old(self)@.qubits
                    &&& is_unit(final(self)@)
                    &&& norm_exactly_scalable(old(self)@.nums)
                },
                Err(e) => {
                    &&& *final(self) == *old(self)
                    &&& (e == QuantumError::DegenerateState || e
                        == QuantumError::AmplitudeOverflow)
                    &&& (e == QuantumError::DegenerateState <==> sum_p(old(self)@.nums) == 0)
                    &&& (e == QuantumError::AmplitudeOverflow <==> (sum_p(old(self)@.nums) != 0
                        && !norm_exactly_scalable(old(self)@.nums)))
                },
            },
    {
        let size = self.amplitudes.len();
        let mut psum: i128 = 0;
        let mut qsum: i128 = 0;
        let ghost s = self@.nums;
        let mut i: usize = 0;
        proof {
            assert(s.subrange(0, 0) =~= Seq::<AmpValue>::empty());
        }
        while i < size
            invariant
                i <= size,
                self.wf(),
                s == self@.nums,
                size == self@.nums.len(),
                psum == sum_p(s.subrange(0, i as int)),
                qsum == sum_q(s.subrange(0, i as int)),
                psum >= 0,
                -psum <= qsum <= psum,
            decreases size - i,
        {
            let amp = self.amplitudes[i];
            proof {
                assert(in_limit(self@.nums[i as int]));
                assert(amp@ == self@.nums[i as int]);
                lemma_coord_square_bound(amp.a as int);
                lemma_coord_square_bound(amp.b as int);
                lemma_coord_square_bound(amp.c as int);
                lemma_coord_square_bound(amp.d as int);
                lemma_coord_product_bound(amp.a as int, amp.b as int);
                lemma_coord_product_bound(amp.c as int, amp.d as int);
                lemma_sum_prefix_step(s, i as int);
                lemma_norm_p_nonneg(amp@);
                lemma_norm_q_bound(amp@);
            }
            let p = (amp.a as i128) * (amp.a as i128) + 2 * ((amp.b as i128) * (amp.b as i128)) + (
            amp.c as i128) * (amp.c as i128) + 2 * ((amp.d as i128) * (amp.d as i128));
            let q = 2 * ((amp.a as i128) * (amp.b as i128) + (amp.c as i128) * (amp.d as i128));
            let psum2 = match psum.checked_add(p) {
                Some(v) => v,
                None => {
                    proof {
                        lemma_sum_p_prefix_bound(s, i + 1);
                        assert(sum_p(s) > i128::MAX);
                        assert(!norm_exactly_scalable(s));
                    }
                    return Err(QuantumError::AmplitudeOverflow);
                },
            };
            psum = psum2;
            qsum = qsum + q;
            i = i + 1;
        }
        proof {
            assert(s.subrange(0, size as int) =~= s);
        }
        if psum == 0 {
            return Err(QuantumError::DegenerateState);
        }
        if qsum != 0 {
            proof {
                assert(sum_q(s) != 0);
                assert(!norm_exactly_scalable(s));
                assert(sum_p(s) >= 1);
            }
            return Err(QuantumError::AmplitudeOverflow);
        }
        // split off the largest power of two
        let mut u: i128 = psum;
        let mut e: u32 = 0;
        proof {
            lemma2_to64();
            vstd::arithmetic::mul::lemma_mul_basics(u as int);
        }
        while u % 2 == 0
            invariant
                u >= 1,
                e <= 127,
                psum == u * pow2(e as nat),
                psum >= 1,
                odd_part(psum as int) == odd_part(u as int),
                two_val(psum as int) == two_val(u as int) + e,
            decreases u,
        {
            proof {
                assert(odd_part(u as int) == odd_part((u as int) / 2));
                assert(two_val(u as int) == two_val((u as int) / 2) + 1);
                lemma_pow2_unfold((e + 1) as nat);
                lemma_pow2_pos(e as nat);
                lemma_pow2_pos((e + 1) as nat);
                assert((u / 2) * (2 * pow2(e as nat)) == u * pow2(e as nat)) by (nonlinear_arith)
                    requires
                        u % 2 == 0,
                        u == 2 * (u / 2) + u % 2,
                ;
                assert(u * pow2(e as nat) >= u) by (nonlinear_arith)
                    requires
                        u >= 1,
                        pow2(e as nat) >= 1,
                ;
                assert(e < 127) by {
                    if e >= 127 {
                        lemma_pow2_adds(63, 63);
                        lemma2_to64();
                        lemma2_to64_rest();
                        if e > 126 + 1 {
                            lemma_pow2_strictly_increases(127, e as nat);
                        }
                        lemma_pow2_adds(126, 1);
                        assert(pow2(127) == pow2(126) * 2);
                        assert(pow2(e as nat) >= pow2(127));
                        assert(u * pow2(e as nat) >= pow2(127)) by (nonlinear_arith)
                            requires
                                u >= 1,
                                pow2(e as nat) >= pow2(127),
                        ;
                        assert(pow2(126) == 0x8000000000000000 * 0x8000000000000000);
                    }
                }
            }
            u = u / 2;
            e = e + 1;
        }
        // the odd part must be a perfect square
        let root = isqrt_u64(u);
        let root_sq: i128 = (root as i128) * (root as i128);
        proof {
            assert(odd_part(sum_p(s)) == u as int);
            assert(two_val(sum_p(s)) == e as nat);
        }
        if root_sq != u {
            proof {
                assert forall|r: int| #[trigger] is_square_root(r, odd_part(sum_p(s)))
                    implies false by {
                    lemma_square_root_unique(r, root as int, u as int);
                }
                assert(!norm_exactly_scalable(s));
            }
            return Err(QuantumError::AmplitudeOverflow);
        }
        // fold the even power of two into the denominator
        let half_e = e / 2;
        if half_e > 31 {
            proof {
                lemma2_to64();
                if half_e > 32 {
                    lemma_pow2_strictly_increases(32, (half_e as nat));
                }
                assert(pow2(half_e as nat) >= pow2(32));
                assert forall|r: int| #[trigger] is_square_root(r, odd_part(sum_p(s))) && r
                    * (pow2((two_val(sum_p(s)) / 2) as nat) as int) <= 0x8000_0000
                    implies false by {
                    assert(r >= 1) by (nonlinear_arith)
                        requires
                            r >= 0,
                            r * r == u as int,
                            u >= 1,
                    ;
                    assert(r * (pow2((half_e) as nat) as int) >= pow2(
                        (half_e) as nat,
                    ) as int) by (nonlinear_arith)
                        requires
                            r >= 1,
                    ;
                }
                assert(!norm_exactly_scalable(s));
            }
            return Err(QuantumError::AmplitudeOverflow);
        }
        let scale_pow = pow2_exec(half_e);
        proof {
            lemma_pow2_strictly_increases(half_e as nat, 32);
            lemma2_to64();
            vstd::arithmetic::mul::lemma_mul_upper_bound(
                root as int,
                u64::MAX as int,
                scale_pow as int,
                0x1_0000_0000,
            );
        }
        let den128: i128 = (root as i128) * (scale_pow as i128);
        if den128 < 1 || den128 > 0x8000_0000 {
            proof {
                assert(root as int >= 1) by (nonlinear_arith)
                    requires
                        root as int >= 0,
                        (root as int) * (root as int) == u as int,
                        u >= 1,
                ;
                assert(den128 >= 1) by (nonlinear_arith)
                    requires
                        den128 == (root as int) * (scale_pow as int),
                        root as int >= 1,
                        scale_pow as int >= 1,
                ;
                assert forall|r: int| #[trigger] is_square_root(r, odd_part(sum_p(s))) && r
                    * (pow2((two_val(sum_p(s)) / 2) as nat) as int) <= 0x8000_0000
                    implies false by {
                    lemma_square_root_unique(r, root as int, u as int);
                }
                assert(!norm_exactly_scalable(s));
            }
            return Err(QuantumError::AmplitudeOverflow);
        }
        let new_den = den128 as u64;
        let new_rt = e % 2;
        proof {
            let d = den128 as int;
            let r2 = pow2((new_rt) as nat) as int;
            lemma_fundamental_div_mod(e as int, 2);
            lemma_pow2_adds((half_e as nat) + (half_e as nat), (new_rt) as nat);
            lemma_pow2_adds(half_e as nat, half_e as nat);
            assert((half_e as nat) + (half_e as nat) + (new_rt as nat) == e as nat);
            assert((d * d) * r2 == psum) by (nonlinear_arith)
                requires
                    d == (root as int) * (pow2(half_e as nat) as int),
                    psum == u * pow2(e as nat),
                    u == (root as int) * (root as int),
                    pow2(e as nat) == (pow2(half_e as nat) * pow2(half_e as nat)) * pow2(
                        new_rt as nat,
                    ),
                    r2 == pow2(new_rt as nat) as int,
            ;
        }
        self.den = new_den;
        self.rt = new_rt;
        proof {
            assert(self@.nums =~= s);
            assert(is_square_root(root as int, odd_part(sum_p(s))));
            assert((root as int) * (pow2((two_val(sum_p(s)) / 2) as nat) as int) == den128);
            assert(norm_exactly_scalable(s));
        }
        Ok(())
    }

    /// The exact squared magnitude of the amplitude at `index`.
    ///
    /// Fails with `IndexOutOfRange` exactly when `index` is at or above `2^n`.
    pub fn probability(&self, index: usize) -> (r: Result<Probability, QuantumError>)
        requires
            self.wf(),
        ensures
            match r {
                Ok(pr) => {
                    &&& index < self@.nums.len()
                    &&& pr.p == norm_p(self@.nums[index as int])
                    &&& pr.q == norm_q(self@.nums[index as int])
                    &&& pr.den == self@.den
                    &&& pr.exp == self@.rt
                },
                Err(e) => {
                    &&& e == QuantumError::IndexOutOfRange
                    &&& index >= self@.nums.len()
                },
            },
    {
        if index >= self.amplitudes.len() {
            return Err(QuantumError::IndexOutOfRange);
        }
        let amp = self.amplitudes[index];
        proof {
            assert(in_limit(self@.nums[index as int]));
            assert(amp@ == self@.nums[index as int]);
            lemma_coord_square_bound(amp.a as int);
            lemma_coord_square_bound(amp.b as int);
            lemma_coord_square_bound(amp.c as int);
            lemma_coord_square_bound(amp.d as int);
            lemma_coord_product_bound(amp.a as int, amp.b as int);
            lemma_coord_product_bound(amp.c as int, amp.d as int);
        }
        let p = (amp.a as i128) * (amp.a as i128) + 2 * ((amp.b as i128) * (amp.b as i128)) + (
        amp.c as i128) * (amp.c as i128) + 2 * ((amp.d as i128) * (amp.d as i128));
        let q = 2 * ((amp.a as i128) * (amp.b as i128) + (amp.c as i128) * (amp.d as i128));
        Ok(Probability { p, q, den: self.den, exp: self.rt })
    }

    /// The exact amplitude coordinates at `index`, with the shared scale.
    ///
    /// Fails with `IndexOutOfRange` exactly when `index` is at or above `2^n`.
    pub fn amplitude(&self, index: usize) -> (r: Result<(Amp, u64, u32), QuantumError>)
        requires
            self.wf(),
        ensures
            match r {
                Ok(t) => {
                    &&& index < self@.nums.len()
                    &&& t.0@ == self@.nums[index as int]
                    &&& t.1 == self@.den
                    &&& t.2 == self@.rt
                },
                Err(e) => {
                    &&& e == QuantumError::IndexOutOfRange
                    &&& index >= self@.nums.len()
                },
            },
    {
        if index >= self.amplitudes.len() {
            return Err(QuantumError::IndexOutOfRange);
        }
        Ok((self.amplitudes[index], self.den, self.rt))
    }
}

} // verus!
