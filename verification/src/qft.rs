//! The quantum Fourier transform by direct recombination:
//! `result[k] = (1/sqrt(N)) * sum_j state[j] * w^(jk)` with `w` the
//! primitive `N`-th root of unity, and the conjugate root for the
//! inverse.
//!
//! The engine's amplitudes live in the ring extending the Gaussian
//! integers by `sqrt(2)`, which contains the eighth roots of unity and no
//! higher ones, so the exact transform covers one to three qubits.  Each
//! term is multiplied by `sqrt(2) * w^m`, and the scale absorbs
//! `sqrt(2)^(n+1)`: one factor for the table, `n` for `1/sqrt(N)`.

use vstd::prelude::*;
use crate::amplitude::{Amp, AmpValue, amp_zero, amp_add, amp_sub, amp_neg, amp_mul_i,
    amp_mul_sqrt2, amp_scale, in_limit, COORD_LIMIT};
use crate::state::{StateVector, StateModel, QuantumError, state_wf};

verus! {

use vstd::arithmetic::power2::{pow2, lemma2_to64, lemma_pow2_unfold};

/// `sqrt(2)` times the `m`-th power of the primitive eighth root of
/// unity, as a ring element.
pub open spec fn root8(x: AmpValue, m: int) -> AmpValue {
    if m == 0 {
        amp_mul_sqrt2(x)
    } else if m == 1 {
        amp_add(x, amp_mul_i(x))
    } else if m == 2 {
        amp_mul_sqrt2(amp_mul_i(x))
    } else if m == 3 {
        amp_sub(amp_mul_i(x), x)
    } else if m == 4 {
        amp_neg(amp_mul_sqrt2(x))
    } else if m == 5 {
        amp_neg(amp_add(x, amp_mul_i(x)))
    } else if m == 6 {
        amp_neg(amp_mul_sqrt2(amp_mul_i(x)))
    } else {
        amp_sub(x, amp_mul_i(x))
    }
}

/// The exponent applied to term `j` of output index `k`: `j*k` eighths of
/// a turn for `N = 8`, scaled up for smaller `N`; the inverse transform
/// turns the other way.
pub open spec fn phase_exp(j: int, k: int, n: nat, invert: bool) -> int {
    let m = (j * k * pow2((3 - n) as nat)) % 8;
    if invert {
        (8 - m) % 8
    } else {
        m
    }
}

/// The unscaled output amplitude at `k`: the sum over the first `j`
/// terms of `sqrt(2) * w^(jk)` times the input amplitude.
pub open spec fn qft_sum(s: Seq<AmpValue>, k: int, n: nat, invert: bool, j: int) -> AmpValue
    decreases j,
{
    if j <= 0 {
        crate::amplitude::amp_zero()
    } else {
        amp_add(
            qft_sum(s, k, n, invert, j - 1),
            root8(s[j - 1], phase_exp(j - 1, k, n, invert)),
        )
    }
}

/// The whole transform at the model level.
pub open spec fn model_qft(m: StateModel, invert: bool) -> StateModel {
    StateModel {
        nums: Seq::new(
            m.nums.len(),
            |k: int| qft_sum(m.nums, k, m.qubits, invert, m.nums.len() as int),
        ),
        den: m.den,
        rt: (m.rt + m.qubits + 1) as nat,
        qubits: m.qubits,
    }
}

/// The transform's output stays within the coordinate range and the scale
/// exponent has room.
pub open spec fn fits_qft(m: StateModel, invert: bool) -> bool {
    &&& m.rt + m.qubits + 1 <= u32::MAX
    &&& forall|k: int| 0 <= k < m.nums.len() ==> in_limit(#[trigger] model_qft(m, invert).nums[k])
}

/// The direct state-vector Fourier transform.
#[derive(Debug)]
pub struct QFTSim {
    num_qubits: usize,
}

impl QFTSim {
    /// The declared qubit count.
    pub closed spec fn qubit_count(&self) -> nat {
        self.num_qubits as nat
    }

    pub fn new(num_qubits: usize) -> (s: QFTSim)
        ensures
            s.qubit_count() == num_qubits as nat,
    {
        QFTSim { num_qubits }
    }

    /// The forward transform, exactly, in place.
    ///
    /// Fails with `InvalidDimension` exactly when the state has more than
    /// three qubits (the ring holds only eighth roots of unity), and with
    /// `AmplitudeOverflow` exactly when the exact output leaves the
    /// coordinate range; on failure the state is untouched.
    pub fn transform(&self, state: &mut StateVector) -> (r: Result<(), QuantumError>)
        requires
            old(state).wf(),
        ensures
            final(state).wf(),
            match r {
                Ok(()) => {
                    &&& old(state)@.qubits <= 3
                    &&& fits_qft(old(state)@, false)
                    &&& final(state)@ == model_qft(old(state)@, false)
                },
                Err(e) => {
                    &&& *final(state) == *old(state)
                    &&& (e == QuantumError::InvalidDimension || e
                        == QuantumError::AmplitudeOverflow)
                    &&& (e == QuantumError::InvalidDimension <==> old(state)@.qubits > 3)
                    &&& (e == QuantumError::AmplitudeOverflow <==> (old(state)@.qubits <= 3
                        && !fits_qft(old(state)@, false)))
                },
            },
    {
        apply_qft(state, false)
    }

    /// The inverse transform, exactly, in place; same failure conditions
    /// as the forward transform.
    pub fn inverse_transform(&self, state: &mut StateVector) -> (r: Result<(), QuantumError>)
        requires
            old(state).wf(),
        ensures
            final(state).wf(),
            match r {
                Ok(()) => {
                    &&& old(state)@.qubits <= 3
                    &&& fits_qft(old(state)@, true)
                    &&& final(state)@ == model_qft(old(state)@, true)
                },
                Err(e) => {
                    &&& *final(state) == *old(state)
                    &&& (e == QuantumError::InvalidDimension || e
                        == QuantumError::AmplitudeOverflow)
                    &&& (e == QuantumError::InvalidDimension <==> old(state)@.qubits > 3)
                    &&& (e == QuantumError::AmplitudeOverflow <==> (old(state)@.qubits <= 3
                        && !fits_qft(old(state)@, true)))
                },
            },
    {
        apply_qft(state, true)
    }
}

/// `sqrt(2) * w^m` applied to one amplitude, in wide arithmetic.
fn root8_exec(a: &Amp, m: usize) -> (r: (i128, i128, i128, i128))
    requires
        m < 8,
        in_limit(a@),
    ensures
        r.0 == root8(a@, m as int).a,
        r.1 == root8(a@, m as int).b,
        r.2 == root8(a@, m as int).c,
        r.3 == root8(a@, m as int).d,
        -2 * (COORD_LIMIT as int) <= r.0 <= 2 * (COORD_LIMIT as int),
        -2 * (COORD_LIMIT as int) <= r.1 <= 2 * (COORD_LIMIT as int),
        -2 * (COORD_LIMIT as int) <= r.2 <= 2 * (COORD_LIMIT as int),
        -2 * (COORD_LIMIT as int) <= r.3 <= 2 * (COORD_LIMIT as int),
{
    let aa = a.a as i128;
    let ab = a.b as i128;
    let ac = a.c as i128;
    let ad = a.d as i128;
    if m == 0 {
        (2 * ab, aa, 2 * ad, ac)
    } else if m == 1 {
        (aa - ac, ab - ad, ac + aa, ad + ab)
    } else if m == 2 {
        (2 * -ad, -ac, 2 * ab, aa)
    } else if m == 3 {
        (-ac - aa, -ad - ab, aa - ac, ab - ad)
    } else if m == 4 {
        (-(2 * ab), -aa, -(2 * ad), -ac)
    } else if m == 5 {
        (-(aa - ac), -(ab - ad), -(ac + aa), -(ad + ab))
    } else if m == 6 {
        (-(2 * -ad), ac, -(2 * ab), -aa)
    } else {
        (aa + ac, ab + ad, ac - aa, ad - ab)
    }
}

/// Shared body of the two transforms.
fn apply_qft(state: &mut StateVector, invert: bool) -> (r: Result<(), QuantumError>)
    requires
        old(state).wf(),
    ensures
        final(state).wf(),
        match r {
            Ok(()) => {
                &&& old(state)@.qubits <= 3
                &&& fits_qft(old(state)@, invert)
                &&& final(state)@ == model_qft(old(state)@, invert)
            },
            Err(e) => {
                &&& *final(state) == *old(state)
                &&& (e == QuantumError::InvalidDimension || e == QuantumError::AmplitudeOverflow)
                &&& (e == QuantumError::InvalidDimension <==> old(state)@.qubits > 3)
                &&& (e == QuantumError::AmplitudeOverflow <==> (old(state)@.qubits <= 3
                    && !fits_qft(old(state)@, invert)))
            },
        },
{
    let n = state.num_qubits();
    if n > 3 {
        return Err(QuantumError::InvalidDimension);
    }
    let rt = state.scale_rt();
    if u32::MAX - rt < (n as u32) + 1 {
        proof {
            assert(!fits_qft(state@, invert));
        }
        return Err(QuantumError::AmplitudeOverflow);
    }
    let size = state.dimension();
    proof {
        lemma2_to64();
    }
    let stride = match n {
        1 => 4usize,
        2 => 2usize,
        _ => 1usize,
    };
    proof {
        assert(stride == pow2((3 - state@.qubits) as nat));
    }
    let ghost s = state@.nums;
    let mut out: Vec<Amp> = Vec::new();
    let mut k: usize = 0;
    while k < size
        invariant
            k <= size,
            state.wf(),
            state@.qubits <= 3,
            s == state@.nums,
            size == state@.nums.len(),
            size <= 8,
            stride == pow2((3 - state@.qubits) as nat),
            stride <= 4,
            out@.len() == k,
            forall|t: int|
                0 <= t < k ==> #[trigger] out@[t]@ == qft_sum(
                    s,
                    t,
                    state@.qubits,
                    invert,
                    size as int,
                ),
            forall|t: int| 0 <= t < k ==> in_limit(#[trigger] out@[t]@),
        decreases size - k,
    {
        let mut sa: i128 = 0;
        let mut sb: i128 = 0;
        let mut sc: i128 = 0;
        let mut sd: i128 = 0;
        let mut j: usize = 0;
        while j < size
            invariant
                j <= size,
                k < size,
                state.wf(),
                state@.qubits <= 3,
                s == state@.nums,
                size == state@.nums.len(),
                size <= 8,
                stride == pow2((3 - state@.qubits) as nat),
                stride <= 4,
                sa == qft_sum(s, k as int, state@.qubits, invert, j as int).a,
                sb == qft_sum(s, k as int, state@.qubits, invert, j as int).b,
                sc == qft_sum(s, k as int, state@.qubits, invert, j as int).c,
                sd == qft_sum(s, k as int, state@.qubits, invert, j as int).d,
                -(j as int) * 2 * (COORD_LIMIT as int) <= sa <= (j as int) * 2 * (
                COORD_LIMIT as int),
                -(j as int) * 2 * (COORD_LIMIT as int) <= sb <= (j as int) * 2 * (
                COORD_LIMIT as int),
                -(j as int) * 2 * (COORD_LIMIT as int) <= sc <= (j as int) * 2 * (
                COORD_LIMIT as int),
                -(j as int) * 2 * (COORD_LIMIT as int) <= sd <= (j as int) * 2 * (
                COORD_LIMIT as int),
            decreases size - j,
        {
            proof {
                assert((j as int) * (k as int) * (stride as int) <= 512) by (nonlinear_arith)
                    requires
                        (j as int) < 8,
                        (k as int) < 8,
                        (stride as int) <= 4,
                ;
                assert((j as int) * (k as int) * (stride as int) >= 0) by (nonlinear_arith)
                    requires
                        (j as int) >= 0,
                        (k as int) >= 0,
                        (stride as int) >= 0,
                ;
                assert(0 <= (j as int) * (k as int) <= 64) by (nonlinear_arith)
                    requires
                        0 <= (j as int) < 8,
                        0 <= (k as int) < 8,
                ;
            }
            let m0 = (j * k * stride) % 8;
            let m = if invert {
                (8 - m0) % 8
            } else {
                m0
            };
            proof {
                assert(m0 == (j as int * k as int * pow2((3 - state@.qubits) as nat)) % 8) by {
                    assert(j * k * stride <= 8 * 8 * 4) by (nonlinear_arith)
                        requires
                            j < 8 && k < 8 && stride <= 4,
                    ;
                }
                assert(m as int == phase_exp(j as int, k as int, state@.qubits, invert));
            }
            let a = state.amp_at(j);
            let term = root8_exec(&a, m);
            proof {
                lemma_sum_step_bound(j as int, sa as int, term.0 as int);
                lemma_sum_step_bound(j as int, sb as int, term.1 as int);
                lemma_sum_step_bound(j as int, sc as int, term.2 as int);
                lemma_sum_step_bound(j as int, sd as int, term.3 as int);
            }
            sa = sa + term.0;
            sb = sb + term.1;
            sc = sc + term.2;
            sd = sd + term.3;
            j = j + 1;
        }
        let lim = COORD_LIMIT as i128;
        if -lim <= sa && sa <= lim && -lim <= sb && sb <= lim && -lim <= sc && sc <= lim && -lim
            <= sd && sd <= lim {
            out.push(Amp { a: sa as i64, b: sb as i64, c: sc as i64, d: sd as i64 });
        } else {
            proof {
                assert(!in_limit(model_qft(old(state)@, invert).nums[k as int]));
            }
            return Err(QuantumError::AmplitudeOverflow);
        }
        k = k + 1;
    }
    let inc = (n as u32) + 1;
    state.install(out, inc);
    proof {
        let m1 = model_qft(old(state)@, invert);
        assert(state@.nums =~= m1.nums);
        assert(state@ =~= m1);
    }
    Ok(())
}

/// Adding one doubly-bounded term keeps the running total bounded.
proof fn lemma_sum_step_bound(j: int, t: int, x: int)
    by (nonlinear_arith)
    requires
        j >= 0,
        -j * 2 * (COORD_LIMIT as int) <= t <= j * 2 * (COORD_LIMIT as int),
        -2 * (COORD_LIMIT as int) <= x <= 2 * (COORD_LIMIT as int),
    ensures
        -(j + 1) * 2 * (COORD_LIMIT as int) <= t + x <= (j + 1) * 2 * (COORD_LIMIT as int),
{
}

/// Quadrupling the coordinates while adding four to the `sqrt(2)`
/// exponent leaves the denoted amplitude unchanged.
proof fn lemma_scale4_rt4(x: AmpValue, d: int, r: nat)
    ensures
        crate::laws::amp_value_eq(amp_scale(4, x), d, (r + 4) as nat, x, d, r),
{
    vstd::arithmetic::div_mod::lemma_fundamental_div_mod(r as int, 2);
    vstd::arithmetic::div_mod::lemma_fundamental_div_mod_converse_div(
        r as int + 4,
        2,
        (r / 2) as int + 2,
        (r % 2) as int,
    );
    assert((r + 4) as nat / 2 == r / 2 + 2);
    assert(((r + 4) as nat) % 2 == r % 2) by {
        vstd::arithmetic::div_mod::lemma_mod_multiples_vanish(2, r as int, 2);
    }
    lemma_pow2_unfold((r / 2 + 1) as nat);
    lemma_pow2_unfold((r / 2 + 2) as nat);
    let p = pow2((r / 2) as nat) as int;
    assert(pow2((r / 2 + 2) as nat) == 4 * p);
    if r % 2 == 1 {
        assert(amp_mul_sqrt2(amp_scale(4, x)) == amp_scale(4, amp_mul_sqrt2(x)));
        crate::amplitude::lemma_scale_compose(d * p, 4, amp_mul_sqrt2(x));
        assert(d * (4 * p) == (d * p) * 4) by (nonlinear_arith);
    } else {
        crate::amplitude::lemma_scale_compose(d * p, 4, x);
        assert(d * (4 * p) == (d * p) * 4) by (nonlinear_arith);
    }
}

/// The round trip on one qubit: the inverse transform of the transform
/// denotes the original state, amplitude by amplitude; the quadrupled
/// coordinates are cancelled by the four `sqrt(2)` factors the scale
/// absorbed.
pub proof fn lemma_qft_round_trip_one_qubit(m: StateModel)
    requires
        state_wf(m),
        m.qubits == 1,
    ensures
        crate::laws::states_equiv(model_qft(model_qft(m, false), true), m),
{
    lemma2_to64();
    let s = m.nums;
    assert(s.len() == 2) by {
        assert(pow2(1) == 2);
    }
    let fwd = model_qft(m, false);
    let f = fwd.nums;
    assert(pow2(2) == 4);
    assert(phase_exp(0, 0, 1, false) == 0) by (nonlinear_arith)
        requires
            pow2(2) == 4,
    ;
    assert(phase_exp(1, 0, 1, false) == 0) by (nonlinear_arith)
        requires
            pow2(2) == 4,
    ;
    assert(phase_exp(0, 1, 1, false) == 0) by (nonlinear_arith)
        requires
            pow2(2) == 4,
    ;
    assert(phase_exp(1, 1, 1, false) == 4) by (nonlinear_arith)
        requires
            pow2(2) == 4,
    ;
    assert(phase_exp(0, 0, 1, true) == 0) by (nonlinear_arith)
        requires
            pow2(2) == 4,
    ;
    assert(phase_exp(1, 0, 1, true) == 0) by (nonlinear_arith)
        requires
            pow2(2) == 4,
    ;
    assert(phase_exp(0, 1, 1, true) == 0) by (nonlinear_arith)
        requires
            pow2(2) == 4,
    ;
    assert(phase_exp(1, 1, 1, true) == 4) by (nonlinear_arith)
        requires
            pow2(2) == 4,
    ;
    assert(qft_sum(s, 0, 1, false, 0) == amp_zero());
    assert(qft_sum(s, 1, 1, false, 0) == amp_zero());
    assert(qft_sum(s, 0, 1, false, 1) == amp_add(amp_zero(), root8(s[0], 0)));
    assert(f[0] == amp_add(qft_sum(s, 0, 1, false, 1), root8(s[1], 0)));
    assert(qft_sum(s, 1, 1, false, 1) == amp_add(amp_zero(), root8(s[0], 0)));
    assert(f[1] == amp_add(qft_sum(s, 1, 1, false, 1), root8(s[1], 4)));
    let back = model_qft(fwd, true);
    let g = back.nums;
    assert(qft_sum(f, 0, 1, true, 0) == amp_zero());
    assert(qft_sum(f, 1, 1, true, 0) == amp_zero());
    assert(qft_sum(f, 0, 1, true, 1) == amp_add(amp_zero(), root8(f[0], 0)));
    assert(g[0] == amp_add(qft_sum(f, 0, 1, true, 1), root8(f[1], 0)));
    assert(qft_sum(f, 1, 1, true, 1) == amp_add(amp_zero(), root8(f[0], 0)));
    assert(g[1] == amp_add(qft_sum(f, 1, 1, true, 1), root8(f[1], 4)));
    assert(g[0] == amp_scale(4, s[0]));
    assert(g[1] == amp_scale(4, s[1]));
    assert(back.rt == m.rt + 4);
    assert(back.den == m.den);
    lemma_scale4_rt4(s[0], m.den, m.rt);
    lemma_scale4_rt4(s[1], m.den, m.rt);
    assert forall|k: int| 0 <= k < back.nums.len() implies crate::laws::amp_value_eq(
        #[trigger] back.nums[k],
        back.den,
        back.rt,
        m.nums[k],
        m.den,
        m.rt,
    ) by {
        if k == 0 {
        } else {
            assert(k == 1);
        }
    }
}

/// Eightfold coordinates with six more `sqrt(2)` factors denote the same
/// amplitude.
proof fn lemma_scale8_rt6(x: AmpValue, d: int, r: nat)
    ensures
        crate::laws::amp_value_eq(amp_scale(8, x), d, (r + 6) as nat, x, d, r),
{
    vstd::arithmetic::div_mod::lemma_fundamental_div_mod(r as int, 2);
    vstd::arithmetic::div_mod::lemma_fundamental_div_mod_converse_div(
        r as int + 6,
        2,
        (r / 2) as int + 3,
        (r % 2) as int,
    );
    assert((r + 6) as nat / 2 == r / 2 + 3);
    assert(((r + 6) as nat) % 2 == r % 2) by {
        vstd::arithmetic::div_mod::lemma_mod_multiples_vanish(3, r as int, 2);
    }
    lemma_pow2_unfold((r / 2 + 1) as nat);
    lemma_pow2_unfold((r / 2 + 2) as nat);
    lemma_pow2_unfold((r / 2 + 3) as nat);
    let p = pow2((r / 2) as nat) as int;
    assert(pow2((r / 2 + 3) as nat) == 8 * p);
    if r % 2 == 1 {
        assert(amp_mul_sqrt2(amp_scale(8, x)) == amp_scale(8, amp_mul_sqrt2(x)));
        crate::amplitude::lemma_scale_compose(d * p, 8, amp_mul_sqrt2(x));
        assert(d * (8 * p) == (d * p) * 8) by (nonlinear_arith);
    } else {
        crate::amplitude::lemma_scale_compose(d * p, 8, x);
        assert(d * (8 * p) == (d * p) * 8) by (nonlinear_arith);
    }
}

/// The round trip on two qubits, by direct expansion of all sixteen
/// terms of each direction.
pub proof fn lemma_qft_round_trip_two_qubits(m: StateModel)
    requires
        state_wf(m),
        m.qubits == 2,
    ensures
        crate::laws::states_equiv(model_qft(model_qft(m, false), true), m),
{
    lemma2_to64();
    let s = m.nums;
    assert(s.len() == 4) by {
        assert(pow2(2) == 4);
    }
    let fwd = model_qft(m, false);
    let f = fwd.nums;
    assert(pow2(1) == 2);
    assert(phase_exp(0, 0, 2, false) == 0) by (nonlinear_arith)
        requires
            pow2(1) == 2,
    ;
    assert(phase_exp(1, 0, 2, false) == 0) by (nonlinear_arith)
        requires
            pow2(1) == 2,
    ;
    assert(phase_exp(2, 0, 2, false) == 0) by (nonlinear_arith)
        requires
            pow2(1) == 2,
    ;
    assert(phase_exp(3, 0, 2, false) == 0) by (nonlinear_arith)
        requires
            pow2(1) == 2,
    ;
    assert(phase_exp(0, 1, 2, false) == 0) by (nonlinear_arith)
        requires
            pow2(1) == 2,
    ;
    assert(phase_exp(1, 1, 2, false) == 2) by (nonlinear_arith)
        requires
            pow2(1) == 2,
    ;
    assert(phase_exp(2, 1, 2, false) == 4) by (nonlinear_arith)
        requires
            pow2(1) == 2,
    ;
    assert(phase_exp(3, 1, 2, false) == 6) by (nonlinear_arith)
        requires
            pow2(1) == 2,
    ;
    assert(phase_exp(0, 2, 2, false) == 0) by (nonlinear_arith)
        requires
            pow2(1) == 2,
    ;
    assert(phase_exp(1, 2, 2, false) == 4) by (nonlinear_arith)
        requires
            pow2(1) == 2,
    ;
    assert(phase_exp(2, 2, 2, false) == 0) by (nonlinear_arith)
        requires
            pow2(1) == 2,
    ;
    assert(phase_exp(3, 2, 2, false) == 4) by (nonlinear_arith)
        requires
            pow2(1) == 2,
    ;
    assert(phase_exp(0, 3, 2, false) == 0) by (nonlinear_arith)
        requires
            pow2(1) == 2,
    ;
    assert(phase_exp(1, 3, 2, false) == 6) by (nonlinear_arith)
        requires
            pow2(1) == 2,
    ;
    assert(phase_exp(2, 3, 2, false) == 4) by (nonlinear_arith)
        requires
            pow2(1) == 2,
    ;
    assert(phase_exp(3, 3, 2, false) == 2) by (nonlinear_arith)
        requires
            pow2(1) == 2,
    ;
    assert(phase_exp(0, 0, 2, true) == 0) by (nonlinear_arith)
        requires
            pow2(1) == 2,
    ;
    assert(phase_exp(1, 0, 2, true) == 0) by (nonlinear_arith)
        requires
            pow2(1) == 2,
    ;
    assert(phase_exp(2, 0, 2, true) == 0) by (nonlinear_arith)
        requires
            pow2(1) == 2,
    ;
    assert(phase_exp(3, 0, 2, true) == 0) by (nonlinear_arith)
        requires
            pow2(1) == 2,
    ;
    assert(phase_exp(0, 1, 2, true) == 0) by (nonlinear_arith)
        requires
            pow2(1) == 2,
    ;
    assert(phase_exp(1, 1, 2, true) == 6) by (nonlinear_arith)
        requires
            pow2(1) == 2,
    ;
    assert(phase_exp(2, 1, 2, true) == 4) by (nonlinear_arith)
        requires
            pow2(1) == 2,
    ;
    assert(phase_exp(3, 1, 2, true) == 2) by (nonlinear_arith)
        requires
            pow2(1) == 2,
    ;
    assert(phase_exp(0, 2, 2, true) == 0) by (nonlinear_arith)
        requires
            pow2(1) == 2,
    ;
    assert(phase_exp(1, 2, 2, true) == 4) by (nonlinear_arith)
        requires
            pow2(1) == 2,
    ;
    assert(phase_exp(2, 2, 2, true) == 0) by (nonlinear_arith)
        requires
            pow2(1) == 2,
    ;
    assert(phase_exp(3, 2, 2, true) == 4) by (nonlinear_arith)
        requires
            pow2(1) == 2,
    ;
    assert(phase_exp(0, 3, 2, true) == 0) by (nonlinear_arith)
        requires
            pow2(1) == 2,
    ;
    assert(phase_exp(1, 3, 2, true) == 2) by (nonlinear_arith)
        requires
            pow2(1) == 2,
    ;
    assert(phase_exp(2, 3, 2, true) == 4) by (nonlinear_arith)
        requires
            pow2(1) == 2,
    ;
    assert(phase_exp(3, 3, 2, true) == 6) by (nonlinear_arith)
        requires
            pow2(1) == 2,
    ;
    assert(qft_sum(s, 0, 2, false, 0) == amp_zero());
    assert(qft_sum(s, 0, 2, false, 1) == amp_add(qft_sum(s, 0, 2, false, 0), root8(s[0], 0)));
    assert(qft_sum(s, 0, 2, false, 2) == amp_add(qft_sum(s, 0, 2, false, 1), root8(s[1], 0)));
    assert(qft_sum(s, 0, 2, false, 3) == amp_add(qft_sum(s, 0, 2, false, 2), root8(s[2], 0)));
    assert(qft_sum(s, 0, 2, false, 4) == amp_add(qft_sum(s, 0, 2, false, 3), root8(s[3], 0)));
    assert(f[0] == qft_sum(s, 0, 2, false, 4));
    assert(qft_sum(s, 1, 2, false, 0) == amp_zero());
    assert(qft_sum(s, 1, 2, false, 1) == amp_add(qft_sum(s, 1, 2, false, 0), root8(s[0], 0)));
    assert(qft_sum(s, 1, 2, false, 2) == amp_add(qft_sum(s, 1, 2, false, 1), root8(s[1], 2)));
    assert(qft_sum(s, 1, 2, false, 3) == amp_add(qft_sum(s, 1, 2, false, 2), root8(s[2], 4)));
    assert(qft_sum(s, 1, 2, false, 4) == amp_add(qft_sum(s, 1, 2, false, 3), root8(s[3], 6)));
    assert(f[1] == qft_sum(s, 1, 2, false, 4));
    assert(qft_sum(s, 2, 2, false, 0) == amp_zero());
    assert(qft_sum(s, 2, 2, false, 1) == amp_add(qft_sum(s, 2, 2, false, 0), root8(s[0], 0)));
    assert(qft_sum(s, 2, 2, false, 2) == amp_add(qft_sum(s, 2, 2, false, 1), root8(s[1], 4)));
    assert(qft_sum(s, 2, 2, false, 3) == amp_add(qft_sum(s, 2, 2, false, 2), root8(s[2], 0)));
    assert(qft_sum(s, 2, 2, false, 4) == amp_add(qft_sum(s, 2, 2, false, 3), root8(s[3], 4)));
    assert(f[2] == qft_sum(s, 2, 2, false, 4));
    assert(qft_sum(s, 3, 2, false, 0) == amp_zero());
    assert(qft_sum(s, 3, 2, false, 1) == amp_add(qft_sum(s, 3, 2, false, 0), root8(s[0], 0)));
    assert(qft_sum(s, 3, 2, false, 2) == amp_add(qft_sum(s, 3, 2, false, 1), root8(s[1], 6)));
    assert(qft_sum(s, 3, 2, false, 3) == amp_add(qft_sum(s, 3, 2, false, 2), root8(s[2], 4)));
    assert(qft_sum(s, 3, 2, false, 4) == amp_add(qft_sum(s, 3, 2, false, 3), root8(s[3], 2)));
    assert(f[3] == qft_sum(s, 3, 2, false, 4));
    assert(qft_sum(f, 0, 2, true, 0) == amp_zero());
    assert(qft_sum(f, 0, 2, true, 1) == amp_add(qft_sum(f, 0, 2, true, 0), root8(f[0], 0)));
    assert(qft_sum(f, 0, 2, true, 2) == amp_add(qft_sum(f, 0, 2, true, 1), root8(f[1], 0)));
    assert(qft_sum(f, 0, 2, true, 3) == amp_add(qft_sum(f, 0, 2, true, 2), root8(f[2], 0)));
    assert(qft_sum(f, 0, 2, true, 4) == amp_add(qft_sum(f, 0, 2, true, 3), root8(f[3], 0)));
    assert(qft_sum(f, 1, 2, true, 0) == amp_zero());
    assert(qft_sum(f, 1, 2, true, 1) == amp_add(qft_sum(f, 1, 2, true, 0), root8(f[0], 0)));
    assert(qft_sum(f, 1, 2, true, 2) == amp_add(qft_sum(f, 1, 2, true, 1), root8(f[1], 6)));
    assert(qft_sum(f, 1, 2, true, 3) == amp_add(qft_sum(f, 1, 2, true, 2), root8(f[2], 4)));
    assert(qft_sum(f, 1, 2, true, 4) == amp_add(qft_sum(f, 1, 2, true, 3), root8(f[3], 2)));
    assert(qft_sum(f, 2, 2, true, 0) == amp_zero());
    assert(qft_sum(f, 2, 2, true, 1) == amp_add(qft_sum(f, 2, 2, true, 0), root8(f[0], 0)));
    assert(qft_sum(f, 2, 2, true, 2) == amp_add(qft_sum(f, 2, 2, true, 1), root8(f[1], 4)));
    assert(qft_sum(f, 2, 2, true, 3) == amp_add(qft_sum(f, 2, 2, true, 2), root8(f[2], 0)));
    assert(qft_sum(f, 2, 2, true, 4) == amp_add(qft_sum(f, 2, 2, true, 3), root8(f[3], 4)));
    assert(qft_sum(f, 3, 2, true, 0) == amp_zero());
    assert(qft_sum(f, 3, 2, true, 1) == amp_add(qft_sum(f, 3, 2, true, 0), root8(f[0], 0)));
    assert(qft_sum(f, 3, 2, true, 2) == amp_add(qft_sum(f, 3, 2, true, 1), root8(f[1], 2)));
    assert(qft_sum(f, 3, 2, true, 3) == amp_add(qft_sum(f, 3, 2, true, 2), root8(f[2], 4)));
    assert(qft_sum(f, 3, 2, true, 4) == amp_add(qft_sum(f, 3, 2, true, 3), root8(f[3], 6)));
    let back = model_qft(fwd, true);
    let g = back.nums;
    assert(g[0] == qft_sum(f, 0, 2, true, 4));
    assert(g[1] == qft_sum(f, 1, 2, true, 4));
    assert(g[2] == qft_sum(f, 2, 2, true, 4));
    assert(g[3] == qft_sum(f, 3, 2, true, 4));
    assert(g[0] == amp_scale(8, s[0]));
    assert(g[1] == amp_scale(8, s[1]));
    assert(g[2] == amp_scale(8, s[2]));
    assert(g[3] == amp_scale(8, s[3]));
    assert(back.rt == m.rt + 6);
    assert(back.den == m.den);
    lemma_scale8_rt6(s[0], m.den, m.rt);
    lemma_scale8_rt6(s[1], m.den, m.rt);
    lemma_scale8_rt6(s[2], m.den, m.rt);
    lemma_scale8_rt6(s[3], m.den, m.rt);
    assert forall|k: int| 0 <= k < back.nums.len() implies crate::laws::amp_value_eq(
        #[trigger] back.nums[k],
        back.den,
        back.rt,
        m.nums[k],
        m.den,
        m.rt,
    ) by {
        if k == 0 {
        } else if k == 1 {
        } else if k == 2 {
        } else {
            assert(k == 3);
        }
    }
}

/// Sixteenfold coordinates with eight more `sqrt(2)` factors denote the
/// same amplitude.
proof fn lemma_scale16_rt8(x: AmpValue, d: int, r: nat)
    ensures
        crate::laws::amp_value_eq(amp_scale(16, x), d, (r + 8) as nat, x, d, r),
{
    vstd::arithmetic::div_mod::lemma_fundamental_div_mod(r as int, 2);
    vstd::arithmetic::div_mod::lemma_fundamental_div_mod_converse_div(
        r as int + 8,
        2,
        (r / 2) as int + 4,
        (r % 2) as int,
    );
    assert((r + 8) as nat / 2 == r / 2 + 4);
    assert(((r + 8) as nat) % 2 == r % 2) by {
        vstd::arithmetic::div_mod::lemma_mod_multiples_vanish(4, r as int, 2);
    }
    lemma_pow2_unfold((r / 2 + 1) as nat);
    lemma_pow2_unfold((r / 2 + 2) as nat);
    lemma_pow2_unfold((r / 2 + 3) as nat);
    lemma_pow2_unfold((r / 2 + 4) as nat);
    let p = pow2((r / 2) as nat) as int;
    assert(pow2((r / 2 + 4) as nat) == 16 * p);
    if r % 2 == 1 {
        assert(amp_mul_sqrt2(amp_scale(16, x)) == amp_scale(16, amp_mul_sqrt2(x)));
        crate::amplitude::lemma_scale_compose(d * p, 16, amp_mul_sqrt2(x));
        assert(d * (16 * p) == (d * p) * 16) by (nonlinear_arith);
    } else {
        crate::amplitude::lemma_scale_compose(d * p, 16, x);
        assert(d * (16 * p) == (d * p) * 16) by (nonlinear_arith);
    }
}

/// The round trip on three qubits, by direct expansion of all sixty-four
/// terms of each direction.
#[verifier::rlimit(100)]
pub proof fn lemma_qft_round_trip_three_qubits(m: StateModel)
    requires
        state_wf(m),
        m.qubits == 3,
    ensures
        crate::laws::states_equiv(model_qft(model_qft(m, false), true), m),
{
    lemma2_to64();
    let s = m.nums;
    assert(s.len() == 8) by {
        assert(pow2(3) == 8);
    }
    let fwd = model_qft(m, false);
    let f = fwd.nums;
    assert(pow2(0) == 1);
    assert(phase_exp(0, 0, 3, false) == 0) by (nonlinear_arith)
        requires
            pow2(0) == 1,
    ;
    assert(phase_exp(1, 0, 3, false) == 0) by (nonlinear_arith)
        requires
            pow2(0) == 1,
    ;
    assert(phase_exp(2, 0, 3, false) == 0) by (nonlinear_arith)
        requires
            pow2(0) == 1,
    ;
    assert(phase_exp(3, 0, 3, false) == 0) by (nonlinear_arith)
        requires
            pow2(0) == 1,
    ;
    assert(phase_exp(4, 0, 3, false) == 0) by (nonlinear_arith)
        requires
            pow2(0) == 1,
    ;
    assert(phase_exp(5, 0, 3, false) == 0) by (nonlinear_arith)
        requires
            pow2(0) == 1,
    ;
    assert(phase_exp(6, 0, 3, false) == 0) by (nonlinear_arith)
        requires
            pow2(0) == 1,
    ;
    assert(phase_exp(7, 0, 3, false) == 0) by (nonlinear_arith)
        requires
            pow2(0) == 1,
    ;
    assert(phase_exp(0, 1, 3, false) == 0) by (nonlinear_arith)
        requires
            pow2(0) == 1,
    ;
    assert(phase_exp(1, 1, 3, false) == 1) by (nonlinear_arith)
        requires
            pow2(0) == 1,
    ;
    assert(phase_exp(2, 1, 3, false) == 2) by (nonlinear_arith)
        requires
            pow2(0) == 1,
    ;
    assert(phase_exp(3, 1, 3, false) == 3) by (nonlinear_arith)
        requires
            pow2(0) == 1,
    ;
    assert(phase_exp(4, 1, 3, false) == 4) by (nonlinear_arith)
        requires
            pow2(0) == 1,
    ;
    assert(phase_exp(5, 1, 3, false) == 5) by (nonlinear_arith)
        requires
            pow2(0) == 1,
    ;
    assert(phase_exp(6, 1, 3, false) == 6) by (nonlinear_arith)
        requires
            pow2(0) == 1,
    ;
    assert(phase_exp(7, 1, 3, false) == 7) by (nonlinear_arith)
        requires
            pow2(0) == 1,
    ;
    assert(phase_exp(0, 2, 3, false) == 0) by (nonlinear_arith)
        requires
            pow2(0) == 1,
    ;
    assert(phase_exp(1, 2, 3, false) == 2) by (nonlinear_arith)
        requires
            pow2(0) == 1,
    ;
    assert(phase_exp(2, 2, 3, false) == 4) by (nonlinear_arith)
        requires
            pow2(0) == 1,
    ;
    assert(phase_exp(3, 2, 3, false) == 6) by (nonlinear_arith)
        requires
            pow2(0) == 1,
    ;
    assert(phase_exp(4, 2, 3, false) == 0) by (nonlinear_arith)
        requires
            pow2(0) == 1,
    ;
    assert(phase_exp(5, 2, 3, false) == 2) by (nonlinear_arith)
        requires
            pow2(0) == 1,
    ;
    assert(phase_exp(6, 2, 3, false) == 4) by (nonlinear_arith)
        requires
            pow2(0) == 1,
    ;
    assert(phase_exp(7, 2, 3, false) == 6) by (nonlinear_arith)
        requires
            pow2(0) == 1,
    ;
    assert(phase_exp(0, 3, 3, false) == 0) by (nonlinear_arith)
        requires
            pow2(0) == 1,
    ;
    assert(phase_exp(1, 3, 3, false) == 3) by (nonlinear_arith)
        requires
            pow2(0) == 1,
    ;
    assert(phase_exp(2, 3, 3, false) == 6) by (nonlinear_arith)
        requires
            pow2(0) == 1,
    ;
    assert(phase_exp(3, 3, 3, false) == 1) by (nonlinear_arith)
        requires
            pow2(0) == 1,
    ;
    assert(phase_exp(4, 3, 3, false) == 4) by (nonlinear_arith)
        requires
            pow2(0) == 1,
    ;
    assert(phase_exp(5, 3, 3, false) == 7) by (nonlinear_arith)
        requires
            pow2(0) == 1,
    ;
    assert(phase_exp(6, 3, 3, false) == 2) by (nonlinear_arith)
        requires
            pow2(0) == 1,
    ;
    assert(phase_exp(7, 3, 3, false) == 5) by (nonlinear_arith)
        requires
            pow2(0) == 1,
    ;
    assert(phase_exp(0, 4, 3, false) == 0) by (nonlinear_arith)
        requires
            pow2(0) == 1,
    ;
    assert(phase_exp(1, 4, 3, false) == 4) by (nonlinear_arith)
        requires
            pow2(0) == 1,
    ;
    assert(phase_exp(2, 4, 3, false) == 0) by (nonlinear_arith)
        requires
            pow2(0) == 1,
    ;
    assert(phase_exp(3, 4, 3, false) == 4) by (nonlinear_arith)
        requires
            pow2(0) == 1,
    ;
    assert(phase_exp(4, 4, 3, false) == 0) by (nonlinear_arith)
        requires
            pow2(0) == 1,
    ;
    assert(phase_exp(5, 4, 3, false) == 4) by (nonlinear_arith)
        requires
            pow2(0) == 1,
    ;
    assert(phase_exp(6, 4, 3, false) == 0) by (nonlinear_arith)
        requires
            pow2(0) == 1,
    ;
    assert(phase_exp(7, 4, 3, false) == 4) by (nonlinear_arith)
        requires
            pow2(0) == 1,
    ;
    assert(phase_exp(0, 5, 3, false) == 0) by (nonlinear_arith)
        requires
            pow2(0) == 1,
    ;
    assert(phase_exp(1, 5, 3, false) == 5) by (nonlinear_arith)
        requires
            pow2(0) == 1,
    ;
    assert(phase_exp(2, 5, 3, false) == 2) by (nonlinear_arith)
        requires
            pow2(0) == 1,
    ;
    assert(phase_exp(3, 5, 3, false) == 7) by (nonlinear_arith)
        requires
            pow2(0) == 1,
    ;
    assert(phase_exp(4, 5, 3, false) == 4) by (nonlinear_arith)
        requires
            pow2(0) == 1,
    ;
    assert(phase_exp(5, 5, 3, false) == 1) by (nonlinear_arith)
        requires
            pow2(0) == 1,
    ;
    assert(phase_exp(6, 5, 3, false) == 6) by (nonlinear_arith)
        requires
            pow2(0) == 1,
    ;
    assert(phase_exp(7, 5, 3, false) == 3) by (nonlinear_arith)
        requires
            pow2(0) == 1,
    ;
    assert(phase_exp(0, 6, 3, false) == 0) by (nonlinear_arith)
        requires
            pow2(0) == 1,
    ;
    assert(phase_exp(1, 6, 3, false) == 6) by (nonlinear_arith)
        requires
            pow2(0) == 1,
    ;
    assert(phase_exp(2, 6, 3, false) == 4) by (nonlinear_arith)
        requires
            pow2(0) == 1,
    ;
    assert(phase_exp(3, 6, 3, false) == 2) by (nonlinear_arith)
        requires
            pow2(0) == 1,
    ;
    assert(phase_exp(4, 6, 3, false) == 0) by (nonlinear_arith)
        requires
            pow2(0) == 1,
    ;
    assert(phase_exp(5, 6, 3, false) == 6) by (nonlinear_arith)
        requires
            pow2(0) == 1,
    ;
    assert(phase_exp(6, 6, 3, false) == 4) by (nonlinear_arith)
        requires
            pow2(0) == 1,
    ;
    assert(phase_exp(7, 6, 3, false) == 2) by (nonlinear_arith)
        requires
            pow2(0) == 1,
    ;
    assert(phase_exp(0, 7, 3, false) == 0) by (nonlinear_arith)
        requires
            pow2(0) == 1,
    ;
    assert(phase_exp(1, 7, 3, false) == 7) by (nonlinear_arith)
        requires
            pow2(0) == 1,
    ;
    assert(phase_exp(2, 7, 3, false) == 6) by (nonlinear_arith)
        requires
            pow2(0) == 1,
    ;
    assert(phase_exp(3, 7, 3, false) == 5) by (nonlinear_arith)
        requires
            pow2(0) == 1,
    ;
    assert(phase_exp(4, 7, 3, false) == 4) by (nonlinear_arith)
        requires
            pow2(0) == 1,
    ;
    assert(phase_exp(5, 7, 3, false) == 3) by (nonlinear_arith)
        requires
            pow2(0) == 1,
    ;
    assert(phase_exp(6, 7, 3, false) == 2) by (nonlinear_arith)
        requires
            pow2(0) == 1,
    ;
    assert(phase_exp(7, 7, 3, false) == 1) by (nonlinear_arith)
        requires
            pow2(0) == 1,
    ;
    assert(phase_exp(0, 0, 3, true) == 0) by (nonlinear_arith)
        requires
            pow2(0) == 1,
    ;
    assert(phase_exp(1, 0, 3, true) == 0) by (nonlinear_arith)
        requires
            pow2(0) == 1,
    ;
    assert(phase_exp(2, 0, 3, true) == 0) by (nonlinear_arith)
        requires
            pow2(0) == 1,
    ;
    assert(phase_exp(3, 0, 3, true) == 0) by (nonlinear_arith)
        requires
            pow2(0) == 1,
    ;
    assert(phase_exp(4, 0, 3, true) == 0) by (nonlinear_arith)
        requires
            pow2(0) == 1,
    ;
    assert(phase_exp(5, 0, 3, true) == 0) by (nonlinear_arith)
        requires
            pow2(0) == 1,
    ;
    assert(phase_exp(6, 0, 3, true) == 0) by (nonlinear_arith)
        requires
            pow2(0) == 1,
    ;
    assert(phase_exp(7, 0, 3, true) == 0) by (nonlinear_arith)
        requires
            pow2(0) == 1,
    ;
    assert(phase_exp(0, 1, 3, true) == 0) by (nonlinear_arith)
        requires
            pow2(0) == 1,
    ;
    assert(phase_exp(1, 1, 3, true) == 7) by (nonlinear_arith)
        requires
            pow2(0) == 1,
    ;
    assert(phase_exp(2, 1, 3, true) == 6) by (nonlinear_arith)
        requires
            pow2(0) == 1,
    ;
    assert(phase_exp(3, 1, 3, true) == 5) by (nonlinear_arith)
        requires
            pow2(0) == 1,
    ;
    assert(phase_exp(4, 1, 3, true) == 4) by (nonlinear_arith)
        requires
            pow2(0) == 1,
    ;
    assert(phase_exp(5, 1, 3, true) == 3) by (nonlinear_arith)
        requires
            pow2(0) == 1,
    ;
    assert(phase_exp(6, 1, 3, true) == 2) by (nonlinear_arith)
        requires
            pow2(0) == 1,
    ;
    assert(phase_exp(7, 1, 3, true) == 1) by (nonlinear_arith)
        requires
            pow2(0) == 1,
    ;
    assert(phase_exp(0, 2, 3, true) == 0) by (nonlinear_arith)
        requires
            pow2(0) == 1,
    ;
    assert(phase_exp(1, 2, 3, true) == 6) by (nonlinear_arith)
        requires
            pow2(0) == 1,
    ;
    assert(phase_exp(2, 2, 3, true) == 4) by (nonlinear_arith)
        requires
            pow2(0) == 1,
    ;
    assert(phase_exp(3, 2, 3, true) == 2) by (nonlinear_arith)
        requires
            pow2(0) == 1,
    ;
    assert(phase_exp(4, 2, 3, true) == 0) by (nonlinear_arith)
        requires
            pow2(0) == 1,
    ;
    assert(phase_exp(5, 2, 3, true) == 6) by (nonlinear_arith)
        requires
            pow2(0) == 1,
    ;
    assert(phase_exp(6, 2, 3, true) == 4) by (nonlinear_arith)
        requires
            pow2(0) == 1,
    ;
    assert(phase_exp(7, 2, 3, true) == 2) by (nonlinear_arith)
        requires
            pow2(0) == 1,
    ;
    assert(phase_exp(0, 3, 3, true) == 0) by (nonlinear_arith)
        requires
            pow2(0) == 1,
    ;
    assert(phase_exp(1, 3, 3, true) == 5) by (nonlinear_arith)
        requires
            pow2(0) == 1,
    ;
    assert(phase_exp(2, 3, 3, true) == 2) by (nonlinear_arith)
        requires
            pow2(0) == 1,
    ;
    assert(phase_exp(3, 3, 3, true) == 7) by (nonlinear_arith)
        requires
            pow2(0) == 1,
    ;
    assert(phase_exp(4, 3, 3, true) == 4) by (nonlinear_arith)
        requires
            pow2(0) == 1,
    ;
    assert(phase_exp(5, 3, 3, true) == 1) by (nonlinear_arith)
        requires
            pow2(0) == 1,
    ;
    assert(phase_exp(6, 3, 3, true) == 6) by (nonlinear_arith)
        requires
            pow2(0) == 1,
    ;
    assert(phase_exp(7, 3, 3, true) == 3) by (nonlinear_arith)
        requires
            pow2(0) == 1,
    ;
    assert(phase_exp(0, 4, 3, true) == 0) by (nonlinear_arith)
        requires
            pow2(0) == 1,
    ;
    assert(phase_exp(1, 4, 3, true) == 4) by (nonlinear_arith)
        requires
            pow2(0) == 1,
    ;
    assert(phase_exp(2, 4, 3, true) == 0) by (nonlinear_arith)
        requires
            pow2(0) == 1,
    ;
    assert(phase_exp(3, 4, 3, true) == 4) by (nonlinear_arith)
        requires
            pow2(0) == 1,
    ;
    assert(phase_exp(4, 4, 3, true) == 0) by (nonlinear_arith)
        requires
            pow2(0) == 1,
    ;
    assert(phase_exp(5, 4, 3, true) == 4) by (nonlinear_arith)
        requires
            pow2(0) == 1,
    ;
    assert(phase_exp(6, 4, 3, true) == 0) by (nonlinear_arith)
        requires
            pow2(0) == 1,
    ;
    assert(phase_exp(7, 4, 3, true) == 4) by (nonlinear_arith)
        requires
            pow2(0) == 1,
    ;
    assert(phase_exp(0, 5, 3, true) == 0) by (nonlinear_arith)
        requires
            pow2(0) == 1,
    ;
    assert(phase_exp(1, 5, 3, true) == 3) by (nonlinear_arith)
        requires
            pow2(0) == 1,
    ;
    assert(phase_exp(2, 5, 3, true) == 6) by (nonlinear_arith)
        requires
            pow2(0) == 1,
    ;
    assert(phase_exp(3, 5, 3, true) == 1) by (nonlinear_arith)
        requires
            pow2(0) == 1,
    ;
    assert(phase_exp(4, 5, 3, true) == 4) by (nonlinear_arith)
        requires
            pow2(0) == 1,
    ;
    assert(phase_exp(5, 5, 3, true) == 7) by (nonlinear_arith)
        requires
            pow2(0) == 1,
    ;
    assert(phase_exp(6, 5, 3, true) == 2) by (nonlinear_arith)
        requires
            pow2(0) == 1,
    ;
    assert(phase_exp(7, 5, 3, true) == 5) by (nonlinear_arith)
        requires
            pow2(0) == 1,
    ;
    assert(phase_exp(0, 6, 3, true) == 0) by (nonlinear_arith)
        requires
            pow2(0) == 1,
    ;
    assert(phase_exp(1, 6, 3, true) == 2) by (nonlinear_arith)
        requires
            pow2(0) == 1,
    ;
    assert(phase_exp(2, 6, 3, true) == 4) by (nonlinear_arith)
        requires
            pow2(0) == 1,
    ;
    assert(phase_exp(3, 6, 3, true) == 6) by (nonlinear_arith)
        requires
            pow2(0) == 1,
    ;
    assert(phase_exp(4, 6, 3, true) == 0) by (nonlinear_arith)
        requires
            pow2(0) == 1,
    ;
    assert(phase_exp(5, 6, 3, true) == 2) by (nonlinear_arith)
        requires
            pow2(0) == 1,
    ;
    assert(phase_exp(6, 6, 3, true) == 4) by (nonlinear_arith)
        requires
            pow2(0) == 1,
    ;
    assert(phase_exp(7, 6, 3, true) == 6) by (nonlinear_arith)
        requires
            pow2(0) == 1,
    ;
    assert(phase_exp(0, 7, 3, true) == 0) by (nonlinear_arith)
        requires
            pow2(0) == 1,
    ;
    assert(phase_exp(1, 7, 3, true) == 1) by (nonlinear_arith)
        requires
            pow2(0) == 1,
    ;
    assert(phase_exp(2, 7, 3, true) == 2) by (nonlinear_arith)
        requires
            pow2(0) == 1,
    ;
    assert(phase_exp(3, 7, 3, true) == 3) by (nonlinear_arith)
        requires
            pow2(0) == 1,
    ;
    assert(phase_exp(4, 7, 3, true) == 4) by (nonlinear_arith)
        requires
            pow2(0) == 1,
    ;
    assert(phase_exp(5, 7, 3, true) == 5) by (nonlinear_arith)
        requires
            pow2(0) == 1,
    ;
    assert(phase_exp(6, 7, 3, true) == 6) by (nonlinear_arith)
        requires
            pow2(0) == 1,
    ;
    assert(phase_exp(7, 7, 3, true) == 7) by (nonlinear_arith)
        requires
            pow2(0) == 1,
    ;
    assert(qft_sum(s, 0, 3, false, 0) == amp_zero());
    assert(qft_sum(s, 0, 3, false, 1) == amp_add(qft_sum(s, 0, 3, false, 0), root8(s[0], 0)));
    assert(qft_sum(s, 0, 3, false, 2) == amp_add(qft_sum(s, 0, 3, false, 1), root8(s[1], 0)));
    assert(qft_sum(s, 0, 3, false, 3) == amp_add(qft_sum(s, 0, 3, false, 2), root8(s[2], 0)));
    assert(qft_sum(s, 0, 3, false, 4) == amp_add(qft_sum(s, 0, 3, false, 3), root8(s[3], 0)));
    assert(qft_sum(s, 0, 3, false, 5) == amp_add(qft_sum(s, 0, 3, false, 4), root8(s[4], 0)));
    assert(qft_sum(s, 0, 3, false, 6) == amp_add(qft_sum(s, 0, 3, false, 5), root8(s[5], 0)));
    assert(qft_sum(s, 0, 3, false, 7) == amp_add(qft_sum(s, 0, 3, false, 6), root8(s[6], 0)));
    assert(qft_sum(s, 0, 3, false, 8) == amp_add(qft_sum(s, 0, 3, false, 7), root8(s[7], 0)));
    assert(f[0] == qft_sum(s, 0, 3, false, 8));
    assert(qft_sum(s, 1, 3, false, 0) == amp_zero());
    assert(qft_sum(s, 1, 3, false, 1) == amp_add(qft_sum(s, 1, 3, false, 0), root8(s[0], 0)));
    assert(qft_sum(s, 1, 3, false, 2) == amp_add(qft_sum(s, 1, 3, false, 1), root8(s[1], 1)));
    assert(qft_sum(s, 1, 3, false, 3) == amp_add(qft_sum(s, 1, 3, false, 2), root8(s[2], 2)));
    assert(qft_sum(s, 1, 3, false, 4) == amp_add(qft_sum(s, 1, 3, false, 3), root8(s[3], 3)));
    assert(qft_sum(s, 1, 3, false, 5) == amp_add(qft_sum(s, 1, 3, false, 4), root8(s[4], 4)));
    assert(qft_sum(s, 1, 3, false, 6) == amp_add(qft_sum(s, 1, 3, false, 5), root8(s[5], 5)));
    assert(qft_sum(s, 1, 3, false, 7) == amp_add(qft_sum(s, 1, 3, false, 6), root8(s[6], 6)));
    assert(qft_sum(s, 1, 3, false, 8) == amp_add(qft_sum(s, 1, 3, false, 7), root8(s[7], 7)));
    assert(f[1] == qft_sum(s, 1, 3, false, 8));
    assert(qft_sum(s, 2, 3, false, 0) == amp_zero());
    assert(qft_sum(s, 2, 3, false, 1) == amp_add(qft_sum(s, 2, 3, false, 0), root8(s[0], 0)));
    assert(qft_sum(s, 2, 3, false, 2) == amp_add(qft_sum(s, 2, 3, false, 1), root8(s[1], 2)));
    assert(qft_sum(s, 2, 3, false, 3) == amp_add(qft_sum(s, 2, 3, false, 2), root8(s[2], 4)));
    assert(qft_sum(s, 2, 3, false, 4) == amp_add(qft_sum(s, 2, 3, false, 3), root8(s[3], 6)));
    assert(qft_sum(s, 2, 3, false, 5) == amp_add(qft_sum(s, 2, 3, false, 4), root8(s[4], 0)));
    assert(qft_sum(s, 2, 3, false, 6) == amp_add(qft_sum(s, 2, 3, false, 5), root8(s[5], 2)));
    assert(qft_sum(s, 2, 3, false, 7) == amp_add(qft_sum(s, 2, 3, false, 6), root8(s[6], 4)));
    assert(qft_sum(s, 2, 3, false, 8) == amp_add(qft_sum(s, 2, 3, false, 7), root8(s[7], 6)));
    assert(f[2] == qft_sum(s, 2, 3, false, 8));
    assert(qft_sum(s, 3, 3, false, 0) == amp_zero());
    assert(qft_sum(s, 3, 3, false, 1) == amp_add(qft_sum(s, 3, 3, false, 0), root8(s[0], 0)));
    assert(qft_sum(s, 3, 3, false, 2) == amp_add(qft_sum(s, 3, 3, false, 1), root8(s[1], 3)));
    assert(qft_sum(s, 3, 3, false, 3) == amp_add(qft_sum(s, 3, 3, false, 2), root8(s[2], 6)));
    assert(qft_sum(s, 3, 3, false, 4) == amp_add(qft_sum(s, 3, 3, false, 3), root8(s[3], 1)));
    assert(qft_sum(s, 3, 3, false, 5) == amp_add(qft_sum(s, 3, 3, false, 4), root8(s[4], 4)));
    assert(qft_sum(s, 3, 3, false, 6) == amp_add(qft_sum(s, 3, 3, false, 5), root8(s[5], 7)));
    assert(qft_sum(s, 3, 3, false, 7) == amp_add(qft_sum(s, 3, 3, false, 6), root8(s[6], 2)));
    assert(qft_sum(s, 3, 3, false, 8) == amp_add(qft_sum(s, 3, 3, false, 7), root8(s[7], 5)));
    assert(f[3] == qft_sum(s, 3, 3, false, 8));
    assert(qft_sum(s, 4, 3, false, 0) == amp_zero());
    assert(qft_sum(s, 4, 3, false, 1) == amp_add(qft_sum(s, 4, 3, false, 0), root8(s[0], 0)));
    assert(qft_sum(s, 4, 3, false, 2) == amp_add(qft_sum(s, 4, 3, false, 1), root8(s[1], 4)));
    assert(qft_sum(s, 4, 3, false, 3) == amp_add(qft_sum(s, 4, 3, false, 2), root8(s[2], 0)));
    assert(qft_sum(s, 4, 3, false, 4) == amp_add(qft_sum(s, 4, 3, false, 3), root8(s[3], 4)));
    assert(qft_sum(s, 4, 3, false, 5) == amp_add(qft_sum(s, 4, 3, false, 4), root8(s[4], 0)));
    assert(qft_sum(s, 4, 3, false, 6) == amp_add(qft_sum(s, 4, 3, false, 5), root8(s[5], 4)));
    assert(qft_sum(s, 4, 3, false, 7) == amp_add(qft_sum(s, 4, 3, false, 6), root8(s[6], 0)));
    assert(qft_sum(s, 4, 3, false, 8) == amp_add(qft_sum(s, 4, 3, false, 7), root8(s[7], 4)));
    assert(f[4] == qft_sum(s, 4, 3, false, 8));
    assert(qft_sum(s, 5, 3, false, 0) == amp_zero());
    assert(qft_sum(s, 5, 3, false, 1) == amp_add(qft_sum(s, 5, 3, false, 0), root8(s[0], 0)));
    assert(qft_sum(s, 5, 3, false, 2) == amp_add(qft_sum(s, 5, 3, false, 1), root8(s[1], 5)));
    assert(qft_sum(s, 5, 3, false, 3) == amp_add(qft_sum(s, 5, 3, false, 2), root8(s[2], 2)));
    assert(qft_sum(s, 5, 3, false, 4) == amp_add(qft_sum(s, 5, 3, false, 3), root8(s[3], 7)));
    assert(qft_sum(s, 5, 3, false, 5) == amp_add(qft_sum(s, 5, 3, false, 4), root8(s[4], 4)));
    assert(qft_sum(s, 5, 3, false, 6) == amp_add(qft_sum(s, 5, 3, false, 5), root8(s[5], 1)));
    assert(qft_sum(s, 5, 3, false, 7) == amp_add(qft_sum(s, 5, 3, false, 6), root8(s[6], 6)));
    assert(qft_sum(s, 5, 3, false, 8) == amp_add(qft_sum(s, 5, 3, false, 7), root8(s[7], 3)));
    assert(f[5] == qft_sum(s, 5, 3, false, 8));
    assert(qft_sum(s, 6, 3, false, 0) == amp_zero());
    assert(qft_sum(s, 6, 3, false, 1) == amp_add(qft_sum(s, 6, 3, false, 0), root8(s[0], 0)));
    assert(qft_sum(s, 6, 3, false, 2) == amp_add(qft_sum(s, 6, 3, false, 1), root8(s[1], 6)));
    assert(qft_sum(s, 6, 3, false, 3) == amp_add(qft_sum(s, 6, 3, false, 2), root8(s[2], 4)));
    assert(qft_sum(s, 6, 3, false, 4) == amp_add(qft_sum(s, 6, 3, false, 3), root8(s[3], 2)));
    assert(qft_sum(s, 6, 3, false, 5) == amp_add(qft_sum(s, 6, 3, false, 4), root8(s[4], 0)));
    assert(qft_sum(s, 6, 3, false, 6) == amp_add(qft_sum(s, 6, 3, false, 5), root8(s[5], 6)));
    assert(qft_sum(s, 6, 3, false, 7) == amp_add(qft_sum(s, 6, 3, false, 6), root8(s[6], 4)));
    assert(qft_sum(s, 6, 3, false, 8) == amp_add(qft_sum(s, 6, 3, false, 7), root8(s[7], 2)));
    assert(f[6] == qft_sum(s, 6, 3, false, 8));
    assert(qft_sum(s, 7, 3, false, 0) == amp_zero());
    assert(qft_sum(s, 7, 3, false, 1) == amp_add(qft_sum(s, 7, 3, false, 0), root8(s[0], 0)));
    assert(qft_sum(s, 7, 3, false, 2) == amp_add(qft_sum(s, 7, 3, false, 1), root8(s[1], 7)));
    assert(qft_sum(s, 7, 3, false, 3) == amp_add(qft_sum(s, 7, 3, false, 2), root8(s[2], 6)));
    assert(qft_sum(s, 7, 3, false, 4) == amp_add(qft_sum(s, 7, 3, false, 3), root8(s[3], 5)));
    assert(qft_sum(s, 7, 3, false, 5) == amp_add(qft_sum(s, 7, 3, false, 4), root8(s[4], 4)));
    assert(qft_sum(s, 7, 3, false, 6) == amp_add(qft_sum(s, 7, 3, false, 5), root8(s[5], 3)));
    assert(qft_sum(s, 7, 3, false, 7) == amp_add(qft_sum(s, 7, 3, false, 6), root8(s[6], 2)));
    assert(qft_sum(s, 7, 3, false, 8) == amp_add(qft_sum(s, 7, 3, false, 7), root8(s[7], 1)));
    assert(f[7] == qft_sum(s, 7, 3, false, 8));
    assert(qft_sum(f, 0, 3, true, 0) == amp_zero());
    assert(qft_sum(f, 0, 3, true, 1) == amp_add(qft_sum(f, 0, 3, true, 0), root8(f[0], 0)));
    assert(qft_sum(f, 0, 3, true, 2) == amp_add(qft_sum(f, 0, 3, true, 1), root8(f[1], 0)));
    assert(qft_sum(f, 0, 3, true, 3) == amp_add(qft_sum(f, 0, 3, true, 2), root8(f[2], 0)));
    assert(qft_sum(f, 0, 3, true, 4) == amp_add(qft_sum(f, 0, 3, true, 3), root8(f[3], 0)));
    assert(qft_sum(f, 0, 3, true, 5) == amp_add(qft_sum(f, 0, 3, true, 4), root8(f[4], 0)));
    assert(qft_sum(f, 0, 3, true, 6) == amp_add(qft_sum(f, 0, 3, true, 5), root8(f[5], 0)));
    assert(qft_sum(f, 0, 3, true, 7) == amp_add(qft_sum(f, 0, 3, true, 6), root8(f[6], 0)));
    assert(qft_sum(f, 0, 3, true, 8) == amp_add(qft_sum(f, 0, 3, true, 7), root8(f[7], 0)));
    assert(qft_sum(f, 1, 3, true, 0) == amp_zero());
    assert(qft_sum(f, 1, 3, true, 1) == amp_add(qft_sum(f, 1, 3, true, 0), root8(f[0], 0)));
    assert(qft_sum(f, 1, 3, true, 2) == amp_add(qft_sum(f, 1, 3, true, 1), root8(f[1], 7)));
    assert(qft_sum(f, 1, 3, true, 3) == amp_add(qft_sum(f, 1, 3, true, 2), root8(f[2], 6)));
    assert(qft_sum(f, 1, 3, true, 4) == amp_add(qft_sum(f, 1, 3, true, 3), root8(f[3], 5)));
    assert(qft_sum(f, 1, 3, true, 5) == amp_add(qft_sum(f, 1, 3, true, 4), root8(f[4], 4)));
    assert(qft_sum(f, 1, 3, true, 6) == amp_add(qft_sum(f, 1, 3, true, 5), root8(f[5], 3)));
    assert(qft_sum(f, 1, 3, true, 7) == amp_add(qft_sum(f, 1, 3, true, 6), root8(f[6], 2)));
    assert(qft_sum(f, 1, 3, true, 8) == amp_add(qft_sum(f, 1, 3, true, 7), root8(f[7], 1)));
    assert(qft_sum(f, 2, 3, true, 0) == amp_zero());
    assert(qft_sum(f, 2, 3, true, 1) == amp_add(qft_sum(f, 2, 3, true, 0), root8(f[0], 0)));
    assert(qft_sum(f, 2, 3, true, 2) == amp_add(qft_sum(f, 2, 3, true, 1), root8(f[1], 6)));
    assert(qft_sum(f, 2, 3, true, 3) == amp_add(qft_sum(f, 2, 3, true, 2), root8(f[2], 4)));
    assert(qft_sum(f, 2, 3, true, 4) == amp_add(qft_sum(f, 2, 3, true, 3), root8(f[3], 2)));
    assert(qft_sum(f, 2, 3, true, 5) == amp_add(qft_sum(f, 2, 3, true, 4), root8(f[4], 0)));
    assert(qft_sum(f, 2, 3, true, 6) == amp_add(qft_sum(f, 2, 3, true, 5), root8(f[5], 6)));
    assert(qft_sum(f, 2, 3, true, 7) == amp_add(qft_sum(f, 2, 3, true, 6), root8(f[6], 4)));
    assert(qft_sum(f, 2, 3, true, 8) == amp_add(qft_sum(f, 2, 3, true, 7), root8(f[7], 2)));
    assert(qft_sum(f, 3, 3, true, 0) == amp_zero());
    assert(qft_sum(f, 3, 3, true, 1) == amp_add(qft_sum(f, 3, 3, true, 0), root8(f[0], 0)));
    assert(qft_sum(f, 3, 3, true, 2) == amp_add(qft_sum(f, 3, 3, true, 1), root8(f[1], 5)));
    assert(qft_sum(f, 3, 3, true, 3) == amp_add(qft_sum(f, 3, 3, true, 2), root8(f[2], 2)));
    assert(qft_sum(f, 3, 3, true, 4) == amp_add(qft_sum(f, 3, 3, true, 3), root8(f[3], 7)));
    assert(qft_sum(f, 3, 3, true, 5) == amp_add(qft_sum(f, 3, 3, true, 4), root8(f[4], 4)));
    assert(qft_sum(f, 3, 3, true, 6) == amp_add(qft_sum(f, 3, 3, true, 5), root8(f[5], 1)));
    assert(qft_sum(f, 3, 3, true, 7) == amp_add(qft_sum(f, 3, 3, true, 6), root8(f[6], 6)));
    assert(qft_sum(f, 3, 3, true, 8) == amp_add(qft_sum(f, 3, 3, true, 7), root8(f[7], 3)));
    assert(qft_sum(f, 4, 3, true, 0) == amp_zero());
    assert(qft_sum(f, 4, 3, true, 1) == amp_add(qft_sum(f, 4, 3, true, 0), root8(f[0], 0)));
    assert(qft_sum(f, 4, 3, true, 2) == amp_add(qft_sum(f, 4, 3, true, 1), root8(f[1], 4)));
    assert(qft_sum(f, 4, 3, true, 3) == amp_add(qft_sum(f, 4, 3, true, 2), root8(f[2], 0)));
    assert(qft_sum(f, 4, 3, true, 4) == amp_add(qft_sum(f, 4, 3, true, 3), root8(f[3], 4)));
    assert(qft_sum(f, 4, 3, true, 5) == amp_add(qft_sum(f, 4, 3, true, 4), root8(f[4], 0)));
    assert(qft_sum(f, 4, 3, true, 6) == amp_add(qft_sum(f, 4, 3, true, 5), root8(f[5], 4)));
    assert(qft_sum(f, 4, 3, true, 7) == amp_add(qft_sum(f, 4, 3, true, 6), root8(f[6], 0)));
    assert(qft_sum(f, 4, 3, true, 8) == amp_add(qft_sum(f, 4, 3, true, 7), root8(f[7], 4)));
    assert(qft_sum(f, 5, 3, true, 0) == amp_zero());
    assert(qft_sum(f, 5, 3, true, 1) == amp_add(qft_sum(f, 5, 3, true, 0), root8(f[0], 0)));
    assert(qft_sum(f, 5, 3, true, 2) == amp_add(qft_sum(f, 5, 3, true, 1), root8(f[1], 3)));
    assert(qft_sum(f, 5, 3, true, 3) == amp_add(qft_sum(f, 5, 3, true, 2), root8(f[2], 6)));
    assert(qft_sum(f, 5, 3, true, 4) == amp_add(qft_sum(f, 5, 3, true, 3), root8(f[3], 1)));
    assert(qft_sum(f, 5, 3, true, 5) == amp_add(qft_sum(f, 5, 3, true, 4), root8(f[4], 4)));
    assert(qft_sum(f, 5, 3, true, 6) == amp_add(qft_sum(f, 5, 3, true, 5), root8(f[5], 7)));
    assert(qft_sum(f, 5, 3, true, 7) == amp_add(qft_sum(f, 5, 3, true, 6), root8(f[6], 2)));
    assert(qft_sum(f, 5, 3, true, 8) == amp_add(qft_sum(f, 5, 3, true, 7), root8(f[7], 5)));
    assert(qft_sum(f, 6, 3, true, 0) == amp_zero());
    assert(qft_sum(f, 6, 3, true, 1) == amp_add(qft_sum(f, 6, 3, true, 0), root8(f[0], 0)));
    assert(qft_sum(f, 6, 3, true, 2) == amp_add(qft_sum(f, 6, 3, true, 1), root8(f[1], 2)));
    assert(qft_sum(f, 6, 3, true, 3) == amp_add(qft_sum(f, 6, 3, true, 2), root8(f[2], 4)));
    assert(qft_sum(f, 6, 3, true, 4) == amp_add(qft_sum(f, 6, 3, true, 3), root8(f[3], 6)));
    assert(qft_sum(f, 6, 3, true, 5) == amp_add(qft_sum(f, 6, 3, true, 4), root8(f[4], 0)));
    assert(qft_sum(f, 6, 3, true, 6) == amp_add(qft_sum(f, 6, 3, true, 5), root8(f[5], 2)));
    assert(qft_sum(f, 6, 3, true, 7) == amp_add(qft_sum(f, 6, 3, true, 6), root8(f[6], 4)));
    assert(qft_sum(f, 6, 3, true, 8) == amp_add(qft_sum(f, 6, 3, true, 7), root8(f[7], 6)));
    assert(qft_sum(f, 7, 3, true, 0) == amp_zero());
    assert(qft_sum(f, 7, 3, true, 1) == amp_add(qft_sum(f, 7, 3, true, 0), root8(f[0], 0)));
    assert(qft_sum(f, 7, 3, true, 2) == amp_add(qft_sum(f, 7, 3, true, 1), root8(f[1], 1)));
    assert(qft_sum(f, 7, 3, true, 3) == amp_add(qft_sum(f, 7, 3, true, 2), root8(f[2], 2)));
    assert(qft_sum(f, 7, 3, true, 4) == amp_add(qft_sum(f, 7, 3, true, 3), root8(f[3], 3)));
    assert(qft_sum(f, 7, 3, true, 5) == amp_add(qft_sum(f, 7, 3, true, 4), root8(f[4], 4)));
    assert(qft_sum(f, 7, 3, true, 6) == amp_add(qft_sum(f, 7, 3, true, 5), root8(f[5], 5)));
    assert(qft_sum(f, 7, 3, true, 7) == amp_add(qft_sum(f, 7, 3, true, 6), root8(f[6], 6)));
    assert(qft_sum(f, 7, 3, true, 8) == amp_add(qft_sum(f, 7, 3, true, 7), root8(f[7], 7)));
    let back = model_qft(fwd, true);
    let g = back.nums;
    assert(g[0] == qft_sum(f, 0, 3, true, 8));
    assert(g[1] == qft_sum(f, 1, 3, true, 8));
    assert(g[2] == qft_sum(f, 2, 3, true, 8));
    assert(g[3] == qft_sum(f, 3, 3, true, 8));
    assert(g[4] == qft_sum(f, 4, 3, true, 8));
    assert(g[5] == qft_sum(f, 5, 3, true, 8));
    assert(g[6] == qft_sum(f, 6, 3, true, 8));
    assert(g[7] == qft_sum(f, 7, 3, true, 8));
    assert(g[0] == amp_scale(16, s[0]));
    assert(g[1] == amp_scale(16, s[1]));
    assert(g[2] == amp_scale(16, s[2]));
    assert(g[3] == amp_scale(16, s[3]));
    assert(g[4] == amp_scale(16, s[4]));
    assert(g[5] == amp_scale(16, s[5]));
    assert(g[6] == amp_scale(16, s[6]));
    assert(g[7] == amp_scale(16, s[7]));
    assert(back.rt == m.rt + 8);
    assert(back.den == m.den);
    lemma_scale16_rt8(s[0], m.den, m.rt);
    lemma_scale16_rt8(s[1], m.den, m.rt);
    lemma_scale16_rt8(s[2], m.den, m.rt);
    lemma_scale16_rt8(s[3], m.den, m.rt);
    lemma_scale16_rt8(s[4], m.den, m.rt);
    lemma_scale16_rt8(s[5], m.den, m.rt);
    lemma_scale16_rt8(s[6], m.den, m.rt);
    lemma_scale16_rt8(s[7], m.den, m.rt);
    assert forall|k: int| 0 <= k < back.nums.len() implies crate::laws::amp_value_eq(
        #[trigger] back.nums[k],
        back.den,
        back.rt,
        m.nums[k],
        m.den,
        m.rt,
    ) by {
        if k == 0 {
        } else if k == 1 {
        } else if k == 2 {
        } else if k == 3 {
        } else if k == 4 {
        } else if k == 5 {
        } else if k == 6 {
        } else {
            assert(k == 7);
        }
    }
}

/// The Fourier round trip: for every state the exact transform accepts
/// (one to three qubits), the inverse transform of the transform denotes
/// the original state, amplitude by amplitude.
pub proof fn lemma_qft_round_trip(m: StateModel)
    requires
        state_wf(m),
        m.qubits <= 3,
    ensures
        crate::laws::states_equiv(model_qft(model_qft(m, false), true), m),
{
    if m.qubits == 1 {
        lemma_qft_round_trip_one_qubit(m);
    } else if m.qubits == 2 {
        lemma_qft_round_trip_two_qubits(m);
    } else {
        lemma_qft_round_trip_three_qubits(m);
    }
}

} // verus!
