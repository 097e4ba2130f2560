//! Grover search: oracle phase flip and inversion about the mean, on the
//! exact state vector.
//!
//! The diffusion step `2*mean - amp` is kept exact by scaling through with
//! `2^(n-1)`: the new coordinates are `total - 2^(n-1) * amp`, and the
//! scale absorbs `sqrt(2)^(2(n-1))`.

use vstd::prelude::*;
use crate::amplitude::{Amp, amp_sub, amp_neg, amp_scale, norm_p, norm_q,
    in_limit, lemma_neg_norm, COORD_LIMIT};
use crate::state::{StateVector, StateModel, QuantumError, Probability, state_wf, is_unit,
    amp_total, lemma_total_prefix_step, lemma_sum_ones, lemma_sum_pointwise, pow2_exec,
    MAX_QUBITS};

verus! {

use vstd::arithmetic::power2::{pow2, lemma_pow2_strictly_increases, lemma2_to64};

/// Oracle at the model level: the marked amplitude changes sign.
pub open spec fn model_oracle(m: StateModel, marked: int) -> StateModel {
    StateModel {
        nums: m.nums.update(marked, amp_neg(m.nums[marked])),
        den: m.den,
        rt: m.rt,
        qubits: m.qubits,
    }
}

/// Diffusion at the model level: every amplitude `a` becomes
/// `total - 2^(n-1) * a` and the scale gains `2(n-1)` factors of `sqrt(2)`.
pub open spec fn model_diffuse(m: StateModel) -> StateModel {
    StateModel {
        nums: Seq::new(
            m.nums.len(),
            |i: int| amp_sub(amp_total(m.nums), amp_scale(pow2((m.qubits - 1) as nat) as int, m.nums[i])),
        ),
        den: m.den,
        rt: (m.rt + 2 * (m.qubits - 1)) as nat,
        qubits: m.qubits,
    }
}

/// The diffusion update stays within the coordinate range and the scale
/// exponent does not exhaust its 32 bits.
pub open spec fn fits_diffuse(m: StateModel) -> bool {
    &&& m.rt + 2 * (m.qubits - 1) <= u32::MAX
    &&& forall|i: int| 0 <= i < m.nums.len() ==> in_limit(#[trigger] model_diffuse(m).nums[i])
}

/// One Grover iteration (oracle then diffusion), `k` times, at the model
/// level.
pub open spec fn grover_run(m: StateModel, marked: int, k: nat) -> StateModel
    decreases k,
{
    if k == 0 {
        m
    } else {
        model_diffuse(model_oracle(grover_run(m, marked, (k - 1) as nat), marked))
    }
}

/// Every diffusion along the run stays within the coordinate range.
pub open spec fn grover_fits(m: StateModel, marked: int, k: nat) -> bool
    decreases k,
{
    if k == 0 {
        true
    } else {
        grover_fits(m, marked, (k - 1) as nat) && fits_diffuse(
            model_oracle(grover_run(m, marked, (k - 1) as nat), marked),
        )
    }
}

/// `floor(pi/4 * sqrt(2^n))`, the canonical Grover iteration count, for
/// every supported qubit count.
pub open spec fn spec_grover_iters(n: nat) -> nat {
    seq![
        1nat, 1, 2, 3, 4, 6, 8, 12, 17, 25, 35, 50, 71, 100, 142, 201, 284, 402, 568, 804, 1137,
        1608, 2274, 3216, 4549, 6433, 9099, 12867, 18198, 25735,
    ][n - 1]
}

/// The Grover simulation: a state vector prepared in the uniform
/// superposition.
#[derive(Debug)]
pub struct GroverSim {
    state: StateVector,
}

impl GroverSim {
    /// The underlying exact state.
    pub closed spec fn view_state(&self) -> StateModel {
        self.state@
    }

    /// Shape invariant inherited from the state vector.
    pub open spec fn wf(&self) -> bool {
        state_wf(self.view_state())
    }

    /// The uniform superposition over `2^n` basis states: every coordinate
    /// one over the scale `sqrt(2)^n`; total probability is exactly one.
    ///
    /// Fails with `InvalidDimension` exactly when `num_qubits` is zero or
    /// exceeds `MAX_QUBITS`.
    pub fn new(num_qubits: usize) -> (r: Result<GroverSim, QuantumError>)
        ensures
            match r {
                Ok(g) => {
                    &&& g.wf()
                    &&& is_unit(g.view_state())
                    &&& g.view_state().qubits == num_qubits as nat
                    &&& g.view_state().den == 1
                    &&& g.view_state().rt == num_qubits as nat
                    &&& g.view_state().nums.len() == pow2(num_qubits as nat)
                    &&& forall|i: int|
                        0 <= i < g.view_state().nums.len() ==> #[trigger] g.view_state().nums[i]
                            == crate::amplitude::amp_one()
                },
                Err(e) => {
                    &&& e == QuantumError::InvalidDimension
                    &&& (num_qubits == 0 || num_qubits > MAX_QUBITS)
                },
            },
    {
        if num_qubits == 0 || num_qubits > MAX_QUBITS {
            return Err(QuantumError::InvalidDimension);
        }
        let size_u64 = pow2_exec(num_qubits as u32);
        proof {
            lemma_pow2_strictly_increases(num_qubits as nat, 31);
            lemma2_to64();
        }
        let size: usize = size_u64 as usize;
        let mut amplitudes: Vec<Amp> = Vec::new();
        let mut i: usize = 0;
        while i < size
            invariant
                i <= size,
                amplitudes@.len() == i,
                forall|j: int| 0 <= j < i ==> #[trigger] amplitudes@[j]@
                    == crate::amplitude::amp_one(),
            decreases size - i,
        {
            amplitudes.push(Amp::one());
            i = i + 1;
        }
        let s = StateVector::from_raw(amplitudes, num_qubits, 1, num_qubits as u32);
        proof {
            lemma_sum_ones(s@.nums);
            vstd::arithmetic::mul::lemma_mul_basics(pow2(num_qubits as nat) as int);
        }
        Ok(GroverSim { state: s })
    }

    /// Number of basis states.
    pub fn dimension(&self) -> (d: usize)
        requires
            self.wf(),
        ensures
            d as nat == self.view_state().nums.len(),
    {
        self.state.dimension()
    }

    /// The exact squared magnitude of the amplitude at `index`.
    pub fn probability(&self, index: usize) -> (r: Result<Probability, QuantumError>)
        requires
            self.wf(),
        ensures
            match r {
                Ok(pr) => {
                    &&& index < self.view_state().nums.len()
                    &&& pr.p == norm_p(self.view_state().nums[index as int])
                    &&& pr.q == norm_q(self.view_state().nums[index as int])
                    &&& pr.den == self.view_state().den
                    &&& pr.exp == self.view_state().rt
                },
                Err(e) => {
                    &&& e == QuantumError::IndexOutOfRange
                    &&& index >= self.view_state().nums.len()
                },
            },
    {
        self.state.probability(index)
    }

    /// Oracle: flips the sign of the marked amplitude; total probability
    /// is untouched.
    ///
    /// Fails with `IndexOutOfRange` exactly when `marked` is at or above
    /// `2^n`; on failure the state is untouched.
    pub fn oracle(&mut self, marked: usize) -> (r: Result<(), QuantumError>)
        requires
            old(self).wf(),
        ensures
            final(self).wf(),
            match r {
                Ok(()) => {
                    &&& (marked as int) < old(self).view_state().nums.len()
                    &&& final(self).view_state() == model_oracle(
                        old(self).view_state(),
                        marked as int,
                    )
                    &&& (is_unit(old(self).view_state()) ==> is_unit(final(self).view_state()))
                },
                Err(e) => {
                    &&& *final(self) == *old(self)
                    &&& e == QuantumError::IndexOutOfRange
                    &&& (marked as int) >= old(self).view_state().nums.len()
                },
            },
    {
        let size = self.state.dimension();
        if marked >= size {
            return Err(QuantumError::IndexOutOfRange);
        }
        let ghost s = self.state@.nums;
        let mut out: Vec<Amp> = Vec::new();
        let mut i: usize = 0;
        while i < size
            invariant
                i <= size,
                self.state.wf(),
                s == self.state@.nums,
                marked < size,
                size == self.state@.nums.len(),
                out@.len() == i,
                forall|k: int| 0 <= k < i ==> #[trigger] out@[k]@ == s.update(
                    marked as int,
                    amp_neg(s[marked as int]),
                )[k],
                forall|k: int| 0 <= k < i ==> in_limit(#[trigger] out@[k]@),
            decreases size - i,
        {
            if i == marked {
                out.push(self.state.amp_at(i).neg());
            } else {
                out.push(self.state.amp_at(i));
            }
            i = i + 1;
        }
        self.state.install(out, 0);
        proof {
            let m1 = model_oracle(old(self).view_state(), marked as int);
            assert(self.state@.nums =~= m1.nums);
            assert(self.state@ =~= m1);
            if is_unit(old(self).view_state()) {
                lemma_neg_norm(s[marked as int]);
                lemma_sum_pointwise(m1.nums, s);
            }
        }
        Ok(())
    }

    /// Diffusion: inversion about the mean, exactly.
    ///
    /// Fails with `AmplitudeOverflow` exactly when the scaled update
    /// leaves the coordinate range; on failure the state is untouched.
    pub fn diffuse(&mut self) -> (r: Result<(), QuantumError>)
        requires
            old(self).wf(),
        ensures
            final(self).wf(),
            match r {
                Ok(()) => {
                    &&& fits_diffuse(old(self).view_state())
                    &&& final(self).view_state() == model_diffuse(old(self).view_state())
                },
                Err(e) => {
                    &&& *final(self) == *old(self)
                    &&& e == QuantumError::AmplitudeOverflow
                    &&& !fits_diffuse(old(self).view_state())
                },
            },
    {
        let size = self.state.dimension();
        let n = self.state.num_qubits();
        let rt = self.state.scale_rt();
        if (u32::MAX - rt) as u64 / 2 < (n - 1) as u64 {
            proof {
                assert(!fits_diffuse(self.view_state()));
            }
            return Err(QuantumError::AmplitudeOverflow);
        }
        proof {
            lemma2_to64();
            if (self.state@.qubits as nat) < 30 {
                lemma_pow2_strictly_increases(self.state@.qubits, 30);
            }
        }
        let ghost s = self.state@.nums;
        // coordinatewise total over all amplitudes
        let mut ta: i128 = 0;
        let mut tb: i128 = 0;
        let mut tc: i128 = 0;
        let mut td: i128 = 0;
        let mut i: usize = 0;
        proof {
            assert(amp_total(s.subrange(0, 0)) == crate::amplitude::amp_zero());
        }
        while i < size
            invariant
                i <= size,
                self.state.wf(),
                s == self.state@.nums,
                size == self.state@.nums.len(),
                size <= 0x4000_0000,
                ta == amp_total(s.subrange(0, i as int)).a,
                tb == amp_total(s.subrange(0, i as int)).b,
                tc == amp_total(s.subrange(0, i as int)).c,
                td == amp_total(s.subrange(0, i as int)).d,
                -(i as int) * (COORD_LIMIT as int) <= ta <= (i as int) * (COORD_LIMIT as int),
                -(i as int) * (COORD_LIMIT as int) <= tb <= (i as int) * (COORD_LIMIT as int),
                -(i as int) * (COORD_LIMIT as int) <= tc <= (i as int) * (COORD_LIMIT as int),
                -(i as int) * (COORD_LIMIT as int) <= td <= (i as int) * (COORD_LIMIT as int),
            decreases size - i,
        {
            let a = self.state.amp_at(i);
            proof {
                lemma_total_prefix_step(s, i as int);
                lemma_step_bound(i as int, ta as int, a@.a);
                lemma_step_bound(i as int, tb as int, a@.b);
                lemma_step_bound(i as int, tc as int, a@.c);
                lemma_step_bound(i as int, td as int, a@.d);
            }
            ta = ta + (a.a as i128);
            tb = tb + (a.b as i128);
            tc = tc + (a.c as i128);
            td = td + (a.d as i128);
            i = i + 1;
        }
        proof {
            assert(s.subrange(0, size as int) =~= s);
        }
        let half_u64 = pow2_exec((n - 1) as u32);
        proof {
            lemma_pow2_strictly_increases((n - 1) as nat, 31);
            lemma2_to64();
        }
        let c: i128 = half_u64 as i128;
        let ghost tot = amp_total(s);
        let ghost scale = pow2((self.state@.qubits - 1) as nat) as int;
        let mut out: Vec<Amp> = Vec::new();
        let mut k: usize = 0;
        while k < size
            invariant
                k <= size,
                self.state.wf(),
                s == self.state@.nums,
                size == self.state@.nums.len(),
                ta == tot.a,
                tb == tot.b,
                tc == tot.c,
                td == tot.d,
                tot == amp_total(s),
                -0x4000_0000 * (COORD_LIMIT as int) <= ta <= 0x4000_0000 * (COORD_LIMIT as int),
                -0x4000_0000 * (COORD_LIMIT as int) <= tb <= 0x4000_0000 * (COORD_LIMIT as int),
                -0x4000_0000 * (COORD_LIMIT as int) <= tc <= 0x4000_0000 * (COORD_LIMIT as int),
                -0x4000_0000 * (COORD_LIMIT as int) <= td <= 0x4000_0000 * (COORD_LIMIT as int),
                c == scale,
                scale == pow2((self.state@.qubits - 1) as nat) as int,
                1 <= c <= 0x2000_0000,
                out@.len() == k,
                forall|j: int| 0 <= j < k ==> #[trigger] out@[j]@ == amp_sub(
                    tot,
                    amp_scale(scale, s[j]),
                ),
                forall|j: int| 0 <= j < k ==> in_limit(#[trigger] out@[j]@),
            decreases size - k,
        {
            let a = self.state.amp_at(k);
            proof {
                lemma_scale_term_bound(c as int, a@.a);
                lemma_scale_term_bound(c as int, a@.b);
                lemma_scale_term_bound(c as int, a@.c);
                lemma_scale_term_bound(c as int, a@.d);
            }
            let va = ta - c * (a.a as i128);
            let vb = tb - c * (a.b as i128);
            let vc = tc - c * (a.c as i128);
            let vd = td - c * (a.d as i128);
            let lim = COORD_LIMIT as i128;
            if -lim <= va && va <= lim && -lim <= vb && vb <= lim && -lim <= vc && vc <= lim
                && -lim <= vd && vd <= lim {
                out.push(Amp { a: va as i64, b: vb as i64, c: vc as i64, d: vd as i64 });
            } else {
                proof {
                    assert(!in_limit(model_diffuse(old(self).view_state()).nums[k as int]));
                }
                return Err(QuantumError::AmplitudeOverflow);
            }
            k = k + 1;
        }
        self.state.install(out, 2 * (n as u32 - 1));
        proof {
            let m1 = model_diffuse(old(self).view_state());
            assert(self.state@.nums =~= m1.nums);
            assert(self.state@ =~= m1);
        }
        Ok(())
    }

    /// The canonical iteration count `floor(pi/4 * sqrt(2^n))`.
    ///
    /// The values are exact for every supported qubit count and agree with
    /// a floating-point evaluation of the formula.
    pub fn iterations(&self) -> (r: usize)
        requires
            self.wf(),
        ensures
            r as nat == spec_grover_iters(self.view_state().qubits),
    {
        grover_iterations(self.state.num_qubits())
    }

    /// Runs `spec_grover_iters(n)` oracle-plus-diffusion rounds against
    /// the marked index.
    ///
    /// Fails with `IndexOutOfRange` exactly when `marked` is at or above
    /// `2^n`, before any mutation; fails with `AmplitudeOverflow` when an
    /// iteration leaves the coordinate range, in which case the state
    /// holds the last completed round.
    pub fn run(&mut self, marked: usize) -> (r: Result<(), QuantumError>)
        requires
            old(self).wf(),
        ensures
            final(self).wf(),
            match r {
                Ok(()) => {
                    &&& (marked as int) < old(self).view_state().nums.len()
                    &&& grover_fits(
                        old(self).view_state(),
                        marked as int,
                        spec_grover_iters(old(self).view_state().qubits),
                    )
                    &&& final(self).view_state() == grover_run(
                        old(self).view_state(),
                        marked as int,
                        spec_grover_iters(old(self).view_state().qubits),
                    )
                },
                Err(e) => {
                    &&& (e == QuantumError::IndexOutOfRange || e
                        == QuantumError::AmplitudeOverflow)
                    &&& (e == QuantumError::IndexOutOfRange <==> (marked as int) >= old(
                        self,
                    ).view_state().nums.len())
                    &&& (e == QuantumError::IndexOutOfRange ==> *final(self) == *old(self))
                    &&& (e == QuantumError::AmplitudeOverflow ==> !grover_fits(
                        old(self).view_state(),
                        marked as int,
                        spec_grover_iters(old(self).view_state().qubits),
                    ) && (exists|j: nat|
                        {
                            &&& j <= spec_grover_iters(old(self).view_state().qubits)
                            &&& final(self).view_state() == grover_run(
                                old(self).view_state(),
                                marked as int,
                                j,
                            )
                        }))
                },
            },
    {
        let size = self.state.dimension();
        if marked >= size {
            return Err(QuantumError::IndexOutOfRange);
        }
        let iters = grover_iterations(self.state.num_qubits());
        let ghost m0 = self.view_state();
        let mut it: usize = 0;
        while it < iters
            invariant
                it <= iters,
                self.wf(),
                marked < size,
                size == m0.nums.len(),
                self.view_state().nums.len() == m0.nums.len(),
                self.view_state().qubits == m0.qubits,
                iters as nat == spec_grover_iters(m0.qubits),
                state_wf(m0),
                m0 == old(self).view_state(),
                self.view_state() == grover_run(m0, marked as int, it as nat),
                grover_fits(m0, marked as int, it as nat),
            decreases iters - it,
        {
            let ghost pre = self.view_state();
            match self.oracle(marked) {
                Ok(()) => {},
                Err(_) => {
                    proof {
                        assert(false);
                    }
                },
            }
            match self.diffuse() {
                Ok(()) => {},
                Err(_) => {
                    proof {
                        assert(!fits_diffuse(model_oracle(pre, marked as int)));
                        lemma_grover_fits_prefix(m0, marked as int, it as nat,
                            spec_grover_iters(m0.qubits));
                        assert(!grover_fits(m0, marked as int, spec_grover_iters(m0.qubits)));
                        assert(m0 == old(self).view_state());
                        assert((marked as int) < old(self).view_state().nums.len());
                    }
                    // undo the pending oracle flip, back to the last whole round
                    match self.oracle(marked) {
                        Ok(()) => {},
                        Err(_) => {
                            proof {
                                assert(false);
                            }
                        },
                    }
                    proof {
                        lemma_oracle_involution(pre, marked as int);
                        assert(self.view_state() == grover_run(m0, marked as int, it as nat));
                        assert((it as nat) <= spec_grover_iters(m0.qubits));
                    }
                    return Err(QuantumError::AmplitudeOverflow);
                },
            }
            it = it + 1;
        }
        Ok(())
    }
}


/// Two oracle flips at the same index cancel exactly.
pub proof fn lemma_oracle_involution(m: StateModel, marked: int)
    requires
        0 <= marked < m.nums.len(),
    ensures
        model_oracle(model_oracle(m, marked), marked) == m,
{
    assert(model_oracle(model_oracle(m, marked), marked).nums =~= m.nums);
    assert(model_oracle(model_oracle(m, marked), marked) =~= m);
}

/// Adding one bounded coordinate to a bounded partial total stays in range.
proof fn lemma_step_bound(i: int, t: int, x: int)
    by (nonlinear_arith)
    requires
        i >= 0,
        -i * (COORD_LIMIT as int) <= t <= i * (COORD_LIMIT as int),
        -(COORD_LIMIT as int) <= x <= COORD_LIMIT as int,
    ensures
        -(i + 1) * (COORD_LIMIT as int) <= t + x <= (i + 1) * (COORD_LIMIT as int),
{
}

/// A coordinate scaled by at most `2^29` stays well inside 128 bits.
proof fn lemma_scale_term_bound(c: int, x: int)
    by (nonlinear_arith)
    requires
        1 <= c <= 0x2000_0000,
        -(COORD_LIMIT as int) <= x <= COORD_LIMIT as int,
    ensures
        -0x2000_0000 * (COORD_LIMIT as int) <= c * x <= 0x2000_0000 * (COORD_LIMIT as int),
{
}

/// A failing step anywhere below `k` refutes `grover_fits` at `k`.
proof fn lemma_grover_fits_prefix(m: StateModel, marked: int, j: nat, k: nat)
    requires
        j < k,
        !fits_diffuse(model_oracle(grover_run(m, marked, j), marked)),
    ensures
        !grover_fits(m, marked, k),
    decreases k,
{
    if k > 0 && j < k - 1 {
        lemma_grover_fits_prefix(m, marked, j, (k - 1) as nat);
    }
}

/// `floor(pi/4 * sqrt(2^n))` for `1 <= n <= 30`.
pub fn grover_iterations(n: usize) -> (r: usize)
    requires
        1 <= n <= 30,
    ensures
        r as nat == spec_grover_iters(n as nat),
{
    let table: Vec<usize> = grover_table();
    let r = table[n - 1];
    proof {
        assert(table@[n - 1] == spec_grover_iters(n as nat));
    }
    r
}

/// The iteration counts, least qubit count first.
fn grover_table() -> (t: Vec<usize>)
    ensures
        t@.len() == 30,
        forall|i: int| 0 <= i < 30 ==> #[trigger] t@[i] as nat == spec_grover_iters((i + 1) as nat),
{
    let mut t: Vec<usize> = Vec::new();
    t.push(1);
    t.push(1);
    t.push(2);
    t.push(3);
    t.push(4);
    t.push(6);
    t.push(8);
    t.push(12);
    t.push(17);
    t.push(25);
    t.push(35);
    t.push(50);
    t.push(71);
    t.push(100);
    t.push(142);
    t.push(201);
    t.push(284);
    t.push(402);
    t.push(568);
    t.push(804);
    t.push(1137);
    t.push(1608);
    t.push(2274);
    t.push(3216);
    t.push(4549);
    t.push(6433);
    t.push(9099);
    t.push(12867);
    t.push(18198);
    t.push(25735);
    t
}

} // verus!
