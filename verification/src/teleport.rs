//! Quantum teleportation on the fixed three-qubit layout: qubit 0 the
//! payload, qubit 1 the sender's half of the entangled pair, qubit 2 the
//! receiver's half.
//!
//! The layout is big-endian: basis index `4*q0 + 2*q1 + q2`, so the
//! engine's little-endian bit `b` is this module's qubit `2 - b`.  The
//! protocol entangles qubits 1 and 2 (Hadamard then controlled-not), then
//! rotates qubits 0 and 1 into the Bell basis (controlled-not then
//! Hadamard).  Afterwards the receiver's conditional amplitude pairs,
//! keyed by the two sender bits, are the payload up to the documented
//! Pauli corrections: `(a, b)`, `(b, a)`, `(a, -b)` and `(-b, a)` — the
//! last pair is `(b, -a)` up to a global sign.

use vstd::prelude::*;
use crate::amplitude::{Amp, AmpValue, amp_zero, amp_neg, amp_add, amp_sub, in_limit, COORD_LIMIT};
use crate::state::{StateVector, StateModel, QuantumError, state_wf};
use crate::gates::{model_hadamard, model_cnot, fits_hadamard, spec_hadamard, spec_cnot};

verus! {

use vstd::arithmetic::power2::pow2;

/// The whole protocol at the model level: Hadamard on engine bit 1,
/// controlled-not 1 -> 0, controlled-not 2 -> 1, Hadamard on engine bit 2.
pub open spec fn spec_teleport(m: StateModel) -> StateModel {
    model_hadamard(model_cnot(model_cnot(model_hadamard(m, 1), 1, 0), 2, 1), 2)
}

/// Both Hadamard steps of the protocol stay within the coordinate range.
pub open spec fn teleport_fits(m: StateModel) -> bool {
    &&& fits_hadamard(m, 1)
    &&& fits_hadamard(model_cnot(model_cnot(model_hadamard(m, 1), 1, 0), 2, 1), 2)
}

/// A teleportation run over one exact three-qubit state.
#[derive(Debug)]
pub struct Teleportation {
    state: StateVector,
}

impl Teleportation {
    /// The underlying exact state.
    pub closed spec fn view_state(&self) -> StateModel {
        self.state@
    }

    /// Shape invariant inherited from the state vector.
    pub open spec fn wf(&self) -> bool {
        &&& state_wf(self.view_state())
        &&& self.view_state().qubits == 3
    }

    /// The initial state `alpha|000> + beta|100>` over the shared
    /// denominator `den`: payload `alpha|0> + beta|1>` on qubit 0.
    ///
    /// Fails with `InvalidDimension` exactly when `den` is zero or above
    /// `2^31`, and with `AmplitudeOverflow` exactly when a coordinate of
    /// `alpha` or `beta` is out of the stored range.
    pub fn new(alpha: Amp, beta: Amp, den: u64) -> (r: Result<Teleportation, QuantumError>)
        ensures
            match r {
                Ok(t) => {
                    &&& t.wf()
                    &&& t.view_state().nums.len() == 8
                    &&& t.view_state().nums[0] == alpha@
                    &&& t.view_state().nums[4] == beta@
                    &&& forall|i: int|
                        0 <= i < 8 && i != 0 && i != 4 ==> #[trigger] t.view_state().nums[i]
                            == amp_zero()
                    &&& t.view_state().den == den as int
                    &&& t.view_state().rt == 0
                },
                Err(e) => {
                    &&& (e == QuantumError::InvalidDimension || e
                        == QuantumError::AmplitudeOverflow)
                    &&& (e == QuantumError::InvalidDimension <==> (den == 0 || den
                        > 0x8000_0000))
                    &&& (e == QuantumError::AmplitudeOverflow <==> (1 <= den <= 0x8000_0000 && !(
                    in_limit(alpha@) && in_limit(beta@))))
                },
            },
    {
        if den == 0 || den > 0x8000_0000 {
            return Err(QuantumError::InvalidDimension);
        }
        if !coords_in_range(&alpha) || !coords_in_range(&beta) {
            return Err(QuantumError::AmplitudeOverflow);
        }
        let mut amplitudes: Vec<Amp> = Vec::new();
        amplitudes.push(alpha);
        amplitudes.push(Amp::zero());
        amplitudes.push(Amp::zero());
        amplitudes.push(Amp::zero());
        amplitudes.push(beta);
        amplitudes.push(Amp::zero());
        amplitudes.push(Amp::zero());
        amplitudes.push(Amp::zero());
        proof {
            vstd::arithmetic::power2::lemma2_to64();
        }
        let s = StateVector::from_raw(amplitudes, 3, den, 0);
        Ok(Teleportation { state: s })
    }

    /// The exact amplitude coordinates at `index`, with the shared scale.
    pub fn amplitude(&self, index: usize) -> (r: Result<(Amp, u64, u32), QuantumError>)
        requires
            self.wf(),
        ensures
            match r {
                Ok(t) => {
                    &&& index < 8
                    &&& t.0@ == self.view_state().nums[index as int]
                    &&& t.1 == self.view_state().den
                    &&& t.2 == self.view_state().rt
                },
                Err(e) => {
                    &&& e == QuantumError::IndexOutOfRange
                    &&& index >= 8
                },
            },
    {
        proof {
            vstd::arithmetic::power2::lemma2_to64();
        }
        self.state.amplitude(index)
    }

    /// Runs the protocol: entangle qubits 1 and 2, then rotate qubits 0
    /// and 1 into the Bell basis.
    ///
    /// Succeeds exactly when both Hadamard steps stay within the
    /// coordinate range; on failure the state holds the steps completed
    /// so far.
    pub fn run(&mut self) -> (r: Result<(), QuantumError>)
        requires
            old(self).wf(),
        ensures
            final(self).wf(),
            match r {
                Ok(()) => {
                    &&& teleport_fits(old(self).view_state())
                    &&& final(self).view_state() == spec_teleport(old(self).view_state())
                },
                Err(e) => {
                    &&& e == QuantumError::AmplitudeOverflow
                    &&& !teleport_fits(old(self).view_state())
                },
            },
    {
        match self.state.hadamard(1) {
            Ok(()) => {},
            Err(_) => {
                return Err(QuantumError::AmplitudeOverflow);
            },
        }
        match self.state.controlled_not(1, 0) {
            Ok(()) => {},
            Err(_) => {
                proof {
                    assert(false);
                }
            },
        }
        match self.state.controlled_not(2, 1) {
            Ok(()) => {},
            Err(_) => {
                proof {
                    assert(false);
                }
            },
        }
        match self.state.hadamard(2) {
            Ok(()) => {},
            Err(_) => {
                return Err(QuantumError::AmplitudeOverflow);
            },
        }
        Ok(())
    }

    /// The receiver's conditional amplitude pair for one sender outcome:
    /// the amplitudes at basis indices `2 * alice_bits` and
    /// `2 * alice_bits + 1`.
    ///
    /// Fails with `IndexOutOfRange` exactly when `alice_bits` is not a
    /// two-bit outcome.
    pub fn bob_conditional(&self, alice_bits: usize) -> (r: Result<(Amp, Amp), QuantumError>)
        requires
            self.wf(),
        ensures
            match r {
                Ok(pair) => {
                    &&& alice_bits < 4
                    &&& pair.0@ == self.view_state().nums[2 * alice_bits as int]
                    &&& pair.1@ == self.view_state().nums[2 * alice_bits as int + 1]
                },
                Err(e) => {
                    &&& e == QuantumError::IndexOutOfRange
                    &&& alice_bits >= 4
                },
            },
    {
        if alice_bits >= 4 {
            return Err(QuantumError::IndexOutOfRange);
        }
        proof {
            vstd::arithmetic::power2::lemma2_to64();
        }
        let lo = self.state.amp_at(2 * alice_bits);
        let hi = self.state.amp_at(2 * alice_bits + 1);
        Ok((lo, hi))
    }
}

/// All four stored coordinates are within the shared bound.
fn coords_in_range(a: &Amp) -> (r: bool)
    ensures
        r == in_limit(a@),
{
    -COORD_LIMIT <= a.a && a.a <= COORD_LIMIT && -COORD_LIMIT <= a.b && a.b <= COORD_LIMIT
        && -COORD_LIMIT <= a.c && a.c <= COORD_LIMIT && -COORD_LIMIT <= a.d && a.d <= COORD_LIMIT
}

/// For every payload pair, the protocol leaves the receiver's
/// conditional sub-states as the payload up to the fixed per-outcome
/// Pauli corrections: reading the amplitudes two at a time by sender
/// outcome, they are `(a, b)`, `(b, a)`, `(a, -b)` and `(-b, a)`, with
/// two `sqrt(2)` factors absorbed into the scale.
pub proof fn lemma_teleport_conditionals(m: StateModel, a: AmpValue, b: AmpValue)
    requires
        state_wf(m),
        m.qubits == 3,
        m.nums.len() == 8,
        m.nums[0] == a,
        m.nums[4] == b,
        forall|i: int| 0 <= i < 8 && i != 0 && i != 4 ==> #[trigger] m.nums[i] == amp_zero(),
    ensures
        spec_teleport(m).nums[0] == a,
        spec_teleport(m).nums[1] == b,
        spec_teleport(m).nums[2] == b,
        spec_teleport(m).nums[3] == a,
        spec_teleport(m).nums[4] == a,
        spec_teleport(m).nums[5] == amp_neg(b),
        spec_teleport(m).nums[6] == amp_neg(b),
        spec_teleport(m).nums[7] == a,
        spec_teleport(m).den == m.den,
        spec_teleport(m).rt == m.rt + 2,
{
    vstd::arithmetic::power2::lemma2_to64();
    assert(pow2(0) == 1 && pow2(1) == 2 && pow2(2) == 4 && pow2(3) == 8);
    let s = m.nums;
    let s1 = spec_hadamard(s, 1);
    assert(s1[0] == amp_add(s[0], s[2]));
    assert(s1[1] == amp_add(s[1], s[3]));
    assert(s1[2] == amp_sub(s[0], s[2]));
    assert(s1[3] == amp_sub(s[1], s[3]));
    assert(s1[4] == amp_add(s[4], s[6]));
    assert(s1[5] == amp_add(s[5], s[7]));
    assert(s1[6] == amp_sub(s[4], s[6]));
    assert(s1[7] == amp_sub(s[5], s[7]));
    let s2 = spec_cnot(s1, 1, 0);
    assert(s2[0] == s1[0] && s2[1] == s1[1] && s2[4] == s1[4] && s2[5] == s1[5]);
    assert(s2[2] == s1[3] && s2[3] == s1[2] && s2[6] == s1[7] && s2[7] == s1[6]);
    let s3 = spec_cnot(s2, 2, 1);
    assert(s3[0] == s2[0] && s3[1] == s2[1] && s3[2] == s2[2] && s3[3] == s2[3]);
    assert(s3[4] == s2[6] && s3[5] == s2[7] && s3[6] == s2[4] && s3[7] == s2[5]);
    let s4 = spec_hadamard(s3, 2);
    assert(s4[0] == amp_add(s3[0], s3[4]));
    assert(s4[1] == amp_add(s3[1], s3[5]));
    assert(s4[2] == amp_add(s3[2], s3[6]));
    assert(s4[3] == amp_add(s3[3], s3[7]));
    assert(s4[4] == amp_sub(s3[0], s3[4]));
    assert(s4[5] == amp_sub(s3[1], s3[5]));
    assert(s4[6] == amp_sub(s3[2], s3[6]));
    assert(s4[7] == amp_sub(s3[3], s3[7]));
    assert(spec_teleport(m).nums == s4);
}

} // verus!
