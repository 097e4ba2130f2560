//! The three-qubit bit-flip code: encode one logical qubit across three
//! physical qubits, inject a single bit-flip fault, read the syndrome off
//! the occupied basis indices, and undo the fault.
//!
//! The layout is big-endian, as in the teleportation module: basis index
//! `4*q0 + 2*q1 + q2`.  The syndrome table is the classical one: mass on
//! indices 3 or 4 names qubit 0, on 2 or 5 names qubit 1, on 1 or 6 names
//! qubit 2; a state with mass on 0 and 7 only reports no fault.  Only
//! single faults are distinguished; double or absent faults follow the
//! table as read, with no stronger claim.

use vstd::prelude::*;
use crate::amplitude::{Amp, AmpValue, amp_zero, in_limit, COORD_LIMIT};

use crate::state::{StateVector, StateModel, QuantumError, state_wf};
use crate::gates::{model_pauli_x, spec_pauli_x, flip_bit};
use crate::laws::lemma_pauli_x_self_inverse;

verus! {

use vstd::arithmetic::power2::pow2;

/// One logical qubit as an exact amplitude pair.
#[derive(Clone, Copy, Debug, PartialEq, Eq, Structural)]
pub struct Qubit {
    pub a: Amp,
    pub b: Amp,
}

impl Qubit {
    pub fn new(a: Amp, b: Amp) -> (q: Qubit)
        ensures
            q.a == a,
            q.b == b,
    {
        Qubit { a, b }
    }
}

/// The encoded model: `a` at index 0, `b` at index 7, zero elsewhere.
pub open spec fn encoded(m: StateModel, a: AmpValue, b: AmpValue) -> bool {
    &&& m.nums.len() == 8
    &&& m.nums[0] == a
    &&& m.nums[7] == b
    &&& forall|i: int| 1 <= i < 7 ==> #[trigger] m.nums[i] == amp_zero()
}

/// The syndrome read from the occupied indices, in the module's qubit
/// numbering.
pub open spec fn spec_syndrome(m: StateModel) -> Option<usize> {
    if m.nums[3] != amp_zero() || m.nums[4] != amp_zero() {
        Some(0usize)
    } else if m.nums[2] != amp_zero() || m.nums[5] != amp_zero() {
        Some(1usize)
    } else if m.nums[1] != amp_zero() || m.nums[6] != amp_zero() {
        Some(2usize)
    } else {
        None
    }
}

/// An error-correction run over one exact three-qubit state.
#[derive(Debug)]
pub struct ErrorCorrectionSim {
    state: StateVector,
}

impl ErrorCorrectionSim {
    /// The underlying exact state.
    pub closed spec fn view_state(&self) -> StateModel {
        self.state@
    }

    /// Shape invariant inherited from the state vector.
    pub open spec fn wf(&self) -> bool {
        &&& state_wf(self.view_state())
        &&& self.view_state().qubits == 3
    }

    /// Encodes the logical qubit: `a|000> + b|111>` over the shared
    /// denominator `den`.
    ///
    /// Fails with `InvalidDimension` exactly when `den` is zero or above
    /// `2^31`, and with `AmplitudeOverflow` exactly when a coordinate of
    /// the source is out of the stored range.
    pub fn new(source: Qubit, den: u64) -> (r: Result<ErrorCorrectionSim, QuantumError>)
        ensures
            match r {
                Ok(s) => {
                    &&& s.wf()
                    &&& encoded(s.view_state(), source.a@, source.b@)
                    &&& s.view_state().den == den as int
                    &&& s.view_state().rt == 0
                },
                Err(e) => {
                    &&& (e == QuantumError::InvalidDimension || e
                        == QuantumError::AmplitudeOverflow)
                    &&& (e == QuantumError::InvalidDimension <==> (den == 0 || den
                        > 0x8000_0000))
                    &&& (e == QuantumError::AmplitudeOverflow <==> (1 <= den <= 0x8000_0000 && !(
                    in_limit(source.a@) && in_limit(source.b@))))
                },
            },
    {
        if den == 0 || den > 0x8000_0000 {
            return Err(QuantumError::InvalidDimension);
        }
        if !in_range(&source.a) || !in_range(&source.b) {
            return Err(QuantumError::AmplitudeOverflow);
        }
        let mut amplitudes: Vec<Amp> = Vec::new();
        amplitudes.push(source.a);
        amplitudes.push(Amp::zero());
        amplitudes.push(Amp::zero());
        amplitudes.push(Amp::zero());
        amplitudes.push(Amp::zero());
        amplitudes.push(Amp::zero());
        amplitudes.push(Amp::zero());
        amplitudes.push(source.b);
        proof {
            vstd::arithmetic::power2::lemma2_to64();
        }
        let s = StateVector::from_raw(amplitudes, 3, den, 0);
        Ok(ErrorCorrectionSim { state: s })
    }

    /// The exact amplitude coordinates at `index`, with the shared scale.
    pub fn amplitude(&self, index: usize) -> (r: Result<(Amp, u64, u32), QuantumError>)
        requires
            self.wf(),
        ensures
            match r {
                Ok(t) => {
                    &&& index < 8
                    &&& t.0@ == self.view_state().nums[index as int]
                    &&& t.1 == self.view_state().den
                    &&& t.2 == self.view_state().rt
                },
                Err(e) => {
                    &&& e == QuantumError::IndexOutOfRange
                    &&& index >= 8
                },
            },
    {
        proof {
            vstd::arithmetic::power2::lemma2_to64();
        }
        self.state.amplitude(index)
    }

    /// Flips the given qubit on every basis component: a bit-flip fault.
    ///
    /// Fails with `InvalidQubitIndex` exactly when `qubit_idx` is not one
    /// of the three qubits; on failure the state is untouched.
    pub fn apply_error(&mut self, qubit_idx: usize) -> (r: Result<(), QuantumError>)
        requires
            old(self).wf(),
        ensures
            final(self).wf(),
            match r {
                Ok(()) => {
                    &&& qubit_idx < 3
                    &&& final(self).view_state() == model_pauli_x(
                        old(self).view_state(),
                        (2 - qubit_idx) as nat,
                    )
                },
                Err(e) => {
                    &&& *final(self) == *old(self)
                    &&& e == QuantumError::InvalidQubitIndex
                    &&& qubit_idx >= 3
                },
            },
    {
        if qubit_idx >= 3 {
            return Err(QuantumError::InvalidQubitIndex);
        }
        match self.state.pauli_x(2 - qubit_idx) {
            Ok(()) => Ok(()),
            Err(_) => {
                proof {
                    assert(false);
                }
                Err(QuantumError::InvalidQubitIndex)
            },
        }
    }

    /// Reads the syndrome off the occupied indices and, when it names a
    /// qubit, re-applies the same flip to undo the fault.  Returns the
    /// qubit the syndrome named, if any.
    pub fn correct(&mut self) -> (r: Option<usize>)
        requires
            old(self).wf(),
        ensures
            final(self).wf(),
            r == spec_syndrome(old(self).view_state()),
            match r {
                Some(q) => {
                    &&& q < 3
                    &&& final(self).view_state() == model_pauli_x(
                        old(self).view_state(),
                        (2 - q) as nat,
                    )
                },
                None => *final(self) == *old(self),
            },
    {
        proof {
            vstd::arithmetic::power2::lemma2_to64();
        }
        let flipped: Option<usize> = if self.occupied(3) || self.occupied(4) {
            Some(0)
        } else if self.occupied(2) || self.occupied(5) {
            Some(1)
        } else if self.occupied(1) || self.occupied(6) {
            Some(2)
        } else {
            None
        };
        match flipped {
            Some(q) => {
                match self.state.pauli_x(2 - q) {
                    Ok(()) => {},
                    Err(_) => {
                        proof {
                            assert(false);
                        }
                    },
                }
                Some(q)
            },
            None => None,
        }
    }

    /// Whether the amplitude at `index` is nonzero.
    fn occupied(&self, index: usize) -> (r: bool)
        requires
            self.wf(),
            index < 8,
        ensures
            r == (self.view_state().nums[index as int] != amp_zero()),
    {
        proof {
            vstd::arithmetic::power2::lemma2_to64();
        }
        let a = self.state.amp_at(index);
        a.a != 0 || a.b != 0 || a.c != 0 || a.d != 0
    }
}

/// All four stored coordinates are within the shared bound.
fn in_range(a: &Amp) -> (r: bool)
    ensures
        r == in_limit(a@),
{
    -COORD_LIMIT <= a.a && a.a <= COORD_LIMIT && -COORD_LIMIT <= a.b && a.b <= COORD_LIMIT
        && -COORD_LIMIT <= a.c && a.c <= COORD_LIMIT && -COORD_LIMIT <= a.d && a.d <= COORD_LIMIT
}

/// Any single bit-flip fault on an encoded (nonzero) state is named by
/// the syndrome, and undoing that flip restores the encoded state
/// exactly -- for every amplitude pair and each of the three qubits.
pub proof fn lemma_syndrome_names_single_fault(m: StateModel, a: AmpValue, b: AmpValue, q: nat)
    requires
        state_wf(m),
        m.qubits == 3,
        encoded(m, a, b),
        q < 3,
        a != amp_zero() || b != amp_zero(),
    ensures
        spec_syndrome(model_pauli_x(m, (2 - q) as nat)) == Some((q as usize)),
        model_pauli_x(model_pauli_x(m, (2 - q) as nat), (2 - q) as nat) == m,
{
    let qe = (2 - q) as nat;
    let f = spec_pauli_x(m.nums, qe);
    proof_flip_entries(m, qe);
    lemma_pauli_x_self_inverse(m, qe);
    if q == 0 {
        assert(f[3] == m.nums[7]);
        assert(f[4] == m.nums[0]);
    } else if q == 1 {
        assert(f[3] == m.nums[1] && f[4] == m.nums[6]);
        assert(f[2] == m.nums[0]);
        assert(f[5] == m.nums[7]);
    } else {
        assert(f[3] == m.nums[2] && f[4] == m.nums[5]);
        assert(f[2] == m.nums[3] && f[5] == m.nums[4]);
        assert(f[1] == m.nums[0]);
        assert(f[6] == m.nums[7]);
    }
}

/// Ground evaluation of the pair structure of a three-qubit bit flip.
proof fn proof_flip_entries(m: StateModel, qe: nat)
    requires
        state_wf(m),
        m.qubits == 3,
        qe < 3,
    ensures
        forall|i: int| 0 <= i < 8 ==> #[trigger] spec_pauli_x(m.nums, qe)[i] == m.nums[flip_bit(
            i,
            qe,
        )],
        qe == 2 ==> flip_bit(0, qe) == 4 && flip_bit(1, qe) == 5 && flip_bit(2, qe) == 6
            && flip_bit(3, qe) == 7 && flip_bit(4, qe) == 0 && flip_bit(5, qe) == 1 && flip_bit(
            6,
            qe,
        ) == 2 && flip_bit(7, qe) == 3,
        qe == 1 ==> flip_bit(0, qe) == 2 && flip_bit(1, qe) == 3 && flip_bit(2, qe) == 0
            && flip_bit(3, qe) == 1 && flip_bit(4, qe) == 6 && flip_bit(5, qe) == 7 && flip_bit(
            6,
            qe,
        ) == 4 && flip_bit(7, qe) == 5,
        qe == 0 ==> flip_bit(0, qe) == 1 && flip_bit(1, qe) == 0 && flip_bit(2, qe) == 3
            && flip_bit(3, qe) == 2 && flip_bit(4, qe) == 5 && flip_bit(5, qe) == 4 && flip_bit(
            6,
            qe,
        ) == 7 && flip_bit(7, qe) == 6,
{
    vstd::arithmetic::power2::lemma2_to64();
    assert(pow2(0) == 1 && pow2(1) == 2 && pow2(2) == 4);
    assert(m.nums.len() == pow2(3));
}

} // verus!
