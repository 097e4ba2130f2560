//! Circuit composition: an ordered list of gate descriptors, applied
//! strictly left to right to a fresh `|0...0>` state.

use vstd::prelude::*;
use crate::amplitude::{amp_zero, amp_one};
use crate::state::{StateVector, StateModel, QuantumError, is_unit};
use crate::gates::{model_hadamard, model_pauli_x, model_pauli_z, model_cnot};
use crate::gates::fits_hadamard;
use crate::laws::{lemma_hadamard_unitary, lemma_pauli_x_unitary, lemma_pauli_z_unitary,
    lemma_cnot_unitary};

verus! {

use vstd::arithmetic::power2::pow2;

/// One gate application: Hadamard, Pauli-X or Pauli-Z on a qubit, or a
/// controlled-not with a (control, target) pair.
#[derive(Clone, Copy, Debug, PartialEq, Eq, Structural)]
pub enum GateType {
    H(usize),
    X(usize),
    CX(usize, usize),
    Z(usize),
}

/// A gate references qubits in range (and distinct ones, for `CX`).
pub open spec fn gate_valid(n: nat, g: GateType) -> bool {
    match g {
        GateType::H(q) => (q as nat) < n,
        GateType::X(q) => (q as nat) < n,
        GateType::Z(q) => (q as nat) < n,
        GateType::CX(c, t) => (c as nat) < n && (t as nat) < n && c != t,
    }
}

/// A gate referencing a qubit at or above the register size.
pub open spec fn gate_out_of_range(n: nat, g: GateType) -> bool {
    match g {
        GateType::H(q) => (q as nat) >= n,
        GateType::X(q) => (q as nat) >= n,
        GateType::Z(q) => (q as nat) >= n,
        GateType::CX(c, t) => (c as nat) >= n || (t as nat) >= n,
    }
}

/// A controlled-not whose control and target coincide, both
/// in range.
pub open spec fn gate_control_equals_target(n: nat, g: GateType) -> bool {
    match g {
        GateType::CX(c, t) => (c as nat) < n && (t as nat) < n && c == t,
        _ => false,
    }
}

/// The all-zero basis state over `2^n` indices, with scale one: what a
/// run starts from.
pub open spec fn init_model(n: nat) -> StateModel {
    StateModel {
        nums: Seq::new(
            pow2(n),
            |i: int|
                if i == 0 {
                    amp_one()
                } else {
                    amp_zero()
                },
        ),
        den: 1,
        rt: 0,
        qubits: n,
    }
}

/// One gate at the model level.
pub open spec fn apply_gate(m: StateModel, g: GateType) -> StateModel {
    match g {
        GateType::H(q) => model_hadamard(m, q as nat),
        GateType::X(q) => model_pauli_x(m, q as nat),
        GateType::Z(q) => model_pauli_z(m, q as nat),
        GateType::CX(c, t) => model_cnot(m, c as nat, t as nat),
    }
}

/// A whole gate list at the model level, applied left to right.
pub open spec fn run_gates(m: StateModel, gs: Seq<GateType>) -> StateModel
    decreases gs.len(),
{
    if gs.len() == 0 {
        m
    } else {
        apply_gate(run_gates(m, gs.drop_last()), gs.last())
    }
}

/// The one step that can fail in exact arithmetic is a Hadamard that
/// leaves the coordinate range.
pub open spec fn step_fits(m: StateModel, g: GateType) -> bool {
    match g {
        GateType::H(q) => fits_hadamard(m, q as nat),
        _ => true,
    }
}

/// Every step of the run stays within the coordinate range.
pub open spec fn run_fits(m: StateModel, gs: Seq<GateType>) -> bool
    decreases gs.len(),
{
    if gs.len() == 0 {
        true
    } else {
        run_fits(m, gs.drop_last()) && step_fits(run_gates(m, gs.drop_last()), gs.last())
    }
}

/// A failing step anywhere in the list refutes `run_fits`.
proof fn lemma_run_fits_prefix(m: StateModel, gs: Seq<GateType>, k: int)
    requires
        0 <= k < gs.len(),
        !step_fits(run_gates(m, gs.subrange(0, k)), gs[k]),
    ensures
        !run_fits(m, gs),
    decreases gs.len(),
{
    if k == gs.len() - 1 {
        assert(gs.subrange(0, k) =~= gs.drop_last());
    } else {
        assert(gs.drop_last().subrange(0, k) =~= gs.subrange(0, k));
        assert(gs.drop_last()[k] == gs[k]);
        lemma_run_fits_prefix(m, gs.drop_last(), k);
    }
}

/// A gate list builder in the familiar circuit style.
pub struct QuantumCircuit {
    num_qubits: usize,
    gates: Vec<GateType>,
}

impl QuantumCircuit {
    /// Declared qubit count.
    pub closed spec fn qubit_count(&self) -> nat {
        self.num_qubits as nat
    }

    /// The recorded gate list.
    pub closed spec fn gate_list(&self) -> Seq<GateType> {
        self.gates@
    }

    /// An empty circuit over `num_qubits` qubits.
    pub fn new(num_qubits: usize) -> (c: Self)
        ensures
            c.qubit_count() == num_qubits as nat,
            c.gate_list() == Seq::<GateType>::empty(),
    {
        QuantumCircuit { num_qubits, gates: Vec::new() }
    }

    /// Appends a Hadamard on `qubit`.
    pub fn h(&mut self, qubit: usize)
        ensures
            final(self).qubit_count() == old(self).qubit_count(),
            final(self).gate_list() == old(self).gate_list().push(GateType::H(qubit)),
    {
        self.gates.push(GateType::H(qubit));
    }

    /// Appends a Pauli-X on `qubit`.
    pub fn x(&mut self, qubit: usize)
        ensures
            final(self).qubit_count() == old(self).qubit_count(),
            final(self).gate_list() == old(self).gate_list().push(GateType::X(qubit)),
    {
        self.gates.push(GateType::X(qubit));
    }

    /// Appends a controlled-not with the given control and target.
    pub fn cx(&mut self, control: usize, target: usize)
        ensures
            final(self).qubit_count() == old(self).qubit_count(),
            final(self).gate_list() == old(self).gate_list().push(GateType::CX(control, target)),
    {
        self.gates.push(GateType::CX(control, target));
    }

    /// Appends a Pauli-Z on `qubit`.
    pub fn z(&mut self, qubit: usize)
        ensures
            final(self).qubit_count() == old(self).qubit_count(),
            final(self).gate_list() == old(self).gate_list().push(GateType::Z(qubit)),
    {
        self.gates.push(GateType::Z(qubit));
    }

    /// Runs the circuit from `|0...0>` and returns the final state.
    ///
    /// Succeeds exactly when the qubit count is supported, every gate
    /// references valid qubits, and every exact update stays within the
    /// coordinate range; the result is then its gate list applied, left
    /// to right, to the all-zero basis state, and carries total
    /// probability one.  All gates are validated before any state is
    /// built.
    pub fn execute(&self) -> (r: Result<StateVector, QuantumError>)
        ensures
            match r {
                Ok(s) => {
                    &&& s.wf()
                    &&& is_unit(s@)
                    &&& 1 <= self.qubit_count() <= 30
                    &&& forall|k: int|
                        0 <= k < self.gate_list().len() ==> gate_valid(
                            self.qubit_count(),
                            #[trigger] self.gate_list()[k],
                        )
                    &&& run_fits(init_model(self.qubit_count()), self.gate_list())
                    &&& s@ == run_gates(init_model(self.qubit_count()), self.gate_list())
                },
                Err(e) => {
                    &&& (e == QuantumError::InvalidDimension || e
                        == QuantumError::InvalidQubitIndex || e
                        == QuantumError::ControlEqualsTarget || e
                        == QuantumError::AmplitudeOverflow)
                    &&& (e == QuantumError::InvalidDimension <==> (self.qubit_count() == 0
                        || self.qubit_count() > 30))
                    &&& ((e == QuantumError::InvalidQubitIndex || e
                        == QuantumError::ControlEqualsTarget) <==> (1 <= self.qubit_count() <= 30
                        && exists|k: int|
                        0 <= k < self.gate_list().len() && !gate_valid(
                            self.qubit_count(),
                            #[trigger] self.gate_list()[k],
                        )))
                    &&& (e == QuantumError::InvalidQubitIndex ==> exists|k: int|
                        0 <= k < self.gate_list().len() && gate_out_of_range(
                            self.qubit_count(),
                            #[trigger] self.gate_list()[k],
                        ))
                    &&& (e == QuantumError::ControlEqualsTarget ==> exists|k: int|
                        0 <= k < self.gate_list().len() && gate_control_equals_target(
                            self.qubit_count(),
                            #[trigger] self.gate_list()[k],
                        ))
                    &&& (e == QuantumError::AmplitudeOverflow <==> (1 <= self.qubit_count() <= 30
                        && (forall|k: int|
                            0 <= k < self.gate_list().len() ==> gate_valid(
                                self.qubit_count(),
                                #[trigger] self.gate_list()[k],
                            )) && !run_fits(init_model(self.qubit_count()), self.gate_list())))
                },
            },
    {
        if self.num_qubits == 0 || self.num_qubits > 30 {
            return Err(QuantumError::InvalidDimension);
        }
        // validate every gate before building any state
        let n_gates = self.gates.len();
        let mut v: usize = 0;
        while v < n_gates
            invariant
                v <= n_gates,
                n_gates == self.gates@.len(),
                1 <= self.num_qubits <= 30,
                forall|j: int|
                    0 <= j < v ==> gate_valid(self.qubit_count(), #[trigger] self.gates@[j]),
            decreases n_gates - v,
        {
            let g = self.gates[v];
            proof {
                assert(self.gate_list()[v as int] == g);
            }
            match g {
                GateType::H(q) => {
                    if q >= self.num_qubits {
                        proof {
                            assert(gate_out_of_range(self.qubit_count(), self.gate_list()[
                                v as int]));
                            assert(!gate_valid(self.qubit_count(), self.gate_list()[v as int]));
                        }
                        return Err(QuantumError::InvalidQubitIndex);
                    }
                },
                GateType::X(q) => {
                    if q >= self.num_qubits {
                        proof {
                            assert(gate_out_of_range(self.qubit_count(), self.gate_list()[
                                v as int]));
                            assert(!gate_valid(self.qubit_count(), self.gate_list()[v as int]));
                        }
                        return Err(QuantumError::InvalidQubitIndex);
                    }
                },
                GateType::Z(q) => {
                    if q >= self.num_qubits {
                        proof {
                            assert(gate_out_of_range(self.qubit_count(), self.gate_list()[
                                v as int]));
                            assert(!gate_valid(self.qubit_count(), self.gate_list()[v as int]));
                        }
                        return Err(QuantumError::InvalidQubitIndex);
                    }
                },
                GateType::CX(c, tg) => {
                    if c >= self.num_qubits || tg >= self.num_qubits {
                        proof {
                            assert(gate_out_of_range(self.qubit_count(), self.gate_list()[
                                v as int]));
                            assert(!gate_valid(self.qubit_count(), self.gate_list()[v as int]));
                        }
                        return Err(QuantumError::InvalidQubitIndex);
                    }
                    if c == tg {
                        proof {
                            assert(gate_control_equals_target(self.qubit_count(), self.gate_list()[
                                v as int]));
                            assert(!gate_valid(self.qubit_count(), self.gate_list()[v as int]));
                        }
                        return Err(QuantumError::ControlEqualsTarget);
                    }
                },
            }
            v = v + 1;
        }
        let mut state = match StateVector::create(self.num_qubits) {
            Ok(s) => s,
            Err(_) => {
                proof {
                    assert(false);
                }
                return Err(QuantumError::InvalidDimension);
            },
        };
        let ghost m0 = init_model(self.qubit_count());
        proof {
            assert(state@.nums =~= m0.nums);
            assert(state@ =~= m0);
        }
        let mut k: usize = 0;
        let n = self.gates.len();
        while k < n
            invariant
                n == self.gates@.len(),
                k <= n,
                state.wf(),
                is_unit(state@),
                m0 == init_model(self.qubit_count()),
                state@ == run_gates(m0, self.gates@.subrange(0, k as int)),
                run_fits(m0, self.gates@.subrange(0, k as int)),
                1 <= self.num_qubits <= 30,
                state@.qubits == self.qubit_count(),
                forall|j: int|
                    0 <= j < n ==> gate_valid(self.qubit_count(), #[trigger] self.gates@[j]),
            decreases n - k,
        {
            let g = self.gates[k];
            let ghost pre = state@;
            let step = match g {
                GateType::H(q) => state.hadamard(q),
                GateType::X(q) => state.pauli_x(q),
                GateType::Z(q) => state.pauli_z(q),
                GateType::CX(c, t) => state.controlled_not(c, t),
            };
            proof {
                assert(self.gates@.subrange(0, k + 1).drop_last() =~= self.gates@.subrange(
                    0,
                    k as int,
                ));
                assert(self.gates@.subrange(0, k + 1).last() == g);
            }
            match step {
                Ok(()) => {
                    proof {
                        match g {
                            GateType::H(q) => lemma_hadamard_unitary(pre, q as nat),
                            GateType::X(q) => lemma_pauli_x_unitary(pre, q as nat),
                            GateType::Z(q) => lemma_pauli_z_unitary(pre, q as nat),
                            GateType::CX(c, t) => lemma_cnot_unitary(pre, c as nat, t as nat),
                        }
                        assert(step_fits(pre, g));
                    }
                },
                Err(e) => {
                    proof {
                        assert(gate_valid(self.qubit_count(), self.gates@[k as int]));
                        match g {
                            GateType::H(q) => {
                                assert(e == QuantumError::AmplitudeOverflow);
                                assert(!fits_hadamard(pre, q as nat));
                                assert(!step_fits(pre, g));
                            },
                            GateType::X(_) => {
                                assert(false);
                            },
                            GateType::Z(_) => {
                                assert(false);
                            },
                            GateType::CX(_, _) => {
                                assert(false);
                            },
                        }
                        lemma_run_fits_prefix(m0, self.gate_list(), k as int);
                        assert(!run_fits(m0, self.gate_list()));
                    }
                    return Err(QuantumError::AmplitudeOverflow);
                },
            }
            k = k + 1;
        }
        proof {
            assert(self.gates@.subrange(0, n as int) =~= self.gates@);
            assert(run_gates(m0, self.gate_list()) == state@);
            assert(run_fits(m0, self.gate_list()));
            assert forall|j: int| 0 <= j < self.gate_list().len() implies gate_valid(
                self.qubit_count(),
                #[trigger] self.gate_list()[j],
            ) by {
                assert(self.gate_list()[j] == self.gates@[j]);
            }
        }
        Ok(state)
    }
}

} // verus!
