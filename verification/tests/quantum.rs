//! The state-vector core: creation, gates, probabilities, and gate
//! laws on concrete states.

use qsim_exact::amplitude::Amp;
use qsim_exact::circuit::{GateType, QuantumCircuit};
use qsim_exact::state::{Probability, QuantumError, StateVector};

fn prob_f64(p: Probability) -> f64 {
    let scale = (p.den as f64) * (p.den as f64) * 2f64.powi(p.exp as i32);
    ((p.p as f64) + (p.q as f64) * 2f64.sqrt()) / scale
}

fn amp_f64(a: Amp, den: u64, rt: u32) -> (f64, f64) {
    let scale = (den as f64) * 2f64.sqrt().powi(rt as i32);
    (
        ((a.a as f64) + (a.b as f64) * 2f64.sqrt()) / scale,
        ((a.c as f64) + (a.d as f64) * 2f64.sqrt()) / scale,
    )
}

#[test]
fn create_puts_all_mass_on_zero() {
    let s = StateVector::create(2).unwrap();
    assert_eq!(s.num_qubits(), 2);
    assert_eq!(s.dimension(), 4);
    assert!((prob_f64(s.probability(0).unwrap()) - 1.0).abs() < 1e-12);
    for k in 1..4 {
        assert_eq!(prob_f64(s.probability(k).unwrap()), 0.0);
    }
}

#[test]
fn create_rejects_bad_dimensions() {
    assert_eq!(StateVector::create(0).unwrap_err(), QuantumError::InvalidDimension);
    assert_eq!(StateVector::create(31).unwrap_err(), QuantumError::InvalidDimension);
}

#[test]
fn probability_rejects_out_of_range_index() {
    let s = StateVector::create(1).unwrap();
    assert_eq!(s.probability(2).unwrap_err(), QuantumError::IndexOutOfRange);
}

#[test]
fn gates_reject_bad_qubits() {
    let mut s = StateVector::create(2).unwrap();
    assert_eq!(s.hadamard(2).unwrap_err(), QuantumError::InvalidQubitIndex);
    assert_eq!(s.pauli_x(5).unwrap_err(), QuantumError::InvalidQubitIndex);
    assert_eq!(s.pauli_y(2).unwrap_err(), QuantumError::InvalidQubitIndex);
    assert_eq!(s.pauli_z(7).unwrap_err(), QuantumError::InvalidQubitIndex);
    assert_eq!(s.controlled_not(0, 2).unwrap_err(), QuantumError::InvalidQubitIndex);
    assert_eq!(s.controlled_not(1, 1).unwrap_err(), QuantumError::ControlEqualsTarget);
}

#[test]
fn hadamard_splits_and_restores() {
    let mut s = StateVector::create(1).unwrap();
    s.hadamard(0).unwrap();
    assert!((prob_f64(s.probability(0).unwrap()) - 0.5).abs() < 1e-12);
    assert!((prob_f64(s.probability(1).unwrap()) - 0.5).abs() < 1e-12);
    // Hadamard is self-inverse
    s.hadamard(0).unwrap();
    assert!((prob_f64(s.probability(0).unwrap()) - 1.0).abs() < 1e-12);
    assert!(prob_f64(s.probability(1).unwrap()).abs() < 1e-12);
}

#[test]
fn pauli_gates_are_self_inverse() {
    let mut s = StateVector::create(2).unwrap();
    s.hadamard(0).unwrap();
    let before: Vec<(Amp, u64, u32)> = (0..4).map(|k| s.amplitude(k).unwrap()).collect();
    s.pauli_x(1).unwrap();
    s.pauli_x(1).unwrap();
    s.pauli_z(0).unwrap();
    s.pauli_z(0).unwrap();
    s.pauli_y(1).unwrap();
    s.pauli_y(1).unwrap();
    s.controlled_not(0, 1).unwrap();
    s.controlled_not(0, 1).unwrap();
    let after: Vec<(Amp, u64, u32)> = (0..4).map(|k| s.amplitude(k).unwrap()).collect();
    assert_eq!(before, after);
}

#[test]
fn total_probability_stays_one_under_gates() {
    let mut s = StateVector::create(3).unwrap();
    s.hadamard(0).unwrap();
    s.controlled_not(0, 1).unwrap();
    s.pauli_y(2).unwrap();
    s.hadamard(2).unwrap();
    s.pauli_z(1).unwrap();
    s.pauli_x(0).unwrap();
    let total: f64 = (0..8).map(|k| prob_f64(s.probability(k).unwrap())).sum();
    assert!((total - 1.0).abs() < 1e-9);
}

#[test]
fn bell_state_probabilities() {
    // create(2), Hadamard(0), ControlledNot(0,1): mass half on |00>, half on |11>
    let mut qc = QuantumCircuit::new(2);
    qc.h(0);
    qc.cx(0, 1);
    let s = qc.execute().unwrap();
    assert!((prob_f64(s.probability(0b00).unwrap()) - 0.5).abs() < 1e-12);
    assert!((prob_f64(s.probability(0b11).unwrap()) - 0.5).abs() < 1e-12);
    assert!(prob_f64(s.probability(0b01).unwrap()).abs() < 1e-12);
    assert!(prob_f64(s.probability(0b10).unwrap()).abs() < 1e-12);
}

#[test]
fn circuit_rejects_bad_shapes() {
    let qc = QuantumCircuit::new(0);
    assert_eq!(qc.execute().unwrap_err(), QuantumError::InvalidDimension);
    let mut qc2 = QuantumCircuit::new(2);
    qc2.h(9);
    assert_eq!(qc2.execute().unwrap_err(), QuantumError::InvalidQubitIndex);
    let mut qc3 = QuantumCircuit::new(2);
    qc3.cx(1, 1);
    assert_eq!(qc3.execute().unwrap_err(), QuantumError::ControlEqualsTarget);
}

#[test]
fn circuit_records_gates_in_order() {
    let mut qc = QuantumCircuit::new(2);
    qc.h(0);
    qc.x(1);
    qc.z(0);
    qc.cx(0, 1);
    let s = qc.execute().unwrap();
    let total: f64 = (0..4).map(|k| prob_f64(s.probability(k).unwrap())).sum();
    assert!((total - 1.0).abs() < 1e-9);
    let _ = GateType::H(0);
}

#[test]
fn normalize_scales_to_unit() {
    // 3|0> + 4|1> over denominator 1 has norm 5: normalize finds it
    let amps = vec![Amp { a: 3, b: 0, c: 0, d: 0 }, Amp { a: 4, b: 0, c: 0, d: 0 }];
    let mut s = StateVector::from_amplitudes(amps, 1, 1).unwrap();
    s.normalize().unwrap();
    assert!((prob_f64(s.probability(0).unwrap()) - 0.36).abs() < 1e-12);
    assert!((prob_f64(s.probability(1).unwrap()) - 0.64).abs() < 1e-12);
}

#[test]
fn normalize_rejects_zero_state() {
    let zeros = vec![Amp { a: 0, b: 0, c: 0, d: 0 }, Amp { a: 0, b: 0, c: 0, d: 0 }];
    let mut s = StateVector::from_amplitudes(zeros, 1, 1).unwrap();
    assert_eq!(s.normalize().unwrap_err(), QuantumError::DegenerateState);
}

#[test]
fn amplitude_reports_exact_coordinates() {
    let mut s = StateVector::create(1).unwrap();
    s.hadamard(0).unwrap();
    let (a, den, rt) = s.amplitude(1).unwrap();
    assert_eq!((a.a, a.b, a.c, a.d), (1, 0, 0, 0));
    assert_eq!(den, 1);
    assert_eq!(rt, 1);
    let (re, im) = amp_f64(a, den, rt);
    assert!((re - std::f64::consts::FRAC_1_SQRT_2).abs() < 1e-12);
    assert!(im.abs() < 1e-12);
}

#[test]
fn amplitude_ring_multiplication() {
    let one_plus_i = Amp { a: 1, b: 0, c: 1, d: 0 };
    // (1 + i)^2 == 2i
    assert_eq!(
        one_plus_i.checked_mul(&one_plus_i).unwrap(),
        Amp { a: 0, b: 0, c: 2, d: 0 }
    );
    // sqrt(2)^2 == 2
    let root2 = Amp { a: 0, b: 1, c: 0, d: 0 };
    assert_eq!(root2.checked_mul(&root2).unwrap(), Amp { a: 2, b: 0, c: 0, d: 0 });
    // (1 + sqrt(2)) * (1 - sqrt(2)) == -1
    let p = Amp { a: 1, b: 1, c: 0, d: 0 };
    let m = Amp { a: 1, b: -1, c: 0, d: 0 };
    assert_eq!(p.checked_mul(&m).unwrap(), Amp { a: -1, b: 0, c: 0, d: 0 });
    // a product leaving the coordinate range is refused
    let big = Amp { a: qsim_exact::amplitude::COORD_LIMIT, b: 0, c: 0, d: 0 };
    let two = Amp { a: 2, b: 0, c: 0, d: 0 };
    assert!(big.checked_mul(&two).is_none());
}

#[test]
fn normalize_rejects_unrepresentable_norms() {
    // a sqrt(2) part in the squared norm cannot be rescaled away
    let mixed = vec![Amp { a: 1, b: 0, c: 0, d: 0 }, Amp { a: 1, b: 1, c: 0, d: 0 }];
    let mut s = StateVector::from_amplitudes(mixed, 1, 1).unwrap();
    assert_eq!(s.normalize().unwrap_err(), QuantumError::AmplitudeOverflow);
    // odd squared norm 3 is not a perfect square
    let three = vec![
        Amp { a: 1, b: 0, c: 0, d: 0 },
        Amp { a: 1, b: 0, c: 0, d: 0 },
        Amp { a: 1, b: 0, c: 0, d: 0 },
        Amp { a: 0, b: 0, c: 0, d: 0 },
    ];
    let mut s2 = StateVector::from_amplitudes(three, 2, 1).unwrap();
    assert_eq!(s2.normalize().unwrap_err(), QuantumError::AmplitudeOverflow);
}

#[test]
fn empty_circuit_executes_to_basis_state() {
    let qc = QuantumCircuit::new(2);
    let s = qc.execute().unwrap();
    assert!((prob_f64(s.probability(0).unwrap()) - 1.0).abs() < 1e-12);
    for k in 1..4 {
        assert_eq!(prob_f64(s.probability(k).unwrap()), 0.0);
    }
}
