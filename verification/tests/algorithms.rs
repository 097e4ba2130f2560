//! The composite algorithms: Grover search, the exact Fourier transform,
//! teleportation, the bit-flip code, and period finding.

use qsim_exact::amplitude::Amp;
use qsim_exact::error_correction::{ErrorCorrectionSim, Qubit};
use qsim_exact::grover::{grover_iterations, GroverSim};
use qsim_exact::qft::QFTSim;
use qsim_exact::shor::{gcd, mod_pow, ShorSim};
use qsim_exact::state::{Probability, QuantumError, StateVector};
use qsim_exact::teleport::Teleportation;

fn prob_f64(p: Probability) -> f64 {
    let scale = (p.den as f64) * (p.den as f64) * 2f64.powi(p.exp as i32);
    ((p.p as f64) + (p.q as f64) * 2f64.sqrt()) / scale
}

fn amp_f64(a: Amp, den: u64, rt: u32) -> (f64, f64) {
    let scale = (den as f64) * 2f64.sqrt().powi(rt as i32);
    (
        ((a.a as f64) + (a.b as f64) * 2f64.sqrt()) / scale,
        ((a.c as f64) + (a.d as f64) * 2f64.sqrt()) / scale,
    )
}

#[test]
fn grover_amplifies_marked_index() {
    // three qubits, marked index 5: after floor(pi/4*sqrt(8)) = 2 rounds
    // the marked probability exceeds 0.9 (exactly 121/128)
    let mut g = GroverSim::new(3).unwrap();
    assert_eq!(g.iterations(), 2);
    g.run(5).unwrap();
    let p5 = prob_f64(g.probability(5).unwrap());
    assert!(p5 > 0.9);
    assert!((p5 - 121.0 / 128.0).abs() < 1e-12);
    let total: f64 = (0..8).map(|k| prob_f64(g.probability(k).unwrap())).sum();
    assert!((total - 1.0).abs() < 1e-9);
}

#[test]
fn grover_iteration_counts_match_float_formula() {
    for n in 1..=30usize {
        let expected = ((1u64 << n) as f64).sqrt() * std::f64::consts::PI / 4.0;
        assert_eq!(grover_iterations(n), expected.floor() as usize, "qubits {}", n);
    }
}

#[test]
fn grover_rejects_bad_input() {
    match GroverSim::new(0) {
        Ok(_) => panic!("zero qubits accepted"),
        Err(e) => assert_eq!(e, QuantumError::InvalidDimension),
    }
    let mut g = GroverSim::new(2).unwrap();
    assert_eq!(g.run(4).unwrap_err(), QuantumError::IndexOutOfRange);
    assert_eq!(g.oracle(4).unwrap_err(), QuantumError::IndexOutOfRange);
}

#[test]
fn qft_round_trip_restores_state() {
    // inverse_transform(transform(s)) == s elementwise, on a 3-qubit state
    let mut s = StateVector::create(3).unwrap();
    s.hadamard(0).unwrap();
    s.controlled_not(0, 1).unwrap();
    s.pauli_y(2).unwrap();
    let before: Vec<(f64, f64)> = (0..8)
        .map(|k| {
            let (a, den, rt) = s.amplitude(k).unwrap();
            amp_f64(a, den, rt)
        })
        .collect();
    let qft = QFTSim::new(3);
    qft.transform(&mut s).unwrap();
    qft.inverse_transform(&mut s).unwrap();
    for k in 0..8 {
        let (a, den, rt) = s.amplitude(k).unwrap();
        let (re, im) = amp_f64(a, den, rt);
        assert!((re - before[k].0).abs() < 1e-9, "re at {}", k);
        assert!((im - before[k].1).abs() < 1e-9, "im at {}", k);
    }
}

#[test]
fn qft_on_basis_state_is_uniform() {
    let mut s = StateVector::create(3).unwrap();
    s.pauli_x(0).unwrap();  // |001>
    let qft = QFTSim::new(3);
    qft.transform(&mut s).unwrap();
    for k in 0..8 {
        assert!((prob_f64(s.probability(k).unwrap()) - 0.125).abs() < 1e-9);
    }
}

#[test]
fn qft_round_trip_two_qubits() {
    let mut s = StateVector::create(2).unwrap();
    s.hadamard(1).unwrap();
    s.pauli_z(0).unwrap();
    let before: Vec<(f64, f64)> = (0..4)
        .map(|k| {
            let (a, den, rt) = s.amplitude(k).unwrap();
            amp_f64(a, den, rt)
        })
        .collect();
    let qft = QFTSim::new(2);
    qft.transform(&mut s).unwrap();
    qft.inverse_transform(&mut s).unwrap();
    for k in 0..4 {
        let (a, den, rt) = s.amplitude(k).unwrap();
        let (re, im) = amp_f64(a, den, rt);
        assert!((re - before[k].0).abs() < 1e-9);
        assert!((im - before[k].1).abs() < 1e-9);
    }
}

#[test]
fn qft_rejects_large_states() {
    let mut s = StateVector::create(4).unwrap();
    let qft = QFTSim::new(4);
    assert_eq!(qft.transform(&mut s).unwrap_err(), QuantumError::InvalidDimension);
}

#[test]
fn teleportation_conditional_states() {
    // payload 0.6|0> + 0.8|1>: the receiver's conditional pairs are the
    // payload up to the documented Pauli corrections
    let alpha = Amp { a: 3, b: 0, c: 0, d: 0 };
    let beta = Amp { a: 4, b: 0, c: 0, d: 0 };
    let mut t = Teleportation::new(alpha, beta, 5).unwrap();
    t.run().unwrap();
    let (_, den, rt) = t.amplitude(0).unwrap();
    let read = |pair: (Amp, Amp)| -> ((f64, f64), (f64, f64)) {
        (amp_f64(pair.0, den, rt), amp_f64(pair.1, den, rt))
    };
    let half = 0.5f64;
    // outcome 00: (alpha, beta) / 2
    let (p0, p1) = read(t.bob_conditional(0).unwrap());
    assert!((p0.0 - 0.6 * half).abs() < 1e-12 && (p1.0 - 0.8 * half).abs() < 1e-12);
    // outcome 01: (beta, alpha) / 2
    let (p0, p1) = read(t.bob_conditional(1).unwrap());
    assert!((p0.0 - 0.8 * half).abs() < 1e-12 && (p1.0 - 0.6 * half).abs() < 1e-12);
    // outcome 10: (alpha, -beta) / 2
    let (p0, p1) = read(t.bob_conditional(2).unwrap());
    assert!((p0.0 - 0.6 * half).abs() < 1e-12 && (p1.0 + 0.8 * half).abs() < 1e-12);
    // outcome 11: (beta, -alpha) / 2 up to a global sign
    let (p0, p1) = read(t.bob_conditional(3).unwrap());
    assert!((p0.0 + 0.8 * half).abs() < 1e-12 && (p1.0 - 0.6 * half).abs() < 1e-12);
}

#[test]
fn teleportation_rejects_bad_outcome_index() {
    let alpha = Amp { a: 1, b: 0, c: 0, d: 0 };
    let beta = Amp { a: 0, b: 0, c: 0, d: 0 };
    let t = Teleportation::new(alpha, beta, 1).unwrap();
    assert_eq!(t.bob_conditional(4).unwrap_err(), QuantumError::IndexOutOfRange);
    match Teleportation::new(alpha, beta, 0) {
        Ok(_) => panic!("zero denominator accepted"),
        Err(e) => assert_eq!(e, QuantumError::InvalidDimension),
    }
}

#[test]
fn error_correction_fixes_single_fault() {
    // encode(0.6, 0.8), fault on qubit 1, syndrome and correction: the
    // state returns to 0.6 at index 0 and 0.8 at index 7
    let source = Qubit::new(Amp { a: 3, b: 0, c: 0, d: 0 }, Amp { a: 4, b: 0, c: 0, d: 0 });
    let mut sim = ErrorCorrectionSim::new(source, 5).unwrap();
    sim.apply_error(1).unwrap();
    let detected = sim.correct();
    assert_eq!(detected, Some(1));
    let (a0, den, rt) = sim.amplitude(0).unwrap();
    let (a7, _, _) = sim.amplitude(7).unwrap();
    assert!((amp_f64(a0, den, rt).0 - 0.6).abs() < 1e-12);
    assert!((amp_f64(a7, den, rt).0 - 0.8).abs() < 1e-12);
    for k in 1..7 {
        let (ak, _, _) = sim.amplitude(k).unwrap();
        assert_eq!((ak.a, ak.b, ak.c, ak.d), (0, 0, 0, 0));
    }
}

#[test]
fn error_correction_identifies_each_qubit() {
    for q in 0..3usize {
        let source = Qubit::new(Amp { a: 3, b: 0, c: 0, d: 0 }, Amp { a: 4, b: 0, c: 0, d: 0 });
        let mut sim = ErrorCorrectionSim::new(source, 5).unwrap();
        sim.apply_error(q).unwrap();
        assert_eq!(sim.correct(), Some(q));
        let (a0, _, _) = sim.amplitude(0).unwrap();
        let (a7, _, _) = sim.amplitude(7).unwrap();
        assert_eq!(a0.a, 3);
        assert_eq!(a7.a, 4);
    }
}

#[test]
fn error_correction_reports_clean_state() {
    let source = Qubit::new(Amp { a: 3, b: 0, c: 0, d: 0 }, Amp { a: 4, b: 0, c: 0, d: 0 });
    let mut sim = ErrorCorrectionSim::new(source, 5).unwrap();
    assert_eq!(sim.correct(), None);
    assert_eq!(sim.apply_error(3).unwrap_err(), QuantumError::InvalidQubitIndex);
}

#[test]
fn shor_period_and_factors_of_fifteen() {
    let shor = ShorSim::new(7, 15);
    let r = shor.find_period().unwrap();
    assert_eq!(r, 4);
    let (f1, f2) = shor.factorize(r);
    assert_eq!(f1 * f2, 15);
    assert!(f1 == 5 && f2 == 3);
}

#[test]
fn mod_pow_and_gcd_basics() {
    assert_eq!(mod_pow(2, 10, 1000), 24);
    assert_eq!(mod_pow(7, 0, 13), 1);
    assert_eq!(mod_pow(5, 3, 7), 6);
    assert_eq!(gcd(48, 18), 6);
    assert_eq!(gcd(17, 5), 1);
    assert_eq!(gcd(0, 9), 9);
}
