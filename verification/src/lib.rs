//! An exact quantum state-vector simulation library.
//!
//! The core of the crate is a dense n-qubit state vector whose amplitudes are
//! kept in exact arithmetic over the ring of Gaussian integers extended by
//! the square root of two, scaled by a shared rational denominator.  All
//! gate applications (Hadamard, the Pauli gates, controlled-not) are
//! bit-indexed pair updates on that vector, and their algebraic laws --
//! norm preservation and self-inverse behaviour -- are proved, not sampled.
//!
//! Around the core stand several companion algorithm modules: circuit
//! composition, Grover search, an exact small-size quantum Fourier
//! transform, teleportation, the three-qubit bit-flip code, period finding,
//! and a few classical companions (DNA codec, hyperdimensional vectors,
//! simplicial complexes, a rank-1 constraint system, a stack machine).

pub mod amplitude;
pub mod bb84;
pub mod circuit;
pub mod dna;
pub mod error_correction;
pub mod gates;
pub mod grover;
pub mod hyperdim;
pub mod laws;
pub mod qft;
mod rng;
pub mod shor;
pub mod state;
pub mod synth;
pub mod teleport;
pub mod topology;
pub mod zk;
