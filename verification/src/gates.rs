//! Gate application, by bit-indexed pair updates.
//!
//! Every single-qubit gate pairs each basis index whose target bit is clear
//! with the index one `2^q` above it and rewrites that pair with a fixed
//! two-by-two action; the controlled-not swaps partners along the target
//! bit wherever the control bit is set.  A gate therefore touches `2^(n-1)`
//! disjoint pairs and costs `O(2^n)`, never materializing a `2^n x 2^n`
//! matrix.  All updates read the old amplitudes of a pair before writing
//! either, by building the new vector aside and installing it whole.

use vstd::prelude::*;
use crate::amplitude::{Amp, AmpValue, amp_add, amp_sub, amp_neg, amp_mul_i, amp_mul_neg_i,
    in_limit};
use crate::state::{StateVector, StateModel, QuantumError, pow2_exec};

verus! {

use vstd::arithmetic::power2::{pow2, lemma_pow2_strictly_increases, lemma_pow2_pos, lemma2_to64};
use vstd::arithmetic::mul::lemma_mul_basics;
use vstd::bits::{lemma_usize_shr_is_div, lemma_usize_shl_is_mul, lemma_usize_pow2_no_overflow};

/// Bit `q` of basis index `i`, in the little-endian index convention.
pub open spec fn bit_is_set(i: int, q: nat) -> bool {
    (i / pow2(q) as int) % 2 == 1
}

/// Index `i` with bit `q` flipped.
pub open spec fn flip_bit(i: int, q: nat) -> int {
    if bit_is_set(i, q) {
        i - pow2(q)
    } else {
        i + pow2(q)
    }
}

/// Hadamard on qubit `q`: each pair `(x, y)` becomes `(x + y, x - y)`,
/// and the owning state absorbs the `1/sqrt(2)` into its scale.
pub open spec fn spec_hadamard(s: Seq<AmpValue>, q: nat) -> Seq<AmpValue> {
    Seq::new(
        s.len(),
        |i: int|
            if bit_is_set(i, q) {
                amp_sub(s[i - pow2(q)], s[i])
            } else {
                amp_add(s[i], s[i + pow2(q)])
            },
    )
}

/// Pauli-X on qubit `q`: swap each pair.
pub open spec fn spec_pauli_x(s: Seq<AmpValue>, q: nat) -> Seq<AmpValue> {
    Seq::new(s.len(), |i: int| s[flip_bit(i, q)])
}

/// Pauli-Y on qubit `q`: swap each pair with phases `-i` and `i`.
pub open spec fn spec_pauli_y(s: Seq<AmpValue>, q: nat) -> Seq<AmpValue> {
    Seq::new(
        s.len(),
        |i: int|
            if bit_is_set(i, q) {
                amp_mul_i(s[i - pow2(q)])
            } else {
                amp_mul_neg_i(s[i + pow2(q)])
            },
    )
}

/// Pauli-Z on qubit `q`: negate where bit `q` is set.
pub open spec fn spec_pauli_z(s: Seq<AmpValue>, q: nat) -> Seq<AmpValue> {
    Seq::new(
        s.len(),
        |i: int|
            if bit_is_set(i, q) {
                amp_neg(s[i])
            } else {
                s[i]
            },
    )
}

/// Controlled-not: flip bit `t` wherever bit `c` is set.
pub open spec fn spec_cnot(s: Seq<AmpValue>, c: nat, t: nat) -> Seq<AmpValue> {
    Seq::new(
        s.len(),
        |i: int|
            if bit_is_set(i, c) {
                s[flip_bit(i, t)]
            } else {
                s[i]
            },
    )
}

/// The Hadamard update stays within the stored coordinate range, and the
/// scale exponent can still grow by one.
pub open spec fn fits_hadamard(m: StateModel, q: nat) -> bool {
    &&& m.rt + 1 <= u32::MAX
    &&& forall|i: int| 0 <= i < m.nums.len() ==> in_limit(#[trigger] spec_hadamard(m.nums, q)[i])
}

/// Hadamard at the model level: paired updates plus one more `sqrt(2)` in
/// the scale.
pub open spec fn model_hadamard(m: StateModel, q: nat) -> StateModel {
    StateModel { nums: spec_hadamard(m.nums, q), den: m.den, rt: (m.rt + 1) as nat, qubits: m.qubits }
}

/// Pauli-X at the model level.
pub open spec fn model_pauli_x(m: StateModel, q: nat) -> StateModel {
    StateModel { nums: spec_pauli_x(m.nums, q), den: m.den, rt: m.rt, qubits: m.qubits }
}

/// Pauli-Y at the model level.
pub open spec fn model_pauli_y(m: StateModel, q: nat) -> StateModel {
    StateModel { nums: spec_pauli_y(m.nums, q), den: m.den, rt: m.rt, qubits: m.qubits }
}

/// Pauli-Z at the model level.
pub open spec fn model_pauli_z(m: StateModel, q: nat) -> StateModel {
    StateModel { nums: spec_pauli_z(m.nums, q), den: m.den, rt: m.rt, qubits: m.qubits }
}

/// Controlled-not at the model level.
pub open spec fn model_cnot(m: StateModel, c: nat, t: nat) -> StateModel {
    StateModel { nums: spec_cnot(m.nums, c, t), den: m.den, rt: m.rt, qubits: m.qubits }
}

/// An index with bit `q` clear has its partner one `2^q` above, inside the
/// same `2^n` range.
pub proof fn lemma_pair_up(i: usize, q: usize, n: usize)
    requires
        q < n,
        n <= 30,
        (i as int) < pow2(n as nat),
        !bit_is_set(i as int, q as nat),
    ensures
        i as int + pow2(q as nat) < pow2(n as nat),
        bit_is_set(i as int + pow2(q as nat), q as nat),
{
    lemma_usize_pow2_no_overflow(n as nat);
    lemma_usize_pow2_no_overflow(q as nat);
    lemma_mul_basics(pow2(q as nat) as int);
    lemma_mul_basics(pow2(n as nat) as int);
    lemma_usize_shl_is_mul(1usize, q);
    lemma_usize_shl_is_mul(1usize, n);
    lemma_usize_shr_is_div(i, q);
    let hq: usize = 1usize << q;
    assert((i >> q) & 1 == (i >> q) % 2) by (bit_vector);
    assert(i + hq < (1usize << n)) by (bit_vector)
        requires
            q < n,
            n <= 30,
            i < (1usize << n),
            ((i >> q) & 1) == 0,
            hq == 1usize << q,
    ;
    let j: usize = (i + hq) as usize;
    assert(((j >> q) & 1) == 1) by (bit_vector)
        requires
            q < n,
            n <= 30,
            i < (1usize << n),
            ((i >> q) & 1) == 0,
            hq == 1usize << q,
            j == i + hq,
    ;
    lemma_usize_shr_is_div(j, q);
    assert((j >> q) & 1 == (j >> q) % 2) by (bit_vector);
}

/// An index with bit `q` set has its partner one `2^q` below.
pub proof fn lemma_pair_down(j: usize, q: usize, n: usize)
    requires
        q < n,
        n <= 30,
        (j as int) < pow2(n as nat),
        bit_is_set(j as int, q as nat),
    ensures
        j as int - pow2(q as nat) >= 0,
        !bit_is_set(j as int - pow2(q as nat), q as nat),
{
    lemma_usize_pow2_no_overflow(n as nat);
    lemma_usize_pow2_no_overflow(q as nat);
    lemma_mul_basics(pow2(q as nat) as int);
    lemma_mul_basics(pow2(n as nat) as int);
    lemma_usize_shl_is_mul(1usize, q);
    lemma_usize_shl_is_mul(1usize, n);
    lemma_usize_shr_is_div(j, q);
    let hq: usize = 1usize << q;
    assert((j >> q) & 1 == (j >> q) % 2) by (bit_vector);
    assert(j >= hq) by (bit_vector)
        requires
            q < n,
            n <= 30,
            ((j >> q) & 1) == 1,
            hq == 1usize << q,
    ;
    let k: usize = (j - hq) as usize;
    assert(((k >> q) & 1) == 0) by (bit_vector)
        requires
            q < n,
            n <= 30,
            j < (1usize << n),
            ((j >> q) & 1) == 1,
            hq == 1usize << q,
            k == j - hq,
    ;
    lemma_usize_shr_is_div(k, q);
    assert((k >> q) & 1 == (k >> q) % 2) by (bit_vector);
}

/// Flipping bit `t` leaves every other bit `c` unchanged.
pub proof fn lemma_flip_keeps_bit(i: usize, t: usize, c: usize, n: usize)
    requires
        t < n,
        c < n,
        c != t,
        n <= 30,
        (i as int) < pow2(n as nat),
    ensures
        bit_is_set(flip_bit(i as int, t as nat), c as nat) == bit_is_set(i as int, c as nat),
{
    lemma_usize_pow2_no_overflow(n as nat);
    lemma_usize_pow2_no_overflow(t as nat);
    lemma_usize_pow2_no_overflow(c as nat);
    lemma_mul_basics(pow2(t as nat) as int);
    lemma_mul_basics(pow2(c as nat) as int);
    lemma_mul_basics(pow2(n as nat) as int);
    lemma_usize_shl_is_mul(1usize, t);
    lemma_usize_shl_is_mul(1usize, c);
    lemma_usize_shl_is_mul(1usize, n);
    lemma_usize_shr_is_div(i, t);
    lemma_usize_shr_is_div(i, c);
    let ht: usize = 1usize << t;
    assert((i >> t) & 1 == (i >> t) % 2) by (bit_vector);
    assert((i >> c) & 1 == (i >> c) % 2) by (bit_vector);
    if bit_is_set(i as int, t as nat) {
        lemma_pair_down(i, t, n);
        let k: usize = (i - ht) as usize;
        lemma_usize_shr_is_div(k, c);
        assert((k >> c) & 1 == (k >> c) % 2) by (bit_vector);
        assert(((k >> c) & 1) == ((i >> c) & 1)) by (bit_vector)
            requires
                t < n,
                c < n,
                c != t,
                n <= 30,
                i < (1usize << n),
                ((i >> t) & 1) == 1,
                ht == 1usize << t,
                k == i - ht,
        ;
    } else {
        lemma_pair_up(i, t, n);
        let k: usize = (i + ht) as usize;
        lemma_usize_shr_is_div(k, c);
        assert((k >> c) & 1 == (k >> c) % 2) by (bit_vector);
        assert(((k >> c) & 1) == ((i >> c) & 1)) by (bit_vector)
            requires
                t < n,
                c < n,
                c != t,
                n <= 30,
                i < (1usize << n),
                ((i >> t) & 1) == 0,
                ht == 1usize << t,
                k == i + ht,
        ;
    }
}


/// `lemma_pair_up` restated over mathematical integers.
pub proof fn lemma_pair_up_int(i: int, q: nat, n: nat)
    requires
        q < n,
        n <= 30,
        0 <= i < pow2(n),
        !bit_is_set(i, q),
    ensures
        i + pow2(q) < pow2(n),
        bit_is_set(i + pow2(q), q),
{
    lemma2_to64();
    if n < 30 {
        lemma_pow2_strictly_increases(n, 30);
    }
    lemma_pair_up(i as usize, q as usize, n as usize);
}

/// `lemma_pair_down` restated over mathematical integers.
pub proof fn lemma_pair_down_int(j: int, q: nat, n: nat)
    requires
        q < n,
        n <= 30,
        0 <= j < pow2(n),
        bit_is_set(j, q),
    ensures
        j - pow2(q) >= 0,
        !bit_is_set(j - pow2(q), q),
{
    lemma2_to64();
    if n < 30 {
        lemma_pow2_strictly_increases(n, 30);
    }
    lemma_pair_down(j as usize, q as usize, n as usize);
}

/// `lemma_flip_keeps_bit` restated over mathematical integers.
pub proof fn lemma_flip_keeps_bit_int(i: int, t: nat, c: nat, n: nat)
    requires
        t < n,
        c < n,
        c != t,
        n <= 30,
        0 <= i < pow2(n),
    ensures
        bit_is_set(flip_bit(i, t), c) == bit_is_set(i, c),
{
    lemma2_to64();
    if n < 30 {
        lemma_pow2_strictly_increases(n, 30);
    }
    lemma_flip_keeps_bit(i as usize, t as usize, c as usize, n as usize);
}

impl StateVector {
    /// Hadamard on qubit `q`.
    ///
    /// Fails with `InvalidQubitIndex` exactly when `q` is not below the
    /// qubit count, with `AmplitudeOverflow` exactly when the exact update
    /// leaves the coordinate range; on failure the state is untouched.
    pub fn hadamard(&mut self, q: usize) -> (r: Result<(), QuantumError>)
        requires
            old(self).wf(),
        ensures
            final(self).wf(),
            match r {
                Ok(()) => {
                    &&& (q as nat) < old(self)@.qubits
                    &&& fits_hadamard(old(self)@, q as nat)
                    &&& final(self)@ == model_hadamard(old(self)@, q as nat)
                },
                Err(e) => {
                    &&& *final(self) == *old(self)
                    &&& (e == QuantumError::InvalidQubitIndex || e
                        == QuantumError::AmplitudeOverflow)
                    &&& (e == QuantumError::InvalidQubitIndex <==> (q as nat)
                        >= old(self)@.qubits)
                    &&& (e == QuantumError::AmplitudeOverflow <==> (q as nat) < old(self)@.qubits
                        && !fits_hadamard(old(self)@, q as nat))
                },
            },
    {
        if q >= self.num_qubits() {
            return Err(QuantumError::InvalidQubitIndex);
        }
        if self.scale_rt() == u32::MAX {
            return Err(QuantumError::AmplitudeOverflow);
        }
        let n = self.num_qubits();
        let size = self.dimension();
        let half_u64 = pow2_exec(q as u32);
        proof {
            lemma_pow2_strictly_increases(q as nat, 31);
            lemma2_to64();
        }
        let half: usize = half_u64 as usize;
        proof {
            lemma_pow2_pos(q as nat);
        }
        let ghost s = self@.nums;
        let mut out: Vec<Amp> = Vec::new();
        let mut i: usize = 0;
        while i < size
            invariant
                self.wf(),
                q < n,
                n == self@.qubits,
                size == self@.nums.len(),
                half == pow2(q as nat),
                1 <= half,
                n <= 30,
                s == self@.nums,
                out@.len() == i,
                i <= size,
                forall|k: int| 0 <= k < i ==> #[trigger] out@[k]@ == spec_hadamard(s, q as nat)[k],
                forall|k: int| 0 <= k < i ==> in_limit(#[trigger] out@[k]@),
            decreases size - i,
        {
            proof {
                assert(pow2(n as nat) == self@.nums.len());
            }
            let bit = (i / half) % 2 == 1;
            proof {
                assert(bit == bit_is_set(i as int, q as nat));
            }
            let v_opt = if bit {
                proof {
                    lemma_pair_down(i, q, n);
                }
                let j = i - half;
                self.amp_at(j).checked_sub(&self.amp_at(i))
            } else {
                proof {
                    lemma_pair_up(i, q, n);
                }
                let j = i + half;
                self.amp_at(i).checked_add(&self.amp_at(j))
            };
            match v_opt {
                Some(v) => out.push(v),
                None => {
                    proof {
                        assert(!in_limit(spec_hadamard(s, q as nat)[i as int]));
                    }
                    return Err(QuantumError::AmplitudeOverflow);
                },
            }
            i = i + 1;
        }
        self.install(out, 1);
        proof {
            assert(self@.nums =~= spec_hadamard(s, q as nat));
            assert(self@ =~= model_hadamard(old(self)@, q as nat));
        }
        Ok(())
    }

    /// Pauli-X on qubit `q`: the bit flip.
    ///
    /// Fails with `InvalidQubitIndex` exactly when `q` is not below the
    /// qubit count; on failure the state is untouched.
    pub fn pauli_x(&mut self, q: usize) -> (r: Result<(), QuantumError>)
        requires
            old(self).wf(),
        ensures
            final(self).wf(),
            match r {
                Ok(()) => {
                    &&& (q as nat) < old(self)@.qubits
                    &&& final(self)@ == model_pauli_x(old(self)@, q as nat)
                },
                Err(e) => {
                    &&& *final(self) == *old(self)
                    &&& e == QuantumError::InvalidQubitIndex
                    &&& (q as nat) >= old(self)@.qubits
                },
            },
    {
        if q >= self.num_qubits() {
            return Err(QuantumError::InvalidQubitIndex);
        }
        let n = self.num_qubits();
        let size = self.dimension();
        let half_u64 = pow2_exec(q as u32);
        proof {
            lemma_pow2_strictly_increases(q as nat, 31);
            lemma2_to64();
        }
        let half: usize = half_u64 as usize;
        proof {
            lemma_pow2_pos(q as nat);
        }
        let ghost s = self@.nums;
        let mut out: Vec<Amp> = Vec::new();
        let mut i: usize = 0;
        while i < size
            invariant
                self.wf(),
                q < n,
                n == self@.qubits,
                size == self@.nums.len(),
                half == pow2(q as nat),
                1 <= half,
                n <= 30,
                s == self@.nums,
                out@.len() == i,
                i <= size,
                forall|k: int| 0 <= k < i ==> #[trigger] out@[k]@ == spec_pauli_x(s, q as nat)[k],
                forall|k: int| 0 <= k < i ==> in_limit(#[trigger] out@[k]@),
            decreases size - i,
        {
            let bit = (i / half) % 2 == 1;
            proof {
                assert(bit == bit_is_set(i as int, q as nat));
            }
            if bit {
                proof {
                    lemma_pair_down(i, q, n);
                }
                out.push(self.amp_at(i - half));
            } else {
                proof {
                    lemma_pair_up(i, q, n);
                }
                out.push(self.amp_at(i + half));
            }
            i = i + 1;
        }
        self.install(out, 0);
        proof {
            assert(self@.nums =~= spec_pauli_x(s, q as nat));
            assert(self@ =~= model_pauli_x(old(self)@, q as nat));
        }
        Ok(())
    }

    /// Pauli-Y on qubit `q`: bit flip with phases `i` and `-i`.
    ///
    /// Fails with `InvalidQubitIndex` exactly when `q` is not below the
    /// qubit count; on failure the state is untouched.
    pub fn pauli_y(&mut self, q: usize) -> (r: Result<(), QuantumError>)
        requires
            old(self).wf(),
        ensures
            final(self).wf(),
            match r {
                Ok(()) => {
                    &&& (q as nat) < old(self)@.qubits
                    &&& final(self)@ == model_pauli_y(old(self)@, q as nat)
                },
                Err(e) => {
                    &&& *final(self) == *old(self)
                    &&& e == QuantumError::InvalidQubitIndex
                    &&& (q as nat) >= old(self)@.qubits
                },
            },
    {
        if q >= self.num_qubits() {
            return Err(QuantumError::InvalidQubitIndex);
        }
        let n = self.num_qubits();
        let size = self.dimension();
        let half_u64 = pow2_exec(q as u32);
        proof {
            lemma_pow2_strictly_increases(q as nat, 31);
            lemma2_to64();
        }
        let half: usize = half_u64 as usize;
        proof {
            lemma_pow2_pos(q as nat);
        }
        let ghost s = self@.nums;
        let mut out: Vec<Amp> = Vec::new();
        let mut i: usize = 0;
        while i < size
            invariant
                self.wf(),
                q < n,
                n == self@.qubits,
                size == self@.nums.len(),
                half == pow2(q as nat),
                1 <= half,
                n <= 30,
                s == self@.nums,
                out@.len() == i,
                i <= size,
                forall|k: int| 0 <= k < i ==> #[trigger] out@[k]@ == spec_pauli_y(s, q as nat)[k],
                forall|k: int| 0 <= k < i ==> in_limit(#[trigger] out@[k]@),
            decreases size - i,
        {
            let bit = (i / half) % 2 == 1;
            proof {
                assert(bit == bit_is_set(i as int, q as nat));
            }
            if bit {
                proof {
                    lemma_pair_down(i, q, n);
                }
                out.push(self.amp_at(i - half).mul_i());
            } else {
                proof {
                    lemma_pair_up(i, q, n);
                }
                out.push(self.amp_at(i + half).mul_neg_i());
            }
            i = i + 1;
        }
        self.install(out, 0);
        proof {
            assert(self@.nums =~= spec_pauli_y(s, q as nat));
            assert(self@ =~= model_pauli_y(old(self)@, q as nat));
        }
        Ok(())
    }

    /// Pauli-Z on qubit `q`: negate the amplitudes whose bit `q` is set.
    ///
    /// Fails with `InvalidQubitIndex` exactly when `q` is not below the
    /// qubit count; on failure the state is untouched.
    pub fn pauli_z(&mut self, q: usize) -> (r: Result<(), QuantumError>)
        requires
            old(self).wf(),
        ensures
            final(self).wf(),
            match r {
                Ok(()) => {
                    &&& (q as nat) < old(self)@.qubits
                    &&& final(self)@ == model_pauli_z(old(self)@, q as nat)
                },
                Err(e) => {
                    &&& *final(self) == *old(self)
                    &&& e == QuantumError::InvalidQubitIndex
                    &&& (q as nat) >= old(self)@.qubits
                },
            },
    {
        if q >= self.num_qubits() {
            return Err(QuantumError::InvalidQubitIndex);
        }
        let n = self.num_qubits();
        let size = self.dimension();
        let half_u64 = pow2_exec(q as u32);
        proof {
            lemma_pow2_strictly_increases(q as nat, 31);
            lemma2_to64();
        }
        let half: usize = half_u64 as usize;
        proof {
            lemma_pow2_pos(q as nat);
        }
        let ghost s = self@.nums;
        let mut out: Vec<Amp> = Vec::new();
        let mut i: usize = 0;
        while i < size
            invariant
                self.wf(),
                q < n,
                n == self@.qubits,
                size == self@.nums.len(),
                half == pow2(q as nat),
                1 <= half,
                n <= 30,
                s == self@.nums,
                out@.len() == i,
                i <= size,
                forall|k: int| 0 <= k < i ==> #[trigger] out@[k]@ == spec_pauli_z(s, q as nat)[k],
                forall|k: int| 0 <= k < i ==> in_limit(#[trigger] out@[k]@),
            decreases size - i,
        {
            let bit = (i / half) % 2 == 1;
            proof {
                assert(bit == bit_is_set(i as int, q as nat));
            }
            if bit {
                out.push(self.amp_at(i).neg());
            } else {
                out.push(self.amp_at(i));
            }
            i = i + 1;
        }
        self.install(out, 0);
        proof {
            assert(self@.nums =~= spec_pauli_z(s, q as nat));
            assert(self@ =~= model_pauli_z(old(self)@, q as nat));
        }
        Ok(())
    }

    /// Controlled-not with the given control and target qubits.
    ///
    /// Fails with `InvalidQubitIndex` exactly when either qubit is not
    /// below the qubit count, and otherwise with `ControlEqualsTarget`
    /// exactly when the two coincide; on failure the state is untouched.
    pub fn controlled_not(&mut self, control: usize, target: usize) -> (r: Result<
        (),
        QuantumError,
    >)
        requires
            old(self).wf(),
        ensures
            final(self).wf(),
            match r {
                Ok(()) => {
                    &&& (control as nat) < old(self)@.qubits
                    &&& (target as nat) < old(self)@.qubits
                    &&& control != target
                    &&& final(self)@ == model_cnot(old(self)@, control as nat, target as nat)
                },
                Err(e) => {
                    &&& *final(self) == *old(self)
                    &&& (e == QuantumError::InvalidQubitIndex || e
                        == QuantumError::ControlEqualsTarget)
                    &&& (e == QuantumError::InvalidQubitIndex <==> ((control as nat)
                        >= old(self)@.qubits || (target as nat) >= old(self)@.qubits))
                    &&& (e == QuantumError::ControlEqualsTarget <==> ((control as nat)
                        < old(self)@.qubits && (target as nat) < old(self)@.qubits && control
                        == target))
                },
            },
    {
        if control >= self.num_qubits() || target >= self.num_qubits() {
            return Err(QuantumError::InvalidQubitIndex);
        }
        if control == target {
            return Err(QuantumError::ControlEqualsTarget);
        }
        let n = self.num_qubits();
        let size = self.dimension();
        let half_c_u64 = pow2_exec(control as u32);
        let half_t_u64 = pow2_exec(target as u32);
        proof {
            lemma_pow2_strictly_increases(control as nat, 31);
            lemma_pow2_strictly_increases(target as nat, 31);
            lemma2_to64();
        }
        let half_c: usize = half_c_u64 as usize;
        let half_t: usize = half_t_u64 as usize;
        proof {
            lemma_pow2_pos(control as nat);
            lemma_pow2_pos(target as nat);
        }
        let ghost s = self@.nums;
        let mut out: Vec<Amp> = Vec::new();
        let mut i: usize = 0;
        while i < size
            invariant
                self.wf(),
                control < n,
                target < n,
                control != target,
                n == self@.qubits,
                size == self@.nums.len(),
                half_c == pow2(control as nat),
                half_t == pow2(target as nat),
                1 <= half_c,
                1 <= half_t,
                n <= 30,
                s == self@.nums,
                out@.len() == i,
                i <= size,
                forall|k: int|
                    0 <= k < i ==> #[trigger] out@[k]@ == spec_cnot(
                        s,
                        control as nat,
                        target as nat,
                    )[k],
                forall|k: int| 0 <= k < i ==> in_limit(#[trigger] out@[k]@),
            decreases size - i,
        {
            let cbit = (i / half_c) % 2 == 1;
            proof {
                assert(cbit == bit_is_set(i as int, control as nat));
            }
            if cbit {
                let tbit = (i / half_t) % 2 == 1;
                proof {
                    assert(tbit == bit_is_set(i as int, target as nat));
                }
                if tbit {
                    proof {
                        lemma_pair_down(i, target, n);
                    }
                    out.push(self.amp_at(i - half_t));
                } else {
                    proof {
                        lemma_pair_up(i, target, n);
                    }
                    out.push(self.amp_at(i + half_t));
                }
            } else {
                out.push(self.amp_at(i));
            }
            i = i + 1;
        }
        self.install(out, 0);
        proof {
            assert(self@.nums =~= spec_cnot(s, control as nat, target as nat));
            assert(self@ =~= model_cnot(old(self)@, control as nat, target as nat));
        }
        Ok(())
    }
}

} // verus!
