//! Algebraic laws of gate application, proved at the model level.
//!
//! The central results: every gate preserves the unit-norm invariant
//! (unitarity), the Hadamard gate is self-inverse up to the scale it
//! absorbs, and the Pauli gates and the controlled-not are self-inverse
//! exactly.

use vstd::prelude::*;
use crate::amplitude::{AmpValue, amp_add, amp_sub, amp_neg, amp_mul_i, amp_mul_neg_i,
    amp_mul_sqrt2, amp_scale, norm_p, norm_q, lemma_hadamard_pair_norm, lemma_neg_norm,
    lemma_mul_i_norm};
use crate::state::{StateModel, state_wf, is_unit, sum_p, sum_q, lemma_sum_concat};
use crate::gates::{bit_is_set, flip_bit, spec_hadamard, spec_pauli_x, spec_pauli_y, spec_pauli_z,
    spec_cnot, model_hadamard, model_pauli_x, model_pauli_y, model_pauli_z, model_cnot,
    lemma_pair_up_int, lemma_pair_down_int, lemma_flip_keeps_bit_int};

verus! {

use vstd::arithmetic::power2::{pow2, lemma_pow2_adds, lemma_pow2_unfold, lemma_pow2_pos};
use vstd::arithmetic::div_mod::{lemma_fundamental_div_mod, lemma_fundamental_div_mod_converse_div,
    lemma_mod_multiples_basic, lemma_mod_multiples_vanish, lemma_small_mod};
use vstd::arithmetic::mul::lemma_mul_is_distributive_add;

/// The two new values at a gate pair carry `lam` times the squared
/// magnitude of the two old values.
pub open spec fn pair_norm_scaled(
    new1: AmpValue,
    new2: AmpValue,
    old1: AmpValue,
    old2: AmpValue,
    lam: int,
) -> bool {
    &&& norm_p(new1) + norm_p(new2) == lam * (norm_p(old1) + norm_p(old2))
    &&& norm_q(new1) + norm_q(new2) == lam * (norm_q(old1) + norm_q(old2))
}

/// Every pair along bit `q` satisfies `pair_norm_scaled` with factor `lam`.
pub open spec fn all_pairs_scaled(t: Seq<AmpValue>, s: Seq<AmpValue>, q: nat, lam: int) -> bool {
    &&& t.len() == s.len()
    &&& forall|i: int|
        0 <= i < s.len() && !bit_is_set(i, q) && i + pow2(q) < s.len() ==> pair_norm_scaled(
            #[trigger] t[i],
            t[i + pow2(q)],
            s[i],
            s[i + pow2(q)],
            lam,
        )
}

/// Folding `pair_norm_scaled` over four aligned sequences.
proof fn lemma_four_sum(
    n1: Seq<AmpValue>,
    n2: Seq<AmpValue>,
    o1: Seq<AmpValue>,
    o2: Seq<AmpValue>,
    lam: int,
)
    requires
        n1.len() == n2.len() == o1.len() == o2.len(),
        forall|j: int|
            0 <= j < n1.len() ==> pair_norm_scaled(#[trigger] n1[j], n2[j], o1[j], o2[j], lam),
    ensures
        sum_p(n1) + sum_p(n2) == lam * (sum_p(o1) + sum_p(o2)),
        sum_q(n1) + sum_q(n2) == lam * (sum_q(o1) + sum_q(o2)),
    decreases n1.len(),
{
    if n1.len() == 0 {
        assert(lam * 0 == 0) by (nonlinear_arith);
    } else {
        let j = n1.len() - 1;
        lemma_four_sum(n1.drop_last(), n2.drop_last(), o1.drop_last(), o2.drop_last(), lam);
        assert(pair_norm_scaled(n1[j], n2[j], o1[j], o2[j], lam));
        lemma_mul_is_distributive_add(
            lam,
            sum_p(o1.drop_last()) + sum_p(o2.drop_last()),
            norm_p(o1[j]) + norm_p(o2[j]),
        );
        lemma_mul_is_distributive_add(
            lam,
            sum_q(o1.drop_last()) + sum_q(o2.drop_last()),
            norm_q(o1[j]) + norm_q(o2[j]),
        );
        assert(sum_p(o1) + sum_p(o2) == (sum_p(o1.drop_last()) + sum_p(o2.drop_last())) + (norm_p(
            o1[j],
        ) + norm_p(o2[j])));
    }
}

/// Within a block that starts at a multiple of `2^(q+1)`, the first-half
/// offsets have bit `q` clear and the second-half offsets have it set.
proof fn lemma_block_bits(t: int, j: int, q: nat)
    requires
        t >= 0,
        t % (2 * (pow2(q) as int)) == 0,
        0 <= j < pow2(q),
    ensures
        !bit_is_set(t + j, q),
        bit_is_set(t + pow2(q) + j, q),
        (t + j) + pow2(q) == t + pow2(q) + j,
{
    let h = pow2(q) as int;
    lemma_pow2_pos(q);
    let m = t / (2 * h);
    lemma_fundamental_div_mod(t, 2 * h);
    assert(t == 2 * h * m);
    assert(2 * h * m == h * (2 * m)) by (nonlinear_arith);
    assert(t + j == h * (2 * m) + j);
    lemma_fundamental_div_mod_converse_div(t + j, h, 2 * m, j);
    assert((t + j) / h == 2 * m);
    lemma_mod_multiples_basic(m, 2);
    assert((2 * m) % 2 == 0) by {
        assert(m * 2 == 2 * m);
    }
    assert(t + h + j == h * (2 * m + 1) + j) by {
        assert(h * (2 * m + 1) == h * (2 * m) + h) by (nonlinear_arith);
    }
    lemma_fundamental_div_mod_converse_div(t + h + j, h, 2 * m + 1, j);
    assert((t + h + j) / h == 2 * m + 1);
    lemma_mod_multiples_vanish(m, 1, 2);
    lemma_small_mod(1, 2);
    assert((2 * m + 1) % 2 == 1);
}

/// Block-by-block fold: if every pair along bit `q` scales its squared
/// magnitude by `lam`, the prefix sums over whole blocks scale by `lam`.
proof fn lemma_blockwise(t: Seq<AmpValue>, s: Seq<AmpValue>, q: nat, lam: int, hi: int)
    requires
        t.len() == s.len(),
        all_pairs_scaled(t, s, q, lam),
        0 <= hi <= s.len(),
        hi % (2 * (pow2(q) as int)) == 0,
    ensures
        sum_p(t.subrange(0, hi)) == lam * sum_p(s.subrange(0, hi)),
        sum_q(t.subrange(0, hi)) == lam * sum_q(s.subrange(0, hi)),
    decreases hi,
{
    let h = pow2(q) as int;
    lemma_pow2_pos(q);
    if hi == 0 {
        assert(t.subrange(0, 0) =~= Seq::<AmpValue>::empty());
        assert(s.subrange(0, 0) =~= Seq::<AmpValue>::empty());
        assert(lam * 0 == 0) by (nonlinear_arith);
    } else {
        let lo = hi - 2 * h;
        assert(hi >= 2 * h) by {
            lemma_fundamental_div_mod(hi, 2 * h);
            assert(hi == 2 * h * (hi / (2 * h)));
            assert(hi / (2 * h) >= 1) by {
                if hi / (2 * h) <= 0 {
                    assert(2 * h * (hi / (2 * h)) <= 0) by (nonlinear_arith)
                        requires
                            h >= 1,
                            hi / (2 * h) <= 0,
                    ;
                }
            }
            assert(2 * h * (hi / (2 * h)) >= 2 * h) by (nonlinear_arith)
                requires
                    h >= 1,
                    hi / (2 * h) >= 1,
            ;
        }
        assert(lo % (2 * h) == 0) by {
            lemma_fundamental_div_mod(hi, 2 * h);
            let m = hi / (2 * h);
            assert(hi == 2 * h * m);
            assert(lo == 2 * h * (m - 1)) by (nonlinear_arith)
                requires
                    hi == 2 * h * m,
                    lo == hi - 2 * h,
            ;
            lemma_mod_multiples_basic(m - 1, 2 * h);
            assert((m - 1) * (2 * h) == 2 * h * (m - 1)) by (nonlinear_arith);
        }
        lemma_blockwise(t, s, q, lam, lo);
        // split [0, hi) into [0, lo), the first half-block and the second.
        let sa = s.subrange(lo, lo + h);
        let sb = s.subrange(lo + h, hi);
        let ta = t.subrange(lo, lo + h);
        let tb = t.subrange(lo + h, hi);
        assert(s.subrange(0, hi) =~= s.subrange(0, lo) + (sa + sb));
        assert(t.subrange(0, hi) =~= t.subrange(0, lo) + (ta + tb));
        lemma_sum_concat(s.subrange(0, lo), sa + sb);
        lemma_sum_concat(t.subrange(0, lo), ta + tb);
        lemma_sum_concat(sa, sb);
        lemma_sum_concat(ta, tb);
        assert forall|j: int| 0 <= j < h implies pair_norm_scaled(
            #[trigger] ta[j],
            tb[j],
            sa[j],
            sb[j],
            lam,
        ) by {
            lemma_block_bits(lo, j, q);
            assert(ta[j] == t[lo + j]);
            assert(tb[j] == t[lo + h + j]);
            assert(sa[j] == s[lo + j]);
            assert(sb[j] == s[lo + h + j]);
            assert(pair_norm_scaled(t[lo + j], t[lo + j + h], s[lo + j], s[lo + j + h], lam));
        }
        lemma_four_sum(ta, tb, sa, sb, lam);
        lemma_mul_is_distributive_add(
            lam,
            sum_p(s.subrange(0, lo)),
            sum_p(sa) + sum_p(sb),
        );
        lemma_mul_is_distributive_add(
            lam,
            sum_q(s.subrange(0, lo)),
            sum_q(sa) + sum_q(sb),
        );
    }
}

/// If every pair along bit `q` scales its squared magnitude by `lam`, the
/// whole sums scale by `lam`.
pub proof fn lemma_pairs_scale_sums(t: Seq<AmpValue>, s: Seq<AmpValue>, q: nat, n: nat, lam: int)
    requires
        s.len() == pow2(n),
        t.len() == s.len(),
        q < n,
        all_pairs_scaled(t, s, q, lam),
    ensures
        sum_p(t) == lam * sum_p(s),
        sum_q(t) == lam * sum_q(s),
{
    let h = pow2(q) as int;
    lemma_pow2_pos(q);
    assert(pow2(n) == 2 * pow2(q) * pow2((n - q - 1) as nat)) by {
        lemma_pow2_adds((q + 1) as nat, (n - q - 1) as nat);
        lemma_pow2_unfold((q + 1) as nat);
        assert((2 * pow2(q)) * pow2((n - q - 1) as nat) == 2 * (pow2(q) * pow2(
            (n - q - 1) as nat,
        ))) by (nonlinear_arith);
    }
    assert(pow2(n) as int % (2 * h) == 0) by {
        lemma_mod_multiples_basic(pow2((n - q - 1) as nat) as int, 2 * h);
        assert(pow2((n - q - 1) as nat) as int * (2 * h) == 2 * h * pow2(
            (n - q - 1) as nat,
        )) by (nonlinear_arith);
    }
    lemma_blockwise(t, s, q, lam, s.len() as int);
    assert(t.subrange(0, t.len() as int) =~= t);
    assert(s.subrange(0, s.len() as int) =~= s);
}

/// Unitarity of the Hadamard gate: it doubles the unscaled squared
/// magnitude, exactly matching the extra `sqrt(2)` it puts into the scale.
pub proof fn lemma_hadamard_unitary(m: StateModel, q: nat)
    requires
        state_wf(m),
        q < m.qubits,
        is_unit(m),
    ensures
        is_unit(model_hadamard(m, q)),
{
    let s = m.nums;
    let t = spec_hadamard(s, q);
    let n = m.qubits;
    let h = pow2(q) as int;
    assert forall|i: int|
        0 <= i < s.len() && !bit_is_set(i, q) && i + h < s.len() implies pair_norm_scaled(
        #[trigger] t[i],
        t[i + h],
        s[i],
        s[i + h],
        2,
    ) by {
        lemma_pair_up_int(i, q, n);
        assert(t[i] == amp_add(s[i], s[i + h]));
        assert(t[i + h] == amp_sub(s[i], s[i + h]));
        lemma_hadamard_pair_norm(s[i], s[i + h]);
    }
    lemma_pairs_scale_sums(t, s, q, n, 2);
    lemma_pow2_unfold((m.rt + 1) as nat);
    assert((m.den * m.den) * pow2((m.rt + 1) as nat) == 2 * ((m.den * m.den) * pow2(
        m.rt,
    ))) by (nonlinear_arith)
        requires
            pow2((m.rt + 1) as nat) == 2 * pow2(m.rt),
    ;
    assert(2 * 0 == 0) by (nonlinear_arith);
}

/// Unitarity of a pure pair permutation or phase gate: the sums are kept.
proof fn lemma_permutation_unitary(m: StateModel, t: Seq<AmpValue>, q: nat)
    requires
        state_wf(m),
        q < m.qubits,
        is_unit(m),
        t.len() == m.nums.len(),
        all_pairs_scaled(t, m.nums, q, 1),
    ensures
        sum_p(t) == sum_p(m.nums),
        sum_q(t) == sum_q(m.nums),
{
    lemma_pairs_scale_sums(t, m.nums, q, m.qubits, 1);
    vstd::arithmetic::mul::lemma_mul_basics(sum_p(m.nums));
    vstd::arithmetic::mul::lemma_mul_basics(sum_q(m.nums));
}

/// Unitarity of the Pauli-X gate.
pub proof fn lemma_pauli_x_unitary(m: StateModel, q: nat)
    requires
        state_wf(m),
        q < m.qubits,
        is_unit(m),
    ensures
        is_unit(model_pauli_x(m, q)),
{
    let s = m.nums;
    let t = spec_pauli_x(s, q);
    let h = pow2(q) as int;
    assert forall|i: int|
        0 <= i < s.len() && !bit_is_set(i, q) && i + h < s.len() implies pair_norm_scaled(
        #[trigger] t[i],
        t[i + h],
        s[i],
        s[i + h],
        1,
    ) by {
        lemma_pair_up_int(i, q, m.qubits);
        assert(t[i] == s[i + h]);
        assert(t[i + h] == s[i]);
        assert(1 * (norm_p(s[i]) + norm_p(s[i + h])) == norm_p(s[i]) + norm_p(s[i + h]))
            by (nonlinear_arith);
        assert(1 * (norm_q(s[i]) + norm_q(s[i + h])) == norm_q(s[i]) + norm_q(s[i + h]))
            by (nonlinear_arith);
    }
    lemma_permutation_unitary(m, t, q);
}

/// Unitarity of the Pauli-Y gate.
pub proof fn lemma_pauli_y_unitary(m: StateModel, q: nat)
    requires
        state_wf(m),
        q < m.qubits,
        is_unit(m),
    ensures
        is_unit(model_pauli_y(m, q)),
{
    let s = m.nums;
    let t = spec_pauli_y(s, q);
    let h = pow2(q) as int;
    assert forall|i: int|
        0 <= i < s.len() && !bit_is_set(i, q) && i + h < s.len() implies pair_norm_scaled(
        #[trigger] t[i],
        t[i + h],
        s[i],
        s[i + h],
        1,
    ) by {
        lemma_pair_up_int(i, q, m.qubits);
        assert(t[i] == amp_mul_neg_i(s[i + h]));
        assert(t[i + h] == amp_mul_i(s[i]));
        lemma_mul_i_norm(s[i]);
        lemma_mul_i_norm(s[i + h]);
        assert(1 * (norm_p(s[i]) + norm_p(s[i + h])) == norm_p(s[i]) + norm_p(s[i + h]))
            by (nonlinear_arith);
        assert(1 * (norm_q(s[i]) + norm_q(s[i + h])) == norm_q(s[i]) + norm_q(s[i + h]))
            by (nonlinear_arith);
    }
    lemma_permutation_unitary(m, t, q);
}

/// Unitarity of the Pauli-Z gate.
pub proof fn lemma_pauli_z_unitary(m: StateModel, q: nat)
    requires
        state_wf(m),
        q < m.qubits,
        is_unit(m),
    ensures
        is_unit(model_pauli_z(m, q)),
{
    let s = m.nums;
    let t = spec_pauli_z(s, q);
    let h = pow2(q) as int;
    assert forall|i: int|
        0 <= i < s.len() && !bit_is_set(i, q) && i + h < s.len() implies pair_norm_scaled(
        #[trigger] t[i],
        t[i + h],
        s[i],
        s[i + h],
        1,
    ) by {
        lemma_pair_up_int(i, q, m.qubits);
        assert(t[i] == s[i]);
        assert(t[i + h] == amp_neg(s[i + h]));
        lemma_neg_norm(s[i + h]);
        assert(1 * (norm_p(s[i]) + norm_p(s[i + h])) == norm_p(s[i]) + norm_p(s[i + h]))
            by (nonlinear_arith);
        assert(1 * (norm_q(s[i]) + norm_q(s[i + h])) == norm_q(s[i]) + norm_q(s[i + h]))
            by (nonlinear_arith);
    }
    lemma_permutation_unitary(m, t, q);
}

/// Unitarity of the controlled-not gate.
pub proof fn lemma_cnot_unitary(m: StateModel, c: nat, t: nat)
    requires
        state_wf(m),
        c < m.qubits,
        t < m.qubits,
        c != t,
        is_unit(m),
    ensures
        is_unit(model_cnot(m, c, t)),
{
    let s = m.nums;
    let u = spec_cnot(s, c, t);
    let h = pow2(t) as int;
    assert forall|i: int|
        0 <= i < s.len() && !bit_is_set(i, t) && i + h < s.len() implies pair_norm_scaled(
        #[trigger] u[i],
        u[i + h],
        s[i],
        s[i + h],
        1,
    ) by {
        lemma_pair_up_int(i, t, m.qubits);
        lemma_flip_keeps_bit_int(i, t, c, m.qubits);
        assert(bit_is_set(i + h, c) == bit_is_set(i, c)) by {
            assert(flip_bit(i, t) == i + h);
        }
        if bit_is_set(i, c) {
            assert(u[i] == s[flip_bit(i, t)]);
            assert(u[i] == s[i + h]);
            assert(u[i + h] == s[flip_bit(i + h, t)]);
            assert(flip_bit(i + h, t) == i);
            assert(u[i + h] == s[i]);
        } else {
            assert(u[i] == s[i]);
            assert(u[i + h] == s[i + h]);
        }
        assert(1 * (norm_p(s[i]) + norm_p(s[i + h])) == norm_p(s[i]) + norm_p(s[i + h]))
            by (nonlinear_arith);
        assert(1 * (norm_q(s[i]) + norm_q(s[i + h])) == norm_q(s[i]) + norm_q(s[i + h]))
            by (nonlinear_arith);
    }
    lemma_permutation_unitary(m, u, t);
}

/// Both bit flips in a row land back on the original index.
proof fn lemma_flip_involution(i: int, q: nat, n: nat)
    requires
        q < n,
        n <= 30,
        0 <= i < pow2(n),
    ensures
        0 <= flip_bit(i, q) < pow2(n),
        flip_bit(flip_bit(i, q), q) == i,
{
    if bit_is_set(i, q) {
        lemma_pair_down_int(i, q, n);
    } else {
        lemma_pair_up_int(i, q, n);
    }
}

/// An amplitude multiplied through by a scale `d * sqrt(2)^r`.
pub open spec fn scale_mul(x: AmpValue, d: int, r: nat) -> AmpValue {
    amp_scale(
        d * pow2((r / 2) as nat),
        if r % 2 == 1 {
            amp_mul_sqrt2(x)
        } else {
            x
        },
    )
}

/// The two scaled amplitudes denote the same complex number: cross
/// multiplication by the opposite scale agrees.
pub open spec fn amp_value_eq(
    x1: AmpValue,
    d1: int,
    r1: nat,
    x2: AmpValue,
    d2: int,
    r2: nat,
) -> bool {
    scale_mul(x1, d2, r2) == scale_mul(x2, d1, r1)
}

/// The two models denote the same physical state, amplitude by amplitude.
pub open spec fn states_equiv(m1: StateModel, m2: StateModel) -> bool {
    &&& m1.qubits == m2.qubits
    &&& m1.nums.len() == m2.nums.len()
    &&& forall|k: int|
        0 <= k < m1.nums.len() ==> amp_value_eq(
            #[trigger] m1.nums[k],
            m1.den,
            m1.rt,
            m2.nums[k],
            m2.den,
            m2.rt,
        )
}

/// Doubling the coordinates while adding two to the `sqrt(2)` exponent
/// leaves the denoted amplitude unchanged.
proof fn lemma_double_two_rt(x: AmpValue, d: int, r: nat)
    ensures
        amp_value_eq(amp_scale(2, x), d, (r + 2) as nat, x, d, r),
{
    lemma_fundamental_div_mod(r as int, 2);
    lemma_fundamental_div_mod_converse_div(r as int + 2, 2, (r / 2) as int + 1, (r % 2) as int);
    assert((r + 2) as nat / 2 == r / 2 + 1);
    assert(((r + 2) as nat) % 2 == r % 2) by {
        lemma_mod_multiples_vanish(1, r as int, 2);
    }
    lemma_pow2_unfold((r / 2 + 1) as nat);
    let p = pow2((r / 2) as nat) as int;
    if r % 2 == 1 {
        assert(amp_mul_sqrt2(amp_scale(2, x)) == amp_scale(2, amp_mul_sqrt2(x)));
        crate::amplitude::lemma_scale_compose(d * p, 2, amp_mul_sqrt2(x));
        assert(scale_mul(amp_scale(2, x), d, r) == amp_scale(
            (d * p) * 2,
            amp_mul_sqrt2(x),
        )) by {
            crate::amplitude::lemma_scale_compose(d * p, 2, amp_mul_sqrt2(x));
            assert(amp_scale(d * p, amp_scale(2, amp_mul_sqrt2(x))) == amp_scale(
                (d * p) * 2,
                amp_mul_sqrt2(x),
            ));
        }
        assert(d * (2 * p) == (d * p) * 2) by (nonlinear_arith);
    } else {
        crate::amplitude::lemma_scale_compose(d * p, 2, x);
        assert(d * (2 * p) == (d * p) * 2) by (nonlinear_arith);
    }
}

/// Two Hadamard applications double every coordinate.
proof fn lemma_hadamard_twice_pointwise(s: Seq<AmpValue>, q: nat, n: nat, k: int)
    requires
        s.len() == pow2(n),
        q < n,
        n <= 30,
        0 <= k < s.len(),
    ensures
        spec_hadamard(spec_hadamard(s, q), q)[k] == amp_scale(2, s[k]),
{
    let h = pow2(q) as int;
    let s1 = spec_hadamard(s, q);
    if bit_is_set(k, q) {
        lemma_pair_down_int(k, q, n);
        let i = k - h;
        assert(s1[k] == amp_sub(s[i], s[k]));
        lemma_pair_up_int(i, q, n);
        assert(s1[i] == amp_add(s[i], s[k]));
        assert(spec_hadamard(s1, q)[k] == amp_sub(s1[i], s1[k]));
    } else {
        lemma_pair_up_int(k, q, n);
        let j = k + h;
        assert(s1[k] == amp_add(s[k], s[j]));
        lemma_pair_down_int(j, q, n);
        assert(s1[j] == amp_sub(s[k], s[j]));
        assert(spec_hadamard(s1, q)[k] == amp_add(s1[k], s1[j]));
    }
}

/// The Hadamard gate is self-inverse: applying it twice to any state
/// yields a state denoting the same amplitudes, the doubling of the
/// coordinates being cancelled by the two extra `sqrt(2)` factors the
/// scale absorbed.
pub proof fn lemma_hadamard_self_inverse(m: StateModel, q: nat)
    requires
        state_wf(m),
        q < m.qubits,
    ensures
        states_equiv(model_hadamard(model_hadamard(m, q), q), m),
{
    let m2 = model_hadamard(model_hadamard(m, q), q);
    assert forall|k: int| 0 <= k < m2.nums.len() implies amp_value_eq(
        #[trigger] m2.nums[k],
        m2.den,
        m2.rt,
        m.nums[k],
        m.den,
        m.rt,
    ) by {
        lemma_hadamard_twice_pointwise(m.nums, q, m.qubits, k);
        lemma_double_two_rt(m.nums[k], m.den, m.rt);
    }
}

/// The Pauli-X gate is self-inverse, exactly.
pub proof fn lemma_pauli_x_self_inverse(m: StateModel, q: nat)
    requires
        state_wf(m),
        q < m.qubits,
    ensures
        model_pauli_x(model_pauli_x(m, q), q) == m,
{
    let s = m.nums;
    let s1 = spec_pauli_x(s, q);
    assert forall|k: int| 0 <= k < s.len() implies #[trigger] spec_pauli_x(s1, q)[k] == s[k] by {
        lemma_flip_involution(k, q, m.qubits);
        assert(spec_pauli_x(s1, q)[k] == s1[flip_bit(k, q)]);
        assert(s1[flip_bit(k, q)] == s[flip_bit(flip_bit(k, q), q)]);
    }
    assert(spec_pauli_x(s1, q) =~= s);
    assert(model_pauli_x(model_pauli_x(m, q), q) =~= m);
}

/// The Pauli-Y gate is self-inverse, exactly.
pub proof fn lemma_pauli_y_self_inverse(m: StateModel, q: nat)
    requires
        state_wf(m),
        q < m.qubits,
    ensures
        model_pauli_y(model_pauli_y(m, q), q) == m,
{
    let s = m.nums;
    let s1 = spec_pauli_y(s, q);
    let h = pow2(q) as int;
    assert forall|k: int| 0 <= k < s.len() implies #[trigger] spec_pauli_y(s1, q)[k] == s[k] by {
        if bit_is_set(k, q) {
            lemma_pair_down_int(k, q, m.qubits);
            lemma_pair_up_int(k - h, q, m.qubits);
            assert(spec_pauli_y(s1, q)[k] == amp_mul_i(s1[k - h]));
            assert(s1[k - h] == amp_mul_neg_i(s[k]));
        } else {
            lemma_pair_up_int(k, q, m.qubits);
            lemma_pair_down_int(k + h, q, m.qubits);
            assert(spec_pauli_y(s1, q)[k] == amp_mul_neg_i(s1[k + h]));
            assert(s1[k + h] == amp_mul_i(s[k]));
        }
    }
    assert(spec_pauli_y(s1, q) =~= s);
    assert(model_pauli_y(model_pauli_y(m, q), q) =~= m);
}

/// The Pauli-Z gate is self-inverse, exactly.
pub proof fn lemma_pauli_z_self_inverse(m: StateModel, q: nat)
    requires
        state_wf(m),
        q < m.qubits,
    ensures
        model_pauli_z(model_pauli_z(m, q), q) == m,
{
    let s = m.nums;
    let s1 = spec_pauli_z(s, q);
    assert forall|k: int| 0 <= k < s.len() implies #[trigger] spec_pauli_z(s1, q)[k] == s[k] by {
        if bit_is_set(k, q) {
            assert(spec_pauli_z(s1, q)[k] == amp_neg(s1[k]));
            assert(s1[k] == amp_neg(s[k]));
        }
    }
    assert(spec_pauli_z(s1, q) =~= s);
    assert(model_pauli_z(model_pauli_z(m, q), q) =~= m);
}

/// The controlled-not gate is self-inverse, exactly.
pub proof fn lemma_cnot_self_inverse(m: StateModel, c: nat, t: nat)
    requires
        state_wf(m),
        c < m.qubits,
        t < m.qubits,
        c != t,
    ensures
        model_cnot(model_cnot(m, c, t), c, t) == m,
{
    let s = m.nums;
    let s1 = spec_cnot(s, c, t);
    assert forall|k: int| 0 <= k < s.len() implies #[trigger] spec_cnot(s1, c, t)[k] == s[k] by {
        if bit_is_set(k, c) {
            lemma_flip_involution(k, t, m.qubits);
            lemma_flip_keeps_bit_int(k, t, c, m.qubits);
            let j = flip_bit(k, t);
            assert(spec_cnot(s1, c, t)[k] == s1[j]);
            assert(bit_is_set(j, c));
            assert(s1[j] == s[flip_bit(j, t)]);
            assert(flip_bit(j, t) == k);
        }
    }
    assert(spec_cnot(s1, c, t) =~= s);
    assert(model_cnot(model_cnot(m, c, t), c, t) =~= m);
}

} // verus!
