//! A toy zero-knowledge primitive: prime-field arithmetic, rank-1
//! constraint systems of the form `<A,x> * <B,x> = <C,x>`, and polynomial
//! evaluation in the field.

use vstd::prelude::*;
use crate::shor::{pow_mod, mod_pow};

verus! {

/// The field prime.
pub const FIELD_P: u64 = 3221225473;

/// `v` reduced into the field, as mathematics.
pub open spec fn fe_reduce(v: int) -> int {
    v % (FIELD_P as int)
}

/// Field addition.
pub open spec fn fe_add(a: int, b: int) -> int {
    (a + b) % (FIELD_P as int)
}

/// Field subtraction.
pub open spec fn fe_sub(a: int, b: int) -> int {
    (a - b) % (FIELD_P as int)
}

/// Field multiplication.
pub open spec fn fe_mul(a: int, b: int) -> int {
    (a * b) % (FIELD_P as int)
}

/// One element of the prime field.
#[derive(Clone, Copy, Debug, PartialEq, Eq, Structural)]
pub struct FieldElement {
    pub val: u64,
}

impl FieldElement {
    /// In canonical reduced form.
    pub open spec fn wf(&self) -> bool {
        (self.val as int) < FIELD_P as int
    }

    /// Reduces a signed value into the field.
    pub fn new(v: i64) -> (r: FieldElement)
        ensures
            r.wf(),
            r.val as int == fe_reduce(v as int),
    {
        if v >= 0 {
            FieldElement { val: (v as u64) % FIELD_P }
        } else {
            let neg: u64 = (-(v as i128)) as u64;
            let m = neg % FIELD_P;
            proof {
                let p = FIELD_P as int;
                vstd::arithmetic::div_mod::lemma_fundamental_div_mod(neg as int, p);
                let q = (neg as int) / p;
                if m == 0 {
                    assert(v as int == (-q) * p + 0) by (nonlinear_arith)
                        requires
                            neg as int == p * q + m as int,
                            m == 0,
                            v as int == -(neg as int),
                    ;
                    vstd::arithmetic::div_mod::lemma_fundamental_div_mod_converse_mod(
                        v as int,
                        p,
                        -q,
                        0,
                    );
                } else {
                    assert(v as int == (-q - 1) * p + (p - m as int)) by (nonlinear_arith)
                        requires
                            neg as int == p * q + m as int,
                            v as int == -(neg as int),
                    ;
                    vstd::arithmetic::div_mod::lemma_fundamental_div_mod_converse_mod(
                        v as int,
                        p,
                        -q - 1,
                        p - m as int,
                    );
                }
            }
            if m == 0 {
                FieldElement { val: 0 }
            } else {
                FieldElement { val: FIELD_P - m }
            }
        }
    }

    /// Field sum.
    pub fn add(&self, other: &FieldElement) -> (r: FieldElement)
        requires
            self.wf(),
            other.wf(),
        ensures
            r.wf(),
            r.val as int == fe_add(self.val as int, other.val as int),
    {
        let s = self.val + other.val;
        FieldElement { val: s % FIELD_P }
    }

    /// Field difference.
    pub fn sub(&self, other: &FieldElement) -> (r: FieldElement)
        requires
            self.wf(),
            other.wf(),
        ensures
            r.wf(),
            r.val as int == fe_sub(self.val as int, other.val as int),
    {
        let d = self.val + FIELD_P - other.val;
        let r = FieldElement { val: d % FIELD_P };
        proof {
            assert((self.val as int + FIELD_P as int - other.val as int) % (FIELD_P as int) == (
            self.val as int - other.val as int) % (FIELD_P as int)) by {
                vstd::arithmetic::div_mod::lemma_mod_add_multiples_vanish(
                    self.val as int - other.val as int,
                    FIELD_P as int,
                );
            }
        }
        r
    }

    /// Field product.
    pub fn mul(&self, other: &FieldElement) -> (r: FieldElement)
        requires
            self.wf(),
            other.wf(),
        ensures
            r.wf(),
            r.val as int == fe_mul(self.val as int, other.val as int),
    {
        proof {
            vstd::arithmetic::mul::lemma_mul_upper_bound(
                self.val as int,
                0xffff_ffff,
                other.val as int,
                0xffff_ffff,
            );
        }
        let prod: u128 = (self.val as u128) * (other.val as u128);
        FieldElement { val: (prod % (FIELD_P as u128)) as u64 }
    }

    /// `self` to the power `exp`, by binary exponentiation.
    pub fn pow(&self, exp: u64) -> (r: FieldElement)
        ensures
            r.wf(),
            r.val as int == pow_mod(self.val as nat, exp as nat, FIELD_P as nat),
    {
        FieldElement { val: mod_pow(self.val, exp, FIELD_P) }
    }

    /// The multiplicative inverse by Fermat's little theorem: `self` to
    /// the power `p - 2`.
    pub fn inv(&self) -> (r: FieldElement)
        ensures
            r.wf(),
            r.val as int == pow_mod(self.val as nat, (FIELD_P - 2) as nat, FIELD_P as nat),
    {
        self.pow(FIELD_P - 2)
    }
}

/// Field dot product over the first `k` coefficient positions, skipping
/// positions past the variable vector, folded left with reduction at each
/// step.
pub open spec fn dot_mod(coeffs: Seq<u64>, vars: Seq<u64>, k: int) -> int
    decreases k,
{
    if k <= 0 {
        0
    } else {
        let prev = dot_mod(coeffs, vars, k - 1);
        if k - 1 < vars.len() {
            fe_add(prev, fe_mul(coeffs[k - 1] as int, vars[k - 1] as int))
        } else {
            prev
        }
    }
}

/// The values of a field-element vector.
pub open spec fn fe_vals(v: Seq<FieldElement>) -> Seq<u64> {
    v.map(|i: int, e: FieldElement| e.val)
}

/// Every element reduced.
pub open spec fn fe_all_wf(v: Seq<FieldElement>) -> bool {
    forall|i: int| 0 <= i < v.len() ==> (#[trigger] v[i]).wf()
}

/// The dot product `<coeffs, vars>` in the field; coefficient positions
/// past the end of `vars` contribute nothing.
pub fn dot_product(coeffs: &Vec<FieldElement>, vars: &Vec<FieldElement>) -> (r: FieldElement)
    requires
        fe_all_wf(coeffs@),
        fe_all_wf(vars@),
    ensures
        r.wf(),
        r.val as int == dot_mod(fe_vals(coeffs@), fe_vals(vars@), coeffs@.len() as int),
{
    let mut sum = FieldElement { val: 0 };
    let n = coeffs.len();
    let mut i: usize = 0;
    while i < n
        invariant
            i <= n,
            n == coeffs@.len(),
            fe_all_wf(coeffs@),
            fe_all_wf(vars@),
            sum.wf(),
            sum.val as int == dot_mod(fe_vals(coeffs@), fe_vals(vars@), i as int),
        decreases n - i,
    {
        if i < vars.len() {
            let term = coeffs[i].mul(&vars[i]);
            sum = sum.add(&term);
        }
        i = i + 1;
    }
    sum
}

/// A rank-1 constraint system: rows of `<A,x> * <B,x> = <C,x>`.
pub struct R1CS {
    a: Vec<Vec<FieldElement>>,
    b: Vec<Vec<FieldElement>>,
    c: Vec<Vec<FieldElement>>,
    num_vars: usize,
}

/// One constraint row holds under an assignment.
pub open spec fn row_holds(
    a: Seq<u64>,
    b: Seq<u64>,
    c: Seq<u64>,
    vars: Seq<u64>,
) -> bool {
    fe_mul(dot_mod(a, vars, a.len() as int), dot_mod(b, vars, b.len() as int)) == dot_mod(
        c,
        vars,
        c.len() as int,
    )
}

impl R1CS {
    /// The three coefficient matrices, by value.
    pub closed spec fn rows_a(&self) -> Seq<Seq<FieldElement>> {
        self.a@.map(|i: int, r: Vec<FieldElement>| r@)
    }

    pub closed spec fn rows_b(&self) -> Seq<Seq<FieldElement>> {
        self.b@.map(|i: int, r: Vec<FieldElement>| r@)
    }

    pub closed spec fn rows_c(&self) -> Seq<Seq<FieldElement>> {
        self.c@.map(|i: int, r: Vec<FieldElement>| r@)
    }

    /// Same number of rows in all three matrices, all entries reduced.
    pub open spec fn wf(&self) -> bool {
        &&& self.rows_a().len() == self.rows_b().len() == self.rows_c().len()
        &&& forall|i: int| 0 <= i < self.rows_a().len() ==> fe_all_wf(#[trigger] self.rows_a()[i])
        &&& forall|i: int| 0 <= i < self.rows_b().len() ==> fe_all_wf(#[trigger] self.rows_b()[i])
        &&& forall|i: int| 0 <= i < self.rows_c().len() ==> fe_all_wf(#[trigger] self.rows_c()[i])
    }

    pub fn new(num_vars: usize) -> (r: R1CS)
        ensures
            r.wf(),
            r.rows_a().len() == 0,
    {
        R1CS { a: Vec::new(), b: Vec::new(), c: Vec::new(), num_vars }
    }

    /// Appends one constraint `<a_vec,x> * <b_vec,x> = <c_vec,x>`.
    pub fn add_constraint(
        &mut self,
        a_vec: Vec<FieldElement>,
        b_vec: Vec<FieldElement>,
        c_vec: Vec<FieldElement>,
    )
        requires
            old(self).wf(),
            fe_all_wf(a_vec@),
            fe_all_wf(b_vec@),
            fe_all_wf(c_vec@),
        ensures
            final(self).wf(),
            final(self).rows_a() == old(self).rows_a().push(a_vec@),
            final(self).rows_b() == old(self).rows_b().push(b_vec@),
            final(self).rows_c() == old(self).rows_c().push(c_vec@),
    {
        let ghost pa = self.rows_a();
        let ghost pb = self.rows_b();
        let ghost pc = self.rows_c();
        let ghost va = a_vec@;
        let ghost vb = b_vec@;
        let ghost vc = c_vec@;
        self.a.push(a_vec);
        self.b.push(b_vec);
        self.c.push(c_vec);
        proof {
            assert(self.rows_a() =~= pa.push(va));
            assert(self.rows_b() =~= pb.push(vb));
            assert(self.rows_c() =~= pc.push(vc));
        }
    }

    /// Whether every constraint holds under the assignment.
    pub fn verify(&self, assignment: &Vec<FieldElement>) -> (r: bool)
        requires
            self.wf(),
            fe_all_wf(assignment@),
        ensures
            r == (forall|i: int|
                0 <= i < self.rows_a().len() ==> row_holds(
                    fe_vals(#[trigger] self.rows_a()[i]),
                    fe_vals(self.rows_b()[i]),
                    fe_vals(self.rows_c()[i]),
                    fe_vals(assignment@),
                )),
    {
        let n = self.a.len();
        let mut i: usize = 0;
        while i < n
            invariant
                i <= n,
                n == self.rows_a().len(),
                self.wf(),
                fe_all_wf(assignment@),
                forall|j: int|
                    0 <= j < i ==> row_holds(
                        fe_vals(#[trigger] self.rows_a()[j]),
                        fe_vals(self.rows_b()[j]),
                        fe_vals(self.rows_c()[j]),
                        fe_vals(assignment@),
                    ),
            decreases n - i,
        {
            proof {
                assert(fe_all_wf(self.rows_a()[i as int]));
                assert(fe_all_wf(self.rows_b()[i as int]));
                assert(fe_all_wf(self.rows_c()[i as int]));
                assert(self.a@[i as int]@ == self.rows_a()[i as int]);
                assert(self.b@[i as int]@ == self.rows_b()[i as int]);
                assert(self.c@[i as int]@ == self.rows_c()[i as int]);
            }
            let dot_a = dot_product(&self.a[i], assignment);
            let dot_b = dot_product(&self.b[i], assignment);
            let dot_c = dot_product(&self.c[i], assignment);
            let lhs = dot_a.mul(&dot_b);
            if lhs.val != dot_c.val {
                proof {
                    assert(!row_holds(
                        fe_vals(self.rows_a()[i as int]),
                        fe_vals(self.rows_b()[i as int]),
                        fe_vals(self.rows_c()[i as int]),
                        fe_vals(assignment@),
                    ));
                }
                return false;
            }
            i = i + 1;
        }
        true
    }
}

/// A polynomial in coefficient form, least degree first.
#[derive(Clone, Debug)]
pub struct Polynomial {
    pub coeffs: Vec<FieldElement>,
}

/// The field value of the polynomial's prefix of length `k` at `x`, folded
/// with reduction at each step.
pub open spec fn poly_eval(coeffs: Seq<u64>, x: u64, k: int) -> int
    decreases k,
{
    if k <= 0 {
        0
    } else {
        fe_add(
            poly_eval(coeffs, x, k - 1),
            fe_mul(coeffs[k - 1] as int, pow_mod(x as nat, (k - 1) as nat, FIELD_P as nat)),
        )
    }
}

impl Polynomial {
    /// Evaluates the polynomial at `x` by accumulated powers.
    pub fn evaluate(&self, x: FieldElement) -> (r: FieldElement)
        requires
            fe_all_wf(self.coeffs@),
            x.wf(),
        ensures
            r.wf(),
            r.val as int == poly_eval(fe_vals(self.coeffs@), x.val, self.coeffs@.len() as int),
    {
        let mut res = FieldElement { val: 0 };
        let mut x_pow = FieldElement { val: 1 };
        let n = self.coeffs.len();
        let mut i: usize = 0;
        proof {
            vstd::arithmetic::power::lemma_pow0(x.val as int);
            vstd::arithmetic::div_mod::lemma_small_mod(1nat, FIELD_P as nat);
        }
        while i < n
            invariant
                i <= n,
                n == self.coeffs@.len(),
                fe_all_wf(self.coeffs@),
                x.wf(),
                res.wf(),
                x_pow.wf(),
                res.val as int == poly_eval(fe_vals(self.coeffs@), x.val, i as int),
                x_pow.val as int == pow_mod(x.val as nat, i as nat, FIELD_P as nat),
            decreases n - i,
        {
            let term = self.coeffs[i].mul(&x_pow);
            res = res.add(&term);
            let ghost old_pow = x_pow.val as int;
            x_pow = x_pow.mul(&x);
            proof {
                lemma_pow_mod_step(x.val as nat, i as nat);
            }
            i = i + 1;
        }
        res
    }
}

/// One more squaring-free step of the power accumulator.
proof fn lemma_pow_mod_step(x: nat, i: nat)
    ensures
        (pow_mod(x, i, FIELD_P as nat) * (x as int)) % (FIELD_P as int) == pow_mod(
            x,
            (i + 1) as nat,
            FIELD_P as nat,
        ),
{
    let p = FIELD_P as int;
    vstd::arithmetic::power::lemma_pow1(x as int);
    assert(vstd::arithmetic::power::pow(x as int, (i + 1) as nat) == vstd::arithmetic::power::pow(
        x as int,
        i,
    ) * (x as int)) by {
        vstd::arithmetic::power::lemma_pow_adds(x as int, i, 1nat);
    }
    vstd::arithmetic::div_mod::lemma_mul_mod_noop_left(
        vstd::arithmetic::power::pow(x as int, i),
        x as int,
        p,
    );
}

/// Lagrange interpolation stub: the constant-one polynomial, standing in
/// for the full construction.
pub fn interpolate(points: &Vec<(FieldElement, FieldElement)>) -> (r: Polynomial)
    ensures
        r.coeffs@.len() == 1,
        r.coeffs@[0].val == 1,
{
    let mut coeffs: Vec<FieldElement> = Vec::new();
    coeffs.push(FieldElement { val: 1 });
    Polynomial { coeffs }
}

} // verus!
