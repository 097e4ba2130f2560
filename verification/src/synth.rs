//! A small stack machine for program synthesis, and reversible logic via
//! the Fredkin (controlled-swap) gate.
//!
//! Programs are reverse-Polish operation lists over 32-bit integers with
//! wrapping arithmetic; evaluation returns `None` on stack underflow or a
//! variable index past the inputs.

use vstd::prelude::*;

verus! {

use vstd::wrapping::i32_specs;

/// One stack operation.
#[derive(Clone, Copy, Debug, PartialEq, Eq, Structural)]
pub enum Op {
    Plus,
    Minus,
    Mult,
    /// Push the input at this index.
    Var(usize),
    /// Push this constant.
    Const(i32),
}

/// The stack after one operation, or `None` on underflow or a bad
/// variable index.
pub open spec fn step_op(stack: Seq<i32>, op: Op, inputs: Seq<i32>) -> Option<Seq<i32>> {
    match op {
        Op::Const(v) => Some(stack.push(v)),
        Op::Var(idx) => if (idx as int) < inputs.len() {
            Some(stack.push(inputs[idx as int]))
        } else {
            None
        },
        Op::Plus => if stack.len() >= 2 {
            Some(
                stack.drop_last().drop_last().push(
                    i32_specs::wrapping_add(stack[stack.len() - 2], stack[stack.len() - 1]),
                ),
            )
        } else {
            None
        },
        Op::Minus => if stack.len() >= 2 {
            Some(
                stack.drop_last().drop_last().push(
                    i32_specs::wrapping_sub(stack[stack.len() - 2], stack[stack.len() - 1]),
                ),
            )
        } else {
            None
        },
        Op::Mult => if stack.len() >= 2 {
            Some(
                stack.drop_last().drop_last().push(
                    i32_specs::wrapping_mul(stack[stack.len() - 2], stack[stack.len() - 1]),
                ),
            )
        } else {
            None
        },
    }
}

/// The stack after the first `k` operations, or `None` once any step
/// fails.
pub open spec fn run_ops(ops: Seq<Op>, inputs: Seq<i32>, k: int) -> Option<Seq<i32>>
    decreases k,
{
    if k <= 0 {
        Some(Seq::empty())
    } else {
        match run_ops(ops, inputs, k - 1) {
            None => None,
            Some(stack) => step_op(stack, ops[k - 1], inputs),
        }
    }
}

/// A reverse-Polish program.
#[derive(Clone, Debug)]
pub struct Program {
    ops: Vec<Op>,
}

impl Program {
    /// The operation list.
    pub closed spec fn op_list(&self) -> Seq<Op> {
        self.ops@
    }

    pub fn new(ops: Vec<Op>) -> (p: Program)
        ensures
            p.op_list() == ops@,
    {
        Program { ops }
    }

    /// Runs the program on the inputs: the final stack top, or `None` on
    /// underflow, a bad variable index, or an empty final stack.
    pub fn evaluate(&self, inputs: &Vec<i32>) -> (r: Option<i32>)
        ensures
            match run_ops(self.op_list(), inputs@, self.op_list().len() as int) {
                None => r is None,
                Some(stack) => if stack.len() == 0 {
                    r is None
                } else {
                    r == Some(stack.last())
                },
            },
    {
        let mut stack: Vec<i32> = Vec::new();
        let n = self.ops.len();
        let mut k: usize = 0;
        proof {
            assert(stack@ =~= Seq::<i32>::empty());
        }
        while k < n
            invariant
                k <= n,
                n == self.op_list().len(),
                run_ops(self.op_list(), inputs@, k as int) == Some(stack@),
            decreases n - k,
        {
            let op = self.ops[k];
            match op {
                Op::Const(v) => {
                    stack.push(v);
                },
                Op::Var(idx) => {
                    if idx >= inputs.len() {
                        proof {
                            assert(run_ops(self.op_list(), inputs@, k + 1) is None);
                            lemma_run_none_sticks(
                                self.op_list(),
                                inputs@,
                                k + 1,
                                self.op_list().len() as int,
                            );
                        }
                        return None;
                    }
                    stack.push(inputs[idx]);
                },
                Op::Plus => {
                    if stack.len() < 2 {
                        proof {
                            assert(run_ops(self.op_list(), inputs@, k + 1) is None);
                            lemma_run_none_sticks(
                                self.op_list(),
                                inputs@,
                                k + 1,
                                self.op_list().len() as int,
                            );
                        }
                        return None;
                    }
                    let ghost pre = stack@;
                    let b = stack.pop().unwrap();
                    let a = stack.pop().unwrap();
                    stack.push(a.wrapping_add(b));
                    proof {
                        assert(stack@ =~= pre.drop_last().drop_last().push(
                            i32_specs::wrapping_add(pre[pre.len() - 2], pre[pre.len() - 1]),
                        ));
                    }
                },
                Op::Minus => {
                    if stack.len() < 2 {
                        proof {
                            assert(run_ops(self.op_list(), inputs@, k + 1) is None);
                            lemma_run_none_sticks(
                                self.op_list(),
                                inputs@,
                                k + 1,
                                self.op_list().len() as int,
                            );
                        }
                        return None;
                    }
                    let ghost pre = stack@;
                    let b = stack.pop().unwrap();
                    let a = stack.pop().unwrap();
                    stack.push(a.wrapping_sub(b));
                    proof {
                        assert(stack@ =~= pre.drop_last().drop_last().push(
                            i32_specs::wrapping_sub(pre[pre.len() - 2], pre[pre.len() - 1]),
                        ));
                    }
                },
                Op::Mult => {
                    if stack.len() < 2 {
                        proof {
                            assert(run_ops(self.op_list(), inputs@, k + 1) is None);
                            lemma_run_none_sticks(
                                self.op_list(),
                                inputs@,
                                k + 1,
                                self.op_list().len() as int,
                            );
                        }
                        return None;
                    }
                    let ghost pre = stack@;
                    let b = stack.pop().unwrap();
                    let a = stack.pop().unwrap();
                    stack.push(a.wrapping_mul(b));
                    proof {
                        assert(stack@ =~= pre.drop_last().drop_last().push(
                            i32_specs::wrapping_mul(pre[pre.len() - 2], pre[pre.len() - 1]),
                        ));
                    }
                },
            }
            k = k + 1;
        }
        if stack.len() == 0 {
            None
        } else {
            let top = stack[stack.len() - 1];
            proof {
                assert(top == stack@.last());
            }
            Some(top)
        }
    }
}

/// Once a run has failed it stays failed.
proof fn lemma_run_none_sticks(ops: Seq<Op>, inputs: Seq<i32>, j: int, k: int)
    requires
        0 <= j <= k,
        run_ops(ops, inputs, j) is None,
    ensures
        run_ops(ops, inputs, k) is None,
    decreases k - j,
{
    if j < k {
        lemma_run_none_sticks(ops, inputs, j, k - 1);
    }
}

/// One classical bit on a reversible wire.
#[derive(Clone, Copy, Debug, PartialEq, Eq, Structural)]
pub struct Bit(pub bool);

/// The Fredkin (controlled-swap) gate: with the control set, the two data
/// wires are swapped; otherwise all three wires pass through.
pub fn fredkin_gate(c: Bit, a: Bit, b: Bit) -> (r: (Bit, Bit, Bit))
    ensures
        r.0 == c,
        c.0 ==> r.1 == b && r.2 == a,
        !c.0 ==> r.1 == a && r.2 == b,
{
    if c.0 {
        (c, b, a)
    } else {
        (c, a, b)
    }
}

/// Logical AND built from one Fredkin gate: `fredkin(x, y, 0)` carries
/// `x AND y` on its third wire.
pub fn reversible_and(x: Bit, y: Bit) -> (r: Bit)
    ensures
        r.0 == (x.0 && y.0),
{
    let (_c, _s, res) = fredkin_gate(x, y, Bit(false));
    res
}

} // verus!
