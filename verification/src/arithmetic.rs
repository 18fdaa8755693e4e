//! The arithmetic that rounds.
//!
//! Sums, differences, products, quotients and exponentials of binary64 numbers
//! are rounded by the machine, and the exponential is not even the same on
//! every machine. The pipeline therefore does not compute them itself: it is
//! handed an arithmetic unit, a function from an `Operation` to the pattern of
//! its result, and its contracts say which operations it put to that unit and
//! what it did with the answers. They hold for every unit, so they hold for
//! the machine's.

use vstd::prelude::*;

verus! {

/// One rounding operation, its operands given as binary64 patterns.
#[derive(Clone, Copy, Debug)]
pub enum Operation {
    /// The sum of the two operands.
    Add(u64, u64),
    /// The first operand less the second.
    Sub(u64, u64),
    /// The product of the two operands.
    Mul(u64, u64),
    /// The first operand divided by the second.
    Div(u64, u64),
    /// `e` raised to the operand.
    Exp(u64),
    /// The binary64 number nearest to a count.
    FromCount(usize),
}

/// `arith` accepts every operation.
pub open spec fn serves<A: Fn(Operation) -> u64>(arith: &A) -> bool {
    forall|op: Operation| call_requires(*arith, (op,))
}

/// `result` is an answer that `arith` may give to `op`.
pub open spec fn answers<A: Fn(Operation) -> u64>(arith: &A, op: Operation, result: u64) -> bool {
    call_ensures(*arith, (op,), result)
}

/// `arith` gives one answer to each operation.
pub open spec fn single_valued<A: Fn(Operation) -> u64>(arith: &A) -> bool {
    forall|op: Operation, r1: u64, r2: u64|
        #![trigger answers(arith, op, r1), answers(arith, op, r2)]
        answers(arith, op, r1) && answers(arith, op, r2) ==> r1 == r2
}

/// Puts `op` to the unit.
pub fn perform<A: Fn(Operation) -> u64>(arith: &A, op: Operation) -> (result: u64)
    requires
        serves(arith),
    ensures
        answers(arith, op, result),
{
    arith(op)
}

} // verus!
