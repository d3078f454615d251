use vstd::prelude::*;
use crate::data::{Data, DataView};
use crate::runtime::{ExpressionRuntime, RuntimeError};

verus! {

/// The arithmetic operations on two integers.
#[derive(Clone, Copy, PartialEq, Eq, Structural, Debug)]
pub enum MathOp {
    Add,
    Subtract,
    Multiply,
    Divide,
    Remainder,
    Power,
}

/// The arithmetic operations on one integer.
#[derive(Clone, Copy, PartialEq, Eq, Structural, Debug)]
pub enum UnaryMathOp {
    Negate,
    AbsoluteValue,
}

/// `b` to the power `e`.
pub open spec fn int_pow(b: int, e: nat) -> int
    decreases e,
{
    if e == 0 { 1 } else { b * int_pow(b, (e - 1) as nat) }
}

pub open spec fn abs(x: int) -> int {
    if x < 0 { -x } else { x }
}

/// The exponent an integer exponent stands for: its bits read as unsigned.
pub open spec fn exponent_of(r: i32) -> nat {
    (r as u32) as nat
}

/// The result of an arithmetic operation on two integers, when it fits in an
/// integer (and, for division and remainder, the divisor is not zero).
pub open spec fn checked_math(op: MathOp, l: i32, r: i32) -> Option<i32> {
    match op {
        MathOp::Add => l.checked_add(r),
        MathOp::Subtract => l.checked_sub(r),
        MathOp::Multiply => l.checked_mul(r),
        MathOp::Divide => l.checked_div(r),
        MathOp::Remainder => l.checked_rem(r),
        MathOp::Power => {
            let p = int_pow(l as int, exponent_of(r));
            if i32::MIN <= p <= i32::MAX { Some(p as i32) } else { None }
        },
    }
}

/// An operation on two integers is defined when its result fits; on other values it always is.
pub open spec fn math_defined(op: MathOp, left: DataView, right: DataView) -> bool {
    match (left, right) {
        (DataView::Integer(l), DataView::Integer(r)) => checked_math(op, l, r) is Some,
        _ => true,
    }
}

/// Two integers give the integer result; any other pair gives unit.
pub open spec fn math_result(op: MathOp, left: DataView, right: DataView) -> DataView {
    match (left, right) {
        (DataView::Integer(l), DataView::Integer(r)) => DataView::Integer(checked_math(op, l, r)->Some_0),
        _ => DataView::Unit,
    }
}

pub open spec fn checked_unary(op: UnaryMathOp, i: i32) -> Option<i32> {
    if i == i32::MIN {
        None
    } else {
        Some(match op {
            UnaryMathOp::Negate => (-i) as i32,
            UnaryMathOp::AbsoluteValue => abs(i as int) as i32,
        })
    }
}

pub open spec fn unary_defined(op: UnaryMathOp, value: DataView) -> bool {
    match value {
        DataView::Integer(i) => checked_unary(op, i) is Some,
        _ => true,
    }
}

pub open spec fn unary_result(op: UnaryMathOp, value: DataView) -> DataView {
    match value {
        DataView::Integer(i) => DataView::Integer(checked_unary(op, i)->Some_0),
        _ => DataView::Unit,
    }
}

proof fn lemma_abs_mul(a: int, b: int)
    ensures
        abs(a * b) == abs(a) * abs(b),
{
    if a >= 0 && b >= 0 {
        assert(a * b >= 0) by (nonlinear_arith) requires a >= 0, b >= 0;
    } else if a >= 0 && b < 0 {
        assert(a * b <= 0) by (nonlinear_arith) requires a >= 0, b < 0;
        assert(-(a * b) == a * (-b)) by (nonlinear_arith);
    } else if a < 0 && b >= 0 {
        assert(a * b <= 0) by (nonlinear_arith) requires a < 0, b >= 0;
        assert(-(a * b) == (-a) * b) by (nonlinear_arith);
    } else {
        assert(a * b > 0) by (nonlinear_arith) requires a < 0, b < 0;
        assert(a * b == (-a) * (-b)) by (nonlinear_arith);
    }
}

/// Powers of a base other than zero do not shrink in size.
proof fn lemma_pow_abs_grows(b: int, k: nat, e: nat)
    requires
        abs(b) >= 1,
        k <= e,
    ensures
        abs(int_pow(b, k)) <= abs(int_pow(b, e)),
    decreases e - k,
{
    if k < e {
        lemma_pow_abs_grows(b, k, (e - 1) as nat);
        lemma_abs_mul(b, int_pow(b, (e - 1) as nat));
        let p = abs(int_pow(b, (e - 1) as nat));
        assert(abs(b) * p >= p) by (nonlinear_arith) requires abs(b) >= 1, p >= 0;
    }
}

proof fn lemma_pow_of_small(b: int, e: nat)
    ensures
        b == 0 ==> int_pow(b, e) == (if e == 0 { 1int } else { 0int }),
        b == 1 ==> int_pow(b, e) == 1,
        b == -1 ==> int_pow(b, e) == (if e % 2 == 0 { 1int } else { -1int }),
    decreases e,
{
    if e > 0 {
        lemma_pow_of_small(b, (e - 1) as nat);
    }
}

/// Raises `l` to the power `r` read as unsigned, when the result fits in an `i32`.
pub fn checked_power(l: i32, r: i32) -> (p: Option<i32>)
    ensures
        p == checked_math(MathOp::Power, l, r),
{
    let e: u32 = r as u32;
    proof {
        lemma_pow_of_small(l as int, e as nat);
    }
    if l == 0 {
        if e == 0 { Some(1) } else { Some(0) }
    } else if l == 1 {
        Some(1)
    } else if l == -1 {
        if e % 2 == 0 { Some(1) } else { Some(-1) }
    } else {
        let mut acc: i32 = 1;
        let mut k: u32 = 0;
        while k < e
            invariant
                abs(l as int) >= 2,
                k <= e,
                e == exponent_of(r),
                acc == int_pow(l as int, k as nat),
            decreases e - k,
        {
            let ghost next_pow = int_pow(l as int, (k + 1) as nat);
            proof {
                assert(next_pow == (l as int) * acc);
                let a = acc as int;
                let b = l as int;
                lemma_abs_mul(b, a);
                assert(abs(b) <= 0x8000_0000 && abs(a) <= 0x8000_0000);
                assert(abs(b) * abs(a) <= 0x8000_0000 * 0x8000_0000) by (nonlinear_arith)
                    requires abs(b) <= 0x8000_0000, abs(a) <= 0x8000_0000, abs(a) >= 0, abs(b) >= 0;
                assert(a * b == b * a) by (nonlinear_arith);
            }
            let next: i64 = (acc as i64) * (l as i64);
            if next < i32::MIN as i64 || next > i32::MAX as i64 {
                proof {
                    lemma_pow_abs_grows(l as int, (k + 1) as nat, e as nat);
                    if k + 1 < e {
                        lemma_pow_abs_grows(l as int, (k + 2) as nat, e as nat);
                        lemma_abs_mul(l as int, next_pow);
                        let q = abs(next_pow);
                        assert(abs(l as int) * q >= 2 * q) by (nonlinear_arith) requires abs(l as int) >= 2, q >= 0;
                    }
                }
                return None;
            }
            acc = next as i32;
            k = k + 1;
        }
        Some(acc)
    }
}

/// Whether an arithmetic operation on two values is defined.
pub fn math_defined_of(op: MathOp, left: &Data, right: &Data) -> (b: bool)
    ensures
        b == math_defined(op, left@, right@),
{
    match (left, right) {
        (Data::Integer(l), Data::Integer(r)) => {
            let (l, r) = (*l, *r);
            match op {
                MathOp::Add => l.checked_add(r).is_some(),
                MathOp::Subtract => l.checked_sub(r).is_some(),
                MathOp::Multiply => l.checked_mul(r).is_some(),
                MathOp::Divide => l.checked_div(r).is_some(),
                MathOp::Remainder => l.checked_rem(r).is_some(),
                MathOp::Power => checked_power(l, r).is_some(),
            }
        },
        _ => true,
    }
}

/// Whether an arithmetic operation on one value is defined.
pub fn unary_defined_of(op: UnaryMathOp, value: &Data) -> (b: bool)
    ensures
        b == unary_defined(op, value@),
{
    match value {
        Data::Integer(i) => *i != i32::MIN,
        _ => true,
    }
}

impl ExpressionRuntime {
    /// Replaces the last two registers by the result of an arithmetic operation on them.
    pub fn perform_binary_operation(&mut self, op: MathOp) -> (r: Result<(), RuntimeError>)
        requires
            old(self)@.wf(),
            old(self)@.data.len() + 1 < usize::MAX,
            old(self)@.registers.len() >= 2 ==> math_defined(op, old(self)@.left_operand(), old(self)@.right_operand()),
        ensures
            final(self)@.wf(),
            old(self)@.registers.len() < 2 ==> r == Err::<(), RuntimeError>(RuntimeError::NotEnoughRegisters)
                && final(self)@ == old(self)@,
            old(self)@.registers.len() >= 2 ==> r is Ok && final(self)@ == old(self)@.binary_applied(
                math_result(op, old(self)@.left_operand(), old(self)@.right_operand())),
    {
        let (left, right) = self.consume_last_two_refs()?;
        proof {
            crate::runtime::lemma_register_in_bounds(old(self)@, old(self)@.registers.len() - 1);
            crate::runtime::lemma_register_in_bounds(old(self)@, old(self)@.registers.len() - 2);
        }
        let result = match (self.get_data(left), self.get_data(right)) {
            (Data::Integer(l), Data::Integer(r)) => {
                let (l, r) = (*l, *r);
                Data::Integer(match op {
                    MathOp::Add => l.checked_add(r).unwrap(),
                    MathOp::Subtract => l.checked_sub(r).unwrap(),
                    MathOp::Multiply => l.checked_mul(r).unwrap(),
                    MathOp::Divide => l.checked_div(r).unwrap(),
                    MathOp::Remainder => l.checked_rem(r).unwrap(),
                    MathOp::Power => checked_power(l, r).unwrap(),
                })
            },
            _ => Data::Unit,
        };
        self.push_value(result);
        Ok(())
    }

    /// Replaces the last register by the result of an arithmetic operation on it.
    pub fn perform_unary_operation(&mut self, op: UnaryMathOp) -> (r: Result<(), RuntimeError>)
        requires
            old(self)@.wf(),
            old(self)@.data.len() + 1 < usize::MAX,
            old(self)@.registers.len() > 0 ==> unary_defined(op, old(self)@.right_operand()),
        ensures
            final(self)@.wf(),
            old(self)@.registers.len() == 0 ==> r == Err::<(), RuntimeError>(RuntimeError::NotEnoughRegisters)
                && final(self)@ == old(self)@,
            old(self)@.registers.len() > 0 ==> r is Ok && final(self)@ == old(self)@.unary_applied(
                unary_result(op, old(self)@.right_operand())),
    {
        let last = self.consume_last_ref()?;
        proof {
            crate::runtime::lemma_register_in_bounds(old(self)@, old(self)@.registers.len() - 1);
        }
        let result = match self.get_data(last) {
            Data::Integer(i) => {
                let i = *i;
                Data::Integer(match op {
                    UnaryMathOp::Negate => -i,
                    UnaryMathOp::AbsoluteValue => if i < 0 { -i } else { i },
                })
            },
            _ => Data::Unit,
        };
        self.push_value(result);
        Ok(())
    }
}


impl ExpressionRuntime {
    /// Replaces the last two registers by the sum of their integers.
    pub fn perform_addition(&mut self) -> (r: Result<(), RuntimeError>)
        requires
            old(self)@.wf(),
            old(self)@.data.len() + 1 < usize::MAX,
            old(self)@.registers.len() >= 2 ==> math_defined(MathOp::Add, old(self)@.left_operand(), old(self)@.right_operand()),
        ensures
            final(self)@.wf(),
            old(self)@.registers.len() < 2 ==> r == Err::<(), RuntimeError>(RuntimeError::NotEnoughRegisters)
                && final(self)@ == old(self)@,
            old(self)@.registers.len() >= 2 ==> r is Ok && final(self)@ == old(self)@.binary_applied(
                math_result(MathOp::Add, old(self)@.left_operand(), old(self)@.right_operand())),
    {
        self.perform_binary_operation(MathOp::Add)
    }

    /// Replaces the last two registers by the difference of their integers.
    pub fn perform_subtraction(&mut self) -> (r: Result<(), RuntimeError>)
        requires
            old(self)@.wf(),
            old(self)@.data.len() + 1 < usize::MAX,
            old(self)@.registers.len() >= 2 ==> math_defined(MathOp::Subtract, old(self)@.left_operand(), old(self)@.right_operand()),
        ensures
            final(self)@.wf(),
            old(self)@.registers.len() < 2 ==> r == Err::<(), RuntimeError>(RuntimeError::NotEnoughRegisters)
                && final(self)@ == old(self)@,
            old(self)@.registers.len() >= 2 ==> r is Ok && final(self)@ == old(self)@.binary_applied(
                math_result(MathOp::Subtract, old(self)@.left_operand(), old(self)@.right_operand())),
    {
        self.perform_binary_operation(MathOp::Subtract)
    }

    /// Replaces the last two registers by the product of their integers.
    pub fn perform_multiplication(&mut self) -> (r: Result<(), RuntimeError>)
        requires
            old(self)@.wf(),
            old(self)@.data.len() + 1 < usize::MAX,
            old(self)@.registers.len() >= 2 ==> math_defined(MathOp::Multiply, old(self)@.left_operand(), old(self)@.right_operand()),
        ensures
            final(self)@.wf(),
            old(self)@.registers.len() < 2 ==> r == Err::<(), RuntimeError>(RuntimeError::NotEnoughRegisters)
                && final(self)@ == old(self)@,
            old(self)@.registers.len() >= 2 ==> r is Ok && final(self)@ == old(self)@.binary_applied(
                math_result(MathOp::Multiply, old(self)@.left_operand(), old(self)@.right_operand())),
    {
        self.perform_binary_operation(MathOp::Multiply)
    }

    /// Replaces the last two registers by the quotient of their integers, rounded toward zero.
    pub fn perform_division(&mut self) -> (r: Result<(), RuntimeError>)
        requires
            old(self)@.wf(),
            old(self)@.data.len() + 1 < usize::MAX,
            old(self)@.registers.len() >= 2 ==> math_defined(MathOp::Divide, old(self)@.left_operand(), old(self)@.right_operand()),
        ensures
            final(self)@.wf(),
            old(self)@.registers.len() < 2 ==> r == Err::<(), RuntimeError>(RuntimeError::NotEnoughRegisters)
                && final(self)@ == old(self)@,
            old(self)@.registers.len() >= 2 ==> r is Ok && final(self)@ == old(self)@.binary_applied(
                math_result(MathOp::Divide, old(self)@.left_operand(), old(self)@.right_operand())),
    {
        self.perform_binary_operation(MathOp::Divide)
    }

    /// Replaces the last two registers by the quotient of their integers, rounded toward zero; a quotient of integers is an integer already.
    pub fn perform_integer_division(&mut self) -> (r: Result<(), RuntimeError>)
        requires
            old(self)@.wf(),
            old(self)@.data.len() + 1 < usize::MAX,
            old(self)@.registers.len() >= 2 ==> math_defined(MathOp::Divide, old(self)@.left_operand(), old(self)@.right_operand()),
        ensures
            final(self)@.wf(),
            old(self)@.registers.len() < 2 ==> r == Err::<(), RuntimeError>(RuntimeError::NotEnoughRegisters)
                && final(self)@ == old(self)@,
            old(self)@.registers.len() >= 2 ==> r is Ok && final(self)@ == old(self)@.binary_applied(
                math_result(MathOp::Divide, old(self)@.left_operand(), old(self)@.right_operand())),
    {
        self.perform_binary_operation(MathOp::Divide)
    }

    /// Replaces the last two registers by the remainder of dividing their integers.
    pub fn perform_remainder(&mut self) -> (r: Result<(), RuntimeError>)
        requires
            old(self)@.wf(),
            old(self)@.data.len() + 1 < usize::MAX,
            old(self)@.registers.len() >= 2 ==> math_defined(MathOp::Remainder, old(self)@.left_operand(), old(self)@.right_operand()),
        ensures
            final(self)@.wf(),
            old(self)@.registers.len() < 2 ==> r == Err::<(), RuntimeError>(RuntimeError::NotEnoughRegisters)
                && final(self)@ == old(self)@,
            old(self)@.registers.len() >= 2 ==> r is Ok && final(self)@ == old(self)@.binary_applied(
                math_result(MathOp::Remainder, old(self)@.left_operand(), old(self)@.right_operand())),
    {
        self.perform_binary_operation(MathOp::Remainder)
    }

    /// Replaces the last two registers by the first integer raised to the power of the second.
    pub fn perform_exponential(&mut self) -> (r: Result<(), RuntimeError>)
        requires
            old(self)@.wf(),
            old(self)@.data.len() + 1 < usize::MAX,
            old(self)@.registers.len() >= 2 ==> math_defined(MathOp::Power, old(self)@.left_operand(), old(self)@.right_operand()),
        ensures
            final(self)@.wf(),
            old(self)@.registers.len() < 2 ==> r == Err::<(), RuntimeError>(RuntimeError::NotEnoughRegisters)
                && final(self)@ == old(self)@,
            old(self)@.registers.len() >= 2 ==> r is Ok && final(self)@ == old(self)@.binary_applied(
                math_result(MathOp::Power, old(self)@.left_operand(), old(self)@.right_operand())),
    {
        self.perform_binary_operation(MathOp::Power)
    }

    /// Replaces the last register by the negation of its integer.
    pub fn perform_negation(&mut self) -> (r: Result<(), RuntimeError>)
        requires
            old(self)@.wf(),
            old(self)@.data.len() + 1 < usize::MAX,
            old(self)@.registers.len() > 0 ==> unary_defined(UnaryMathOp::Negate, old(self)@.right_operand()),
        ensures
            final(self)@.wf(),
            old(self)@.registers.len() == 0 ==> r == Err::<(), RuntimeError>(RuntimeError::NotEnoughRegisters)
                && final(self)@ == old(self)@,
            old(self)@.registers.len() > 0 ==> r is Ok && final(self)@ == old(self)@.unary_applied(
                unary_result(UnaryMathOp::Negate, old(self)@.right_operand())),
    {
        self.perform_unary_operation(UnaryMathOp::Negate)
    }

    /// Replaces the last register by the absolute value of its integer.
    pub fn perform_absolute_value(&mut self) -> (r: Result<(), RuntimeError>)
        requires
            old(self)@.wf(),
            old(self)@.data.len() + 1 < usize::MAX,
            old(self)@.registers.len() > 0 ==> unary_defined(UnaryMathOp::AbsoluteValue, old(self)@.right_operand()),
        ensures
            final(self)@.wf(),
            old(self)@.registers.len() == 0 ==> r == Err::<(), RuntimeError>(RuntimeError::NotEnoughRegisters)
                && final(self)@ == old(self)@,
            old(self)@.registers.len() > 0 ==> r is Ok && final(self)@ == old(self)@.unary_applied(
                unary_result(UnaryMathOp::AbsoluteValue, old(self)@.right_operand())),
    {
        self.perform_unary_operation(UnaryMathOp::AbsoluteValue)
    }
}

} // verus!
