use vstd::prelude::*;
use crate::data::{Data, DataView};
use crate::runtime::{ExpressionRuntime, RuntimeError};

verus! {

/// The bitwise operations on two integers.
#[derive(Clone, Copy, PartialEq, Eq, Structural, Debug)]
pub enum BitwiseOp {
    And,
    Or,
    Xor,
    ShiftLeft,
    ShiftRight,
}

/// A shift amount outside `0..32` makes the shift overflow.
pub open spec fn bitwise_defined(op: BitwiseOp, left: DataView, right: DataView) -> bool {
    match (left, right) {
        (DataView::Integer(_), DataView::Integer(r)) => match op {
            BitwiseOp::ShiftLeft | BitwiseOp::ShiftRight => 0 <= r < 32,
            _ => true,
        },
        _ => true,
    }
}

/// Two integers give the integer of the operation; any other pair gives unit.
pub open spec fn bitwise_result(op: BitwiseOp, left: DataView, right: DataView) -> DataView {
    match (left, right) {
        (DataView::Integer(l), DataView::Integer(r)) => DataView::Integer(match op {
            BitwiseOp::And => l & r,
            BitwiseOp::Or => l | r,
            BitwiseOp::Xor => l ^ r,
            BitwiseOp::ShiftLeft => l << (r as u32),
            BitwiseOp::ShiftRight => l >> (r as u32),
        }),
        _ => DataView::Unit,
    }
}

/// The complement of an integer; any other value gives unit.
pub open spec fn bitwise_not_result(value: DataView) -> DataView {
    match value {
        DataView::Integer(i) => DataView::Integer(!i),
        _ => DataView::Unit,
    }
}

/// Whether a bitwise operation on two values is defined.
pub fn bitwise_defined_of(op: BitwiseOp, left: &Data, right: &Data) -> (b: bool)
    ensures
        b == bitwise_defined(op, left@, right@),
{
    match (left, right) {
        (Data::Integer(_), Data::Integer(r)) => match op {
            BitwiseOp::ShiftLeft | BitwiseOp::ShiftRight => 0 <= *r && *r < 32,
            _ => true,
        },
        _ => true,
    }
}

impl ExpressionRuntime {
    /// Replaces the last two registers by the result of a bitwise operation on them.
    pub fn perform_bitwise_operation(&mut self, op: BitwiseOp) -> (r: Result<(), RuntimeError>)
        requires
            old(self)@.wf(),
            old(self)@.data.len() + 1 < usize::MAX,
            old(self)@.registers.len() >= 2 ==> bitwise_defined(op, old(self)@.left_operand(), old(self)@.right_operand()),
        ensures
            final(self)@.wf(),
            old(self)@.registers.len() < 2 ==> r == Err::<(), RuntimeError>(RuntimeError::NotEnoughRegisters)
                && final(self)@ == old(self)@,
            old(self)@.registers.len() >= 2 ==> r is Ok && final(self)@ == old(self)@.binary_applied(
                bitwise_result(op, old(self)@.left_operand(), old(self)@.right_operand())),
    {
        let (left, right) = self.consume_last_two_refs()?;
        proof {
            crate::runtime::lemma_register_in_bounds(old(self)@, old(self)@.registers.len() - 1);
            crate::runtime::lemma_register_in_bounds(old(self)@, old(self)@.registers.len() - 2);
        }
        let result = match (self.get_data(left), self.get_data(right)) {
            (Data::Integer(l), Data::Integer(r)) => {
                let (l, r) = (*l, *r);
                Data::Integer(match op {
                    BitwiseOp::And => l & r,
                    BitwiseOp::Or => l | r,
                    BitwiseOp::Xor => l ^ r,
                    BitwiseOp::ShiftLeft => l << (r as u32),
                    BitwiseOp::ShiftRight => l >> (r as u32),
                })
            },
            _ => Data::Unit,
        };
        self.push_value(result);
        Ok(())
    }

    pub fn perform_bitwise_and(&mut self) -> (r: Result<(), RuntimeError>)
        requires
            old(self)@.wf(),
            old(self)@.data.len() + 1 < usize::MAX,
        ensures
            final(self)@.wf(),
            old(self)@.registers.len() < 2 ==> r == Err::<(), RuntimeError>(RuntimeError::NotEnoughRegisters)
                && final(self)@ == old(self)@,
            old(self)@.registers.len() >= 2 ==> r is Ok && final(self)@ == old(self)@.binary_applied(
                bitwise_result(BitwiseOp::And, old(self)@.left_operand(), old(self)@.right_operand())),
    {
        self.perform_bitwise_operation(BitwiseOp::And)
    }

    pub fn perform_bitwise_or(&mut self) -> (r: Result<(), RuntimeError>)
        requires
            old(self)@.wf(),
            old(self)@.data.len() + 1 < usize::MAX,
        ensures
            final(self)@.wf(),
            old(self)@.registers.len() < 2 ==> r == Err::<(), RuntimeError>(RuntimeError::NotEnoughRegisters)
                && final(self)@ == old(self)@,
            old(self)@.registers.len() >= 2 ==> r is Ok && final(self)@ == old(self)@.binary_applied(
                bitwise_result(BitwiseOp::Or, old(self)@.left_operand(), old(self)@.right_operand())),
    {
        self.perform_bitwise_operation(BitwiseOp::Or)
    }

    pub fn perform_bitwise_xor(&mut self) -> (r: Result<(), RuntimeError>)
        requires
            old(self)@.wf(),
            old(self)@.data.len() + 1 < usize::MAX,
        ensures
            final(self)@.wf(),
            old(self)@.registers.len() < 2 ==> r == Err::<(), RuntimeError>(RuntimeError::NotEnoughRegisters)
                && final(self)@ == old(self)@,
            old(self)@.registers.len() >= 2 ==> r is Ok && final(self)@ == old(self)@.binary_applied(
                bitwise_result(BitwiseOp::Xor, old(self)@.left_operand(), old(self)@.right_operand())),
    {
        self.perform_bitwise_operation(BitwiseOp::Xor)
    }

    pub fn perform_bitwise_left_shift(&mut self) -> (r: Result<(), RuntimeError>)
        requires
            old(self)@.wf(),
            old(self)@.data.len() + 1 < usize::MAX,
            old(self)@.registers.len() >= 2 ==> bitwise_defined(BitwiseOp::ShiftLeft, old(self)@.left_operand(), old(self)@.right_operand()),
        ensures
            final(self)@.wf(),
            old(self)@.registers.len() < 2 ==> r == Err::<(), RuntimeError>(RuntimeError::NotEnoughRegisters)
                && final(self)@ == old(self)@,
            old(self)@.registers.len() >= 2 ==> r is Ok && final(self)@ == old(self)@.binary_applied(
                bitwise_result(BitwiseOp::ShiftLeft, old(self)@.left_operand(), old(self)@.right_operand())),
    {
        self.perform_bitwise_operation(BitwiseOp::ShiftLeft)
    }

    pub fn perform_bitwise_right_shift(&mut self) -> (r: Result<(), RuntimeError>)
        requires
            old(self)@.wf(),
            old(self)@.data.len() + 1 < usize::MAX,
            old(self)@.registers.len() >= 2 ==> bitwise_defined(BitwiseOp::ShiftRight, old(self)@.left_operand(), old(self)@.right_operand()),
        ensures
            final(self)@.wf(),
            old(self)@.registers.len() < 2 ==> r == Err::<(), RuntimeError>(RuntimeError::NotEnoughRegisters)
                && final(self)@ == old(self)@,
            old(self)@.registers.len() >= 2 ==> r is Ok && final(self)@ == old(self)@.binary_applied(
                bitwise_result(BitwiseOp::ShiftRight, old(self)@.left_operand(), old(self)@.right_operand())),
    {
        self.perform_bitwise_operation(BitwiseOp::ShiftRight)
    }

    /// Replaces the last register by the complement of the integer it refers to, or by unit.
    pub fn perform_bitwise_not(&mut self) -> (r: Result<(), RuntimeError>)
        requires
            old(self)@.wf(),
            old(self)@.data.len() + 1 < usize::MAX,
        ensures
            final(self)@.wf(),
            old(self)@.registers.len() == 0 ==> r == Err::<(), RuntimeError>(RuntimeError::NotEnoughRegisters)
                && final(self)@ == old(self)@,
            old(self)@.registers.len() > 0 ==> r is Ok && final(self)@ == old(self)@.unary_applied(
                bitwise_not_result(old(self)@.right_operand())),
    {
        let last = self.consume_last_ref()?;
        proof {
            crate::runtime::lemma_register_in_bounds(old(self)@, old(self)@.registers.len() - 1);
        }
        let result = match self.get_data(last) {
            Data::Integer(i) => Data::Integer(!*i),
            _ => Data::Unit,
        };
        self.push_value(result);
        Ok(())
    }
}

} // verus!
