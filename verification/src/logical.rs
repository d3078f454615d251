use vstd::prelude::*;
use crate::data::{Data, DataView};
use crate::runtime::{ExpressionRuntime, RuntimeError, FALSE_SYMBOL, TRUE_SYMBOL, condition_symbol, symbol_from_condition};

verus! {

/// Logical and: a unit on either side is false; a symbol is true unless it is the
/// false symbol; beside a value that is neither, a symbol must be the true symbol;
/// any other combination is true.
pub open spec fn logical_and(left: DataView, right: DataView) -> bool {
    match (left, right) {
        (DataView::Unit, _) => false,
        (_, DataView::Unit) => false,
        (DataView::Symbol(l), DataView::Symbol(r)) => l != FALSE_SYMBOL && r != FALSE_SYMBOL,
        (DataView::Symbol(l), _) => l == TRUE_SYMBOL,
        (_, DataView::Symbol(r)) => r == TRUE_SYMBOL,
        _ => true,
    }
}

/// Logical or: two units are false; a single unit beside another value is true;
/// two symbols are true unless both are the false symbol; anything else is true.
pub open spec fn logical_or(left: DataView, right: DataView) -> bool {
    match (left, right) {
        (DataView::Unit, DataView::Unit) => false,
        (DataView::Unit, _) => true,
        (_, DataView::Unit) => true,
        (DataView::Symbol(l), DataView::Symbol(r)) => l != FALSE_SYMBOL || r != FALSE_SYMBOL,
        _ => true,
    }
}

/// Logical exclusive or: two units are false; a single unit beside another value is
/// true; two symbols differ in being the false symbol; a symbol beside a value that
/// is neither is true when it is the false symbol; any other combination is false.
pub open spec fn logical_xor(left: DataView, right: DataView) -> bool {
    match (left, right) {
        (DataView::Unit, DataView::Unit) => false,
        (DataView::Unit, _) => true,
        (_, DataView::Unit) => true,
        (DataView::Symbol(l), DataView::Symbol(r)) => (l != FALSE_SYMBOL) != (r != FALSE_SYMBOL),
        (DataView::Symbol(l), _) => l == FALSE_SYMBOL,
        (_, DataView::Symbol(r)) => r == FALSE_SYMBOL,
        _ => false,
    }
}

/// Logical not: a symbol is negated when it is the false symbol, unit becomes true
/// and any other value becomes false.
pub open spec fn logical_not(value: DataView) -> bool {
    match value {
        DataView::Symbol(s) => s == FALSE_SYMBOL,
        DataView::Unit => true,
        _ => false,
    }
}

fn and_of(left: &Data, right: &Data) -> (b: bool)
    ensures
        b == logical_and(left@, right@),
{
    match (left, right) {
        (Data::Unit, _) => false,
        (_, Data::Unit) => false,
        (Data::Symbol(l), Data::Symbol(r)) => *l != FALSE_SYMBOL && *r != FALSE_SYMBOL,
        (Data::Symbol(l), _) => *l == TRUE_SYMBOL,
        (_, Data::Symbol(r)) => *r == TRUE_SYMBOL,
        _ => true,
    }
}

fn or_of(left: &Data, right: &Data) -> (b: bool)
    ensures
        b == logical_or(left@, right@),
{
    match (left, right) {
        (Data::Unit, Data::Unit) => false,
        (Data::Unit, _) => true,
        (_, Data::Unit) => true,
        (Data::Symbol(l), Data::Symbol(r)) => *l != FALSE_SYMBOL || *r != FALSE_SYMBOL,
        _ => true,
    }
}

fn xor_of(left: &Data, right: &Data) -> (b: bool)
    ensures
        b == logical_xor(left@, right@),
{
    match (left, right) {
        (Data::Unit, Data::Unit) => false,
        (Data::Unit, _) => true,
        (_, Data::Unit) => true,
        (Data::Symbol(l), Data::Symbol(r)) => (*l != FALSE_SYMBOL) != (*r != FALSE_SYMBOL),
        (Data::Symbol(l), _) => *l == FALSE_SYMBOL,
        (_, Data::Symbol(r)) => *r == FALSE_SYMBOL,
        _ => false,
    }
}

/// The logical operations on two values.
#[derive(Clone, Copy, PartialEq, Eq, Structural, Debug)]
pub enum LogicalOp {
    And,
    Or,
    Xor,
}

pub open spec fn logical_result(op: LogicalOp, left: DataView, right: DataView) -> bool {
    match op {
        LogicalOp::And => logical_and(left, right),
        LogicalOp::Or => logical_or(left, right),
        LogicalOp::Xor => logical_xor(left, right),
    }
}

impl ExpressionRuntime {
    fn perform_logical_operation(&mut self, op: LogicalOp) -> (r: Result<(), RuntimeError>)
        requires
            old(self)@.wf(),
            old(self)@.data.len() + 1 < usize::MAX,
        ensures
            final(self)@.wf(),
            old(self)@.registers.len() < 2 ==> r == Err::<(), RuntimeError>(RuntimeError::NotEnoughRegisters)
                && final(self)@ == old(self)@,
            old(self)@.registers.len() >= 2 ==> r is Ok && final(self)@ == old(self)@.binary_applied(
                condition_symbol(logical_result(op, old(self)@.left_operand(), old(self)@.right_operand()))),
    {
        let (left, right) = self.consume_last_two_refs()?;
        proof {
            crate::runtime::lemma_register_in_bounds(old(self)@, old(self)@.registers.len() - 1);
            crate::runtime::lemma_register_in_bounds(old(self)@, old(self)@.registers.len() - 2);
        }
        let l = self.get_data(left);
        let r = self.get_data(right);
        let c = match op {
            LogicalOp::And => and_of(l, r),
            LogicalOp::Or => or_of(l, r),
            LogicalOp::Xor => xor_of(l, r),
        };
        self.push_value(symbol_from_condition(c));
        Ok(())
    }

    /// Replaces the last two registers by the symbol for their logical and.
    pub fn perform_logical_and(&mut self) -> (r: Result<(), RuntimeError>)
        requires
            old(self)@.wf(),
            old(self)@.data.len() + 1 < usize::MAX,
        ensures
            final(self)@.wf(),
            old(self)@.registers.len() < 2 ==> r == Err::<(), RuntimeError>(RuntimeError::NotEnoughRegisters)
                && final(self)@ == old(self)@,
            old(self)@.registers.len() >= 2 ==> r is Ok && final(self)@ == old(self)@.binary_applied(
                condition_symbol(logical_and(old(self)@.left_operand(), old(self)@.right_operand()))),
    {
        self.perform_logical_operation(LogicalOp::And)
    }

    /// Replaces the last two registers by the symbol for their logical or.
    pub fn perform_logical_or(&mut self) -> (r: Result<(), RuntimeError>)
        requires
            old(self)@.wf(),
            old(self)@.data.len() + 1 < usize::MAX,
        ensures
            final(self)@.wf(),
            old(self)@.registers.len() < 2 ==> r == Err::<(), RuntimeError>(RuntimeError::NotEnoughRegisters)
                && final(self)@ == old(self)@,
            old(self)@.registers.len() >= 2 ==> r is Ok && final(self)@ == old(self)@.binary_applied(
                condition_symbol(logical_or(old(self)@.left_operand(), old(self)@.right_operand()))),
    {
        self.perform_logical_operation(LogicalOp::Or)
    }

    /// Replaces the last two registers by the symbol for their logical exclusive or.
    pub fn perform_logical_xor(&mut self) -> (r: Result<(), RuntimeError>)
        requires
            old(self)@.wf(),
            old(self)@.data.len() + 1 < usize::MAX,
        ensures
            final(self)@.wf(),
            old(self)@.registers.len() < 2 ==> r == Err::<(), RuntimeError>(RuntimeError::NotEnoughRegisters)
                && final(self)@ == old(self)@,
            old(self)@.registers.len() >= 2 ==> r is Ok && final(self)@ == old(self)@.binary_applied(
                condition_symbol(logical_xor(old(self)@.left_operand(), old(self)@.right_operand()))),
    {
        self.perform_logical_operation(LogicalOp::Xor)
    }

    /// Replaces the last register by the symbol for its logical negation.
    pub fn perform_logical_not(&mut self) -> (r: Result<(), RuntimeError>)
        requires
            old(self)@.wf(),
            old(self)@.data.len() + 1 < usize::MAX,
        ensures
            final(self)@.wf(),
            old(self)@.registers.len() == 0 ==> r == Err::<(), RuntimeError>(RuntimeError::NotEnoughRegisters)
                && final(self)@ == old(self)@,
            old(self)@.registers.len() > 0 ==> r is Ok && final(self)@ == old(self)@.unary_applied(
                condition_symbol(logical_not(old(self)@.right_operand()))),
    {
        let last = self.consume_last_ref()?;
        proof {
            crate::runtime::lemma_register_in_bounds(old(self)@, old(self)@.registers.len() - 1);
        }
        let c = match self.get_data(last) {
            Data::Symbol(s) => *s == FALSE_SYMBOL,
            Data::Unit => true,
            _ => false,
        };
        self.push_value(symbol_from_condition(c));
        Ok(())
    }
}

} // verus!
