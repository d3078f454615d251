use vstd::prelude::*;
use crate::data::{Data, DataType, DataView, RangeParts, type_of};
use crate::runtime::{ExpressionRuntime, RuntimeError};

verus! {

/// The kinds of values a range may be bounded by.
pub open spec fn is_range_bound_type(t: DataType) -> bool {
    t == DataType::Integer || t == DataType::Character
}

/// The range made of two bounds: units make the sides open, two bounds of the same
/// kind (integer or character) or one bound beside a unit make a range, anything
/// else gives unit.
pub open spec fn range_result(start_exclusive: bool, end_exclusive: bool, left: usize, right: usize,
    left_value: DataView, right_value: DataView) -> DataView {
    let lt = type_of(left_value);
    let rt = type_of(right_value);
    if lt == DataType::Unit && rt == DataType::Unit {
        DataView::Range(RangeParts { start_exclusive, end_exclusive, start: None, end: None, step: None })
    } else if is_range_bound_type(lt) && lt == rt {
        DataView::Range(RangeParts { start_exclusive, end_exclusive, start: Some(left), end: Some(right), step: None })
    } else if lt == DataType::Unit && is_range_bound_type(rt) {
        DataView::Range(RangeParts { start_exclusive, end_exclusive, start: None, end: Some(right), step: None })
    } else if is_range_bound_type(lt) && rt == DataType::Unit {
        DataView::Range(RangeParts { start_exclusive, end_exclusive, start: Some(left), end: None, step: None })
    } else {
        DataView::Unit
    }
}

impl ExpressionRuntime {
    /// Replaces the last two registers by a range from the first value to the second.
    pub fn make_range(&mut self, start_exclusive: bool, end_exclusive: bool) -> (r: Result<(), RuntimeError>)
        requires
            old(self)@.wf(),
            old(self)@.data.len() + 1 < usize::MAX,
        ensures
            final(self)@.wf(),
            old(self)@.registers.len() < 2 ==> r == Err::<(), RuntimeError>(RuntimeError::NotEnoughRegisters)
                && final(self)@ == old(self)@,
            old(self)@.registers.len() >= 2 ==> r is Ok && final(self)@ == old(self)@.binary_applied(
                range_result(start_exclusive, end_exclusive, old(self)@.second_last_reg(), old(self)@.last_reg(),
                    old(self)@.left_operand(), old(self)@.right_operand())),
    {
        let (left, right) = self.consume_last_two_refs()?;
        proof {
            crate::runtime::lemma_register_in_bounds(old(self)@, old(self)@.registers.len() - 1);
            crate::runtime::lemma_register_in_bounds(old(self)@, old(self)@.registers.len() - 2);
        }
        let lt = self.get_data(left).get_type();
        let rt = self.get_data(right).get_type();
        let l_bound = lt == DataType::Integer || lt == DataType::Character;
        let r_bound = rt == DataType::Integer || rt == DataType::Character;
        let result = if lt == DataType::Unit && rt == DataType::Unit {
            Data::Range(RangeParts { start_exclusive, end_exclusive, start: None, end: None, step: None })
        } else if l_bound && lt == rt {
            Data::Range(RangeParts { start_exclusive, end_exclusive, start: Some(left), end: Some(right), step: None })
        } else if lt == DataType::Unit && r_bound {
            Data::Range(RangeParts { start_exclusive, end_exclusive, start: None, end: Some(right), step: None })
        } else if l_bound && rt == DataType::Unit {
            Data::Range(RangeParts { start_exclusive, end_exclusive, start: Some(left), end: None, step: None })
        } else {
            Data::Unit
        };
        self.push_value(result);
        Ok(())
    }

    /// A range including both bounds.
    pub fn make_inclusive_range(&mut self) -> (r: Result<(), RuntimeError>)
        requires
            old(self)@.wf(),
            old(self)@.data.len() + 1 < usize::MAX,
        ensures
            final(self)@.wf(),
            old(self)@.registers.len() < 2 ==> r == Err::<(), RuntimeError>(RuntimeError::NotEnoughRegisters)
                && final(self)@ == old(self)@,
            old(self)@.registers.len() >= 2 ==> r is Ok && final(self)@ == old(self)@.binary_applied(
                range_result(false, false, old(self)@.second_last_reg(), old(self)@.last_reg(),
                    old(self)@.left_operand(), old(self)@.right_operand())),
    {
        self.make_range(false, false)
    }

    /// A range excluding both bounds.
    pub fn make_exclusive_range(&mut self) -> (r: Result<(), RuntimeError>)
        requires
            old(self)@.wf(),
            old(self)@.data.len() + 1 < usize::MAX,
        ensures
            final(self)@.wf(),
            old(self)@.registers.len() < 2 ==> r == Err::<(), RuntimeError>(RuntimeError::NotEnoughRegisters)
                && final(self)@ == old(self)@,
            old(self)@.registers.len() >= 2 ==> r is Ok && final(self)@ == old(self)@.binary_applied(
                range_result(true, true, old(self)@.second_last_reg(), old(self)@.last_reg(),
                    old(self)@.left_operand(), old(self)@.right_operand())),
    {
        self.make_range(true, true)
    }

    /// A range excluding its start.
    pub fn make_start_exclusive_range(&mut self) -> (r: Result<(), RuntimeError>)
        requires
            old(self)@.wf(),
            old(self)@.data.len() + 1 < usize::MAX,
        ensures
            final(self)@.wf(),
            old(self)@.registers.len() < 2 ==> r == Err::<(), RuntimeError>(RuntimeError::NotEnoughRegisters)
                && final(self)@ == old(self)@,
            old(self)@.registers.len() >= 2 ==> r is Ok && final(self)@ == old(self)@.binary_applied(
                range_result(true, false, old(self)@.second_last_reg(), old(self)@.last_reg(),
                    old(self)@.left_operand(), old(self)@.right_operand())),
    {
        self.make_range(true, false)
    }

    /// A range excluding its end.
    pub fn make_end_exclusive_range(&mut self) -> (r: Result<(), RuntimeError>)
        requires
            old(self)@.wf(),
            old(self)@.data.len() + 1 < usize::MAX,
        ensures
            final(self)@.wf(),
            old(self)@.registers.len() < 2 ==> r == Err::<(), RuntimeError>(RuntimeError::NotEnoughRegisters)
                && final(self)@ == old(self)@,
            old(self)@.registers.len() >= 2 ==> r is Ok && final(self)@ == old(self)@.binary_applied(
                range_result(false, true, old(self)@.second_last_reg(), old(self)@.last_reg(),
                    old(self)@.left_operand(), old(self)@.right_operand())),
    {
        self.make_range(false, true)
    }
}

} // verus!
