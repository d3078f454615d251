use vstd::prelude::*;
use crate::data::{Data, DataView};
use crate::runtime::{ExpressionRuntime, RuntimeError, RuntimeView, FALSE_SYMBOL, expression_start};
use crate::comparison::{ValueOrder, ordering};

verus! {

/// Unit and the false symbol are false; every other value is true.
pub open spec fn truthy(d: DataView) -> bool {
    match d {
        DataView::Unit => false,
        DataView::Symbol(s) => s != FALSE_SYMBOL,
        _ => true,
    }
}

/// The expression to run for a condition: the first index when it holds, the second
/// otherwise; an index of zero runs nothing.
pub open spec fn chosen_expression(condition: bool, true_index: usize, false_index: usize) -> Option<usize> {
    if condition && true_index != 0 {
        Some(true_index)
    } else if !condition && false_index != 0 {
        Some(false_index)
    } else {
        None
    }
}

/// Running an expression chosen by a condition: nothing, an error for an unknown
/// expression, or a jump to its start remembering where to continue.
pub open spec fn conditional_jump(v: RuntimeView, chosen: Option<usize>, r: Result<Option<usize>, RuntimeError>,
    after: RuntimeView) -> bool {
    match chosen {
        None => r == Ok::<Option<usize>, RuntimeError>(None) && after == v,
        Some(i) => match expression_start(v.expression_starts, i) {
            None => r == Err::<Option<usize>, RuntimeError>(RuntimeError::ExpressionNotFound) && after == v,
            Some(s) => r == Ok::<Option<usize>, RuntimeError>(Some(s))
                && after == (RuntimeView { frames: v.frames.push((v.cursor + 1) as usize), ..v }),
        },
    }
}

/// The value the most recent result stands at: the last result, else the current
/// input, else the unit value at position 0.
pub open spec fn last_result_ref(v: RuntimeView) -> usize {
    if v.results.len() > 0 {
        v.results.last()
    } else if v.inputs.len() > 0 {
        v.inputs.last()
    } else {
        0
    }
}

impl ExpressionRuntime {
    fn jump_to_chosen(&mut self, chosen: Option<usize>) -> (r: Result<Option<usize>, RuntimeError>)
        requires
            old(self)@.wf(),
            old(self)@.cursor < usize::MAX,
        ensures
            final(self)@.wf(),
            conditional_jump(old(self)@, chosen, r, final(self)@),
    {
        match chosen {
            None => Ok(None),
            Some(i) => match self.get_expression_start(i) {
                None => Err(RuntimeError::ExpressionNotFound),
                Some(start) => {
                    let c = self.get_instruction_cursor();
                    self.push_frame(c + 1);
                    Ok(Some(start))
                },
            },
        }
    }

    /// Removes the last register and runs expression `true_index` when its value is
    /// true, or expression `false_index` when it is false.
    pub fn conditional_execute(&mut self, true_index: usize, false_index: usize) -> (r: Result<Option<usize>, RuntimeError>)
        requires
            old(self)@.wf(),
            old(self)@.cursor < usize::MAX,
        ensures
            final(self)@.wf(),
            old(self)@.registers.len() == 0 ==> r == Err::<Option<usize>, RuntimeError>(RuntimeError::NotEnoughRegisters)
                && final(self)@ == old(self)@,
            old(self)@.registers.len() > 0 ==> conditional_jump(old(self)@.with_consumed(1),
                chosen_expression(truthy(old(self)@.right_operand()), true_index, false_index), r, final(self)@),
    {
        let c = self.consume_last_ref()?;
        proof {
            crate::runtime::lemma_register_in_bounds(old(self)@, old(self)@.registers.len() - 1);
        }
        let condition = match self.get_data(c) {
            Data::Unit => false,
            Data::Symbol(s) => *s != FALSE_SYMBOL,
            _ => true,
        };
        let chosen = if condition && true_index != 0 {
            Some(true_index)
        } else if !condition && false_index != 0 {
            Some(false_index)
        } else {
            None
        };
        self.jump_to_chosen(chosen)
    }

    /// Removes the last register and runs expression `true_index` when its value equals
    /// the most recent result, or expression `false_index` otherwise.
    pub fn result_conditional_execute(&mut self, true_index: usize, false_index: usize) -> (r: Result<Option<usize>, RuntimeError>)
        requires
            old(self)@.wf(),
            old(self)@.cursor < usize::MAX,
        ensures
            final(self)@.wf(),
            old(self)@.registers.len() == 0 ==> r == Err::<Option<usize>, RuntimeError>(RuntimeError::NotEnoughRegisters)
                && final(self)@ == old(self)@,
            old(self)@.registers.len() > 0 ==> conditional_jump(old(self)@.with_consumed(1),
                chosen_expression(ordering(old(self)@.data, old(self)@.symbols, last_result_ref(old(self)@) as nat,
                    old(self)@.last_reg() as nat) == Some(ValueOrder::Equal), true_index, false_index), r, final(self)@),
    {
        let c = self.consume_last_ref()?;
        proof {
            crate::runtime::lemma_register_in_bounds(old(self)@, old(self)@.registers.len() - 1);
            if old(self)@.results.len() > 0 {
                assert(old(self)@.results[old(self)@.results.len() - 1] < old(self)@.data.len());
            }
            if old(self)@.inputs.len() > 0 {
                assert(old(self)@.inputs[old(self)@.inputs.len() - 1] < old(self)@.data.len());
            }
        }
        let last = match self.last_result() {
            Some(r) => r,
            None => if self.input_count() > 0 { self.current_input() } else { 0 },
        };
        let condition = self.ordering_of_values_refs(last, c) == Some(ValueOrder::Equal);
        let chosen = if condition && true_index != 0 {
            Some(true_index)
        } else if !condition && false_index != 0 {
            Some(false_index)
        } else {
            None
        };
        self.jump_to_chosen(chosen)
    }
}

} // verus!
