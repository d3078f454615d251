use vstd::prelude::*;
use crate::runtime::{ExpressionRuntime, RuntimeError, RuntimeView};
use crate::conditional::last_result_ref;

verus! {

impl ExpressionRuntime {
    /// Refers a new last register to the stored value at `constant`.
    pub fn execute_put(&mut self, constant: usize) -> (r: Result<(), RuntimeError>)
        requires
            old(self)@.wf(),
        ensures
            final(self)@.wf(),
            constant < old(self)@.data.len() ==> r is Ok && final(self)@ == old(self)@.with_register(constant),
            constant >= old(self)@.data.len() ==> r == Err::<(), RuntimeError>(RuntimeError::InvalidReference)
                && final(self)@ == old(self)@,
    {
        if constant < self.data_len() {
            self.push_register(constant);
            Ok(())
        } else {
            Err(RuntimeError::InvalidReference)
        }
    }

    /// Refers a new last register to the most recent result, the current input or unit.
    pub fn put_result(&mut self)
        requires
            old(self)@.wf(),
        ensures
            final(self)@.wf(),
            final(self)@ == old(self)@.with_register(last_result_ref(old(self)@)),
    {
        proof {
            if old(self)@.results.len() > 0 {
                assert(old(self)@.results[old(self)@.results.len() - 1] < old(self)@.data.len());
            }
            if old(self)@.inputs.len() > 0 {
                assert(old(self)@.inputs[old(self)@.inputs.len() - 1] < old(self)@.data.len());
            }
        }
        let last = match self.last_result() {
            Some(r) => r,
            None => if self.input_count() > 0 { self.current_input() } else { 0 },
        };
        self.push_register(last);
    }

    /// Removes the last register and records its value as a result.
    pub fn push_result(&mut self) -> (r: Result<(), RuntimeError>)
        requires
            old(self)@.wf(),
        ensures
            final(self)@.wf(),
            old(self)@.registers.len() == 0 ==> r == Err::<(), RuntimeError>(RuntimeError::NotEnoughRegisters)
                && final(self)@ == old(self)@,
            old(self)@.registers.len() > 0 ==> r is Ok && final(self)@ == (RuntimeView {
                results: old(self)@.results.push(old(self)@.last_reg()),
                ..old(self)@.with_consumed(1)
            }),
    {
        let last = self.consume_last_ref()?;
        proof {
            crate::runtime::lemma_register_in_bounds(old(self)@, old(self)@.registers.len() - 1);
        }
        self.push_result_ref(last);
        Ok(())
    }
}

} // verus!
