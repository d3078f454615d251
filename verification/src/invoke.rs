use vstd::prelude::*;
use crate::data::{Data, DataView, refs_below};
use crate::runtime::{ExpressionRuntime, RuntimeError, RuntimeView, symbol_name, expression_start};
use crate::context::ExpressionContext;

verus! {

/// Calling a value with the input stored at `input`: an expression is jumped to (unit
/// when its index is unknown); an external method is answered by the context, asked
/// with the method's name and `input`, and its answer is stored (unit when the symbol
/// has no name; `InvalidReference`, with nothing changed, when the answer holds
/// positions of values that do not exist); any other value gives unit.
pub open spec fn call_outcome<C: ExpressionContext>(ctx: &C, v: RuntimeView, target: DataView, input: usize,
    r: Result<Option<usize>, RuntimeError>, after: RuntimeView) -> bool {
    match target {
        DataView::Expression(i) => match expression_start(v.expression_starts, i) {
            None => r == Ok::<Option<usize>, RuntimeError>(None) && after == v.with_pushed(DataView::Unit),
            Some(s) => r == Ok::<Option<usize>, RuntimeError>(Some(s))
                && after == (RuntimeView { frames: v.frames.push((v.cursor + 1) as usize), ..v }),
        },
        DataView::ExternalMethod(m) => match symbol_name(v.symbols, m) {
            None => r == Ok::<Option<usize>, RuntimeError>(None) && after == v.with_pushed(DataView::Unit),
            Some(name) => exists|d: DataView| #[trigger] ctx.executes_to(name, v, input, d) && (if refs_below(d, v.data.len() as int) {
                    r == Ok::<Option<usize>, RuntimeError>(None) && after == v.with_pushed(d)
                } else {
                    r == Err::<Option<usize>, RuntimeError>(RuntimeError::InvalidReference) && after == v
                }),
        },
        _ => r == Ok::<Option<usize>, RuntimeError>(None) && after == v.with_pushed(DataView::Unit),
    }
}

/// The input a call made by `invoke` is given: the current input, or the unit value
/// at position zero when there is none.
pub open spec fn invoke_input(v: RuntimeView) -> usize {
    if v.inputs.len() > 0 { v.inputs.last() } else { 0 }
}

impl ExpressionRuntime {
    /// Calls the value `target` with the input stored at `input`.
    pub fn call_value<C: ExpressionContext>(&mut self, target: &Data, input: usize, context: &C) -> (r: Result<Option<usize>, RuntimeError>)
        requires
            old(self)@.wf(),
            old(self)@.data.len() + 1 < usize::MAX,
            old(self)@.cursor < usize::MAX,
        ensures
            final(self)@.wf(),
            call_outcome(context, old(self)@, target@, input, r, final(self)@),
    {
        match target {
            Data::Expression(i) => match self.get_expression_start(*i) {
                None => {
                    self.push_value(Data::Unit);
                    Ok(None)
                },
                Some(start) => {
                    let c = self.get_instruction_cursor();
                    self.push_frame(c + 1);
                    Ok(Some(start))
                },
            },
            Data::ExternalMethod(m) => {
                let name = match self.symbol_name_ref(*m) {
                    None => {
                        self.push_value(Data::Unit);
                        return Ok(None);
                    },
                    Some(n) => n.clone(),
                };
                let d = context.execute(&name, self, input);
                let ghost dv = d@;
                let copied = self.copy_into(d);
                let r: Result<Option<usize>, RuntimeError> = match copied {
                    Ok(()) => Ok(None),
                    Err(e) => Err(e),
                };
                proof {
                    let nm = symbol_name(old(self)@.symbols, *m)->Some_0;
                    assert(nm == name@);
                    assert(context.executes_to(nm, old(self)@, input, dv));
                    assert(exists|e: DataView| #[trigger] context.executes_to(nm, old(self)@, input, e) && (if refs_below(e, old(self)@.data.len() as int) {
                        r == Ok::<Option<usize>, RuntimeError>(None) && final(self)@ == old(self)@.with_pushed(e)
                    } else {
                        r == Err::<Option<usize>, RuntimeError>(RuntimeError::InvalidReference) && final(self)@ == old(self)@
                    }));
                }
                r
            },
            _ => {
                self.push_value(Data::Unit);
                Ok(None)
            },
        }
    }

    /// Calls the value of the last register, which stays, with the current input.
    pub fn invoke<C: ExpressionContext>(&mut self, context: &C) -> (r: Result<Option<usize>, RuntimeError>)
        requires
            old(self)@.wf(),
            old(self)@.data.len() + 1 < usize::MAX,
            old(self)@.cursor < usize::MAX,
        ensures
            final(self)@.wf(),
            old(self)@.registers.len() == 0 ==> r == Err::<Option<usize>, RuntimeError>(RuntimeError::NotEnoughRegisters)
                && final(self)@ == old(self)@,
            old(self)@.registers.len() > 0 ==> call_outcome(context, old(self)@, old(self)@.right_operand(), invoke_input(old(self)@), r, final(self)@),
    {
        let target = self.last_ref()?;
        proof {
            crate::runtime::lemma_register_in_bounds(old(self)@, old(self)@.registers.len() - 1);
            if old(self)@.inputs.len() > 0 {
                assert(old(self)@.inputs[old(self)@.inputs.len() - 1] < old(self)@.data.len());
            }
        }
        let input = if self.input_count() > 0 { self.current_input() } else { 0 };
        let t = self.get_data(target).copy();
        self.call_value(&t, input, context)
    }
}

} // verus!
