use vstd::prelude::*;
use crate::context::ExpressionContext;
use crate::execute::{SimpleRuntimeState, instruction_executed};
use crate::instruction::Instruction;
use crate::runtime::{ExpressionRuntime, RuntimeError, RuntimeView, expression_index, expression_start};

verus! {

/// An executed instruction, with the runtime as it was after it and the error it
/// gave, if any.
pub struct InstructionData {
    instruction: Instruction,
    instruction_index: usize,
    expression_runtime: ExpressionRuntime,
    error: Option<RuntimeError>,
}

impl InstructionData {
    /// The instruction executed.
    pub closed spec fn instruction_of(self) -> Instruction {
        self.instruction
    }

    /// Where the instruction stands.
    pub closed spec fn index_of(self) -> usize {
        self.instruction_index
    }

    /// The runtime after the instruction.
    pub closed spec fn runtime_of(self) -> RuntimeView {
        self.expression_runtime@
    }

    /// The error the instruction gave, if any.
    pub closed spec fn error_of(self) -> Option<RuntimeError> {
        self.error
    }

    /// The instruction executed.
    pub fn get_instruction(&self) -> (i: Instruction)
        ensures
            i == self.instruction_of(),
    {
        self.instruction
    }

    /// The runtime as it was after the instruction.
    pub fn get_expression_runtime(&self) -> (rt: &ExpressionRuntime)
        ensures
            rt@ == self.runtime_of(),
    {
        &self.expression_runtime
    }

    /// The error the instruction gave, if any.
    pub fn get_error(&self) -> (e: Option<RuntimeError>)
        ensures
            e == self.error_of(),
    {
        self.error
    }
}

/// The runtime about to run the expression starting at instruction `start`, with
/// no registers in use, to end when that expression ends.
pub open spec fn started_at(v: RuntimeView, start: usize) -> RuntimeView {
    RuntimeView {
        registers: Seq::empty(),
        frames: v.frames.push(v.instructions.len() as usize),
        cursor: start,
        ..v
    }
}

/// The text of the error for a start expression `name` that does not exist.
pub open spec fn missing_expression_text(name: Seq<char>) -> Seq<char> {
    "Expression '"@ + name + "' does not exist in instructions."@
}

/// The error for a start expression `name` that does not exist.
pub fn missing_expression(name: &String) -> (m: String)
    ensures
        m@ == missing_expression_text(name@),
{
    let mut m = String::from_str("Expression '");
    m.append(name.as_str());
    m.append("' does not exist in instructions.");
    m
}

/// Executes a runtime's instructions one at a time, from the start of a named
/// expression until it ends, execution ends, or an instruction fails.
pub struct InstructionIter<'a> {
    /// The runtime being executed, borrowed from the caller.
    pub expression_runtime: &'a mut ExpressionRuntime,
    /// Whether execution has stopped.
    pub finished: bool,
}

impl<'a> InstructionIter<'a> {
    /// The runtime being executed.
    pub closed spec fn runtime_of(self) -> RuntimeView {
        (*self.expression_runtime)@
    }

    /// Whether execution has stopped.
    pub closed spec fn is_finished(self) -> bool {
        self.finished
    }

    /// Starts executing the expression registered under `start`; fails when there is none.
    pub fn new(expression_runtime: &'a mut ExpressionRuntime, start: &String) -> (r: Result<InstructionIter<'a>, String>)
        requires
            old(expression_runtime)@.wf(),
        ensures
            match expression_index(old(expression_runtime)@.expression_names, start@) {
                None => (r matches Err(m) && m@ == missing_expression_text(start@))
                    && final(expression_runtime)@ == old(expression_runtime)@,
                Some(i) => match expression_start(old(expression_runtime)@.expression_starts, i) {
                    None => (r matches Err(m) && m@ == missing_expression_text(start@))
                        && final(expression_runtime)@ == old(expression_runtime)@,
                    Some(s) => r matches Ok(it) && it.runtime_of() == started_at(old(expression_runtime)@, s)
                        && !it.is_finished() && it.runtime_of().wf() && *final(it.expression_runtime) == *final(expression_runtime),
                },
            },
    {
        let index = match expression_runtime.get_expression_index(start) {
            None => return Err(missing_expression(start)),
            Some(i) => i,
        };
        let instruction_start = match expression_runtime.get_expression_start(index) {
            None => return Err(missing_expression(start)),
            Some(s) => s,
        };
        let ghost before = expression_runtime@;
        let _ = expression_runtime.take_registers_from(0);
        let end = expression_runtime.instruction_count();
        expression_runtime.push_frame(end);
        expression_runtime.set_instruction_cursor(instruction_start);
        proof {
            assert(expression_runtime@ =~= started_at(before, instruction_start));
        }
        Ok(InstructionIter { expression_runtime, finished: false })
    }

    /// The runtime being executed.
    pub fn get_expression_runtime(&self) -> (rt: &ExpressionRuntime)
        ensures
            rt@ == self.runtime_of(),
    {
        &self.expression_runtime
    }

    /// Executes the next instruction and returns it with the runtime after it. Gives
    /// nothing once execution has stopped: when the started expression has ended,
    /// execution has ended, an instruction failed, or the runtime has no room left
    /// for the values an instruction may store.
    pub fn next<C: ExpressionContext>(&mut self, context: &C) -> (d: Option<InstructionData>)
        requires
            old(self).runtime_of().wf(),
        ensures
            final(self).runtime_of().wf(),
            *final(final(self).expression_runtime) == *final(old(self).expression_runtime),
            (old(self).is_finished() || old(self).runtime_of().frames.len() == 0
                || old(self).runtime_of().data.len() + 8 >= usize::MAX) ==> d is None
                && final(self).runtime_of() == old(self).runtime_of(),
            !(old(self).is_finished() || old(self).runtime_of().frames.len() == 0
                || old(self).runtime_of().data.len() + 8 >= usize::MAX) ==> match d {
                None => false,
                Some(x) => {
                    let before = old(self).runtime_of();
                    &&& x.index_of() == before.cursor
                    &&& x.runtime_of() == final(self).runtime_of()
                    &&& before.cursor >= before.instructions.len() ==> x.error_of() == Some(RuntimeError::NoInstruction)
                        && x.instruction_of() == Instruction::Put && final(self).runtime_of() == before
                        && final(self).is_finished()
                    &&& before.cursor < before.instructions.len() ==> x.instruction_of() == before.instructions[before.cursor as int].instruction
                        && exists|r: Result<crate::execute::SimpleRuntimeInfo, RuntimeError>|
                            #[trigger] instruction_executed(context, before, r, final(self).runtime_of())
                            && x.error_of() == (match r { Err(e) => Some(e), Ok(_) => None })
                            && final(self).is_finished() == (match r { Err(_) => true, Ok(info) => info.state_of() == SimpleRuntimeState::End })
                },
            },
    {
        if self.finished || self.expression_runtime.frame_count() == 0 || self.expression_runtime.data_len() >= usize::MAX - 8 {
            return None;
        }
        let index = self.expression_runtime.get_instruction_cursor();
        let instruction = match self.expression_runtime.get_instruction(index) {
            None => {
                self.finished = true;
                return Some(InstructionData {
                    instruction: Instruction::Put,
                    instruction_index: index,
                    expression_runtime: self.expression_runtime.snapshot(),
                    error: Some(RuntimeError::NoInstruction),
                });
            },
            Some(d) => d.instruction,
        };
        let ghost before = self.expression_runtime@;
        let r = self.expression_runtime.execute_current_instruction(context);
        assert(instruction_executed(context, before, r, self.expression_runtime@));
        let error = match r {
            Err(e) => {
                self.finished = true;
                Some(e)
            },
            Ok(info) => {
                match info.get_state() {
                    SimpleRuntimeState::End => {
                        self.finished = true;
                    },
                    SimpleRuntimeState::Running => {},
                }
                None
            },
        };
        let x = InstructionData {
            instruction,
            instruction_index: index,
            expression_runtime: self.expression_runtime.snapshot(),
            error,
        };
        assert(x.index_of() == before.cursor);
        assert(x.runtime_of() == self.runtime_of());
        assert(x.instruction_of() == before.instructions[before.cursor as int].instruction);
        assert(x.error_of() == (match r { Err(e) => Some(e), Ok(_) => None }));
        assert(self.is_finished() == (match r { Err(_) => true, Ok(info) => info.state_of() == SimpleRuntimeState::End }));
        Some(x)
    }
}

impl ExpressionRuntime {
    /// Starts executing the expression registered under `start`, one instruction at a
    /// time; fails, leaving the runtime as it was, when there is no such expression.
    pub fn instruction_iter<'a>(&'a mut self, start: &String) -> (r: Result<InstructionIter<'a>, String>)
        requires
            old(self)@.wf(),
        ensures
            match expression_index(old(self)@.expression_names, start@) {
                None => (r matches Err(m) && m@ == missing_expression_text(start@))
                    && final(self)@ == old(self)@,
                Some(i) => match expression_start(old(self)@.expression_starts, i) {
                    None => (r matches Err(m) && m@ == missing_expression_text(start@))
                        && final(self)@ == old(self)@,
                    Some(s) => r matches Ok(it) && it.runtime_of() == started_at(old(self)@, s)
                        && !it.is_finished() && it.runtime_of().wf() && *final(it.expression_runtime) == *final(self),
                },
            },
    {
        InstructionIter::new(self, start)
    }
}

} // verus!
