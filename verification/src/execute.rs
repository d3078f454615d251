use vstd::prelude::*;
use crate::data::{Data, DataView, refs_below};
use crate::instruction::{Instruction, InstructionData};
use crate::runtime::{ExpressionRuntime, RuntimeError, RuntimeView, condition_symbol, expression_start};
use crate::context::ExpressionContext;
use crate::math::{MathOp, UnaryMathOp, math_defined, math_result, unary_defined, unary_result, math_defined_of, unary_defined_of};
use crate::bitwise::{BitwiseOp, bitwise_defined, bitwise_result, bitwise_not_result, bitwise_defined_of};
use crate::cast::cast_applied;
use crate::link::linked;
use crate::iterate::{collected_iteration, ends_iteration_frame, iteration_completed, iteration_output,
    iteration_skipped, iteration_start_defined, iteration_started, reiterated};
use crate::logical::{logical_and, logical_or, logical_xor, logical_not};
use crate::comparison::{Comparison, ValueOrder, comparison_holds, ordering};
use crate::range::range_result;
use crate::lists::made_list;
use crate::conditional::{truthy, last_result_ref, conditional_jump, chosen_expression};
use crate::access::{access_outcome, access_defined, with_outcome};
use crate::apply::{application, application_defined, partial_application};
use crate::invoke::{call_outcome, invoke_input};
use crate::resolve::{Resolution, resolution};

verus! {

/// State that the runtime is in after an instruction was executed.
#[derive(Clone, Copy, PartialEq, Eq, Structural, Debug)]
pub enum SimpleRuntimeState {
    Running,
    End,
}

/// Information about the runtime, returned after executing an instruction.
#[derive(Clone, Copy, PartialEq, Eq, Structural, Debug)]
pub struct SimpleRuntimeInfo {
    state: SimpleRuntimeState,
}

impl SimpleRuntimeInfo {
    /// The state this information was created with.
    pub closed spec fn state_of(&self) -> SimpleRuntimeState {
        self.state
    }

    pub fn new(state: SimpleRuntimeState) -> (info: Self)
        ensures
            info.state_of() == state,
    {
        SimpleRuntimeInfo { state }
    }

    pub fn get_state(&self) -> (state: SimpleRuntimeState)
        ensures
            state == self.state_of(),
    {
        self.state
    }
}

pub open spec fn no_jump() -> Result<Option<usize>, RuntimeError> {
    Ok(None)
}

pub open spec fn failed(e: RuntimeError) -> Result<Option<usize>, RuntimeError> {
    Err(e)
}

/// An operation that replaces the last two registers by a new value.
pub open spec fn binary_effect(v: RuntimeView, d: DataView, r: Result<Option<usize>, RuntimeError>, after: RuntimeView) -> bool {
    if v.registers.len() < 2 {
        r == failed(RuntimeError::NotEnoughRegisters) && after == v
    } else {
        r == no_jump() && after == v.binary_applied(d)
    }
}

/// An operation that replaces the last register by a new value.
pub open spec fn unary_effect(v: RuntimeView, d: DataView, r: Result<Option<usize>, RuntimeError>, after: RuntimeView) -> bool {
    if v.registers.len() == 0 {
        r == failed(RuntimeError::NotEnoughRegisters) && after == v
    } else {
        r == no_jump() && after == v.unary_applied(d)
    }
}

/// A binary operation that overflows for some operands: those leave the runtime unchanged.
pub open spec fn checked_binary_effect(v: RuntimeView, defined: bool, d: DataView, r: Result<Option<usize>, RuntimeError>,
    after: RuntimeView) -> bool {
    if v.registers.len() >= 2 && !defined {
        r == failed(RuntimeError::ArithmeticError) && after == v
    } else {
        binary_effect(v, d, r, after)
    }
}

pub open spec fn checked_unary_effect(v: RuntimeView, defined: bool, d: DataView, r: Result<Option<usize>, RuntimeError>,
    after: RuntimeView) -> bool {
    if v.registers.len() > 0 && !defined {
        r == failed(RuntimeError::ArithmeticError) && after == v
    } else {
        unary_effect(v, d, r, after)
    }
}

pub open spec fn math_effect(v: RuntimeView, op: MathOp, r: Result<Option<usize>, RuntimeError>, after: RuntimeView) -> bool {
    checked_binary_effect(v, math_defined(op, v.left_operand(), v.right_operand()),
        math_result(op, v.left_operand(), v.right_operand()), r, after)
}

pub open spec fn unary_math_effect(v: RuntimeView, op: UnaryMathOp, r: Result<Option<usize>, RuntimeError>, after: RuntimeView) -> bool {
    checked_unary_effect(v, unary_defined(op, v.right_operand()), unary_result(op, v.right_operand()), r, after)
}

pub open spec fn bitwise_effect(v: RuntimeView, op: BitwiseOp, r: Result<Option<usize>, RuntimeError>, after: RuntimeView) -> bool {
    checked_binary_effect(v, bitwise_defined(op, v.left_operand(), v.right_operand()),
        bitwise_result(op, v.left_operand(), v.right_operand()), r, after)
}

pub open spec fn comparison_effect(v: RuntimeView, c: Comparison, r: Result<Option<usize>, RuntimeError>, after: RuntimeView) -> bool {
    binary_effect(v, condition_symbol(comparison_holds(c, ordering(v.data, v.symbols,
        v.second_last_reg() as nat, v.last_reg() as nat))), r, after)
}

pub open spec fn range_effect(v: RuntimeView, start_exclusive: bool, end_exclusive: bool, r: Result<Option<usize>, RuntimeError>,
    after: RuntimeView) -> bool {
    binary_effect(v, range_result(start_exclusive, end_exclusive, v.second_last_reg(), v.last_reg(),
        v.left_operand(), v.right_operand()), r, after)
}

/// A conditional jump to `target`, taken when the last value's truth is `when`.
pub open spec fn jump_if_effect(v: RuntimeView, target: usize, when: bool, r: Result<Option<usize>, RuntimeError>,
    after: RuntimeView) -> bool {
    if v.registers.len() == 0 {
        r == failed(RuntimeError::NotEnoughRegisters) && after == v
    } else {
        after == v.with_consumed(1)
            && r == (if truthy(v.right_operand()) == when { Ok::<Option<usize>, RuntimeError>(Some(target)) } else { no_jump() })
    }
}

/// Applying, where an overflowing access leaves the runtime unchanged.
pub open spec fn apply_effect<C: ExpressionContext>(ctx: &C, v: RuntimeView, r: Result<Option<usize>, RuntimeError>, after: RuntimeView) -> bool {
    if v.registers.len() < 2 {
        r == failed(RuntimeError::NotEnoughRegisters) && after == v
    } else if !application_defined(v) {
        r == failed(RuntimeError::ArithmeticError) && after == v
    } else {
        application(ctx, v, r, after)
    }
}

/// Accessing the value before the last by the last one.
pub open spec fn access_effect(v: RuntimeView, r: Result<Option<usize>, RuntimeError>, after: RuntimeView) -> bool {
    if v.registers.len() < 2 {
        r == failed(RuntimeError::NotEnoughRegisters) && after == v
    } else if !access_defined(v.data, v.second_last_reg(), v.last_reg()) {
        r == failed(RuntimeError::ArithmeticError) && after == v
    } else {
        match access_outcome(v.data, v.second_last_reg(), v.last_reg()) {
            Some(o) => r == no_jump() && after == with_outcome(v.with_consumed(2), o),
            None => r == failed(RuntimeError::UnsupportedType) && after == v.with_consumed(2),
        }
    }
}

/// Running the expression with index `x` again, with the last value as its input in
/// place of the current one.
pub open spec fn reapply_effect(v: RuntimeView, x: usize, r: Result<Option<usize>, RuntimeError>, after: RuntimeView) -> bool {
    if v.registers.len() == 0 {
        r == failed(RuntimeError::NotEnoughRegisters) && after == v
    } else {
        match expression_start(v.expression_starts, x) {
            None => r == failed(RuntimeError::ExpressionNotFound) && after == v,
            Some(s) => r == Ok::<Option<usize>, RuntimeError>(Some(s)) && after == (RuntimeView {
                inputs: (if v.inputs.len() > 0 { v.inputs.drop_last() } else { v.inputs }).push(v.last_reg()),
                ..v.with_consumed(1)
            }),
        }
    }
}

/// The index of the expression a value stands for in a conditional's operand; zero
/// for a value that is no expression, which runs nothing.
pub open spec fn conditional_index(d: DataView) -> usize {
    match d {
        DataView::Expression(i) => i,
        _ => 0,
    }
}

/// The expressions a conditional instruction chooses between: its operand is the
/// position of a pair of the expression to run when the condition holds and the one
/// to run when it does not.
pub open spec fn conditional_operands(data: Seq<DataView>, x: usize) -> Option<(usize, usize)> {
    if x < data.len() {
        match data[x as int] {
            DataView::Pair(a, b) => if a < data.len() && b < data.len() {
                Some((conditional_index(data[a as int]), conditional_index(data[b as int])))
            } else {
                None
            },
            _ => None,
        }
    } else {
        None
    }
}

/// What executing the instruction `d` does to a runtime `v`: what the operation
/// returns (a position to jump to, if any) and the runtime afterwards. Instructions
/// that need an operand and have none fail without a change.
pub open spec fn instruction_effect<C: ExpressionContext>(ctx: &C, v: RuntimeView, d: InstructionData, r: Result<Option<usize>, RuntimeError>,
    after: RuntimeView) -> bool {
    let needs_data = match d.instruction {
        Instruction::Put | Instruction::JumpTo | Instruction::ExecuteExpression | Instruction::JumpIfTrue
        | Instruction::JumpIfFalse | Instruction::Reapply | Instruction::Resolve | Instruction::ConditionalExecute
        | Instruction::ResultConditionalExecute => true,
        _ => false,
    };
    if needs_data && d.data is None {
        r == failed(RuntimeError::MissingInstructionData) && after == v
    } else {
        let x = d.data->Some_0;
        match d.instruction {
            Instruction::Put => if x < v.data.len() {
                r == no_jump() && after == v.with_register(x)
            } else {
                r == failed(RuntimeError::InvalidReference) && after == v
            },
            Instruction::PutInput => r == no_jump() && after == (if v.inputs.len() == 0 {
                v.with_pushed(DataView::Unit) } else { v.with_register(v.inputs.last()) }),
            Instruction::PutResult => r == no_jump() && after == v.with_register(last_result_ref(v)),
            Instruction::PushInput => if v.registers.len() == 0 {
                r == failed(RuntimeError::NotEnoughRegisters) && after == v
            } else {
                r == no_jump() && after == (RuntimeView { inputs: v.inputs.push(v.last_reg()), ..v.with_consumed(1) })
            },
            Instruction::PushResult => if v.registers.len() == 0 {
                r == failed(RuntimeError::NotEnoughRegisters) && after == v
            } else {
                r == no_jump() && after == (RuntimeView { results: v.results.push(v.last_reg()), ..v.with_consumed(1) })
            },
            Instruction::JumpTo => r == Ok::<Option<usize>, RuntimeError>(Some(x)) && after == v,
            Instruction::EndExpression => if ends_iteration_frame(v) {
                let s = if v.iterations.last().collecting is Some { collected_iteration(v) } else { reiterated(v) };
                r == s.0 && after == s.1
            } else if v.frames.len() > 0 {
                r == Ok::<Option<usize>, RuntimeError>(Some(v.frames.last()))
                    && after == (RuntimeView { frames: v.frames.drop_last(), ..v })
            } else {
                r == Ok::<Option<usize>, RuntimeError>(Some(v.instructions.len() as usize)) && after == v
            },
            Instruction::ExecuteExpression => match expression_start(v.expression_starts, x) {
                None => r == failed(RuntimeError::ExpressionNotFound) && after == v,
                Some(s) => r == Ok::<Option<usize>, RuntimeError>(Some(s))
                    && after == (RuntimeView { frames: v.frames.push((v.cursor + 1) as usize), ..v }),
            },
            Instruction::PerformAddition => math_effect(v, MathOp::Add, r, after),
            Instruction::EndExecution => r == Ok::<Option<usize>, RuntimeError>(Some(v.instructions.len() as usize)) && after == v,
            Instruction::JumpIfTrue => jump_if_effect(v, x, true, r, after),
            Instruction::JumpIfFalse => jump_if_effect(v, x, false, r, after),
            Instruction::EqualityComparison => comparison_effect(v, Comparison::Equal, r, after),
            Instruction::MakePair => binary_effect(v, DataView::Pair(v.second_last_reg(), v.last_reg()), r, after),
            Instruction::MakeList => if v.lists.len() == 0 {
                r == failed(RuntimeError::NoListStarted) && after == v
            } else {
                r == no_jump() && after == made_list(v)
            },
            Instruction::Apply => apply_effect(ctx, v, r, after),
            Instruction::EmptyApply => if v.registers.len() == 0 {
                r == failed(RuntimeError::NotEnoughRegisters) && after == v
            } else if !application_defined(v.with_pushed(DataView::Unit)) {
                r == failed(RuntimeError::ArithmeticError) && after == v
            } else {
                application(ctx, v.with_pushed(DataView::Unit), r, after)
            },
            Instruction::Reapply => reapply_effect(v, x, r, after),
            Instruction::Access => access_effect(v, r, after),
            Instruction::Resolve => match resolution(v, x as u64) {
                Resolution::Nothing => r == no_jump() && after == v,
                Resolution::Existing(p) => r == no_jump() && after == v.with_register(p),
                Resolution::Expression(i) => r == no_jump() && after == v.with_pushed(DataView::Expression(i)),
                Resolution::Context(name) => exists|d: DataView| #[trigger] ctx.resolves_to(name, d)
                    && (if refs_below(d, v.data.len() as int) {
                        r == no_jump() && after == v.with_pushed(d)
                    } else {
                        r == failed(RuntimeError::InvalidReference) && after == v
                    }),
            },
            Instruction::StartList => r == no_jump() && after == (RuntimeView { lists: v.lists.push(v.registers.len() as usize), ..v }),
            Instruction::PerformSubtraction => math_effect(v, MathOp::Subtract, r, after),
            Instruction::PerformMultiplication => math_effect(v, MathOp::Multiply, r, after),
            Instruction::PerformDivision => math_effect(v, MathOp::Divide, r, after),
            Instruction::PerformIntegerDivision => math_effect(v, MathOp::Divide, r, after),
            Instruction::PerformRemainder => math_effect(v, MathOp::Remainder, r, after),
            Instruction::PerformExponential => math_effect(v, MathOp::Power, r, after),
            Instruction::PerformNegation => unary_math_effect(v, UnaryMathOp::Negate, r, after),
            Instruction::PerformAbsoluteValue => unary_math_effect(v, UnaryMathOp::AbsoluteValue, r, after),
            Instruction::PerformBitwiseAnd => bitwise_effect(v, BitwiseOp::And, r, after),
            Instruction::PerformBitwiseOr => bitwise_effect(v, BitwiseOp::Or, r, after),
            Instruction::PerformBitwiseXor => bitwise_effect(v, BitwiseOp::Xor, r, after),
            Instruction::PerformBitwiseNot => unary_effect(v, bitwise_not_result(v.right_operand()), r, after),
            Instruction::PerformBitwiseLeftShift => bitwise_effect(v, BitwiseOp::ShiftLeft, r, after),
            Instruction::PerformBitwiseRightShift => bitwise_effect(v, BitwiseOp::ShiftRight, r, after),
            Instruction::PerformLogicalAnd => binary_effect(v, condition_symbol(logical_and(v.left_operand(), v.right_operand())), r, after),
            Instruction::PerformLogicalOr => binary_effect(v, condition_symbol(logical_or(v.left_operand(), v.right_operand())), r, after),
            Instruction::PerformLogicalXor => binary_effect(v, condition_symbol(logical_xor(v.left_operand(), v.right_operand())), r, after),
            Instruction::PerformLogicalNot => unary_effect(v, condition_symbol(logical_not(v.right_operand())), r, after),
            Instruction::InequalityComparison => comparison_effect(v, Comparison::NotEqual, r, after),
            Instruction::LessThanComparison => comparison_effect(v, Comparison::Less, r, after),
            Instruction::LessThanOrEqualComparison => comparison_effect(v, Comparison::LessOrEqual, r, after),
            Instruction::GreaterThanComparison => comparison_effect(v, Comparison::Greater, r, after),
            Instruction::GreaterThanOrEqualComparison => comparison_effect(v, Comparison::GreaterOrEqual, r, after),
            Instruction::TypeComparison => binary_effect(v, condition_symbol(
                crate::data::type_of(v.left_operand()) == crate::data::type_of(v.right_operand())), r, after),
            Instruction::MakeInclusiveRange => range_effect(v, false, false, r, after),
            Instruction::MakeExclusiveRange => range_effect(v, true, true, r, after),
            Instruction::MakeStartExclusiveRange => range_effect(v, true, false, r, after),
            Instruction::MakeEndExclusiveRange => range_effect(v, false, true, r, after),
            Instruction::PartiallyApply => if v.registers.len() < 2 {
                r == failed(RuntimeError::NotEnoughRegisters) && after == v
            } else {
                let pa = partial_application(v.data, v.second_last_reg(), v.last_reg());
                r == no_jump() && after == with_outcome(RuntimeView { data: pa.0, ..v.with_consumed(2) }, pa.1)
            },
            Instruction::Invoke => if v.registers.len() == 0 {
                r == failed(RuntimeError::NotEnoughRegisters) && after == v
            } else {
                call_outcome(ctx, v, v.right_operand(), invoke_input(v), r, after)
            },
            Instruction::PushUnitInput => r == no_jump() && after == (RuntimeView {
                data: v.data.push(DataView::Unit),
                inputs: v.inputs.push(v.data.len() as usize),
                ..v
            }),
            Instruction::PopInput => r == no_jump() && after == (if v.inputs.len() > 0 {
                RuntimeView { inputs: v.inputs.drop_last(), ..v } } else { v }),
            Instruction::TypeCast => if v.registers.len() == 0 {
                r == failed(RuntimeError::NotEnoughRegisters) && after == v
            } else if v.registers.len() == 1 {
                r == failed(RuntimeError::NotEnoughRegisters) && after == v.with_consumed(1)
            } else {
                r == no_jump() && after == cast_applied(v)
            },
            Instruction::Iterate => if !iteration_start_defined(v) {
                r == failed(RuntimeError::UnsupportedType) && after == v
            } else {
                r == iteration_started(v, false).0 && after == iteration_started(v, false).1
            },
            Instruction::IterateToSingleResult => if !iteration_start_defined(v) {
                r == failed(RuntimeError::UnsupportedType) && after == v
            } else {
                r == iteration_started(v, true).0 && after == iteration_started(v, true).1
            },
            Instruction::IterationOutput => r == iteration_output(v).0 && after == iteration_output(v).1,
            Instruction::IterationContinue => r == reiterated(v).0 && after == reiterated(v).1,
            Instruction::IterationSkip => r == iteration_skipped(v).0 && after == iteration_skipped(v).1,
            Instruction::IterationComplete => r == iteration_completed(v).0 && after == iteration_completed(v).1,
            Instruction::MakeLink => r == (match linked(v).0 { Ok(()) => no_jump(), Err(e) => failed(e) })
                && after == linked(v).1,
            Instruction::ConditionalExecute => match conditional_operands(v.data, x) {
                None => r == failed(RuntimeError::InvalidReference) && after == v,
                Some((t, f)) => if v.registers.len() == 0 {
                    r == failed(RuntimeError::NotEnoughRegisters) && after == v
                } else {
                    conditional_jump(v.with_consumed(1), chosen_expression(truthy(v.right_operand()), t, f), r, after)
                },
            },
            Instruction::ResultConditionalExecute => match conditional_operands(v.data, x) {
                None => r == failed(RuntimeError::InvalidReference) && after == v,
                Some((t, f)) => if v.registers.len() == 0 {
                    r == failed(RuntimeError::NotEnoughRegisters) && after == v
                } else {
                    conditional_jump(v.with_consumed(1), chosen_expression(ordering(v.data, v.symbols,
                        last_result_ref(v) as nat, v.last_reg() as nat) == Some(ValueOrder::Equal), t, f), r, after)
                },
            },
        }
    }
}


fn lift(r: Result<(), RuntimeError>) -> (o: Result<Option<usize>, RuntimeError>)
    ensures
        r is Ok ==> o == no_jump(),
        r matches Err(e) ==> o == failed(e),
{
    match r {
        Ok(()) => Ok(None),
        Err(e) => Err(e),
    }
}

impl ExpressionRuntime {
    fn execute_math(&mut self, op: MathOp) -> (r: Result<Option<usize>, RuntimeError>)
        requires
            old(self)@.wf(),
            old(self)@.data.len() + 1 < usize::MAX,
        ensures
            final(self)@.wf(),
            math_effect(old(self)@, op, r, final(self)@),
    {
        let n = self.register_count();
        if n >= 2 {
            let (l, r) = (self.get_register(n - 2), self.get_register(n - 1));
            proof {
                crate::runtime::lemma_register_in_bounds(self@, n - 1);
                crate::runtime::lemma_register_in_bounds(self@, n - 2);
            }
            if !math_defined_of(op, self.get_data(l), self.get_data(r)) {
                return Err(RuntimeError::ArithmeticError);
            }
        }
        lift(self.perform_binary_operation(op))
    }

    fn execute_unary_math(&mut self, op: UnaryMathOp) -> (r: Result<Option<usize>, RuntimeError>)
        requires
            old(self)@.wf(),
            old(self)@.data.len() + 1 < usize::MAX,
        ensures
            final(self)@.wf(),
            unary_math_effect(old(self)@, op, r, final(self)@),
    {
        let n = self.register_count();
        if n >= 1 {
            let v = self.get_register(n - 1);
            proof {
                crate::runtime::lemma_register_in_bounds(self@, n - 1);
            }
            if !unary_defined_of(op, self.get_data(v)) {
                return Err(RuntimeError::ArithmeticError);
            }
        }
        lift(self.perform_unary_operation(op))
    }

    fn execute_bitwise(&mut self, op: BitwiseOp) -> (r: Result<Option<usize>, RuntimeError>)
        requires
            old(self)@.wf(),
            old(self)@.data.len() + 1 < usize::MAX,
        ensures
            final(self)@.wf(),
            bitwise_effect(old(self)@, op, r, final(self)@),
    {
        let n = self.register_count();
        if n >= 2 {
            let (l, r) = (self.get_register(n - 2), self.get_register(n - 1));
            proof {
                crate::runtime::lemma_register_in_bounds(self@, n - 1);
                crate::runtime::lemma_register_in_bounds(self@, n - 2);
            }
            if !bitwise_defined_of(op, self.get_data(l), self.get_data(r)) {
                return Err(RuntimeError::ArithmeticError);
            }
        }
        lift(self.perform_bitwise_operation(op))
    }

    fn execute_jump_if(&mut self, target: usize, when: bool) -> (r: Result<Option<usize>, RuntimeError>)
        requires
            old(self)@.wf(),
        ensures
            final(self)@.wf(),
            jump_if_effect(old(self)@, target, when, r, final(self)@),
    {
        let c = self.consume_last_ref()?;
        proof {
            crate::runtime::lemma_register_in_bounds(old(self)@, old(self)@.registers.len() - 1);
        }
        let t = match self.get_data(c) {
            Data::Unit => false,
            Data::Symbol(s) => *s != crate::runtime::FALSE_SYMBOL,
            _ => true,
        };
        if t == when { Ok(Some(target)) } else { Ok(None) }
    }

    fn execute_apply<C: ExpressionContext>(&mut self, context: &C) -> (r: Result<Option<usize>, RuntimeError>)
        requires
            old(self)@.wf(),
            old(self)@.data.len() + 3 < usize::MAX,
            old(self)@.cursor < usize::MAX,
        ensures
            final(self)@.wf(),
            apply_effect(context, old(self)@, r, final(self)@),
    {
        if self.register_count() < 2 {
            return Err(RuntimeError::NotEnoughRegisters);
        }
        if !self.application_defined_of() {
            return Err(RuntimeError::ArithmeticError);
        }
        self.apply(context)
    }

    fn execute_access(&mut self) -> (r: Result<Option<usize>, RuntimeError>)
        requires
            old(self)@.wf(),
            old(self)@.data.len() + 1 < usize::MAX,
        ensures
            final(self)@.wf(),
            access_effect(old(self)@, r, final(self)@),
    {
        let n = self.register_count();
        if n < 2 {
            return Err(RuntimeError::NotEnoughRegisters);
        }
        let (l, r) = (self.get_register(n - 2), self.get_register(n - 1));
        proof {
            crate::runtime::lemma_register_in_bounds(self@, n - 1);
            crate::runtime::lemma_register_in_bounds(self@, n - 2);
        }
        if !self.access_defined_of(l, r) {
            return Err(RuntimeError::ArithmeticError);
        }
        lift(self.perform_access())
    }

    fn execute_reapply(&mut self, index: usize) -> (r: Result<Option<usize>, RuntimeError>)
        requires
            old(self)@.wf(),
        ensures
            final(self)@.wf(),
            reapply_effect(old(self)@, index, r, final(self)@),
    {
        if self.register_count() == 0 {
            return Err(RuntimeError::NotEnoughRegisters);
        }
        let start = match self.get_expression_start(index) {
            None => return Err(RuntimeError::ExpressionNotFound),
            Some(s) => s,
        };
        let v = self.consume_last_ref().unwrap();
        proof {
            crate::runtime::lemma_register_in_bounds(old(self)@, old(self)@.registers.len() - 1);
        }
        self.pop_input_ref();
        self.push_input_ref(v);
        proof {
            let o = old(self)@;
            assert(final(self)@ =~= (RuntimeView {
                inputs: (if o.inputs.len() > 0 { o.inputs.drop_last() } else { o.inputs }).push(o.last_reg()),
                ..o.with_consumed(1)
            }));
        }
        Ok(Some(start))
    }

    /// Executes the instruction `d`: returns where to jump, if anywhere.
    pub fn execute_instruction<C: ExpressionContext>(&mut self, d: InstructionData, context: &C) -> (r: Result<Option<usize>, RuntimeError>)
        requires
            old(self)@.wf(),
            old(self)@.data.len() + 8 < usize::MAX,
            old(self)@.cursor < usize::MAX,
        ensures
            final(self)@.wf(),
            instruction_effect(context, old(self)@, d, r, final(self)@),
    {
        let needs_data = match d.instruction {
            Instruction::Put | Instruction::JumpTo | Instruction::ExecuteExpression | Instruction::JumpIfTrue
            | Instruction::JumpIfFalse | Instruction::Reapply | Instruction::Resolve | Instruction::ConditionalExecute
            | Instruction::ResultConditionalExecute => true,
            _ => false,
        };
        if needs_data && d.data.is_none() {
            return Err(RuntimeError::MissingInstructionData);
        }
        let x: usize = match d.data { Some(x) => x, None => 0 };
        match d.instruction {
            Instruction::Put => lift(self.execute_put(x)),
            Instruction::PutInput => {
                self.put_input();
                Ok(None)
            },
            Instruction::PutResult => {
                self.put_result();
                Ok(None)
            },
            Instruction::PushInput => lift(self.push_input()),
            Instruction::PushResult => lift(self.push_result()),
            Instruction::JumpTo => Ok(Some(x)),
            Instruction::EndExpression => {
                if self.ends_iteration_frame_of() {
                    let collecting = match self.last_iteration() {
                        Some(it) => it.collecting.is_some(),
                        None => false,
                    };
                    if collecting {
                        return self.iteration_expression_end();
                    } else {
                        return self.perform_reiterate();
                    }
                }
                match self.pop_frame() {
                    Some(ret) => Ok(Some(ret)),
                    None => Ok(Some(self.instruction_count())),
                }
            },
            Instruction::ExecuteExpression => match self.get_expression_start(x) {
                None => Err(RuntimeError::ExpressionNotFound),
                Some(s) => {
                    let c = self.get_instruction_cursor();
                    self.push_frame(c + 1);
                    Ok(Some(s))
                },
            },
            Instruction::PerformAddition => self.execute_math(MathOp::Add),
            Instruction::EndExecution => Ok(Some(self.instruction_count())),
            Instruction::JumpIfTrue => self.execute_jump_if(x, true),
            Instruction::JumpIfFalse => self.execute_jump_if(x, false),
            Instruction::EqualityComparison => lift(self.perform_comparison(Comparison::Equal)),
            Instruction::MakePair => lift(self.make_pair()),
            Instruction::MakeList => lift(self.make_list()),
            Instruction::Apply => self.execute_apply(context),
            Instruction::EmptyApply => {
                if self.register_count() == 0 {
                    return Err(RuntimeError::NotEnoughRegisters);
                }
                let ghost before = self@;
                let p = self.push_value(Data::Unit);
                if !self.application_defined_of() {
                    let _ = self.consume_last_ref();
                    proof {
                        assert(self@.registers =~= before.registers);
                    }
                    self.pop_unit_value(p);
                    proof {
                        assert(self@ =~= before);
                    }
                    return Err(RuntimeError::ArithmeticError);
                }
                self.apply(context)
            },
            Instruction::Reapply => self.execute_reapply(x),
            Instruction::Access => self.execute_access(),
            Instruction::Resolve => lift(self.resolve(x as u64, context)),
            Instruction::StartList => {
                self.start_list();
                Ok(None)
            },
            Instruction::PerformSubtraction => self.execute_math(MathOp::Subtract),
            Instruction::PerformMultiplication => self.execute_math(MathOp::Multiply),
            Instruction::PerformDivision => self.execute_math(MathOp::Divide),
            Instruction::PerformIntegerDivision => self.execute_math(MathOp::Divide),
            Instruction::PerformRemainder => self.execute_math(MathOp::Remainder),
            Instruction::PerformExponential => self.execute_math(MathOp::Power),
            Instruction::PerformNegation => self.execute_unary_math(UnaryMathOp::Negate),
            Instruction::PerformAbsoluteValue => self.execute_unary_math(UnaryMathOp::AbsoluteValue),
            Instruction::PerformBitwiseAnd => self.execute_bitwise(BitwiseOp::And),
            Instruction::PerformBitwiseOr => self.execute_bitwise(BitwiseOp::Or),
            Instruction::PerformBitwiseXor => self.execute_bitwise(BitwiseOp::Xor),
            Instruction::PerformBitwiseNot => lift(self.perform_bitwise_not()),
            Instruction::PerformBitwiseLeftShift => self.execute_bitwise(BitwiseOp::ShiftLeft),
            Instruction::PerformBitwiseRightShift => self.execute_bitwise(BitwiseOp::ShiftRight),
            Instruction::PerformLogicalAnd => lift(self.perform_logical_and()),
            Instruction::PerformLogicalOr => lift(self.perform_logical_or()),
            Instruction::PerformLogicalXor => lift(self.perform_logical_xor()),
            Instruction::PerformLogicalNot => lift(self.perform_logical_not()),
            Instruction::InequalityComparison => lift(self.perform_comparison(Comparison::NotEqual)),
            Instruction::LessThanComparison => lift(self.perform_comparison(Comparison::Less)),
            Instruction::LessThanOrEqualComparison => lift(self.perform_comparison(Comparison::LessOrEqual)),
            Instruction::GreaterThanComparison => lift(self.perform_comparison(Comparison::Greater)),
            Instruction::GreaterThanOrEqualComparison => lift(self.perform_comparison(Comparison::GreaterOrEqual)),
            Instruction::TypeComparison => lift(self.perform_type_comparison()),
            Instruction::MakeInclusiveRange => lift(self.make_range(false, false)),
            Instruction::MakeExclusiveRange => lift(self.make_range(true, true)),
            Instruction::MakeStartExclusiveRange => lift(self.make_range(true, false)),
            Instruction::MakeEndExclusiveRange => lift(self.make_range(false, true)),
            Instruction::PartiallyApply => lift(self.partially_apply()),
            Instruction::Invoke => self.invoke(context),
            Instruction::PushUnitInput => {
                self.push_unit_input();
                Ok(None)
            },
            Instruction::PopInput => {
                self.pop_input();
                Ok(None)
            },
            Instruction::TypeCast => lift(self.perform_type_cast()),
            Instruction::Iterate => {
                if !self.iteration_start_defined_of() {
                    return Err(RuntimeError::UnsupportedType);
                }
                self.perform_iterate()
            },
            Instruction::IterateToSingleResult => {
                if !self.iteration_start_defined_of() {
                    return Err(RuntimeError::UnsupportedType);
                }
                self.perform_iterate_to_single_result()
            },
            Instruction::IterationOutput => self.perform_iteration_output(),
            Instruction::IterationContinue => self.perform_iteration_continue(),
            Instruction::IterationSkip => self.perform_iteration_skip(),
            Instruction::IterationComplete => self.perform_iteration_complete(),
            Instruction::MakeLink => lift(self.make_link()),
            Instruction::ConditionalExecute => match self.conditional_operands_of(x) {
                None => Err(RuntimeError::InvalidReference),
                Some((t, f)) => self.conditional_execute(t, f),
            },
            Instruction::ResultConditionalExecute => match self.conditional_operands_of(x) {
                None => Err(RuntimeError::InvalidReference),
                Some((t, f)) => self.result_conditional_execute(t, f),
            },
        }
    }
}


/// The runtime after an executed instruction returned `jump`: execution continues at
/// the jump target, or at the next instruction; it ends when that is past the last one.
pub open spec fn continued(after: RuntimeView, cursor: usize, jump: Option<usize>) -> (SimpleRuntimeState, RuntimeView) {
    let next = match jump { Some(j) => j, None => (cursor + 1) as usize };
    if next >= after.instructions.len() {
        (SimpleRuntimeState::End, after)
    } else {
        (SimpleRuntimeState::Running, RuntimeView { cursor: next, ..after })
    }
}

/// Executing the instruction at the cursor of `before` returned `r` and left `after`:
/// without an instruction there execution has ended; otherwise the instruction had
/// its effect, and execution continues where it said, or ends past the last instruction.
pub open spec fn instruction_executed<C: ExpressionContext>(ctx: &C, before: RuntimeView, r: Result<SimpleRuntimeInfo, RuntimeError>, after: RuntimeView) -> bool {
    &&& before.cursor >= before.instructions.len() ==> (r matches Ok(info)
        && info.state_of() == SimpleRuntimeState::End && after == before)
    &&& before.cursor < before.instructions.len() ==> exists|op: Result<Option<usize>, RuntimeError>, mid: RuntimeView|
        #[trigger] instruction_effect(ctx, before, before.instructions[before.cursor as int], op, mid)
        && match op {
            Err(e) => r == Err::<SimpleRuntimeInfo, RuntimeError>(e) && after == mid,
            Ok(jump) => (r matches Ok(info)
                && info.state_of() == continued(mid, before.cursor, jump).0
                && after == continued(mid, before.cursor, jump).1),
        }
}

impl ExpressionRuntime {
    /// The expressions a conditional instruction with operand `x` chooses between.
    pub fn conditional_operands_of(&self, x: usize) -> (c: Option<(usize, usize)>)
        ensures
            c == conditional_operands(self@.data, x),
    {
        if x >= self.data_len() {
            return None;
        }
        let (a, b) = match self.get_data(x) {
            Data::Pair(a, b) => (*a, *b),
            _ => return None,
        };
        if a >= self.data_len() || b >= self.data_len() {
            return None;
        }
        let t = match self.get_data(a) {
            Data::Expression(i) => *i,
            _ => 0,
        };
        let f = match self.get_data(b) {
            Data::Expression(i) => *i,
            _ => 0,
        };
        Some((t, f))
    }
}

impl ExpressionRuntime {
    /// Executes the instruction at the cursor and moves the cursor on. Without an
    /// instruction at the cursor, execution has ended and nothing changes. An
    /// instruction that needs an operand (see `Instruction`) and has none fails with
    /// `MissingInstructionData`, changes nothing and leaves the cursor where it is.
    pub fn execute_current_instruction<C: ExpressionContext>(&mut self, context: &C) -> (r: Result<SimpleRuntimeInfo, RuntimeError>)
        requires
            old(self)@.wf(),
            old(self)@.data.len() + 8 < usize::MAX,
        ensures
            final(self)@.wf(),
            instruction_executed(context, old(self)@, r, final(self)@),
    {
        let cursor = self.get_instruction_cursor();
        let d = match self.get_instruction(cursor) {
            None => return Ok(SimpleRuntimeInfo::new(SimpleRuntimeState::End)),
            Some(d) => d,
        };
        let count = self.instruction_count();
        assert(cursor < count);
        let op = self.execute_instruction(d, context);
        let ghost mid = self@;
        proof {
            assert(instruction_effect(context, old(self)@, old(self)@.instructions[old(self)@.cursor as int], op, mid));
        }
        let jump = match op {
            Err(e) => return Err(e),
            Ok(j) => j,
        };
        let next = match jump {
            Some(j) => j,
            None => cursor + 1,
        };
        if next >= self.instruction_count() {
            Ok(SimpleRuntimeInfo::new(SimpleRuntimeState::End))
        } else {
            self.set_instruction_cursor(next);
            Ok(SimpleRuntimeInfo::new(SimpleRuntimeState::Running))
        }
    }
}

} // verus!
