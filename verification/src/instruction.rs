use vstd::prelude::*;

verus! {

/// The instructions the runtime executes.
///
/// The instructions that take an operand are `Put` (a value's position), `JumpTo`,
/// `JumpIfTrue` and `JumpIfFalse` (an instruction's position), `ExecuteExpression` and
/// `Reapply` (an expression's index), `Resolve` (a symbol) and the two conditional
/// executions (the position of a pair of expressions); without it they fail and change
/// nothing. All others ignore an operand. `MakeList` gathers the values put since the
/// last `StartList`, so it takes no count; logical and, or and xor combine two values,
/// and there are no instructions that jump past the second of them.
#[derive(Clone, Copy, PartialEq, Eq, Structural, Debug)]
pub enum Instruction {
    Put,
    PutInput,
    PutResult,
    PushInput,
    PushResult,
    JumpTo,
    EndExpression,
    ExecuteExpression,
    PerformAddition,
    EndExecution,
    JumpIfTrue,
    JumpIfFalse,
    EqualityComparison,
    MakePair,
    MakeList,
    Apply,
    EmptyApply,
    Reapply,
    Access,
    Resolve,
    StartList,
    PerformSubtraction,
    PerformMultiplication,
    PerformDivision,
    PerformIntegerDivision,
    PerformRemainder,
    PerformExponential,
    PerformNegation,
    PerformAbsoluteValue,
    PerformBitwiseAnd,
    PerformBitwiseOr,
    PerformBitwiseXor,
    PerformBitwiseNot,
    PerformBitwiseLeftShift,
    PerformBitwiseRightShift,
    PerformLogicalAnd,
    PerformLogicalOr,
    PerformLogicalXor,
    PerformLogicalNot,
    InequalityComparison,
    LessThanComparison,
    LessThanOrEqualComparison,
    GreaterThanComparison,
    GreaterThanOrEqualComparison,
    TypeComparison,
    MakeInclusiveRange,
    MakeExclusiveRange,
    MakeStartExclusiveRange,
    MakeEndExclusiveRange,
    PartiallyApply,
    Invoke,
    PushUnitInput,
    PopInput,
    TypeCast,
    Iterate,
    IterateToSingleResult,
    IterationOutput,
    IterationContinue,
    IterationSkip,
    IterationComplete,
    ConditionalExecute,
    ResultConditionalExecute,
    MakeLink,
}

/// An instruction together with the operand it needs, if any.
#[derive(Clone, Copy, PartialEq, Eq, Structural, Debug)]
pub struct InstructionData {
    pub instruction: Instruction,
    pub data: Option<usize>,
}

impl InstructionData {
    pub fn new(instruction: Instruction, data: Option<usize>) -> (d: InstructionData)
        ensures
            d.instruction == instruction,
            d.data == data,
    {
        InstructionData { instruction, data }
    }

    pub fn get_instruction(&self) -> (i: Instruction)
        ensures
            i == self.instruction,
    {
        self.instruction
    }

    pub fn get_data(&self) -> (d: Option<usize>)
        ensures
            d == self.data,
    {
        self.data
    }
}

} // verus!
