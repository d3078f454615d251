use vstd::prelude::*;
use vstd::string::*;
use crate::data::{Data, DataView, opt_below, refs_below, seq_below};
use crate::instruction::InstructionData;
use crate::iterate::{Iteration, iterations_wf, lemma_iterations_wf_extend};

verus! {

/// Symbol values the runtime gives meaning to. Each is registered in the
/// symbol table of a new runtime under the name given beside it.
pub const FALSE_SYMBOL: u64 = 0; // "false"
pub const TRUE_SYMBOL: u64 = 1; // "true"
pub const LEFT_SYMBOL: u64 = 2; // "left"
pub const RIGHT_SYMBOL: u64 = 3; // "right"
pub const LENGTH_SYMBOL: u64 = 4; // "length"
pub const KEY_COUNT_SYMBOL: u64 = 5; // "key_count"
pub const START_SYMBOL: u64 = 6; // "start"
pub const END_SYMBOL: u64 = 7; // "end"
pub const STEP_SYMBOL: u64 = 8; // "step"
pub const IS_START_EXCLUSIVE_SYMBOL: u64 = 9; // "is_start_exclusive"
pub const IS_END_EXCLUSIVE_SYMBOL: u64 = 10; // "is_end_exclusive"
pub const IS_START_OPEN_SYMBOL: u64 = 11; // "is_start_open"
pub const IS_END_OPEN_SYMBOL: u64 = 12; // "is_end_open"
pub const BASE_SYMBOL: u64 = 13; // "base"
pub const VALUE_SYMBOL: u64 = 14; // "value"
pub const INFINITE_SYMBOL: u64 = 15; // "infinite"
pub const CURRENT_SYMBOL: u64 = 16; // "current"
pub const RESULT_SYMBOL: u64 = 17; // "result"

/// Number of symbols a new runtime registers.
pub const BUILTIN_SYMBOL_COUNT: u64 = 18;

/// Errors the runtime reports.
#[derive(Clone, Copy, PartialEq, Eq, Structural, Debug)]
pub enum RuntimeError {
    /// An operation needed more values in the registers than there were.
    NotEnoughRegisters,
    /// A list was made without a list being started.
    NoListStarted,
    /// An instruction that needs an operand had none.
    MissingInstructionData,
    /// An operand referred to a value that does not exist.
    InvalidReference,
    /// An expression index or name that the runtime does not know.
    ExpressionNotFound,
    /// An arithmetic operation overflowed or divided by zero.
    ArithmeticError,
    /// An iteration operation was used while no iteration was active.
    NoActiveIteration,
    /// A value of a kind an operation does not support.
    UnsupportedType,
    /// There is no instruction where execution is to continue.
    NoInstruction,
}

/// The mathematical view of a runtime.
#[verifier::ext_equal]
pub struct RuntimeView {
    pub data: Seq<DataView>,
    pub registers: Seq<usize>,
    pub inputs: Seq<usize>,
    pub lists: Seq<usize>,
    pub results: Seq<usize>,
    pub symbols: Seq<(Seq<char>, u64)>,
    pub expression_starts: Seq<usize>,
    pub expression_names: Seq<(Seq<char>, usize)>,
    pub instructions: Seq<InstructionData>,
    pub cursor: usize,
    pub frames: Seq<usize>,
    pub iterations: Seq<Iteration>,
}

/// Executes expressions over a data area of values. Values that operations
/// work on are found through the registers, which hold positions in the data area.
pub struct ExpressionRuntime {
    data: Vec<Data>,
    registers: Vec<usize>,
    input_stack: Vec<usize>,
    list_stack: Vec<usize>,
    result_stack: Vec<usize>,
    symbol_table: Vec<(String, u64)>,
    expression_table: Vec<usize>,
    expression_names: Vec<(String, usize)>,
    instructions: Vec<InstructionData>,
    instruction_cursor: usize,
    call_stack: Vec<usize>,
    iteration_stack: Vec<Iteration>,
}

pub open spec fn data_view_seq(v: Seq<Data>) -> Seq<DataView> {
    v.map_values(|d: Data| d@)
}

pub open spec fn named_seq<T>(v: Seq<(String, T)>) -> Seq<(Seq<char>, T)> {
    v.map_values(|p: (String, T)| (p.0@, p.1))
}

impl View for ExpressionRuntime {
    type V = RuntimeView;

    closed spec fn view(&self) -> RuntimeView {
        RuntimeView {
            data: data_view_seq(self.data@),
            registers: self.registers@,
            inputs: self.input_stack@,
            lists: self.list_stack@,
            results: self.result_stack@,
            symbols: named_seq(self.symbol_table@),
            expression_starts: self.expression_table@,
            expression_names: named_seq(self.expression_names@),
            instructions: self.instructions@,
            cursor: self.instruction_cursor,
            frames: self.call_stack@,
            iterations: self.iteration_stack@,
        }
    }
}

/// Every value only holds positions of values stored before it.
pub open spec fn data_wf(data: Seq<DataView>) -> bool {
    forall|i: int| 0 <= i < data.len() ==> #[trigger] stored_refs_ok(data[i], i, data.len() as int)
}

/// A value stored at `i` refers only to values stored before it, except that a
/// link's next link comes after it.
pub open spec fn stored_refs_ok(d: DataView, i: int, len: int) -> bool {
    match d {
        DataView::Link(h, v, next) => opt_below(h, i) && v < i && match next {
            Some(x) => i < x < len,
            None => true,
        },
        _ => refs_below(d, i),
    }
}

impl RuntimeView {
    /// The invariant of a runtime: position 0 holds the unit value, values only
    /// refer to earlier values, and the stacks only hold positions of stored values.
    pub open spec fn wf(self) -> bool {
        &&& self.data.len() > 0
        &&& self.data[0] == DataView::Unit
        &&& data_wf(self.data)
        &&& seq_below(self.registers, self.data.len() as int)
        &&& seq_below(self.inputs, self.data.len() as int)
        &&& seq_below(self.results, self.data.len() as int)
        &&& self.data.len() < usize::MAX
        &&& iterations_wf(self.iterations, self.data)
    }

    /// The last register.
    pub open spec fn last_reg(self) -> usize {
        self.registers.last()
    }

    /// The register before the last.
    pub open spec fn second_last_reg(self) -> usize {
        self.registers[self.registers.len() - 2]
    }

    /// This runtime with `d` stored and referred to by a new last register.
    pub open spec fn with_pushed(self, d: DataView) -> RuntimeView {
        RuntimeView {
            data: self.data.push(d),
            registers: self.registers.push(self.data.len() as usize),
            ..self
        }
    }

    /// This runtime with its last `n` registers removed.
    pub open spec fn with_consumed(self, n: nat) -> RuntimeView {
        RuntimeView { registers: self.registers.subrange(0, self.registers.len() - n), ..self }
    }

    /// The value referred to by the register before the last.
    pub open spec fn left_operand(self) -> DataView {
        self.data[self.second_last_reg() as int]
    }

    /// The value referred to by the last register.
    pub open spec fn right_operand(self) -> DataView {
        self.data[self.last_reg() as int]
    }

    /// This runtime after an operation replaced its last two registers by a new value `d`.
    pub open spec fn binary_applied(self, d: DataView) -> RuntimeView {
        self.with_consumed(2).with_pushed(d)
    }

    /// This runtime after an operation replaced its last register by a new value `d`.
    pub open spec fn unary_applied(self, d: DataView) -> RuntimeView {
        self.with_consumed(1).with_pushed(d)
    }

    /// This runtime with `r` as a new last register.
    pub open spec fn with_register(self, r: usize) -> RuntimeView {
        RuntimeView { registers: self.registers.push(r), ..self }
    }
}

impl ExpressionRuntime {
    /// A runtime with the unit value stored at position 0, the builtin symbols
    /// registered and everything else empty.
    pub fn new() -> (rt: ExpressionRuntime)
        ensures
            rt@.wf(),
            rt@.data == seq![DataView::Unit],
            rt@.registers == Seq::<usize>::empty(),
            rt@.inputs == Seq::<usize>::empty(),
            rt@.lists == Seq::<usize>::empty(),
            rt@.results == Seq::<usize>::empty(),
            rt@.symbols.len() == BUILTIN_SYMBOL_COUNT,
            forall|k: int| 0 <= k < BUILTIN_SYMBOL_COUNT ==> (#[trigger] rt@.symbols[k]).1 == k,
            rt@.expression_starts == Seq::<usize>::empty(),
            rt@.expression_names == Seq::<(Seq<char>, usize)>::empty(),
            rt@.instructions == Seq::<InstructionData>::empty(),
            rt@.cursor == 0,
            rt@.frames == Seq::<usize>::empty(),
            rt@.iterations == Seq::<Iteration>::empty(),
    {
        let mut data: Vec<Data> = Vec::new();
        data.push(Data::Unit);
        let mut symbol_table: Vec<(String, u64)> = Vec::new();
        symbol_table.push((String::from_str("false"), FALSE_SYMBOL));
        symbol_table.push((String::from_str("true"), TRUE_SYMBOL));
        symbol_table.push((String::from_str("left"), LEFT_SYMBOL));
        symbol_table.push((String::from_str("right"), RIGHT_SYMBOL));
        symbol_table.push((String::from_str("length"), LENGTH_SYMBOL));
        symbol_table.push((String::from_str("key_count"), KEY_COUNT_SYMBOL));
        symbol_table.push((String::from_str("start"), START_SYMBOL));
        symbol_table.push((String::from_str("end"), END_SYMBOL));
        symbol_table.push((String::from_str("step"), STEP_SYMBOL));
        symbol_table.push((String::from_str("is_start_exclusive"), IS_START_EXCLUSIVE_SYMBOL));
        symbol_table.push((String::from_str("is_end_exclusive"), IS_END_EXCLUSIVE_SYMBOL));
        symbol_table.push((String::from_str("is_start_open"), IS_START_OPEN_SYMBOL));
        symbol_table.push((String::from_str("is_end_open"), IS_END_OPEN_SYMBOL));
        symbol_table.push((String::from_str("base"), BASE_SYMBOL));
        symbol_table.push((String::from_str("value"), VALUE_SYMBOL));
        symbol_table.push((String::from_str("infinite"), INFINITE_SYMBOL));
        symbol_table.push((String::from_str("current"), CURRENT_SYMBOL));
        symbol_table.push((String::from_str("result"), RESULT_SYMBOL));
        let rt = ExpressionRuntime {
            data,
            registers: Vec::new(),
            input_stack: Vec::new(),
            list_stack: Vec::new(),
            result_stack: Vec::new(),
            symbol_table,
            expression_table: Vec::new(),
            expression_names: Vec::new(),
            instructions: Vec::new(),
            instruction_cursor: 0,
            call_stack: Vec::new(),
            iteration_stack: Vec::new(),
        };
        assert(rt@.data =~= seq![DataView::Unit]);
        assert(rt@.symbols.len() == 18);
        rt
    }

    /// A copy of this runtime, with the same view.
    pub fn snapshot(&self) -> (c: ExpressionRuntime)
        ensures
            c@ == self@,
    {
        let mut data: Vec<Data> = Vec::new();
        let mut k: usize = 0;
        while k < self.data.len()
            invariant
                k <= self.data@.len(),
                data@.len() == k,
                forall|i: int| 0 <= i < k ==> (#[trigger] data@[i])@ == self.data@[i]@,
            decreases self.data@.len() - k,
        {
            let d = self.data[k].copy();
            data.push(d);
            k = k + 1;
        }
        assert(data_view_seq(data@) =~= data_view_seq(self.data@));
        let symbol_table = copy_named(&self.symbol_table);
        let expression_names = copy_named(&self.expression_names);
        let c = ExpressionRuntime {
            data,
            registers: self.registers.clone(),
            input_stack: self.input_stack.clone(),
            list_stack: self.list_stack.clone(),
            result_stack: self.result_stack.clone(),
            symbol_table,
            expression_table: self.expression_table.clone(),
            expression_names,
            instructions: self.instructions.clone(),
            instruction_cursor: self.instruction_cursor,
            call_stack: self.call_stack.clone(),
            iteration_stack: self.iteration_stack.clone(),
        };
        proof {
            assert(c.registers@ =~= self.registers@);
            assert(c.input_stack@ =~= self.input_stack@);
            assert(c.list_stack@ =~= self.list_stack@);
            assert(c.result_stack@ =~= self.result_stack@);
            assert(c.expression_table@ =~= self.expression_table@);
            assert(c.instructions@ =~= self.instructions@);
            assert(c.call_stack@ =~= self.call_stack@);
            assert(c.iteration_stack@ =~= self.iteration_stack@);
            assert(c@ =~= self@);
        }
        c
    }

    /// Number of stored values.
    pub fn data_len(&self) -> (n: usize)
        ensures
            n == self@.data.len(),
    {
        self.data.len()
    }

    /// The value stored at position `i`.
    pub fn get_data(&self, i: usize) -> (d: &Data)
        requires
            i < self@.data.len(),
        ensures
            d@ == self@.data[i as int],
    {
        &self.data[i]
    }

    /// Number of registers in use.
    pub fn register_count(&self) -> (n: usize)
        ensures
            n == self@.registers.len(),
    {
        self.registers.len()
    }

    /// The position held by register `k`.
    pub fn get_register(&self, k: usize) -> (r: usize)
        requires
            k < self@.registers.len(),
        ensures
            r == self@.registers[k as int],
    {
        self.registers[k]
    }

    /// The position held by the last register, without removing it.
    pub fn last_ref(&self) -> (r: Result<usize, RuntimeError>)
        ensures
            self@.registers.len() == 0 ==> r == Err::<usize, RuntimeError>(RuntimeError::NotEnoughRegisters),
            self@.registers.len() > 0 ==> r == Ok::<usize, RuntimeError>(self@.last_reg()),
    {
        if self.registers.len() == 0 {
            Err(RuntimeError::NotEnoughRegisters)
        } else {
            Ok(self.registers[self.registers.len() - 1])
        }
    }

    /// Stores `d` and refers to it by a new last register; returns its position.
    pub fn push_value(&mut self, d: Data) -> (p: usize)
        requires
            old(self)@.wf(),
            refs_below(d@, old(self)@.data.len() as int),
            old(self)@.data.len() + 1 < usize::MAX,
        ensures
            final(self)@ == old(self)@.with_pushed(d@),
            p == old(self)@.data.len(),
            final(self)@.wf(),
    {
        let p = self.data.len();
        self.data.push(d);
        self.registers.push(p);
        proof {
            let v = final(self)@;
            assert(v.data =~= old(self)@.data.push(d@));
            lemma_iterations_wf_extend(old(self)@.iterations, old(self)@.data, seq![d@]);
            assert(old(self)@.data + seq![d@] =~= v.data);
            assert forall|i: int| 0 <= i < v.data.len() implies #[trigger] stored_refs_ok(v.data[i], i, v.data.len() as int) by {
                if i < old(self)@.data.len() {
                    assert(stored_refs_ok(old(self)@.data[i], i, old(self)@.data.len() as int));
                    assert(v.data[i] == old(self)@.data[i]);
                }
            }
            assert forall|k: int| 0 <= k < v.inputs.len() implies #[trigger] v.inputs[k] < v.data.len() by {
                assert(old(self)@.inputs[k] < old(self)@.data.len());
            }
            assert forall|k: int| 0 <= k < v.results.len() implies #[trigger] v.results[k] < v.data.len() by {
                assert(old(self)@.results[k] < old(self)@.data.len());
            }
            assert forall|k: int| 0 <= k < v.registers.len() implies #[trigger] v.registers[k] < v.data.len() by {
                if k < old(self)@.registers.len() {
                    assert(old(self)@.registers[k] < old(self)@.data.len());
                }
            }
            assert(v =~= old(self)@.with_pushed(d@));
        }
        p
    }

    /// Stores `d` without referring a register to it; returns its position.
    pub fn add_value(&mut self, d: Data) -> (p: usize)
        requires
            old(self)@.wf(),
            refs_below(d@, old(self)@.data.len() as int),
            old(self)@.data.len() + 1 < usize::MAX,
        ensures
            final(self)@ == (RuntimeView { data: old(self)@.data.push(d@), ..old(self)@ }),
            p == old(self)@.data.len(),
            final(self)@.wf(),
    {
        let p = self.push_value(d);
        let _ = self.consume_last_ref();
        proof {
            assert(old(self)@.registers.push(p).subrange(0, old(self)@.registers.len() as int) =~= old(self)@.registers);
            assert(final(self)@ =~= (RuntimeView { data: old(self)@.data.push(d@), ..old(self)@ }));
        }
        p
    }

    /// Removes the last stored value, a unit at `p` that nothing refers to.
    pub fn pop_unit_value(&mut self, p: usize)
        requires
            old(self)@.wf(),
            old(self)@.data.len() > 1,
            p == old(self)@.data.len() - 1,
            old(self)@.data[p as int] == DataView::Unit,
            seq_below(old(self)@.registers, p as int),
            seq_below(old(self)@.inputs, p as int),
            seq_below(old(self)@.results, p as int),
            iterations_wf(old(self)@.iterations, old(self)@.data.drop_last()),
            data_wf(old(self)@.data.drop_last()),
        ensures
            final(self)@.wf(),
            final(self)@ == (RuntimeView { data: old(self)@.data.drop_last(), ..old(self)@ }),
    {
        self.data.pop();
        proof {
            let v = final(self)@;
            assert(v.data =~= old(self)@.data.drop_last());
            assert(v =~= (RuntimeView { data: old(self)@.data.drop_last(), ..old(self)@ }));
        }
    }

    /// Stores the values `vs` after the stored ones, in order, without referring a
    /// register to them; they may refer to each other as stored values do.
    pub fn append_values(&mut self, vs: Vec<Data>)
        requires
            old(self)@.wf(),
            data_wf(old(self)@.data + data_view_seq(vs@)),
            old(self)@.data.len() + vs@.len() < usize::MAX,
        ensures
            final(self)@.wf(),
            final(self)@ == (RuntimeView { data: old(self)@.data + data_view_seq(vs@), ..old(self)@ }),
    {
        let ghost added = data_view_seq(vs@);
        let mut k: usize = 0;
        while k < vs.len()
            invariant
                k <= vs@.len(),
                added == data_view_seq(vs@),
                self@ == (RuntimeView { data: old(self)@.data + added.subrange(0, k as int), ..old(self)@ }),
            decreases vs@.len() - k,
        {
            let ghost before = self.data@;
            self.data.push(vs[k].copy());
            proof {
                assert(self.data@ == before.push(self.data@[before.len() as int]));
                assert(data_view_seq(self.data@) =~= data_view_seq(before).push(added[k as int]));
                assert(self@.data =~= old(self)@.data + added.subrange(0, k + 1));
                assert(self@ =~= (RuntimeView { data: old(self)@.data + added.subrange(0, k + 1), ..old(self)@ }));
            }
            k = k + 1;
        }
        proof {
            assert(added.subrange(0, added.len() as int) =~= added);
            let o = old(self)@;
            let w = self@;
            lemma_iterations_wf_extend(o.iterations, o.data, added);
            assert(w.data[0] == o.data[0]);
            assert forall|j: int| 0 <= j < w.inputs.len() implies #[trigger] w.inputs[j] < w.data.len() by {
                assert(o.inputs[j] < o.data.len());
            }
            assert forall|j: int| 0 <= j < w.results.len() implies #[trigger] w.results[j] < w.data.len() by {
                assert(o.results[j] < o.data.len());
            }
            assert forall|j: int| 0 <= j < w.registers.len() implies #[trigger] w.registers[j] < w.data.len() by {
                assert(o.registers[j] < o.data.len());
            }
        }
    }

    /// Makes the value at `r` the next link of the link at `i`.
    pub fn set_link_next(&mut self, i: usize, r: usize)
        requires
            old(self)@.wf(),
            i < r < old(self)@.data.len(),
            old(self)@.data[i as int] is Link,
        ensures
            final(self)@.wf(),
            final(self)@ == (RuntimeView {
                data: old(self)@.data.update(i as int, DataView::Link(old(self)@.data[i as int]->Link_0,
                    old(self)@.data[i as int]->Link_1, Some(r))),
                ..old(self)@
            }),
    {
        let (h, v) = match &self.data[i] {
            Data::Link(h, v, _) => (*h, *v),
            _ => (None, 0),
        };
        self.data.set(i, Data::Link(h, v, Some(r)));
        proof {
            let o = old(self)@;
            let w = final(self)@;
            assert(w.data =~= o.data.update(i as int, DataView::Link(o.data[i as int]->Link_0, o.data[i as int]->Link_1, Some(r))));
            assert forall|k: int| 0 <= k < w.data.len() implies #[trigger] stored_refs_ok(w.data[k], k, w.data.len() as int) by {
                assert(stored_refs_ok(o.data[k], k, o.data.len() as int));
            }
            assert forall|k: int| 0 <= k < w.iterations.len() implies #[trigger] crate::iterate::iteration_wf(w.iterations[k], w.data) by {
                assert(crate::iterate::iteration_wf(o.iterations[k], o.data));
            }
            assert(w =~= (RuntimeView {
                data: o.data.update(i as int, DataView::Link(o.data[i as int]->Link_0, o.data[i as int]->Link_1, Some(r))),
                ..o
            }));
        }
    }

    /// Adds `r` as a new last register.
    pub fn push_register(&mut self, r: usize)
        requires
            old(self)@.wf(),
            r < old(self)@.data.len(),
        ensures
            final(self)@ == old(self)@.with_register(r),
            final(self)@.wf(),
    {
        self.registers.push(r);
        proof {
            let v = final(self)@;
            assert forall|k: int| 0 <= k < v.registers.len() implies #[trigger] v.registers[k] < v.data.len() by {
                if k < old(self)@.registers.len() {
                    assert(old(self)@.registers[k] < old(self)@.data.len());
                }
            }
            assert(v =~= old(self)@.with_register(r));
        }
    }

    /// Removes the last register and returns the position it held.
    pub fn consume_last_ref(&mut self) -> (r: Result<usize, RuntimeError>)
        requires
            old(self)@.wf(),
        ensures
            final(self)@.wf(),
            old(self)@.registers.len() == 0 ==> r == Err::<usize, RuntimeError>(RuntimeError::NotEnoughRegisters)
                && final(self)@ == old(self)@,
            old(self)@.registers.len() > 0 ==> r == Ok::<usize, RuntimeError>(old(self)@.last_reg())
                && final(self)@ == old(self)@.with_consumed(1),
    {
        match self.registers.pop() {
            None => Err(RuntimeError::NotEnoughRegisters),
            Some(r) => {
                proof {
                    let v = final(self)@;
                    assert(v.registers =~= old(self)@.registers.subrange(0, old(self)@.registers.len() - 1));
                    assert forall|k: int| 0 <= k < v.registers.len() implies #[trigger] v.registers[k] < v.data.len() by {
                        assert(old(self)@.registers[k] < old(self)@.data.len());
                    }
                    assert(v =~= old(self)@.with_consumed(1));
                }
                Ok(r)
            }
        }
    }

    /// Removes the last two registers and returns the positions they held, in order.
    pub fn consume_last_two_refs(&mut self) -> (r: Result<(usize, usize), RuntimeError>)
        requires
            old(self)@.wf(),
        ensures
            final(self)@.wf(),
            old(self)@.registers.len() < 2 ==> r == Err::<(usize, usize), RuntimeError>(RuntimeError::NotEnoughRegisters)
                && final(self)@ == old(self)@,
            old(self)@.registers.len() >= 2 ==> r == Ok::<(usize, usize), RuntimeError>((old(self)@.second_last_reg(), old(self)@.last_reg()))
                && final(self)@ == old(self)@.with_consumed(2),
    {
        if self.registers.len() < 2 {
            return Err(RuntimeError::NotEnoughRegisters);
        }
        let right = self.registers.pop().unwrap();
        let left = self.registers.pop().unwrap();
        proof {
            let v = final(self)@;
            assert(v.registers =~= old(self)@.registers.subrange(0, old(self)@.registers.len() - 2));
            assert forall|k: int| 0 <= k < v.registers.len() implies #[trigger] v.registers[k] < v.data.len() by {
                assert(old(self)@.registers[k] < old(self)@.data.len());
            }
            assert(v =~= old(self)@.with_consumed(2));
        }
        Ok((left, right))
    }
}

impl ExpressionRuntime {
    /// Marks the current register count as the start of a list being made.
    pub fn push_list_start(&mut self)
        requires
            old(self)@.wf(),
        ensures
            final(self)@ == (RuntimeView { lists: old(self)@.lists.push(old(self)@.registers.len() as usize), ..old(self)@ }),
            final(self)@.wf(),
    {
        let n = self.registers.len();
        self.list_stack.push(n);
        proof {
            assert(final(self)@ =~= (RuntimeView { lists: old(self)@.lists.push(old(self)@.registers.len() as usize), ..old(self)@ }));
        }
    }

    /// Removes the most recent list start.
    pub fn pop_list_start(&mut self) -> (s: Option<usize>)
        requires
            old(self)@.wf(),
        ensures
            final(self)@.wf(),
            old(self)@.lists.len() == 0 ==> s is None && final(self)@ == old(self)@,
            old(self)@.lists.len() > 0 ==> s == Some(old(self)@.lists.last())
                && final(self)@ == (RuntimeView { lists: old(self)@.lists.drop_last(), ..old(self)@ }),
    {
        let s = self.list_stack.pop();
        proof {
            if old(self)@.lists.len() > 0 {
                assert(final(self)@ =~= (RuntimeView { lists: old(self)@.lists.drop_last(), ..old(self)@ }));
            } else {
                assert(final(self)@ =~= old(self)@);
            }
        }
        s
    }

    /// Removes the registers from `start` on and returns the positions they held.
    pub fn take_registers_from(&mut self, start: usize) -> (taken: Vec<usize>)
        requires
            old(self)@.wf(),
            start <= old(self)@.registers.len(),
        ensures
            final(self)@.wf(),
            taken@ == old(self)@.registers.subrange(start as int, old(self)@.registers.len() as int),
            final(self)@ == (RuntimeView { registers: old(self)@.registers.subrange(0, start as int), ..old(self)@ }),
    {
        let taken = self.registers.split_off(start);
        proof {
            let v = final(self)@;
            assert forall|k: int| 0 <= k < v.registers.len() implies #[trigger] v.registers[k] < v.data.len() by {
                assert(old(self)@.registers[k] < old(self)@.data.len());
            }
            assert(v =~= (RuntimeView { registers: old(self)@.registers.subrange(0, start as int), ..old(self)@ }));
        }
        taken
    }

    /// Makes `r` the current input.
    pub fn push_input_ref(&mut self, r: usize)
        requires
            old(self)@.wf(),
            r < old(self)@.data.len(),
        ensures
            final(self)@ == (RuntimeView { inputs: old(self)@.inputs.push(r), ..old(self)@ }),
            final(self)@.wf(),
    {
        self.input_stack.push(r);
        proof {
            let v = final(self)@;
            assert forall|k: int| 0 <= k < v.inputs.len() implies #[trigger] v.inputs[k] < v.data.len() by {
                if k < old(self)@.inputs.len() {
                    assert(old(self)@.inputs[k] < old(self)@.data.len());
                }
            }
            assert(v =~= (RuntimeView { inputs: old(self)@.inputs.push(r), ..old(self)@ }));
        }
    }

    /// Removes the current input, if there is one.
    pub fn pop_input_ref(&mut self)
        requires
            old(self)@.wf(),
        ensures
            final(self)@.wf(),
            old(self)@.inputs.len() == 0 ==> final(self)@ == old(self)@,
            old(self)@.inputs.len() > 0 ==> final(self)@ == (RuntimeView { inputs: old(self)@.inputs.drop_last(), ..old(self)@ }),
    {
        if self.input_stack.len() > 0 {
            self.input_stack.pop();
            proof {
                let v = final(self)@;
                assert forall|k: int| 0 <= k < v.inputs.len() implies #[trigger] v.inputs[k] < v.data.len() by {
                    assert(old(self)@.inputs[k] < old(self)@.data.len());
                }
                assert(v =~= (RuntimeView { inputs: old(self)@.inputs.drop_last(), ..old(self)@ }));
            }
        }
    }

    /// Number of inputs.
    pub fn input_count(&self) -> (n: usize)
        ensures
            n == self@.inputs.len(),
    {
        self.input_stack.len()
    }

    /// The current input.
    pub fn current_input(&self) -> (r: usize)
        requires
            self@.inputs.len() > 0,
        ensures
            r == self@.inputs.last(),
    {
        self.input_stack[self.input_stack.len() - 1]
    }

    /// The name registered first for the symbol value `v`, if any.
    pub fn symbol_name_of(&self, v: u64) -> (name: Option<Vec<char>>)
        ensures
            match name {
                Some(n) => symbol_name(self@.symbols, v) == Some(n@),
                None => symbol_name(self@.symbols, v) is None,
            },
    {
        let ghost syms = self@.symbols;
        assert(syms.subrange(0, syms.len() as int) =~= syms);
        let mut k: usize = 0;
        while k < self.symbol_table.len()
            invariant
                syms == named_seq(self.symbol_table@),
                k <= syms.len(),
                symbol_name(syms, v) == symbol_name(syms.subrange(k as int, syms.len() as int), v),
            decreases syms.len() - k,
        {
            assert(syms.subrange(k as int, syms.len() as int).drop_first() =~= syms.subrange(k + 1, syms.len() as int));
            if self.symbol_table[k].1 == v {
                return Some(string_chars(&self.symbol_table[k].0));
            }
            k = k + 1;
        }
        None
    }

    /// The name registered first for the symbol value `v`, if any.
    pub fn symbol_name_ref(&self, v: u64) -> (name: Option<&String>)
        ensures
            match name {
                Some(n) => symbol_name(self@.symbols, v) == Some(n@),
                None => symbol_name(self@.symbols, v) is None,
            },
    {
        let ghost syms = self@.symbols;
        assert(syms.subrange(0, syms.len() as int) =~= syms);
        let mut k: usize = 0;
        while k < self.symbol_table.len()
            invariant
                syms == named_seq(self.symbol_table@),
                k <= syms.len(),
                symbol_name(syms, v) == symbol_name(syms.subrange(k as int, syms.len() as int), v),
            decreases syms.len() - k,
        {
            assert(syms.subrange(k as int, syms.len() as int).drop_first() =~= syms.subrange(k + 1, syms.len() as int));
            if self.symbol_table[k].1 == v {
                return Some(&self.symbol_table[k].0);
            }
            k = k + 1;
        }
        None
    }

    /// The value registered first for the symbol name `name`, if any.
    pub fn symbol_value_of(&self, name: &String) -> (v: Option<u64>)
        ensures
            v == symbol_value(self@.symbols, name@),
    {
        let ghost syms = self@.symbols;
        assert(syms.subrange(0, syms.len() as int) =~= syms);
        let mut k: usize = 0;
        while k < self.symbol_table.len()
            invariant
                syms == named_seq(self.symbol_table@),
                k <= syms.len(),
                symbol_value(syms, name@) == symbol_value(syms.subrange(k as int, syms.len() as int), name@),
            decreases syms.len() - k,
        {
            assert(syms.subrange(k as int, syms.len() as int).drop_first() =~= syms.subrange(k + 1, syms.len() as int));
            if self.symbol_table[k].0 == *name {
                return Some(self.symbol_table[k].1);
            }
            k = k + 1;
        }
        None
    }

    /// The value registered first for the symbol whose name has the characters `cs`, if any.
    pub fn symbol_value_of_chars(&self, cs: &Vec<char>) -> (v: Option<u64>)
        ensures
            v == symbol_value(self@.symbols, cs@),
    {
        let ghost syms = self@.symbols;
        assert(syms.subrange(0, syms.len() as int) =~= syms);
        let mut k: usize = 0;
        while k < self.symbol_table.len()
            invariant
                syms == named_seq(self.symbol_table@),
                k <= syms.len(),
                symbol_value(syms, cs@) == symbol_value(syms.subrange(k as int, syms.len() as int), cs@),
            decreases syms.len() - k,
        {
            assert(syms.subrange(k as int, syms.len() as int).drop_first() =~= syms.subrange(k + 1, syms.len() as int));
            let name = string_chars(&self.symbol_table[k].0);
            if crate::access::chars_equal(&name, cs) {
                return Some(self.symbol_table[k].1);
            }
            k = k + 1;
        }
        None
    }

    /// Registers `name` for the symbol value `v`, after the names already registered.
    pub fn add_symbol(&mut self, name: String, v: u64)
        requires
            old(self)@.wf(),
        ensures
            final(self)@.wf(),
            final(self)@ == (RuntimeView { symbols: old(self)@.symbols.push((name@, v)), ..old(self)@ }),
    {
        self.symbol_table.push((name, v));
        proof {
            assert(final(self)@ =~= (RuntimeView { symbols: old(self)@.symbols.push((name@, v)), ..old(self)@ }));
        }
    }

    /// Appends an instruction.
    pub fn add_instruction(&mut self, instruction: InstructionData)
        requires
            old(self)@.wf(),
        ensures
            final(self)@.wf(),
            final(self)@ == (RuntimeView { instructions: old(self)@.instructions.push(instruction), ..old(self)@ }),
    {
        self.instructions.push(instruction);
        proof {
            assert(final(self)@ =~= (RuntimeView { instructions: old(self)@.instructions.push(instruction), ..old(self)@ }));
        }
    }

    /// Number of instructions.
    pub fn instruction_count(&self) -> (n: usize)
        ensures
            n == self@.instructions.len(),
    {
        self.instructions.len()
    }

    /// The instruction at `i`, if there is one.
    pub fn get_instruction(&self, i: usize) -> (d: Option<InstructionData>)
        ensures
            i < self@.instructions.len() ==> d == Some(self@.instructions[i as int]),
            i >= self@.instructions.len() ==> d is None,
    {
        if i < self.instructions.len() { Some(self.instructions[i]) } else { None }
    }

    /// Position of the instruction to execute next.
    pub fn get_instruction_cursor(&self) -> (c: usize)
        ensures
            c == self@.cursor,
    {
        self.instruction_cursor
    }

    /// Sets the position of the instruction to execute next.
    pub fn set_instruction_cursor(&mut self, c: usize)
        requires
            old(self)@.wf(),
        ensures
            final(self)@.wf(),
            final(self)@ == (RuntimeView { cursor: c, ..old(self)@ }),
    {
        self.instruction_cursor = c;
        proof {
            assert(final(self)@ =~= (RuntimeView { cursor: c, ..old(self)@ }));
        }
    }

    /// Registers an expression starting at instruction `start` under `name`; returns its index.
    pub fn add_expression(&mut self, name: String, start: usize) -> (index: usize)
        requires
            old(self)@.wf(),
            old(self)@.expression_starts.len() + 1 < usize::MAX,
        ensures
            final(self)@.wf(),
            index == old(self)@.expression_starts.len() + 1,
            final(self)@ == (RuntimeView {
                expression_starts: old(self)@.expression_starts.push(start),
                expression_names: old(self)@.expression_names.push((name@, index)),
                ..old(self)@
            }),
    {
        self.expression_table.push(start);
        let index = self.expression_table.len();
        self.expression_names.push((name, index));
        proof {
            assert(final(self)@ =~= (RuntimeView {
                expression_starts: old(self)@.expression_starts.push(start),
                expression_names: old(self)@.expression_names.push((name@, index)),
                ..old(self)@
            }));
        }
        index
    }

    /// Where expression `index` starts.
    pub fn get_expression_start(&self, index: usize) -> (s: Option<usize>)
        ensures
            s == expression_start(self@.expression_starts, index),
    {
        if 1 <= index && index <= self.expression_table.len() {
            Some(self.expression_table[index - 1])
        } else {
            None
        }
    }

    /// The index of the expression registered first under `name`, if any.
    pub fn get_expression_index(&self, name: &String) -> (i: Option<usize>)
        ensures
            i == expression_index(self@.expression_names, name@),
    {
        let ghost names = self@.expression_names;
        assert(names.subrange(0, names.len() as int) =~= names);
        let mut k: usize = 0;
        while k < self.expression_names.len()
            invariant
                names == named_seq(self.expression_names@),
                k <= names.len(),
                expression_index(names, name@) == expression_index(names.subrange(k as int, names.len() as int), name@),
            decreases names.len() - k,
        {
            assert(names.subrange(k as int, names.len() as int).drop_first() =~= names.subrange(k + 1, names.len() as int));
            if self.expression_names[k].0 == *name {
                return Some(self.expression_names[k].1);
            }
            k = k + 1;
        }
        None
    }

    /// Remembers `ret` as the instruction to continue at when the current expression ends.
    pub fn push_frame(&mut self, ret: usize)
        requires
            old(self)@.wf(),
        ensures
            final(self)@.wf(),
            final(self)@ == (RuntimeView { frames: old(self)@.frames.push(ret), ..old(self)@ }),
    {
        self.call_stack.push(ret);
        proof {
            assert(final(self)@ =~= (RuntimeView { frames: old(self)@.frames.push(ret), ..old(self)@ }));
        }
    }

    /// Removes the most recent frame and returns where to continue.
    pub fn pop_frame(&mut self) -> (ret: Option<usize>)
        requires
            old(self)@.wf(),
        ensures
            final(self)@.wf(),
            old(self)@.frames.len() == 0 ==> ret is None && final(self)@ == old(self)@,
            old(self)@.frames.len() > 0 ==> ret == Some(old(self)@.frames.last())
                && final(self)@ == (RuntimeView { frames: old(self)@.frames.drop_last(), ..old(self)@ }),
    {
        let r = self.call_stack.pop();
        proof {
            if old(self)@.frames.len() > 0 {
                assert(final(self)@ =~= (RuntimeView { frames: old(self)@.frames.drop_last(), ..old(self)@ }));
            } else {
                assert(final(self)@ =~= old(self)@);
            }
        }
        r
    }

    /// Keeps only the first `n` frames, or all of them when there are fewer.
    pub fn truncate_frames(&mut self, n: usize)
        requires
            old(self)@.wf(),
        ensures
            final(self)@.wf(),
            final(self)@ == (RuntimeView {
                frames: old(self)@.frames.subrange(0, if n < old(self)@.frames.len() { n as int } else { old(self)@.frames.len() as int }),
                ..old(self)@
            }),
    {
        if n < self.call_stack.len() {
            self.call_stack.truncate(n);
        }
        proof {
            assert(final(self)@ =~= (RuntimeView {
                frames: old(self)@.frames.subrange(0, if n < old(self)@.frames.len() { n as int } else { old(self)@.frames.len() as int }),
                ..old(self)@
            }));
        }
    }

    /// The results recorded from position `start` on.
    pub fn results_from(&self, start: usize) -> (rs: Vec<usize>)
        requires
            start <= self@.results.len(),
        ensures
            rs@ == self@.results.subrange(start as int, self@.results.len() as int),
    {
        let mut rs: Vec<usize> = Vec::new();
        let mut k: usize = start;
        while k < self.result_stack.len()
            invariant
                start <= k <= self@.results.len(),
                self@.results == self.result_stack@,
                rs@ == self@.results.subrange(start as int, k as int),
            decreases self@.results.len() - k,
        {
            rs.push(self.result_stack[k]);
            k = k + 1;
            assert(rs@ =~= self@.results.subrange(start as int, k as int));
        }
        rs
    }

    /// Number of results recorded.
    pub fn result_count(&self) -> (n: usize)
        ensures
            n == self@.results.len(),
    {
        self.result_stack.len()
    }

    /// The iteration most recently started, if any.
    pub fn last_iteration(&self) -> (it: Option<Iteration>)
        ensures
            self@.iterations.len() == 0 ==> it is None,
            self@.iterations.len() > 0 ==> it == Some(self@.iterations.last()),
    {
        if self.iteration_stack.len() == 0 {
            None
        } else {
            Some(self.iteration_stack[self.iteration_stack.len() - 1])
        }
    }

    /// Starts tracking the iteration `it`.
    pub fn push_iteration(&mut self, it: Iteration)
        requires
            old(self)@.wf(),
            crate::iterate::iteration_wf(it, old(self)@.data),
        ensures
            final(self)@.wf(),
            final(self)@ == (RuntimeView { iterations: old(self)@.iterations.push(it), ..old(self)@ }),
    {
        self.iteration_stack.push(it);
        proof {
            let v = final(self)@;
            assert forall|k: int| 0 <= k < v.iterations.len() implies #[trigger] crate::iterate::iteration_wf(v.iterations[k], v.data) by {
                if k < old(self)@.iterations.len() {
                    assert(crate::iterate::iteration_wf(old(self)@.iterations[k], v.data));
                }
            }
            assert(v =~= (RuntimeView { iterations: old(self)@.iterations.push(it), ..old(self)@ }));
        }
    }

    /// Stops tracking the most recent iteration and returns it.
    pub fn pop_iteration(&mut self) -> (it: Option<Iteration>)
        requires
            old(self)@.wf(),
        ensures
            final(self)@.wf(),
            old(self)@.iterations.len() == 0 ==> it is None && final(self)@ == old(self)@,
            old(self)@.iterations.len() > 0 ==> it == Some(old(self)@.iterations.last())
                && final(self)@ == (RuntimeView { iterations: old(self)@.iterations.drop_last(), ..old(self)@ }),
    {
        let it = self.iteration_stack.pop();
        proof {
            let v = final(self)@;
            if old(self)@.iterations.len() > 0 {
                assert forall|k: int| 0 <= k < v.iterations.len() implies #[trigger] crate::iterate::iteration_wf(v.iterations[k], v.data) by {
                    assert(crate::iterate::iteration_wf(old(self)@.iterations[k], v.data));
                }
                assert(v =~= (RuntimeView { iterations: old(self)@.iterations.drop_last(), ..old(self)@ }));
            } else {
                assert(v =~= old(self)@);
            }
        }
        it
    }

    /// Replaces the most recent iteration by `it`.
    pub fn set_last_iteration(&mut self, it: Iteration)
        requires
            old(self)@.wf(),
            old(self)@.iterations.len() > 0,
            crate::iterate::iteration_wf(it, old(self)@.data),
        ensures
            final(self)@.wf(),
            final(self)@ == (RuntimeView {
                iterations: old(self)@.iterations.update(old(self)@.iterations.len() - 1, it),
                ..old(self)@
            }),
    {
        let last = self.iteration_stack.len() - 1;
        self.iteration_stack.set(last, it);
        proof {
            let v = final(self)@;
            assert forall|k: int| 0 <= k < v.iterations.len() implies #[trigger] crate::iterate::iteration_wf(v.iterations[k], v.data) by {
                if k < last {
                    assert(crate::iterate::iteration_wf(old(self)@.iterations[k], v.data));
                }
            }
            assert(v =~= (RuntimeView {
                iterations: old(self)@.iterations.update(old(self)@.iterations.len() - 1, it),
                ..old(self)@
            }));
        }
    }

    /// Number of frames.
    pub fn frame_count(&self) -> (n: usize)
        ensures
            n == self@.frames.len(),
    {
        self.call_stack.len()
    }

    /// Records the value at `r` as a result.
    pub fn push_result_ref(&mut self, r: usize)
        requires
            old(self)@.wf(),
            r < old(self)@.data.len(),
        ensures
            final(self)@.wf(),
            final(self)@ == (RuntimeView { results: old(self)@.results.push(r), ..old(self)@ }),
    {
        self.result_stack.push(r);
        proof {
            let v = final(self)@;
            assert forall|k: int| 0 <= k < v.results.len() implies #[trigger] v.results[k] < v.data.len() by {
                if k < old(self)@.results.len() {
                    assert(old(self)@.results[k] < old(self)@.data.len());
                }
            }
            assert(v =~= (RuntimeView { results: old(self)@.results.push(r), ..old(self)@ }));
        }
    }

    /// The most recent result, if any.
    pub fn last_result(&self) -> (r: Option<usize>)
        ensures
            self@.results.len() == 0 ==> r is None,
            self@.results.len() > 0 ==> r == Some(self@.results.last()),
    {
        if self.result_stack.len() == 0 { None } else { Some(self.result_stack[self.result_stack.len() - 1]) }
    }

    /// Number of list starts.
    pub fn list_start_count(&self) -> (n: usize)
        ensures
            n == self@.lists.len(),
    {
        self.list_stack.len()
    }
}

/// The name registered first for the symbol value `v`, if any.
pub open spec fn symbol_name(symbols: Seq<(Seq<char>, u64)>, v: u64) -> Option<Seq<char>>
    decreases symbols.len(),
{
    if symbols.len() == 0 {
        None
    } else if symbols[0].1 == v {
        Some(symbols[0].0)
    } else {
        symbol_name(symbols.drop_first(), v)
    }
}

/// The value registered first for the symbol name `name`, if any.
pub open spec fn symbol_value(symbols: Seq<(Seq<char>, u64)>, name: Seq<char>) -> Option<u64>
    decreases symbols.len(),
{
    if symbols.len() == 0 {
        None
    } else if symbols[0].0 == name {
        Some(symbols[0].1)
    } else {
        symbol_value(symbols.drop_first(), name)
    }
}

/// The characters of a string.
pub fn string_chars(s: &String) -> (cs: Vec<char>)
    ensures
        cs@ == s@,
{
    let n = s.as_str().unicode_len();
    let mut cs: Vec<char> = Vec::new();
    let mut k: usize = 0;
    while k < n
        invariant
            n == s@.len(),
            k <= n,
            cs@ == s@.subrange(0, k as int),
        decreases n - k,
    {
        let c = s.as_str().get_char(k);
        cs.push(c);
        k = k + 1;
        assert(cs@ =~= s@.subrange(0, k as int));
    }
    assert(cs@ =~= s@);
    cs
}

/// Where expression `index` starts; expression indices start at 1.
pub open spec fn expression_start(starts: Seq<usize>, index: usize) -> Option<usize> {
    if 1 <= index <= starts.len() { Some(starts[index - 1]) } else { None }
}

/// The index of the expression registered first under `name`, if any.
pub open spec fn expression_index(names: Seq<(Seq<char>, usize)>, name: Seq<char>) -> Option<usize>
    decreases names.len(),
{
    if names.len() == 0 {
        None
    } else if names[0].0 == name {
        Some(names[0].1)
    } else {
        expression_index(names.drop_first(), name)
    }
}

/// The symbol standing for a condition.
pub open spec fn condition_symbol(c: bool) -> DataView {
    DataView::Symbol(if c { TRUE_SYMBOL } else { FALSE_SYMBOL })
}

/// The symbol standing for a condition.
pub fn symbol_from_condition(c: bool) -> (d: Data)
    ensures
        d@ == condition_symbol(c),
{
    Data::Symbol(if c { TRUE_SYMBOL } else { FALSE_SYMBOL })
}

/// In a well-formed runtime every register refers to a stored value.
pub proof fn lemma_register_in_bounds(v: RuntimeView, k: int)
    requires
        v.wf(),
        0 <= k < v.registers.len(),
    ensures
        v.registers[k] < v.data.len(),
{
}

/// In a well-formed runtime a stored value only refers to earlier values.
pub proof fn lemma_value_refs(v: RuntimeView, i: int)
    requires
        v.wf(),
        0 <= i < v.data.len(),
    ensures
        v.data[i] !is Link ==> refs_below(v.data[i], i),
        stored_refs_ok(v.data[i], i, v.data.len() as int),
{
}


/// A copy of a table of names, with the same view.
fn copy_named<T: Copy>(v: &Vec<(String, T)>) -> (c: Vec<(String, T)>)
    ensures
        named_seq(c@) == named_seq(v@),
{
    let mut c: Vec<(String, T)> = Vec::new();
    let mut k: usize = 0;
    while k < v.len()
        invariant
            k <= v@.len(),
            c@.len() == k,
            forall|i: int| 0 <= i < k ==> (#[trigger] c@[i]).0@ == v@[i].0@ && c@[i].1 == v@[i].1,
        decreases v@.len() - k,
    {
        let name = v[k].0.clone();
        c.push((name, v[k].1));
        k = k + 1;
    }
    assert(named_seq(c@) =~= named_seq(v@));
    c
}
} // verus!
