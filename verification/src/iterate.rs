use vstd::prelude::*;
use vstd::utf8::is_scalar;
use crate::data::{Data, DataView, refs_below};
use crate::lists::{association_keys, list_start, made_list};
use crate::runtime::{ExpressionRuntime, RuntimeError, RuntimeView, CURRENT_SYMBOL, RESULT_SYMBOL, expression_start};

verus! {

/// What an iteration walks through.
#[derive(Clone, Copy, PartialEq, Eq, Structural, Debug)]
pub enum IterationKind {
    /// The items of a list, the characters of a character list, or the results
    /// an input expression gave.
    Items,
    /// The values of a range, from its start by its step.
    Range,
}

/// The state of an iteration in progress.
#[derive(Clone, Copy, PartialEq, Eq, Structural, Debug)]
pub struct Iteration {
    pub kind: IterationKind,
    /// Whether the iteration gives only its last result, rather than a list of all.
    pub single_result: bool,
    /// The instruction where the iterated expression starts.
    pub expression_start: usize,
    /// How many items were handed out before the current one.
    pub counter: usize,
    /// How many items there are.
    pub end: usize,
    /// The position of the value iterated over.
    pub source: usize,
    /// The position of the current item or range value.
    pub current: usize,
    /// The position of the initial result.
    pub result: usize,
    /// The register where the next result goes.
    pub result_register: usize,
    /// The depth of the call stack where the iteration's frame sits.
    pub frame_index: usize,
    /// While an input expression is still giving the items: where its results start.
    pub collecting: Option<usize>,
}

/// How many items iterating over a value hands out: the items of a list and the
/// characters of a character list.
pub open spec fn item_count(d: DataView) -> nat {
    match d {
        DataView::List(items, _) => items.len(),
        DataView::CharacterList(cs) => cs.len(),
        _ => 0,
    }
}

/// An iteration refers only to stored values; a running iteration over items has
/// not yet handed out its last one, and one over a range has a range with both bounds.
pub open spec fn iteration_wf(it: Iteration, data: Seq<DataView>) -> bool {
    &&& it.source < data.len()
    &&& it.current < data.len()
    &&& it.result < data.len()
    &&& (it.collecting is None && it.kind == IterationKind::Items) ==> it.end == item_count(data[it.source as int])
        && it.counter < it.end
    &&& (it.collecting is None && it.kind == IterationKind::Range) ==> (data[it.source as int] matches DataView::Range(p)
        && p.start is Some && p.end is Some)
}

/// Every iteration in progress is well formed.
pub open spec fn iterations_wf(its: Seq<Iteration>, data: Seq<DataView>) -> bool {
    forall|k: int| 0 <= k < its.len() ==> #[trigger] iteration_wf(its[k], data)
}

/// Storing more values keeps an iteration well formed.
pub proof fn lemma_iteration_wf_extend(it: Iteration, data: Seq<DataView>, more: Seq<DataView>)
    requires
        iteration_wf(it, data),
    ensures
        iteration_wf(it, data + more),
{
    assert((data + more)[it.source as int] == data[it.source as int]);
}

/// Storing more values keeps iterations well formed.
pub proof fn lemma_iterations_wf_extend(its: Seq<Iteration>, data: Seq<DataView>, more: Seq<DataView>)
    requires
        iterations_wf(its, data),
    ensures
        iterations_wf(its, data + more),
{
    assert forall|k: int| 0 <= k < its.len() implies #[trigger] iteration_wf(its[k], data + more) by {
        assert(iteration_wf(its[k], data));
        assert((data + more)[its[k].source as int] == data[its[k].source as int]);
    }
}


/// What an iteration step returns, where to jump if anywhere, and the runtime after it.
pub type Step = (Result<Option<usize>, RuntimeError>, RuntimeView);

/// The runtime with a new input: a list associating `current` with the current
/// item and `result` with the result so far.
pub open spec fn with_input_list(v: RuntimeView, current: usize, result: usize) -> RuntimeView {
    let n = v.data.len();
    RuntimeView {
        data: v.data + seq![
            DataView::Symbol(CURRENT_SYMBOL),
            DataView::Pair(n as usize, current),
            DataView::Symbol(RESULT_SYMBOL),
            DataView::Pair((n + 2) as usize, result),
            DataView::List(seq![(n + 1) as usize, (n + 3) as usize], seq![(n + 1) as usize, (n + 3) as usize]),
        ],
        inputs: v.inputs.push((n + 4) as usize),
        ..v
    }
}

/// The runtime after handing out item `k` of the value at `source`, and the item's
/// position: a list's item is already stored, a character of a character list is
/// stored as a new value.
pub open spec fn with_item(v: RuntimeView, source: usize, k: int) -> (RuntimeView, usize) {
    match v.data[source as int] {
        DataView::CharacterList(cs) => (RuntimeView { data: v.data.push(DataView::Character(cs[k])), ..v }, v.data.len() as usize),
        DataView::List(items, _) => (v, items[k]),
        _ => (v, 0),
    }
}

/// The runtime with the iterated expression about to run for the item at `current`:
/// a new input for it, a frame to come back to `ret`, and `it` tracking it.
pub open spec fn with_run(v: RuntimeView, it: Iteration, current: usize, result: usize, ret: usize) -> RuntimeView {
    let w = with_input_list(v, current, result);
    RuntimeView { frames: w.frames.push(ret), iterations: w.iterations.push(Iteration { current, ..it }), ..w }
}

/// An iteration over nothing: its single result is the initial result, its list of
/// results is empty.
pub open spec fn empty_iteration(v: RuntimeView, single: bool, result: usize) -> RuntimeView {
    if single {
        v.with_register(result)
    } else {
        v.with_pushed(DataView::List(Seq::empty(), Seq::empty()))
    }
}

/// The end of an iteration, continuing at `ret`: a single result replaces the
/// registers since the list start; otherwise the results become a list.
pub open spec fn iteration_ended(w: RuntimeView, single: bool, ret: usize) -> Step {
    if w.lists.len() == 0 {
        (Err(RuntimeError::NoListStarted), w)
    } else if single {
        (Ok(Some(ret)), RuntimeView {
            lists: w.lists.drop_last(),
            registers: w.registers.subrange(0, list_start(w)).push(w.registers.last()),
            ..w
        })
    } else {
        (Ok(Some(ret)), made_list(w))
    }
}

/// What a run of the iterated expression leaves: its last register becomes the next
/// result, after the results so far; its frame and input are dropped. Gives the
/// runtime without the iteration, the iteration with its count moved on, and where
/// the frame would have continued. Fails without registers, or when results are to
/// go past the registers there are.
pub open spec fn updated(v: RuntimeView) -> Option<(RuntimeView, Iteration, usize)> {
    let it = v.iterations.last();
    if v.registers.len() == 0 || it.result_register > v.registers.len() {
        None
    } else {
        let regs = v.registers.subrange(0, it.result_register as int).push(v.registers.last());
        let counter = if it.kind == IterationKind::Items { (it.counter + 1) as usize } else { it.counter };
        let ret = if v.frames.len() > 0 { v.frames.last() } else { v.instructions.len() as usize };
        Some((RuntimeView {
            registers: regs,
            frames: if v.frames.len() > 0 { v.frames.drop_last() } else { v.frames },
            inputs: if v.inputs.len() > 0 { v.inputs.drop_last() } else { v.inputs },
            iterations: v.iterations.drop_last(),
            ..v
        }, Iteration { counter, result_register: regs.len() as usize, ..it }, ret))
    }
}

/// The value after `last` by `step` in a range ending at `end`, when the range goes
/// on that far. Integers step by addition, characters by their scalar values; an
/// integer range needs an integer end, and a character range ends at a bound that
/// is no character or at a value that is no character.
pub open spec fn range_next(last: DataView, end: DataView, step: i32, end_exclusive: bool) -> Result<Option<DataView>, RuntimeError> {
    match last {
        DataView::Integer(x) => match end {
            DataView::Integer(y) => {
                let next = x + step;
                if next < i32::MIN || next > i32::MAX {
                    Err(RuntimeError::ArithmeticError)
                } else if (end_exclusive && next >= y) || (!end_exclusive && next > y) {
                    Ok(None)
                } else {
                    Ok(Some(DataView::Integer(next as i32)))
                }
            },
            _ => Err(RuntimeError::UnsupportedType),
        },
        DataView::Character(c) => match end {
            DataView::Character(e) => {
                let next = c as int + step;
                if !(0 <= next <= u32::MAX && is_scalar(next as u32)) {
                    Ok(None)
                } else if (end_exclusive && next >= e as int) || (!end_exclusive && next > e as int) {
                    Ok(None)
                } else {
                    Ok(Some(DataView::Character((next as u32) as char)))
                }
            },
            _ => Ok(None),
        },
        _ => Err(RuntimeError::UnsupportedType),
    }
}

/// The step of a range: its step value, which must be an integer, or one.
pub open spec fn range_step(data: Seq<DataView>, step: Option<usize>) -> Result<i32, RuntimeError> {
    match step {
        None => Ok(1),
        Some(st) => match data[st as int] {
            DataView::Integer(k) => Ok(k),
            _ => Err(RuntimeError::UnsupportedType),
        },
    }
}

/// The next run of an iteration over items, or its end after the last one.
pub open spec fn items_reiterated(w: RuntimeView, it: Iteration, ret: usize) -> Step {
    if it.counter >= it.end {
        iteration_ended(w, it.single_result, ret)
    } else {
        let (w1, cur) = with_item(w, it.source, it.counter as int);
        (Ok(Some(it.expression_start)), with_run(w1, it, cur, w.registers.last(), ret))
    }
}

/// The next run of an iteration over a range, or its end past the range's end.
pub open spec fn range_reiterated(w: RuntimeView, it: Iteration, ret: usize) -> Step {
    let kept = RuntimeView { iterations: w.iterations.push(it), ..w };
    match w.data[it.source as int] {
        DataView::Range(p) => match range_step(w.data, p.step) {
            Err(e) => (Err(e), kept),
            Ok(k) => match range_next(w.data[it.current as int], w.data[p.end->Some_0 as int], k, p.end_exclusive) {
                Err(e) => (Err(e), kept),
                Ok(None) => iteration_ended(w, it.single_result, ret),
                Ok(Some(d)) => (Ok(Some(it.expression_start)),
                    with_run(RuntimeView { data: w.data.push(d), ..w }, it, w.data.len() as usize, w.registers.last(), ret)),
            },
        },
        _ => (Err(RuntimeError::UnsupportedType), kept),
    }
}

/// Moving a running iteration on after a run of its expression: the run's last
/// value becomes a result, and the expression runs for the next item, or the
/// iteration ends.
pub open spec fn reiterated(v: RuntimeView) -> Step {
    if v.iterations.len() == 0 || v.iterations.last().collecting is Some {
        (Err(RuntimeError::NoActiveIteration), v)
    } else {
        match updated(v) {
            None => (Err(RuntimeError::NotEnoughRegisters), v),
            Some((w, it, ret)) => if it.kind == IterationKind::Items {
                items_reiterated(w, it, ret)
            } else {
                range_reiterated(w, it, ret)
            },
        }
    }
}

/// What iterating calls for each item, given the value at `right`: an expression,
/// with unit as the initial result, or an expression partially applied to the
/// initial result. `None` when the value is neither.
pub open spec fn iteration_call(data: Seq<DataView>, starts: Seq<usize>, right: usize) -> Option<Result<(usize, usize), RuntimeError>> {
    match data[right as int] {
        DataView::Expression(i) => Some(match expression_start(starts, i) {
            Some(s) => Ok((s, 0usize)),
            None => Err(RuntimeError::ExpressionNotFound),
        }),
        DataView::Partial(b, value) => match data[b as int] {
            DataView::Expression(i) => Some(match expression_start(starts, i) {
                Some(s) => Ok((s, value)),
                None => Err(RuntimeError::ExpressionNotFound),
            }),
            _ => None,
        },
        _ => None,
    }
}

/// The first value of a range that excludes its start `d`.
pub open spec fn value_after(d: DataView) -> Result<DataView, RuntimeError> {
    match d {
        DataView::Integer(n) => Ok(DataView::Integer((n + 1) as i32)),
        DataView::Character(c) => if is_scalar((c as u32 + 1) as u32) {
            Ok(DataView::Character(((c as u32 + 1) as u32) as char))
        } else {
            Err(RuntimeError::UnsupportedType)
        },
        _ => Err(RuntimeError::UnsupportedType),
    }
}

/// Starting an iteration over the range `p` at `left`.
pub open spec fn range_begun(w: RuntimeView, record: Iteration, p: crate::data::RangeParts, ret: usize) -> Step {
    let w1 = RuntimeView { lists: w.lists.push(w.registers.len() as usize), ..w };
    let s = p.start->Some_0;
    let it = Iteration { kind: IterationKind::Range, ..record };
    if !p.start_exclusive {
        (Ok(Some(record.expression_start)), with_run(w1, it, s, record.result, ret))
    } else {
        match value_after(w.data[s as int]) {
            Err(e) => (Err(e), w1),
            Ok(d) => (Ok(Some(record.expression_start)), with_run(RuntimeView { data: w1.data.push(d), ..w1 },
                Iteration { counter: 1, ..it }, w1.data.len() as usize, record.result, ret)),
        }
    }
}

/// Starting an iteration over the value at `left`, calling the expression starting
/// at `start` with `result` as the initial result, and continuing at `ret` when done.
/// Lists and character lists are iterated by item, ranges by value; an expression
/// runs first and its results are iterated when it ends. Other values give unit.
pub open spec fn iteration_begun(w: RuntimeView, single: bool, start: usize, result: usize, left: usize, ret: usize) -> Step {
    let record = Iteration {
        kind: IterationKind::Items,
        single_result: single,
        expression_start: start,
        counter: 0,
        end: 0,
        source: left,
        current: left,
        result,
        result_register: w.registers.len() as usize,
        frame_index: w.frames.len() as usize,
        collecting: None,
    };
    match w.data[left as int] {
        DataView::List(_, _) | DataView::CharacterList(_) => {
            let count = item_count(w.data[left as int]);
            if count == 0 {
                (Ok(None), empty_iteration(w, single, result))
            } else {
                let w1 = RuntimeView { lists: w.lists.push(w.registers.len() as usize), ..w };
                let (w2, cur) = with_item(w1, left, 0);
                (Ok(Some(start)), with_run(w2, Iteration { end: count as usize, ..record }, cur, result, ret))
            }
        },
        DataView::Expression(i) => match expression_start(w.expression_starts, i) {
            None => (Err(RuntimeError::ExpressionNotFound), w),
            Some(s) => (Ok(Some(s)), RuntimeView {
                data: w.data.push(DataView::Unit),
                inputs: w.inputs.push(w.data.len() as usize),
                frames: w.frames.push(ret),
                iterations: w.iterations.push(Iteration { source: 0, current: 0, collecting: Some(w.results.len() as usize), ..record }),
                ..w
            }),
        },
        DataView::Range(p) => range_begun(w, record, p, ret),
        _ => (Ok(None), w.with_pushed(DataView::Unit)),
    }
}

/// Iterating the second-to-last register's value with the last register's value,
/// both removed; the iteration frame continues after the current instruction.
pub open spec fn iteration_started(v: RuntimeView, single: bool) -> Step {
    if v.registers.len() < 2 {
        (Err(RuntimeError::NotEnoughRegisters), v)
    } else {
        let w = v.with_consumed(2);
        match iteration_call(v.data, v.expression_starts, v.last_reg()) {
            None => (Ok(None), w.with_pushed(DataView::Unit)),
            Some(Err(e)) => (Err(e), w),
            Some(Ok((start, result))) => iteration_begun(w, single, start, result, v.second_last_reg(), (v.cursor + 1) as usize),
        }
    }
}

/// An iteration can start without running into what the runtime cannot do: a range
/// to iterate has both bounds, and an excluded integer start has a successor.
pub open spec fn iteration_start_defined(v: RuntimeView) -> bool {
    v.registers.len() >= 2 ==> match iteration_call(v.data, v.expression_starts, v.last_reg()) {
        Some(Ok(_)) => match v.left_operand() {
            DataView::Range(p) => p.start is Some && p.end is Some && (p.start_exclusive ==> match v.data[p.start->Some_0 as int] {
                DataView::Integer(n) => n < i32::MAX,
                _ => true,
            }),
            _ => true,
        },
        _ => true,
    }
}

/// The end of an input expression whose results an iteration iterates: the results
/// since it started become a list whose items are handed out.
pub open spec fn collected_iteration(v: RuntimeView) -> Step {
    let it = v.iterations.last();
    let ret = v.frames.last();
    let w = RuntimeView { frames: v.frames.drop_last(), iterations: v.iterations.drop_last(), ..v };
    let rs = it.collecting->Some_0;
    let items = v.results.subrange(if rs <= v.results.len() { rs as int } else { v.results.len() as int }, v.results.len() as int);
    if items.len() == 0 {
        (Ok(Some(ret)), empty_iteration(w, it.single_result, it.result))
    } else {
        let w1 = RuntimeView { data: w.data.push(DataView::List(items, association_keys(w.data, items))), ..w };
        let w2 = RuntimeView { lists: w1.lists.push(w1.registers.len() as usize), ..w1 };
        (Ok(Some(it.expression_start)), with_run(w2, Iteration {
            kind: IterationKind::Items,
            counter: 0,
            end: items.len() as usize,
            source: w.data.len() as usize,
            result_register: w.registers.len() as usize,
            frame_index: w.frames.len() as usize,
            collecting: None,
            ..it
        }, items[0], it.result, ret))
    }
}

/// The current expression ends in the frame of the most recent iteration.
pub open spec fn ends_iteration_frame(v: RuntimeView) -> bool {
    v.iterations.len() > 0 && v.frames.len() > 0 && v.frames.len() - 1 == v.iterations.last().frame_index
}

/// The frames up to and with that of the iteration `it`.
pub open spec fn frames_to(frames: Seq<usize>, it: Iteration) -> Seq<usize> {
    frames.subrange(0, if it.frame_index < frames.len() { it.frame_index + 1 } else { frames.len() as int })
}

/// Keeping the value in the register where the next result goes as a result of
/// the current run.
pub open spec fn iteration_output(v: RuntimeView) -> Step {
    if v.iterations.len() == 0 {
        (Ok(None), v)
    } else {
        let it = v.iterations.last();
        if it.result_register >= v.registers.len() {
            (Err(RuntimeError::NotEnoughRegisters), v)
        } else {
            (Ok(None), RuntimeView {
                iterations: v.iterations.update(v.iterations.len() - 1, Iteration { result_register: (it.result_register + 1) as usize, ..it }),
                ..v
            })
        }
    }
}

/// Skipping the rest of the current run, and its result, moving on to the next item.
pub open spec fn iteration_skipped(v: RuntimeView) -> Step {
    if v.iterations.len() == 0 || v.iterations.last().collecting is Some {
        (Err(RuntimeError::NoActiveIteration), v)
    } else {
        let it = v.iterations.last();
        if it.result_register == 0 {
            (Err(RuntimeError::NotEnoughRegisters), v)
        } else {
            reiterated(RuntimeView {
                frames: frames_to(v.frames, it),
                iterations: v.iterations.update(v.iterations.len() - 1, Iteration { result_register: (it.result_register - 1) as usize, ..it }),
                ..v
            })
        }
    }
}

/// Ending an iteration from within a run, keeping the run's last value as its last
/// result; nothing happens without an iteration.
pub open spec fn iteration_completed(v: RuntimeView) -> Step {
    if v.iterations.len() == 0 {
        (Ok(None), v)
    } else if v.iterations.last().collecting is Some {
        (Err(RuntimeError::NoActiveIteration), v)
    } else {
        let v1 = RuntimeView { frames: frames_to(v.frames, v.iterations.last()), ..v };
        match updated(v1) {
            None => (Err(RuntimeError::NotEnoughRegisters), v1),
            Some((w, it, ret)) => iteration_ended(w, it.single_result, ret),
        }
    }
}


impl ExpressionRuntime {
    /// Makes a new input associating `current` with `current` and `result` with `result`.
    fn push_input_list(&mut self, current: usize, result: usize)
        requires
            old(self)@.wf(),
            current < old(self)@.data.len(),
            result < old(self)@.data.len(),
            old(self)@.data.len() + 6 < usize::MAX,
        ensures
            final(self)@.wf(),
            final(self)@ == with_input_list(old(self)@, current, result),
    {
        let a = self.add_value(Data::Symbol(CURRENT_SYMBOL));
        let b = self.add_value(Data::Pair(a, current));
        let c = self.add_value(Data::Symbol(RESULT_SYMBOL));
        let d = self.add_value(Data::Pair(c, result));
        let mut items: Vec<usize> = Vec::new();
        items.push(b);
        items.push(d);
        let mut keys: Vec<usize> = Vec::new();
        keys.push(b);
        keys.push(d);
        assert(items@ =~= seq![b, d]);
        assert(keys@ =~= seq![b, d]);
        assert(refs_below(Data::List(items, keys)@, self@.data.len() as int));
        let p = self.add_value(Data::List(items, keys));
        self.push_input_ref(p);
        proof {
            let w = with_input_list(old(self)@, current, result);
            assert(final(self)@.data =~= w.data);
            assert(final(self)@ =~= w);
        }
    }

    /// Hands out the item at `current` to a new run of the iterated expression.
    fn start_run(&mut self, it: Iteration, current: usize, result: usize, ret: usize)
        requires
            old(self)@.wf(),
            current < old(self)@.data.len(),
            result < old(self)@.data.len(),
            old(self)@.data.len() + 6 < usize::MAX,
            iteration_wf(Iteration { current, ..it }, old(self)@.data),
        ensures
            final(self)@.wf(),
            final(self)@ == with_run(old(self)@, it, current, result, ret),
    {
        self.push_input_list(current, result);
        proof {
            let n = old(self)@.data.len();
            lemma_iteration_wf_extend(Iteration { current, ..it }, old(self)@.data, self@.data.subrange(n as int, self@.data.len() as int));
            assert(old(self)@.data + self@.data.subrange(n as int, self@.data.len() as int) =~= self@.data);
        }
        self.push_frame(ret);
        self.push_iteration(Iteration { current, ..it });
        proof {
            assert(final(self)@ =~= with_run(old(self)@, it, current, result, ret));
        }
    }

    /// Stores the character `c`, returning its position.
    fn store_character(&mut self, c: char) -> (p: usize)
        requires
            old(self)@.wf(),
            old(self)@.data.len() + 1 < usize::MAX,
        ensures
            final(self)@.wf(),
            final(self)@ == (RuntimeView { data: old(self)@.data.push(DataView::Character(c)), ..old(self)@ }),
            p == old(self)@.data.len(),
            p < final(self)@.data.len(),
            final(self)@.data.len() == old(self)@.data.len() + 1,
            forall|i: int| 0 <= i < old(self)@.data.len() ==> #[trigger] final(self)@.data[i] == old(self)@.data[i],
    {
        self.add_value(Data::Character(c))
    }

    /// Hands out item `k` of the list or character list at `source`, returning its position.
    fn store_item(&mut self, source: usize, k: usize) -> (cur: usize)
        requires
            old(self)@.wf(),
            source < old(self)@.data.len(),
            k < item_count(old(self)@.data[source as int]),
            old(self)@.data.len() + 1 < usize::MAX,
        ensures
            final(self)@.wf(),
            final(self)@ == with_item(old(self)@, source, k as int).0,
            cur == with_item(old(self)@, source, k as int).1,
            cur < final(self)@.data.len(),
            final(self)@.data.len() <= old(self)@.data.len() + 1,
            forall|i: int| 0 <= i < old(self)@.data.len() ==> #[trigger] final(self)@.data[i] == old(self)@.data[i],
    {
        let c: Option<char> = match self.get_data(source) {
            Data::CharacterList(cs) => Some(cs[k]),
            _ => None,
        };
        proof {
            crate::runtime::lemma_value_refs(self@, source as int);
        }
        let listed: usize = match self.get_data(source) {
            Data::List(items, _) => items[k],
            _ => 0,
        };
        match c {
            Some(ch) => self.store_character(ch),
            None => {
                assert(listed < self@.data.len());
                listed
            },
        }
    }

    /// Ends an iteration over nothing.
    fn finish_empty_iteration(&mut self, single: bool, result: usize)
        requires
            old(self)@.wf(),
            result < old(self)@.data.len(),
            old(self)@.data.len() + 1 < usize::MAX,
        ensures
            final(self)@.wf(),
            final(self)@ == empty_iteration(old(self)@, single, result),
    {
        if single {
            self.push_register(result);
        } else {
            let items: Vec<usize> = Vec::new();
            let keys: Vec<usize> = Vec::new();
            self.push_value(Data::List(items, keys));
        }
    }

    /// Ends the iteration just removed, continuing at `ret`.
    fn end_iteration(&mut self, single: bool, ret: usize) -> (r: Result<Option<usize>, RuntimeError>)
        requires
            old(self)@.wf(),
            old(self)@.registers.len() > 0,
            old(self)@.data.len() + 1 < usize::MAX,
        ensures
            final(self)@.wf(),
            r == iteration_ended(old(self)@, single, ret).0,
            final(self)@ == iteration_ended(old(self)@, single, ret).1,
    {
        if self.list_start_count() == 0 {
            return Err(RuntimeError::NoListStarted);
        }
        if single {
            let n = self.register_count();
            let result = self.get_register(n - 1);
            proof {
                crate::runtime::lemma_register_in_bounds(old(self)@, n - 1);
            }
            let start = self.pop_list_start().unwrap();
            let start = if start <= n { start } else { n };
            let _ = self.take_registers_from(start);
            self.push_register(result);
            proof {
                assert(final(self)@ =~= iteration_ended(old(self)@, single, ret).1);
            }
        } else {
            let _ = self.make_list();
        }
        Ok(Some(ret))
    }

    /// Keeps the last value of a run as the next result and drops the run's frame and
    /// input; returns the iteration, moved on, and where its frame would continue.
    fn update_iteration(&mut self) -> (r: Option<(Iteration, usize)>)
        requires
            old(self)@.wf(),
            old(self)@.iterations.len() > 0,
            old(self)@.iterations.last().collecting is None,
        ensures
            final(self)@.wf(),
            updated(old(self)@) is None ==> r is None && final(self)@ == old(self)@,
            updated(old(self)@) matches Some((w, it, ret)) ==> r == Some((it, ret)) && final(self)@ == w,
    {
        let it = self.last_iteration().unwrap();
        let n = self.register_count();
        if n == 0 || it.result_register > n {
            return None;
        }
        let last = self.get_register(n - 1);
        proof {
            crate::runtime::lemma_register_in_bounds(old(self)@, n - 1);
            assert(iteration_wf(old(self)@.iterations[old(self)@.iterations.len() - 1], old(self)@.data));
        }
        let _ = self.pop_iteration();
        let _ = self.take_registers_from(it.result_register);
        self.push_register(last);
        let ret = match self.pop_frame() {
            Some(f) => f,
            None => self.instruction_count(),
        };
        self.pop_input_ref();
        let counter = if it.kind == IterationKind::Items { it.counter + 1 } else { it.counter };
        let rr = self.register_count();
        proof {
            let (w, it2, ret2) = updated(old(self)@)->Some_0;
            assert(final(self)@ =~= w);
        }
        Some((Iteration { counter, result_register: rr, ..it }, ret))
    }
}

/// The value after `last` by `step` in a range ending at `end`, computed.
fn range_next_of(last: &Data, end: &Data, step: i32, end_exclusive: bool) -> (r: Result<Option<Data>, RuntimeError>)
    ensures
        match (r, range_next(last@, end@, step, end_exclusive)) {
            (Err(a), Err(b)) => a == b,
            (Ok(None), Ok(None)) => true,
            (Ok(Some(d)), Ok(Some(e))) => d@ == e && refs_below(d@, 0),
            _ => false,
        },
{
    match last {
        Data::Integer(x) => match end {
            Data::Integer(y) => {
                let next: i64 = *x as i64 + step as i64;
                if next < i32::MIN as i64 || next > i32::MAX as i64 {
                    Err(RuntimeError::ArithmeticError)
                } else if (end_exclusive && next >= *y as i64) || (!end_exclusive && next > *y as i64) {
                    Ok(None)
                } else {
                    Ok(Some(Data::Integer(next as i32)))
                }
            },
            _ => Err(RuntimeError::UnsupportedType),
        },
        Data::Character(c) => match end {
            Data::Character(e) => {
                let next: i64 = *c as u32 as i64 + step as i64;
                if next < 0 || next > u32::MAX as i64 {
                    return Ok(None);
                }
                match crate::cast::char_from_u32(next as u32) {
                    None => Ok(None),
                    Some(n) => {
                        proof {
                            vstd::utf8::char_u32_cast(n, next as u32);
                        }
                        if (end_exclusive && next >= *e as u32 as i64) || (!end_exclusive && next > *e as u32 as i64) {
                            Ok(None)
                        } else {
                            Ok(Some(Data::Character(n)))
                        }
                    },
                }
            },
            _ => Ok(None),
        },
        _ => Err(RuntimeError::UnsupportedType),
    }
}

/// The first value of a range that excludes its start `d`, computed.
fn value_after_of(d: &Data) -> (r: Result<Data, RuntimeError>)
    requires
        d@ matches DataView::Integer(n) ==> n < i32::MAX,
    ensures
        match (r, value_after(d@)) {
            (Err(a), Err(b)) => a == b,
            (Ok(x), Ok(y)) => x@ == y && refs_below(x@, 0),
            _ => false,
        },
{
    match d {
        Data::Integer(n) => Ok(Data::Integer(*n + 1)),
        Data::Character(c) => match crate::cast::char_from_u32(*c as u32 + 1) {
            None => Err(RuntimeError::UnsupportedType),
            Some(n) => {
                proof {
                    vstd::utf8::char_u32_cast(n, (*c as u32 + 1) as u32);
                }
                Ok(Data::Character(n))
            },
        },
        _ => Err(RuntimeError::UnsupportedType),
    }
}

impl ExpressionRuntime {
    /// The next run of an iteration over items, or its end.
    fn next_item(&mut self, it: Iteration, ret: usize) -> (r: Result<Option<usize>, RuntimeError>)
        requires
            old(self)@.wf(),
            old(self)@.registers.len() > 0,
            old(self)@.data.len() + 8 < usize::MAX,
            it.kind == IterationKind::Items,
            it.collecting is None,
            it.source < old(self)@.data.len(),
            it.result < old(self)@.data.len(),
            it.end == item_count(old(self)@.data[it.source as int]),
            it.counter <= it.end,
        ensures
            final(self)@.wf(),
            r == items_reiterated(old(self)@, it, ret).0,
            final(self)@ == items_reiterated(old(self)@, it, ret).1,
    {
        if it.counter >= it.end {
            return self.end_iteration(it.single_result, ret);
        }
        let n = self.register_count();
        let last = self.get_register(n - 1);
        proof {
            crate::runtime::lemma_register_in_bounds(old(self)@, n - 1);
        }
        let cur = self.store_item(it.source, it.counter);
        proof {
            assert(self@.data[it.source as int] == old(self)@.data[it.source as int]);
            assert(iteration_wf(Iteration { current: cur, ..it }, self@.data));
        }
        self.start_run(it, cur, last, ret);
        Ok(Some(it.expression_start))
    }

    /// The next run of an iteration over a range, or its end.
    fn next_range_value(&mut self, it: Iteration, ret: usize) -> (r: Result<Option<usize>, RuntimeError>)
        requires
            old(self)@.wf(),
            old(self)@.registers.len() > 0,
            old(self)@.data.len() + 8 < usize::MAX,
            it.kind == IterationKind::Range,
            it.collecting is None,
            iteration_wf(it, old(self)@.data),
        ensures
            final(self)@.wf(),
            r == range_reiterated(old(self)@, it, ret).0,
            final(self)@ == range_reiterated(old(self)@, it, ret).1,
    {
        proof {
            crate::runtime::lemma_value_refs(self@, it.source as int);
        }
        let p = match self.get_data(it.source) {
            Data::Range(p) => *p,
            _ => {
                self.push_iteration(it);
                return Err(RuntimeError::UnsupportedType);
            },
        };
        let step: i32 = match p.step {
            None => 1,
            Some(st) => match self.get_data(st) {
                Data::Integer(k) => *k,
                _ => {
                    self.push_iteration(it);
                    return Err(RuntimeError::UnsupportedType);
                },
            },
        };
        let end = p.end.unwrap();
        let next = range_next_of(self.get_data(it.current), self.get_data(end), step, p.end_exclusive);
        match next {
            Err(e) => {
                self.push_iteration(it);
                Err(e)
            },
            Ok(None) => self.end_iteration(it.single_result, ret),
            Ok(Some(d)) => {
                let n = self.register_count();
                let last = self.get_register(n - 1);
                proof {
                    crate::runtime::lemma_register_in_bounds(old(self)@, n - 1);
                }
                let cur = self.add_value(d);
                proof {
                    lemma_iteration_wf_extend(it, old(self)@.data, seq![d@]);
                    assert(old(self)@.data + seq![d@] =~= self@.data);
                    assert(iteration_wf(Iteration { current: cur, ..it }, self@.data));
                }
                self.start_run(it, cur, last, ret);
                Ok(Some(it.expression_start))
            },
        }
    }

    /// Moves the most recent iteration on after a run of its expression: the run's
    /// last value becomes a result, and the expression runs for the next item or the
    /// iteration ends, continuing after the instruction that started it.
    pub fn perform_reiterate(&mut self) -> (r: Result<Option<usize>, RuntimeError>)
        requires
            old(self)@.wf(),
            old(self)@.data.len() + 8 < usize::MAX,
        ensures
            final(self)@.wf(),
            r == reiterated(old(self)@).0,
            final(self)@ == reiterated(old(self)@).1,
    {
        match self.last_iteration() {
            None => return Err(RuntimeError::NoActiveIteration),
            Some(it) => if it.collecting.is_some() {
                return Err(RuntimeError::NoActiveIteration);
            },
        }
        proof {
            assert(iteration_wf(old(self)@.iterations[old(self)@.iterations.len() - 1], old(self)@.data));
        }
        let (it, ret) = match self.update_iteration() {
            None => return Err(RuntimeError::NotEnoughRegisters),
            Some(x) => x,
        };
        match it.kind {
            IterationKind::Items => self.next_item(it, ret),
            IterationKind::Range => self.next_range_value(it, ret),
        }
    }
}

impl ExpressionRuntime {
    /// What iterating calls for each item, given the value at `right`, computed.
    fn iteration_call_of(&self, right: usize) -> (c: Option<Result<(usize, usize), RuntimeError>>)
        requires
            self@.wf(),
            right < self@.data.len(),
        ensures
            c == iteration_call(self@.data, self@.expression_starts, right),
            c matches Some(Ok((_, result))) ==> result < self@.data.len(),
    {
        proof {
            crate::runtime::lemma_value_refs(self@, right as int);
        }
        let (index, result): (usize, usize) = match self.get_data(right) {
            Data::Expression(i) => (*i, 0),
            Data::Partial(b, value) => match self.get_data(*b) {
                Data::Expression(i) => (*i, *value),
                _ => return None,
            },
            _ => return None,
        };
        match self.get_expression_start(index) {
            Some(s) => Some(Ok((s, result))),
            None => Some(Err(RuntimeError::ExpressionNotFound)),
        }
    }

    /// Whether an iteration can start, computed.
    pub fn iteration_start_defined_of(&self) -> (b: bool)
        requires
            self@.wf(),
        ensures
            b == iteration_start_defined(self@),
    {
        let n = self.register_count();
        if n < 2 {
            return true;
        }
        let right = self.get_register(n - 1);
        let left = self.get_register(n - 2);
        proof {
            crate::runtime::lemma_register_in_bounds(self@, n - 1);
            crate::runtime::lemma_register_in_bounds(self@, n - 2);
            crate::runtime::lemma_value_refs(self@, left as int);
        }
        match self.iteration_call_of(right) {
            Some(Ok(_)) => match self.get_data(left) {
                Data::Range(p) => match (p.start, p.end) {
                    (Some(s), Some(_)) => {
                        if p.start_exclusive {
                            match self.get_data(s) {
                                Data::Integer(k) => *k < i32::MAX,
                                _ => true,
                            }
                        } else {
                            true
                        }
                    },
                    _ => false,
                },
                _ => true,
            },
            _ => true,
        }
    }

    /// Starts iterating the range `p` at `record.source`.
    fn begin_range(&mut self, record: Iteration, p: crate::data::RangeParts, ret: usize) -> (r: Result<Option<usize>, RuntimeError>)
        requires
            old(self)@.wf(),
            old(self)@.data.len() + 8 < usize::MAX,
            record.source < old(self)@.data.len(),
            record.result < old(self)@.data.len(),
            record.collecting is None,
            old(self)@.data[record.source as int] == DataView::Range(p),
            p.start is Some,
            p.end is Some,
            p.start_exclusive ==> (old(self)@.data[p.start->Some_0 as int] matches DataView::Integer(n) ==> n < i32::MAX),
        ensures
            final(self)@.wf(),
            r == range_begun(old(self)@, record, p, ret).0,
            final(self)@ == range_begun(old(self)@, record, p, ret).1,
    {
        proof {
            crate::runtime::lemma_value_refs(self@, record.source as int);
        }
        self.start_list();
        let s = p.start.unwrap();
        let it = Iteration { kind: IterationKind::Range, ..record };
        if !p.start_exclusive {
            self.start_run(it, s, record.result, ret);
            return Ok(Some(record.expression_start));
        }
        match value_after_of(self.get_data(s)) {
            Err(e) => Err(e),
            Ok(d) => {
                let ghost before = self@;
                let cur = self.add_value(d);
                proof {
                    assert(before.data + seq![d@] =~= self@.data);
                    assert(self@.data[record.source as int] == before.data[record.source as int]);
                }
                self.start_run(Iteration { counter: 1, ..it }, cur, record.result, ret);
                Ok(Some(record.expression_start))
            },
        }
    }

    /// Starts an iteration over the value at `left`.
    fn begin_iteration(&mut self, single: bool, start: usize, result: usize, left: usize, ret: usize) -> (r: Result<Option<usize>, RuntimeError>)
        requires
            old(self)@.wf(),
            old(self)@.data.len() + 8 < usize::MAX,
            left < old(self)@.data.len(),
            result < old(self)@.data.len(),
            old(self)@.data[left as int] matches DataView::Range(p) ==> p.start is Some && p.end is Some
                && (p.start_exclusive ==> (old(self)@.data[p.start->Some_0 as int] matches DataView::Integer(n) ==> n < i32::MAX)),
        ensures
            final(self)@.wf(),
            r == iteration_begun(old(self)@, single, start, result, left, ret).0,
            final(self)@ == iteration_begun(old(self)@, single, start, result, left, ret).1,
    {
        let record = Iteration {
            kind: IterationKind::Items,
            single_result: single,
            expression_start: start,
            counter: 0,
            end: 0,
            source: left,
            current: left,
            result,
            result_register: self.register_count(),
            frame_index: self.frame_count(),
            collecting: None,
        };
        let (is_items, count): (bool, usize) = match self.get_data(left) {
            Data::List(items, _) => (true, items.len()),
            Data::CharacterList(cs) => (true, cs.len()),
            _ => (false, 0),
        };
        if is_items {
            if count == 0 {
                self.finish_empty_iteration(single, result);
                return Ok(None);
            }
            self.start_list();
            let cur = self.store_item(left, 0);
            proof {
                assert(self@.data[left as int] == old(self)@.data[left as int]);
            }
            self.start_run(Iteration { end: count, ..record }, cur, result, ret);
            return Ok(Some(start));
        }
        let input: Option<usize> = match self.get_data(left) {
            Data::Expression(i) => Some(*i),
            _ => None,
        };
        if let Some(i) = input {
            return match self.get_expression_start(i) {
                None => Err(RuntimeError::ExpressionNotFound),
                Some(s) => {
                    let rc = self.result_count();
                    self.push_iteration(Iteration { source: 0, current: 0, collecting: Some(rc), ..record });
                    self.push_frame(ret);
                    self.push_unit_input();
                    proof {
                        assert(final(self)@ =~= iteration_begun(old(self)@, single, start, result, left, ret).1);
                    }
                    Ok(Some(s))
                },
            };
        }
        let range: Option<crate::data::RangeParts> = match self.get_data(left) {
            Data::Range(p) => Some(*p),
            _ => None,
        };
        match range {
            Some(p) => self.begin_range(record, p, ret),
            None => {
                self.push_value(Data::Unit);
                Ok(None)
            },
        }
    }

    /// Iterates the value in the second-to-last register with the expression in the
    /// last register, both removed: a list or character list by item, a range by
    /// value from its start by its step, an expression by the results it gives. The
    /// expression is an expression value, with unit as the initial result, or one
    /// partially applied to the initial result. Each run gets as input a list
    /// associating `current` with the item and `result` with the result so far; when
    /// the items run out, the results become a list, or with `single_result` only
    /// the last one remains. Values that cannot be iterated, or with, give unit.
    pub fn perform_iterate_to_result(&mut self, single_result: bool) -> (r: Result<Option<usize>, RuntimeError>)
        requires
            old(self)@.wf(),
            old(self)@.data.len() + 8 < usize::MAX,
            old(self)@.cursor < usize::MAX,
            iteration_start_defined(old(self)@),
        ensures
            final(self)@.wf(),
            r == iteration_started(old(self)@, single_result).0,
            final(self)@ == iteration_started(old(self)@, single_result).1,
    {
        let ret = self.get_instruction_cursor() + 1;
        let (left, right) = match self.consume_last_two_refs() {
            Err(e) => return Err(e),
            Ok(x) => x,
        };
        proof {
            crate::runtime::lemma_register_in_bounds(old(self)@, old(self)@.registers.len() - 1);
            crate::runtime::lemma_register_in_bounds(old(self)@, old(self)@.registers.len() - 2);
        }
        let (start, result) = match self.iteration_call_of(right) {
            None => {
                self.push_value(Data::Unit);
                return Ok(None);
            },
            Some(Err(e)) => return Err(e),
            Some(Ok(x)) => x,
        };
        self.begin_iteration(single_result, start, result, left, ret)
    }

    /// Iterates, giving the list of results.
    pub fn perform_iterate(&mut self) -> (r: Result<Option<usize>, RuntimeError>)
        requires
            old(self)@.wf(),
            old(self)@.data.len() + 8 < usize::MAX,
            old(self)@.cursor < usize::MAX,
            iteration_start_defined(old(self)@),
        ensures
            final(self)@.wf(),
            r == iteration_started(old(self)@, false).0,
            final(self)@ == iteration_started(old(self)@, false).1,
    {
        self.perform_iterate_to_result(false)
    }

    /// Iterates, giving only the last result.
    pub fn perform_iterate_to_single_result(&mut self) -> (r: Result<Option<usize>, RuntimeError>)
        requires
            old(self)@.wf(),
            old(self)@.data.len() + 8 < usize::MAX,
            old(self)@.cursor < usize::MAX,
            iteration_start_defined(old(self)@),
        ensures
            final(self)@.wf(),
            r == iteration_started(old(self)@, true).0,
            final(self)@ == iteration_started(old(self)@, true).1,
    {
        self.perform_iterate_to_result(true)
    }
}

impl ExpressionRuntime {
    /// Whether the current expression ends in the frame of the most recent iteration.
    pub fn ends_iteration_frame_of(&self) -> (b: bool)
        ensures
            b == ends_iteration_frame(self@),
    {
        match self.last_iteration() {
            None => false,
            Some(it) => {
                let n = self.frame_count();
                n > 0 && n - 1 == it.frame_index
            },
        }
    }

    /// Ends the input expression of an iteration: its results become the items the
    /// iteration hands out, to the iterated expression, from the first on.
    pub fn iteration_expression_end(&mut self) -> (r: Result<Option<usize>, RuntimeError>)
        requires
            old(self)@.wf(),
            old(self)@.data.len() + 8 < usize::MAX,
            old(self)@.iterations.len() > 0,
            old(self)@.iterations.last().collecting is Some,
            old(self)@.frames.len() > 0,
        ensures
            final(self)@.wf(),
            r == collected_iteration(old(self)@).0,
            final(self)@ == collected_iteration(old(self)@).1,
    {
        proof {
            assert(iteration_wf(old(self)@.iterations[old(self)@.iterations.len() - 1], old(self)@.data));
        }
        let it = self.pop_iteration().unwrap();
        let ret = self.pop_frame().unwrap();
        let rs = it.collecting.unwrap();
        let count = self.result_count();
        let rs = if rs <= count { rs } else { count };
        let items = self.results_from(rs);
        if items.len() == 0 {
            self.finish_empty_iteration(it.single_result, it.result);
            return Ok(Some(ret));
        }
        let first = items[0];
        let n = items.len();
        let regs = self.register_count();
        let frames = self.frame_count();
        proof {
            assert forall|k: int| 0 <= k < items@.len() implies #[trigger] items@[k] < self@.data.len() by {
                assert(self@.results[rs + k] < self@.data.len());
            }
        }
        let keys = self.association_keys_of(&items);
        proof {
            crate::lists::lemma_association_keys_below(self@.data, items@, self@.data.len() as int);
        }
        let ghost before = self@;
        let ghost iv = items@;
        let ghost kv = keys@;
        let list = self.add_value(Data::List(items, keys));
        self.start_list();
        proof {
            assert(self@.data == before.data.push(DataView::List(iv, kv)));
            assert(self@.data[list as int] == DataView::List(iv, kv));
            assert(item_count(self@.data[list as int]) == n);
            assert(it.result < self@.data.len());
        }
        self.start_run(Iteration {
            kind: IterationKind::Items,
            counter: 0,
            end: n,
            source: list,
            result_register: regs,
            frame_index: frames,
            collecting: None,
            ..it
        }, first, it.result, ret);
        Ok(Some(it.expression_start))
    }

    /// Keeps the value in the register where the next result goes as a result of the
    /// current run; later values of the run go after it.
    pub fn perform_iteration_output(&mut self) -> (r: Result<Option<usize>, RuntimeError>)
        requires
            old(self)@.wf(),
        ensures
            final(self)@.wf(),
            r == iteration_output(old(self)@).0,
            final(self)@ == iteration_output(old(self)@).1,
    {
        match self.last_iteration() {
            None => Ok(None),
            Some(it) => {
                if it.result_register >= self.register_count() {
                    return Err(RuntimeError::NotEnoughRegisters);
                }
                proof {
                    assert(iteration_wf(old(self)@.iterations[old(self)@.iterations.len() - 1], old(self)@.data));
                }
                self.set_last_iteration(Iteration { result_register: it.result_register + 1, ..it });
                Ok(None)
            },
        }
    }

    /// Moves the most recent iteration on from within a run.
    pub fn perform_iteration_continue(&mut self) -> (r: Result<Option<usize>, RuntimeError>)
        requires
            old(self)@.wf(),
            old(self)@.data.len() + 8 < usize::MAX,
        ensures
            final(self)@.wf(),
            r == reiterated(old(self)@).0,
            final(self)@ == reiterated(old(self)@).1,
    {
        self.perform_reiterate()
    }

    /// Leaves the current run without a result and moves the iteration on.
    pub fn perform_iteration_skip(&mut self) -> (r: Result<Option<usize>, RuntimeError>)
        requires
            old(self)@.wf(),
            old(self)@.data.len() + 8 < usize::MAX,
        ensures
            final(self)@.wf(),
            r == iteration_skipped(old(self)@).0,
            final(self)@ == iteration_skipped(old(self)@).1,
    {
        let it = match self.last_iteration() {
            None => return Err(RuntimeError::NoActiveIteration),
            Some(it) => it,
        };
        if it.collecting.is_some() {
            return Err(RuntimeError::NoActiveIteration);
        }
        if it.result_register == 0 {
            return Err(RuntimeError::NotEnoughRegisters);
        }
        proof {
            assert(iteration_wf(old(self)@.iterations[old(self)@.iterations.len() - 1], old(self)@.data));
        }
        self.set_last_iteration(Iteration { result_register: it.result_register - 1, ..it });
        let fc = self.frame_count();
        if it.frame_index < fc {
            self.truncate_frames(it.frame_index + 1);
        }
        proof {
            let v = old(self)@;
            assert(self@ =~= (RuntimeView {
                frames: frames_to(v.frames, it),
                iterations: v.iterations.update(v.iterations.len() - 1, Iteration { result_register: (it.result_register - 1) as usize, ..it }),
                ..v
            }));
        }
        self.perform_reiterate()
    }

    /// Ends the most recent iteration from within a run, keeping the run's last value
    /// as its last result. Without an iteration nothing happens.
    pub fn perform_iteration_complete(&mut self) -> (r: Result<Option<usize>, RuntimeError>)
        requires
            old(self)@.wf(),
            old(self)@.data.len() + 8 < usize::MAX,
        ensures
            final(self)@.wf(),
            r == iteration_completed(old(self)@).0,
            final(self)@ == iteration_completed(old(self)@).1,
    {
        let it = match self.last_iteration() {
            None => return Ok(None),
            Some(it) => it,
        };
        if it.collecting.is_some() {
            return Err(RuntimeError::NoActiveIteration);
        }
        let fc = self.frame_count();
        if it.frame_index < fc {
            self.truncate_frames(it.frame_index + 1);
        }
        proof {
            let v = old(self)@;
            assert(self@ =~= (RuntimeView { frames: frames_to(v.frames, it), ..v }));
        }
        match self.update_iteration() {
            None => Err(RuntimeError::NotEnoughRegisters),
            Some((it2, ret)) => self.end_iteration(it2.single_result, ret),
        }
    }
}

/// Iterating an empty list runs nothing: the list of results is empty, and the
/// single result is the initial result.
pub proof fn law_iteration_over_empty_list(v: RuntimeView, start: usize, result: usize, keys: Seq<usize>)
    requires
        v.wf(),
        v.registers.len() >= 2,
        iteration_call(v.data, v.expression_starts, v.last_reg()) == Some(Ok::<(usize, usize), RuntimeError>((start, result))),
        v.left_operand() == DataView::List(Seq::empty(), keys),
    ensures
        iteration_started(v, false) == (Ok::<Option<usize>, RuntimeError>(None),
            v.with_consumed(2).with_pushed(DataView::List(Seq::empty(), Seq::empty()))),
        iteration_started(v, true) == (Ok::<Option<usize>, RuntimeError>(None), v.with_consumed(2).with_register(result)),
{
}

/// Iterating a list with items runs the expression for its first item: the new
/// input associates `current` with that item and `result` with the initial result,
/// and the expression's frame continues after the current instruction.
pub proof fn law_iteration_hands_out_first_item(v: RuntimeView, single: bool, start: usize, result: usize,
    items: Seq<usize>, keys: Seq<usize>)
    requires
        v.wf(),
        v.registers.len() >= 2,
        iteration_call(v.data, v.expression_starts, v.last_reg()) == Some(Ok::<(usize, usize), RuntimeError>((start, result))),
        v.left_operand() == DataView::List(items, keys),
        items.len() > 0,
        v.data.len() + 8 < usize::MAX,
        v.cursor < usize::MAX,
    ensures
        ({
            let (r, after) = iteration_started(v, single);
            let n = v.data.len() as int;
            &&& r == Ok::<Option<usize>, RuntimeError>(Some(start))
            &&& after.frames == v.frames.push((v.cursor + 1) as usize)
            &&& after.iterations.len() == v.iterations.len() + 1
            &&& after.inputs.last() == n + 4
            &&& after.data[n] == DataView::Symbol(CURRENT_SYMBOL)
            &&& after.data[n + 1] == DataView::Pair(n as usize, items[0])
            &&& after.data[n + 2] == DataView::Symbol(RESULT_SYMBOL)
            &&& after.data[n + 3] == DataView::Pair((n + 2) as usize, result)
        }),
{
    let w = v.with_consumed(2);
    let w1 = RuntimeView { lists: w.lists.push(w.registers.len() as usize), ..w };
    let left = v.second_last_reg();
    assert(w1.data[left as int] == DataView::List(items, keys));
    assert(with_item(w1, left, 0) == (w1, items[0]));
    let after = with_input_list(w1, items[0], result);
    assert(after.data[v.data.len() as int + 1] == DataView::Pair(v.data.len() as usize, items[0]));
}

/// After the run for the last item of a list, the iteration ends: it is no longer
/// tracked, and execution continues where its frame said.
pub proof fn law_iteration_ends_after_last_item(v: RuntimeView)
    requires
        v.wf(),
        v.iterations.len() > 0,
        v.iterations.last().collecting is None,
        v.iterations.last().kind == IterationKind::Items,
        v.iterations.last().counter + 1 == v.iterations.last().end,
        v.registers.len() > 0,
        v.iterations.last().result_register <= v.registers.len(),
        v.lists.len() > 0,
        v.frames.len() > 0,
    ensures
        reiterated(v).0 == Ok::<Option<usize>, RuntimeError>(Some(v.frames.last())),
        reiterated(v).1.iterations == v.iterations.drop_last(),
{
}

/// After the run for an item of a list that is not the last, the expression runs for
/// the next item, with the value the run left as the result so far.
pub proof fn law_iteration_hands_out_next_item(v: RuntimeView, items: Seq<usize>, keys: Seq<usize>)
    requires
        v.wf(),
        v.iterations.len() > 0,
        v.iterations.last().collecting is None,
        v.iterations.last().kind == IterationKind::Items,
        v.iterations.last().counter + 1 < v.iterations.last().end,
        v.data[v.iterations.last().source as int] == DataView::List(items, keys),
        v.registers.len() > 0,
        v.iterations.last().result_register <= v.registers.len(),
        v.data.len() + 8 < usize::MAX,
    ensures
        ({
            let it = v.iterations.last();
            let (r, after) = reiterated(v);
            let n = v.data.len() as int;
            &&& r == Ok::<Option<usize>, RuntimeError>(Some(it.expression_start))
            &&& after.data[n + 1] == DataView::Pair(n as usize, items[it.counter + 1])
            &&& after.data[n + 3] == DataView::Pair((n + 2) as usize, v.registers.last())
            &&& after.inputs.last() == n + 4
            &&& after.registers == v.registers.subrange(0, it.result_register as int).push(v.registers.last())
        }),
{
    assert(iteration_wf(v.iterations[v.iterations.len() - 1], v.data));
    let (w, it, ret) = updated(v)->Some_0;
    assert(w.data == v.data);
    assert(w.registers.last() == v.registers.last());
    assert(with_item(w, it.source, it.counter as int) == (w, items[it.counter as int]));
    let after = with_input_list(w, items[it.counter as int], w.registers.last());
    assert(after.data[v.data.len() as int + 1] == DataView::Pair(v.data.len() as usize, items[it.counter as int]));
    assert(after.data[v.data.len() as int + 3] == DataView::Pair((v.data.len() + 2) as usize, v.registers.last()));
}
} // verus!
