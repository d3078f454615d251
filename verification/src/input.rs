use vstd::prelude::*;
use crate::data::{Data, DataView, RangeParts, opt_below, refs_below, seq_below};
use crate::runtime::{ExpressionRuntime, RuntimeError, RuntimeView, data_view_seq, named_seq, data_wf, stored_refs_ok,
    symbol_name, symbol_value};

verus! {

/// A value handed to the runtime from outside, with the values it is made of:
/// positions it holds refer to entries of its own data, the value itself is the last
/// entry, and its symbols are named by its own symbol table.
pub struct ExpressionValue {
    data: Vec<Data>,
    symbols: Vec<(String, u64)>,
}

impl ExpressionValue {
    /// The values, the last of which is the value itself.
    pub closed spec fn data_of(&self) -> Seq<DataView> {
        data_view_seq(self.data@)
    }

    /// The names of the symbols the values use.
    pub closed spec fn symbols_of(&self) -> Seq<(Seq<char>, u64)> {
        named_seq(self.symbols@)
    }

    /// The value made of `data`, the last entry being the value itself, with the
    /// symbol names `symbols`.
    pub fn new(data: Vec<Data>, symbols: Vec<(String, u64)>) -> (v: ExpressionValue)
        ensures
            v.data_of() == data_view_seq(data@),
            v.symbols_of() == named_seq(symbols@),
    {
        ExpressionValue { data, symbols }
    }
}

/// A value's data is well formed: there is a value, and each entry refers only to
/// entries of the data as stored values do.
pub open spec fn value_wf(vd: Seq<DataView>) -> bool {
    vd.len() > 0 && data_wf(vd)
}

/// The position `p` moved up by `n`.
pub open spec fn shifted(p: usize, n: usize) -> usize {
    (p + n) as usize
}

/// An optional position moved up by `n`.
pub open spec fn shifted_opt(o: Option<usize>, n: usize) -> Option<usize> {
    match o {
        Some(p) => Some(shifted(p, n)),
        None => None,
    }
}

/// Positions moved up by `n`.
pub open spec fn shifted_seq(s: Seq<usize>, n: usize) -> Seq<usize> {
    s.map_values(|p: usize| shifted(p, n))
}

/// The symbol a value's symbol `s` becomes in the runtime: the runtime's own symbol
/// for the same name where it has one, else `s` itself.
pub open spec fn merged_symbol(runtime: Seq<(Seq<char>, u64)>, value: Seq<(Seq<char>, u64)>, s: u64) -> u64 {
    match symbol_name(value, s) {
        Some(name) => match symbol_value(runtime, name) {
            Some(m) => m,
            None => s,
        },
        None => s,
    }
}

/// A value's entry `d` as stored `n` places further in the runtime: its positions
/// moved up by `n` and its symbols taken over into the runtime's.
pub open spec fn relocated(d: DataView, n: usize, runtime: Seq<(Seq<char>, u64)>, value: Seq<(Seq<char>, u64)>) -> DataView {
    match d {
        DataView::Symbol(s) => DataView::Symbol(merged_symbol(runtime, value, s)),
        DataView::ExternalMethod(s) => DataView::ExternalMethod(merged_symbol(runtime, value, s)),
        DataView::Pair(l, r) => DataView::Pair(shifted(l, n), shifted(r, n)),
        DataView::Partial(b, v) => DataView::Partial(shifted(b, n), shifted(v, n)),
        DataView::Range(p) => DataView::Range(RangeParts {
            start: shifted_opt(p.start, n),
            end: shifted_opt(p.end, n),
            step: shifted_opt(p.step, n),
            ..p
        }),
        DataView::Slice(src, r) => DataView::Slice(shifted(src, n), shifted(r, n)),
        DataView::List(items, keys) => DataView::List(shifted_seq(items, n), shifted_seq(keys, n)),
        DataView::Link(h, v, next) => DataView::Link(shifted_opt(h, n), shifted(v, n), shifted_opt(next, n)),
        _ => d,
    }
}

/// All of a value's entries as stored `n` places further in the runtime.
pub open spec fn relocated_all(vd: Seq<DataView>, n: usize, runtime: Seq<(Seq<char>, u64)>,
    value: Seq<(Seq<char>, u64)>) -> Seq<DataView> {
    vd.map_values(|d: DataView| relocated(d, n, runtime, value))
}

/// The runtime's symbol table with the value's names it lacks added, in order.
pub open spec fn merged_symbols(runtime: Seq<(Seq<char>, u64)>, value: Seq<(Seq<char>, u64)>) -> Seq<(Seq<char>, u64)>
    decreases value.len(),
{
    if value.len() == 0 {
        runtime
    } else {
        let acc = merged_symbols(runtime, value.drop_last());
        if symbol_value(acc, value.last().0) is None {
            acc.push(value.last())
        } else {
            acc
        }
    }
}

/// An entry that refers well within a value refers well within the runtime once
/// moved up past the runtime's values.
proof fn lemma_relocated_ok(d: DataView, j: int, m: int, n: usize, rs: Seq<(Seq<char>, u64)>, vs: Seq<(Seq<char>, u64)>)
    requires
        0 <= j < m,
        n + m < usize::MAX,
        stored_refs_ok(d, j, m),
    ensures
        stored_refs_ok(relocated(d, n, rs, vs), n + j, n + m),
{
    match d {
        DataView::List(items, keys) => {
            assert forall|k: int| 0 <= k < shifted_seq(items, n).len() implies #[trigger] shifted_seq(items, n)[k] < n + j by {
                assert(items[k] < j);
            }
            assert forall|k: int| 0 <= k < shifted_seq(keys, n).len() implies #[trigger] shifted_seq(keys, n)[k] < n + j by {
                assert(keys[k] < j);
            }
        },
        _ => {},
    }
}

/// The name registered first for the symbol `s` in the table `table`, if any.
fn symbol_name_in(table: &Vec<(String, u64)>, s: u64) -> (name: Option<&String>)
    ensures
        match name {
            Some(n) => symbol_name(named_seq(table@), s) == Some(n@),
            None => symbol_name(named_seq(table@), s) is None,
        },
{
    let ghost syms = named_seq(table@);
    assert(syms.subrange(0, syms.len() as int) =~= syms);
    let mut k: usize = 0;
    while k < table.len()
        invariant
            syms == named_seq(table@),
            k <= syms.len(),
            symbol_name(syms, s) == symbol_name(syms.subrange(k as int, syms.len() as int), s),
        decreases syms.len() - k,
    {
        assert(syms.subrange(k as int, syms.len() as int).drop_first() =~= syms.subrange(k + 1, syms.len() as int));
        if table[k].1 == s {
            return Some(&table[k].0);
        }
        k = k + 1;
    }
    None
}

/// Positions moved up by `n`.
fn shifted_vec(v: &Vec<usize>, n: usize, bound: usize) -> (w: Vec<usize>)
    requires
        seq_below(v@, bound as int),
        n + bound < usize::MAX,
    ensures
        w@ == shifted_seq(v@, n),
{
    let mut w: Vec<usize> = Vec::new();
    let mut k: usize = 0;
    while k < v.len()
        invariant
            k <= v@.len(),
            seq_below(v@, bound as int),
            n + bound < usize::MAX,
            w@ == shifted_seq(v@.subrange(0, k as int), n),
        decreases v@.len() - k,
    {
        assert(v@[k as int] < bound);
        w.push(v[k] + n);
        assert(v@.subrange(0, k + 1) =~= v@.subrange(0, k as int).push(v@[k as int]));
        assert(w@ =~= shifted_seq(v@.subrange(0, k + 1), n));
        k = k + 1;
    }
    assert(v@.subrange(0, v@.len() as int) =~= v@);
    w
}

/// An optional position moved up by `n`.
fn shifted_option(o: Option<usize>, n: usize, bound: usize) -> (r: Option<usize>)
    requires
        opt_below(o, bound as int),
        n + bound < usize::MAX,
    ensures
        r == shifted_opt(o, n),
{
    match o {
        Some(p) => Some(p + n),
        None => None,
    }
}

/// Whether the entry `d` at `j` refers well within data of length `m`.
fn stored_refs_ok_of(d: &Data, j: usize, m: usize) -> (b: bool)
    ensures
        b == stored_refs_ok(d@, j as int, m as int),
{
    match d {
        Data::Link(h, v, next) => {
            (match h { Some(x) => *x < j, None => true }) && *v < j && (match next {
                Some(x) => j < *x && *x < m,
                None => true,
            })
        },
        _ => d.has_refs_below(j),
    }
}

impl ExpressionRuntime {
    /// The symbol a value's symbol `s` becomes in this runtime.
    fn merged_symbol_of(&self, value: &ExpressionValue, s: u64) -> (m: u64)
        ensures
            m == merged_symbol(self@.symbols, value.symbols_of(), s),
    {
        match symbol_name_in(&value.symbols, s) {
            Some(name) => match self.symbol_value_of(name) {
                Some(m) => m,
                None => s,
            },
            None => s,
        }
    }

    /// The entry `d` of `value`, at a position below `m`, as stored `n` places further.
    fn relocated_of(&self, d: &Data, j: usize, m: usize, n: usize, value: &ExpressionValue) -> (r: Data)
        requires
            stored_refs_ok(d@, j as int, m as int),
            j < m,
            n + m < usize::MAX,
        ensures
            r@ == relocated(d@, n, self@.symbols, value.symbols_of()),
    {
        match d {
            Data::Symbol(s) => Data::Symbol(self.merged_symbol_of(value, *s)),
            Data::ExternalMethod(s) => Data::ExternalMethod(self.merged_symbol_of(value, *s)),
            Data::Pair(l, r) => Data::Pair(*l + n, *r + n),
            Data::Partial(b, v) => Data::Partial(*b + n, *v + n),
            Data::Range(p) => Data::Range(RangeParts {
                start_exclusive: p.start_exclusive,
                end_exclusive: p.end_exclusive,
                start: shifted_option(p.start, n, m),
                end: shifted_option(p.end, n, m),
                step: shifted_option(p.step, n, m),
            }),
            Data::Slice(src, r) => Data::Slice(*src + n, *r + n),
            Data::List(items, keys) => {
                assert forall|k: int| 0 <= k < items@.len() implies #[trigger] items@[k] < m by {
                    assert(items@[k] < j);
                }
                assert forall|k: int| 0 <= k < keys@.len() implies #[trigger] keys@[k] < m by {
                    assert(keys@[k] < j);
                }
                Data::List(shifted_vec(items, n, m), shifted_vec(keys, n, m))
            },
            Data::Link(h, v, next) => Data::Link(shifted_option(*h, n, m), *v + n, shifted_option(*next, n, m)),
            _ => d.copy(),
        }
    }

    /// Stores `value`, with the values it is made of, after the stored values and makes
    /// it the current input: positions it holds are moved up past the stored values,
    /// and its symbols are taken over, a name the runtime already knows by the
    /// runtime's symbol, a new name with its own. Fails, changing nothing, when the
    /// value's data is empty or refers to entries it does not hold as stored values may.
    pub fn set_input(&mut self, value: &ExpressionValue) -> (r: Result<(), RuntimeError>)
        requires
            old(self)@.wf(),
            old(self)@.data.len() + value.data_of().len() < usize::MAX,
        ensures
            final(self)@.wf(),
            !value_wf(value.data_of()) ==> r == Err::<(), RuntimeError>(RuntimeError::InvalidReference)
                && final(self)@ == old(self)@,
            value_wf(value.data_of()) ==> r is Ok && final(self)@ == (RuntimeView {
                data: old(self)@.data + relocated_all(value.data_of(), old(self)@.data.len() as usize,
                    old(self)@.symbols, value.symbols_of()),
                inputs: old(self)@.inputs.push((old(self)@.data.len() + value.data_of().len() - 1) as usize),
                symbols: merged_symbols(old(self)@.symbols, value.symbols_of()),
                ..old(self)@
            }),
    {
        let ghost vd = value.data_of();
        let m = value.data.len();
        if m == 0 {
            return Err(RuntimeError::InvalidReference);
        }
        let mut j: usize = 0;
        while j < m
            invariant
                m == vd.len(),
                vd == value.data_of(),
                j <= m,
                self@ == old(self)@,
                self@.wf(),
                forall|i: int| 0 <= i < j ==> #[trigger] stored_refs_ok(vd[i], i, m as int),
            decreases m - j,
        {
            if !stored_refs_ok_of(&value.data[j], j, m) {
                assert(!stored_refs_ok(vd[j as int], j as int, vd.len() as int));
                return Err(RuntimeError::InvalidReference);
            }
            j = j + 1;
        }
        let n = self.data_len();
        let ghost rs = self@.symbols;
        let ghost vs = value.symbols_of();
        let ghost moved = relocated_all(vd, n, rs, vs);
        let mut out: Vec<Data> = Vec::new();
        let mut k: usize = 0;
        while k < m
            invariant
                m == vd.len(),
                vd == value.data_of(),
                data_wf(vd),
                n == self@.data.len(),
                n + m < usize::MAX,
                rs == self@.symbols,
                vs == value.symbols_of(),
                moved == relocated_all(vd, n, rs, vs),
                k <= m,
                data_view_seq(out@) == moved.subrange(0, k as int),
            decreases m - k,
        {
            assert(stored_refs_ok(vd[k as int], k as int, m as int));
            let d = self.relocated_of(&value.data[k], k, m, n, value);
            let ghost before = out@;
            out.push(d);
            proof {
                assert(out@ == before.push(d));
                assert(data_view_seq(out@) =~= data_view_seq(before).push(d@));
                assert(data_view_seq(out@) =~= moved.subrange(0, k + 1));
            }
            k = k + 1;
        }
        proof {
            assert(moved.subrange(0, m as int) =~= moved);
            let o = self@.data;
            let all = o + moved;
            assert forall|i: int| 0 <= i < all.len() implies #[trigger] stored_refs_ok(all[i], i, all.len() as int) by {
                if i < n {
                    assert(stored_refs_ok(o[i], i, n as int));
                    assert(all[i] == o[i]);
                } else {
                    let jj = i - n;
                    assert(stored_refs_ok(vd[jj], jj, m as int));
                    lemma_relocated_ok(vd[jj], jj, m as int, n, rs, vs);
                    assert(all[i] == moved[jj]);
                }
            }
        }
        self.append_values(out);
        self.push_input_ref(n + m - 1);
        let ghost before_symbols = self@;
        let mut s: usize = 0;
        assert(vs.subrange(0, 0) =~= Seq::<(Seq<char>, u64)>::empty());
        while s < value.symbols.len()
            invariant
                vs == value.symbols_of(),
                vs.len() == value.symbols@.len(),
                s <= vs.len(),
                self@.wf(),
                self@ == (RuntimeView { symbols: merged_symbols(rs, vs.subrange(0, s as int)), ..before_symbols }),
            decreases vs.len() - s,
        {
            let ghost prefix = vs.subrange(0, s as int);
            let ghost next = vs.subrange(0, s + 1);
            assert(next.drop_last() =~= prefix);
            assert(next.last() == vs[s as int]);
            let (name, sym) = (&value.symbols[s].0, value.symbols[s].1);
            if self.symbol_value_of(name).is_none() {
                self.add_symbol(name.clone(), sym);
            }
            proof {
                assert(self@ =~= (RuntimeView { symbols: merged_symbols(rs, next), ..before_symbols }));
            }
            s = s + 1;
        }
        proof {
            assert(vs.subrange(0, vs.len() as int) =~= vs);
        }
        Ok(())
    }

    /// Refers a new last register to the current input, or to a new unit value when
    /// there is no input.
    pub fn put_input(&mut self)
        requires
            old(self)@.wf(),
            old(self)@.data.len() + 1 < usize::MAX,
        ensures
            final(self)@.wf(),
            old(self)@.inputs.len() == 0 ==> final(self)@ == old(self)@.with_pushed(DataView::Unit),
            old(self)@.inputs.len() > 0 ==> final(self)@ == old(self)@.with_register(old(self)@.inputs.last()),
    {
        if self.input_count() == 0 {
            self.push_value(Data::Unit);
        } else {
            let r = self.current_input();
            self.push_register(r);
        }
    }

    /// Removes the last register and makes the value it refers to the current input.
    pub fn push_input(&mut self) -> (r: Result<(), RuntimeError>)
        requires
            old(self)@.wf(),
        ensures
            final(self)@.wf(),
            old(self)@.registers.len() == 0 ==> r == Err::<(), RuntimeError>(RuntimeError::NotEnoughRegisters)
                && final(self)@ == old(self)@,
            old(self)@.registers.len() > 0 ==> r is Ok && final(self)@ == (RuntimeView {
                inputs: old(self)@.inputs.push(old(self)@.last_reg()),
                ..old(self)@.with_consumed(1)
            }),
    {
        let input = self.consume_last_ref()?;
        self.push_input_ref(input);
        Ok(())
    }

    /// Stores a unit value and makes it the current input.
    pub fn push_unit_input(&mut self)
        requires
            old(self)@.wf(),
            old(self)@.data.len() + 1 < usize::MAX,
        ensures
            final(self)@.wf(),
            final(self)@ == (RuntimeView {
                data: old(self)@.data.push(DataView::Unit),
                inputs: old(self)@.inputs.push(old(self)@.data.len() as usize),
                ..old(self)@
            }),
    {
        let p = self.push_value(Data::Unit);
        let _ = self.push_input();
        proof {
            assert(old(self)@.registers.push(p).subrange(0, old(self)@.registers.len() as int) =~= old(self)@.registers);
            assert(final(self)@ =~= (RuntimeView {
                data: old(self)@.data.push(DataView::Unit),
                inputs: old(self)@.inputs.push(old(self)@.data.len() as usize),
                ..old(self)@
            }));
        }
    }

    /// Removes the current input, if there is one.
    pub fn pop_input(&mut self)
        requires
            old(self)@.wf(),
        ensures
            final(self)@.wf(),
            old(self)@.inputs.len() == 0 ==> final(self)@ == old(self)@,
            old(self)@.inputs.len() > 0 ==> final(self)@ == (RuntimeView { inputs: old(self)@.inputs.drop_last(), ..old(self)@ }),
    {
        self.pop_input_ref();
    }
}

} // verus!
