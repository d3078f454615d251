use vstd::prelude::*;
use crate::data::{Data, DataType, DataView, seq_below, refs_below, type_of};
use crate::runtime::{ExpressionRuntime, RuntimeError, RuntimeView};
use crate::access::{Outcome, OutcomeOf, with_outcome, access_outcome, access_defined, outcome_fits};
use crate::invoke::call_outcome;
use crate::context::ExpressionContext;
use crate::access::{KeyId, key_of, chars_equal};
use crate::lists::association_keys;

verus! {

/// The key of the association at `item`, if it is a pair with a key.
pub open spec fn item_key(data: Seq<DataView>, item: usize) -> Option<KeyId> {
    if item < data.len() {
        match data[item as int] {
            DataView::Pair(a, _) => if a < data.len() { key_of(data[a as int]) } else { None },
            _ => None,
        }
    } else {
        None
    }
}

/// The last of the first `n` associations in `kr` with the key `key`.
pub open spec fn last_key_match(data: Seq<DataView>, kr: Seq<usize>, key: Option<KeyId>, n: nat) -> Option<int>
    decreases n,
{
    if n == 0 || n > kr.len() {
        None
    } else if item_key(data, kr[n - 1]) == key {
        Some(n - 1)
    } else {
        last_key_match(data, kr, key, (n - 1) as nat)
    }
}

/// The first `n` items sorted into positional items, in order, and associations, in
/// order of first appearance of their keys, a later association taking the place of
/// an earlier one with the same key.
pub open spec fn ordered_parts(data: Seq<DataView>, items: Seq<usize>, keys: Seq<usize>, n: nat) -> (Seq<usize>, Seq<usize>)
    decreases n,
{
    if n == 0 || n > items.len() {
        (Seq::empty(), Seq::empty())
    } else {
        let prev = ordered_parts(data, items, keys, (n - 1) as nat);
        let it = items[n - 1];
        if keys.contains(it) {
            match last_key_match(data, prev.1, item_key(data, it), prev.1.len()) {
                Some(j) => (prev.0, prev.1.update(j, it)),
                None => (prev.0, prev.1.push(it)),
            }
        } else {
            (prev.0.push(it), prev.1)
        }
    }
}

/// A list with the same items, its positional items first and its associations
/// after them, one per key.
pub open spec fn ordered_list(data: Seq<DataView>, items: Seq<usize>, keys: Seq<usize>) -> DataView {
    let parts = ordered_parts(data, items, keys, items.len());
    DataView::List(parts.0 + parts.1, parts.1)
}

proof fn lemma_last_key_match_bounds(data: Seq<DataView>, kr: Seq<usize>, key: Option<KeyId>, n: nat)
    ensures
        last_key_match(data, kr, key, n) matches Some(j) ==> 0 <= j < n && j < kr.len(),
    decreases n,
{
    if n > 0 && n <= kr.len() {
        lemma_last_key_match_bounds(data, kr, key, (n - 1) as nat);
    }
}

proof fn lemma_ordered_parts_below(data: Seq<DataView>, items: Seq<usize>, keys: Seq<usize>, n: nat, bound: int)
    requires
        seq_below(items, bound),
    ensures
        seq_below(ordered_parts(data, items, keys, n).0, bound),
        seq_below(ordered_parts(data, items, keys, n).1, bound),
    decreases n,
{
    if n > 0 && n <= items.len() {
        lemma_ordered_parts_below(data, items, keys, (n - 1) as nat, bound);
        let prev = ordered_parts(data, items, keys, (n - 1) as nat);
        lemma_last_key_match_bounds(data, prev.1, item_key(data, items[n - 1]), prev.1.len());
    }
}

impl ExpressionRuntime {
    /// The value on the left of the pair at `item`, when it is a stored pair.
    fn pair_left(&self, item: usize) -> (d: Option<&Data>)
        requires
            self@.wf(),
        ensures
            item < self@.data.len() && self@.data[item as int] is Pair
                && self@.data[item as int]->Pair_0 < self@.data.len()
                ==> (d matches Some(x) && x@ == self@.data[self@.data[item as int]->Pair_0 as int]),
            !(item < self@.data.len() && self@.data[item as int] is Pair
                && self@.data[item as int]->Pair_0 < self@.data.len()) ==> d is None,
    {
        if item < self.data_len() {
            match self.get_data(item) {
                Data::Pair(a, _) => if *a < self.data_len() { Some(self.get_data(*a)) } else { None },
                _ => None,
            }
        } else {
            None
        }
    }

    /// Whether the associations at `a` and `b` have the same key.
    fn item_keys_equal(&self, a: usize, b: usize) -> (e: bool)
        requires
            self@.wf(),
        ensures
            e == (item_key(self@.data, a) == item_key(self@.data, b)),
    {
        let ka = self.pair_left(a);
        let kb = self.pair_left(b);
        let sa = match ka { Some(Data::Symbol(s)) => Some(*s), _ => None };
        let sb = match kb { Some(Data::Symbol(s)) => Some(*s), _ => None };
        let ca = match ka { Some(Data::CharacterList(c)) => Some(c), _ => None };
        let cb = match kb { Some(Data::CharacterList(c)) => Some(c), _ => None };
        match (sa, sb, ca, cb) {
            (Some(x), Some(y), _, _) => x == y,
            (_, _, Some(x), Some(y)) => chars_equal(x, y),
            (None, None, None, None) => true,
            _ => false,
        }
    }

    /// A list of the same items, positional items first, then one association per key.
    pub fn ordered_list_of(&self, items: &Vec<usize>, keys: &Vec<usize>) -> (d: Data)
        requires
            self@.wf(),
            seq_below(items@, self@.data.len() as int),
        ensures
            d@ == ordered_list(self@.data, items@, keys@),
            refs_below(d@, self@.data.len() as int),
    {
        let mut positional: Vec<usize> = Vec::new();
        let mut kr: Vec<usize> = Vec::new();
        let mut k: usize = 0;
        while k < items.len()
            invariant
                self@.wf(),
                seq_below(items@, self@.data.len() as int),
                k <= items@.len(),
                (positional@, kr@) == ordered_parts(self@.data, items@, keys@, k as nat),
            decreases items@.len() - k,
        {
            let it = items[k];
            let mut is_key = false;
            let mut j: usize = 0;
            while j < keys.len()
                invariant
                    j <= keys@.len(),
                    is_key == (exists|i: int| 0 <= i < j && keys@[i] == it),
                decreases keys@.len() - j,
            {
                if keys[j] == it {
                    is_key = true;
                }
                j = j + 1;
            }
            proof {
                if is_key {
                    let i = choose|i: int| 0 <= i < keys@.len() && keys@[i] == it;
                    assert(keys@.contains(it));
                } else {
                    assert(!keys@.contains(it));
                }
            }
            if is_key {
                let mut exists: Option<usize> = None;
                let mut j: usize = 0;
                while j < kr.len()
                    invariant
                        self@.wf(),
                        j <= kr@.len(),
                        match last_key_match(self@.data, kr@, item_key(self@.data, it), j as nat) {
                            Some(x) => exists == Some(x as usize),
                            None => exists is None,
                        },
                    decreases kr@.len() - j,
                {
                    if self.item_keys_equal(kr[j], it) {
                        exists = Some(j);
                    }
                    j = j + 1;
                }
                proof {
                    lemma_last_key_match_bounds(self@.data, kr@, item_key(self@.data, it), kr@.len());
                }
                match exists {
                    Some(x) => {
                        kr.set(x, it);
                    },
                    None => {
                        kr.push(it);
                    },
                }
            } else {
                positional.push(it);
            }
            k = k + 1;
        }
        proof {
            lemma_ordered_parts_below(self@.data, items@, keys@, items@.len(), self@.data.len() as int);
        }
        let mut all = positional;
        let mut copy = kr.clone();
        all.append(&mut copy);
        Data::List(all, kr)
    }
}


/// The value at `r` is a pair keyed by a symbol.
pub open spec fn is_symbol_association(data: Seq<DataView>, r: usize) -> bool {
    r < data.len() && match data[r as int] {
        DataView::Pair(a, _) => a < data.len() && data[a as int] is Symbol,
        _ => false,
    }
}

/// The first `n` items of `left` with their unit items filled, in order, by the items
/// of `right` that are not symbol associations; also how many items of `right` were used.
pub open spec fn filled_items(data: Seq<DataView>, left: Seq<usize>, right: Seq<usize>, n: nat) -> (Seq<usize>, nat)
    decreases n,
{
    if n == 0 || n > left.len() {
        (Seq::empty(), 0)
    } else {
        let prev = filled_items(data, left, right, (n - 1) as nat);
        let item = left[n - 1];
        if prev.1 < right.len() && item < data.len() && data[item as int] is Unit {
            let r = right[prev.1 as int];
            if is_symbol_association(data, r) {
                (prev.0.push(item), prev.1)
            } else {
                (prev.0.push(r), prev.1 + 1)
            }
        } else {
            (prev.0.push(item), prev.1)
        }
    }
}

/// The position of the first unit among `items`.
pub open spec fn first_unit(data: Seq<DataView>, items: Seq<usize>, n: nat) -> Option<int>
    decreases n,
{
    if n == 0 || n > items.len() {
        None
    } else {
        match first_unit(data, items, (n - 1) as nat) {
            Some(i) => Some(i),
            None => if items[n - 1] < data.len() && data[items[n - 1] as int] is Unit { Some(n - 1) } else { None },
        }
    }
}

/// The items of the list made by applying the value at `right` to the value at `left`,
/// neither being unit: two lists fill the units of the first with the second's items and
/// add the rest; a list and another value fills the list's first unit with it, or adds
/// it (a symbol association is always added); otherwise the values are joined.
pub open spec fn applied_items(data: Seq<DataView>, left: usize, right: usize) -> Seq<usize> {
    match (data[left as int], data[right as int]) {
        (DataView::List(a, _), DataView::List(b, _)) => {
            let f = filled_items(data, a, b, a.len());
            f.0 + b.subrange(f.1 as int, b.len() as int)
        },
        (DataView::List(a, _), _) => if is_symbol_association(data, right) {
            a.push(right)
        } else {
            match first_unit(data, a, a.len()) {
                Some(i) => a.update(i, right),
                None => a.push(right),
            }
        },
        (_, DataView::List(b, _)) => seq![left].add(b),
        _ => seq![left, right],
    }
}

/// The list made of `items`.
pub open spec fn list_of(data: Seq<DataView>, items: Seq<usize>) -> DataView {
    DataView::List(items, association_keys(data, items))
}

/// The data after applying the value at `right` to the value at `left`, and the position
/// of the resulting value: `None` when `right` is unit; the value at `right` when `left`
/// is unit; otherwise a new list of the applied items, ordered when `left` is a list.
pub open spec fn applied_list(data: Seq<DataView>, left: usize, right: usize) -> (Seq<DataView>, Option<usize>) {
    if data[left as int] is Unit {
        (data, Some(right))
    } else if data[right as int] is Unit {
        (data, None)
    } else {
        let items = applied_items(data, left, right);
        let d1 = data.push(list_of(data, items));
        if data[left as int] is List {
            (d1.push(ordered_list(d1, items, association_keys(data, items))), Some(d1.len() as usize))
        } else {
            (d1, Some(data.len() as usize))
        }
    }
}

proof fn lemma_filled_items_below(data: Seq<DataView>, left: Seq<usize>, right: Seq<usize>, n: nat, bound: int)
    requires
        seq_below(left, bound),
        seq_below(right, bound),
    ensures
        seq_below(filled_items(data, left, right, n).0, bound),
        filled_items(data, left, right, n).1 <= right.len(),
    decreases n,
{
    if n > 0 && n <= left.len() {
        lemma_filled_items_below(data, left, right, (n - 1) as nat, bound);
    }
}

proof fn lemma_first_unit_bounds(data: Seq<DataView>, items: Seq<usize>, n: nat)
    ensures
        first_unit(data, items, n) matches Some(i) ==> 0 <= i < n && i < items.len(),
    decreases n,
{
    if n > 0 && n <= items.len() {
        lemma_first_unit_bounds(data, items, (n - 1) as nat);
    }
}

impl ExpressionRuntime {
    fn is_symbol_association_at(&self, r: usize) -> (b: bool)
        requires
            self@.wf(),
        ensures
            b == is_symbol_association(self@.data, r),
    {
        match self.pair_left(r) {
            Some(Data::Symbol(_)) => true,
            _ => false,
        }
    }

    /// The items of the list made by applying the value at `right` to the value at `left`.
    fn applied_items_of(&self, left: usize, right: usize) -> (items: Vec<usize>)
        requires
            self@.wf(),
            left < self@.data.len(),
            right < self@.data.len(),
        ensures
            items@ == applied_items(self@.data, left, right),
            seq_below(items@, self@.data.len() as int),
    {
        proof {
            crate::runtime::lemma_value_refs(self@, left as int);
            crate::runtime::lemma_value_refs(self@, right as int);
        }
        match (self.get_data(left), self.get_data(right)) {
            (Data::List(a, _), Data::List(b, _)) => {
                let mut out: Vec<usize> = Vec::new();
                let mut cursor: usize = 0;
                let mut k: usize = 0;
                while k < a.len()
                    invariant
                        self@.wf(),
                        k <= a@.len(),
                        seq_below(a@, self@.data.len() as int),
                        seq_below(b@, self@.data.len() as int),
                        (out@, cursor as nat) == filled_items(self@.data, a@, b@, k as nat),
                    decreases a@.len() - k,
                {
                    proof {
                        lemma_filled_items_below(self@.data, a@, b@, k as nat, self@.data.len() as int);
                    }
                    let item = a[k];
                    if cursor < b.len() && self.get_data(item).get_type() == DataType::Unit {
                        let r = b[cursor];
                        if self.is_symbol_association_at(r) {
                            out.push(item);
                        } else {
                            cursor = cursor + 1;
                            out.push(r);
                        }
                    } else {
                        out.push(item);
                    }
                    k = k + 1;
                }
                proof {
                    lemma_filled_items_below(self@.data, a@, b@, a@.len(), self@.data.len() as int);
                }
                let ghost filled = out@;
                let mut c = cursor;
                while c < b.len()
                    invariant
                        cursor <= c <= b@.len(),
                        out@ == filled + b@.subrange(cursor as int, c as int),
                    decreases b@.len() - c,
                {
                    out.push(b[c]);
                    c = c + 1;
                    assert(out@ =~= filled + b@.subrange(cursor as int, c as int));
                }
                out
            },
            (Data::List(a, _), _) => {
                let mut out = a.clone();
                assert(out@ =~= a@);
                if self.is_symbol_association_at(right) {
                    out.push(right);
                } else {
                    let mut found: Option<usize> = None;
                    let mut k: usize = 0;
                    while k < a.len()
                        invariant
                            self@.wf(),
                            k <= a@.len(),
                            seq_below(a@, self@.data.len() as int),
                            match first_unit(self@.data, a@, k as nat) {
                                Some(i) => found == Some(i as usize),
                                None => found is None,
                            },
                        decreases a@.len() - k,
                    {
                        if found.is_none() && self.get_data(a[k]).get_type() == DataType::Unit {
                            found = Some(k);
                        }
                        k = k + 1;
                    }
                    proof {
                        lemma_first_unit_bounds(self@.data, a@, a@.len());
                    }
                    match found {
                        Some(i) => out.set(i, right),
                        None => out.push(right),
                    }
                }
                out
            },
            (_, Data::List(b, _)) => {
                let mut out: Vec<usize> = Vec::new();
                out.push(left);
                let mut copy = b.clone();
                out.append(&mut copy);
                assert(out@ =~= seq![left].add(b@));
                out
            },
            _ => {
                let mut out: Vec<usize> = Vec::new();
                out.push(left);
                out.push(right);
                assert(out@ =~= seq![left, right]);
                out
            },
        }
    }

    /// Applies the value at `right` to the value at `left` as a list, storing the new
    /// lists; returns the position of the resulting value, or `None` when `right` is unit.
    pub fn make_applied_list(&mut self, left: usize, right: usize) -> (r: Option<usize>)
        requires
            old(self)@.wf(),
            left < old(self)@.data.len(),
            right < old(self)@.data.len(),
            old(self)@.data.len() + 2 < usize::MAX,
        ensures
            final(self)@.wf(),
            final(self)@ == (RuntimeView { data: applied_list(old(self)@.data, left, right).0, ..old(self)@ }),
            r == applied_list(old(self)@.data, left, right).1,
            r matches Some(p) ==> p < final(self)@.data.len(),
    {
        let lt = self.get_data(left).get_type();
        if lt == DataType::Unit {
            return Some(right);
        }
        if self.get_data(right).get_type() == DataType::Unit {
            return None;
        }
        let items = self.applied_items_of(left, right);
        let keys = self.association_keys_of(&items);
        proof {
            crate::lists::lemma_association_keys_below(self@.data, items@, self@.data.len() as int);
        }
        let list = Data::List(items.clone(), keys.clone());
        let p = self.add_value(list);
        if lt == DataType::List {
            let ordered = self.ordered_list_of(&items, &keys);
            let q = self.add_value(ordered);
            Some(q)
        } else {
            Some(p)
        }
    }
}


/// Partially applying the value at `right` to the value at `left`: the data afterwards
/// and what the new last register refers to. An expression or external method keeps
/// the value as its partial value (a symbol association is first put in a list, a list
/// is first ordered); a partial applies the value to its partial value as a list;
/// anything else gives unit.
pub open spec fn partial_application(data: Seq<DataView>, left: usize, right: usize) -> (Seq<DataView>, Outcome) {
    match data[left as int] {
        DataView::Expression(_) | DataView::ExternalMethod(_) => {
            if is_symbol_association(data, right) {
                (data.push(list_of(data, seq![right])), Outcome::New(DataView::Partial(left, data.len() as usize)))
            } else {
                match data[right as int] {
                    DataView::List(items, keys) => (data.push(ordered_list(data, items, keys)),
                        Outcome::New(DataView::Partial(left, data.len() as usize))),
                    _ => (data, Outcome::New(DataView::Partial(left, right))),
                }
            }
        },
        DataView::Partial(e, v) => {
            let applied = applied_list(data, v, right);
            match applied.1 {
                Some(p) => (applied.0, Outcome::New(DataView::Partial(e, p))),
                None => (applied.0, Outcome::Existing(left)),
            }
        },
        _ => (data, Outcome::New(DataView::Unit)),
    }
}

/// What applying the last value to the one before it does.
pub open spec fn application<C: ExpressionContext>(ctx: &C, v: RuntimeView, r: Result<Option<usize>, RuntimeError>, after: RuntimeView) -> bool {
    let left = v.second_last_reg();
    let right = v.last_reg();
    match (v.data[left as int], v.data[right as int]) {
        (DataView::Range(p), DataView::Integer(_)) => r == Ok::<Option<usize>, RuntimeError>(None)
            && after == v.binary_applied(DataView::Range(crate::data::RangeParts { step: Some(right), ..p })),
        (DataView::Expression(i), _) => call_outcome(ctx,
            RuntimeView { inputs: v.inputs.push(right), ..v.with_consumed(2) }, DataView::Expression(i), right, r, after),
        (DataView::ExternalMethod(m), _) => call_outcome(ctx, v, DataView::ExternalMethod(m), right, r, after),
        (DataView::Partial(e, val), _) => {
            let applied = applied_list(v.data, val, right);
            let input = match applied.1 { Some(p) => p, None => val };
            let v1 = RuntimeView { data: applied.0, inputs: v.inputs.push(input), ..v };
            call_outcome(ctx, v1, applied.0[e as int], input, r, after)
        },
        _ => match access_outcome(v.data, left, right) {
            Some(o) => r == Ok::<Option<usize>, RuntimeError>(None) && after == with_outcome(v.with_consumed(2), o),
            None => r == Err::<Option<usize>, RuntimeError>(RuntimeError::UnsupportedType) && after == v.with_consumed(2),
        },
    }
}

/// Applying needs no overflowing access.
pub open spec fn application_defined(v: RuntimeView) -> bool {
    let left = v.second_last_reg();
    let right = v.last_reg();
    match (v.data[left as int], v.data[right as int]) {
        (DataView::Range(_), DataView::Integer(_)) => true,
        (DataView::Expression(_), _) | (DataView::ExternalMethod(_), _) | (DataView::Partial(_, _), _) => true,
        _ => access_defined(v.data, left, right),
    }
}

impl ExpressionRuntime {
    /// Replaces the last two registers by the partial application of the last value
    /// to the one before it.
    pub fn partially_apply(&mut self) -> (r: Result<(), RuntimeError>)
        requires
            old(self)@.wf(),
            old(self)@.data.len() + 3 < usize::MAX,
        ensures
            final(self)@.wf(),
            old(self)@.registers.len() < 2 ==> r == Err::<(), RuntimeError>(RuntimeError::NotEnoughRegisters)
                && final(self)@ == old(self)@,
            old(self)@.registers.len() >= 2 ==> r is Ok && final(self)@ == with_outcome(
                RuntimeView {
                    data: partial_application(old(self)@.data, old(self)@.second_last_reg(), old(self)@.last_reg()).0,
                    ..old(self)@.with_consumed(2)
                },
                partial_application(old(self)@.data, old(self)@.second_last_reg(), old(self)@.last_reg()).1),
    {
        let (left, right) = self.consume_last_two_refs()?;
        proof {
            crate::runtime::lemma_register_in_bounds(old(self)@, old(self)@.registers.len() - 1);
            crate::runtime::lemma_register_in_bounds(old(self)@, old(self)@.registers.len() - 2);
            crate::runtime::lemma_value_refs(self@, left as int);
            crate::runtime::lemma_value_refs(self@, right as int);
        }
        let l = self.get_data(left).copy();
        match l {
            Data::Expression(_) | Data::ExternalMethod(_) => {
                if self.is_symbol_association_at(right) {
                    let mut single: Vec<usize> = Vec::new();
                    single.push(right);
                    let keys = self.association_keys_of(&single);
                    proof {
                        crate::lists::lemma_association_keys_below(self@.data, single@, self@.data.len() as int);
                        assert(single@ =~= seq![right]);
                    }
                    let p = self.add_value(Data::List(single, keys));
                    self.push_value(Data::Partial(left, p));
                } else {
                    let ordered = match self.get_data(right) {
                        Data::List(items, keys) => Some(self.ordered_list_of(items, keys)),
                        _ => None,
                    };
                    match ordered {
                        Some(d) => {
                            let p = self.add_value(d);
                            self.push_value(Data::Partial(left, p));
                        },
                        None => {
                            self.push_value(Data::Partial(left, right));
                        },
                    }
                }
            },
            Data::Partial(e, v) => {
                match self.make_applied_list(v, right) {
                    Some(p) => {
                        self.push_value(Data::Partial(e, p));
                    },
                    None => {
                        self.push_register(left);
                    },
                }
            },
            _ => {
                self.push_value(Data::Unit);
            },
        }
        Ok(())
    }

    /// Applies the last value to the one before it: a range takes an integer as its
    /// step; an expression runs with the value as its input; an external method is
    /// answered by the context; a partial applies the value to its partial value and
    /// runs with the result as input; anything else is accessed by the value.
    pub fn apply<C: ExpressionContext>(&mut self, context: &C) -> (r: Result<Option<usize>, RuntimeError>)
        requires
            old(self)@.wf(),
            old(self)@.data.len() + 3 < usize::MAX,
            old(self)@.cursor < usize::MAX,
            old(self)@.registers.len() >= 2 ==> application_defined(old(self)@),
        ensures
            final(self)@.wf(),
            old(self)@.registers.len() < 2 ==> r == Err::<Option<usize>, RuntimeError>(RuntimeError::NotEnoughRegisters)
                && final(self)@ == old(self)@,
            old(self)@.registers.len() >= 2 ==> application(context, old(self)@, r, final(self)@),
    {
        if self.register_count() < 2 {
            return Err(RuntimeError::NotEnoughRegisters);
        }
        let n = self.register_count();
        let left = self.get_register(n - 2);
        let right = self.get_register(n - 1);
        proof {
            crate::runtime::lemma_register_in_bounds(old(self)@, old(self)@.registers.len() - 1);
            crate::runtime::lemma_register_in_bounds(old(self)@, old(self)@.registers.len() - 2);
            crate::runtime::lemma_value_refs(self@, left as int);
        }
        let l = self.get_data(left).copy();
        let right_is_integer = self.get_data(right).get_type() == DataType::Integer;
        match l {
            Data::Range(p) => {
                if right_is_integer {
                    let _ = self.consume_last_two_refs();
                    self.push_value(Data::Range(crate::data::RangeParts { step: Some(right), ..p }));
                    return Ok(None);
                }
            },
            Data::Expression(_) => {
                let _ = self.push_input();
                let _ = self.consume_last_ref();
                proof {
                    assert(self@ =~= (RuntimeView { inputs: old(self)@.inputs.push(right), ..old(self)@.with_consumed(2) }));
                }
                return self.call_value(&l, right, context);
            },
            Data::ExternalMethod(_) => {
                return self.call_value(&l, right, context);
            },
            Data::Partial(e, val) => {
                let input = match self.make_applied_list(val, right) {
                    Some(p) => p,
                    None => val,
                };
                self.push_register(input);
                let _ = self.push_input();
                proof {
                    assert(self@.registers =~= old(self)@.registers);
                    assert(self@ =~= (RuntimeView {
                        data: applied_list(old(self)@.data, val, right).0,
                        inputs: old(self)@.inputs.push(input),
                        ..old(self)@
                    }));
                    crate::runtime::lemma_value_refs(old(self)@, left as int);
                }
                let target = self.get_data(e).copy();
                return self.call_value(&target, input, context);
            },
            _ => {},
        }
        let _ = self.consume_last_two_refs();
        match self.access_outcome_of(left, right) {
            Some(o) => {
                self.apply_outcome(o);
                Ok(None)
            },
            None => Err(RuntimeError::UnsupportedType),
        }
    }
}


impl ExpressionRuntime {
    /// Whether applying the last value to the one before it is defined.
    pub fn application_defined_of(&self) -> (b: bool)
        requires
            self@.wf(),
            self@.registers.len() >= 2,
        ensures
            b == application_defined(self@),
    {
        let n = self.register_count();
        let left = self.get_register(n - 2);
        let right = self.get_register(n - 1);
        proof {
            crate::runtime::lemma_register_in_bounds(self@, self@.registers.len() - 1);
            crate::runtime::lemma_register_in_bounds(self@, self@.registers.len() - 2);
        }
        match (self.get_data(left), self.get_data(right)) {
            (Data::Range(_), Data::Integer(_)) => true,
            (Data::Expression(_), _) | (Data::ExternalMethod(_), _) | (Data::Partial(_, _), _) => true,
            _ => self.access_defined_of(left, right),
        }
    }
}

} // verus!
