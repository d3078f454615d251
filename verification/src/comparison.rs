use vstd::prelude::*;
use crate::data::{Data, DataView, RangeParts, type_of};
use crate::runtime::{ExpressionRuntime, RuntimeError, RuntimeView, symbol_name, condition_symbol, symbol_from_condition};

verus! {

/// How two values are ordered.
#[derive(Clone, Copy, PartialEq, Eq, Structural, Debug)]
pub enum ValueOrder {
    Less,
    Equal,
    Greater,
}

pub open spec fn reverse_order(o: ValueOrder) -> ValueOrder {
    match o {
        ValueOrder::Less => ValueOrder::Greater,
        ValueOrder::Equal => ValueOrder::Equal,
        ValueOrder::Greater => ValueOrder::Less,
    }
}

pub open spec fn reverse_opt(o: Option<ValueOrder>) -> Option<ValueOrder> {
    match o {
        Some(x) => Some(reverse_order(x)),
        None => None,
    }
}

pub open spec fn int_order(a: int, b: int) -> ValueOrder {
    if a < b { ValueOrder::Less } else if a == b { ValueOrder::Equal } else { ValueOrder::Greater }
}

/// Lexicographic order of character sequences; a proper prefix comes first.
pub open spec fn lex_order(a: Seq<char>, b: Seq<char>) -> ValueOrder
    decreases a.len(),
{
    if a.len() == 0 {
        if b.len() == 0 { ValueOrder::Equal } else { ValueOrder::Less }
    } else if b.len() == 0 {
        ValueOrder::Greater
    } else if int_order(a[0] as int, b[0] as int) != ValueOrder::Equal {
        int_order(a[0] as int, b[0] as int)
    } else {
        lex_order(a.drop_first(), b.drop_first())
    }
}

/// A character against a character list: an empty list is less, a list of more than
/// one character is greater, otherwise the characters decide.
pub open spec fn char_list_order(c: char, s: Seq<char>) -> ValueOrder {
    if s.len() == 0 {
        ValueOrder::Greater
    } else if s.len() > 1 {
        ValueOrder::Less
    } else {
        int_order(c as int, s[0] as int)
    }
}

/// Two ranges can only be equal when they exclude and hold the same parts.
pub open spec fn range_shapes_match(p: RangeParts, q: RangeParts) -> bool {
    &&& p.start_exclusive == q.start_exclusive
    &&& p.end_exclusive == q.end_exclusive
    &&& p.start is Some == q.start is Some
    &&& p.end is Some == q.end is Some
    &&& p.step is Some == q.step is Some
}

/// How the values at `l` and `r` are ordered, if they can be ordered. Units are
/// equal; integers and characters are ordered by value; symbols are equal when their
/// values are, and are otherwise ordered by their names; character lists are ordered
/// lexicographically; pairs, ranges and lists are only ever equal, part by part.
pub open spec fn ordering(data: Seq<DataView>, syms: Seq<(Seq<char>, u64)>, l: nat, r: nat) -> Option<ValueOrder>
    decreases l + r, 1nat, 0nat,
{
    if l >= data.len() || r >= data.len() {
        None
    } else {
        match (data[l as int], data[r as int]) {
            (DataView::Unit, DataView::Unit) => Some(ValueOrder::Equal),
            (DataView::Integer(a), DataView::Integer(b)) => Some(int_order(a as int, b as int)),
            (DataView::Symbol(a), DataView::Symbol(b)) => if a == b {
                Some(ValueOrder::Equal)
            } else {
                match (symbol_name(syms, a), symbol_name(syms, b)) {
                    (Some(x), Some(y)) => Some(lex_order(x, y)),
                    _ => None,
                }
            },
            (DataView::Character(a), DataView::Character(b)) => Some(int_order(a as int, b as int)),
            (DataView::Character(a), DataView::CharacterList(s)) => Some(char_list_order(a, s)),
            (DataView::CharacterList(s), DataView::Character(a)) => Some(reverse_order(char_list_order(a, s))),
            (DataView::CharacterList(a), DataView::CharacterList(b)) => Some(lex_order(a, b)),
            (DataView::Pair(a1, b1), DataView::Pair(a2, b2)) => if parts_equal(data, syms, l, r, Some(a1), Some(a2))
                && parts_equal(data, syms, l, r, Some(b1), Some(b2)) {
                Some(ValueOrder::Equal)
            } else {
                None
            },
            (DataView::Range(p), DataView::Range(q)) => if range_shapes_match(p, q)
                && parts_equal(data, syms, l, r, p.start, q.start)
                && parts_equal(data, syms, l, r, p.end, q.end)
                && parts_equal(data, syms, l, r, p.step, q.step) {
                Some(ValueOrder::Equal)
            } else {
                None
            },
            (DataView::List(a, _), DataView::List(b, _)) => if a.len() == b.len() && items_equal(data, syms, l, r, a, b, 0) {
                Some(ValueOrder::Equal)
            } else {
                None
            },
            _ => None,
        }
    }
}

/// Parts of the values at `l` and `r`: both absent, or both present, stored before
/// their owners and equal.
pub open spec fn parts_equal(data: Seq<DataView>, syms: Seq<(Seq<char>, u64)>, l: nat, r: nat,
    x: Option<usize>, y: Option<usize>) -> bool
    decreases l + r, 0nat, 0nat,
{
    match (x, y) {
        (Some(a), Some(b)) => a < l && b < r && ordering(data, syms, a as nat, b as nat) == Some(ValueOrder::Equal),
        (None, None) => true,
        _ => false,
    }
}

/// Items `k` on of two lists held by the values at `l` and `r` are pairwise equal.
pub open spec fn items_equal(data: Seq<DataView>, syms: Seq<(Seq<char>, u64)>, l: nat, r: nat,
    a: Seq<usize>, b: Seq<usize>, k: nat) -> bool
    decreases l + r, 0nat, a.len() - k,
{
    if k >= a.len() || k >= b.len() {
        true
    } else {
        a[k as int] < l && b[k as int] < r
            && ordering(data, syms, a[k as int] as nat, b[k as int] as nat) == Some(ValueOrder::Equal)
            && items_equal(data, syms, l, r, a, b, k + 1)
    }
}

/// Items `k` on are pairwise equal exactly when each of them is.
proof fn lemma_items_equal(data: Seq<DataView>, syms: Seq<(Seq<char>, u64)>, l: nat, r: nat,
    a: Seq<usize>, b: Seq<usize>, k: nat)
    requires
        a.len() == b.len(),
        k <= a.len(),
    ensures
        items_equal(data, syms, l, r, a, b, k) <==> (forall|j: int| k <= j < a.len() ==>
            a[j] < l && b[j] < r && #[trigger] ordering(data, syms, a[j] as nat, b[j] as nat) == Some(ValueOrder::Equal)),
    decreases a.len() - k,
{
    if k < a.len() {
        lemma_items_equal(data, syms, l, r, a, b, k + 1);
        let kk = k as int;
        if forall|j: int| k <= j < a.len() ==>
            a[j] < l && b[j] < r && #[trigger] ordering(data, syms, a[j] as nat, b[j] as nat) == Some(ValueOrder::Equal) {
            assert(ordering(data, syms, a[kk] as nat, b[kk] as nat) == Some(ValueOrder::Equal));
        }
        if items_equal(data, syms, l, r, a, b, k) {
            assert forall|j: int| k <= j < a.len() implies
                a[j] < l && b[j] < r && #[trigger] ordering(data, syms, a[j] as nat, b[j] as nat) == Some(ValueOrder::Equal) by {
                if j > k {
                }
            }
        }
    }
}

/// Orders two character sequences lexicographically.
pub fn lex_order_of(a: &Vec<char>, b: &Vec<char>) -> (o: ValueOrder)
    ensures
        o == lex_order(a@, b@),
{
    let mut k: usize = 0;
    assert(a@.subrange(0, a@.len() as int) =~= a@);
    assert(b@.subrange(0, b@.len() as int) =~= b@);
    while k < a.len() && k < b.len()
        invariant
            k <= a@.len(),
            k <= b@.len(),
            lex_order(a@, b@) == lex_order(a@.subrange(k as int, a@.len() as int), b@.subrange(k as int, b@.len() as int)),
        decreases a@.len() - k,
    {
        let (x, y) = (a[k], b[k]);
        assert(a@.subrange(k as int, a@.len() as int).drop_first() =~= a@.subrange(k + 1, a@.len() as int));
        assert(b@.subrange(k as int, b@.len() as int).drop_first() =~= b@.subrange(k + 1, b@.len() as int));
        assert(a@.subrange(k as int, a@.len() as int)[0] == x);
        assert(b@.subrange(k as int, b@.len() as int)[0] == y);
        if x < y {
            return ValueOrder::Less;
        } else if x > y {
            return ValueOrder::Greater;
        }
        k = k + 1;
    }
    if k == a.len() {
        if k == b.len() { ValueOrder::Equal } else { ValueOrder::Less }
    } else {
        ValueOrder::Greater
    }
}

fn int_order_of(a: i64, b: i64) -> (o: ValueOrder)
    ensures
        o == int_order(a as int, b as int),
{
    if a < b { ValueOrder::Less } else if a == b { ValueOrder::Equal } else { ValueOrder::Greater }
}

fn reverse_order_of(o: ValueOrder) -> (p: ValueOrder)
    ensures
        p == reverse_order(o),
{
    match o {
        ValueOrder::Less => ValueOrder::Greater,
        ValueOrder::Equal => ValueOrder::Equal,
        ValueOrder::Greater => ValueOrder::Less,
    }
}

fn char_list_order_of(c: char, s: &Vec<char>) -> (o: ValueOrder)
    ensures
        o == char_list_order(c, s@),
{
    if s.len() == 0 {
        ValueOrder::Greater
    } else if s.len() > 1 {
        ValueOrder::Less
    } else {
        let d = s[0];
        if c < d { ValueOrder::Less } else if c == d { ValueOrder::Equal } else { ValueOrder::Greater }
    }
}

/// The comparisons that turn an ordering into a condition.
#[derive(Clone, Copy, PartialEq, Eq, Structural, Debug)]
pub enum Comparison {
    Equal,
    NotEqual,
    Less,
    LessOrEqual,
    Greater,
    GreaterOrEqual,
}

/// Whether an ordering satisfies a comparison. Values that cannot be ordered are only unequal.
pub open spec fn comparison_holds(c: Comparison, o: Option<ValueOrder>) -> bool {
    match c {
        Comparison::Equal => o == Some(ValueOrder::Equal),
        Comparison::NotEqual => o != Some(ValueOrder::Equal),
        Comparison::Less => o == Some(ValueOrder::Less),
        Comparison::LessOrEqual => o == Some(ValueOrder::Less) || o == Some(ValueOrder::Equal),
        Comparison::Greater => o == Some(ValueOrder::Greater),
        Comparison::GreaterOrEqual => o == Some(ValueOrder::Greater) || o == Some(ValueOrder::Equal),
    }
}

impl ExpressionRuntime {
    /// Whether parts of the values at `l` and `r` are both absent or both present and equal.
    fn parts_equal_at(&self, l: usize, r: usize, x: Option<usize>, y: Option<usize>) -> (b: bool)
        requires
            self@.wf(),
            l < self@.data.len(),
            r < self@.data.len(),
            x matches Some(a) ==> a < l,
            y matches Some(b) ==> b < r,
        ensures
            b == parts_equal(self@.data, self@.symbols, l as nat, r as nat, x, y),
        decreases l + r, 0nat,
    {
        match (x, y) {
            (Some(a), Some(b)) => self.ordering_of_values_refs(a, b) == Some(ValueOrder::Equal),
            (None, None) => true,
            _ => false,
        }
    }

    /// How the values at `l` and `r` are ordered, if they can be ordered.
    pub fn ordering_of_values_refs(&self, l: usize, r: usize) -> (o: Option<ValueOrder>)
        requires
            self@.wf(),
            l < self@.data.len(),
            r < self@.data.len(),
        ensures
            o == ordering(self@.data, self@.symbols, l as nat, r as nat),
        decreases l + r, 1nat,
    {
        proof {
            crate::runtime::lemma_value_refs(self@, l as int);
            crate::runtime::lemma_value_refs(self@, r as int);
        }
        match (self.get_data(l), self.get_data(r)) {
            (Data::Unit, Data::Unit) => Some(ValueOrder::Equal),
            (Data::Integer(a), Data::Integer(b)) => Some(int_order_of(*a as i64, *b as i64)),
            (Data::Symbol(a), Data::Symbol(b)) => {
                if *a == *b {
                    Some(ValueOrder::Equal)
                } else {
                    match (self.symbol_name_of(*a), self.symbol_name_of(*b)) {
                        (Some(x), Some(y)) => Some(lex_order_of(&x, &y)),
                        _ => None,
                    }
                }
            },
            (Data::Character(a), Data::Character(b)) => {
                let (a, b) = (*a, *b);
                Some(if a < b { ValueOrder::Less } else if a == b { ValueOrder::Equal } else { ValueOrder::Greater })
            },
            (Data::Character(a), Data::CharacterList(s)) => Some(char_list_order_of(*a, s)),
            (Data::CharacterList(s), Data::Character(a)) => Some(reverse_order_of(char_list_order_of(*a, s))),
            (Data::CharacterList(a), Data::CharacterList(b)) => Some(lex_order_of(a, b)),
            (Data::Pair(a1, b1), Data::Pair(a2, b2)) => {
                if self.parts_equal_at(l, r, Some(*a1), Some(*a2)) && self.parts_equal_at(l, r, Some(*b1), Some(*b2)) {
                    Some(ValueOrder::Equal)
                } else {
                    None
                }
            },
            (Data::Range(p), Data::Range(q)) => {
                let shapes = p.start_exclusive == q.start_exclusive && p.end_exclusive == q.end_exclusive
                    && p.start.is_some() == q.start.is_some() && p.end.is_some() == q.end.is_some()
                    && p.step.is_some() == q.step.is_some();
                if shapes && self.parts_equal_at(l, r, p.start, q.start) && self.parts_equal_at(l, r, p.end, q.end)
                    && self.parts_equal_at(l, r, p.step, q.step) {
                    Some(ValueOrder::Equal)
                } else {
                    None
                }
            },
            (Data::List(a, ka), Data::List(b, kb)) => {
                if a.len() != b.len() {
                    return None;
                }
                proof {
                    lemma_items_equal(self@.data, self@.symbols, l as nat, r as nat, a@, b@, 0);
                }
                let mut k: usize = 0;
                while k < a.len()
                    invariant
                        self@.wf(),
                        l < self@.data.len(),
                        r < self@.data.len(),
                        a@.len() == b@.len(),
                        k <= a@.len(),
                        self@.data[l as int] == DataView::List(a@, ka@),
                        self@.data[r as int] == DataView::List(b@, kb@),
                        crate::data::seq_below(a@, l as int),
                        crate::data::seq_below(b@, r as int),
                        forall|j: int| 0 <= j < k ==> #[trigger] ordering(self@.data, self@.symbols, a@[j] as nat, b@[j] as nat) == Some(ValueOrder::Equal),
                    decreases a@.len() - k,
                {
                    if self.ordering_of_values_refs(a[k], b[k]) != Some(ValueOrder::Equal) {
                        proof {
                            lemma_items_equal(self@.data, self@.symbols, l as nat, r as nat, a@, b@, 0);
                        }
                        return None;
                    }
                    k = k + 1;
                }
                Some(ValueOrder::Equal)
            },
            _ => None,
        }
    }

    /// Replaces the last two registers by the symbol telling whether their values
    /// satisfy the comparison.
    pub fn perform_comparison(&mut self, c: Comparison) -> (r: Result<(), RuntimeError>)
        requires
            old(self)@.wf(),
            old(self)@.data.len() + 1 < usize::MAX,
        ensures
            final(self)@.wf(),
            old(self)@.registers.len() < 2 ==> r == Err::<(), RuntimeError>(RuntimeError::NotEnoughRegisters)
                && final(self)@ == old(self)@,
            old(self)@.registers.len() >= 2 ==> r is Ok && final(self)@ == old(self)@.binary_applied(
                condition_symbol(comparison_holds(c, ordering(old(self)@.data, old(self)@.symbols,
                    old(self)@.second_last_reg() as nat, old(self)@.last_reg() as nat)))),
    {
        let (left, right) = self.consume_last_two_refs()?;
        proof {
            crate::runtime::lemma_register_in_bounds(old(self)@, old(self)@.registers.len() - 1);
            crate::runtime::lemma_register_in_bounds(old(self)@, old(self)@.registers.len() - 2);
        }
        let o = self.ordering_of_values_refs(left, right);
        let holds = match c {
            Comparison::Equal => o == Some(ValueOrder::Equal),
            Comparison::NotEqual => o != Some(ValueOrder::Equal),
            Comparison::Less => o == Some(ValueOrder::Less),
            Comparison::LessOrEqual => o == Some(ValueOrder::Less) || o == Some(ValueOrder::Equal),
            Comparison::Greater => o == Some(ValueOrder::Greater),
            Comparison::GreaterOrEqual => o == Some(ValueOrder::Greater) || o == Some(ValueOrder::Equal),
        };
        self.push_value(symbol_from_condition(holds));
        Ok(())
    }

    /// Replaces the last two registers by the symbol telling whether their values
    /// are of the same kind.
    pub fn perform_type_comparison(&mut self) -> (r: Result<(), RuntimeError>)
        requires
            old(self)@.wf(),
            old(self)@.data.len() + 1 < usize::MAX,
        ensures
            final(self)@.wf(),
            old(self)@.registers.len() < 2 ==> r == Err::<(), RuntimeError>(RuntimeError::NotEnoughRegisters)
                && final(self)@ == old(self)@,
            old(self)@.registers.len() >= 2 ==> r is Ok && final(self)@ == old(self)@.binary_applied(
                condition_symbol(type_of(old(self)@.left_operand()) == type_of(old(self)@.right_operand()))),
    {
        let (left, right) = self.consume_last_two_refs()?;
        proof {
            crate::runtime::lemma_register_in_bounds(old(self)@, old(self)@.registers.len() - 1);
            crate::runtime::lemma_register_in_bounds(old(self)@, old(self)@.registers.len() - 2);
        }
        let same = self.get_data(left).get_type() == self.get_data(right).get_type();
        self.push_value(symbol_from_condition(same));
        Ok(())
    }
}

} // verus!

verus! {

proof fn lemma_lex_order_antisymmetric(a: Seq<char>, b: Seq<char>)
    ensures
        lex_order(b, a) == reverse_order(lex_order(a, b)),
    decreases a.len(),
{
    if a.len() > 0 && b.len() > 0 {
        lemma_lex_order_antisymmetric(a.drop_first(), b.drop_first());
    }
}

proof fn lemma_parts_equal_symmetric(data: Seq<DataView>, syms: Seq<(Seq<char>, u64)>, l: nat, r: nat,
    x: Option<usize>, y: Option<usize>)
    ensures
        parts_equal(data, syms, l, r, x, y) == parts_equal(data, syms, r, l, y, x),
    decreases l + r, 0nat,
{
    match (x, y) {
        (Some(a), Some(b)) => {
            if a < l && b < r {
                law_ordering_antisymmetric(data, syms, a as nat, b as nat);
            }
        },
        _ => {},
    }
}

/// Comparing two values the other way round gives the reverse ordering: what is
/// less one way is greater the other, equal stays equal, and values that cannot be
/// ordered cannot be ordered either way.
pub proof fn law_ordering_antisymmetric(data: Seq<DataView>, syms: Seq<(Seq<char>, u64)>, l: nat, r: nat)
    ensures
        ordering(data, syms, r, l) == reverse_opt(ordering(data, syms, l, r)),
    decreases l + r, 1nat,
{
    if l < data.len() && r < data.len() {
        match (data[l as int], data[r as int]) {
            (DataView::Symbol(a), DataView::Symbol(b)) => {
                if a != b {
                    match (symbol_name(syms, a), symbol_name(syms, b)) {
                        (Some(x), Some(y)) => lemma_lex_order_antisymmetric(x, y),
                        _ => {},
                    }
                }
            },
            (DataView::CharacterList(a), DataView::CharacterList(b)) => lemma_lex_order_antisymmetric(a, b),
            (DataView::Pair(a1, b1), DataView::Pair(a2, b2)) => {
                lemma_parts_equal_symmetric(data, syms, l, r, Some(a1), Some(a2));
                lemma_parts_equal_symmetric(data, syms, l, r, Some(b1), Some(b2));
            },
            (DataView::Range(p), DataView::Range(q)) => {
                lemma_parts_equal_symmetric(data, syms, l, r, p.start, q.start);
                lemma_parts_equal_symmetric(data, syms, l, r, p.end, q.end);
                lemma_parts_equal_symmetric(data, syms, l, r, p.step, q.step);
            },
            (DataView::List(a, _), DataView::List(b, _)) => {
                if a.len() == b.len() {
                    lemma_items_equal(data, syms, l, r, a, b, 0);
                    lemma_items_equal(data, syms, r, l, b, a, 0);
                    assert forall|j: int|
                        #![trigger ordering(data, syms, a[j] as nat, b[j] as nat)]
                        #![trigger ordering(data, syms, b[j] as nat, a[j] as nat)]
                        0 <= j < a.len() && a[j] < l && b[j] < r implies
                        (ordering(data, syms, a[j] as nat, b[j] as nat) == Some(ValueOrder::Equal)
                        <==> ordering(data, syms, b[j] as nat, a[j] as nat) == Some(ValueOrder::Equal)) by {
                        law_ordering_antisymmetric(data, syms, a[j] as nat, b[j] as nat);
                    }
                }
            },
            _ => {},
        }
    }
}


/// Two lists are equal exactly when they have as many items and their items are
/// equal one by one; a list is never less or greater than another.
pub proof fn law_list_equality(data: Seq<DataView>, syms: Seq<(Seq<char>, u64)>, l: nat, r: nat,
    a: Seq<usize>, ka: Seq<usize>, b: Seq<usize>, kb: Seq<usize>)
    requires
        crate::runtime::data_wf(data),
        l < data.len(),
        r < data.len(),
        data[l as int] == DataView::List(a, ka),
        data[r as int] == DataView::List(b, kb),
    ensures
        ordering(data, syms, l, r) == Some(ValueOrder::Equal) <==> (a.len() == b.len()
            && forall|j: int| 0 <= j < a.len() ==> #[trigger] ordering(data, syms, a[j] as nat, b[j] as nat) == Some(ValueOrder::Equal)),
        ordering(data, syms, l, r) != Some(ValueOrder::Less),
        ordering(data, syms, l, r) != Some(ValueOrder::Greater),
{
    assert(crate::runtime::stored_refs_ok(data[l as int], l as int, data.len() as int));
    assert(crate::runtime::stored_refs_ok(data[r as int], r as int, data.len() as int));
    if a.len() == b.len() {
        lemma_items_equal(data, syms, l, r, a, b, 0);
        assert forall|j: int| 0 <= j < a.len() implies a[j] < l && b[j] < r by {
            assert(a[j] < l);
            assert(b[j] < r);
        }
    }
}

/// Two ranges are equal exactly when they exclude the same ends and their start, end
/// and step are both absent or both present and equal; a range is never less or
/// greater than another.
pub proof fn law_range_equality(data: Seq<DataView>, syms: Seq<(Seq<char>, u64)>, l: nat, r: nat,
    p: RangeParts, q: RangeParts)
    requires
        crate::runtime::data_wf(data),
        l < data.len(),
        r < data.len(),
        data[l as int] == DataView::Range(p),
        data[r as int] == DataView::Range(q),
    ensures
        ordering(data, syms, l, r) == Some(ValueOrder::Equal) <==> {
            &&& p.start_exclusive == q.start_exclusive
            &&& p.end_exclusive == q.end_exclusive
            &&& match (p.start, q.start) {
                (Some(x), Some(y)) => ordering(data, syms, x as nat, y as nat) == Some(ValueOrder::Equal),
                (None, None) => true,
                _ => false,
            }
            &&& match (p.end, q.end) {
                (Some(x), Some(y)) => ordering(data, syms, x as nat, y as nat) == Some(ValueOrder::Equal),
                (None, None) => true,
                _ => false,
            }
            &&& match (p.step, q.step) {
                (Some(x), Some(y)) => ordering(data, syms, x as nat, y as nat) == Some(ValueOrder::Equal),
                (None, None) => true,
                _ => false,
            }
        },
        ordering(data, syms, l, r) != Some(ValueOrder::Less),
        ordering(data, syms, l, r) != Some(ValueOrder::Greater),
{
    assert(crate::runtime::stored_refs_ok(data[l as int], l as int, data.len() as int));
    assert(crate::runtime::stored_refs_ok(data[r as int], r as int, data.len() as int));
}

/// Integers are ordered as numbers: one is less than another exactly when it is
/// smaller, and equal exactly when it is the same.
pub proof fn law_integer_ordering(data: Seq<DataView>, syms: Seq<(Seq<char>, u64)>, l: nat, r: nat, x: i32, y: i32)
    requires
        l < data.len(),
        r < data.len(),
        data[l as int] == DataView::Integer(x),
        data[r as int] == DataView::Integer(y),
    ensures
        ordering(data, syms, l, r) == Some(ValueOrder::Less) <==> x < y,
        ordering(data, syms, l, r) == Some(ValueOrder::Equal) <==> x == y,
        ordering(data, syms, l, r) == Some(ValueOrder::Greater) <==> x > y,
{
}

/// Characters are ordered by their scalar values.
pub proof fn law_character_ordering(data: Seq<DataView>, syms: Seq<(Seq<char>, u64)>, l: nat, r: nat, x: char, y: char)
    requires
        l < data.len(),
        r < data.len(),
        data[l as int] == DataView::Character(x),
        data[r as int] == DataView::Character(y),
    ensures
        ordering(data, syms, l, r) == Some(ValueOrder::Less) <==> (x as u32) < (y as u32),
        ordering(data, syms, l, r) == Some(ValueOrder::Equal) <==> x == y,
        ordering(data, syms, l, r) == Some(ValueOrder::Greater) <==> (x as u32) > (y as u32),
{
}

/// Lexicographic order finds two character sequences equal exactly when they are the same.
proof fn lemma_lex_order_equal(a: Seq<char>, b: Seq<char>)
    ensures
        lex_order(a, b) == ValueOrder::Equal <==> a == b,
    decreases a.len(),
{
    if a.len() > 0 && b.len() > 0 {
        lemma_lex_order_equal(a.drop_first(), b.drop_first());
        if a.drop_first() == b.drop_first() && a[0] == b[0] {
            assert forall|i: int| 0 <= i < a.len() implies a[i] == b[i] by {
                if i > 0 {
                    assert(a[i] == a.drop_first()[i - 1]);
                    assert(b[i] == b.drop_first()[i - 1]);
                }
            }
            assert(a =~= b);
        }
        if a == b {
            assert(a.drop_first() =~= b.drop_first());
        }
        if a[0] != b[0] {
            assert(a != b);
        }
    } else if a.len() != b.len() {
        assert(a != b);
    } else {
        assert(a =~= b);
    }
}

/// A sequence that is a proper prefix of another comes before it.
proof fn lemma_lex_order_prefix(a: Seq<char>, b: Seq<char>)
    requires
        a.len() < b.len(),
        a == b.subrange(0, a.len() as int),
    ensures
        lex_order(a, b) == ValueOrder::Less,
    decreases a.len(),
{
    if a.len() > 0 {
        assert(a[0] == b[0]);
        assert(a.drop_first() =~= b.drop_first().subrange(0, a.len() - 1));
        lemma_lex_order_prefix(a.drop_first(), b.drop_first());
    }
}

/// Two character lists are equal exactly when they hold the same characters, and a
/// character list comes before every longer one that it starts.
pub proof fn law_text_ordering(data: Seq<DataView>, syms: Seq<(Seq<char>, u64)>, l: nat, r: nat, a: Seq<char>, b: Seq<char>)
    requires
        l < data.len(),
        r < data.len(),
        data[l as int] == DataView::CharacterList(a),
        data[r as int] == DataView::CharacterList(b),
    ensures
        ordering(data, syms, l, r) == Some(ValueOrder::Equal) <==> a == b,
        a.len() < b.len() && a == b.subrange(0, a.len() as int) ==> ordering(data, syms, l, r) == Some(ValueOrder::Less),
{
    lemma_lex_order_equal(a, b);
    if a.len() < b.len() && a == b.subrange(0, a.len() as int) {
        lemma_lex_order_prefix(a, b);
    }
}

/// Where two character sequences first differ, the smaller character decides.
proof fn lemma_lex_order_first_difference(a: Seq<char>, b: Seq<char>, k: int)
    requires
        0 <= k < a.len(),
        k < b.len(),
        a.subrange(0, k) == b.subrange(0, k),
        (a[k] as int) < (b[k] as int),
    ensures
        lex_order(a, b) == ValueOrder::Less,
    decreases k,
{
    if k > 0 {
        assert(a[0] == a.subrange(0, k)[0]);
        assert(b[0] == b.subrange(0, k)[0]);
        assert(a.drop_first().subrange(0, k - 1) =~= a.subrange(0, k).drop_first());
        assert(b.drop_first().subrange(0, k - 1) =~= b.subrange(0, k).drop_first());
        lemma_lex_order_first_difference(a.drop_first(), b.drop_first(), k - 1);
    }
}

/// A character list comes before another when, where they first differ, its
/// character is the smaller.
pub proof fn law_text_first_difference(data: Seq<DataView>, syms: Seq<(Seq<char>, u64)>, l: nat, r: nat,
    a: Seq<char>, b: Seq<char>, k: int)
    requires
        l < data.len(),
        r < data.len(),
        data[l as int] == DataView::CharacterList(a),
        data[r as int] == DataView::CharacterList(b),
        0 <= k < a.len(),
        k < b.len(),
        a.subrange(0, k) == b.subrange(0, k),
        (a[k] as int) < (b[k] as int),
    ensures
        ordering(data, syms, l, r) == Some(ValueOrder::Less),
        ordering(data, syms, r, l) == Some(ValueOrder::Greater),
{
    lemma_lex_order_first_difference(a, b, k);
    law_ordering_antisymmetric(data, syms, l, r);
}

/// Values of different kinds are never equal, and cannot be ordered, except a
/// character against a character list.
pub proof fn law_different_kinds_unordered(data: Seq<DataView>, syms: Seq<(Seq<char>, u64)>, l: nat, r: nat)
    requires
        l < data.len(),
        r < data.len(),
        type_of(data[l as int]) != type_of(data[r as int]),
        !(data[l as int] is Character && data[r as int] is CharacterList),
        !(data[l as int] is CharacterList && data[r as int] is Character),
    ensures
        ordering(data, syms, l, r) is None,
{
}

/// A symbol equals itself; two symbols of different values whose names differ are
/// not equal, and are ordered as their names are.
pub proof fn law_symbol_ordering(data: Seq<DataView>, syms: Seq<(Seq<char>, u64)>, l: nat, r: nat, a: u64, b: u64)
    requires
        l < data.len(),
        r < data.len(),
        data[l as int] == DataView::Symbol(a),
        data[r as int] == DataView::Symbol(b),
    ensures
        a == b ==> ordering(data, syms, l, r) == Some(ValueOrder::Equal),
        a != b && symbol_name(syms, a) is Some && symbol_name(syms, b) is Some
            && symbol_name(syms, a) != symbol_name(syms, b) ==> ordering(data, syms, l, r) != Some(ValueOrder::Equal),
        a != b && (symbol_name(syms, a) is None || symbol_name(syms, b) is None) ==> ordering(data, syms, l, r) is None,
{
    if a != b {
        if let (Some(x), Some(y)) = (symbol_name(syms, a), symbol_name(syms, b)) {
            lemma_lex_order_equal(x, y);
        }
    }
}

/// A character equals the character list of just that character; it comes after the
/// empty character list and before any list of more than one character.
pub proof fn law_character_against_text(data: Seq<DataView>, syms: Seq<(Seq<char>, u64)>, l: nat, r: nat, c: char,
    cs: Seq<char>)
    requires
        l < data.len(),
        r < data.len(),
        data[l as int] == DataView::Character(c),
        data[r as int] == DataView::CharacterList(cs),
    ensures
        cs == seq![c] ==> ordering(data, syms, l, r) == Some(ValueOrder::Equal)
            && ordering(data, syms, r, l) == Some(ValueOrder::Equal),
        cs.len() == 0 ==> ordering(data, syms, l, r) == Some(ValueOrder::Greater),
        cs.len() > 1 ==> ordering(data, syms, l, r) == Some(ValueOrder::Less),
        cs.len() == 1 && cs[0] != c ==> ordering(data, syms, l, r) != Some(ValueOrder::Equal),
{
}

} // verus!
