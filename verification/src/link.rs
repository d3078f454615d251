use vstd::prelude::*;
use crate::access::{RangeLength, RangeLengthOf, range_length, range_length_defined};
use crate::data::{Data, DataView, refs_below};
use crate::runtime::{ExpressionRuntime, RuntimeError, RuntimeView};

verus! {

/// The first link of the chain the link at `i` is in.
pub open spec fn chain_start(data: Seq<DataView>, i: usize) -> usize {
    match data[i as int] {
        DataView::Link(Some(h), _, _) => h,
        _ => i,
    }
}

/// The values of the links from the link at `i` to the last of its chain.
pub open spec fn chain_values(data: Seq<DataView>, i: nat) -> Seq<usize>
    decreases data.len() - i,
{
    if i >= data.len() {
        Seq::empty()
    } else {
        match data[i as int] {
            DataView::Link(_, v, next) => match next {
                Some(x) => if i < x < data.len() { seq![v] + chain_values(data, x as nat) } else { seq![v] },
                None => seq![v],
            },
            _ => Seq::empty(),
        }
    }
}

/// The value at `s`, followed through the values that slices are taken from, is a
/// character or a character list.
pub open spec fn slices_characters(data: Seq<DataView>, s: nat) -> bool
    decreases s,
{
    if s >= data.len() {
        false
    } else {
        match data[s as int] {
            DataView::Slice(src, _) => if (src as nat) < s { slices_characters(data, src as nat) } else { false },
            DataView::CharacterList(_) | DataView::Character(_) => true,
            _ => false,
        }
    }
}

/// How many items a linked value counts for: as items of a list and as characters
/// of a text, and whether it is text.
pub enum ItemCount {
    Counted(int, int, bool),
    Infinite,
    Unknown,
    Invalid,
}

/// A list counts its items; a character list counts once as an item and by its
/// characters as text; a slice counts the length of its range, as text when it is
/// taken from text; a character counts once as text; anything else once.
pub open spec fn link_item_count(data: Seq<DataView>, p: usize) -> ItemCount {
    match data[p as int] {
        DataView::List(items, _) => ItemCount::Counted(items.len() as int, items.len() as int, false),
        DataView::CharacterList(cs) => ItemCount::Counted(1, cs.len() as int, true),
        DataView::Slice(source, range) => match data[range as int] {
            DataView::Range(rp) => match range_length(data, rp) {
                RangeLength::Finite(n) => ItemCount::Counted((n as usize) as int, (n as usize) as int,
                    slices_characters(data, source as nat)),
                RangeLength::Infinite => ItemCount::Infinite,
                RangeLength::Unknown => ItemCount::Unknown,
                RangeLength::Invalid => ItemCount::Invalid,
            },
            _ => ItemCount::Invalid,
        },
        DataView::Character(_) => ItemCount::Counted(1, 1, true),
        _ => ItemCount::Counted(1, 1, false),
    }
}

/// The counts of the linked values, added up in order; the first value that has
/// no finite count decides.
pub open spec fn chain_count(data: Seq<DataView>, values: Seq<usize>) -> ItemCount
    decreases values.len(),
{
    if values.len() == 0 {
        ItemCount::Counted(0, 0, true)
    } else {
        match chain_count(data, values.drop_last()) {
            ItemCount::Counted(l, c, ch) => match link_item_count(data, values.last()) {
                ItemCount::Counted(l2, c2, ch2) => ItemCount::Counted(l + l2, c + c2, ch && ch2),
                other => other,
            },
            other => other,
        }
    }
}

/// Counting a linked value does not overflow: the length of a sliced range can be
/// computed.
pub open spec fn link_item_defined(data: Seq<DataView>, p: usize) -> bool {
    match data[p as int] {
        DataView::Slice(_, range) => match data[range as int] {
            DataView::Range(rp) => range_length_defined(data, rp),
            _ => true,
        },
        _ => true,
    }
}

/// Adding up the counts of the linked values does not overflow: every value counted
/// can be, and every sum fits in a `usize`.
pub open spec fn chain_count_defined(data: Seq<DataView>, values: Seq<usize>) -> bool
    decreases values.len(),
{
    values.len() == 0 || (chain_count_defined(data, values.drop_last())
        && (chain_count(data, values.drop_last()) is Counted ==> link_item_defined(data, values.last())
            && match chain_count(data, values) {
                ItemCount::Counted(l, c, _) => l <= usize::MAX && c <= usize::MAX,
                _ => true,
            }))
}

/// The length of the chain the link at `i` is in: its characters when all its
/// values are text, else its items, taken as an `i32` (wrapping when it does not fit).
pub open spec fn link_length(data: Seq<DataView>, i: usize) -> RangeLength {
    match chain_count(data, chain_values(data, chain_start(data, i) as nat)) {
        ItemCount::Counted(l, c, ch) => RangeLength::Finite(((if ch { c } else { l }) as usize) as i32),
        ItemCount::Infinite => RangeLength::Infinite,
        ItemCount::Unknown => RangeLength::Unknown,
        ItemCount::Invalid => RangeLength::Invalid,
    }
}

/// Computing the length of the chain the link at `i` is in does not overflow.
pub open spec fn link_length_defined(data: Seq<DataView>, i: usize) -> bool {
    chain_count_defined(data, chain_values(data, chain_start(data, i) as nat))
}

/// Linking the value in the second-to-last register to the one in the last register,
/// both removed: a link is extended by a new last link holding the value; two other
/// values make a new chain of two links; a value cannot be linked to a link, which
/// gives unit. The new last link is referred to by a new last register.
pub open spec fn linked(v: RuntimeView) -> (Result<(), RuntimeError>, RuntimeView) {
    if v.registers.len() < 2 {
        (Err(RuntimeError::NotEnoughRegisters), v)
    } else {
        let w = v.with_consumed(2);
        let left = v.second_last_reg();
        let right = v.last_reg();
        let n = v.data.len();
        match v.data[left as int] {
            DataView::Link(h, lv, _) => {
                let head = match h { Some(x) => x, None => left };
                let w1 = w.with_pushed(DataView::Link(Some(head), right, None));
                (Ok(()), RuntimeView { data: w1.data.update(left as int, DataView::Link(h, lv, Some(n as usize))), ..w1 })
            },
            _ => if v.data[right as int] is Link {
                (Ok(()), w.with_pushed(DataView::Unit))
            } else {
                (Ok(()), RuntimeView {
                    data: v.data.push(DataView::Link(None, left, Some((n + 1) as usize)))
                        .push(DataView::Link(Some(n as usize), right, None)),
                    registers: w.registers.push((n + 1) as usize),
                    ..w
                })
            },
        }
    }
}


impl ExpressionRuntime {
    /// Links the value in the second-to-last register to the one in the last register.
    pub fn make_link(&mut self) -> (r: Result<(), RuntimeError>)
        requires
            old(self)@.wf(),
            old(self)@.data.len() + 2 < usize::MAX,
        ensures
            final(self)@.wf(),
            r == linked(old(self)@).0,
            final(self)@ == linked(old(self)@).1,
    {
        let (left, right) = match self.consume_last_two_refs() {
            Err(e) => return Err(e),
            Ok(x) => x,
        };
        proof {
            crate::runtime::lemma_register_in_bounds(old(self)@, old(self)@.registers.len() - 1);
            crate::runtime::lemma_register_in_bounds(old(self)@, old(self)@.registers.len() - 2);
            crate::runtime::lemma_value_refs(old(self)@, old(self)@.second_last_reg() as int);
        }
        let left_head: Option<Option<usize>> = match self.get_data(left) {
            Data::Link(h, _, _) => Some(*h),
            _ => None,
        };
        match left_head {
            Some(h) => {
                let head = match h {
                    Some(x) => x,
                    None => left,
                };
                let n = self.push_value(Data::Link(Some(head), right, None));
                self.set_link_next(left, n);
                proof {
                    assert(final(self)@ =~= linked(old(self)@).1);
                }
            },
            None => {
                let right_is_link = match self.get_data(right) {
                    Data::Link(_, _, _) => true,
                    _ => false,
                };
                if right_is_link {
                    self.push_value(Data::Unit);
                } else {
                    let first = self.add_value(Data::Link(None, left, None));
                    let second = self.push_value(Data::Link(Some(first), right, None));
                    self.set_link_next(first, second);
                    proof {
                        assert(final(self)@.data =~= linked(old(self)@).1.data);
                        assert(final(self)@ =~= linked(old(self)@).1);
                    }
                }
            },
        }
        Ok(())
    }
}

/// How many items a linked value counts for, computed.
pub enum ItemCountOf {
    Counted(usize, usize, bool),
    Infinite,
    Unknown,
    Invalid,
}

impl View for ItemCountOf {
    type V = ItemCount;

    open spec fn view(&self) -> ItemCount {
        match self {
            ItemCountOf::Counted(l, c, ch) => ItemCount::Counted(*l as int, *c as int, *ch),
            ItemCountOf::Infinite => ItemCount::Infinite,
            ItemCountOf::Unknown => ItemCount::Unknown,
            ItemCountOf::Invalid => ItemCount::Invalid,
        }
    }
}

/// A prefix of values that can be added up can be added up too.
proof fn lemma_chain_count_defined_prefix(data: Seq<DataView>, values: Seq<usize>, k: int)
    requires
        0 <= k <= values.len(),
        chain_count_defined(data, values),
    ensures
        chain_count_defined(data, values.subrange(0, k)),
    decreases values.len() - k,
{
    if k < values.len() {
        assert(values.drop_last() =~= values.subrange(0, values.len() - 1));
        lemma_chain_count_defined_prefix(data, values.drop_last(), k);
        assert(values.drop_last().subrange(0, k) =~= values.subrange(0, k));
    } else {
        assert(values.subrange(0, k) =~= values);
    }
}

impl ExpressionRuntime {
    /// The values of the links from the link at `start` to the last of its chain.
    pub fn chain_values_of(&self, start: usize) -> (vs: Vec<usize>)
        requires
            self@.wf(),
        ensures
            vs@ == chain_values(self@.data, start as nat),
    {
        let mut vs: Vec<usize> = Vec::new();
        let n = self.data_len();
        if start >= n {
            return vs;
        }
        let mut cur = start;
        loop
            invariant
                n == self@.data.len(),
                cur < n,
                vs@ + chain_values(self@.data, cur as nat) == chain_values(self@.data, start as nat),
            decreases n - cur,
        {
            let (v, next) = match self.get_data(cur) {
                Data::Link(_, v, next) => (*v, *next),
                _ => {
                    assert(vs@ + Seq::<usize>::empty() =~= vs@);
                    return vs;
                },
            };
            let ghost before = vs@;
            vs.push(v);
            match next {
                Some(x) => {
                    if cur < x && x < n {
                        assert(before + chain_values(self@.data, cur as nat) =~= vs@ + chain_values(self@.data, x as nat));
                        cur = x;
                    } else {
                        assert(before + chain_values(self@.data, cur as nat) =~= vs@);
                        return vs;
                    }
                },
                None => {
                    assert(before + chain_values(self@.data, cur as nat) =~= vs@);
                    return vs;
                },
            }
        }
    }

    /// Whether the value at `s`, followed through slices, is text.
    fn slices_characters_of(&self, s: usize) -> (b: bool)
        requires
            self@.wf(),
        ensures
            b == slices_characters(self@.data, s as nat),
    {
        let n = self.data_len();
        if s >= n {
            return false;
        }
        let mut cur = s;
        loop
            invariant
                n == self@.data.len(),
                self@.wf(),
                cur < n,
                slices_characters(self@.data, cur as nat) == slices_characters(self@.data, s as nat),
            decreases cur,
        {
            proof {
                crate::runtime::lemma_value_refs(self@, cur as int);
            }
            match self.get_data(cur) {
                Data::Slice(src, _) => {
                    if *src < cur {
                        cur = *src;
                    } else {
                        return false;
                    }
                },
                Data::CharacterList(_) | Data::Character(_) => return true,
                _ => return false,
            }
        }
    }

    /// How many items the value at `p` counts for in a chain; `None` when counting
    /// it would overflow.
    fn link_item_count_of(&self, p: usize) -> (c: Option<ItemCountOf>)
        requires
            self@.wf(),
            p < self@.data.len(),
        ensures
            c is None <==> !link_item_defined(self@.data, p),
            c matches Some(x) ==> x@ == link_item_count(self@.data, p),
    {
        proof {
            crate::runtime::lemma_value_refs(self@, p as int);
        }
        match self.get_data(p) {
            Data::List(items, _) => {
                Some(ItemCountOf::Counted(items.len(), items.len(), false))
            },
            Data::CharacterList(cs) => {
                Some(ItemCountOf::Counted(1, cs.len(), true))
            },
            Data::Slice(source, range) => {
                let (source, range) = (*source, *range);
                proof {
                    crate::runtime::lemma_value_refs(self@, range as int);
                }
                match self.get_data(range) {
                    Data::Range(rp) => {
                        let rp = *rp;
                        if !self.range_length_defined_of(rp) {
                            return None;
                        }
                        Some(match self.range_length_of(range, rp) {
                            RangeLengthOf::Finite(k) => ItemCountOf::Counted(k as usize, k as usize, self.slices_characters_of(source)),
                            RangeLengthOf::Infinite => ItemCountOf::Infinite,
                            RangeLengthOf::Unknown => ItemCountOf::Unknown,
                            RangeLengthOf::Invalid => ItemCountOf::Invalid,
                        })
                    },
                    _ => Some(ItemCountOf::Invalid),
                }
            },
            Data::Character(_) => Some(ItemCountOf::Counted(1, 1, true)),
            _ => Some(ItemCountOf::Counted(1, 1, false)),
        }
    }

    /// The counts of the values `values`, added up; `None` when that would overflow.
    pub fn chain_count_of(&self, values: &Vec<usize>) -> (c: Option<ItemCountOf>)
        requires
            self@.wf(),
            crate::data::seq_below(values@, self@.data.len() as int),
        ensures
            c is None <==> !chain_count_defined(self@.data, values@),
            c matches Some(x) ==> x@ == chain_count(self@.data, values@),
    {
        let mut acc = ItemCountOf::Counted(0, 0, true);
        let mut k: usize = 0;
        assert(values@.subrange(0, 0) =~= Seq::<usize>::empty());
        while k < values.len()
            invariant
                self@.wf(),
                crate::data::seq_below(values@, self@.data.len() as int),
                k <= values@.len(),
                chain_count_defined(self@.data, values@.subrange(0, k as int)),
                acc@ == chain_count(self@.data, values@.subrange(0, k as int)),
            decreases values@.len() - k,
        {
            let ghost prefix = values@.subrange(0, k as int);
            let ghost next = values@.subrange(0, k + 1);
            assert(next.drop_last() =~= prefix);
            assert(next.last() == values@[k as int]);
            match acc {
                ItemCountOf::Counted(l, c, ch) => {
                    match self.link_item_count_of(values[k]) {
                        None => {
                            proof {
                                if chain_count_defined(self@.data, values@) {
                                    lemma_chain_count_defined_prefix(self@.data, values@, k + 1);
                                }
                            }
                            return None;
                        },
                        Some(ItemCountOf::Counted(l2, c2, ch2)) => {
                            if l2 > usize::MAX - l || c2 > usize::MAX - c {
                                proof {
                                    if chain_count_defined(self@.data, values@) {
                                        lemma_chain_count_defined_prefix(self@.data, values@, k + 1);
                                    }
                                }
                                return None;
                            }
                            acc = ItemCountOf::Counted(l + l2, c + c2, ch && ch2);
                        },
                        Some(other) => {
                            acc = other;
                        },
                    }
                },
                _ => {},
            }
            k = k + 1;
        }
        assert(values@.subrange(0, values@.len() as int) =~= values@);
        Some(acc)
    }
}

impl ExpressionRuntime {
    /// The first link of the chain the link at `i` is in.
    fn chain_start_of(&self, i: usize) -> (s: usize)
        requires
            self@.wf(),
            i < self@.data.len(),
        ensures
            s == chain_start(self@.data, i),
    {
        match self.get_data(i) {
            Data::Link(Some(h), _, _) => *h,
            _ => i,
        }
    }

    /// Whether the length of the chain the link at `i` is in can be computed.
    pub fn link_length_defined_of(&self, i: usize) -> (b: bool)
        requires
            self@.wf(),
            i < self@.data.len(),
        ensures
            b == link_length_defined(self@.data, i),
    {
        let start = self.chain_start_of(i);
        let values = self.chain_values_of(start);
        proof {
            lemma_chain_values_below(self@, start as nat);
        }
        self.chain_count_of(&values).is_some()
    }

    /// The length of the chain the link at `i` is in.
    pub fn link_length_of(&self, i: usize) -> (l: RangeLengthOf)
        requires
            self@.wf(),
            i < self@.data.len(),
            link_length_defined(self@.data, i),
        ensures
            l@ == link_length(self@.data, i),
    {
        let start = self.chain_start_of(i);
        let values = self.chain_values_of(start);
        proof {
            lemma_chain_values_below(self@, start as nat);
        }
        match self.chain_count_of(&values) {
            Some(ItemCountOf::Counted(l, c, ch)) => RangeLengthOf::Finite(if ch { c as i32 } else { l as i32 }),
            Some(ItemCountOf::Infinite) => RangeLengthOf::Infinite,
            Some(ItemCountOf::Unknown) => RangeLengthOf::Unknown,
            _ => RangeLengthOf::Invalid,
        }
    }
}

/// The values of a chain are stored values.
proof fn lemma_chain_values_below(v: RuntimeView, i: nat)
    requires
        v.wf(),
    ensures
        crate::data::seq_below(chain_values(v.data, i), v.data.len() as int),
    decreases v.data.len() - i,
{
    if i < v.data.len() {
        crate::runtime::lemma_value_refs(v, i as int);
        match v.data[i as int] {
            DataView::Link(_, lv, next) => match next {
                Some(x) => if i < x < v.data.len() {
                    lemma_chain_values_below(v, x as nat);
                    let rest = chain_values(v.data, x as nat);
                    assert forall|k: int| 0 <= k < (seq![lv] + rest).len() implies #[trigger] (seq![lv] + rest)[k] < v.data.len() by {
                        if k > 0 {
                            assert((seq![lv] + rest)[k] == rest[k - 1]);
                        }
                    }
                },
                None => {},
            },
            _ => {},
        }
    }
}

/// Linking a value to a link adds a new last link to the same chain: the new link
/// starts where the link's chain starts and holds the value, and the link now leads
/// to it.
pub proof fn law_link_extends_chain(v: RuntimeView)
    requires
        v.wf(),
        v.registers.len() >= 2,
        v.left_operand() is Link,
    ensures
        ({
            let after = linked(v).1;
            let n = v.data.len() as int;
            let left = v.second_last_reg();
            &&& after.registers.last() == n
            &&& after.data[n] == DataView::Link(Some(chain_start(v.data, left)), v.last_reg(), None)
            &&& chain_start(after.data, n as usize) == chain_start(v.data, left)
            &&& after.data[left as int]->Link_2 == Some(n as usize)
        }),
{
}
} // verus!
