use vstd::prelude::*;
use crate::data::{Data, DataType, DataView, type_of, seq_below};
use crate::runtime::{ExpressionRuntime, RuntimeError, RuntimeView};

verus! {

/// The value at `r` is a pair keyed by a symbol or a character list.
pub open spec fn is_association(data: Seq<DataView>, r: int) -> bool {
    match data[r] {
        DataView::Pair(k, _) => k < data.len() && (type_of(data[k as int]) == DataType::Symbol
            || type_of(data[k as int]) == DataType::CharacterList),
        _ => false,
    }
}

/// The items of `items` that are associations, in order.
pub open spec fn association_keys(data: Seq<DataView>, items: Seq<usize>) -> Seq<usize>
    decreases items.len(),
{
    if items.len() == 0 {
        Seq::empty()
    } else {
        let rest = association_keys(data, items.drop_last());
        if is_association(data, items.last() as int) {
            rest.push(items.last())
        } else {
            rest
        }
    }
}

/// Every association key is one of the items.
pub proof fn lemma_association_keys_below(data: Seq<DataView>, items: Seq<usize>, n: int)
    requires
        seq_below(items, n),
    ensures
        seq_below(association_keys(data, items), n),
    decreases items.len(),
{
    if items.len() > 0 {
        lemma_association_keys_below(data, items.drop_last(), n);
    }
}

/// Where the list being made starts in the registers.
pub open spec fn list_start(v: RuntimeView) -> int {
    if v.lists.last() <= v.registers.len() { v.lists.last() as int } else { v.registers.len() as int }
}

/// The items of the list being made: the registers from its start on.
pub open spec fn list_items(v: RuntimeView) -> Seq<usize> {
    v.registers.subrange(list_start(v), v.registers.len() as int)
}

/// The runtime after making a list of the registers from the most recent list start on.
pub open spec fn made_list(v: RuntimeView) -> RuntimeView {
    (RuntimeView {
        lists: v.lists.drop_last(),
        registers: v.registers.subrange(0, list_start(v)),
        ..v
    }).with_pushed(DataView::List(list_items(v), association_keys(v.data, list_items(v))))
}

impl ExpressionRuntime {
    /// Whether the value at `r` is a pair keyed by a symbol or a character list.
    pub fn is_association_at(&self, r: usize) -> (b: bool)
        requires
            self@.wf(),
            r < self@.data.len(),
        ensures
            b == is_association(self@.data, r as int),
    {
        match self.get_data(r) {
            Data::Pair(k, _) => {
                let k = *k;
                if k < self.data_len() {
                    let t = self.get_data(k).get_type();
                    t == DataType::Symbol || t == DataType::CharacterList
                } else {
                    false
                }
            },
            _ => false,
        }
    }

    /// The items of `items` that are associations, in order.
    pub fn association_keys_of(&self, items: &Vec<usize>) -> (keys: Vec<usize>)
        requires
            self@.wf(),
            seq_below(items@, self@.data.len() as int),
        ensures
            keys@ == association_keys(self@.data, items@),
    {
        let mut keys: Vec<usize> = Vec::new();
        let mut k: usize = 0;
        while k < items.len()
            invariant
                self@.wf(),
                seq_below(items@, self@.data.len() as int),
                k <= items@.len(),
                keys@ == association_keys(self@.data, items@.subrange(0, k as int)),
            decreases items@.len() - k,
        {
            let r = items[k];
            assert(items@.subrange(0, k + 1).drop_last() =~= items@.subrange(0, k as int));
            if self.is_association_at(r) {
                keys.push(r);
            }
            k = k + 1;
        }
        assert(items@.subrange(0, items@.len() as int) =~= items@);
        keys
    }

    /// Marks the start of a list: the values referred to by the registers added
    /// from now on become its items.
    pub fn start_list(&mut self)
        requires
            old(self)@.wf(),
        ensures
            final(self)@ == (RuntimeView { lists: old(self)@.lists.push(old(self)@.registers.len() as usize), ..old(self)@ }),
            final(self)@.wf(),
    {
        self.push_list_start();
    }

    /// Replaces the registers from the most recent list start on by a new list of
    /// the values they refer to. Its associations are the items that are pairs keyed
    /// by a symbol or a character list.
    pub fn make_list(&mut self) -> (r: Result<(), RuntimeError>)
        requires
            old(self)@.wf(),
            old(self)@.data.len() + 1 < usize::MAX,
        ensures
            final(self)@.wf(),
            old(self)@.lists.len() == 0 ==> r == Err::<(), RuntimeError>(RuntimeError::NoListStarted)
                && final(self)@ == old(self)@,
            old(self)@.lists.len() > 0 ==> r is Ok && final(self)@ == made_list(old(self)@),
    {
        let start = match self.pop_list_start() {
            None => return Err(RuntimeError::NoListStarted),
            Some(s) => s,
        };
        let count = self.register_count();
        let start = if start <= count { start } else { count };
        let items = self.take_registers_from(start);
        let keys = self.association_keys_of(&items);
        proof {
            lemma_association_keys_below(self@.data, items@, self@.data.len() as int);
        }
        self.push_value(Data::List(items, keys));
        Ok(())
    }
}

} // verus!
