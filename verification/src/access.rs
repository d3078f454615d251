use vstd::prelude::*;
use crate::data::{Data, DataType, DataView, RangeParts, type_of};
use crate::runtime::{ExpressionRuntime, RuntimeError, RuntimeView, condition_symbol, symbol_from_condition,
    LEFT_SYMBOL, RIGHT_SYMBOL, BASE_SYMBOL, VALUE_SYMBOL, LENGTH_SYMBOL, KEY_COUNT_SYMBOL, START_SYMBOL, END_SYMBOL,
    STEP_SYMBOL, IS_START_EXCLUSIVE_SYMBOL, IS_END_EXCLUSIVE_SYMBOL, IS_START_OPEN_SYMBOL, IS_END_OPEN_SYMBOL,
    INFINITE_SYMBOL};
use crate::math::abs;
use crate::link::{link_length, link_length_defined};

verus! {

/// What an operation leaves in a new last register: nothing, an existing value, or a new value.
pub enum Outcome {
    Nothing,
    Existing(usize),
    New(DataView),
}

/// The runtime after an operation's outcome is added.
pub open spec fn with_outcome(v: RuntimeView, o: Outcome) -> RuntimeView {
    match o {
        Outcome::Nothing => v,
        Outcome::Existing(r) => v.with_register(r),
        Outcome::New(d) => v.with_pushed(d),
    }
}

/// How keys of associations are told apart.
pub enum KeyId {
    Symbol(u64),
    Characters(Seq<char>),
}

/// The key of an association whose left value is `d`, if it can be a key.
pub open spec fn key_of(d: DataView) -> Option<KeyId> {
    match d {
        DataView::Symbol(s) => Some(KeyId::Symbol(s)),
        DataView::CharacterList(cs) => Some(KeyId::Characters(cs)),
        _ => None,
    }
}

/// The value at `k` is a pair whose key is `key`.
pub open spec fn key_matches(data: Seq<DataView>, k: usize, key: KeyId) -> bool {
    k < data.len() && match data[k as int] {
        DataView::Pair(a, _) => a < data.len() && key_of(data[a as int]) == Some(key),
        _ => false,
    }
}

/// The first association among `keys` whose key is `key`.
pub open spec fn find_key(data: Seq<DataView>, keys: Seq<usize>, key: KeyId) -> Option<usize>
    decreases keys.len(),
{
    if keys.len() == 0 {
        None
    } else if key_matches(data, keys[0], key) {
        Some(keys[0])
    } else {
        find_key(data, keys.drop_first(), key)
    }
}

/// The value associated with `key` in a list with the associations `keys`, or a new unit.
pub open spec fn keyed_outcome(data: Seq<DataView>, keys: Seq<usize>, key: KeyId) -> Outcome {
    match find_key(data, keys, key) {
        Some(k) => Outcome::Existing(data[k as int]->Pair_1),
        None => Outcome::New(DataView::Unit),
    }
}

/// The position an integer index selects among `len` items: negative indices count from the end.
pub open spec fn index_position(index: i32, len: nat) -> Option<int> {
    let n = len as i32;
    if index < 0 {
        if -index > n { None } else { Some(n + index) }
    } else {
        if index >= n { None } else { Some(index as int) }
    }
}

/// Indexing is undefined only for the smallest integer, which cannot be negated.
pub open spec fn index_defined(index: i32) -> bool {
    index != i32::MIN
}

/// Rounding a quotient up; `b` is not zero.
pub open spec fn ceil_div(a: int, b: int) -> int {
    if (a >= 0) == (b > 0) {
        (abs(a) + abs(b) - 1) / abs(b)
    } else {
        -(abs(a) / abs(b))
    }
}

/// The nearest integer to `x` that fits in an `i32`.
pub open spec fn saturate(x: int) -> i32 {
    if x > i32::MAX { i32::MAX } else if x < i32::MIN { i32::MIN } else { x as i32 }
}

/// How many values a range covers.
pub enum RangeLength {
    Finite(i32),
    Infinite,
    /// The bounds are not both integers.
    Unknown,
    /// A value read as an integer is not one.
    Invalid,
}

/// A length divided by a step, rounded up; a zero step never ends.
pub open spec fn stepped_length(data: Seq<DataView>, len: int, step: Option<usize>) -> RangeLength {
    match step {
        None => RangeLength::Finite(len as i32),
        Some(st) => match data[st as int] {
            DataView::Integer(k) => if k == 0 { RangeLength::Infinite } else { RangeLength::Finite(saturate(ceil_div(len, k as int))) },
            _ => RangeLength::Invalid,
        },
    }
}

/// The number of integers a range with two integer bounds covers, counting both
/// bounds unless excluded, divided by its step; a range with an open side is infinite.
pub open spec fn range_length(data: Seq<DataView>, p: RangeParts) -> RangeLength {
    match (p.start, p.end) {
        (Some(s), Some(e)) => match (data[s as int], data[e as int]) {
            (DataView::Integer(a), DataView::Integer(b)) => {
                let base = abs(b - a);
                let len = if p.start_exclusive && p.end_exclusive {
                    if base > 0 { base - 1 } else { base }
                } else if p.start_exclusive || p.end_exclusive {
                    base
                } else {
                    base + 1
                };
                stepped_length(data, len, p.step)
            },
            _ => RangeLength::Unknown,
        },
        _ => RangeLength::Infinite,
    }
}

/// Computing a range's length does not overflow.
pub open spec fn range_length_defined(data: Seq<DataView>, p: RangeParts) -> bool {
    match (p.start, p.end) {
        (Some(s), Some(e)) => match (data[s as int], data[e as int]) {
            (DataView::Integer(a), DataView::Integer(b)) => {
                &&& i32::MIN <= b - a <= i32::MAX
                &&& b - a != i32::MIN
                &&& (!p.start_exclusive && !p.end_exclusive) ==> abs(b - a) + 1 <= i32::MAX
            },
            _ => true,
        },
        _ => true,
    }
}

/// The number of items of the value a slice is taken from.
pub open spec fn source_length(d: DataView) -> Option<nat> {
    match d {
        DataView::List(items, _) => Some(items.len()),
        DataView::CharacterList(cs) => Some(cs.len()),
        _ => None,
    }
}

/// The length of a slice whose range has an open side: the open sides are filled in
/// by the length of the sliced value.
pub open spec fn open_slice_length(data: Seq<DataView>, source: usize, p: RangeParts) -> RangeLength {
    match source_length(data[source as int]) {
        None => RangeLength::Invalid,
        Some(n) => {
            let ll = n as i32;
            match (p.start, p.end) {
                (Some(s), None) => match data[s as int] {
                    DataView::Integer(st) => stepped_length(data, ll - st, p.step),
                    _ => RangeLength::Invalid,
                },
                (None, Some(e)) => match data[e as int] {
                    DataView::Integer(en) => stepped_length(data, ll - (ll - en) + 1, p.step),
                    _ => RangeLength::Invalid,
                },
                _ => stepped_length(data, ll as int, p.step),
            }
        },
    }
}

/// Computing an open slice's length does not overflow.
pub open spec fn open_slice_defined(data: Seq<DataView>, source: usize, p: RangeParts) -> bool {
    match source_length(data[source as int]) {
        None => true,
        Some(n) => {
            let ll = n as i32;
            match (p.start, p.end) {
                (Some(s), None) => match data[s as int] {
                    DataView::Integer(st) => i32::MIN <= ll - st <= i32::MAX,
                    _ => true,
                },
                (None, Some(e)) => match data[e as int] {
                    DataView::Integer(en) => i32::MIN <= ll - en <= i32::MAX
                        && i32::MIN <= ll - (ll - en) <= i32::MAX
                        && ll - (ll - en) + 1 <= i32::MAX,
                    _ => true,
                },
                _ => true,
            }
        },
    }
}

/// An integer length, the infinite symbol or unit, for a range length.
pub open spec fn length_outcome(len: RangeLength) -> Option<Outcome> {
    match len {
        RangeLength::Finite(n) => Some(Outcome::New(DataView::Integer(n))),
        RangeLength::Infinite => Some(Outcome::New(DataView::Symbol(INFINITE_SYMBOL))),
        RangeLength::Unknown => Some(Outcome::New(DataView::Unit)),
        RangeLength::Invalid => None,
    }
}

/// A slice of the value at `left` by the range at `right` when the range's bounds
/// are integers, or unit.
pub open spec fn slice_outcome(data: Seq<DataView>, left: usize, right: usize) -> Outcome {
    let p = data[right as int]->Range_0;
    let start_ok = match p.start { Some(s) => type_of(data[s as int]) == DataType::Integer, None => true };
    let end_ok = match p.end { Some(e) => type_of(data[e as int]) == DataType::Integer, None => true };
    if start_ok && end_ok { Outcome::New(DataView::Slice(left, right)) } else { Outcome::New(DataView::Unit) }
}

/// What accessing the value at `right` of the value at `left` gives: `None` when a
/// value that must be an integer is not one.
pub open spec fn access_outcome(data: Seq<DataView>, left: usize, right: usize) -> Option<Outcome> {
    let rv = data[right as int];
    match data[left as int] {
        DataView::Pair(a, b) => Some(match rv {
            DataView::Symbol(s) => if s == LEFT_SYMBOL { Outcome::Existing(a) } else if s == RIGHT_SYMBOL {
                Outcome::Existing(b) } else { Outcome::New(DataView::Unit) },
            _ => Outcome::New(DataView::Unit),
        }),
        DataView::Partial(b, v) => Some(match rv {
            DataView::Symbol(s) => if s == BASE_SYMBOL { Outcome::Existing(b) } else if s == VALUE_SYMBOL {
                Outcome::Existing(v) } else { Outcome::New(DataView::Unit) },
            _ => Outcome::New(DataView::Unit),
        }),
        DataView::CharacterList(cs) => match rv {
            DataView::Symbol(s) => Some(if s == LENGTH_SYMBOL { Outcome::New(DataView::Integer(cs.len() as i32)) } else { Outcome::Nothing }),
            DataView::Integer(i) => Some(match index_position(i, cs.len()) {
                Some(k) => if k < cs.len() { Outcome::New(DataView::Character(cs[k])) } else { Outcome::New(DataView::Unit) },
                None => Outcome::New(DataView::Unit),
            }),
            DataView::Range(_) => Some(slice_outcome(data, left, right)),
            _ => Some(Outcome::New(DataView::Unit)),
        },
        DataView::Range(p) => match rv {
            DataView::Symbol(s) => if s == IS_START_EXCLUSIVE_SYMBOL {
                Some(Outcome::New(condition_symbol(p.start_exclusive)))
            } else if s == IS_END_EXCLUSIVE_SYMBOL {
                Some(Outcome::New(condition_symbol(p.end_exclusive)))
            } else if s == IS_START_OPEN_SYMBOL {
                Some(Outcome::New(condition_symbol(p.start is None)))
            } else if s == IS_END_OPEN_SYMBOL {
                Some(Outcome::New(condition_symbol(p.end is None)))
            } else if s == LENGTH_SYMBOL {
                length_outcome(range_length(data, p))
            } else if s == START_SYMBOL {
                Some(match p.start { Some(x) => Outcome::Existing(x), None => Outcome::New(DataView::Unit) })
            } else if s == END_SYMBOL {
                Some(match p.end { Some(x) => Outcome::Existing(x), None => Outcome::New(DataView::Unit) })
            } else if s == STEP_SYMBOL {
                Some(match p.step { Some(x) => Outcome::Existing(x), None => Outcome::New(DataView::Unit) })
            } else {
                Some(Outcome::Nothing)
            },
            _ => Some(Outcome::New(DataView::Unit)),
        },
        DataView::List(items, keys) => match rv {
            DataView::Symbol(s) => Some(if s == LENGTH_SYMBOL {
                Outcome::New(DataView::Integer(items.len() as i32))
            } else if s == KEY_COUNT_SYMBOL {
                Outcome::New(DataView::Integer(keys.len() as i32))
            } else {
                keyed_outcome(data, keys, KeyId::Symbol(s))
            }),
            DataView::CharacterList(cs) => Some(keyed_outcome(data, keys, KeyId::Characters(cs))),
            DataView::Integer(i) => Some(match index_position(i, items.len()) {
                Some(k) => if k < items.len() { Outcome::Existing(items[k]) } else { Outcome::New(DataView::Unit) },
                None => Outcome::New(DataView::Unit),
            }),
            DataView::Range(_) => Some(slice_outcome(data, left, right)),
            _ => Some(Outcome::New(DataView::Unit)),
        },
        DataView::Slice(source, range) => match rv {
            DataView::Symbol(_) => match data[range as int] {
                DataView::Range(p) => match range_length(data, p) {
                    RangeLength::Infinite => length_outcome(open_slice_length(data, source, p)),
                    other => length_outcome(other),
                },
                _ => None,
            },
            DataView::Range(_) => Some(slice_outcome(data, left, right)),
            _ => Some(Outcome::New(DataView::Unit)),
        },
        DataView::Link(_, _, _) => match rv {
            DataView::Symbol(_) => length_outcome(link_length(data, left)),
            DataView::Range(_) => Some(slice_outcome(data, left, right)),
            _ => Some(Outcome::New(DataView::Unit)),
        },
        _ => Some(Outcome::New(DataView::Unit)),
    }
}

/// Accessing does not overflow.
pub open spec fn access_defined(data: Seq<DataView>, left: usize, right: usize) -> bool {
    let rv = data[right as int];
    match data[left as int] {
        DataView::CharacterList(_) => match rv { DataView::Integer(i) => index_defined(i), _ => true },
        DataView::List(_, _) => match rv { DataView::Integer(i) => index_defined(i), _ => true },
        DataView::Range(p) => match rv {
            DataView::Symbol(s) => s == LENGTH_SYMBOL ==> range_length_defined(data, p),
            _ => true,
        },
        DataView::Slice(source, range) => match rv {
            DataView::Symbol(_) => match data[range as int] {
                DataView::Range(p) => range_length_defined(data, p) && open_slice_defined(data, source, p)
                    && (range_length(data, p) is Infinite ==> !(p.start is Some && p.end is Some)),
                _ => true,
            },
            _ => true,
        },
        DataView::Link(_, _, _) => match rv {
            DataView::Symbol(_) => link_length_defined(data, left),
            _ => true,
        },
        _ => true,
    }
}


/// The position an integer index selects among `len` items.
fn index_position_of(index: i32, len: usize) -> (p: Option<usize>)
    requires
        index_defined(index),
    ensures
        match index_position(index, len as nat) {
            Some(k) => if 0 <= k < len { p == Some(k as usize) } else { p is None },
            None => p is None,
        },
{
    let n = len as i32;
    let k: i64 = if index < 0 {
        if -index > n { return None; } else { n as i64 + index as i64 }
    } else {
        if index >= n { return None; } else { index as i64 }
    };
    if 0 <= k && (k as u64) < (len as u64) { Some(k as usize) } else { None }
}

/// Rounds `a / b` up, saturating at the bounds of `i32`.
fn ceil_div_of(a: i64, b: i64) -> (q: i32)
    requires
        b != 0,
        i32::MIN <= a <= i32::MAX,
        i32::MIN <= b <= i32::MAX,
    ensures
        q == saturate(ceil_div(a as int, b as int)),
{
    let ua: u64 = if a < 0 { (-a) as u64 } else { a as u64 };
    let ub: u64 = if b < 0 { (-b) as u64 } else { b as u64 };
    let r: i64 = if (a >= 0) == (b > 0) { ((ua + ub - 1) / ub) as i64 } else { -((ua / ub) as i64) };
    if r > i32::MAX as i64 { i32::MAX } else if r < i32::MIN as i64 { i32::MIN } else { r as i32 }
}

/// A length as the value it stands for, or `None` when it is invalid.
fn length_data(len: &RangeLengthOf) -> (d: Option<Data>)
    ensures
        match len@ {
            RangeLength::Invalid => d is None,
            l => d matches Some(x) && length_outcome(l) == Some(Outcome::New(x@)),
        },
{
    match len {
        RangeLengthOf::Finite(n) => Some(Data::Integer(*n)),
        RangeLengthOf::Infinite => Some(Data::Symbol(INFINITE_SYMBOL)),
        RangeLengthOf::Unknown => Some(Data::Unit),
        RangeLengthOf::Invalid => None,
    }
}

/// A range length, computed.
pub enum RangeLengthOf {
    Finite(i32),
    Infinite,
    Unknown,
    Invalid,
}

impl View for RangeLengthOf {
    type V = RangeLength;

    open spec fn view(&self) -> RangeLength {
        match self {
            RangeLengthOf::Finite(n) => RangeLength::Finite(*n),
            RangeLengthOf::Infinite => RangeLength::Infinite,
            RangeLengthOf::Unknown => RangeLength::Unknown,
            RangeLengthOf::Invalid => RangeLength::Invalid,
        }
    }
}

impl ExpressionRuntime {
    fn stepped_length_of(&self, len: i64, step: Option<usize>) -> (l: RangeLengthOf)
        requires
            self@.wf(),
            i32::MIN <= len <= i32::MAX,
            step matches Some(st) ==> st < self@.data.len(),
        ensures
            l@ == stepped_length(self@.data, len as int, step),
    {
        match step {
            None => RangeLengthOf::Finite(len as i32),
            Some(st) => match self.get_data(st) {
                Data::Integer(k) => if *k == 0 {
                    RangeLengthOf::Infinite
                } else {
                    RangeLengthOf::Finite(ceil_div_of(len, *k as i64))
                },
                _ => RangeLengthOf::Invalid,
            },
        }
    }

    /// How many values the range at `range` covers.
    pub(crate) fn range_length_of(&self, range: usize, p: RangeParts) -> (l: RangeLengthOf)
        requires
            self@.wf(),
            range < self@.data.len(),
            self@.data[range as int] == DataView::Range(p),
            range_length_defined(self@.data, p),
        ensures
            l@ == range_length(self@.data, p),
    {
        proof {
            crate::runtime::lemma_value_refs(self@, range as int);
        }
        match (p.start, p.end) {
            (Some(s), Some(e)) => match (self.get_data(s), self.get_data(e)) {
                (Data::Integer(a), Data::Integer(b)) => {
                    let d: i64 = *b as i64 - *a as i64;
                    let base: i64 = if d < 0 { -d } else { d };
                    let len: i64 = if p.start_exclusive && p.end_exclusive {
                        if base > 0 { base - 1 } else { base }
                    } else if p.start_exclusive || p.end_exclusive {
                        base
                    } else {
                        base + 1
                    };
                    self.stepped_length_of(len, p.step)
                },
                _ => RangeLengthOf::Unknown,
            },
            _ => RangeLengthOf::Infinite,
        }
    }

    /// The length of a slice of the value at `source` by a range with an open side.
    fn open_slice_length_of(&self, source: usize, range: usize, p: RangeParts) -> (l: RangeLengthOf)
        requires
            self@.wf(),
            source < self@.data.len(),
            range < self@.data.len(),
            self@.data[range as int] == DataView::Range(p),
            open_slice_defined(self@.data, source, p),
        ensures
            l@ == open_slice_length(self@.data, source, p),
    {
        proof {
            crate::runtime::lemma_value_refs(self@, range as int);
        }
        let n: usize = match self.get_data(source) {
            Data::List(items, _) => items.len(),
            Data::CharacterList(cs) => cs.len(),
            _ => return RangeLengthOf::Invalid,
        };
        let ll: i32 = n as i32;
        match (p.start, p.end) {
            (Some(s), None) => match self.get_data(s) {
                Data::Integer(st) => self.stepped_length_of(ll as i64 - *st as i64, p.step),
                _ => RangeLengthOf::Invalid,
            },
            (None, Some(e)) => match self.get_data(e) {
                Data::Integer(en) => self.stepped_length_of(ll as i64 - (ll as i64 - *en as i64) + 1, p.step),
                _ => RangeLengthOf::Invalid,
            },
            _ => self.stepped_length_of(ll as i64, p.step),
        }
    }

    /// The first association among `keys` keyed by the symbol `s`.
    pub fn find_symbol_key_of(&self, keys: &Vec<usize>, s: u64) -> (k: Option<usize>)
        requires
            self@.wf(),
        ensures
            k == find_key(self@.data, keys@, KeyId::Symbol(s)),
    {
        let mut j: usize = 0;
        assert(keys@.subrange(0, keys@.len() as int) =~= keys@);
        while j < keys.len()
            invariant
                self@.wf(),
                j <= keys@.len(),
                find_key(self@.data, keys@, KeyId::Symbol(s))
                    == find_key(self@.data, keys@.subrange(j as int, keys@.len() as int), KeyId::Symbol(s)),
            decreases keys@.len() - j,
        {
            assert(keys@.subrange(j as int, keys@.len() as int).drop_first() =~= keys@.subrange(j + 1, keys@.len() as int));
            let k = keys[j];
            if k < self.data_len() {
                if let Data::Pair(a, _) = self.get_data(k) {
                    let a = *a;
                    if a < self.data_len() {
                        if let Data::Symbol(t) = self.get_data(a) {
                            if *t == s {
                                return Some(k);
                            }
                        }
                    }
                }
            }
            j = j + 1;
        }
        None
    }

    /// The first association among `keys` keyed by the character list `cs`.
    fn find_characters_key(&self, keys: &Vec<usize>, cs: &Vec<char>) -> (k: Option<usize>)
        requires
            self@.wf(),
        ensures
            k == find_key(self@.data, keys@, KeyId::Characters(cs@)),
    {
        let mut j: usize = 0;
        assert(keys@.subrange(0, keys@.len() as int) =~= keys@);
        while j < keys.len()
            invariant
                self@.wf(),
                j <= keys@.len(),
                find_key(self@.data, keys@, KeyId::Characters(cs@))
                    == find_key(self@.data, keys@.subrange(j as int, keys@.len() as int), KeyId::Characters(cs@)),
            decreases keys@.len() - j,
        {
            assert(keys@.subrange(j as int, keys@.len() as int).drop_first() =~= keys@.subrange(j + 1, keys@.len() as int));
            let k = keys[j];
            if k < self.data_len() {
                if let Data::Pair(a, _) = self.get_data(k) {
                    let a = *a;
                    if a < self.data_len() {
                        if let Data::CharacterList(other) = self.get_data(a) {
                            if chars_equal(other, cs) {
                                return Some(k);
                            }
                        }
                    }
                }
            }
            j = j + 1;
        }
        None
    }
}

/// Whether two character sequences are equal.
pub fn chars_equal(a: &Vec<char>, b: &Vec<char>) -> (e: bool)
    ensures
        e == (a@ == b@),
{
    if a.len() != b.len() {
        return false;
    }
    let mut k: usize = 0;
    while k < a.len()
        invariant
            a@.len() == b@.len(),
            k <= a@.len(),
            forall|j: int| 0 <= j < k ==> a@[j] == b@[j],
        decreases a@.len() - k,
    {
        if a[k] != b[k] {
            return false;
        }
        k = k + 1;
    }
    assert(a@ =~= b@);
    true
}


/// An outcome, computed.
pub enum OutcomeOf {
    Nothing,
    Existing(usize),
    New(Data),
}

impl View for OutcomeOf {
    type V = Outcome;

    open spec fn view(&self) -> Outcome {
        match self {
            OutcomeOf::Nothing => Outcome::Nothing,
            OutcomeOf::Existing(r) => Outcome::Existing(*r),
            OutcomeOf::New(d) => Outcome::New(d@),
        }
    }
}

/// An outcome can be added to a runtime: an existing value is stored, a new value
/// only refers to stored values.
pub open spec fn outcome_fits(v: RuntimeView, o: Outcome) -> bool {
    match o {
        Outcome::Nothing => true,
        Outcome::Existing(r) => r < v.data.len(),
        Outcome::New(d) => crate::data::refs_below(d, v.data.len() as int),
    }
}

impl ExpressionRuntime {
    /// Adds an outcome: a new register for an existing or a new value, or nothing.
    pub fn apply_outcome(&mut self, o: OutcomeOf)
        requires
            old(self)@.wf(),
            old(self)@.data.len() + 1 < usize::MAX,
            outcome_fits(old(self)@, o@),
        ensures
            final(self)@.wf(),
            final(self)@ == with_outcome(old(self)@, o@),
    {
        match o {
            OutcomeOf::Nothing => {},
            OutcomeOf::Existing(r) => self.push_register(r),
            OutcomeOf::New(d) => {
                self.push_value(d);
            },
        }
    }

    fn keyed_outcome_of(&self, found: Option<usize>) -> (o: OutcomeOf)
        requires
            self@.wf(),
            found matches Some(k) ==> key_matches_any(self@.data, k),
        ensures
            o@ == (match found {
                Some(k) => Outcome::Existing(self@.data[k as int]->Pair_1),
                None => Outcome::New(DataView::Unit),
            }),
            outcome_fits(self@, o@),
    {
        match found {
            Some(k) => {
                proof {
                    crate::runtime::lemma_value_refs(self@, k as int);
                }
                match self.get_data(k) {
                    Data::Pair(_, b) => OutcomeOf::Existing(*b),
                    _ => OutcomeOf::New(Data::Unit),
                }
            },
            None => OutcomeOf::New(Data::Unit),
        }
    }

    fn slice_outcome_of(&self, left: usize, right: usize, p: RangeParts) -> (o: OutcomeOf)
        requires
            self@.wf(),
            left < self@.data.len(),
            right < self@.data.len(),
            self@.data[right as int] == DataView::Range(p),
        ensures
            o@ == slice_outcome(self@.data, left, right),
            outcome_fits(self@, o@),
    {
        proof {
            crate::runtime::lemma_value_refs(self@, right as int);
        }
        let start_ok = match p.start { Some(s) => self.get_data(s).get_type() == DataType::Integer, None => true };
        let end_ok = match p.end { Some(e) => self.get_data(e).get_type() == DataType::Integer, None => true };
        if start_ok && end_ok { OutcomeOf::New(Data::Slice(left, right)) } else { OutcomeOf::New(Data::Unit) }
    }

    /// What accessing the value at `right` of the value at `left` gives.
    pub fn access_outcome_of(&self, left: usize, right: usize) -> (o: Option<OutcomeOf>)
        requires
            self@.wf(),
            left < self@.data.len(),
            right < self@.data.len(),
            access_defined(self@.data, left, right),
        ensures
            match o {
                Some(x) => access_outcome(self@.data, left, right) == Some(x@) && outcome_fits(self@, x@),
                None => access_outcome(self@.data, left, right) is None,
            },
    {
        proof {
            crate::runtime::lemma_value_refs(self@, left as int);
        }
        let rv = self.get_data(right);
        match self.get_data(left) {
            Data::Pair(a, b) => Some(match rv {
                Data::Symbol(s) => if *s == LEFT_SYMBOL { OutcomeOf::Existing(*a) } else if *s == RIGHT_SYMBOL {
                    OutcomeOf::Existing(*b) } else { OutcomeOf::New(Data::Unit) },
                _ => OutcomeOf::New(Data::Unit),
            }),
            Data::Partial(b, v) => Some(match rv {
                Data::Symbol(s) => if *s == BASE_SYMBOL { OutcomeOf::Existing(*b) } else if *s == VALUE_SYMBOL {
                    OutcomeOf::Existing(*v) } else { OutcomeOf::New(Data::Unit) },
                _ => OutcomeOf::New(Data::Unit),
            }),
            Data::CharacterList(cs) => match rv {
                Data::Symbol(s) => Some(if *s == LENGTH_SYMBOL { OutcomeOf::New(Data::Integer(cs.len() as i32)) } else { OutcomeOf::Nothing }),
                Data::Integer(i) => Some(match index_position_of(*i, cs.len()) {
                    Some(k) => OutcomeOf::New(Data::Character(cs[k])),
                    None => OutcomeOf::New(Data::Unit),
                }),
                Data::Range(p) => Some(self.slice_outcome_of(left, right, *p)),
                _ => Some(OutcomeOf::New(Data::Unit)),
            },
            Data::Range(p) => match rv {
                Data::Symbol(s) => {
                    let s = *s;
                    if s == IS_START_EXCLUSIVE_SYMBOL {
                        Some(OutcomeOf::New(symbol_from_condition(p.start_exclusive)))
                    } else if s == IS_END_EXCLUSIVE_SYMBOL {
                        Some(OutcomeOf::New(symbol_from_condition(p.end_exclusive)))
                    } else if s == IS_START_OPEN_SYMBOL {
                        Some(OutcomeOf::New(symbol_from_condition(p.start.is_none())))
                    } else if s == IS_END_OPEN_SYMBOL {
                        Some(OutcomeOf::New(symbol_from_condition(p.end.is_none())))
                    } else if s == LENGTH_SYMBOL {
                        let len = self.range_length_of(left, *p);
                        match length_data(&len) {
                            Some(d) => Some(OutcomeOf::New(d)),
                            None => None,
                        }
                    } else if s == START_SYMBOL {
                        Some(match p.start { Some(x) => OutcomeOf::Existing(x), None => OutcomeOf::New(Data::Unit) })
                    } else if s == END_SYMBOL {
                        Some(match p.end { Some(x) => OutcomeOf::Existing(x), None => OutcomeOf::New(Data::Unit) })
                    } else if s == STEP_SYMBOL {
                        Some(match p.step { Some(x) => OutcomeOf::Existing(x), None => OutcomeOf::New(Data::Unit) })
                    } else {
                        Some(OutcomeOf::Nothing)
                    }
                },
                _ => Some(OutcomeOf::New(Data::Unit)),
            },
            Data::List(items, keys) => match rv {
                Data::Symbol(s) => Some(if *s == LENGTH_SYMBOL {
                    OutcomeOf::New(Data::Integer(items.len() as i32))
                } else if *s == KEY_COUNT_SYMBOL {
                    OutcomeOf::New(Data::Integer(keys.len() as i32))
                } else {
                    let found = self.find_symbol_key_of(keys, *s);
                    proof { lemma_find_key_matches(self@.data, keys@, KeyId::Symbol(*s)); }
                    self.keyed_outcome_of(found)
                }),
                Data::CharacterList(cs) => {
                    let found = self.find_characters_key(keys, cs);
                    proof { lemma_find_key_matches(self@.data, keys@, KeyId::Characters(cs@)); }
                    Some(self.keyed_outcome_of(found))
                },
                Data::Integer(i) => Some(match index_position_of(*i, items.len()) {
                    Some(k) => OutcomeOf::Existing(items[k]),
                    None => OutcomeOf::New(Data::Unit),
                }),
                Data::Range(p) => Some(self.slice_outcome_of(left, right, *p)),
                _ => Some(OutcomeOf::New(Data::Unit)),
            },
            Data::Slice(source, range) => match rv {
                Data::Symbol(_) => {
                    let (source, range) = (*source, *range);
                    match self.get_data(range) {
                        Data::Range(p) => {
                            let len = self.range_length_of(range, *p);
                            let len = match len {
                                RangeLengthOf::Infinite => self.open_slice_length_of(source, range, *p),
                                other => other,
                            };
                            match length_data(&len) {
                                Some(d) => Some(OutcomeOf::New(d)),
                                None => None,
                            }
                        },
                        _ => None,
                    }
                },
                Data::Range(p) => Some(self.slice_outcome_of(left, right, *p)),
                _ => Some(OutcomeOf::New(Data::Unit)),
            },
            Data::Link(_, _, _) => match rv {
                Data::Symbol(_) => {
                    let len = self.link_length_of(left);
                    match length_data(&len) {
                        Some(d) => Some(OutcomeOf::New(d)),
                        None => None,
                    }
                },
                Data::Range(p) => Some(self.slice_outcome_of(left, right, *p)),
                _ => Some(OutcomeOf::New(Data::Unit)),
            },
            _ => Some(OutcomeOf::New(Data::Unit)),
        }
    }

    /// Replaces the last two registers by what accessing the last value of the one
    /// before it gives: a pair's sides, a partial's parts, a list's or character list's
    /// length, items and slices, a list's associated values, a range's bounds, step,
    /// shape and length, a slice's length, or the length of a link's chain and slices
    /// of it. Unsupported combinations give unit.
    pub fn perform_access(&mut self) -> (r: Result<(), RuntimeError>)
        requires
            old(self)@.wf(),
            old(self)@.data.len() + 1 < usize::MAX,
            old(self)@.registers.len() >= 2 ==> access_defined(old(self)@.data, old(self)@.second_last_reg(), old(self)@.last_reg()),
        ensures
            final(self)@.wf(),
            old(self)@.registers.len() < 2 ==> r == Err::<(), RuntimeError>(RuntimeError::NotEnoughRegisters)
                && final(self)@ == old(self)@,
            old(self)@.registers.len() >= 2 ==> match access_outcome(old(self)@.data, old(self)@.second_last_reg(), old(self)@.last_reg()) {
                Some(o) => r is Ok && final(self)@ == with_outcome(old(self)@.with_consumed(2), o),
                None => r == Err::<(), RuntimeError>(RuntimeError::UnsupportedType) && final(self)@ == old(self)@.with_consumed(2),
            },
    {
        let (left, right) = self.consume_last_two_refs()?;
        proof {
            crate::runtime::lemma_register_in_bounds(old(self)@, old(self)@.registers.len() - 1);
            crate::runtime::lemma_register_in_bounds(old(self)@, old(self)@.registers.len() - 2);
        }
        match self.access_outcome_of(left, right) {
            Some(o) => {
                self.apply_outcome(o);
                Ok(())
            },
            None => Err(RuntimeError::UnsupportedType),
        }
    }
}

/// The value at `k` is a pair whose sides are stored before it.
pub open spec fn key_matches_any(data: Seq<DataView>, k: usize) -> bool {
    k < data.len() && data[k as int] is Pair
}

pub proof fn lemma_find_key_matches(data: Seq<DataView>, keys: Seq<usize>, key: KeyId)
    ensures
        find_key(data, keys, key) matches Some(k) ==> key_matches_any(data, k),
    decreases keys.len(),
{
    if keys.len() > 0 {
        lemma_find_key_matches(data, keys.drop_first(), key);
    }
}


impl ExpressionRuntime {
    pub(crate) fn range_length_defined_of(&self, p: RangeParts) -> (b: bool)
        requires
            self@.wf(),
            opt_in(p.start, self@.data.len()),
            opt_in(p.end, self@.data.len()),
        ensures
            b == range_length_defined(self@.data, p),
    {
        match (p.start, p.end) {
            (Some(s), Some(e)) => match (self.get_data(s), self.get_data(e)) {
                (Data::Integer(a), Data::Integer(b)) => {
                    let d: i64 = *b as i64 - *a as i64;
                    let fits = i32::MIN as i64 <= d && d <= i32::MAX as i64 && d != i32::MIN as i64;
                    if !fits {
                        false
                    } else if !p.start_exclusive && !p.end_exclusive {
                        let base: i64 = if d < 0 { -d } else { d };
                        base + 1 <= i32::MAX as i64
                    } else {
                        true
                    }
                },
                _ => true,
            },
            _ => true,
        }
    }

    fn open_slice_defined_of(&self, source: usize, p: RangeParts) -> (b: bool)
        requires
            self@.wf(),
            source < self@.data.len(),
            opt_in(p.start, self@.data.len()),
            opt_in(p.end, self@.data.len()),
        ensures
            b == open_slice_defined(self@.data, source, p),
    {
        let n: usize = match self.get_data(source) {
            Data::List(items, _) => items.len(),
            Data::CharacterList(cs) => cs.len(),
            _ => return true,
        };
        let ll: i64 = (n as i32) as i64;
        let lo = i32::MIN as i64;
        let hi = i32::MAX as i64;
        match (p.start, p.end) {
            (Some(s), None) => match self.get_data(s) {
                Data::Integer(st) => lo <= ll - *st as i64 && ll - *st as i64 <= hi,
                _ => true,
            },
            (None, Some(e)) => match self.get_data(e) {
                Data::Integer(en) => {
                    let inner = ll - *en as i64;
                    lo <= inner && inner <= hi && lo <= ll - inner && ll - inner <= hi && ll - inner + 1 <= hi
                },
                _ => true,
            },
            _ => true,
        }
    }

    /// Whether accessing the value at `right` of the value at `left` is defined.
    pub fn access_defined_of(&self, left: usize, right: usize) -> (b: bool)
        requires
            self@.wf(),
            left < self@.data.len(),
            right < self@.data.len(),
        ensures
            b == access_defined(self@.data, left, right),
    {
        proof {
            crate::runtime::lemma_value_refs(self@, left as int);
        }
        let rv = self.get_data(right);
        match self.get_data(left) {
            Data::CharacterList(_) | Data::List(_, _) => match rv {
                Data::Integer(i) => *i != i32::MIN,
                _ => true,
            },
            Data::Range(p) => match rv {
                Data::Symbol(s) => *s != LENGTH_SYMBOL || self.range_length_defined_of(*p),
                _ => true,
            },
            Data::Slice(source, range) => match rv {
                Data::Symbol(_) => {
                    let (source, range) = (*source, *range);
                    proof {
                        crate::runtime::lemma_value_refs(self@, range as int);
                    }
                    match self.get_data(range) {
                        Data::Range(p) => {
                            if !self.range_length_defined_of(*p) || !self.open_slice_defined_of(source, *p) {
                                false
                            } else {
                                let len = self.range_length_of(range, *p);
                                match len {
                                    RangeLengthOf::Infinite => !(p.start.is_some() && p.end.is_some()),
                                    _ => true,
                                }
                            }
                        },
                        _ => true,
                    }
                },
                _ => true,
            },
            Data::Link(_, _, _) => match rv {
                Data::Symbol(_) => self.link_length_defined_of(left),
                _ => true,
            },
            _ => true,
        }
    }
}

/// An optional position is absent or holds a stored value.
pub open spec fn opt_in(o: Option<usize>, n: nat) -> bool {
    match o {
        Some(p) => p < n,
        None => true,
    }
}

} // verus!
