use vstd::prelude::*;

verus! {

/// The kinds of values the runtime stores.
#[derive(Clone, Copy, PartialEq, Eq, Structural, Debug)]
pub enum DataType {
    Unit,
    Integer,
    Character,
    CharacterList,
    Symbol,
    Expression,
    ExternalMethod,
    Pair,
    Partial,
    Range,
    Slice,
    List,
    Link,
}

/// The bounds of a range value. A missing start or end makes that side open.
#[derive(Clone, Copy, PartialEq, Eq, Structural, Debug)]
pub struct RangeParts {
    pub start_exclusive: bool,
    pub end_exclusive: bool,
    pub start: Option<usize>,
    pub end: Option<usize>,
    pub step: Option<usize>,
}

/// A value stored in the runtime's data area. Values that contain other values
/// hold their positions in the data area.
#[derive(Clone, Debug)]
pub enum Data {
    Unit,
    Integer(i32),
    Character(char),
    CharacterList(Vec<char>),
    Symbol(u64),
    /// An expression, by its index in the expression table.
    Expression(usize),
    /// A method provided by the context, by its symbol.
    ExternalMethod(u64),
    /// Positions of the left and right values.
    Pair(usize, usize),
    /// Positions of the applied base and the value applied so far.
    Partial(usize, usize),
    Range(RangeParts),
    /// Positions of the sliced value and of the range that slices it.
    Slice(usize, usize),
    /// Positions of the items, and of those items that are associations
    /// (pairs keyed by a symbol or a character list), in order.
    List(Vec<usize>, Vec<usize>),
    /// A link of a chain: the position of the chain's first link (none for the
    /// first link itself), the position of its value, and the position of the
    /// next link (none for the last).
    Link(Option<usize>, usize, Option<usize>),
}

/// The mathematical view of a stored value.
pub enum DataView {
    Unit,
    Integer(i32),
    Character(char),
    CharacterList(Seq<char>),
    Symbol(u64),
    Expression(usize),
    ExternalMethod(u64),
    Pair(usize, usize),
    Partial(usize, usize),
    Range(RangeParts),
    Slice(usize, usize),
    List(Seq<usize>, Seq<usize>),
    Link(Option<usize>, usize, Option<usize>),
}

impl View for Data {
    type V = DataView;

    open spec fn view(&self) -> DataView {
        match self {
            Data::Unit => DataView::Unit,
            Data::Integer(i) => DataView::Integer(*i),
            Data::Character(c) => DataView::Character(*c),
            Data::CharacterList(cs) => DataView::CharacterList(cs@),
            Data::Symbol(s) => DataView::Symbol(*s),
            Data::Expression(e) => DataView::Expression(*e),
            Data::ExternalMethod(m) => DataView::ExternalMethod(*m),
            Data::Pair(l, r) => DataView::Pair(*l, *r),
            Data::Partial(b, v) => DataView::Partial(*b, *v),
            Data::Range(p) => DataView::Range(*p),
            Data::Slice(s, r) => DataView::Slice(*s, *r),
            Data::List(items, keys) => DataView::List(items@, keys@),
            Data::Link(h, v, n) => DataView::Link(*h, *v, *n),
        }
    }
}

/// The kind of a stored value.
pub open spec fn type_of(d: DataView) -> DataType {
    match d {
        DataView::Unit => DataType::Unit,
        DataView::Integer(_) => DataType::Integer,
        DataView::Character(_) => DataType::Character,
        DataView::CharacterList(_) => DataType::CharacterList,
        DataView::Symbol(_) => DataType::Symbol,
        DataView::Expression(_) => DataType::Expression,
        DataView::ExternalMethod(_) => DataType::ExternalMethod,
        DataView::Pair(_, _) => DataType::Pair,
        DataView::Partial(_, _) => DataType::Partial,
        DataView::Range(_) => DataType::Range,
        DataView::Slice(_, _) => DataType::Slice,
        DataView::List(_, _) => DataType::List,
        DataView::Link(_, _, _) => DataType::Link,
    }
}

/// An optional position is absent or below `n`.
pub open spec fn opt_below(o: Option<usize>, n: int) -> bool {
    match o {
        Some(p) => p < n,
        None => true,
    }
}

/// Every element of `s` is below `n`.
pub open spec fn seq_below(s: Seq<usize>, n: int) -> bool {
    forall|k: int| 0 <= k < s.len() ==> #[trigger] s[k] < n
}

/// Every position that `d` holds is below `n`; a link holds no next link yet.
pub open spec fn refs_below(d: DataView, n: int) -> bool {
    match d {
        DataView::Link(h, v, next) => opt_below(h, n) && v < n && next is None,
        DataView::Pair(l, r) => l < n && r < n,
        DataView::Partial(b, v) => b < n && v < n,
        DataView::Range(p) => opt_below(p.start, n) && opt_below(p.end, n) && opt_below(p.step, n),
        DataView::Slice(s, r) => s < n && r < n,
        DataView::List(items, keys) => seq_below(items, n) && seq_below(keys, n),
        _ => true,
    }
}

impl Data {
    /// The kind of this value.
    pub fn get_type(&self) -> (t: DataType)
        ensures
            t == type_of(self@),
    {
        match self {
            Data::Unit => DataType::Unit,
            Data::Integer(_) => DataType::Integer,
            Data::Character(_) => DataType::Character,
            Data::CharacterList(_) => DataType::CharacterList,
            Data::Symbol(_) => DataType::Symbol,
            Data::Expression(_) => DataType::Expression,
            Data::ExternalMethod(_) => DataType::ExternalMethod,
            Data::Pair(_, _) => DataType::Pair,
            Data::Partial(_, _) => DataType::Partial,
            Data::Range(_) => DataType::Range,
            Data::Slice(_, _) => DataType::Slice,
            Data::List(_, _) => DataType::List,
            Data::Link(_, _, _) => DataType::Link,
        }
    }

    /// A copy of this value.
    pub fn copy(&self) -> (d: Data)
        ensures
            d@ == self@,
    {
        match self {
            Data::Unit => Data::Unit,
            Data::Integer(i) => Data::Integer(*i),
            Data::Character(c) => Data::Character(*c),
            Data::CharacterList(cs) => Data::CharacterList(cs.clone()),
            Data::Symbol(s) => Data::Symbol(*s),
            Data::Expression(e) => Data::Expression(*e),
            Data::ExternalMethod(m) => Data::ExternalMethod(*m),
            Data::Pair(l, r) => Data::Pair(*l, *r),
            Data::Partial(b, v) => Data::Partial(*b, *v),
            Data::Range(p) => Data::Range(*p),
            Data::Slice(s, r) => Data::Slice(*s, *r),
            Data::List(items, keys) => Data::List(items.clone(), keys.clone()),
            Data::Link(h, v, n) => Data::Link(*h, *v, *n),
        }
    }

    /// Whether every position this value holds is below `n`.
    pub fn has_refs_below(&self, n: usize) -> (below: bool)
        ensures
            below == refs_below(self@, n as int),
    {
        match self {
            Data::Pair(l, r) => *l < n && *r < n,
            Data::Partial(b, v) => *b < n && *v < n,
            Data::Range(p) => {
                (match p.start { Some(s) => s < n, None => true })
                    && (match p.end { Some(e) => e < n, None => true })
                    && (match p.step { Some(s) => s < n, None => true })
            },
            Data::Slice(s, r) => *s < n && *r < n,
            Data::List(items, keys) => all_below(items, n) && all_below(keys, n),
            Data::Link(h, v, next) => (match h { Some(x) => *x < n, None => true }) && *v < n && next.is_none(),
            _ => true,
        }
    }
}

/// Whether every element of `v` is below `n`.
pub fn all_below(v: &Vec<usize>, n: usize) -> (below: bool)
    ensures
        below == seq_below(v@, n as int),
{
    let mut k: usize = 0;
    while k < v.len()
        invariant
            k <= v@.len(),
            forall|j: int| 0 <= j < k ==> #[trigger] v@[j] < n,
        decreases v@.len() - k,
    {
        if v[k] >= n {
            return false;
        }
        k = k + 1;
    }
    true
}

} // verus!
