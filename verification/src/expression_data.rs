use vstd::prelude::*;
use vstd::bytes::{spec_u64_from_le_bytes, spec_u64_to_le_bytes, u64_from_le_bytes, u64_to_le_bytes};
use std::collections::hash_map::DefaultHasher;
use std::hash::{BuildHasher, BuildHasherDefault};

verus! {

/// The kind of value an `ExpressionData` holds.
#[derive(Clone, Copy, PartialEq, Eq, Structural, Debug)]
pub enum ExpressionDataType {
    Unit,
    Reference,
    Integer,
    Symbol,
}

/// A value encoded as little-endian bytes, together with the symbol names it defines.
#[derive(Clone, Debug)]
pub struct ExpressionData {
    data_type: ExpressionDataType,
    bytes: Vec<u8>,
    symbols: Vec<(String, u64)>,
}

/// Little-endian encoding of a signed 64-bit integer.
pub open spec fn i64_le_bytes(i: i64) -> Seq<u8> {
    spec_u64_to_le_bytes(i as u64)
}

/// Little-endian encoding of a machine-sized unsigned integer.
pub open spec fn usize_le_bytes(r: usize) -> Seq<u8> {
    spec_u64_to_le_bytes(r as u64)
}

/// The signed integer whose little-endian encoding is the first eight bytes of `b`.
pub open spec fn i64_of_le_bytes(b: Seq<u8>) -> i64 {
    spec_u64_from_le_bytes(b.subrange(0, 8)) as i64
}

/// The unsigned integer whose little-endian encoding is the first eight bytes of `b`.
pub open spec fn usize_of_le_bytes(b: Seq<u8>) -> usize {
    spec_u64_from_le_bytes(b.subrange(0, 8)) as usize
}

/// What the standard library's default hasher gives for a string.
pub uninterp spec fn default_string_hash(s: Seq<char>) -> u64;

/// Hashes `s` with a freshly created `std::collections::hash_map::DefaultHasher`
/// (through `BuildHasher::hash_one`, which builds the hasher, feeds `s` and
/// finishes). `DefaultHasher::new` is not seeded, so the result depends on the
/// string alone; which value it is, is left to the standard library.
#[verifier::external_body]
fn hash_string(s: &String) -> (h: u64)
    ensures
        h == default_string_hash(s@),
{
    BuildHasherDefault::<DefaultHasher>::default().hash_one(s)
}

proof fn lemma_i64_u64_roundtrip(i: i64)
    ensures
        (i as u64) as i64 == i,
{
    assert((i as u64) as i64 == i) by (bit_vector);
}

impl ExpressionData {
    /// The kind of this value.
    pub closed spec fn type_of(&self) -> ExpressionDataType {
        self.data_type
    }

    /// The encoded bytes of this value.
    pub closed spec fn bytes_of(&self) -> Seq<u8> {
        self.bytes@
    }

    /// The symbol names this value defines, with their values.
    pub closed spec fn symbols_of(&self) -> Seq<(Seq<char>, u64)> {
        self.symbols@.map_values(|p: (String, u64)| (p.0@, p.1))
    }

    fn new(data_type: ExpressionDataType, bytes: Vec<u8>) -> (d: ExpressionData)
        ensures
            d.type_of() == data_type,
            d.bytes_of() == bytes@,
            d.symbols_of() == Seq::<(Seq<char>, u64)>::empty(),
    {
        let d = ExpressionData { data_type, bytes, symbols: Vec::new() };
        assert(d.symbols_of() =~= Seq::<(Seq<char>, u64)>::empty());
        d
    }

    pub fn unit() -> (d: ExpressionData)
        ensures
            d.type_of() == ExpressionDataType::Unit,
            d.bytes_of() == Seq::<u8>::empty(),
            d.symbols_of() == Seq::<(Seq<char>, u64)>::empty(),
    {
        ExpressionData::new(ExpressionDataType::Unit, Vec::new())
    }

    pub fn integer(i: i64) -> (d: ExpressionData)
        ensures
            d.type_of() == ExpressionDataType::Integer,
            d.bytes_of() == i64_le_bytes(i),
            d.symbols_of() == Seq::<(Seq<char>, u64)>::empty(),
    {
        ExpressionData::new(ExpressionDataType::Integer, u64_to_le_bytes(i as u64))
    }

    pub fn reference(r: usize) -> (d: ExpressionData)
        ensures
            d.type_of() == ExpressionDataType::Reference,
            d.bytes_of() == usize_le_bytes(r),
            d.symbols_of() == Seq::<(Seq<char>, u64)>::empty(),
    {
        ExpressionData::new(ExpressionDataType::Reference, u64_to_le_bytes(r as u64))
    }

    pub fn symbol(name: &String, value: u64) -> (d: ExpressionData)
        ensures
            d.type_of() == ExpressionDataType::Symbol,
            d.bytes_of() == spec_u64_to_le_bytes(value),
            d.symbols_of() == seq![(name@, value)],
    {
        let mut d = ExpressionData::new(ExpressionDataType::Symbol, u64_to_le_bytes(value));
        d.symbols.push((name.clone(), value));
        assert(d.symbols_of() =~= seq![(name@, value)]);
        d
    }

    pub fn symbol_from_string(s: &String) -> (d: ExpressionData)
        ensures
            d.type_of() == ExpressionDataType::Symbol,
            d.bytes_of() == spec_u64_to_le_bytes(default_string_hash(s@)),
            d.symbols_of() == seq![(s@, default_string_hash(s@))],
    {
        let hv = hash_string(s);
        ExpressionData::symbol(s, hv)
    }

    pub fn get_type(&self) -> (t: ExpressionDataType)
        ensures
            t == self.type_of(),
    {
        self.data_type
    }

    /// The encoded bytes of this value.
    pub fn get_bytes(&self) -> (b: &Vec<u8>)
        ensures
            b@ == self.bytes_of(),
    {
        &self.bytes
    }

    /// The value recorded for the symbol `name`, if this value defines it.
    pub fn get_symbol(&self, name: &String) -> (v: Option<u64>)
        ensures
            v is Some <==> exists|k: int| 0 <= k < self.symbols_of().len()
                && #[trigger] self.symbols_of()[k].0 == name@,
            v matches Some(x) ==> exists|k: int| 0 <= k < self.symbols_of().len()
                && #[trigger] self.symbols_of()[k] == (name@, x),
    {
        let mut k: usize = 0;
        while k < self.symbols.len()
            invariant
                k <= self.symbols@.len(),
                forall|j: int| 0 <= j < k ==> #[trigger] self.symbols_of()[j].0 != name@,
            decreases self.symbols@.len() - k,
        {
            if self.symbols[k].0 == *name {
                assert(self.symbols_of()[k as int] == (name@, self.symbols@[k as int].1));
                assert(self.symbols_of()[k as int].0 == name@);
                return Some(self.symbols[k].1);
            }
            k = k + 1;
        }
        None
    }

    /// Reads the first eight bytes as a little-endian signed integer.
    pub fn as_integer(&self) -> (r: Result<i64, String>)
        requires
            self.bytes_of().len() >= 8,
        ensures
            r == Ok::<i64, String>(i64_of_le_bytes(self.bytes_of())),
    {
        let first = vstd::slice::slice_subrange(self.bytes.as_slice(), 0, 8);
        Ok(u64_from_le_bytes(first) as i64)
    }

    /// Reads the first eight bytes as a little-endian reference.
    pub fn as_reference(&self) -> (r: Result<usize, String>)
        requires
            self.bytes_of().len() >= 8,
        ensures
            r == Ok::<usize, String>(usize_of_le_bytes(self.bytes_of())),
    {
        let first = vstd::slice::slice_subrange(self.bytes.as_slice(), 0, 8);
        Ok(u64_from_le_bytes(first) as usize)
    }
}

/// Reading an integer value back gives the integer it was made from.
pub proof fn law_integer_roundtrip(i: i64)
    ensures
        i64_of_le_bytes(i64_le_bytes(i)) == i,
        i64_le_bytes(i).len() == 8,
{
    vstd::bytes::lemma_auto_spec_u64_to_from_le_bytes();
    assert(i64_le_bytes(i).subrange(0, 8) =~= i64_le_bytes(i));
    lemma_i64_u64_roundtrip(i);
}

/// Reading a reference value back gives the reference it was made from.
pub proof fn law_reference_roundtrip(r: usize)
    ensures
        usize_of_le_bytes(usize_le_bytes(r)) == r,
        usize_le_bytes(r).len() == 8,
{
    vstd::bytes::lemma_auto_spec_u64_to_from_le_bytes();
    assert(usize_le_bytes(r).subrange(0, 8) =~= usize_le_bytes(r));
}

} // verus!
