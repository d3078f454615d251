use vstd::prelude::*;
use crate::data::{Data, DataType, DataView, RangeParts, refs_below, type_of};
use crate::runtime::{ExpressionRuntime, RuntimeError, RuntimeView, symbol_name, symbol_value};
use vstd::utf8::{encode_scalar, is_scalar};

verus! {

/// The character for a decimal digit.
pub open spec fn digit_char(d: int) -> char {
    if d == 0 { '0' } else if d == 1 { '1' } else if d == 2 { '2' } else if d == 3 { '3' } else if d == 4 { '4' }
    else if d == 5 { '5' } else if d == 6 { '6' } else if d == 7 { '7' } else if d == 8 { '8' } else { '9' }
}

/// The value of a decimal digit character, if it is one.
pub open spec fn digit_value(c: char) -> Option<int> {
    if c == '0' { Some(0) } else if c == '1' { Some(1) } else if c == '2' { Some(2) } else if c == '3' { Some(3) }
    else if c == '4' { Some(4) } else if c == '5' { Some(5) } else if c == '6' { Some(6) } else if c == '7' { Some(7) }
    else if c == '8' { Some(8) } else if c == '9' { Some(9) } else { None }
}

/// The decimal digits of a natural number, without leading zeros.
pub open spec fn nat_text(n: nat) -> Seq<char>
    decreases n,
{
    if n < 10 {
        seq![digit_char(n as int)]
    } else {
        nat_text(n / 10).push(digit_char((n % 10) as int))
    }
}

/// The decimal text of an integer, with a leading minus sign when negative.
pub open spec fn int_text(i: int) -> Seq<char> {
    if i < 0 { seq!['-'] + nat_text((-i) as nat) } else { nat_text(i as nat) }
}

/// The text of the value at `i`: unit is `()`, numbers are decimal, characters and
/// character lists are themselves, symbols are their name after a colon, ranges show
/// their bounds around `..` with `>`/`<` marking excluded ends and `~` the step, pairs
/// are `left = right`, and lists are their items' texts, separated by commas, in
/// parentheses. Other values have an empty text.
pub open spec fn to_text(data: Seq<DataView>, syms: Seq<(Seq<char>, u64)>, i: nat) -> Seq<char>
    decreases i, 1nat, 0nat,
{
    if i >= data.len() {
        Seq::empty()
    } else {
        match data[i as int] {
            DataView::Unit => seq!['(', ')'],
            DataView::Integer(n) => int_text(n as int),
            DataView::Character(c) => seq![c],
            DataView::CharacterList(cs) => cs,
            DataView::Symbol(s) => seq![':'] + match symbol_name(syms, s) {
                Some(name) => name,
                None => Seq::empty(),
            },
            DataView::Range(p) => {
                let start = part_text(data, syms, i, p.start);
                let end = part_text(data, syms, i, p.end);
                let step = match p.step {
                    Some(_) => seq![' ', '~', ' '] + part_text(data, syms, i, p.step),
                    None => Seq::empty(),
                };
                start + (if p.start_exclusive { seq!['>'] } else { Seq::empty() }) + seq!['.', '.']
                    + (if p.end_exclusive { seq!['<'] } else { Seq::empty() }) + end + step
            },
            DataView::Pair(a, b) => part_text(data, syms, i, Some(a)) + seq![' ', '=', ' '] + part_text(data, syms, i, Some(b)),
            DataView::List(items, _) => seq!['('] + joined_text(data, syms, i, items, items.len()) + seq![')'],
            _ => Seq::empty(),
        }
    }
}

/// The text of a part of the value at `i`: `()` when absent.
pub open spec fn part_text(data: Seq<DataView>, syms: Seq<(Seq<char>, u64)>, i: nat, part: Option<usize>) -> Seq<char>
    decreases i, 0nat, 0nat,
{
    match part {
        Some(x) => if x < i { to_text(data, syms, x as nat) } else { Seq::empty() },
        None => seq!['(', ')'],
    }
}

/// The texts of the first `n` items of the list at `i`, separated by `, `.
pub open spec fn joined_text(data: Seq<DataView>, syms: Seq<(Seq<char>, u64)>, i: nat, items: Seq<usize>, n: nat) -> Seq<char>
    decreases i, 0nat, n,
{
    if n == 0 || n > items.len() {
        Seq::empty()
    } else {
        let prev = joined_text(data, syms, i, items, (n - 1) as nat);
        let sep = if n > 1 { seq![',', ' '] } else { Seq::empty() };
        let item = if items[n - 1] < i { to_text(data, syms, items[n - 1] as nat) } else { Seq::empty() };
        prev + sep + item
    }
}

fn digit_char_of(d: u64) -> (c: char)
    requires
        d < 10,
    ensures
        c == digit_char(d as int),
{
    if d == 0 { '0' } else if d == 1 { '1' } else if d == 2 { '2' } else if d == 3 { '3' } else if d == 4 { '4' }
    else if d == 5 { '5' } else if d == 6 { '6' } else if d == 7 { '7' } else if d == 8 { '8' } else { '9' }
}

/// Appends the decimal digits of `n`.
fn push_nat_text(n: u64, out: &mut Vec<char>)
    ensures
        final(out)@ == old(out)@ + nat_text(n as nat),
    decreases n,
{
    if n < 10 {
        out.push(digit_char_of(n));
        assert(nat_text(n as nat) =~= seq![digit_char(n as int)]);
    } else {
        push_nat_text(n / 10, out);
        out.push(digit_char_of(n % 10));
        assert(nat_text(n as nat) =~= nat_text((n / 10) as nat).push(digit_char((n % 10) as int)));
        assert(final(out)@ =~= old(out)@ + nat_text(n as nat));
    }
}

/// Appends the decimal text of `i`.
pub fn push_int_text(i: i32, out: &mut Vec<char>)
    ensures
        final(out)@ == old(out)@ + int_text(i as int),
{
    if i < 0 {
        out.push('-');
        let m: u64 = (-(i as i64)) as u64;
        push_nat_text(m, out);
        assert(final(out)@ =~= old(out)@ + int_text(i as int));
    } else {
        push_nat_text(i as u64, out);
    }
}

fn push_chars(out: &mut Vec<char>, s: &Vec<char>)
    ensures
        final(out)@ == old(out)@ + s@,
{
    let mut k: usize = 0;
    while k < s.len()
        invariant
            k <= s@.len(),
            out@ == old(out)@ + s@.subrange(0, k as int),
        decreases s@.len() - k,
    {
        out.push(s[k]);
        k = k + 1;
        assert(out@ =~= old(out)@ + s@.subrange(0, k as int));
    }
    assert(s@.subrange(0, s@.len() as int) =~= s@);
}

impl ExpressionRuntime {
    fn push_part_text(&self, i: usize, part: Option<usize>, out: &mut Vec<char>)
        requires
            self@.wf(),
            i < self@.data.len(),
            part matches Some(x) ==> x < i,
        ensures
            final(out)@ == old(out)@ + part_text(self@.data, self@.symbols, i as nat, part),
        decreases i, 0nat,
    {
        match part {
            Some(x) => {
                let t = self.value_at_to_string(x);
                push_chars(out, &t);
            },
            None => {
                out.push('(');
                out.push(')');
                assert(final(out)@ =~= old(out)@ + seq!['(', ')']);
            },
        }
    }

    fn range_text(&self, i: usize, p: RangeParts) -> (text: Vec<char>)
        requires
            self@.wf(),
            i < self@.data.len(),
            self@.data[i as int] == DataView::Range(p),
        ensures
            text@ == to_text(self@.data, self@.symbols, i as nat),
        decreases i, 1nat,
    {
        proof {
            crate::runtime::lemma_value_refs(self@, i as int);
        }
        let mut out: Vec<char> = Vec::new();
        self.push_part_text(i, p.start, &mut out);
        let ghost s1 = out@;
        if p.start_exclusive {
            out.push('>');
        }
        let ghost s2 = out@;
        out.push('.');
        out.push('.');
        if p.end_exclusive {
            out.push('<');
        }
        let ghost s3 = out@;
        self.push_part_text(i, p.end, &mut out);
        let ghost s4 = out@;
        if p.step.is_some() {
            out.push(' ');
            out.push('~');
            out.push(' ');
            self.push_part_text(i, p.step, &mut out);
        }
        proof {
            let st = part_text(self@.data, self@.symbols, i as nat, p.start);
            let en = part_text(self@.data, self@.symbols, i as nat, p.end);
            assert(s1 =~= st);
            assert(s2 =~= st + (if p.start_exclusive { seq!['>'] } else { Seq::<char>::empty() }));
            assert(s3 =~= st + (if p.start_exclusive { seq!['>'] } else { Seq::<char>::empty() }) + seq!['.', '.']
                + (if p.end_exclusive { seq!['<'] } else { Seq::<char>::empty() }));
            assert(out@ =~= to_text(self@.data, self@.symbols, i as nat));
        }
        out
    }

    fn pair_text(&self, i: usize, a: usize, b: usize) -> (text: Vec<char>)
        requires
            self@.wf(),
            i < self@.data.len(),
            self@.data[i as int] == DataView::Pair(a, b),
        ensures
            text@ == to_text(self@.data, self@.symbols, i as nat),
        decreases i, 1nat,
    {
        proof {
            crate::runtime::lemma_value_refs(self@, i as int);
        }
        let mut out: Vec<char> = Vec::new();
        self.push_part_text(i, Some(a), &mut out);
        out.push(' ');
        out.push('=');
        out.push(' ');
        self.push_part_text(i, Some(b), &mut out);
        assert(out@ =~= to_text(self@.data, self@.symbols, i as nat));
        out
    }

    fn list_text(&self, i: usize, items: &Vec<usize>) -> (text: Vec<char>)
        requires
            self@.wf(),
            i < self@.data.len(),
            self@.data[i as int] is List,
            self@.data[i as int]->List_0 == items@,
        ensures
            text@ == to_text(self@.data, self@.symbols, i as nat),
        decreases i, 1nat,
    {
        proof {
            crate::runtime::lemma_value_refs(self@, i as int);
        }
        let mut out: Vec<char> = Vec::new();
        out.push('(');
        let mut k: usize = 0;
        while k < items.len()
            invariant
                self@.wf(),
                i < self@.data.len(),
                k <= items@.len(),
                crate::data::seq_below(items@, i as int),
                out@ == seq!['('] + joined_text(self@.data, self@.symbols, i as nat, items@, k as nat),
            decreases items@.len() - k,
        {
            if k > 0 {
                out.push(',');
                out.push(' ');
            }
            let t = self.value_at_to_string(items[k]);
            push_chars(&mut out, &t);
            k = k + 1;
            assert(out@ =~= seq!['('] + joined_text(self@.data, self@.symbols, i as nat, items@, k as nat));
        }
        out.push(')');
        assert(out@ =~= to_text(self@.data, self@.symbols, i as nat));
        out
    }

    fn symbol_text(&self, i: usize, s: u64) -> (text: Vec<char>)
        requires
            self@.wf(),
            i < self@.data.len(),
            self@.data[i as int] == DataView::Symbol(s),
        ensures
            text@ == to_text(self@.data, self@.symbols, i as nat),
    {
        let mut out: Vec<char> = Vec::new();
        out.push(':');
        match self.symbol_name_of(s) {
            Some(name) => push_chars(&mut out, &name),
            None => {},
        }
        assert(out@ =~= to_text(self@.data, self@.symbols, i as nat));
        out
    }

    /// The text of the value at `i`.
    pub fn value_at_to_string(&self, i: usize) -> (text: Vec<char>)
        requires
            self@.wf(),
            i < self@.data.len(),
        ensures
            text@ == to_text(self@.data, self@.symbols, i as nat),
        decreases i, 2nat,
    {
        match self.get_data(i) {
            Data::Unit => {
                let mut out: Vec<char> = Vec::new();
                out.push('(');
                out.push(')');
                assert(out@ =~= seq!['(', ')']);
                out
            },
            Data::Integer(n) => {
                let mut out: Vec<char> = Vec::new();
                push_int_text(*n, &mut out);
                assert(out@ =~= int_text(*n as int));
                out
            },
            Data::Character(c) => {
                let mut out: Vec<char> = Vec::new();
                out.push(*c);
                assert(out@ =~= seq![*c]);
                out
            },
            Data::CharacterList(cs) => cs.clone(),
            Data::Symbol(s) => self.symbol_text(i, *s),
            Data::Range(p) => self.range_text(i, *p),
            Data::Pair(a, b) => self.pair_text(i, *a, *b),
            Data::List(items, _) => self.list_text(i, items),
            _ => Vec::new(),
        }
    }
}


/// Byte `k` of `bytes`, or zero past its end.
pub open spec fn padded_byte(bytes: Seq<u8>, k: int) -> int {
    if 0 <= k < bytes.len() { bytes[k] as int } else { 0 }
}

/// The integer whose little-endian bytes are the UTF-8 encoding of `c`, padded
/// with zero bytes to four.
pub open spec fn char_code_integer(c: char) -> i32 {
    let b = encode_scalar(c as u32);
    (padded_byte(b, 0) + padded_byte(b, 1) * 0x100 + padded_byte(b, 2) * 0x10000
        + padded_byte(b, 3) * 0x1000000) as i32
}

/// The value of a digit character, zero for any other character.
pub open spec fn digit_of(c: char) -> int {
    match digit_value(c) {
        Some(d) => d,
        None => 0,
    }
}

/// Every character is a decimal digit.
pub open spec fn all_digits(ds: Seq<char>) -> bool {
    forall|k: int| 0 <= k < ds.len() ==> #[trigger] digit_value(ds[k]) is Some
}

/// The number that a sequence of decimal digits writes.
pub open spec fn digits_value(ds: Seq<char>) -> int
    decreases ds.len(),
{
    if ds.len() == 0 {
        0
    } else {
        digits_value(ds.drop_last()) * 10 + digit_of(ds.last())
    }
}

/// The digits of a number's text, after an optional leading sign.
pub open spec fn unsigned_part(cs: Seq<char>) -> Seq<char> {
    if cs.len() > 0 && (cs[0] == '-' || cs[0] == '+') { cs.drop_first() } else { cs }
}

/// The integer a text writes: an optional `+` or `-`, then one or more decimal
/// digits, with a value that fits in an `i32`.
pub open spec fn parse_integer(cs: Seq<char>) -> Option<i32> {
    let ds = unsigned_part(cs);
    let v = if cs.len() > 0 && cs[0] == '-' { -digits_value(ds) } else { digits_value(ds) };
    if ds.len() == 0 || !all_digits(ds) || v < i32::MIN || v > i32::MAX {
        None
    } else {
        Some(v as i32)
    }
}

/// The value at `i` cast to the kind `target`, when that kind differs from its own.
/// Every value casts to a character list, its text. A character casts to an
/// integer by its UTF-8 bytes, an integer to the character with that scalar
/// value, a symbol to an integer by its value, an integer to the symbol with
/// that value when one is registered, and a character list to the integer it
/// writes or to the symbol registered under that name. Any other cast, and one
/// of these that finds nothing, gives unit.
pub open spec fn cast_value(data: Seq<DataView>, syms: Seq<(Seq<char>, u64)>, i: nat, target: DataType) -> DataView {
    match target {
        DataType::CharacterList => DataView::CharacterList(to_text(data, syms, i)),
        DataType::Integer => match data[i as int] {
            DataView::Character(c) => DataView::Integer(char_code_integer(c)),
            DataView::Symbol(s) => DataView::Integer(s as i32),
            DataView::CharacterList(cs) => match parse_integer(cs) {
                Some(n) => DataView::Integer(n),
                None => DataView::Unit,
            },
            _ => DataView::Unit,
        },
        DataType::Character => match data[i as int] {
            DataView::Integer(n) => if is_scalar(n as u32) {
                DataView::Character((n as u32) as char)
            } else {
                DataView::Unit
            },
            _ => DataView::Unit,
        },
        DataType::Symbol => match data[i as int] {
            DataView::Integer(n) => if symbol_name(syms, n as u64) is Some {
                DataView::Symbol(n as u64)
            } else {
                DataView::Unit
            },
            DataView::CharacterList(cs) => match symbol_value(syms, cs) {
                Some(s) => DataView::Symbol(s),
                None => DataView::Unit,
            },
            _ => DataView::Unit,
        },
        _ => DataView::Unit,
    }
}

/// A runtime after a type cast of its second-to-last register's value to the kind
/// of its last register's value: the last register is removed, and when the kinds
/// differ the other is replaced by the cast value.
pub open spec fn cast_applied(v: RuntimeView) -> RuntimeView {
    if type_of(v.left_operand()) == type_of(v.right_operand()) {
        v.with_consumed(1)
    } else {
        v.binary_applied(cast_value(v.data, v.symbols, v.second_last_reg() as nat, type_of(v.right_operand())))
    }
}

/// The integer whose little-endian bytes are the UTF-8 encoding of `c`.
pub fn char_code_integer_of(c: char) -> (n: i32)
    ensures
        n == char_code_integer(c),
{
    let v: u32 = c as u32;
    let b0: u8;
    let b1: u8;
    let b2: u8;
    let b3: u8;
    if v <= 0x7F {
        b0 = (v & 0x7F) as u8;
        b1 = 0;
        b2 = 0;
        b3 = 0;
    } else if v <= 0x7FF {
        b0 = 0xC0 | ((v >> 6) & 0x1F) as u8;
        b1 = 0x80 | (v & 0x3F) as u8;
        b2 = 0;
        b3 = 0;
    } else if v <= 0xFFFF {
        b0 = 0xE0 | ((v >> 12) & 0x0F) as u8;
        b1 = 0x80 | ((v >> 6) & 0x3F) as u8;
        b2 = 0x80 | (v & 0x3F) as u8;
        b3 = 0;
    } else {
        b0 = 0xF0 | ((v >> 18) & 0x7) as u8;
        b1 = 0x80 | ((v >> 12) & 0x3F) as u8;
        b2 = 0x80 | ((v >> 6) & 0x3F) as u8;
        b3 = 0x80 | (v & 0x3F) as u8;
    }
    let w: u32 = b0 as u32 + (b1 as u32) * 0x100 + (b2 as u32) * 0x10000 + (b3 as u32) * 0x1000000;
    w as i32
}

/// `char::from_u32`: the character with scalar value `n`, or `None` when `n` is
/// not a Unicode scalar value (above `0x10FFFF` or a surrogate).
#[verifier::external_body]
pub(crate) fn char_from_u32(n: u32) -> (c: Option<char>)
    ensures
        c is Some <==> is_scalar(n),
        c matches Some(ch) ==> ch as u32 == n,
{
    char::from_u32(n)
}

fn digit_value_of(c: char) -> (d: Option<u8>)
    ensures
        match d {
            Some(v) => digit_value(c) == Some(v as int),
            None => digit_value(c) is None,
        },
{
    if c == '0' { Some(0) } else if c == '1' { Some(1) } else if c == '2' { Some(2) } else if c == '3' { Some(3) }
    else if c == '4' { Some(4) } else if c == '5' { Some(5) } else if c == '6' { Some(6) } else if c == '7' { Some(7) }
    else if c == '8' { Some(8) } else if c == '9' { Some(9) } else { None }
}

proof fn lemma_digits_value_nonneg(ds: Seq<char>)
    ensures
        digits_value(ds) >= 0,
    decreases ds.len(),
{
    if ds.len() > 0 {
        lemma_digits_value_nonneg(ds.drop_last());
    }
}

/// A prefix of a sequence of digits writes no larger a number.
proof fn lemma_digits_value_prefix(ds: Seq<char>, j: int)
    requires
        0 <= j <= ds.len(),
    ensures
        digits_value(ds.subrange(0, j)) <= digits_value(ds),
    decreases ds.len(),
{
    if j < ds.len() {
        lemma_digits_value_prefix(ds.drop_last(), j);
        assert(ds.drop_last().subrange(0, j) =~= ds.subrange(0, j));
        lemma_digits_value_nonneg(ds.drop_last());
    } else {
        assert(ds.subrange(0, j) =~= ds);
    }
}

/// The integer the characters `cs` write, if they write one that fits in an `i32`.
pub fn parse_integer_of(cs: &Vec<char>) -> (r: Option<i32>)
    ensures
        r == parse_integer(cs@),
{
    let n = cs.len();
    let mut start: usize = 0;
    let mut negative = false;
    if n > 0 && cs[0] == '-' {
        negative = true;
        start = 1;
    } else if n > 0 && cs[0] == '+' {
        start = 1;
    }
    let ghost ds = cs@.subrange(start as int, n as int);
    assert(ds =~= unsigned_part(cs@));
    if start == n {
        return None;
    }
    let mut acc: i64 = 0;
    let mut k: usize = start;
    while k < n
        invariant
            start <= k <= n,
            n == cs@.len(),
            ds == cs@.subrange(start as int, n as int),
            ds == unsigned_part(cs@),
            negative == (cs@.len() > 0 && cs@[0] == '-'),
            all_digits(cs@.subrange(start as int, k as int)),
            acc == digits_value(cs@.subrange(start as int, k as int)),
            0 <= acc <= 0x80000000,
        decreases n - k,
    {
        let ghost before = cs@.subrange(start as int, k as int);
        let ghost after = cs@.subrange(start as int, k + 1);
        assert(after.drop_last() =~= before);
        assert(ds[k - start] == cs@[k as int]);
        match digit_value_of(cs[k]) {
            None => {
                assert(!all_digits(ds));
                return None;
            },
            Some(d) => {
                acc = acc * 10 + d as i64;
                assert(acc == digits_value(after));
                assert(all_digits(after)) by {
                    assert forall|j: int| 0 <= j < after.len() implies #[trigger] digit_value(after[j]) is Some by {
                        if j < before.len() {
                            assert(after[j] == before[j]);
                        }
                    }
                }
                if acc > 0x80000000 {
                    proof {
                        assert(ds.subrange(0, k + 1 - start) =~= after);
                        lemma_digits_value_prefix(ds, k + 1 - start);
                    }
                    return None;
                }
            },
        }
        k = k + 1;
    }
    assert(cs@.subrange(start as int, k as int) =~= ds);
    let x: i64 = if negative { -acc } else { acc };
    if x < i32::MIN as i64 || x > i32::MAX as i64 {
        None
    } else {
        Some(x as i32)
    }
}

impl ExpressionRuntime {
    /// The value at `i` cast to the kind `target`.
    fn cast_value_of(&self, i: usize, target: DataType) -> (d: Data)
        requires
            self@.wf(),
            i < self@.data.len(),
        ensures
            d@ == cast_value(self@.data, self@.symbols, i as nat, target),
            refs_below(d@, 0),
    {
        match target {
            DataType::CharacterList => {
                let text = self.value_at_to_string(i);
                Data::CharacterList(text)
            },
            DataType::Integer => match self.get_data(i) {
                Data::Character(c) => Data::Integer(char_code_integer_of(*c)),
                Data::Symbol(s) => Data::Integer(*s as i32),
                Data::CharacterList(cs) => match parse_integer_of(cs) {
                    Some(n) => Data::Integer(n),
                    None => Data::Unit,
                },
                _ => Data::Unit,
            },
            DataType::Character => match self.get_data(i) {
                Data::Integer(n) => match char_from_u32(*n as u32) {
                    Some(c) => {
                        proof {
                            vstd::utf8::char_u32_cast(c, *n as u32);
                        }
                        Data::Character(c)
                    },
                    None => Data::Unit,
                },
                _ => Data::Unit,
            },
            DataType::Symbol => match self.get_data(i) {
                Data::Integer(n) => {
                    let s = *n as u64;
                    if self.symbol_name_ref(s).is_some() {
                        Data::Symbol(s)
                    } else {
                        Data::Unit
                    }
                },
                Data::CharacterList(cs) => match self.symbol_value_of_chars(cs) {
                    Some(s) => Data::Symbol(s),
                    None => Data::Unit,
                },
                _ => Data::Unit,
            },
            _ => Data::Unit,
        }
    }

    /// Casts the value in the second-to-last register to the kind of the value in
    /// the last register. The last register is always removed; when the two kinds
    /// are the same nothing else changes, else the other register is replaced by
    /// the cast value.
    pub fn perform_type_cast(&mut self) -> (r: Result<(), RuntimeError>)
        requires
            old(self)@.wf(),
            old(self)@.data.len() + 1 < usize::MAX,
        ensures
            final(self)@.wf(),
            old(self)@.registers.len() == 0 ==> r == Err::<(), RuntimeError>(RuntimeError::NotEnoughRegisters)
                && final(self)@ == old(self)@,
            old(self)@.registers.len() == 1 ==> r == Err::<(), RuntimeError>(RuntimeError::NotEnoughRegisters)
                && final(self)@ == old(self)@.with_consumed(1),
            old(self)@.registers.len() >= 2 ==> r is Ok && final(self)@ == cast_applied(old(self)@),
    {
        let right = self.consume_last_ref()?;
        let left = self.last_ref()?;
        proof {
            crate::runtime::lemma_register_in_bounds(old(self)@, old(self)@.registers.len() - 1);
            crate::runtime::lemma_register_in_bounds(old(self)@, old(self)@.registers.len() - 2);
        }
        let left_type = self.get_data(left).get_type();
        let right_type = self.get_data(right).get_type();
        if left_type == right_type {
            return Ok(());
        }
        let _ = self.consume_last_ref();
        proof {
            let regs = old(self)@.registers;
            assert(regs.subrange(0, regs.len() - 1).subrange(0, regs.len() - 2) =~= regs.subrange(0, regs.len() - 2));
            assert(self@ == old(self)@.with_consumed(2));
        }
        let result = self.cast_value_of(left, right_type);
        self.push_value(result);
        Ok(())
    }
}

} // verus!
