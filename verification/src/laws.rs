use vstd::prelude::*;
use vstd::arithmetic::power2::{pow2, lemma_pow2_pos, lemma_pow2_adds, lemma2_to64};
use vstd::arithmetic::div_mod::{lemma_div_by_multiple, lemma_hoist_over_denominator, lemma_fundamental_div_mod};
use vstd::bits::lemma_u64_shr_is_div;
use crate::access::{KeyId, Outcome, access_outcome, find_key, key_matches};
use crate::bitwise::{BitwiseOp, bitwise_not_result, bitwise_result};
use crate::cast::{all_digits, cast_value, char_code_integer, digit_char, digit_of, digit_value, digits_value,
    int_text, nat_text, parse_integer, unsigned_part};
use crate::comparison::{Comparison, ValueOrder, comparison_holds, lex_order, ordering, law_ordering_antisymmetric};
use crate::conditional::truthy;
use crate::data::{DataType, DataView};
use crate::logical::{logical_and, logical_not};
use crate::math::{UnaryMathOp, unary_result};
use crate::runtime::{LEFT_SYMBOL, RIGHT_SYMBOL, LENGTH_SYMBOL, KEY_COUNT_SYMBOL, RuntimeView, condition_symbol, data_wf, stored_refs_ok, symbol_name, symbol_value};
use crate::lists::{association_keys, list_items, made_list};

verus! {

/// Accessing `left` of a pair gives its left value, and `right` its right value.
pub proof fn law_pair_access(data: Seq<DataView>, p: usize, s: usize, a: usize, b: usize)
    requires
        p < data.len(),
        s < data.len(),
        data[p as int] == DataView::Pair(a, b),
    ensures
        data[s as int] == DataView::Symbol(LEFT_SYMBOL) ==> access_outcome(data, p, s) == Some(Outcome::Existing(a)),
        data[s as int] == DataView::Symbol(RIGHT_SYMBOL) ==> access_outcome(data, p, s) == Some(Outcome::Existing(b)),
{
}

/// Accessing a list by an index gives the item at that index; a negative index
/// counts from the end.
pub proof fn law_list_index_access(data: Seq<DataView>, l: usize, x: usize, items: Seq<usize>, keys: Seq<usize>, i: i32)
    requires
        l < data.len(),
        x < data.len(),
        data[l as int] == DataView::List(items, keys),
        data[x as int] == DataView::Integer(i),
        items.len() <= i32::MAX,
    ensures
        0 <= i < items.len() ==> access_outcome(data, l, x) == Some(Outcome::Existing(items[i as int])),
        -items.len() <= i < 0 ==> access_outcome(data, l, x) == Some(Outcome::Existing(items[items.len() + i])),
{
}

proof fn lemma_lex_order_reflexive(a: Seq<char>)
    ensures
        lex_order(a, a) == ValueOrder::Equal,
    decreases a.len(),
{
    if a.len() > 0 {
        lemma_lex_order_reflexive(a.drop_first());
    }
}

/// No value is less or greater than itself; units, integers, characters, character
/// lists and symbols equal themselves.
pub proof fn law_ordering_irreflexive(data: Seq<DataView>, syms: Seq<(Seq<char>, u64)>, i: nat)
    requires
        i < data.len(),
    ensures
        ordering(data, syms, i, i) != Some(ValueOrder::Less),
        ordering(data, syms, i, i) != Some(ValueOrder::Greater),
        (data[i as int] is Unit || data[i as int] is Integer || data[i as int] is Character
            || data[i as int] is CharacterList || data[i as int] is Symbol) ==> ordering(data, syms, i, i) == Some(ValueOrder::Equal),
{
    law_ordering_antisymmetric(data, syms, i, i);
    match data[i as int] {
        DataView::CharacterList(a) => lemma_lex_order_reflexive(a),
        _ => {},
    }
}

/// One value is less than another exactly when the other is greater than it, and
/// at most exactly when the other is at least.
pub proof fn law_less_is_converse_of_greater(data: Seq<DataView>, syms: Seq<(Seq<char>, u64)>, l: nat, r: nat)
    ensures
        comparison_holds(Comparison::Less, ordering(data, syms, l, r)) == comparison_holds(Comparison::Greater, ordering(data, syms, r, l)),
        comparison_holds(Comparison::LessOrEqual, ordering(data, syms, l, r))
            == comparison_holds(Comparison::GreaterOrEqual, ordering(data, syms, r, l)),
        comparison_holds(Comparison::Equal, ordering(data, syms, l, r)) == comparison_holds(Comparison::Equal, ordering(data, syms, r, l)),
{
    law_ordering_antisymmetric(data, syms, l, r);
}

/// Not gives the opposite of a value's truth, so negating twice gives back its truth.
pub proof fn law_not_negates_truth(d: DataView)
    ensures
        logical_not(d) == !truthy(d),
        truthy(condition_symbol(logical_not(condition_symbol(logical_not(d))))) == truthy(d),
{
}

/// And is true only when both values are true.
pub proof fn law_and_needs_both(l: DataView, r: DataView)
    ensures
        logical_and(l, r) ==> truthy(l) && truthy(r),
{
}

/// Bitwise not twice gives back the integer.
pub proof fn law_bitwise_not_involution(i: i32)
    ensures
        bitwise_not_result(bitwise_not_result(DataView::Integer(i))) == DataView::Integer(i),
{
    assert(!(!i) == i) by (bit_vector);
}

/// Negating twice gives back an integer that can be negated.
pub proof fn law_negation_involution(i: i32)
    requires
        i != i32::MIN,
    ensures
        unary_result(UnaryMathOp::Negate, unary_result(UnaryMathOp::Negate, DataView::Integer(i))) == DataView::Integer(i),
{
}

proof fn lemma_digit_char(d: int)
    requires
        0 <= d < 10,
    ensures
        digit_value(digit_char(d)) == Some(d),
        digit_of(digit_char(d)) == d,
        digit_char(d) != '-',
        digit_char(d) != '+',
{
}

/// The decimal digits of a number are digits, start with no sign, and write it.
proof fn lemma_nat_text(m: nat)
    ensures
        nat_text(m).len() > 0,
        all_digits(nat_text(m)),
        digits_value(nat_text(m)) == m,
        nat_text(m)[0] != '-',
        nat_text(m)[0] != '+',
    decreases m,
{
    if m < 10 {
        lemma_digit_char(m as int);
        let t = nat_text(m);
        assert(t.drop_last() =~= Seq::<char>::empty());
        assert(digits_value(t) == digits_value(t.drop_last()) * 10 + digit_of(t.last()));
    } else {
        lemma_nat_text(m / 10);
        lemma_digit_char((m % 10) as int);
        let t = nat_text(m / 10);
        let dc = digit_char((m % 10) as int);
        assert(nat_text(m) == t.push(dc));
        assert(t.push(dc).drop_last() =~= t);
        assert(t.push(dc).last() == dc);
        assert(digits_value(t.push(dc)) == digits_value(t) * 10 + digit_of(dc));
        assert((m / 10) * 10 + m % 10 == m);
        assert forall|k: int| 0 <= k < t.push(dc).len() implies #[trigger] digit_value(t.push(dc)[k]) is Some by {
            if k < t.len() {
                assert(t.push(dc)[k] == t[k]);
            }
        }
    }
}

/// Reading back the decimal text of an integer gives the integer.
pub proof fn law_integer_text_roundtrip(n: i32)
    ensures
        parse_integer(int_text(n as int)) == Some(n),
{
    if n < 0 {
        let m = (-(n as int)) as nat;
        lemma_nat_text(m);
        let cs = seq!['-'] + nat_text(m);
        assert(cs[0] == '-');
        assert(cs.drop_first() =~= nat_text(m));
        assert(unsigned_part(cs) == nat_text(m));
    } else {
        lemma_nat_text(n as nat);
    }
}

/// Casting an integer to a character list and that back to an integer gives the integer.
pub proof fn law_integer_cast_roundtrip(data: Seq<DataView>, syms: Seq<(Seq<char>, u64)>, i: nat,
    data2: Seq<DataView>, syms2: Seq<(Seq<char>, u64)>, j: nat, n: i32)
    requires
        i < data.len(),
        j < data2.len(),
        data[i as int] == DataView::Integer(n),
        data2[j as int] == cast_value(data, syms, i, DataType::CharacterList),
    ensures
        cast_value(data2, syms2, j, DataType::Integer) == DataView::Integer(n),
{
    law_integer_text_roundtrip(n);
}

/// A character with a one-byte UTF-8 encoding casts to its scalar value.
pub proof fn law_ascii_character_code(c: char)
    requires
        (c as u32) < 0x80,
    ensures
        char_code_integer(c) == (c as u32) as i32,
{
    let v = c as u32;
    assert((v & 0x7F) == v) by (bit_vector)
        requires
            v < 0x80,
    ;
}

/// Casting a character with a one-byte UTF-8 encoding to an integer and that back
/// to a character gives the character.
pub proof fn law_ascii_character_cast_roundtrip(data: Seq<DataView>, syms: Seq<(Seq<char>, u64)>, i: nat,
    data2: Seq<DataView>, syms2: Seq<(Seq<char>, u64)>, j: nat, c: char)
    requires
        i < data.len(),
        j < data2.len(),
        data[i as int] == DataView::Character(c),
        (c as u32) < 0x80,
        data2[j as int] == cast_value(data, syms, i, DataType::Integer),
    ensures
        cast_value(data2, syms2, j, DataType::Character) == DataView::Character(c),
{
    law_ascii_character_code(c);
    let v = c as u32;
    vstd::utf8::char_u32_cast(c, v);
    assert(((v as i32) as u32) == v);
}


/// Shifting an `i32` right arithmetically is shifting it, moved up by `2^31`, right as
/// an unsigned number and moving the result back down.
proof fn lemma_shift_right_offset(l: i32, k: u32)
    requires
        k < 32,
    ensures
        (l >> k) as int == ((((l as int) + 0x8000_0000) as u64) >> (k as u64)) as int
            - ((0x8000_0000u64 >> (k as u64)) as int),
{
    assert((l >> k) as i64 == ((((l as i64) + 0x8000_0000i64) as u64) >> (k as u64)) as i64
        - ((0x8000_0000u64 >> (k as u64)) as i64)) by (bit_vector)
        requires
            k < 32,
    ;
    assert(((l as i64) + 0x8000_0000i64) as u64 == (((l as int) + 0x8000_0000) as u64));
}

/// Shifting an integer right by `k` in `0..32` divides it by `2^k`, rounding down: the
/// result `r` has `r * 2^k <= l < (r + 1) * 2^k`, so a negative integer stays negative.
pub proof fn law_shift_right_divides(l: i32, k: i32)
    requires
        0 <= k < 32,
    ensures
        bitwise_result(BitwiseOp::ShiftRight, DataView::Integer(l), DataView::Integer(k)) matches DataView::Integer(r)
            && r * pow2(k as nat) <= l < (r + 1) * pow2(k as nat),
{
    let kk = k as u32;
    let p = pow2(k as nat);
    let u = ((l as int) + 0x8000_0000) as u64;
    assert(u as int == (l as int) + 0x8000_0000);
    lemma_shift_right_offset(l, kk);
    lemma_u64_shr_is_div(u, kk as u64);
    lemma_u64_shr_is_div(0x8000_0000u64, kk as u64);
    lemma_pow2_pos(k as nat);
    lemma_pow2_adds(k as nat, (31 - k) as nat);
    lemma2_to64();
    let q = pow2((31 - k) as nat);
    assert(0x8000_0000 == p * q);
    lemma_div_by_multiple(q as int, p as int);
    assert((p * q) as int / p as int == q) by (nonlinear_arith)
        requires q as int * p as int / p as int == q, p * q == q * p;
    lemma_hoist_over_denominator(l as int, q as int, p);
    assert(l as int + q * p == u as int) by (nonlinear_arith)
        requires 0x8000_0000 == p * q, u as int == l as int + 0x8000_0000;
    let r = (l >> kk) as int;
    assert(r == (l as int) / (p as int));
    lemma_fundamental_div_mod(l as int, p as int);
    assert(0 <= (l as int) % (p as int) < p) by {
        vstd::arithmetic::div_mod::lemma_mod_bound(l as int, p as int);
    }
    assert(r * p <= l < (r + 1) * p) by (nonlinear_arith)
        requires
            l == p * r + (l as int) % (p as int),
            0 <= (l as int) % (p as int) < p;
}


/// Two pairs are equal exactly when their left values are equal and their right
/// values are equal; a pair is never less or greater than another.
pub proof fn law_pair_equality(data: Seq<DataView>, syms: Seq<(Seq<char>, u64)>, l: nat, r: nat,
    a1: usize, b1: usize, a2: usize, b2: usize)
    requires
        data_wf(data),
        l < data.len(),
        r < data.len(),
        data[l as int] == DataView::Pair(a1, b1),
        data[r as int] == DataView::Pair(a2, b2),
    ensures
        ordering(data, syms, l, r) == Some(ValueOrder::Equal) <==>
            (ordering(data, syms, a1 as nat, a2 as nat) == Some(ValueOrder::Equal)
                && ordering(data, syms, b1 as nat, b2 as nat) == Some(ValueOrder::Equal)),
        ordering(data, syms, l, r) != Some(ValueOrder::Less),
        ordering(data, syms, l, r) != Some(ValueOrder::Greater),
{
    assert(stored_refs_ok(data[l as int], l as int, data.len() as int));
    assert(stored_refs_ok(data[r as int], r as int, data.len() as int));
}

/// The first association found among `keys` is one of them whose key matches, and
/// none before it matches; when none is found, none matches.
proof fn lemma_find_key(data: Seq<DataView>, keys: Seq<usize>, key: KeyId)
    ensures
        match find_key(data, keys, key) {
            Some(k) => exists|j: int| 0 <= j < keys.len() && keys[j] == k && key_matches(data, k, key)
                && forall|i: int| 0 <= i < j ==> !key_matches(data, #[trigger] keys[i], key),
            None => forall|j: int| 0 <= j < keys.len() ==> !key_matches(data, #[trigger] keys[j], key),
        },
    decreases keys.len(),
{
    if keys.len() > 0 {
        let rest = keys.drop_first();
        lemma_find_key(data, rest, key);
        if !key_matches(data, keys[0], key) {
            match find_key(data, rest, key) {
                Some(k) => {
                    let j0 = choose|j: int| 0 <= j < rest.len() && rest[j] == k && key_matches(data, k, key)
                        && forall|i: int| 0 <= i < j ==> !key_matches(data, #[trigger] rest[i], key);
                    assert(keys[j0 + 1] == k);
                    assert forall|i: int| 0 <= i < j0 + 1 implies !key_matches(data, #[trigger] keys[i], key) by {
                        if i > 0 {
                            assert(keys[i] == rest[i - 1]);
                        }
                    }
                },
                None => {
                    assert forall|j: int| 0 <= j < keys.len() implies !key_matches(data, #[trigger] keys[j], key) by {
                        if j > 0 {
                            assert(keys[j] == rest[j - 1]);
                        }
                    }
                },
            }
        }
    }
}

/// Accessing a list by a character list gives the right value of its first
/// association whose key is exactly that character list, and unit when it has none.
pub proof fn law_list_text_key_access(data: Seq<DataView>, l: usize, x: usize, items: Seq<usize>, keys: Seq<usize>,
    cs: Seq<char>)
    requires
        l < data.len(),
        x < data.len(),
        data[l as int] == DataView::List(items, keys),
        data[x as int] == DataView::CharacterList(cs),
    ensures
        match access_outcome(data, l, x) {
            Some(Outcome::Existing(p)) => exists|j: int| 0 <= j < keys.len() && keys[j] < data.len()
                && (#[trigger] data[keys[j] as int]) is Pair && data[keys[j] as int]->Pair_1 == p
                && data[keys[j] as int]->Pair_0 < data.len()
                && data[data[keys[j] as int]->Pair_0 as int] == DataView::CharacterList(cs)
                && forall|i: int| 0 <= i < j && keys[i] < data.len() && (#[trigger] data[keys[i] as int]) is Pair
                    && data[keys[i] as int]->Pair_0 < data.len()
                    ==> data[data[keys[i] as int]->Pair_0 as int] != DataView::CharacterList(cs),
            Some(Outcome::New(d)) => d == DataView::Unit && forall|j: int| 0 <= j < keys.len() && keys[j] < data.len()
                && (#[trigger] data[keys[j] as int]) is Pair && data[keys[j] as int]->Pair_0 < data.len()
                ==> data[data[keys[j] as int]->Pair_0 as int] != DataView::CharacterList(cs),
            _ => false,
        },
{
    let key = KeyId::Characters(cs);
    lemma_find_key(data, keys, key);
    match find_key(data, keys, key) {
        Some(k) => {
            let j0 = choose|j: int| 0 <= j < keys.len() && keys[j] == k && key_matches(data, k, key)
                && forall|i: int| 0 <= i < j ==> !key_matches(data, #[trigger] keys[i], key);
            assert(data[data[keys[j0] as int]->Pair_0 as int] == DataView::CharacterList(cs));
            assert forall|i: int| 0 <= i < j0 && keys[i] < data.len() && (#[trigger] data[keys[i] as int]) is Pair
                && data[keys[i] as int]->Pair_0 < data.len()
                implies data[data[keys[i] as int]->Pair_0 as int] != DataView::CharacterList(cs) by {
                assert(!key_matches(data, keys[i], key));
            }
        },
        None => {
            assert forall|j: int| 0 <= j < keys.len() && keys[j] < data.len() && (#[trigger] data[keys[j] as int]) is Pair
                && data[keys[j] as int]->Pair_0 < data.len()
                implies data[data[keys[j] as int]->Pair_0 as int] != DataView::CharacterList(cs) by {
                assert(!key_matches(data, keys[j], key));
            }
        },
    }
}

/// Accessing a list by a symbol other than `length` and `key_count` gives the right
/// value of its first association keyed by exactly that symbol, and unit when it has none.
pub proof fn law_list_symbol_key_access(data: Seq<DataView>, l: usize, x: usize, items: Seq<usize>, keys: Seq<usize>,
    s: u64)
    requires
        l < data.len(),
        x < data.len(),
        data[l as int] == DataView::List(items, keys),
        data[x as int] == DataView::Symbol(s),
        s != LENGTH_SYMBOL,
        s != KEY_COUNT_SYMBOL,
    ensures
        match access_outcome(data, l, x) {
            Some(Outcome::Existing(p)) => exists|j: int| 0 <= j < keys.len() && keys[j] < data.len()
                && (#[trigger] data[keys[j] as int]) is Pair && data[keys[j] as int]->Pair_1 == p
                && data[keys[j] as int]->Pair_0 < data.len()
                && data[data[keys[j] as int]->Pair_0 as int] == DataView::Symbol(s)
                && forall|i: int| 0 <= i < j && keys[i] < data.len() && (#[trigger] data[keys[i] as int]) is Pair
                    && data[keys[i] as int]->Pair_0 < data.len()
                    ==> data[data[keys[i] as int]->Pair_0 as int] != DataView::Symbol(s),
            Some(Outcome::New(d)) => d == DataView::Unit && forall|j: int| 0 <= j < keys.len() && keys[j] < data.len()
                && (#[trigger] data[keys[j] as int]) is Pair && data[keys[j] as int]->Pair_0 < data.len()
                ==> data[data[keys[j] as int]->Pair_0 as int] != DataView::Symbol(s),
            _ => false,
        },
{
    let key = KeyId::Symbol(s);
    lemma_find_key(data, keys, key);
    match find_key(data, keys, key) {
        Some(k) => {
            let j0 = choose|j: int| 0 <= j < keys.len() && keys[j] == k && key_matches(data, k, key)
                && forall|i: int| 0 <= i < j ==> !key_matches(data, #[trigger] keys[i], key);
            assert(data[data[keys[j0] as int]->Pair_0 as int] == DataView::Symbol(s));
            assert forall|i: int| 0 <= i < j0 && keys[i] < data.len() && (#[trigger] data[keys[i] as int]) is Pair
                && data[keys[i] as int]->Pair_0 < data.len()
                implies data[data[keys[i] as int]->Pair_0 as int] != DataView::Symbol(s) by {
                assert(!key_matches(data, keys[i], key));
            }
        },
        None => {
            assert forall|j: int| 0 <= j < keys.len() && keys[j] < data.len() && (#[trigger] data[keys[j] as int]) is Pair
                && data[keys[j] as int]->Pair_0 < data.len()
                implies data[data[keys[j] as int]->Pair_0 as int] != DataView::Symbol(s) by {
                assert(!key_matches(data, keys[j], key));
            }
        },
    }
}

/// A symbol value that a name is registered for has that name as its first one.
proof fn lemma_registered_symbol_named(syms: Seq<(Seq<char>, u64)>, k: int)
    requires
        0 <= k < syms.len(),
    ensures
        symbol_name(syms, syms[k].1) is Some,
    decreases syms.len(),
{
    if k > 0 && syms[0].1 != syms[k].1 {
        lemma_registered_symbol_named(syms.drop_first(), k - 1);
    }
}

/// Casting an integer to a symbol gives the symbol of that value whenever a name is
/// registered for it.
pub proof fn law_integer_to_registered_symbol(data: Seq<DataView>, syms: Seq<(Seq<char>, u64)>, i: nat, n: i32, k: int)
    requires
        i < data.len(),
        data[i as int] == DataView::Integer(n),
        0 <= k < syms.len(),
        syms[k].1 == n as u64,
    ensures
        cast_value(data, syms, i, DataType::Symbol) == DataView::Symbol(n as u64),
{
    lemma_registered_symbol_named(syms, k);
}

/// Casting a symbol with a registered name whose value fits an integer to an integer,
/// and that integer back to a symbol, gives the symbol.
pub proof fn law_symbol_integer_roundtrip(data: Seq<DataView>, syms: Seq<(Seq<char>, u64)>, i: nat, s: u64, k: int,
    data2: Seq<DataView>, j: nat)
    requires
        i < data.len(),
        data[i as int] == DataView::Symbol(s),
        s <= i32::MAX,
        0 <= k < syms.len(),
        syms[k].1 == s,
        j < data2.len(),
        data2[j as int] == cast_value(data, syms, i, DataType::Integer),
    ensures
        cast_value(data2, syms, j, DataType::Symbol) == DataView::Symbol(s),
{
    assert(data2[j as int] == DataView::Integer(s as i32));
    assert((s as i32) as u64 == s);
    law_integer_to_registered_symbol(data2, syms, j, s as i32, k);
}

/// The associations of a list are exactly its items that are pairs keyed by a symbol
/// or a character list: every association is such an item, and every such item is
/// an association.
pub proof fn law_list_associations(data: Seq<DataView>, items: Seq<usize>)
    requires
        forall|j: int| 0 <= j < items.len() ==> #[trigger] items[j] < data.len(),
    ensures
        forall|j: int| 0 <= j < association_keys(data, items).len() ==> {
            let p = #[trigger] association_keys(data, items)[j];
            &&& items.contains(p)
            &&& data[p as int] is Pair
            &&& data[p as int]->Pair_0 < data.len()
            &&& (data[data[p as int]->Pair_0 as int] is Symbol || data[data[p as int]->Pair_0 as int] is CharacterList)
        },
        forall|j: int| 0 <= j < items.len() && (#[trigger] data[items[j] as int]) is Pair
            && data[items[j] as int]->Pair_0 < data.len()
            && (data[data[items[j] as int]->Pair_0 as int] is Symbol || data[data[items[j] as int]->Pair_0 as int] is CharacterList)
            ==> association_keys(data, items).contains(items[j]),
    decreases items.len(),
{
    if items.len() > 0 {
        let rest = items.drop_last();
        assert forall|j: int| 0 <= j < rest.len() implies #[trigger] rest[j] < data.len() by {
            assert(rest[j] == items[j]);
        }
        law_list_associations(data, rest);
        let keys = association_keys(data, items);
        let rk = association_keys(data, rest);
        assert forall|j: int| 0 <= j < keys.len() implies {
            let p = #[trigger] keys[j];
            &&& items.contains(p)
            &&& data[p as int] is Pair
            &&& data[p as int]->Pair_0 < data.len()
            &&& (data[data[p as int]->Pair_0 as int] is Symbol || data[data[p as int]->Pair_0 as int] is CharacterList)
        } by {
            if j < rk.len() {
                assert(keys[j] == rk[j]);
                let p = rk[j];
                assert(rest.contains(p));
                let t = choose|t: int| 0 <= t < rest.len() && rest[t] == p;
                assert(items[t] == p);
            } else {
                assert(keys[j] == items.last());
                assert(items[items.len() - 1] == items.last());
            }
        }
        assert forall|j: int| 0 <= j < items.len() && (#[trigger] data[items[j] as int]) is Pair
            && data[items[j] as int]->Pair_0 < data.len()
            && (data[data[items[j] as int]->Pair_0 as int] is Symbol || data[data[items[j] as int]->Pair_0 as int] is CharacterList)
            implies keys.contains(items[j]) by {
            if j < rest.len() {
                assert(rest[j] == items[j]);
                assert(data[rest[j] as int] is Pair);
                assert(rk.contains(rest[j]));
                let t = choose|t: int| 0 <= t < rk.len() && rk[t] == rest[j];
                assert(keys[t] == rk[t]);
            } else {
                assert(items[j] == items.last());
                assert(keys[keys.len() - 1] == items.last());
            }
        }
    }
}

/// Making a list stores a list of the items since the list was started whose
/// associations are exactly those items that are pairs keyed by a symbol or a
/// character list; an item keyed by anything else is no association.
pub proof fn law_made_list_associations(v: RuntimeView)
    requires
        v.wf(),
        v.lists.len() > 0,
    ensures
        made_list(v).data.last() == DataView::List(list_items(v), association_keys(v.data, list_items(v))),
        forall|j: int| 0 <= j < association_keys(v.data, list_items(v)).len() ==> {
            let p = #[trigger] association_keys(v.data, list_items(v))[j];
            &&& list_items(v).contains(p)
            &&& v.data[p as int] is Pair
            &&& v.data[p as int]->Pair_0 < v.data.len()
            &&& (v.data[v.data[p as int]->Pair_0 as int] is Symbol || v.data[v.data[p as int]->Pair_0 as int] is CharacterList)
        },
        forall|j: int| 0 <= j < list_items(v).len() && (#[trigger] v.data[list_items(v)[j] as int]) is Pair
            && v.data[list_items(v)[j] as int]->Pair_0 < v.data.len()
            && (v.data[v.data[list_items(v)[j] as int]->Pair_0 as int] is Symbol
                || v.data[v.data[list_items(v)[j] as int]->Pair_0 as int] is CharacterList)
            ==> association_keys(v.data, list_items(v)).contains(list_items(v)[j]),
{
    let items = list_items(v);
    assert forall|j: int| 0 <= j < items.len() implies #[trigger] items[j] < v.data.len() by {
        assert(items[j] == v.registers[crate::lists::list_start(v) + j]);
    }
    law_list_associations(v.data, items);
}

/// Bitwise and, or and xor of integers act bit by bit: and with no bits gives none
/// and with all bits gives the integer; or with no bits gives the integer and with all
/// bits gives all; xor with itself gives none and with no bits gives the integer; and
/// each of them gives the same either way round.
pub proof fn law_bitwise_operations(l: i32, r: i32)
    ensures
        bitwise_result(BitwiseOp::And, DataView::Integer(l), DataView::Integer(0)) == DataView::Integer(0),
        bitwise_result(BitwiseOp::And, DataView::Integer(l), DataView::Integer(-1i32)) == DataView::Integer(l),
        bitwise_result(BitwiseOp::Or, DataView::Integer(l), DataView::Integer(0)) == DataView::Integer(l),
        bitwise_result(BitwiseOp::Or, DataView::Integer(l), DataView::Integer(-1i32)) == DataView::Integer(-1i32),
        bitwise_result(BitwiseOp::Xor, DataView::Integer(l), DataView::Integer(l)) == DataView::Integer(0),
        bitwise_result(BitwiseOp::Xor, DataView::Integer(l), DataView::Integer(0)) == DataView::Integer(l),
        bitwise_result(BitwiseOp::And, DataView::Integer(l), DataView::Integer(r))
            == bitwise_result(BitwiseOp::And, DataView::Integer(r), DataView::Integer(l)),
        bitwise_result(BitwiseOp::Or, DataView::Integer(l), DataView::Integer(r))
            == bitwise_result(BitwiseOp::Or, DataView::Integer(r), DataView::Integer(l)),
        bitwise_result(BitwiseOp::Xor, DataView::Integer(l), DataView::Integer(r))
            == bitwise_result(BitwiseOp::Xor, DataView::Integer(r), DataView::Integer(l)),
{
    assert(l & 0 == 0) by (bit_vector);
    assert(l & -1i32 == l) by (bit_vector);
    assert(l | 0 == l) by (bit_vector);
    assert(l | -1i32 == -1i32) by (bit_vector);
    assert(l ^ l == 0) by (bit_vector);
    assert(l ^ 0 == l) by (bit_vector);
    assert(l & r == r & l) by (bit_vector);
    assert(l | r == r | l) by (bit_vector);
    assert(l ^ r == r ^ l) by (bit_vector);
}

/// Shifting an integer left by `k` in `0..32` multiplies it by `2^k` when the product
/// fits an integer.
pub proof fn law_shift_left_multiplies(l: i32, k: i32)
    requires
        0 <= k < 32,
        i32::MIN <= l * pow2(k as nat) <= i32::MAX,
    ensures
        bitwise_result(BitwiseOp::ShiftLeft, DataView::Integer(l), DataView::Integer(k))
            == DataView::Integer((l * pow2(k as nat)) as i32),
{
    let kk = k as u32;
    let p = pow2(k as nat);
    assert((l as i64) * (1i64 << (kk as i64)) <= 0x7fff_ffff && (l as i64) * (1i64 << (kk as i64)) >= -0x8000_0000
        ==> (l << kk) as i64 == (l as i64) * (1i64 << (kk as i64))) by (bit_vector)
        requires
            kk < 32,
    ;
    assert((1i64 << (kk as i64)) as u64 == 1u64 << (kk as u64) && 1 <= (1i64 << (kk as i64)) <= 0x8000_0000) by (bit_vector)
        requires
            kk < 32,
    ;
    vstd::bits::lemma_u64_pow2_no_overflow(k as nat);
    vstd::bits::lemma_u64_shl_is_mul(1u64, kk as u64);
    assert((1u64 << (kk as u64)) as int == p);
    assert((1i64 << (kk as i64)) as int == p);
}

/// Casting an integer to a character gives the character with that scalar value when
/// there is one (from 0 to 0x10FFFF, surrogates excepted), and unit otherwise.
pub proof fn law_integer_to_character(data: Seq<DataView>, syms: Seq<(Seq<char>, u64)>, i: nat, n: i32)
    requires
        i < data.len(),
        data[i as int] == DataView::Integer(n),
    ensures
        (0 <= n <= 0x10FFFF && !(0xD800 <= n <= 0xDFFF)) ==> (cast_value(data, syms, i, DataType::Character)
            matches DataView::Character(c) && c as int == n),
        !(0 <= n <= 0x10FFFF && !(0xD800 <= n <= 0xDFFF)) ==> cast_value(data, syms, i, DataType::Character) == DataView::Unit,
{
    if n < 0 {
        assert((n as u32) >= 0x8000_0000) by (bit_vector)
            requires
                n < 0,
        ;
    }
}

/// The first symbol registered under a name, if any, is one of the table's entries for that name.
proof fn lemma_symbol_value_registered(syms: Seq<(Seq<char>, u64)>, name: Seq<char>)
    ensures
        (exists|k: int| 0 <= k < syms.len() && (#[trigger] syms[k]).0 == name) <==> symbol_value(syms, name) is Some,
        symbol_value(syms, name) matches Some(v) ==> exists|k: int| 0 <= k < syms.len() && #[trigger] syms[k] == (name, v),
    decreases syms.len(),
{
    if syms.len() > 0 {
        let rest = syms.drop_first();
        lemma_symbol_value_registered(rest, name);
        if exists|k: int| 0 <= k < syms.len() && (#[trigger] syms[k]).0 == name {
            let k = choose|k: int| 0 <= k < syms.len() && (#[trigger] syms[k]).0 == name;
            if k > 0 && syms[0].0 != name {
                assert(rest[k - 1].0 == name);
            }
        }
        if symbol_value(rest, name) is Some && syms[0].0 != name {
            let k = choose|k: int| 0 <= k < rest.len() && (#[trigger] rest[k]).0 == name;
            assert(syms[k + 1].0 == name);
            let v = symbol_value(rest, name)->Some_0;
            let k2 = choose|k: int| 0 <= k < rest.len() && #[trigger] rest[k] == (name, v);
            assert(syms[k2 + 1] == (name, v));
        }
        if syms[0].0 == name {
            assert(syms[0] == (name, syms[0].1));
        }
    }
}

/// Casting a character list to a symbol gives a symbol registered under exactly that
/// name when there is one, and unit when no symbol has that name.
pub proof fn law_text_to_symbol(data: Seq<DataView>, syms: Seq<(Seq<char>, u64)>, i: nat, cs: Seq<char>)
    requires
        i < data.len(),
        data[i as int] == DataView::CharacterList(cs),
    ensures
        (exists|k: int| 0 <= k < syms.len() && (#[trigger] syms[k]).0 == cs) ==> (cast_value(data, syms, i, DataType::Symbol)
            matches DataView::Symbol(v) && exists|k: int| 0 <= k < syms.len() && #[trigger] syms[k] == (cs, v)),
        !(exists|k: int| 0 <= k < syms.len() && (#[trigger] syms[k]).0 == cs)
            ==> cast_value(data, syms, i, DataType::Symbol) == DataView::Unit,
{
    lemma_symbol_value_registered(syms, cs);
}

} // verus!
