//! Numbers in decimal notation.

use crate::text::{model, ops};
use vstd::prelude::*;

verus! {

/// The number that decimal digits stand for.
pub open spec fn number_of(digits: Seq<char>) -> nat
    decreases digits.len(),
{
    if digits.len() == 0 {
        0
    } else {
        number_of(digits.drop_last()) * 10 + (digits.last() as nat - '0' as nat) as nat
    }
}

/// The text is made of one or more decimal digits.
pub open spec fn all_digits(s: Seq<char>) -> bool {
    s.len() > 0 && forall|i: int| 0 <= i < s.len() ==> model::is_ascii_digit(#[trigger] s[i])
}

/// The text without the plus sign in front of it.
pub open spec fn unsigned(s: Seq<char>) -> Seq<char> {
    if s.len() > 0 && s[0] == '+' {
        s.skip(1)
    } else {
        s
    }
}

/// The number that a text stands for, if it is one of at most 32 bits: digits,
/// with or without a plus sign.
pub open spec fn parsed_u32(s: Seq<char>) -> Option<nat> {
    let digits = unsigned(s);
    if all_digits(digits) && number_of(digits) <= u32::MAX {
        Some(number_of(digits))
    } else {
        None
    }
}

/// More digits never stand for a smaller number.
pub proof fn lemma_number_grows(digits: Seq<char>, i: int, j: int)
    requires
        0 <= i <= j <= digits.len(),
        forall|k: int| 0 <= k < digits.len() ==> model::is_ascii_digit(#[trigger] digits[k]),
    ensures
        number_of(digits.take(i)) <= number_of(digits.take(j)),
    decreases j - i,
{
    if i < j {
        lemma_number_grows(digits, i, j - 1);
        assert(digits.take(j).drop_last() =~= digits.take(j - 1));
    }
}

/// The number that a text stands for.
pub fn parse_u32(s: &[char]) -> (r: Option<u32>)
    ensures
        match r {
            Some(n) => parsed_u32(s@) == Some(n as nat),
            None => parsed_u32(s@) is None,
        },
{
    let digits = if s.len() > 0 && s[0] == '+' {
        ops::skip(s, 1)
    } else {
        s
    };
    let ghost d = digits@;
    if digits.len() == 0 {
        return None;
    }
    let mut value: u64 = 0;
    let mut i: usize = 0;
    assert(d.take(0) =~= Seq::empty());
    while i < digits.len()
        invariant
            i <= digits@.len(),
            d == digits@,
            d == unsigned(s@),
            value <= u32::MAX + 1,
            value <= u32::MAX ==> value == number_of(d.take(i as int)),
            value == u32::MAX + 1 ==> number_of(d.take(i as int)) > u32::MAX,
            forall|k: int| 0 <= k < i ==> model::is_ascii_digit(#[trigger] d[k]),
        decreases digits@.len() - i,
    {
        let c = digits[i];
        if !ops::is_ascii_digit(c) {
            assert(!model::is_ascii_digit(d[i as int]));
            return None;
        }
        assert(d.take(i + 1).drop_last() =~= d.take(i as int));
        assert(d.take(i + 1).last() == c);
        let next: u64 = value * 10 + (c as u64 - '0' as u64);
        value = if next > u32::MAX as u64 {
            u32::MAX as u64 + 1
        } else {
            next
        };
        i = i + 1;
    }
    assert(d.take(d.len() as int) =~= d);
    if value > u32::MAX as u64 {
        None
    } else {
        Some(value as u32)
    }
}

/// A number is read back as it was written.
pub proof fn law_decimal_is_read_back(n: nat)
    ensures
        all_digits(model::decimal(n)),
        number_of(model::decimal(n)) == n,
        n <= u32::MAX ==> parsed_u32(model::decimal(n)) == Some(n),
    decreases n,
{
    let s = model::decimal(n);
    if n < 10 {
        lemma_digit(n);
        assert(s.drop_last() =~= Seq::empty());
        assert(number_of(s.drop_last()) == 0);
    } else {
        law_decimal_is_read_back(n / 10);
        lemma_digit(n % 10);
        let t = model::decimal(n / 10);
        assert(s.drop_last() =~= t);
        assert forall|i: int| 0 <= i < s.len() implies model::is_ascii_digit(#[trigger] s[i]) by {
            if i < t.len() {
                assert(s[i] == t[i]);
            }
        }
    }
    assert(model::is_ascii_digit(s[0]));
    assert(unsigned(s) == s);
}

proof fn lemma_digit(d: nat)
    requires
        d < 10,
    ensures
        model::is_ascii_digit(model::digit(d)),
        model::digit(d) as nat - '0' as nat == d,
{
}

/// Digits stand for a number, place by place; a plus sign before them changes nothing, and
/// what holds anything else stands for none.
pub proof fn law_digits_are_read(s: Seq<char>, i: int, n: nat)
    requires
        n <= u32::MAX,
    ensures
        parsed_u32(seq!['+'] + model::decimal(n)) == Some(n),
        0 <= i < s.len() && !model::is_ascii_digit(s[i]) && (i > 0 || s[i] != '+') ==> parsed_u32(
            s,
        ) is None,
        s.len() == 0 ==> parsed_u32(s) is None,
{
    law_decimal_is_read_back(n);
    let t = seq!['+'] + model::decimal(n);
    assert(t[0] == '+');
    assert(t.skip(1) =~= model::decimal(n));
    if 0 <= i < s.len() && !model::is_ascii_digit(s[i]) && (i > 0 || s[i] != '+') {
        let d = unsigned(s);
        if s[0] == '+' {
            assert(d[i - 1] == s[i]);
        } else {
            assert(d[i] == s[i]);
        }
    }
}

} // verus!
