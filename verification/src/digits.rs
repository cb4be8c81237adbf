//! Numbers in decimal digits: what stands for a number, and that it is read as that number.

use vstd::prelude::*;
use crate::text::{all_digits, decimal, digit_value, number_of};
use crate::written::{decimal_text, lemma_decimal_text};

verus! {

/// The number that digits are to a base, the first of them the most significant.
pub open spec fn value(digits: Seq<nat>, base: nat) -> nat
    decreases digits.len(),
{
    if digits.len() == 0 {
        0
    } else {
        value(digits.drop_last(), base) * base + digits.last()
    }
}

/// Whether characters are decimal digits.
pub open spec fn spells(s: Seq<char>, digits: Seq<nat>) -> bool {
    &&& s.len() == digits.len()
    &&& forall|i: int|
        0 <= i < s.len() ==> #[trigger] digits[i] < 10 && s[i] as int == '0' as int + digits[i]
}

/// Whether a text is a number in one or more decimal digits.
pub open spec fn is_numeral(s: Seq<char>, n: nat) -> bool {
    exists|digits: Seq<nat>|
        #![trigger spells(s, digits)]
        digits.len() > 0 && spells(s, digits) && value(digits, 10) == n
}

/// Whether a text is a number in decimal digits, with or without a `+` before them.
pub open spec fn is_number(s: Seq<char>, n: nat) -> bool {
    is_numeral(s, n) || s.len() > 0 && s[0] == '+' && is_numeral(s.drop_first(), n)
}

proof fn lemma_spelled(s: Seq<char>, digits: Seq<nat>)
    requires
        spells(s, digits),
    ensures
        all_digits(s),
        number_of(s) == value(digits, 10),
    decreases s.len(),
{
    assert forall|i: int| 0 <= i < s.len() implies digit_value(#[trigger] s[i]) is Some by {
        assert(digits[i] < 10);
    }
    if s.len() > 0 {
        let front = digits.drop_last();
        assert forall|i: int| 0 <= i < s.drop_last().len() implies #[trigger] front[i] < 10
            && s.drop_last()[i] as int == '0' as int + front[i] by {
            assert(digits[i] < 10);
        }
        lemma_spelled(s.drop_last(), front);
        assert(digits[digits.len() - 1] < 10);
        assert(digit_value(s.last()) == Some(digits.last()));
    }
}

/// Digits stand for their number.
pub proof fn lemma_digits_are_numeral(s: Seq<char>)
    requires
        s.len() > 0,
        all_digits(s),
    ensures
        is_numeral(s, number_of(s)),
{
    let digits = Seq::new(s.len(), |i: int| digit_value(s[i])->0);
    assert forall|i: int| 0 <= i < s.len() implies #[trigger] digits[i] < 10 && s[i] as int
        == '0' as int + digits[i] by {
        assert(digit_value(s[i]) is Some);
    }
    assert(spells(s, digits));
    lemma_spelled(s, digits);
}

/// A numeral has digits only, and their number is its number.
pub proof fn lemma_numeral_digits(s: Seq<char>, n: nat)
    requires
        is_numeral(s, n),
    ensures
        s.len() > 0,
        all_digits(s),
        number_of(s) == n,
{
    let digits = choose|digits: Seq<nat>|
        #![trigger spells(s, digits)]
        digits.len() > 0 && spells(s, digits) && value(digits, 10) == n;
    lemma_spelled(s, digits);
}

/// A text is read as a number exactly if it is that number in decimal digits, with or without a `+`
/// before them, and the number is not too large. Zeros before it change nothing, and no other text is
/// read as a number.
pub proof fn law_numbers_are_read(s: Seq<char>, n: nat, max: nat)
    ensures
        decimal(s, max) == Some(n) <==> is_number(s, n) && n <= max,
{
    if s.len() > 0 && s[0] == '+' {
        let rest = s.drop_first();
        if is_numeral(s, n) {
            lemma_numeral_digits(s, n);
            assert(digit_value(s[0]) is Some);
        }
        if is_numeral(rest, n) {
            lemma_numeral_digits(rest, n);
        }
        if rest.len() > 0 && all_digits(rest) {
            lemma_digits_are_numeral(rest);
        }
    } else {
        if is_numeral(s, n) {
            lemma_numeral_digits(s, n);
        }
        if s.len() > 0 && all_digits(s) {
            lemma_digits_are_numeral(s);
        }
    }
}

/// Every number has a numeral, which is read as the number.
pub proof fn law_numerals_are_read(n: nat, max: nat)
    ensures
        is_numeral(decimal_text(n), n),
        n <= max ==> decimal(decimal_text(n), max) == Some(n),
        n > max ==> decimal(decimal_text(n), max) is None,
{
    let s = decimal_text(n);
    lemma_decimal_text(n);
    lemma_digits_are_numeral(s);
    law_numbers_are_read(s, n, max);
    assert(digit_value(s[0]) is Some);
}

/// No text is two numbers.
pub proof fn law_a_text_is_one_number(s: Seq<char>, n: nat, m: nat)
    requires
        is_number(s, n),
        is_number(s, m),
    ensures
        n == m,
{
    law_numbers_are_read(s, n, n + m);
    law_numbers_are_read(s, m, n + m);
}

} // verus!
