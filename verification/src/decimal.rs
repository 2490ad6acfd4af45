//! Whole numbers as decimal text.
use vstd::prelude::*;

use crate::text::chars_of;

verus! {

/// The decimal digit `d`.
pub open spec fn digit(d: nat) -> char {
    (0x30 + d) as char
}

/// The decimal form of `n`.
pub open spec fn decimal(n: nat) -> Seq<char>
    decreases n,
{
    if n < 10 {
        seq![digit(n)]
    } else {
        decimal(n / 10).push(digit(n % 10))
    }
}

fn digit_char(d: u64) -> (r: char)
    requires
        d < 10,
    ensures
        r == digit(d as nat),
{
    (48u8 + d as u8) as char
}

/// The decimal form of the number, as `to_string` gives it.
pub fn number_text(n: u64) -> (r: String)
    ensures
        r@ == decimal(n as nat),
    decreases n,
{
    if n < 10 {
        let mut s = String::new();
        s.push(digit_char(n));
        assert(s@ =~= seq![digit(n as nat)]);
        s
    } else {
        let mut s = number_text(n / 10);
        s.push(digit_char(n % 10));
        s
    }
}

/// Whether `c` is an ASCII decimal digit.
pub open spec fn is_digit(c: char) -> bool {
    '0' <= c <= '9'
}

/// The number that a run of decimal digits stands for.
pub open spec fn digits_value(s: Seq<char>) -> nat
    decreases s.len(),
{
    if s.len() == 0 {
        0
    } else {
        10 * digits_value(s.drop_last()) + (s.last() as u32 - 0x30) as nat
    }
}

/// Whether `s` holds digits only, and at least one.
pub open spec fn all_digits(s: Seq<char>) -> bool {
    s.len() > 0 && forall|i: int| 0 <= i < s.len() ==> is_digit(#[trigger] s[i])
}

/// A numeral without the `+` that it may begin with.
pub open spec fn numeral_body(s: Seq<char>) -> Seq<char> {
    if s.len() > 1 && s[0] == '+' {
        s.skip(1)
    } else {
        s
    }
}

/// What a decimal numeral says: an optional `+`, then digits only, at least one, of a value that
/// a `u64` can hold.
pub open spec fn parsed_number(s: Seq<char>) -> Option<u64> {
    let body = numeral_body(s);
    if all_digits(body) && digits_value(body) <= u64::MAX {
        Some(digits_value(body) as u64)
    } else {
        None
    }
}

proof fn lemma_digits_value_grows(s: Seq<char>, k: int)
    requires
        0 <= k <= s.len(),
    ensures
        digits_value(s.take(k)) <= digits_value(s),
    decreases s.len(),
{
    if k < s.len() {
        lemma_digits_value_grows(s.drop_last(), k);
        assert(s.drop_last().take(k) =~= s.take(k));
    } else {
        assert(s.take(k) =~= s);
    }
}

/// The number that the text says, as `str::parse` gives it.
pub fn parse_number(s: &str) -> (r: Option<u64>)
    ensures
        r == parsed_number(s@),
{
    let chars = chars_of(s);
    let n: usize = chars.len();
    let start: usize = if n > 1 && chars[0] == '+' {
        1
    } else {
        0
    };
    let ghost body = numeral_body(s@);
    if n == start {
        return None;
    }
    let mut value: u64 = 0;
    assert(body.take(0) =~= Seq::<char>::empty());
    let mut i: usize = start;
    while i < n
        invariant
            n == chars@.len(),
            chars@ == s@,
            start <= i <= n,
            body == numeral_body(s@),
            start <= 1,
            (start == 1) == (s@.len() > 1 && s@[0] == '+'),
            body.len() == n - start,
            value == digits_value(body.take(i - start)),
            forall|j: int| 0 <= j < i - start ==> is_digit(#[trigger] body[j]),
        decreases n - i,
    {
        let c = chars[i];
        assert(body[i - start] == c);
        if !('0' <= c && c <= '9') {
            assert(!is_digit(body[i - start]));
            return None;
        }
        let d: u64 = (c as u64) - 48;
        let ghost longer = body.take(i - start + 1);
        assert(longer.drop_last() =~= body.take(i - start));
        assert(digits_value(longer) == 10 * value + d);
        proof {
            lemma_digits_value_grows(body, i - start + 1);
        }
        if value > (u64::MAX - d) / 10 {
            return None;
        }
        value = 10 * value + d;
        i = i + 1;
    }
    assert(body.take(n - start) =~= body);
    Some(value)
}

proof fn lemma_decimal(n: nat)
    ensures
        all_digits(decimal(n)),
        digits_value(decimal(n)) == n,
    decreases n,
{
    let s = decimal(n);
    assert(is_digit(digit(n % 10)) && digit(n % 10) as u32 == 0x30 + n % 10);
    if n < 10 {
        assert(s.drop_last() =~= Seq::empty());
        assert(digits_value(s.drop_last()) == 0);
    } else {
        lemma_decimal(n / 10);
        assert(s.drop_last() =~= decimal(n / 10));
        assert forall|i: int| 0 <= i < s.len() implies is_digit(#[trigger] s[i]) by {
            if i < s.len() - 1 {
                assert(s[i] == decimal(n / 10)[i]);
            }
        }
    }
}

/// The decimal form of a number reads as that number.
pub proof fn law_number_reads_back(n: u64)
    ensures
        parsed_number(decimal(n as nat)) == Some(n),
{
    let s = decimal(n as nat);
    lemma_decimal(n as nat);
    assert(is_digit(s[0]));
    assert(numeral_body(s) == s);
}

/// A number is written with its digits, the last one last, without zeros in front.
pub proof fn law_number_is_written_digit_by_digit(n: nat, d: nat)
    requires
        d < 10,
    ensures
        decimal(d).len() == 1,
        decimal(d)[0] as u32 == '0' as u32 + d,
        n > 0 ==> decimal(10 * n + d) == decimal(n) + decimal(d),
        n > 0 ==> decimal(n)[0] != '0',
        all_digits(decimal(n)),
    decreases n,
{
    lemma_decimal(n);
    if n > 0 {
        assert((10 * n + d) / 10 == n && (10 * n + d) % 10 == d);
        assert(decimal(n).push(digit(d)) =~= decimal(n) + seq![digit(d)]);
        if n >= 10 {
            law_number_is_written_digit_by_digit(n / 10, n % 10);
            lemma_decimal(n / 10);
        }
    }
}

/// What is no number is not read as one: an empty text, a sign alone, and a text with a character in
/// it that is no digit.
pub proof fn law_other_texts_are_no_numbers(s: Seq<char>, i: int)
    ensures
        s.len() == 0 ==> parsed_number(s) is None,
        1 <= i < s.len() && !('0' <= s[i] <= '9') ==> parsed_number(s) is None,
        s.len() > 0 && !('0' <= s[0] <= '9') && s[0] != '+' ==> parsed_number(s) is None,
        s.len() == 1 && s[0] == '+' ==> parsed_number(s) is None,
{
    if 1 <= i < s.len() && !('0' <= s[i] <= '9') {
        if s[0] == '+' {
            assert(s.skip(1)[i - 1] == s[i]);
            assert(!is_digit(numeral_body(s)[i - 1]));
        } else {
            assert(!is_digit(numeral_body(s)[i]));
        }
    }
    if s.len() > 0 && !('0' <= s[0] <= '9') && (s[0] != '+' || s.len() == 1) {
        assert(!is_digit(numeral_body(s)[0]));
    }
}

} // verus!
