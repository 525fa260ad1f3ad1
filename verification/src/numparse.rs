//! Text to integers, with the rules of `str::parse` for integer types:
//! an optional sign (`-` only for signed types), at least one ASCII digit,
//! nothing else, and a value in the type's range.

use vstd::prelude::*;

use crate::text::{dec_digits, digit_char, int_text, zero_pad};

verus! {

/// An ASCII decimal digit.
pub open spec fn is_digit(c: char) -> bool {
    '0' <= c <= '9'
}

/// All characters are ASCII digits.
pub open spec fn all_digits(s: Seq<char>) -> bool {
    forall|i: int| 0 <= i < s.len() ==> is_digit(#[trigger] s[i])
}

/// Value of a digit string, most significant digit first.
pub open spec fn digits_value(s: Seq<char>) -> nat
    decreases s.len(),
{
    if s.len() == 0 {
        0
    } else {
        digits_value(s.drop_last()) * 10 + ((s.last() as int) - 48) as nat
    }
}

/// The integer a text denotes, before any range check: an optional `+` or
/// `-` followed by one or more digits.
pub open spec fn parsed_int(s: Seq<char>) -> Option<int> {
    if s.len() > 0 && (s[0] == '+' || s[0] == '-') {
        let body = s.drop_first();
        if body.len() > 0 && all_digits(body) {
            Some(if s[0] == '-' { -(digits_value(body) as int) } else { digits_value(body) as int })
        } else {
            None
        }
    } else if s.len() > 0 && all_digits(s) {
        Some(digits_value(s) as int)
    } else {
        None
    }
}

/// `s.parse::<i64>().ok()`.
pub open spec fn parse_i64_spec(s: Seq<char>) -> Option<i64> {
    match parsed_int(s) {
        Some(v) => if i64::MIN <= v <= i64::MAX { Some(v as i64) } else { None },
        None => None,
    }
}

/// `s.parse::<u32>().ok()`: like the signed rule, but a `-` sign is refused.
pub open spec fn parse_u32_spec(s: Seq<char>) -> Option<u32> {
    if s.len() > 0 && s[0] == '-' {
        None
    } else {
        match parsed_int(s) {
            Some(v) => if 0 <= v <= u32::MAX { Some(v as u32) } else { None },
            None => None,
        }
    }
}

/// Decimal digits read back as the number they render.
pub proof fn lemma_dec_digits_value(n: nat)
    ensures
        dec_digits(n).len() >= 1,
        all_digits(dec_digits(n)),
        digits_value(dec_digits(n)) == n,
    decreases n,
{
    let d = (n % 10) as nat;
    assert(digit_char(d) as int == 48 + d);
    if n < 10 {
        assert(dec_digits(n) == seq![digit_char(n)]);
        assert(dec_digits(n).drop_last() =~= Seq::<char>::empty());
        assert(dec_digits(n).last() == digit_char(n));
        assert(digits_value(Seq::<char>::empty()) == 0);
        assert(digits_value(dec_digits(n)) == n);
    }
    if n >= 10 {
        lemma_dec_digits_value(n / 10);
        let s = dec_digits(n);
        assert(s.drop_last() == dec_digits(n / 10));
        assert(s.last() == digit_char(d));
        assert(digits_value(s) == digits_value(dec_digits(n / 10)) * 10 + d);
        assert(digits_value(s) == n);
        assert forall|i: int| 0 <= i < s.len() implies is_digit(#[trigger] s[i]) by {
            if i < s.len() - 1 {
                assert(s[i] == dec_digits(n / 10)[i]);
            }
        }
    }
}

/// Rendering then parsing gives the number back: `format!("{}", v)` parses
/// as `v` for every `i64`.
pub proof fn law_int_text_parses_back(v: i64)
    ensures
        parse_i64_spec(int_text(v as int)) == Some(v),
{
    if v < 0 {
        let mag = (-(v as int)) as nat;
        lemma_dec_digits_value(mag);
        let t = int_text(v as int);
        assert(zero_pad(dec_digits(mag), 0) == dec_digits(mag));
        assert(t == seq!['-'] + dec_digits(mag));
        assert(t.drop_first() =~= dec_digits(mag));
    } else {
        lemma_dec_digits_value(v as nat);
        let t = int_text(v as int);
        assert(zero_pad(dec_digits(v as nat), 0) == dec_digits(v as nat));
        assert(is_digit(t[0]));
    }
}

/// Extending a digit string never lowers its value.
pub proof fn lemma_digits_value_prefix(s: Seq<char>, k: int)
    requires
        0 <= k <= s.len(),
    ensures
        digits_value(s.take(k)) <= digits_value(s),
    decreases s.len() - k,
{
    if k < s.len() {
        lemma_digits_value_prefix(s, k + 1);
        assert(s.take(k + 1).drop_last() =~= s.take(k));
    } else {
        assert(s.take(k) =~= s);
    }
}

/// Value of the digits `s[start..]` if they are all digits and the value is
/// at most `bound`; `None` otherwise.
fn digits_upto(s: &Vec<char>, start: usize, bound: u128) -> (r: Option<u128>)
    requires
        start <= s@.len(),
        bound <= u64::MAX,
    ensures
        ({
            let body = s@.skip(start as int);
            match r {
                Some(v) => all_digits(body) && v == digits_value(body) && v <= bound,
                None => !all_digits(body) || digits_value(body) > bound,
            }
        }),
{
    let ghost body = s@.skip(start as int);
    let mut acc: u128 = 0;
    let mut i: usize = start;
    while i < s.len()
        invariant
            start <= i <= s@.len(),
            body == s@.skip(start as int),
            all_digits(body.take(i - start)),
            acc == digits_value(body.take(i - start)),
            acc <= bound,
            bound <= u64::MAX,
        decreases s.len() - i,
    {
        let c = s[i];
        if !('0' <= c && c <= '9') {
            assert(body[i - start] == c);
            return None;
        }
        let d = (c as u32 - 48) as u128;
        let next = acc * 10 + d;
        proof {
            assert(body.take(i + 1 - start).drop_last() =~= body.take(i - start));
            assert(body.take(i + 1 - start).last() == c);
        }
        if next > bound {
            proof {
                lemma_digits_value_prefix(body, i + 1 - start);
            }
            return None;
        }
        acc = next;
        i = i + 1;
        proof {
            assert forall|j: int| 0 <= j < body.take(i - start).len() implies is_digit(#[trigger] body.take(i - start)[j]) by {
                if j < i - 1 - start {
                    assert(body.take(i - start)[j] == body.take(i - 1 - start)[j]);
                }
            }
        }
    }
    assert(body.take(i - start) =~= body);
    Some(acc)
}

/// `s.parse::<i64>().ok()` for text given as characters.
pub fn parse_i64(s: &Vec<char>) -> (r: Option<i64>)
    ensures
        r == parse_i64_spec(s@),
{
    if s.len() == 0 {
        return None;
    }
    let first = s[0];
    let signed = first == '+' || first == '-';
    let start: usize = if signed { 1 } else { 0 };
    if signed && s.len() == 1 {
        return None;
    }
    proof {
        if !signed {
            assert(s@.skip(0) =~= s@);
        } else {
            assert(s@.skip(1) =~= s@.drop_first());
        }
    }
    match digits_upto(s, start, 9223372036854775808u128) {
        None => None,
        Some(mag) => {
            if first == '-' {
                Some((0i128 - mag as i128) as i64)
            } else if mag <= 9223372036854775807u128 {
                Some(mag as i64)
            } else {
                None
            }
        },
    }
}

/// `s.parse::<u32>().ok()` for text given as characters.
pub fn parse_u32(s: &Vec<char>) -> (r: Option<u32>)
    ensures
        r == parse_u32_spec(s@),
{
    if s.len() == 0 {
        return None;
    }
    let first = s[0];
    if first == '-' {
        return None;
    }
    let start: usize = if first == '+' { 1 } else { 0 };
    if first == '+' && s.len() == 1 {
        return None;
    }
    proof {
        if first != '+' {
            assert(s@.skip(0) =~= s@);
        } else {
            assert(s@.skip(1) =~= s@.drop_first());
        }
    }
    match digits_upto(s, start, 4294967295u128) {
        None => None,
        Some(v) => Some(v as u32),
    }
}

/// `s.parse()` for an unsigned type whose largest value is `max`: no `-`
/// sign, and a value of at most `max`.
pub open spec fn parse_unsigned_spec(s: Seq<char>, max: int) -> Option<nat> {
    if s.len() > 0 && s[0] == '-' {
        None
    } else {
        match parsed_int(s) {
            Some(v) => if 0 <= v <= max { Some(v as nat) } else { None },
            None => None,
        }
    }
}

/// `s.parse::<u64>().ok()`.
pub open spec fn parse_u64_spec(s: Seq<char>) -> Option<u64> {
    match parse_unsigned_spec(s, u64::MAX as int) {
        Some(v) => Some(v as u64),
        None => None,
    }
}

/// `s.parse::<u8>().ok()`.
pub open spec fn parse_u8_spec(s: Seq<char>) -> Option<u8> {
    match parse_unsigned_spec(s, u8::MAX as int) {
        Some(v) => Some(v as u8),
        None => None,
    }
}

/// Unsigned parsing up to `bound` (see `parse_unsigned_spec`).
fn parse_unsigned(s: &Vec<char>, bound: u128) -> (r: Option<u128>)
    requires
        bound <= u64::MAX,
    ensures
        match parse_unsigned_spec(s@, bound as int) {
            Some(v) => r == Some(v as u128),
            None => r is None,
        },
{
    if s.len() == 0 {
        return None;
    }
    let first = s[0];
    if first == '-' {
        return None;
    }
    let start: usize = if first == '+' { 1 } else { 0 };
    if first == '+' && s.len() == 1 {
        return None;
    }
    proof {
        if first != '+' {
            assert(s@.skip(0) =~= s@);
        } else {
            assert(s@.skip(1) =~= s@.drop_first());
        }
    }
    digits_upto(s, start, bound)
}

/// `s.parse::<u64>().ok()` for text given as characters.
pub fn parse_u64(s: &Vec<char>) -> (r: Option<u64>)
    ensures
        r == parse_u64_spec(s@),
{
    match parse_unsigned(s, 18446744073709551615u128) {
        Some(v) => Some(v as u64),
        None => None,
    }
}

/// `s.parse::<u8>().ok()` for text given as characters.
pub fn parse_u8(s: &Vec<char>) -> (r: Option<u8>)
    ensures
        r == parse_u8_spec(s@),
{
    match parse_unsigned(s, 255u128) {
        Some(v) => Some(v as u8),
        None => None,
    }
}

/// Decimal digits of an unsigned value parse back to it under any bound
/// that the value respects.
pub proof fn law_dec_digits_parse_back(n: nat, max: int)
    requires
        n <= max,
    ensures
        parse_unsigned_spec(dec_digits(n), max) == Some(n),
{
    lemma_dec_digits_value(n);
    let t = dec_digits(n);
    assert(is_digit(t[0]));
}

} // verus!
