//! Unsigned numbers in decimal.

use vstd::prelude::*;

use crate::text::to_chars;

verus! {

/// Whether `c` is a decimal digit.
pub open spec fn is_digit(c: char) -> bool {
    '0' <= c <= '9'
}

/// Whether `s` holds decimal digits only.
pub open spec fn all_digits(s: Seq<char>) -> bool {
    forall|i: int| 0 <= i < s.len() ==> is_digit(#[trigger] s[i])
}

/// The number that the digits `s` stand for.
pub open spec fn value(s: Seq<char>) -> nat
    decreases s.len(),
{
    if s.len() == 0 {
        0
    } else {
        value(s.drop_last()) * 10 + (s.last() as int - '0' as int) as nat
    }
}

/// `s` without the `+` that it may start with.
pub open spec fn without_sign(s: Seq<char>) -> Seq<char> {
    if s.len() > 0 && s[0] == '+' {
        s.skip(1)
    } else {
        s
    }
}

/// The number that `s` names: an optional `+` and at least one digit, if it fits in 64 bits.
pub open spec fn parse_number(s: Seq<char>) -> Option<u64> {
    let d = without_sign(s);
    if d.len() > 0 && all_digits(d) && value(d) <= u64::MAX {
        Some(value(d) as u64)
    } else {
        None
    }
}

/// The digit for a number below ten.
pub open spec fn digit_char(d: nat) -> char {
    (48 + d) as char
}

/// The decimal digits of `n`, without leading zeros.
pub open spec fn decimal(n: nat) -> Seq<char>
    decreases n,
{
    if n < 10 {
        seq![digit_char(n)]
    } else {
        decimal(n / 10).push(digit_char(n % 10))
    }
}

/// More digits never make a number smaller.
proof fn lemma_value_of_prefix(s: Seq<char>, n: int)
    requires
        0 <= n <= s.len(),
    ensures
        value(s.take(n)) <= value(s),
    decreases s.len() - n,
{
    if n < s.len() {
        lemma_value_of_prefix(s, n + 1);
        assert(s.take(n + 1).drop_last() == s.take(n));
    } else {
        assert(s.take(n) == s);
    }
}

/// Reading the decimal digits of a number gives the number back.
pub proof fn law_parse_of_decimal(n: u64)
    ensures
        parse_number(decimal(n as nat)) == Some(n),
{
    lemma_decimal(n as nat);
    let s = decimal(n as nat);
    assert(is_digit(s[0]));
}

proof fn lemma_decimal(n: nat)
    ensures
        decimal(n).len() > 0,
        all_digits(decimal(n)),
        value(decimal(n)) == n,
    decreases n,
{
    if n < 10 {
        let s = seq![digit_char(n)];
        assert(s.drop_last() == Seq::<char>::empty());
        assert(value(s.drop_last()) == 0);
    } else {
        lemma_decimal(n / 10);
        let s = decimal(n / 10);
        let c = digit_char(n % 10);
        assert(s.push(c).drop_last() == s);
        assert forall|i: int| 0 <= i < s.push(c).len() implies is_digit(
            #[trigger] s.push(c)[i],
        ) by {
            if i < s.len() {
                assert(s.push(c)[i] == s[i]);
            }
        }
    }
}

/// Reads a number as `u64::from_str` does.
pub fn parse_u64(s: &str) -> (r: Option<u64>)
    ensures
        r == parse_number(s@),
{
    let chars = to_chars(s);
    let from: usize = if chars.len() > 0 && chars[0] == '+' {
        1
    } else {
        0
    };
    let ghost d = without_sign(s@);
    assert(d == chars@.skip(from as int));
    if from == chars.len() {
        return None;
    }
    let mut n: u64 = 0;
    let mut i: usize = from;
    assert(d.take(0) == Seq::<char>::empty());
    while i < chars.len()
        invariant
            from <= i <= chars@.len(),
            from < chars@.len(),
            d == without_sign(s@),
            d == chars@.skip(from as int),
            n == value(d.take(i - from)),
            forall|j: int| 0 <= j < i - from ==> is_digit(#[trigger] d[j]),
        decreases chars@.len() - i,
    {
        let c = chars[i];
        assert(d[i - from] == c);
        if c < '0' || c > '9' {
            assert(!is_digit(d[i - from]));
            return None;
        }
        let digit: u64 = c as u64 - '0' as u64;
        proof {
            assert(d.take(i - from + 1).drop_last() == d.take(i - from));
            assert(d.take(i - from + 1).last() == c);
            lemma_value_of_prefix(d, i - from + 1);
        }
        if n > u64::MAX / 10 || (n == u64::MAX / 10 && digit > u64::MAX % 10) {
            return None;
        }
        n = n * 10 + digit;
        i += 1;
    }
    assert(d.take(d.len() as int) == d);
    Some(n)
}

/// Writes a number in decimal.
pub fn decimal_text(n: u64) -> (r: String)
    ensures
        r@ == decimal(n as nat),
    decreases n,
{
    let digit: u8 = 48 + (n % 10) as u8;
    let mut r = if n < 10 {
        String::new()
    } else {
        decimal_text(n / 10)
    };
    r.push(digit as char);
    assert(Seq::<char>::empty().push(digit as char) == seq![digit as char]);
    r
}

proof fn lemma_value_of_digit(c: char)
    ensures
        value(seq![c]) == (c as int - '0' as int) as nat,
{
    let s = seq![c];
    assert(s.drop_last() == Seq::<char>::empty());
    assert(value(s.drop_last()) == 0);
}

/// A number is read digit by digit: one digit stands for itself, a further digit multiplies what
/// stands before it by ten, and what does not fit in 64 bits is no number.
pub proof fn law_number_by_digits(s: Seq<char>, c: char)
    requires
        '0' <= c <= '9',
    ensures
        parse_number(seq![c]) == Some((c as int - '0' as int) as u64),
        parse_number(s) matches Some(n) ==> ({
            let m = n * 10 + (c as int - '0' as int);
            parse_number(s.push(c)) == (if m <= 0xffff_ffff_ffff_ffff {
                Some(m as u64)
            } else {
                None
            })
        }),
        s.len() > 0 && parse_number(s) is None && s != seq!['+'] ==> parse_number(
            s.push(c),
        ) is None,
{
    let one = seq![c];
    lemma_value_of_digit(c);
    assert(without_sign(one) == one);
    assert(all_digits(one)) by {
        assert(is_digit(one[0]));
    }
    if s.len() > 0 {
        let d = without_sign(s);
        let t = s.push(c);
        assert(without_sign(t) == d.push(c));
        assert(d.push(c).drop_last() == d);
        assert(d.push(c).last() == c);
        if all_digits(d) {
            assert forall|i: int| 0 <= i < d.push(c).len() implies is_digit(
                #[trigger] d.push(c)[i],
            ) by {
                if i < d.len() {
                    assert(d.push(c)[i] == d[i]);
                }
            }
        } else {
            let i = choose|i: int| 0 <= i < d.len() && !is_digit(#[trigger] d[i]);
            assert(!is_digit(d.push(c)[i]));
        }
        if d.len() == 0 {
            assert(s == seq!['+']);
        }
    }
}

/// A `+` may stand before the digits; there must be a digit, and nothing but digits.
pub proof fn law_what_is_no_number(s: Seq<char>)
    ensures
        s.len() == 0 ==> parse_number(s) is None,
        parse_number(seq!['+']) is None,
        s.len() > 0 && s[0] != '+' ==> parse_number(seq!['+'] + s) == parse_number(s),
        (exists|i: int| 0 < i < s.len() && !('0' <= #[trigger] s[i] <= '9')) ==> parse_number(
            s,
        ) is None,
        s.len() > 0 && s[0] != '+' && !('0' <= s[0] <= '9') ==> parse_number(s) is None,
{
    assert(without_sign(seq!['+']) == Seq::<char>::empty());
    assert((seq!['+'] + s).skip(1) == s);
    let d = without_sign(s);
    if exists|i: int| 0 < i < s.len() && !('0' <= #[trigger] s[i] <= '9') {
        let i = choose|i: int| 0 < i < s.len() && !('0' <= #[trigger] s[i] <= '9');
        if s[0] == '+' {
            assert(!is_digit(d[i - 1]));
        } else {
            assert(!is_digit(d[i]));
        }
    }
    if s.len() > 0 && s[0] != '+' && !('0' <= s[0] <= '9') {
        assert(!is_digit(d[0]));
    }
}

/// A number is written in digits, the first of which is no zero unless it is the only one, and
/// what is written is read as the number.
pub proof fn law_decimal(n: u64)
    ensures
        parse_number(decimal(n as nat)) == Some(n),
        decimal(n as nat).len() > 0,
        forall|i: int|
            0 <= i < decimal(n as nat).len() ==> '0' <= #[trigger] decimal(n as nat)[i] <= '9',
        decimal(n as nat)[0] == '0' ==> n == 0 && decimal(n as nat).len() == 1,
{
    law_parse_of_decimal(n);
    lemma_decimal(n as nat);
    lemma_first_digit(n as nat);
    assert forall|i: int| 0 <= i < decimal(n as nat).len() implies '0' <= #[trigger] decimal(
        n as nat,
    )[i] <= '9' by {
        assert(is_digit(decimal(n as nat)[i]));
    }
}

proof fn lemma_first_digit(n: nat)
    ensures
        decimal(n).len() > 0,
        decimal(n)[0] == '0' ==> n == 0 && decimal(n).len() == 1,
    decreases n,
{
    if n >= 10 {
        lemma_first_digit(n / 10);
        assert(decimal(n)[0] == decimal(n / 10)[0]);
    }
}

} // verus!
