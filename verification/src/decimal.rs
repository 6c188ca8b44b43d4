//! Decimal text: how ids are written into file names and boundary files, and read back.
use vstd::prelude::*;

verus! {

/// `String::push` puts the character `c` at the end of the string, and changes nothing before it.
pub assume_specification[ String::push ](s: &mut String, c: char)
    ensures
        final(s)@ == old(s)@.push(c),
;

/// The character of the decimal digit `d`.
pub open spec fn digit_char(d: int) -> char
    recommends
        0 <= d < 10,
{
    (48 + d) as char
}

/// Whether `c` is one of the ASCII digits `0` to `9`.
pub open spec fn is_digit(c: char) -> bool {
    '0' <= c <= '9'
}

/// The digit that `c` stands for.
pub open spec fn digit_of(c: char) -> nat
    recommends
        is_digit(c),
{
    (c as int - 48) as nat
}

/// `n` in decimal, without leading zeros.
pub open spec fn decimal(n: nat) -> Seq<char>
    decreases n,
{
    if n < 10 {
        seq![digit_char(n as int)]
    } else {
        decimal(n / 10).push(digit_char((n % 10) as int))
    }
}

/// The last `width` decimal digits of `n`, with leading zeros.
pub open spec fn zero_padded(n: nat, width: nat) -> Seq<char>
    decreases width,
{
    if width == 0 {
        Seq::empty()
    } else {
        zero_padded(n / 10, (width - 1) as nat).push(digit_char((n % 10) as int))
    }
}

/// Whether every character of `s` is a digit.
pub open spec fn all_digits(s: Seq<char>) -> bool {
    forall|i: int| 0 <= i < s.len() ==> is_digit(#[trigger] s[i])
}

/// The number that the digits `s` write in base ten.
pub open spec fn digits_value(s: Seq<char>) -> nat
    decreases s.len(),
{
    if s.len() == 0 {
        0
    } else {
        digits_value(s.drop_last()) * 10 + digit_of(s.last())
    }
}

/// `s` without a leading plus sign.
pub open spec fn without_sign(s: Seq<char>) -> Seq<char> {
    if s.len() > 0 && s[0] == '+' {
        s.skip(1)
    } else {
        s
    }
}

/// The `u64` that `s` writes: digits after an optional plus sign, of a value that fits.
pub open spec fn parsed_u64(s: Seq<char>) -> Option<u64> {
    let digits = without_sign(s);
    if digits.len() > 0 && all_digits(digits) && digits_value(digits) <= u64::MAX {
        Some(digits_value(digits) as u64)
    } else {
        None
    }
}

/// Ten to the power `k`.
pub open spec fn power_of_ten(k: nat) -> nat
    decreases k,
{
    if k == 0 {
        1
    } else {
        10 * power_of_ten((k - 1) as nat)
    }
}

proof fn lemma_digits_value_grows(s: Seq<char>, i: int)
    requires
        0 <= i <= s.len(),
    ensures
        digits_value(s.take(i)) <= digits_value(s),
    decreases s.len(),
{
    if i == s.len() {
        assert(s.take(i) == s);
    } else {
        lemma_digits_value_grows(s.drop_last(), i);
        assert(s.drop_last().take(i) == s.take(i));
    }
}

proof fn lemma_digits_value_step(s: Seq<char>, i: int)
    requires
        0 <= i < s.len(),
    ensures
        digits_value(s.take(i + 1)) == digits_value(s.take(i)) * 10 + digit_of(s[i]),
{
    assert(s.take(i + 1).drop_last() == s.take(i));
}

proof fn lemma_digit_char(d: int)
    requires
        0 <= d < 10,
    ensures
        is_digit(digit_char(d)),
        digit_of(digit_char(d)) == d,
        digit_char(d) != '+',
{
}

/// Decimal digits read back as the number they were made from.
pub proof fn lemma_decimal_value(n: nat)
    ensures
        decimal(n).len() > 0,
        all_digits(decimal(n)),
        digits_value(decimal(n)) == n,
    decreases n,
{
    if n < 10 {
        lemma_digit_char(n as int);
        assert(decimal(n).drop_last() == Seq::<char>::empty());
        assert(digits_value(decimal(n).drop_last()) == 0);
    } else {
        lemma_decimal_value(n / 10);
        lemma_digit_char((n % 10) as int);
        assert(decimal(n).drop_last() == decimal(n / 10));
    }
}

/// Zero-padded digits have the width they were padded to, and read back as the number they were
/// made from where that number fits in the width.
pub proof fn lemma_zero_padded_value(n: nat, width: nat)
    ensures
        zero_padded(n, width).len() == width,
        all_digits(zero_padded(n, width)),
        n < power_of_ten(width) ==> digits_value(zero_padded(n, width)) == n,
    decreases width,
{
    if width > 0 {
        lemma_zero_padded_value(n / 10, (width - 1) as nat);
        lemma_digit_char((n % 10) as int);
        assert(zero_padded(n, width).drop_last() == zero_padded(n / 10, (width - 1) as nat));
    }
}

proof fn lemma_parsed_digits(s: Seq<char>)
    requires
        s.len() > 0,
        all_digits(s),
    ensures
        without_sign(s) == s,
{
    assert(is_digit(s[0]));
}

/// Twenty digits are enough for every `u64`.
pub proof fn lemma_u64_has_twenty_digits()
    ensures
        u64::MAX < power_of_ten(20),
{
    reveal_with_fuel(power_of_ten, 21);
}

/// What `decimal` writes, `parsed_u64` reads back.
pub proof fn lemma_decimal_parses(n: u64)
    ensures
        parsed_u64(decimal(n as nat)) == Some(n),
{
    lemma_decimal_value(n as nat);
    lemma_parsed_digits(decimal(n as nat));
}

/// What `zero_padded` writes to twenty digits, `parsed_u64` reads back.
pub proof fn lemma_zero_padded_parses(n: u64)
    ensures
        parsed_u64(zero_padded(n as nat, 20)) == Some(n),
{
    lemma_u64_has_twenty_digits();
    lemma_zero_padded_value(n as nat, 20);
    lemma_parsed_digits(zero_padded(n as nat, 20));
}

/// Of two numbers that fit in the width, the lesser has the lesser digit at the first place where
/// their zero-padded digits differ.
pub proof fn lemma_zero_padded_in_order(a: nat, b: nat, width: nat) -> (place: int)
    requires
        a < b,
        b < power_of_ten(width),
    ensures
        0 <= place < width,
        zero_padded(a, width).take(place) == zero_padded(b, width).take(place),
        zero_padded(a, width)[place] < zero_padded(b, width)[place],
    decreases width,
{
    let rest = (width - 1) as nat;
    let x = zero_padded(a / 10, rest);
    let y = zero_padded(b / 10, rest);
    lemma_zero_padded_value(a / 10, rest);
    lemma_zero_padded_value(b / 10, rest);
    if a / 10 < b / 10 {
        let place = lemma_zero_padded_in_order(a / 10, b / 10, rest);
        assert(zero_padded(a, width).take(place) == x.take(place));
        assert(zero_padded(b, width).take(place) == y.take(place));
        place
    } else {
        assert(zero_padded(a, width).take(rest as int) == x);
        assert(zero_padded(b, width).take(rest as int) == y);
        rest as int
    }
}

/// The character of the decimal digit `d`.
fn char_of_digit(d: u64) -> (c: char)
    requires
        d < 10,
    ensures
        c == digit_char(d as int),
{
    match d {
        0 => '0',
        1 => '1',
        2 => '2',
        3 => '3',
        4 => '4',
        5 => '5',
        6 => '6',
        7 => '7',
        8 => '8',
        _ => '9',
    }
}

/// Appends `n` to `out` in decimal, without leading zeros.
pub fn push_decimal(out: &mut String, n: u64)
    ensures
        final(out)@ == old(out)@ + decimal(n as nat),
    decreases n,
{
    if n >= 10 {
        push_decimal(out, n / 10);
    }
    out.push(char_of_digit(n % 10));
    assert(out@ == old(out)@ + decimal(n as nat));
}

/// Appends the last `width` digits of `n` to `out`, with leading zeros.
pub fn push_zero_padded(out: &mut String, n: u64, width: usize)
    ensures
        final(out)@ == old(out)@ + zero_padded(n as nat, width as nat),
    decreases width,
{
    if width > 0 {
        push_zero_padded(out, n / 10, width - 1);
        out.push(char_of_digit(n % 10));
    }
    assert(out@ == old(out)@ + zero_padded(n as nat, width as nat));
}

/// Reads a `u64` from the characters of `text` between `start` and `end`.
pub fn parse_u64(text: &Vec<char>, start: usize, end: usize) -> (parsed: Option<u64>)
    requires
        start <= end <= text@.len(),
    ensures
        parsed == parsed_u64(text@.subrange(start as int, end as int)),
{
    let ghost s = text@.subrange(start as int, end as int);
    let mut first: usize = start;
    if start < end && text[start] == '+' {
        first = start + 1;
    }
    let ghost digits = without_sign(s);
    assert(digits == text@.subrange(first as int, end as int));
    if first == end {
        return None;
    }
    let mut value: u64 = 0;
    let mut i: usize = first;
    while i < end
        invariant
            start <= first <= i <= end <= text@.len(),
            first < end,
            s == text@.subrange(start as int, end as int),
            digits == without_sign(s),
            digits == text@.subrange(first as int, end as int),
            all_digits(digits.take(i - first)),
            value == digits_value(digits.take(i - first)),
        decreases end - i,
    {
        let c: char = text[i];
        assert(digits[i - first] == c);
        if !(c >= '0' && c <= '9') {
            assert(!is_digit(digits[i - first]));
            return None;
        }
        let d: u64 = (c as u32 - 48) as u64;
        proof {
            lemma_digits_value_step(digits, i - first);
            lemma_digits_value_grows(digits, i - first + 1);
        }
        if value > (u64::MAX - d) / 10 {
            return None;
        }
        value = value * 10 + d;
        i = i + 1;
        assert(digits.take(i - first) == digits.take(i - first - 1).push(c));
    }
    assert(digits.take(i - first) == digits);
    Some(value)
}

} // verus!
