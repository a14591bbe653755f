//! Decimal notation: which texts denote an integer, and which integer.

use vstd::prelude::*;

verus! {

/// One of the ten decimal digits.
pub open spec fn is_digit(c: char) -> bool {
    '0' <= c && c <= '9'
}

/// The number a decimal digit stands for.
pub open spec fn digit_value(c: char) -> int {
    c as int - '0' as int
}

/// A numeral is a non-empty run of decimal digits.
pub open spec fn is_numeral(s: Seq<char>) -> bool {
    s.len() > 0 && forall|i: int| 0 <= i < s.len() ==> is_digit(#[trigger] s[i])
}

/// The number a run of digits stands for, most significant digit first.
pub open spec fn numeral_value(s: Seq<char>) -> int
    decreases s.len(),
{
    if s.len() == 0 {
        0
    } else {
        10 * numeral_value(s.drop_last()) + digit_value(s.last())
    }
}

/// The integer that a text denotes: a numeral, which a `+` may precede and,
/// where `signed` holds, a `-` that negates it. Any other text denotes nothing.
pub open spec fn denoted(s: Seq<char>, signed: bool) -> Option<int> {
    if s.len() > 0 && s[0] == '+' {
        if is_numeral(s.drop_first()) {
            Some(numeral_value(s.drop_first()))
        } else {
            None
        }
    } else if signed && s.len() > 0 && s[0] == '-' {
        if is_numeral(s.drop_first()) {
            Some(-numeral_value(s.drop_first()))
        } else {
            None
        }
    } else if is_numeral(s) {
        Some(numeral_value(s))
    } else {
        None
    }
}

/// The `i32` that a text denotes, if it denotes an integer in the range of `i32`.
pub open spec fn spec_parse_i32(s: Seq<char>) -> Option<i32> {
    match denoted(s, true) {
        Some(n) => if i32::MIN <= n <= i32::MAX {
            Some(n as i32)
        } else {
            None
        },
        None => None,
    }
}

/// The `u8` that a text denotes, if it denotes an integer in the range of `u8`.
/// A leading `-` is not part of the notation here, not even before zero.
pub open spec fn spec_parse_u8(s: Seq<char>) -> Option<u8> {
    match denoted(s, false) {
        Some(n) => if 0 <= n <= u8::MAX {
            Some(n as u8)
        } else {
            None
        },
        None => None,
    }
}

/// The value of a numeral that does not exceed `limit`.
pub open spec fn bounded_numeral(s: Seq<char>, limit: int) -> Option<int> {
    if is_numeral(s) && numeral_value(s) <= limit {
        Some(numeral_value(s))
    } else {
        None
    }
}

/// A run of digits stands for a number that is not negative.
pub proof fn lemma_numeral_value_nonnegative(s: Seq<char>)
    requires
        forall|i: int| 0 <= i < s.len() ==> is_digit(#[trigger] s[i]),
    ensures
        numeral_value(s) >= 0,
    decreases s.len(),
{
    if s.len() > 0 {
        lemma_numeral_value_nonnegative(s.drop_last());
    }
}

/// Each further digit makes the number at least as large.
pub proof fn lemma_numeral_prefix(s: Seq<char>, k: int)
    requires
        0 <= k <= s.len(),
        forall|i: int| 0 <= i < s.len() ==> is_digit(#[trigger] s[i]),
    ensures
        numeral_value(s.take(k)) <= numeral_value(s),
    decreases s.len(),
{
    if k == s.len() {
        assert(s.take(k) =~= s);
    } else {
        assert(s.drop_last().take(k) =~= s.take(k));
        lemma_numeral_prefix(s.drop_last(), k);
        lemma_numeral_value_nonnegative(s.drop_last());
    }
}

/// A text that denotes an `i32` is not empty, may open with a sign, and
/// holds only digits after its first character.
pub proof fn lemma_integer_text(s: Seq<char>)
    requires
        spec_parse_i32(s) is Some,
    ensures
        s.len() > 0,
        is_digit(s[0]) || s[0] == '+' || s[0] == '-',
        forall|i: int| 1 <= i < s.len() ==> is_digit(#[trigger] s[i]),
{
    if s.len() > 0 && (s[0] == '+' || s[0] == '-') {
        assert forall|i: int| 1 <= i < s.len() implies is_digit(#[trigger] s[i]) by {
            assert(s[i] == s.drop_first()[i - 1]);
        }
    }
}

/// A text that denotes a `u8` is not empty, may open with a `+`, and holds
/// only digits after its first character.
pub proof fn lemma_unsigned_text(s: Seq<char>)
    requires
        spec_parse_u8(s) is Some,
    ensures
        s.len() > 0,
        is_digit(s[0]) || s[0] == '+',
        forall|i: int| 1 <= i < s.len() ==> is_digit(#[trigger] s[i]),
{
    if s.len() > 0 && s[0] == '+' {
        assert forall|i: int| 1 <= i < s.len() implies is_digit(#[trigger] s[i]) by {
            assert(s[i] == s.drop_first()[i - 1]);
        }
    }
}

/// A `-` before a numeral negates it: the text denotes the negated value
/// where that is in the range of `i32`.
pub proof fn lemma_minus_numeral(digits: Seq<char>)
    requires
        is_numeral(digits),
        numeral_value(digits) <= 0x8000_0000,
    ensures
        spec_parse_i32(seq!['-'] + digits) matches Some(n) && n == -numeral_value(digits),
{
    lemma_numeral_value_nonnegative(digits);
    assert((seq!['-'] + digits).drop_first() =~= digits);
}

/// A numeral denotes its value where that is in the range of `i32`.
pub proof fn lemma_plain_numeral(digits: Seq<char>)
    requires
        is_numeral(digits),
        numeral_value(digits) <= i32::MAX,
    ensures
        spec_parse_i32(digits) matches Some(n) && n == numeral_value(digits),
{
    lemma_numeral_value_nonnegative(digits);
}

/// The characters of a text, in order.
pub fn characters(text: &str) -> (chars: Vec<char>)
    ensures
        chars@ == text@,
{
    let mut chars: Vec<char> = Vec::new();
    for c in it: text.chars()
        invariant
            chars@ == it.seq().take(it.index() as int),
    {
        chars.push(c);
    }
    chars
}

/// Reads the numeral that `chars` holds from position `from` to its end.
fn read_numeral(chars: &Vec<char>, from: usize, limit: u64) -> (value: Option<u64>)
    requires
        from <= chars.len(),
        limit <= u32::MAX,
    ensures
        match value {
            Some(v) => bounded_numeral(chars@.subrange(from as int, chars.len() as int), limit as int)
                == Some(v as int),
            None => bounded_numeral(chars@.subrange(from as int, chars.len() as int), limit as int)
                is None,
        },
{
    let ghost digits = chars@.subrange(from as int, chars.len() as int);
    if from == chars.len() {
        return None;
    }
    let mut value: u64 = 0;
    let mut i: usize = from;
    while i < chars.len()
        invariant
            from <= i <= chars.len(),
            limit <= u32::MAX,
            digits == chars@.subrange(from as int, chars.len() as int),
            forall|j: int| 0 <= j < i - from ==> is_digit(#[trigger] digits[j]),
            value == numeral_value(digits.take(i - from)),
            value <= limit,
        decreases chars.len() - i,
    {
        let c = chars[i];
        if c < '0' || c > '9' {
            assert(!is_digit(digits[i - from]));
            return None;
        }
        let digit: u64 = (c as u32 - '0' as u32) as u64;
        assert(digits.take(i - from + 1).drop_last() =~= digits.take(i - from));
        value = value * 10 + digit;
        i += 1;
        if value > limit {
            proof {
                if is_numeral(digits) {
                    lemma_numeral_prefix(digits, i - from);
                }
            }
            return None;
        }
    }
    assert(digits.take(i - from) =~= digits);
    Some(value)
}

/// Parses a signed decimal integer: a numeral, with `+` or `-` before it or
/// neither, whose value lies in the range of `i32`.
pub fn parse_i32(text: &str) -> (value: Option<i32>)
    ensures
        value == spec_parse_i32(text@),
{
    let chars = characters(text);
    if chars.len() == 0 {
        return None;
    }
    let first = chars[0];
    assert(text@ =~= chars@.subrange(0, chars.len() as int));
    if first == '-' {
        match read_numeral(&chars, 1, 2147483648) {
            Some(magnitude) => Some((0 - magnitude as i64) as i32),
            None => None,
        }
    } else {
        let from: usize = if first == '+' { 1 } else { 0 };
        match read_numeral(&chars, from, 2147483647) {
            Some(magnitude) => Some(magnitude as i32),
            None => None,
        }
    }
}

/// Parses an unsigned decimal integer: a numeral, with `+` before it or not,
/// whose value lies in the range of `u8`.
pub fn parse_u8(text: &str) -> (value: Option<u8>)
    ensures
        value == spec_parse_u8(text@),
{
    let chars = characters(text);
    if chars.len() == 0 {
        return None;
    }
    let first = chars[0];
    assert(text@ =~= chars@.subrange(0, chars.len() as int));
    let from: usize = if first == '+' { 1 } else { 0 };
    match read_numeral(&chars, from, 255) {
        Some(magnitude) => Some(magnitude as u8),
        None => None,
    }
}

/// The character that writes a number below ten.
pub open spec fn digit_char(d: int) -> char {
    ('0' as int + d) as char
}

/// A natural number in decimal notation, without leading zeros.
pub open spec fn numeral_of(n: nat) -> Seq<char>
    decreases n,
{
    if n < 10 {
        seq![digit_char(n as int)]
    } else {
        numeral_of(n / 10).push(digit_char((n % 10) as int))
    }
}

/// An integer in decimal notation: its magnitude, after a `-` where it is negative.
pub open spec fn decimal_text(n: int) -> Seq<char> {
    if n < 0 {
        seq!['-'] + numeral_of((-n) as nat)
    } else {
        numeral_of(n as nat)
    }
}

/// A natural number written in decimal notation is a numeral, and its value
/// is that number.
pub proof fn lemma_numeral_of(n: nat)
    ensures
        is_numeral(numeral_of(n)),
        numeral_value(numeral_of(n)) == n,
    decreases n,
{
    reveal_with_fuel(numeral_value, 2);
    if n < 10 {
    } else {
        lemma_numeral_of(n / 10);
        assert(numeral_of(n).drop_last() =~= numeral_of(n / 10));
    }
}

/// The text of one digit.
fn digit_text(d: u8) -> (text: &'static str)
    requires
        d <= 9,
    ensures
        text@ == seq![digit_char(d as int)],
{
    proof {
        reveal_strlit("0");
        reveal_strlit("1");
        reveal_strlit("2");
        reveal_strlit("3");
        reveal_strlit("4");
        reveal_strlit("5");
        reveal_strlit("6");
        reveal_strlit("7");
        reveal_strlit("8");
        reveal_strlit("9");
    }
    let text = match d {
        0 => "0",
        1 => "1",
        2 => "2",
        3 => "3",
        4 => "4",
        5 => "5",
        6 => "6",
        7 => "7",
        8 => "8",
        _ => "9",
    };
    text
}

/// Writes a natural number behind `text`.
fn push_numeral(text: &mut String, n: u64)
    ensures
        final(text)@ == old(text)@ + numeral_of(n as nat),
    decreases n,
{
    if n >= 10 {
        push_numeral(text, n / 10);
    }
    text.append(digit_text((n % 10) as u8));
}

/// Writes an integer behind `text`.
pub fn push_decimal(text: &mut String, n: i64)
    ensures
        final(text)@ == old(text)@ + decimal_text(n as int),
{
    if n < 0 {
        proof {
            reveal_strlit("-");
        }
        text.append("-");
        push_numeral(text, (0 - n as i128) as u64);
    } else {
        push_numeral(text, n as u64);
    }
}

} // verus!
