//! Numbers and bytes as text.

use vstd::prelude::*;
use vstd::string::*;

verus! {

/// The character of a decimal digit.
pub open spec fn digit_char(d: int) -> char {
    (0x30 + d) as char
}

/// Whether a character is a decimal digit.
pub open spec fn is_digit(c: char) -> bool {
    '0' <= c <= '9'
}

/// A number in decimal digits, without leading zeros.
pub open spec fn decimal(n: nat) -> Seq<char>
    decreases n,
{
    if n < 10 {
        seq![digit_char(n as int)]
    } else {
        decimal(n / 10).push(digit_char((n % 10) as int))
    }
}

/// The number that decimal digits stand for.
pub open spec fn digits_value(s: Seq<char>) -> nat
    decreases s.len(),
{
    if s.len() == 0 {
        0
    } else {
        digits_value(s.drop_last()) * 10 + (s.last() as nat - 0x30) as nat
    }
}

/// The digits of a number stand for that number.
pub proof fn lemma_decimal(n: nat)
    ensures
        digits_value(decimal(n)) == n,
        decimal(n).len() > 0,
        forall|i: int| 0 <= i < decimal(n).len() ==> is_digit(#[trigger] decimal(n)[i]),
    decreases n,
{
    if n < 10 {
        let s = decimal(n);
        assert(s.drop_last() =~= Seq::<char>::empty());
        assert(digits_value(s.drop_last()) == 0);
        assert(s.last() as nat == 0x30 + n);
    } else {
        lemma_decimal(n / 10);
        let s = decimal(n);
        assert(s.drop_last() =~= decimal(n / 10));
        assert(s.last() as nat == 0x30 + n % 10);
        assert forall|i: int| 0 <= i < s.len() implies is_digit(#[trigger] s[i]) by {
            if i < s.len() - 1 {
                assert(s[i] == decimal(n / 10)[i]);
            }
        }
    }
}

/// More digits never stand for a smaller number.
proof fn lemma_digits_value_grows(s: Seq<char>, k: int)
    requires
        0 <= k <= s.len(),
    ensures
        digits_value(s.take(k)) <= digits_value(s),
    decreases s.len() - k,
{
    if k == s.len() {
        assert(s.take(k) =~= s);
    } else {
        lemma_digits_value_grows(s, k + 1);
        assert(s.take(k + 1).drop_last() =~= s.take(k));
    }
}

/// Appends a digit to a text.
fn append_digit(text: &mut String, d: u64)
    requires
        d < 10,
    ensures
        final(text)@ == old(text)@.push(digit_char(d as int)),
{
    proof {
        reveal_strlit("0");
        reveal_strlit("1");
        reveal_strlit("2");
        reveal_strlit("3");
        reveal_strlit("4");
        reveal_strlit("5");
        reveal_strlit("6");
        reveal_strlit("7");
        reveal_strlit("8");
        reveal_strlit("9");
    }
    if d == 0 {
        text.append("0");
    } else if d == 1 {
        text.append("1");
    } else if d == 2 {
        text.append("2");
    } else if d == 3 {
        text.append("3");
    } else if d == 4 {
        text.append("4");
    } else if d == 5 {
        text.append("5");
    } else if d == 6 {
        text.append("6");
    } else if d == 7 {
        text.append("7");
    } else if d == 8 {
        text.append("8");
    } else {
        text.append("9");
    }
    assert(text@ =~= old(text)@.push(digit_char(d as int)));
}

/// Appends a number in decimal digits to a text.
pub fn append_decimal(text: &mut String, n: u64)
    ensures
        final(text)@ == old(text)@ + decimal(n as nat),
    decreases n,
{
    if n < 10 {
        append_digit(text, n);
        assert(text@ =~= old(text)@ + decimal(n as nat));
    } else {
        append_decimal(text, n / 10);
        append_digit(text, n % 10);
        assert(text@ =~= old(text)@ + decimal(n as nat));
    }
}

/// A signed number in decimal digits, after a minus sign where it is negative.
pub open spec fn signed_decimal(n: int) -> Seq<char> {
    if n < 0 {
        "-"@ + decimal((-n) as nat)
    } else {
        decimal(n as nat)
    }
}

/// Appends a signed number in decimal digits to a text.
pub fn append_signed_decimal(text: &mut String, n: i64)
    ensures
        final(text)@ == old(text)@ + signed_decimal(n as int),
{
    if n < 0 {
        text.append("-");
        if n == i64::MIN {
            append_decimal(text, 9223372036854775808);
        } else {
            append_decimal(text, (-n) as u64);
        }
        assert(text@ =~= old(text)@ + signed_decimal(n as int));
    } else {
        append_decimal(text, n as u64);
    }
}

/// A text without the plus sign that it begins with, where more follows.
pub open spec fn after_sign(s: Seq<char>) -> Seq<char> {
    if s.len() > 1 && s[0] == '+' {
        s.skip(1)
    } else {
        s
    }
}

/// Whether every character is a decimal digit.
pub open spec fn all_digits(s: Seq<char>) -> bool {
    forall|i: int| 0 <= i < s.len() ==> is_digit(#[trigger] s[i])
}

/// The number that a text stands for, where it is one or more decimal digits, perhaps after a
/// plus sign, and the number is one that `usize` can hold.
pub open spec fn parsed(s: Seq<char>) -> Option<nat> {
    let digits = after_sign(s);
    if digits.len() > 0 && all_digits(digits) && digits_value(digits) <= usize::MAX {
        Some(digits_value(digits))
    } else {
        None
    }
}

/// Reads the characters of a text from one index up to another as a number.
pub fn parse_usize(text: &str, from: usize, to: usize) -> (r: Option<usize>)
    requires
        from <= to <= text@.len(),
    ensures
        match r {
            Some(n) => parsed(text@.subrange(from as int, to as int)) == Some(n as nat),
            None => parsed(text@.subrange(from as int, to as int)) is None,
        },
{
    let ghost s = text@.subrange(from as int, to as int);
    let mut start: usize = from;
    if to - from > 1 && text.get_char(from) == '+' {
        start = from + 1;
    }
    let ghost digits = text@.subrange(start as int, to as int);
    proof {
        assert(digits =~= after_sign(s));
    }
    if start == to {
        return None;
    }
    let mut value: usize = 0;
    let mut i: usize = start;
    proof {
        assert(digits.take(0) =~= Seq::<char>::empty());
    }
    while i < to
        invariant
            from <= start <= i <= to <= text@.len(),
            s == text@.subrange(from as int, to as int),
            digits == text@.subrange(start as int, to as int),
            digits == after_sign(s),
            value == digits_value(digits.take(i - start)),
            forall|j: int| 0 <= j < i - start ==> is_digit(#[trigger] digits[j]),
        decreases to - i,
    {
        let c = text.get_char(i);
        let ghost k = i - start;
        proof {
            assert(digits[k] == c);
            assert(digits.take(k + 1).drop_last() =~= digits.take(k));
            lemma_digits_value_grows(digits, k + 1);
        }
        if c < '0' || c > '9' {
            assert(!is_digit(digits[k]));
            return None;
        }
        let d: usize = (c as u32 - 0x30) as usize;
        let scaled: usize = match value.checked_mul(10) {
            Some(scaled) => scaled,
            None => return None,
        };
        value =
        match scaled.checked_add(d) {
            Some(sum) => sum,
            None => return None,
        };
        i = i + 1;
    }
    assert(digits.take(digits.len() as int) =~= digits);
    Some(value)
}

/// The character of a hexadecimal digit.
pub open spec fn nibble_char(d: int) -> char {
    if d < 10 {
        (0x30 + d) as char
    } else {
        (0x61 + d - 10) as char
    }
}

/// Bytes in hexadecimal digits, two for each, the high one first, in lower case.
pub open spec fn hex_chars(bytes: Seq<u8>) -> Seq<char> {
    Seq::new(
        (2 * bytes.len()) as nat,
        |i: int|
            if i % 2 == 0 {
                nibble_char(bytes[i / 2] as int / 16)
            } else {
                nibble_char(bytes[i / 2] as int % 16)
            },
    )
}

/// `hex::encode`: two hexadecimal digits for each byte, the high one first, in lower case.
#[verifier::external_body]
fn hex_encode(bytes: &[u8]) -> (r: String)
    ensures
        r@ == hex_chars(bytes@),
{
    hex::encode(bytes)
}

/// Bytes in hexadecimal digits, after `0x`.
pub fn prefixed_hex(bytes: &[u8]) -> (r: String)
    ensures
        r@ == "0x"@ + hex_chars(bytes@),
{
    let mut r = "0x".to_owned();
    let digits = hex_encode(bytes);
    r.append(digits.as_str());
    r
}

/// A number is read back from its digits, with or without a plus sign before them. It has no leading
/// zeros, and one more digit makes ten times the number and the digit.
pub proof fn law_number_read_back(n: nat, d: nat)
    requires
        d < 10,
    ensures
        n <= usize::MAX ==> parsed(decimal(n)) == Some(n),
        n <= usize::MAX ==> parsed(seq!['+'] + decimal(n)) == Some(n),
        n > usize::MAX ==> parsed(decimal(n)) is None,
        n > 0 ==> decimal(n)[0] != '0',
        n > 0 ==> decimal(10 * n + d) == decimal(n).push((0x30 + d) as char),
        decimal(d) == seq![(0x30 + d) as char],
    decreases n,
{
    lemma_decimal(n);
    let signed = seq!['+'] + decimal(n);
    assert(is_digit(decimal(n)[0]));
    assert(signed.skip(1) =~= decimal(n));
    if n >= 10 {
        law_number_read_back(n / 10, d);
        assert(decimal(n)[0] == decimal(n / 10)[0]) by {
            lemma_decimal(n / 10);
        }
    }
    assert((10 * n + d) / 10 == n && (10 * n + d) % 10 == d);
}

/// A text that is empty, or has a character that is no digit beside a plus sign before the digits,
/// is no number.
pub proof fn law_no_number(s: Seq<char>, i: int)
    requires
        s.len() == 0 || (0 <= i < s.len() && !('0' <= s[i] <= '9') && !(i == 0 && s[0] == '+'
            && s.len() > 1)),
    ensures
        parsed(s) is None,
{
    if s.len() > 0 {
        let digits = after_sign(s);
        if s.len() > 1 && s[0] == '+' {
            assert(digits[i - 1] == s[i]);
        } else {
            assert(digits[i] == s[i]);
        }
    }
}

/// Each byte is two hexadecimal digits, so bytes are told apart by their digits.
pub proof fn law_hex_tells_bytes(a: Seq<u8>, b: Seq<u8>, i: int)
    ensures
        hex_chars(a).len() == 2 * a.len(),
        hex_chars(a) == hex_chars(b) ==> a == b,
        0 <= i < a.len() && a[i] < 16 ==> hex_chars(a)[2 * i] == '0',
        0 <= i < a.len() && a[i] < 10 ==> hex_chars(a)[2 * i + 1] == (0x30 + a[i]) as char,
        0 <= i < a.len() && 10 <= a[i] < 16 ==> hex_chars(a)[2 * i + 1] == (0x57 + a[i]) as char,
        0 <= i < a.len() && a[i] >= 160 && a[i] % 16 == 0 ==> hex_chars(a)[2 * i] == (0x57 + a[i]
            / 16) as char && hex_chars(a)[2 * i + 1] == '0',
{
    if hex_chars(a) == hex_chars(b) {
        assert(hex_chars(a).len() == hex_chars(b).len());
        assert forall|k: int| 0 <= k < a.len() implies a[k] == b[k] by {
            assert(hex_chars(a)[2 * k] == hex_chars(b)[2 * k]);
            assert(hex_chars(a)[2 * k + 1] == hex_chars(b)[2 * k + 1]);
            assert((2 * k) / 2 == k && (2 * k + 1) / 2 == k);
            assert(nibble_char(a[k] as int / 16) == nibble_char(b[k] as int / 16));
            assert(nibble_char(a[k] as int % 16) == nibble_char(b[k] as int % 16));
            lemma_nibbles(a[k] as int / 16, b[k] as int / 16);
            lemma_nibbles(a[k] as int % 16, b[k] as int % 16);
        }
        assert(a =~= b);
    }
    if 0 <= i < a.len() {
        assert((2 * i) / 2 == i && (2 * i + 1) / 2 == i);
    }
}

proof fn lemma_nibbles(a: int, b: int)
    requires
        0 <= a < 16,
        0 <= b < 16,
        nibble_char(a) == nibble_char(b),
    ensures
        a == b,
{
    assert(nibble_char(a) as int == if a < 10 {
        0x30 + a
    } else {
        0x61 + a - 10
    });
    assert(nibble_char(b) as int == if b < 10 {
        0x30 + b
    } else {
        0x61 + b - 10
    });
}

} // verus!
