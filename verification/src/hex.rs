//! Hexadecimal text: digits, numbers written in digits, and the shape that a
//! buffer of bytecode must have.

use crate::error::ObfuscationError;
use vstd::arithmetic::div_mod::lemma_div_denominator;
use vstd::prelude::*;
use vstd::string::*;

verus! {

/// The largest number of digits a bytecode buffer may hold, so that every
/// digit offset and byte position fits an `i32`.
pub const MAX_DIGITS: usize = 0x7fff_ffff;

/// A lower-case hexadecimal digit.
pub open spec fn is_hex_digit(c: char) -> bool {
    ('0' <= c && c <= '9') || ('a' <= c && c <= 'f')
}

/// The number that a hexadecimal digit stands for.
pub open spec fn hex_digit_value(c: char) -> int {
    if '0' <= c && c <= '9' {
        c as int - '0' as int
    } else {
        c as int - 'a' as int + 10
    }
}

/// The hexadecimal digit that stands for `d`, for `d` below 16.
pub open spec fn hex_char(d: int) -> char {
    if d < 10 {
        ('0' as int + d) as char
    } else {
        ('a' as int + d - 10) as char
    }
}

/// Text made of hexadecimal digits only.
pub open spec fn is_hex_text(s: Seq<char>) -> bool {
    forall|i: int| 0 <= i < s.len() ==> is_hex_digit(#[trigger] s[i])
}

/// A well-formed bytecode buffer: whole bytes, written in hexadecimal
/// digits, and no longer than `MAX_DIGITS`.
pub open spec fn is_bytecode(s: Seq<char>) -> bool {
    &&& s.len() % 2 == 0
    &&& s.len() <= MAX_DIGITS
    &&& is_hex_text(s)
}

/// The number written by the digits `s`, most significant digit first.
pub open spec fn hex_value(s: Seq<char>) -> int
    decreases s.len(),
{
    if s.len() == 0 {
        0
    } else {
        16 * hex_value(s.drop_last()) + hex_digit_value(s.last())
    }
}

/// The digit of `value` at `place`, the places counted from the least
/// significant digit. No number of eight digits or less has a digit
/// above the eighth, and none larger is ever written.
pub open spec fn nibble(value: int, place: nat) -> int {
    if place == 0 {
        value % 16
    } else if place == 1 {
        value / 0x10 % 16
    } else if place == 2 {
        value / 0x100 % 16
    } else if place == 3 {
        value / 0x1000 % 16
    } else if place == 4 {
        value / 0x1_0000 % 16
    } else if place == 5 {
        value / 0x10_0000 % 16
    } else if place == 6 {
        value / 0x100_0000 % 16
    } else if place == 7 {
        value / 0x1000_0000 % 16
    } else {
        0
    }
}

/// The first number that `width` digits cannot hold: 16 to the power
/// `width`, for up to eight digits. More digits count as eight, which hold
/// every number that an `i32` or a `u32` holds.
pub open spec fn capacity(width: nat) -> int {
    if width == 0 {
        1
    } else if width == 1 {
        0x10
    } else if width == 2 {
        0x100
    } else if width == 3 {
        0x1000
    } else if width == 4 {
        0x1_0000
    } else if width == 5 {
        0x10_0000
    } else if width == 6 {
        0x100_0000
    } else if width == 7 {
        0x1000_0000
    } else {
        0x1_0000_0000
    }
}

/// Whether `width` digits can hold `value`.
pub open spec fn fits_digits(value: int, width: nat) -> bool {
    0 <= value < capacity(width)
}

/// `value` written in exactly `width` digits, most significant first and
/// with zeros before it: the digit at index `i` is the one at place
/// `width - 1 - i`. The text stands for `value` when the digits can hold
/// it.
pub open spec fn hex_digits(value: int, width: nat) -> Seq<char> {
    Seq::new(width, |i: int| hex_char(nibble(value, (width - 1 - i) as nat)))
}

/// `value` written without leading zeros (`"0"` for zero).
pub open spec fn hex_text(value: int) -> Seq<char>
    decreases value,
{
    if value < 16 {
        seq![hex_char(value)]
    } else {
        hex_text(value / 16).push(hex_char(value % 16))
    }
}

/// The texts of a vector of strings.
pub open spec fn texts(strings: Seq<String>) -> Seq<Seq<char>> {
    strings.map_values(|t: String| t@)
}

/// Whether the first `count` digits of a text are zeros.
pub open spec fn has_leading_zeros(s: Seq<char>, count: int) -> bool {
    forall|i: int| 0 <= i < count && i < s.len() ==> #[trigger] s[i] == '0'
}

/// `count` zeros.
pub open spec fn zeros(count: nat) -> Seq<char> {
    Seq::new(count, |i: int| '0')
}

/// The number of characters of ASCII text.
pub(crate) fn text_len(s: &str) -> (n: usize)
    requires
        s.is_ascii(),
    ensures
        n == s@.len(),
{
    broadcast use vstd::string::is_ascii_spec_bytes;

    s.as_bytes().len()
}

/// The value of the digit at index `i`, if it is a hexadecimal digit.
pub(crate) fn digit_at(s: &str, i: usize) -> (r: Option<u8>)
    requires
        s.is_ascii(),
        i < s@.len(),
    ensures
        r is Some <==> is_hex_digit(s@[i as int]),
        r matches Some(v) ==> v as int == hex_digit_value(s@[i as int]) && v < 16,
{
    let b: u8 = s.get_ascii(i);
    if b >= 48 && b <= 57 {
        Some(b - 48)
    } else if b >= 97 && b <= 102 {
        Some(b - 87)
    } else {
        None
    }
}

/// The one-character text of a digit.
pub(crate) fn hex_digit_str(d: u8) -> (r: &'static str)
    requires
        d < 16,
    ensures
        r@ == seq![hex_char(d as int)],
{
    let r: &'static str = match d {
        0 => "0",
        1 => "1",
        2 => "2",
        3 => "3",
        4 => "4",
        5 => "5",
        6 => "6",
        7 => "7",
        8 => "8",
        9 => "9",
        10 => "a",
        11 => "b",
        12 => "c",
        13 => "d",
        14 => "e",
        _ => "f",
    };
    proof {
        reveal_strlit("0");
        reveal_strlit("1");
        reveal_strlit("2");
        reveal_strlit("3");
        reveal_strlit("4");
        reveal_strlit("5");
        reveal_strlit("6");
        reveal_strlit("7");
        reveal_strlit("8");
        reveal_strlit("9");
        reveal_strlit("a");
        reveal_strlit("b");
        reveal_strlit("c");
        reveal_strlit("d");
        reveal_strlit("e");
        reveal_strlit("f");
        assert(r@ =~= seq![hex_char(d as int)]);
    }
    r
}

/// Whether `s` is hexadecimal text.
pub fn is_hex_str(s: &str) -> (r: bool)
    ensures
        r == is_hex_text(s@),
        r ==> s.is_ascii(),
{
    if !s.is_ascii() {
        proof {
            if is_hex_text(s@) {
                lemma_hex_text_is_ascii(s@);
            }
        }
        return false;
    }
    let n: usize = text_len(s);
    let mut i: usize = 0;
    while i < n
        invariant
            s.is_ascii(),
            n == s@.len(),
            i <= n,
            forall|j: int| 0 <= j < i ==> is_hex_digit(#[trigger] s@[j]),
        decreases n - i,
    {
        if digit_at(s, i).is_none() {
            return false;
        }
        i += 1;
    }
    true
}

/// Whether `s` is a well-formed bytecode buffer.
pub fn is_bytecode_str(s: &str) -> (r: bool)
    ensures
        r == is_bytecode(s@),
        r ==> s.is_ascii(),
{
    if !is_hex_str(s) {
        return false;
    }
    let n: usize = text_len(s);
    n % 2 == 0 && n <= MAX_DIGITS
}

/// Reads hexadecimal text as a number.
///
/// Fails with `InvalidHex` when a character is not a digit, and with
/// `OperandOverflow` when the number is larger than `i32::MAX`.
pub fn parse_hex(text: &str) -> (r: Result<i32, ObfuscationError>)
    ensures
        match r {
            Ok(v) => is_hex_text(text@) && v == hex_value(text@),
            Err(e) => if is_hex_text(text@) {
                e == ObfuscationError::OperandOverflow && hex_value(text@) > i32::MAX
            } else {
                e == ObfuscationError::InvalidHex
            },
        },
{
    if !is_hex_str(text) {
        return Err(ObfuscationError::InvalidHex);
    }
    let n: usize = text_len(text);
    let mut value: i64 = 0;
    let mut i: usize = 0;
    while i < n
        invariant
            text.is_ascii(),
            is_hex_text(text@),
            n == text@.len(),
            i <= n,
            0 <= value <= i32::MAX,
            value == hex_value(text@.subrange(0, i as int)),
        decreases n - i,
    {
        let d: u8 = match digit_at(text, i) {
            Some(d) => d,
            None => { return Err(ObfuscationError::InvalidHex); },
        };
        let next: i64 = value * 16 + d as i64;
        proof {
            let longer = text@.subrange(0, i + 1);
            assert(longer.drop_last() =~= text@.subrange(0, i as int));
            assert(longer.last() == text@[i as int]);
            assert(next == hex_value(longer));
            lemma_hex_value_prefix(text@, i + 1);
        }
        if next > i32::MAX as i64 {
            return Err(ObfuscationError::OperandOverflow);
        }
        value = next;
        i += 1;
    }
    proof {
        assert(text@.subrange(0, n as int) =~= text@);
    }
    Ok(value as i32)
}

/// Writes a number without leading zeros.
pub fn to_hex_text(value: usize) -> (r: String)
    ensures
        r@ == hex_text(value as int),
    decreases value,
{
    if value < 16 {
        let r = String::from_str(hex_digit_str(value as u8));
        proof {
            assert(r@ =~= hex_text(value as int));
        }
        r
    } else {
        let mut r = to_hex_text(value / 16);
        r.append(hex_digit_str((value % 16) as u8));
        proof {
            assert(r@ =~= hex_text(value as int));
        }
        r
    }
}

/// Writes a number in exactly `width` digits, if they can hold it.
pub(crate) fn to_hex_digits(value: u32, width: usize) -> (r: Option<String>)
    requires
        width <= 64,
    ensures
        r is Some <==> fits_digits(value as int, width as nat),
        r matches Some(text) ==> text@ == hex_digits(value as int, width as nat),
    decreases width,
{
    if width == 0 {
        if value == 0 {
            let text = String::new();
            proof {
                assert(text@ =~= hex_digits(0, 0));
            }
            Some(text)
        } else {
            None
        }
    } else {
        proof {
            lemma_hex_digits_step(value as int, width as nat);
        }
        match to_hex_digits(value / 16, width - 1) {
            Some(mut text) => {
                text.append(hex_digit_str((value % 16) as u8));
                Some(text)
            },
            None => None,
        }
    }
}

/// A copy of the characters from `from` up to `to`.
pub(crate) fn copy_digits(s: &str, from: usize, to: usize) -> (r: String)
    requires
        s.is_ascii(),
        from <= to <= s@.len(),
    ensures
        r@ == s@.subrange(from as int, to as int),
{
    s.substring_ascii(from, to).to_owned()
}

/// Each of the sixteen digits stands for its number.
pub proof fn lemma_hex_char_is_digit(d: int)
    requires
        0 <= d < 16,
    ensures
        is_hex_digit(hex_char(d)),
        hex_digit_value(hex_char(d)) == d,
{
}

/// `hex_digits` writes as many digits as it is asked for.
pub proof fn lemma_hex_digits_shape(value: int, width: nat)
    requires
        0 <= value,
    ensures
        hex_digits(value, width).len() == width,
        is_hex_text(hex_digits(value, width)),
{
    assert forall|i: int| 0 <= i < width implies is_hex_digit(
        #[trigger] hex_digits(value, width)[i],
    ) by {
        lemma_hex_char_is_digit(nibble(value, (width - 1 - i) as nat));
    }
}

/// The digit at a place is the digit one place lower of a sixteenth of
/// the number.
pub proof fn lemma_nibble_step(value: int, place: nat)
    requires
        0 <= value < 0x1_0000_0000,
    ensures
        nibble(value, place + 1) == nibble(value / 16, place),
        0 <= nibble(value, place) < 16,
{
    if place == 0 {
    } else if place == 1 {
        lemma_div_denominator(value, 16, 0x10);
    } else if place == 2 {
        lemma_div_denominator(value, 16, 0x100);
    } else if place == 3 {
        lemma_div_denominator(value, 16, 0x1000);
    } else if place == 4 {
        lemma_div_denominator(value, 16, 0x1_0000);
    } else if place == 5 {
        lemma_div_denominator(value, 16, 0x10_0000);
    } else if place == 6 {
        lemma_div_denominator(value, 16, 0x100_0000);
    } else if place == 7 {
        assert(value / 16 < 0x1000_0000);
    }
}

/// The digits of a number are those of its sixteenth and one more.
pub proof fn lemma_hex_digits_step(value: int, width: nat)
    requires
        0 <= value < 0x1_0000_0000,
        width > 0,
    ensures
        hex_digits(value, width) == hex_digits(value / 16, (width - 1) as nat).push(
            hex_char(value % 16),
        ),
        fits_digits(value, width) <==> fits_digits(value / 16, (width - 1) as nat),
{
    let shorter = hex_digits(value / 16, (width - 1) as nat);
    assert forall|i: int| 0 <= i < width - 1 implies hex_digits(value, width)[i] == shorter[i] by {
        lemma_nibble_step(value, (width - 2 - i) as nat);
    }
    assert(hex_digits(value, width) =~= shorter.push(hex_char(value % 16)));
}

/// Reading back what `hex_digits` wrote gives the value, when it fits.
pub proof fn lemma_hex_value_of_digits(value: int, width: nat)
    requires
        fits_digits(value, width),
    ensures
        hex_value(hex_digits(value, width)) == value,
    decreases width,
{
    if width > 0 {
        let rest = hex_digits(value / 16, (width - 1) as nat);
        lemma_hex_digits_step(value, width);
        lemma_hex_value_of_digits(value / 16, (width - 1) as nat);
        lemma_hex_char_is_digit(value % 16);
        assert(rest.push(hex_char(value % 16)).drop_last() =~= rest);
    } else {
        assert(hex_digits(value, width) =~= Seq::<char>::empty());
    }
}

/// Hexadecimal text stands for a number that is not negative.
pub proof fn lemma_hex_value_bound(s: Seq<char>)
    requires
        is_hex_text(s),
    ensures
        0 <= hex_value(s),
    decreases s.len(),
{
    if s.len() > 0 {
        lemma_hex_value_bound(s.drop_last());
    }
}

/// A number is at least what its leading digits stand for.
pub proof fn lemma_hex_value_prefix(s: Seq<char>, n: int)
    requires
        is_hex_text(s),
        0 <= n <= s.len(),
    ensures
        hex_value(s.subrange(0, n)) <= hex_value(s),
    decreases s.len() - n,
{
    if n < s.len() {
        lemma_hex_value_prefix(s, n + 1);
        let longer = s.subrange(0, n + 1);
        assert(longer.drop_last() =~= s.subrange(0, n));
        lemma_hex_value_bound(s.subrange(0, n));
    } else {
        assert(s.subrange(0, n) =~= s);
    }
}

/// Zeros alone stand for zero.
pub proof fn lemma_zeros_value(count: nat)
    ensures
        hex_value(zeros(count)) == 0,
    decreases count,
{
    if count > 0 {
        assert(zeros(count).drop_last() =~= zeros((count - 1) as nat));
        lemma_zeros_value((count - 1) as nat);
    }
}

/// Zeros before a number do not change it.
pub proof fn lemma_leading_zeros(count: nat, digits: Seq<char>)
    ensures
        hex_value(zeros(count) + digits) == hex_value(digits),
    decreases digits.len(),
{
    if digits.len() == 0 {
        assert(zeros(count) + digits =~= zeros(count));
        lemma_zeros_value(count);
    } else {
        let all = zeros(count) + digits;
        assert(all.drop_last() =~= zeros(count) + digits.drop_last());
        assert(all.last() == digits.last());
        lemma_leading_zeros(count, digits.drop_last());
    }
}

/// Hexadecimal text is ASCII.
pub proof fn lemma_hex_text_is_ascii(s: Seq<char>)
    requires
        is_hex_text(s),
    ensures
        vstd::utf8::is_ascii_chars(s),
{
    assert forall|i: int| 0 <= i < s.len() implies '\0' <= #[trigger] s[i] <= '\u{7f}' by {
        assert(is_hex_digit(s[i]));
    }
}

/// Two texts joined are hexadecimal when both are.
pub proof fn lemma_hex_text_concat(a: Seq<char>, b: Seq<char>)
    ensures
        is_hex_text(a + b) <==> is_hex_text(a) && is_hex_text(b),
{
    if is_hex_text(a + b) {
        assert forall|i: int| 0 <= i < a.len() implies is_hex_digit(#[trigger] a[i]) by {
            assert((a + b)[i] == a[i]);
        }
        assert forall|i: int| 0 <= i < b.len() implies is_hex_digit(#[trigger] b[i]) by {
            assert((a + b)[a.len() + i] == b[i]);
        }
    }
}

/// A part of hexadecimal text is hexadecimal.
pub proof fn lemma_hex_text_subrange(s: Seq<char>, from: int, to: int)
    requires
        is_hex_text(s),
        0 <= from <= to <= s.len(),
    ensures
        is_hex_text(s.subrange(from, to)),
{
}

/// Up to eight digits stand for a number below their capacity.
pub proof fn lemma_hex_value_capacity(s: Seq<char>)
    requires
        is_hex_text(s),
        s.len() <= 8,
    ensures
        0 <= hex_value(s) < capacity(s.len()),
    decreases s.len(),
{
    if s.len() > 0 {
        lemma_hex_value_capacity(s.drop_last());
    }
}

/// Writing the number that up to eight digits stand for, in as many
/// digits, gives those digits again.
pub proof fn lemma_hex_digits_of_value(s: Seq<char>)
    requires
        is_hex_text(s),
        s.len() <= 8,
    ensures
        hex_digits(hex_value(s), s.len()) == s,
    decreases s.len(),
{
    if s.len() > 0 {
        let shorter = s.drop_last();
        lemma_hex_value_capacity(s);
        lemma_hex_value_capacity(shorter);
        lemma_hex_digits_of_value(shorter);
        lemma_hex_digits_step(hex_value(s), s.len());
        assert(hex_value(s) / 16 == hex_value(shorter));
        assert(hex_char(hex_value(s) % 16) == s.last());
        assert(shorter.push(s.last()) =~= s);
    } else {
        assert(hex_digits(hex_value(s), 0) =~= s);
    }
}

/// The number of two texts joined is the number of the first, moved up by
/// the digits of the second, plus the number of the second.
pub proof fn lemma_hex_value_joined(a: Seq<char>, b: Seq<char>)
    requires
        b.len() <= 8,
    ensures
        hex_value(a + b) == hex_value(a) * capacity(b.len()) + hex_value(b),
    decreases b.len(),
{
    let n = b.len();
    if n == 0 {
        assert(a + b =~= a);
    } else {
        let joined = a + b;
        assert(joined.drop_last() =~= a + b.drop_last());
        assert(joined.last() == b.last());
        lemma_hex_value_joined(a, b.drop_last());
        if n == 1 {
        } else if n == 2 {
        } else if n == 3 {
        } else if n == 4 {
        } else if n == 5 {
        } else if n == 6 {
        } else if n == 7 {
        } else {
        }
    }
}

/// Digits that are all zeros stand for zero, and digits of which one is
/// not a zero stand for a number that is not zero.
pub proof fn lemma_hex_value_zero(s: Seq<char>)
    requires
        is_hex_text(s),
    ensures
        has_leading_zeros(s, s.len() as int) <==> hex_value(s) == 0,
        hex_value(s) >= 0,
    decreases s.len(),
{
    if s.len() > 0 {
        let shorter = s.drop_last();
        lemma_hex_value_zero(shorter);
        assert(is_hex_digit(s.last()));
        if has_leading_zeros(s, s.len() as int) {
            assert forall|i: int| 0 <= i < shorter.len() implies #[trigger] shorter[i] == '0' by {
                assert(s[i] == '0');
            }
            assert(s[s.len() - 1] == '0');
        }
        if hex_value(s) == 0 {
            assert(s.last() == '0');
            assert forall|i: int| 0 <= i < s.len() implies #[trigger] s[i] == '0' by {
                if i < shorter.len() {
                    assert(shorter[i] == '0');
                }
            }
        }
    }
}

} // verus!
