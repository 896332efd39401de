//! Small operations on text: finding a character, reading and writing decimal
//! numbers, and turning bytes into a string.

use vstd::prelude::*;
use vstd::string::{StrSliceExecFns, StringExecFns};
use vstd::utf8::{decode_utf8, encode_utf8, valid_utf8};

verus! {

/// The index of the first `wanted` in `text` at or after `from`, or the length
/// of `text` where there is none.
pub open spec fn position(text: Seq<char>, wanted: char, from: int) -> int
    decreases text.len() - from,
{
    if from >= text.len() {
        text.len() as int
    } else if text[from] == wanted {
        from
    } else {
        position(text, wanted, from + 1)
    }
}

/// `position` lies between its start and the end of the text, points at the
/// wanted character where it lies inside, and nothing before it is the wanted
/// character.
pub proof fn lemma_position(text: Seq<char>, wanted: char, from: int)
    requires
        0 <= from <= text.len(),
    ensures
        from <= position(text, wanted, from) <= text.len(),
        position(text, wanted, from) < text.len() ==> text[position(text, wanted, from)]
            == wanted,
        forall|i: int| from <= i < position(text, wanted, from) ==> text[i] != wanted,
    decreases text.len() - from,
{
    if from < text.len() && text[from] != wanted {
        lemma_position(text, wanted, from + 1);
    }
}

/// Finds the first `wanted` in `text` at or after the character index `from`.
pub fn find_char(text: &str, wanted: char, from: usize) -> (found: usize)
    ensures
        found == position(text@, wanted, from as int),
        found <= text@.len(),
        from <= text@.len() ==> from <= found,
{
    let len = text.unicode_len();
    if from >= len {
        return len;
    }
    let mut i: usize = from;
    while i < len && text.get_char(i) != wanted
        invariant
            len == text@.len(),
            from <= i <= len,
            position(text@, wanted, i as int) == position(text@, wanted, from as int),
        decreases len - i,
    {
        i += 1;
    }
    proof {
        lemma_position(text@, wanted, from as int);
    }
    i
}

/// Whether two texts are the same.
pub fn same_text(a: &str, b: &str) -> (same: bool)
    ensures
        same == (a@ == b@),
{
    let x = a.as_bytes();
    let y = b.as_bytes();
    proof {
        vstd::utf8::encode_utf8_decode_utf8(a@);
        vstd::utf8::encode_utf8_decode_utf8(b@);
    }
    if x.len() != y.len() {
        return false;
    }
    let mut i: usize = 0;
    while i < x.len()
        invariant
            x@ == encode_utf8(a@),
            y@ == encode_utf8(b@),
            x@.len() == y@.len(),
            i <= x@.len(),
            x@.take(i as int) == y@.take(i as int),
        decreases x@.len() - i,
    {
        if x[i] != y[i] {
            return false;
        }
        assert(x@.take(i + 1) =~= x@.take(i as int).push(x@[i as int]));
        assert(y@.take(i + 1) =~= y@.take(i as int).push(y@[i as int]));
        i += 1;
    }
    assert(x@.take(i as int) =~= x@);
    assert(y@.take(i as int) =~= y@);
    true
}

/// Whether a character is one of the ten decimal digits.
pub open spec fn is_digit(c: char) -> bool {
    '0' <= c <= '9'
}

/// The number that a run of decimal digits writes, most significant digit
/// first.
pub open spec fn digits_value(digits: Seq<char>) -> nat
    decreases digits.len(),
{
    if digits.len() == 0 {
        0
    } else {
        (digits_value(digits.drop_last()) * 10 + (digits.last() as u32 - '0' as u32)) as nat
    }
}

/// Whether every character of `text` is a decimal digit.
pub open spec fn all_digits(text: Seq<char>) -> bool {
    forall|i: int| 0 <= i < text.len() ==> is_digit(#[trigger] text[i])
}

/// What is left of a number's text once an optional leading plus sign is
/// taken away.
pub open spec fn unsigned_part(text: Seq<char>) -> Seq<char> {
    if text.len() > 0 && text[0] == '+' {
        text.subrange(1, text.len() as int)
    } else {
        text
    }
}

/// The number that `text` writes in decimal: an optional plus sign, then at
/// least one digit and nothing else, and a value that fits in 32 bits.
pub open spec fn parsed_u32(text: Seq<char>) -> Option<u32> {
    let digits = unsigned_part(text);
    if digits.len() > 0 && all_digits(digits) && digits_value(digits) <= u32::MAX {
        Some(digits_value(digits) as u32)
    } else {
        None
    }
}

/// A longer run of digits writes a number that is no smaller.
pub proof fn lemma_digits_value_grows(digits: Seq<char>, k: int)
    requires
        0 <= k <= digits.len(),
        all_digits(digits),
    ensures
        digits_value(digits.take(k)) <= digits_value(digits),
    decreases digits.len() - k,
{
    if k < digits.len() {
        lemma_digits_value_grows(digits, k + 1);
        assert(digits.take(k + 1).drop_last() =~= digits.take(k));
        assert(is_digit(digits[k]));
    } else {
        assert(digits.take(k) =~= digits);
    }
}

/// Reads a decimal number of at most 32 bits.
pub fn parse_u32(text: &str) -> (number: Option<u32>)
    ensures
        number == parsed_u32(text@),
{
    let len = text.unicode_len();
    let start: usize = if len > 0 && text.get_char(0) == '+' {
        1
    } else {
        0
    };
    let ghost digits = unsigned_part(text@);
    if start >= len {
        return None;
    }
    assert(digits =~= text@.subrange(start as int, len as int));
    let mut value: u64 = 0;
    let mut i: usize = start;
    while i < len
        invariant
            len == text@.len(),
            start <= i <= len,
            start <= 1,
            digits == text@.subrange(start as int, len as int),
            digits == unsigned_part(text@),
            all_digits(digits.take(i - start)),
            value == digits_value(digits.take(i - start)),
            value <= u32::MAX,
        decreases len - i,
    {
        let c = text.get_char(i);
        assert(c == digits[i - start]);
        if !('0' <= c && c <= '9') {
            assert(!is_digit(digits[i - start]));
            return None;
        }
        let digit: u64 = (c as u32 - '0' as u32) as u64;
        value = value * 10 + digit;
        proof {
            assert(digits.take(i - start + 1).drop_last() =~= digits.take(i - start));
            assert(digits.take(i - start + 1).last() == c);
            assert forall|k: int| 0 <= k < digits.take(i - start + 1).len() implies is_digit(
                #[trigger] digits.take(i - start + 1)[k],
            ) by {
                if k < i - start {
                    assert(digits.take(i - start)[k] == digits[k]);
                }
            }
        }
        if value > 0xffff_ffff {
            proof {
                if all_digits(digits) {
                    lemma_digits_value_grows(digits, i - start + 1);
                }
            }
            return None;
        }
        i += 1;
    }
    proof {
        assert(digits.take(i - start) =~= digits);
    }
    Some(value as u32)
}

/// What is left of a number's text once an optional leading sign is taken
/// away.
pub open spec fn magnitude_part(text: Seq<char>) -> Seq<char> {
    if text.len() > 0 && (text[0] == '+' || text[0] == '-') {
        text.subrange(1, text.len() as int)
    } else {
        text
    }
}

/// The number that `text` writes in decimal: an optional sign, then at least
/// one digit and nothing else, and a value that fits in 64 bits with sign.
pub open spec fn parsed_i64(text: Seq<char>) -> Option<i64> {
    let digits = magnitude_part(text);
    let negative = text.len() > 0 && text[0] == '-';
    if digits.len() > 0 && all_digits(digits) {
        if negative && digits_value(digits) <= 0x8000_0000_0000_0000 {
            Some((-(digits_value(digits) as int)) as i64)
        } else if !negative && digits_value(digits) <= 0x7fff_ffff_ffff_ffff {
            Some(digits_value(digits) as i64)
        } else {
            None
        }
    } else {
        None
    }
}

/// Reads a decimal number of at most 64 bits with sign.
pub fn parse_i64(text: &str) -> (number: Option<i64>)
    ensures
        number == parsed_i64(text@),
{
    let len = text.unicode_len();
    let negative = len > 0 && text.get_char(0) == '-';
    let start: usize = if len > 0 && (text.get_char(0) == '+' || text.get_char(0) == '-') {
        1
    } else {
        0
    };
    let ghost digits = magnitude_part(text@);
    if start >= len {
        return None;
    }
    assert(digits =~= text@.subrange(start as int, len as int));
    let mut value: u64 = 0;
    let mut i: usize = start;
    while i < len
        invariant
            len == text@.len(),
            start <= i <= len,
            start <= 1,
            digits == text@.subrange(start as int, len as int),
            digits == magnitude_part(text@),
            negative == (text@.len() > 0 && text@[0] == '-'),
            all_digits(digits.take(i - start)),
            value == digits_value(digits.take(i - start)),
            value <= 0x8000_0000_0000_0000,
        decreases len - i,
    {
        let c = text.get_char(i);
        assert(c == digits[i - start]);
        if !('0' <= c && c <= '9') {
            assert(!is_digit(digits[i - start]));
            return None;
        }
        let digit: u64 = (c as u32 - '0' as u32) as u64;
        let ghost longer = digits.take(i - start + 1);
        proof {
            assert(longer.drop_last() =~= digits.take(i - start));
            assert(longer.last() == c);
            assert forall|k: int| 0 <= k < longer.len() implies is_digit(#[trigger] longer[k]) by {
                if k < i - start {
                    assert(digits.take(i - start)[k] == digits[k]);
                }
            }
            if all_digits(digits) {
                lemma_digits_value_grows(digits, i - start + 1);
            }
        }
        if value > 922_337_203_685_477_580 {
            return None;
        }
        value = value * 10 + digit;
        if value > 0x8000_0000_0000_0000 {
            return None;
        }
        i += 1;
    }
    proof {
        assert(digits.take(i - start) =~= digits);
    }
    if negative {
        if value == 0x8000_0000_0000_0000 {
            Some(i64::MIN)
        } else {
            Some(-(value as i64))
        }
    } else if value <= 0x7fff_ffff_ffff_ffff {
        Some(value as i64)
    } else {
        None
    }
}

/// The character that writes a digit.
pub open spec fn digit_char(digit: nat) -> char
    recommends
        digit < 10,
{
    if digit == 0 {
        '0'
    } else if digit == 1 {
        '1'
    } else if digit == 2 {
        '2'
    } else if digit == 3 {
        '3'
    } else if digit == 4 {
        '4'
    } else if digit == 5 {
        '5'
    } else if digit == 6 {
        '6'
    } else if digit == 7 {
        '7'
    } else if digit == 8 {
        '8'
    } else {
        '9'
    }
}

/// A number in decimal, without sign and without leading zeros.
pub open spec fn decimal(n: nat) -> Seq<char>
    decreases n,
{
    if n < 10 {
        seq![digit_char(n)]
    } else {
        decimal(n / 10).push(digit_char(n % 10))
    }
}

fn digit_text(digit: u64) -> (text: &'static str)
    requires
        digit < 10,
    ensures
        text@ == seq![digit_char(digit as nat)],
{
    proof {
        reveal_strlit("0");
        reveal_strlit("1");
        reveal_strlit("2");
        reveal_strlit("3");
        reveal_strlit("4");
        reveal_strlit("5");
        reveal_strlit("6");
        reveal_strlit("7");
        reveal_strlit("8");
        reveal_strlit("9");
    }
    let text = if digit == 0 {
        "0"
    } else if digit == 1 {
        "1"
    } else if digit == 2 {
        "2"
    } else if digit == 3 {
        "3"
    } else if digit == 4 {
        "4"
    } else if digit == 5 {
        "5"
    } else if digit == 6 {
        "6"
    } else if digit == 7 {
        "7"
    } else if digit == 8 {
        "8"
    } else {
        "9"
    };
    assert(text@ =~= seq![digit_char(digit as nat)]);
    text
}

/// Writes a number in decimal.
pub fn to_decimal(n: u64) -> (text: String)
    ensures
        text@ == decimal(n as nat),
    decreases n,
{
    if n < 10 {
        String::from_str(digit_text(n))
    } else {
        let mut text = to_decimal(n / 10);
        text.append(digit_text(n % 10));
        assert(text@ =~= decimal((n / 10) as nat).push(digit_char((n % 10) as nat)));
        text
    }
}

/// `String::from_utf8`: the text that the bytes encode in UTF-8, or `None`
/// where they are not valid UTF-8.
#[verifier::external_body]
pub(crate) fn from_utf8(bytes: Vec<u8>) -> (text: Option<String>)
    ensures
        text is Some <==> valid_utf8(bytes@),
        text is Some ==> text->Some_0@ == decode_utf8(bytes@),
{
    String::from_utf8(bytes).ok()
}

} // verus!