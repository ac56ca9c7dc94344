//! Text as bytes: fields between separators, and numbers written in
//! decimal and hexadecimal digits.

use vstd::prelude::*;
use vstd::string::StringSliceAdditionalSpecFns;
use vstd::utf8::encode_utf8_decode_utf8;

verus! {

/// Where the field that starts at `from` ends: at the first `sep` from there
/// on, or at the end of `text` where there is none.
pub open spec fn field_end(text: Seq<u8>, from: int, sep: u8) -> int
    decreases text.len() - from,
{
    if from < 0 || from >= text.len() || text[from] == sep {
        from
    } else {
        field_end(text, from + 1, sep)
    }
}

/// Where field number `n` starts, counting from 0: one past the separator
/// that ends the field before it. A result beyond the end of `text` says
/// that `text` has no such field.
pub open spec fn field_start(text: Seq<u8>, n: nat, sep: u8) -> int
    decreases n,
{
    if n == 0 {
        0
    } else {
        field_end(text, field_start(text, (n - 1) as nat, sep), sep) + 1
    }
}

/// Whether `text` has a field number `n`.
pub open spec fn has_field(text: Seq<u8>, n: nat, sep: u8) -> bool {
    field_start(text, n, sep) <= text.len()
}

/// Field number `n` of `text`, without its separators.
pub open spec fn field(text: Seq<u8>, n: nat, sep: u8) -> Seq<u8> {
    text.subrange(field_start(text, n, sep), field_end(text, field_start(text, n, sep), sep))
}

/// Once a text has no field of some number, it has none of a higher number.
pub proof fn lemma_no_later_field(text: Seq<u8>, n: nat, m: nat, sep: u8)
    requires
        n <= m,
        !has_field(text, n, sep),
    ensures
        !has_field(text, m, sep),
    decreases m - n,
{
    if n < m {
        lemma_no_later_field(text, n, (m - 1) as nat, sep);
    }
}

/// Whether `byte` is one of the digits `0` to `9`.
pub open spec fn is_digit(byte: u8) -> bool {
    48 <= byte <= 57
}

/// Whether every byte of `digits` is a decimal digit.
pub open spec fn all_digits(digits: Seq<u8>) -> bool {
    forall|i: int| 0 <= i < digits.len() ==> is_digit(#[trigger] digits[i])
}

/// `text` without the `+` that it may start with.
pub open spec fn without_plus(text: Seq<u8>) -> Seq<u8> {
    if text.len() > 0 && text[0] == 43 {
        text.skip(1)
    } else {
        text
    }
}

/// The number that decimal digits stand for.
pub open spec fn decimal(digits: Seq<u8>) -> nat
    decreases digits.len(),
{
    if digits.len() == 0 {
        0
    } else {
        decimal(digits.drop_last()) * 10 + (digits.last() - 48) as nat
    }
}

/// The octet that `digits` spell: one to three decimal digits, no zero in
/// front of another digit, and no more than 255.
pub open spec fn octet_of(digits: Seq<u8>) -> Option<u8> {
    if 1 <= digits.len() <= 3 && all_digits(digits) && (digits.len() > 1 ==> digits[0] != 48)
        && decimal(digits) <= 255 {
        Some(decimal(digits) as u8)
    } else {
        None
    }
}

/// The value of a hexadecimal digit in either case; `None` for any other
/// byte.
pub open spec fn hex_digit(byte: u8) -> Option<u8> {
    if 48 <= byte <= 57 {
        Some((byte - 48) as u8)
    } else if 65 <= byte <= 70 {
        Some((byte - 55) as u8)
    } else if 97 <= byte <= 102 {
        Some((byte - 87) as u8)
    } else {
        None
    }
}

/// The number that hexadecimal digits stand for.
pub open spec fn hexadecimal(digits: Seq<u8>) -> nat
    decreases digits.len(),
{
    if digits.len() == 0 {
        0
    } else {
        hexadecimal(digits.drop_last()) * 16 + hex_digit(digits.last()).unwrap() as nat
    }
}

/// Finds the end of the field that starts at `from`. A start beyond the
/// text is its own end.
pub fn find_field_end(text: &[u8], from: usize, sep: u8) -> (end: usize)
    ensures
        end == field_end(text@, from as int, sep),
        from <= end,
        from <= text@.len() ==> end <= text@.len(),
        end < text@.len() ==> text@[end as int] == sep,
        forall|k: int| from <= k < end ==> text@[k] != sep,
{
    if from >= text.len() {
        return from;
    }
    let mut end: usize = from;
    while end < text.len() && text[end] != sep
        invariant
            from <= end <= text@.len(),
            field_end(text@, from as int, sep) == field_end(text@, end as int, sep),
            forall|k: int| from <= k < end ==> text@[k] != sep,
        decreases text@.len() - end,
    {
        end += 1;
    }
    end
}

/// Reads the octet that `digits` spell.
pub fn parse_octet(digits: &[u8]) -> (octet: Option<u8>)
    ensures
        octet == octet_of(digits@),
{
    let n = digits.len();
    if n < 1 || n > 3 {
        return None;
    }
    if n > 1 && digits[0] == 48 {
        return None;
    }
    let mut value: u16 = 0;
    let mut i: usize = 0;
    while i < n
        invariant
            i <= n == digits@.len(),
            n <= 3,
            value == decimal(digits@.take(i as int)),
            value <= 999,
            i < 3 ==> value <= 99,
            i < 2 ==> value <= 9,
            i == 0 ==> value == 0,
            forall|k: int| 0 <= k < i ==> is_digit(#[trigger] digits@[k]),
        decreases n - i,
    {
        let byte = digits[i];
        if byte < 48 || byte > 57 {
            assert(!is_digit(digits@[i as int]));
            return None;
        }
        assert(digits@.take(i + 1).drop_last() =~= digits@.take(i as int));
        assert(digits@.take(i + 1).last() == byte);
        value = value * 10 + (byte - 48) as u16;
        i += 1;
    }
    assert(digits@.take(n as int) =~= digits@);
    if value > 255 {
        None
    } else {
        Some(value as u8)
    }
}

/// Why a text is no number.
#[derive(Clone, Copy, Debug, PartialEq, Eq, Structural)]
pub enum IntParseError {
    /// The text is empty.
    Empty,
    /// The text holds something that is no digit, or no digit at all.
    InvalidDigit,
    /// The digits stand for more than 32 bits hold.
    PosOverflow,
}

/// How many bytes at the start of `text` are hexadecimal digits.
pub open spec fn hex_run(text: Seq<u8>) -> int
    decreases text.len(),
{
    if text.len() == 0 || hex_digit(text[0]) is None {
        0
    } else {
        1 + hex_run(text.skip(1))
    }
}

/// The 32-bit number that `text` spells in hexadecimal digits of either
/// case, with or without a `+` in front. Read from the left, the first thing
/// that is wrong decides the error: digits that run over 32 bits before a
/// byte that is no digit give `PosOverflow`.
pub open spec fn hex_u32_of(text: Seq<u8>) -> Result<u32, IntParseError> {
    if text.len() == 0 {
        Err(IntParseError::Empty)
    } else {
        let digits = without_plus(text);
        let run = hex_run(digits);
        if digits.len() == 0 {
            Err(IntParseError::InvalidDigit)
        } else if hexadecimal(digits.take(run)) > u32::MAX {
            Err(IntParseError::PosOverflow)
        } else if run < digits.len() {
            Err(IntParseError::InvalidDigit)
        } else {
            Ok(hexadecimal(digits) as u32)
        }
    }
}

/// The value of a hexadecimal digit.
pub fn hex_digit_value(byte: u8) -> (value: Option<u8>)
    ensures
        value == hex_digit(byte),
{
    if 48 <= byte && byte <= 57 {
        Some(byte - 48)
    } else if 65 <= byte && byte <= 70 {
        Some(byte - 55)
    } else if 97 <= byte && byte <= 102 {
        Some(byte - 87)
    } else {
        None
    }
}

proof fn lemma_hex_run_bounds(text: Seq<u8>)
    ensures
        0 <= hex_run(text) <= text.len(),
    decreases text.len(),
{
    if text.len() > 0 && hex_digit(text[0]) is Some {
        lemma_hex_run_bounds(text.skip(1));
    }
}

proof fn lemma_hex_run_step(text: Seq<u8>, k: int)
    requires
        0 <= k <= text.len(),
        forall|i: int| 0 <= i < k ==> hex_digit(#[trigger] text[i]) is Some,
    ensures
        hex_run(text) >= k,
        k == text.len() || hex_digit(text[k]) is None ==> hex_run(text) == k,
    decreases k,
{
    lemma_hex_run_bounds(text);
    if k > 0 {
        let rest = text.skip(1);
        assert(hex_digit(text[0]) is Some);
        assert forall|i: int| 0 <= i < k - 1 implies hex_digit(#[trigger] rest[i]) is Some by {
            assert(rest[i] == text[i + 1]);
        }
        lemma_hex_run_step(rest, k - 1);
        if k < text.len() {
            assert(rest[k - 1] == text[k]);
        }
    }
}

proof fn lemma_hexadecimal_push(digits: Seq<u8>, k: int)
    requires
        0 <= k < digits.len(),
    ensures
        hexadecimal(digits.take(k + 1)) == hexadecimal(digits.take(k)) * 16 + hex_digit(
            digits[k],
        ).unwrap(),
{
    assert(digits.take(k + 1).drop_last() =~= digits.take(k));
    assert(digits.take(k + 1).last() == digits[k]);
}

proof fn lemma_hexadecimal_grows(digits: Seq<u8>, k: int)
    requires
        0 <= k <= digits.len(),
    ensures
        hexadecimal(digits.take(k)) <= hexadecimal(digits),
    decreases digits.len() - k,
{
    if k == digits.len() {
        assert(digits.take(k) =~= digits);
    } else {
        lemma_hexadecimal_grows(digits, k + 1);
        lemma_hexadecimal_push(digits, k);
    }
}

proof fn lemma_hex_overflow(digits: Seq<u8>, k: int)
    requires
        0 <= k < digits.len(),
        forall|i: int| 0 <= i <= k ==> hex_digit(#[trigger] digits[i]) is Some,
        hexadecimal(digits.take(k + 1)) > u32::MAX,
    ensures
        hexadecimal(digits.take(hex_run(digits))) > u32::MAX,
{
    lemma_hex_run_step(digits, k + 1);
    lemma_hex_run_bounds(digits);
    let head = digits.take(hex_run(digits));
    assert(head.take(k + 1) =~= digits.take(k + 1));
    lemma_hexadecimal_grows(head, k + 1);
}

/// Reads a 32-bit number written in hexadecimal.
pub fn parse_hex_u32(text: &[u8]) -> (number: Result<u32, IntParseError>)
    ensures
        number == hex_u32_of(text@),
{
    if text.len() == 0 {
        return Err(IntParseError::Empty);
    }
    let first: usize = if text[0] == 43 {
        1
    } else {
        0
    };
    let ghost digits = without_plus(text@);
    assert(text@.skip(0) =~= text@);
    if first == text.len() {
        return Err(IntParseError::InvalidDigit);
    }
    let mut value: u32 = 0;
    let mut i: usize = first;
    while i < text.len()
        invariant
            first <= i <= text@.len(),
            first < text@.len(),
            digits == text@.skip(first as int),
            digits == without_plus(text@),
            value == hexadecimal(digits.take(i - first)),
            forall|k: int| 0 <= k < i - first ==> hex_digit(#[trigger] digits[k]) is Some,
        decreases text@.len() - i,
    {
        let byte = text[i];
        proof {
            assert(digits[i - first] == byte);
            lemma_hex_run_step(digits, i - first);
            lemma_hexadecimal_push(digits, i - first);
        }
        match hex_digit_value(byte) {
            Some(digit) => {
                if value > 0x0fff_ffff {
                    proof {
                        lemma_hex_overflow(digits, i - first);
                    }
                    return Err(IntParseError::PosOverflow);
                }
                value = value * 16 + digit as u32;
            },
            None => {
                return Err(IntParseError::InvalidDigit);
            },
        }
        i += 1;
    }
    proof {
        lemma_hex_run_step(digits, i - first);
        assert(digits.take(i - first) =~= digits);
    }
    Ok(value)
}

/// Whether `byte` is a white space character of one byte: a blank, or one
/// of the five from the tab (9) to the carriage return (13).
pub open spec fn is_space(byte: u8) -> bool {
    byte == 32 || (9 <= byte <= 13)
}

/// Whether two bytes are a white space character in UTF-8: the next line
/// (U+0085) or the blank that does not break (U+00A0).
pub open spec fn is_space_of_two(first: u8, second: u8) -> bool {
    first == 0xc2 && (second == 0x85 || second == 0xa0)
}

/// Whether three bytes are a white space character in UTF-8: U+1680, one
/// of U+2000 to U+200A, U+2028, U+2029, U+202F, U+205F or U+3000.
pub open spec fn is_space_of_three(first: u8, second: u8, third: u8) -> bool {
    ||| first == 0xe1 && second == 0x9a && third == 0x80
    ||| first == 0xe2 && second == 0x80 && (0x80 <= third <= 0x8a || third == 0xa8 || third
        == 0xa9 || third == 0xaf)
    ||| first == 0xe2 && second == 0x81 && third == 0x9f
    ||| first == 0xe3 && second == 0x80 && third == 0x80
}

/// How many bytes the white space character takes that `text` ends with;
/// 0 where it ends with none.
pub open spec fn space_at_end(text: Seq<u8>) -> int {
    let n = text.len() as int;
    if n >= 1 && is_space(text[n - 1]) {
        1
    } else if n >= 2 && is_space_of_two(text[n - 2], text[n - 1]) {
        2
    } else if n >= 3 && is_space_of_three(text[n - 3], text[n - 2], text[n - 1]) {
        3
    } else {
        0
    }
}

/// How many bytes the white space character takes that `text` starts with;
/// 0 where it starts with none.
pub open spec fn space_at_start(text: Seq<u8>) -> int {
    let n = text.len() as int;
    if n >= 1 && is_space(text[0]) {
        1
    } else if n >= 2 && is_space_of_two(text[0], text[1]) {
        2
    } else if n >= 3 && is_space_of_three(text[0], text[1], text[2]) {
        3
    } else {
        0
    }
}

/// `text` without the white space at its end.
pub open spec fn trim_end(text: Seq<u8>) -> Seq<u8>
    decreases text.len(),
{
    if space_at_end(text) > 0 {
        trim_end(text.take(text.len() - space_at_end(text)))
    } else {
        text
    }
}

/// `text` without the white space at its start.
pub open spec fn trim_start(text: Seq<u8>) -> Seq<u8>
    decreases text.len(),
{
    if space_at_start(text) > 0 {
        trim_start(text.skip(space_at_start(text)))
    } else {
        text
    }
}

/// `text` without the white space at both ends. White space is what
/// Unicode calls so, as UTF-8 writes it.
pub open spec fn trimmed(text: Seq<u8>) -> Seq<u8> {
    trim_start(trim_end(text))
}

fn space(byte: u8) -> (b: bool)
    ensures
        b == is_space(byte),
{
    byte == 32 || (9 <= byte && byte <= 13)
}

fn space_of_two(first: u8, second: u8) -> (b: bool)
    ensures
        b == is_space_of_two(first, second),
{
    first == 0xc2 && (second == 0x85 || second == 0xa0)
}

fn space_of_three(first: u8, second: u8, third: u8) -> (b: bool)
    ensures
        b == is_space_of_three(first, second, third),
{
    (first == 0xe1 && second == 0x9a && third == 0x80) || (first == 0xe2 && second == 0x80 && ((
    0x80 <= third && third <= 0x8a) || third == 0xa8 || third == 0xa9 || third == 0xaf)) || (first
        == 0xe2 && second == 0x81 && third == 0x9f) || (first == 0xe3 && second == 0x80 && third
        == 0x80)
}

fn space_before(text: &[u8], hi: usize) -> (k: usize)
    requires
        hi <= text@.len(),
    ensures
        k == space_at_end(text@.take(hi as int)),
        k <= hi,
{
    if hi >= 1 && space(text[hi - 1]) {
        1
    } else if hi >= 2 && space_of_two(text[hi - 2], text[hi - 1]) {
        2
    } else if hi >= 3 && space_of_three(text[hi - 3], text[hi - 2], text[hi - 1]) {
        3
    } else {
        0
    }
}

fn space_from(text: &[u8], lo: usize, hi: usize) -> (k: usize)
    requires
        lo <= hi <= text@.len(),
    ensures
        k == space_at_start(text@.subrange(lo as int, hi as int)),
        k <= hi - lo,
{
    if hi - lo >= 1 && space(text[lo]) {
        1
    } else if hi - lo >= 2 && space_of_two(text[lo], text[lo + 1]) {
        2
    } else if hi - lo >= 3 && space_of_three(text[lo], text[lo + 1], text[lo + 2]) {
        3
    } else {
        0
    }
}

/// Finds where `text` without the white space at both ends starts and ends.
pub fn trim_bounds(text: &[u8]) -> (bounds: (usize, usize))
    ensures
        bounds.0 <= bounds.1 <= text@.len(),
        trimmed(text@) == text@.subrange(bounds.0 as int, bounds.1 as int),
{
    let mut hi: usize = text.len();
    assert(text@.take(hi as int) =~= text@);
    let mut k = space_before(text, hi);
    while k > 0
        invariant
            k <= hi <= text@.len(),
            k == space_at_end(text@.take(hi as int)),
            trim_end(text@) == trim_end(text@.take(hi as int)),
        decreases hi,
    {
        assert(text@.take(hi as int).take(hi - k) =~= text@.take(hi - k));
        hi -= k;
        k = space_before(text, hi);
    }
    let ghost kept = text@.take(hi as int);
    assert(trim_end(text@) == kept);
    let mut lo: usize = 0;
    assert(kept =~= text@.subrange(0, hi as int));
    let mut k = space_from(text, lo, hi);
    while k > 0
        invariant
            lo <= hi <= text@.len(),
            k <= hi - lo,
            k == space_at_start(text@.subrange(lo as int, hi as int)),
            trim_start(kept) == trim_start(text@.subrange(lo as int, hi as int)),
        decreases hi - lo,
    {
        assert(text@.subrange(lo as int, hi as int).skip(k as int) =~= text@.subrange(
            lo + k,
            hi as int,
        ));
        lo += k;
        k = space_from(text, lo, hi);
    }
    (lo, hi)
}

/// Whether two texts are the same, byte by byte.
pub fn same_bytes(one: &[u8], other: &[u8]) -> (same: bool)
    ensures
        same == (one@ == other@),
{
    if one.len() != other.len() {
        return false;
    }
    let mut i: usize = 0;
    while i < one.len()
        invariant
            one@.len() == other@.len(),
            i <= one@.len(),
            forall|k: int| 0 <= k < i ==> one@[k] == other@[k],
        decreases one@.len() - i,
    {
        if one[i] != other[i] {
            return false;
        }
        i += 1;
    }
    assert(one@ =~= other@);
    true
}

/// Whether two texts are the same, character by character.
pub fn same_text(one: &str, other: &str) -> (same: bool)
    ensures
        same == (one@ == other@),
{
    proof {
        encode_utf8_decode_utf8(one@);
        encode_utf8_decode_utf8(other@);
    }
    same_bytes(one.as_bytes(), other.as_bytes())
}

/// The index that `text` spells: decimal digits, with or without a `+` in
/// front, that stand for no more than a `usize` holds. `None` for any other
/// text.
pub open spec fn index_of(text: Seq<u8>) -> Option<usize> {
    let digits = without_plus(text);
    if digits.len() > 0 && all_digits(digits) && decimal(digits) <= usize::MAX {
        Some(decimal(digits) as usize)
    } else {
        None
    }
}

proof fn lemma_decimal_push(digits: Seq<u8>, k: int)
    requires
        0 <= k < digits.len(),
    ensures
        decimal(digits.take(k + 1)) == decimal(digits.take(k)) * 10 + (digits[k] - 48) as nat,
{
    assert(digits.take(k + 1).drop_last() =~= digits.take(k));
    assert(digits.take(k + 1).last() == digits[k]);
}

proof fn lemma_decimal_grows(digits: Seq<u8>, k: int)
    requires
        0 <= k <= digits.len(),
        all_digits(digits),
    ensures
        decimal(digits.take(k)) <= decimal(digits),
    decreases digits.len() - k,
{
    if k == digits.len() {
        assert(digits.take(k) =~= digits);
    } else {
        lemma_decimal_grows(digits, k + 1);
        lemma_decimal_push(digits, k);
    }
}

/// Reads an index written in decimal.
pub fn parse_index(text: &[u8]) -> (index: Option<usize>)
    ensures
        index == index_of(text@),
{
    let first: usize = if text.len() > 0 && text[0] == 43 {
        1
    } else {
        0
    };
    let ghost digits = without_plus(text@);
    assert(text@.skip(0) =~= text@);
    if first == text.len() {
        return None;
    }
    let mut value: usize = 0;
    let mut i: usize = first;
    while i < text.len()
        invariant
            first <= i <= text@.len(),
            digits == text@.skip(first as int),
            digits == without_plus(text@),
            value == decimal(digits.take(i - first)),
            forall|k: int| 0 <= k < i - first ==> is_digit(#[trigger] digits[k]),
        decreases text@.len() - i,
    {
        let byte = text[i];
        proof {
            assert(digits[i - first] == byte);
            lemma_decimal_push(digits, i - first);
        }
        if byte < 48 || byte > 57 {
            assert(!is_digit(digits[i - first]));
            return None;
        }
        let grown = match value.checked_mul(10) {
            Some(tens) => tens.checked_add((byte - 48) as usize),
            None => None,
        };
        match grown {
            Some(next) => {
                value = next;
            },
            None => {
                proof {
                    if all_digits(digits) {
                        lemma_decimal_grows(digits, i - first + 1);
                    }
                }
                return None;
            },
        }
        i += 1;
    }
    assert(digits.take(i - first) =~= digits);
    Some(value)
}

} // verus!
