//! Bytes as hexadecimal text, by way of the `hex` crate.
use vstd::prelude::*;
use vstd::utf8::*;

verus! {

/// The lower-case hexadecimal digit for `n`.
pub open spec fn hex_digit(n: int) -> char {
    if n < 10 {
        (48 + n) as char
    } else {
        (87 + n) as char
    }
}

/// Two lower-case hexadecimal digits for each byte, the high half first.
pub open spec fn hex_text(bytes: Seq<u8>) -> Seq<char> {
    Seq::new(
        2 * bytes.len(),
        |i: int|
            if i % 2 == 0 {
                hex_digit(bytes[i / 2] as int / 16)
            } else {
                hex_digit(bytes[i / 2] as int % 16)
            },
    )
}

/// Whether the byte `b` is a hexadecimal digit of either case.
pub open spec fn is_hex_digit(b: u8) -> bool {
    48 <= b <= 57 || 65 <= b <= 70 || 97 <= b <= 102
}

/// The value of a hexadecimal digit of either case.
pub open spec fn hex_value(b: u8) -> int {
    if b <= 57 {
        b - 48
    } else if b <= 70 {
        b - 55
    } else {
        b - 87
    }
}

/// The bytes that pairs of hexadecimal digits stand for.
pub open spec fn hex_bytes(digits: Seq<u8>) -> Seq<u8> {
    Seq::new(
        digits.len() / 2,
        |i: int| (16 * hex_value(digits[2 * i]) + hex_value(digits[2 * i + 1])) as u8,
    )
}

/// The index of the first byte from `i` on that is no hexadecimal digit, or the length.
pub open spec fn first_non_digit(digits: Seq<u8>, i: int) -> int
    decreases digits.len() - i,
{
    if i >= digits.len() || !is_hex_digit(digits[i]) {
        i
    } else {
        first_non_digit(digits, i + 1)
    }
}

/// Why a text is not hexadecimal.
#[derive(Debug, Clone, Copy, PartialEq, Eq, Structural)]
pub enum HexError {
    /// A byte is no hexadecimal digit: the byte as a character, and its index.
    InvalidCharacter { c: char, index: usize },
    /// The number of bytes is odd.
    OddLength,
    /// The length does not fit the container.
    InvalidStringLength,
}

/// Why bytes are not hexadecimal text: their number is odd, or one of them is no digit.
pub open spec fn hex_fault(digits: Seq<u8>) -> Option<HexError> {
    let bad = first_non_digit(digits, 0);
    if digits.len() % 2 != 0 {
        Some(HexError::OddLength)
    } else if bad < digits.len() {
        Some(HexError::InvalidCharacter { c: digits[bad] as char, index: bad as usize })
    } else {
        None
    }
}

/// What `{:?}` writes for a character: the character in single quotes, escaped where needed.
pub uninterp spec fn char_debug_text(c: char) -> Seq<char>;

/// What a hexadecimal fault reads like.
pub open spec fn hex_error_text(e: HexError) -> Seq<char> {
    match e {
        HexError::InvalidCharacter { c, index } => "Invalid character "@ + char_debug_text(c)
            + " at position "@ + crate::text::decimal_text(index as nat),
        HexError::OddLength => "Odd number of digits"@,
        HexError::InvalidStringLength => "Invalid string length"@,
    }
}

/// Writes bytes as hexadecimal text.
///
/// Calls `hex::encode`, trusted to write two lower-case digits for each byte, in order.
#[verifier::external_body]
pub(crate) fn encode(bytes: &[u8]) -> (s: String)
    ensures
        s@ == hex_text(bytes@),
{
    hex::encode(bytes)
}

/// Reads bytes from hexadecimal text.
///
/// Calls `hex::decode`, trusted to refuse an odd number of bytes, then the first byte that is no
/// digit, and else to return one byte for each pair of digits.
#[verifier::external_body]
pub(crate) fn decode(s: &str) -> (r: Result<Vec<u8>, HexError>)
    ensures
        match r {
            Ok(bytes) => hex_fault(encode_utf8(s@)) is None && bytes@ == hex_bytes(encode_utf8(s@)),
            Err(e) => hex_fault(encode_utf8(s@)) == Some(e),
        },
{
    hex::decode(s).map_err(
        |e| match e {
            hex::FromHexError::InvalidHexCharacter { c, index } => {
                HexError::InvalidCharacter { c, index }
            },
            hex::FromHexError::OddLength => HexError::OddLength,
            hex::FromHexError::InvalidStringLength => HexError::InvalidStringLength,
        },
    )
}

/// The text of a hexadecimal fault.
///
/// Calls `to_string` of `hex::FromHexError`, trusted to write the texts of `hex_error_text`.
#[verifier::external_body]
pub(crate) fn error_text(e: HexError) -> (s: String)
    ensures
        s@ == hex_error_text(e),
        e matches HexError::InvalidCharacter { c, index } ==> s@ == "Invalid character "@
            + char_debug_text(c) + " at position "@ + crate::text::decimal_text(index as nat),
{
    let e = match e {
        HexError::InvalidCharacter { c, index } => {
            hex::FromHexError::InvalidHexCharacter { c, index }
        },
        HexError::OddLength => hex::FromHexError::OddLength,
        HexError::InvalidStringLength => hex::FromHexError::InvalidStringLength,
    };
    e.to_string()
}

proof fn lemma_digits_of(b: u8)
    ensures
        is_hex_digit(hex_digit(b as int / 16) as u8),
        is_hex_digit(hex_digit(b as int % 16) as u8),
        hex_value(hex_digit(b as int / 16) as u8) == b as int / 16,
        hex_value(hex_digit(b as int % 16) as u8) == b as int % 16,
        '\0' <= hex_digit(b as int / 16) <= '\u{7f}',
        '\0' <= hex_digit(b as int % 16) <= '\u{7f}',
{
}

proof fn lemma_all_digits(digits: Seq<u8>, i: int)
    requires
        0 <= i <= digits.len(),
        forall|j: int| i <= j < digits.len() ==> is_hex_digit(#[trigger] digits[j]),
    ensures
        first_non_digit(digits, i) == digits.len(),
    decreases digits.len() - i,
{
    if i < digits.len() {
        lemma_all_digits(digits, i + 1);
    }
}

/// Hexadecimal text reads back as the bytes that it was written from.
pub proof fn hex_round_trips(bytes: Seq<u8>)
    ensures
        hex_fault(encode_utf8(hex_text(bytes))) is None,
        hex_bytes(encode_utf8(hex_text(bytes))) == bytes,
{
    let t = hex_text(bytes);
    assert forall|i: int| 0 <= i < t.len() implies '\0' <= #[trigger] t[i] <= '\u{7f}' by {
        lemma_digits_of(bytes[i / 2]);
    }
    is_ascii_chars_encode_utf8(t);
    let d = encode_utf8(t);
    assert forall|j: int| 0 <= j < d.len() implies is_hex_digit(#[trigger] d[j]) by {
        lemma_digits_of(bytes[j / 2]);
        assert(t[j] as u8 == d[j]);
    }
    lemma_all_digits(d, 0);
    assert forall|i: int| 0 <= i < bytes.len() implies #[trigger] hex_bytes(d)[i] == bytes[i] by {
        lemma_digits_of(bytes[i]);
        assert(t[2 * i] as u8 == d[2 * i]);
        assert(t[2 * i + 1] as u8 == d[2 * i + 1]);
    }
    assert(hex_bytes(d) =~= bytes);
}

/// Hexadecimal text has two digits for each byte.
pub proof fn hex_text_length(bytes: Seq<u8>)
    ensures
        crate::text::byte_len(hex_text(bytes)) == 2 * bytes.len(),
{
    let t = hex_text(bytes);
    assert forall|i: int| 0 <= i < t.len() implies '\0' <= #[trigger] t[i] <= '\u{7f}' by {
        lemma_digits_of(bytes[i / 2]);
    }
    is_ascii_chars_encode_utf8(t);
}

/// What `String::from_utf8_lossy` makes of bytes.
pub uninterp spec fn utf8_lossy_text(bytes: Seq<u8>) -> Seq<char>;

/// Reads bytes as UTF-8, with replacement characters for what is no valid UTF-8.
///
/// Calls `String::from_utf8_lossy`, trusted to return the text itself where the bytes are valid
/// UTF-8. What stands for invalid parts is named and not described.
#[verifier::external_body]
pub(crate) fn utf8_lossy(bytes: &[u8]) -> (s: String)
    ensures
        s@ == utf8_lossy_text(bytes@),
        valid_utf8(bytes@) ==> s@ == decode_utf8(bytes@),
{
    String::from_utf8_lossy(bytes).into_owned()
}

/// Text is hexadecimal exactly where it has an even number of bytes and each of them is a digit or a
/// letter from a to f, of either case; it then stands for half as many bytes.
pub proof fn hexadecimal_text_is_recognized(digits: Seq<u8>)
    ensures
        hex_fault(digits) is None <==> digits.len() % 2 == 0 && forall|i: int|
            0 <= i < digits.len() ==> '0' as int <= (#[trigger] digits[i]) <= '9' as int || 'a' as int
                <= digits[i] <= 'f' as int || 'A' as int <= digits[i] <= 'F' as int,
        hex_bytes(digits).len() == digits.len() / 2,
{
    lemma_first_non_digit(digits, 0);
}

proof fn lemma_first_non_digit(digits: Seq<u8>, i: int)
    requires
        0 <= i <= digits.len(),
    ensures
        i <= first_non_digit(digits, i) <= digits.len(),
        forall|j: int| i <= j < first_non_digit(digits, i) ==> is_hex_digit(#[trigger] digits[j]),
        first_non_digit(digits, i) < digits.len() ==> !is_hex_digit(
            digits[first_non_digit(digits, i)],
        ),
    decreases digits.len() - i,
{
    if i < digits.len() && is_hex_digit(digits[i]) {
        lemma_first_non_digit(digits, i + 1);
    }
}

} // verus!
