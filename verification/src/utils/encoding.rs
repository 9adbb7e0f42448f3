//! Hexadecimal text and little-endian words.

use crate::vm::memory::{bytes_of_word, word_of_bytes};
use vstd::prelude::*;
use vstd::string::StringExecFns;
use vstd::utf8::{encode_utf8, is_ascii_chars, is_ascii_chars_encode_utf8};

verus! {

/// Why a text is not the hexadecimal form of a byte string.
#[derive(Debug, Clone, Copy, PartialEq, Eq, Structural)]
pub enum HexError {
    /// The text has an odd number of bytes.
    OddLength,
    /// A two-byte chunk of the text is not text by itself: it splits a
    /// character that takes more than one byte.
    InvalidUtf8,
    /// A two-byte chunk holds something else than two hexadecimal digits.
    InvalidCharacter,
}

impl HexError {
    /// A short human-readable description of the error.
    pub fn message(&self) -> (text: &'static str)
        ensures
            text@ == match *self {
                HexError::OddLength => "Hex string must have even length"@,
                HexError::InvalidUtf8 => "Invalid UTF-8"@,
                HexError::InvalidCharacter => "Invalid hex character"@,
            },
    {
        match self {
            HexError::OddLength => "Hex string must have even length",
            HexError::InvalidUtf8 => "Invalid UTF-8",
            HexError::InvalidCharacter => "Invalid hex character",
        }
    }
}

/// The lowercase hexadecimal digit for a number below 16.
pub open spec fn hex_digit(n: u8) -> char
    recommends
        n < 16,
{
    if n == 0 {
        '0'
    } else if n == 1 {
        '1'
    } else if n == 2 {
        '2'
    } else if n == 3 {
        '3'
    } else if n == 4 {
        '4'
    } else if n == 5 {
        '5'
    } else if n == 6 {
        '6'
    } else if n == 7 {
        '7'
    } else if n == 8 {
        '8'
    } else if n == 9 {
        '9'
    } else if n == 10 {
        'a'
    } else if n == 11 {
        'b'
    } else if n == 12 {
        'c'
    } else if n == 13 {
        'd'
    } else if n == 14 {
        'e'
    } else {
        'f'
    }
}

/// The hexadecimal form of a byte string: two lowercase digits for each
/// byte, the high one first.
pub open spec fn hex_encoding(data: Seq<u8>) -> Seq<char> {
    Seq::new(
        2 * data.len(),
        |i: int|
            if i % 2 == 0 {
                hex_digit(data[i / 2] / 16)
            } else {
                hex_digit(data[i / 2] % 16)
            },
    )
}

/// The value of a byte read as a hexadecimal digit of either case.
pub open spec fn hex_value(byte: u8) -> Option<u8> {
    if 0x30 <= byte <= 0x39 {
        Some((byte - 0x30) as u8)
    } else if 0x61 <= byte <= 0x66 {
        Some((byte - 0x61 + 10) as u8)
    } else if 0x41 <= byte <= 0x46 {
        Some((byte - 0x41 + 10) as u8)
    } else {
        None
    }
}

/// Whether two bytes are text by themselves: two one-byte characters, or
/// one character of two bytes.
pub open spec fn chunk_is_text(first: u8, second: u8) -> bool {
    (first < 0x80 && second < 0x80) || (0xC2 <= first <= 0xDF && 0x80 <= second <= 0xBF)
}

/// The byte that a chunk of two bytes stands for.
pub open spec fn chunk_value(first: u8, second: u8) -> Result<u8, HexError> {
    if !chunk_is_text(first, second) {
        Err(HexError::InvalidUtf8)
    } else {
        match (hex_value(first), hex_value(second)) {
            (Some(high), Some(low)) => Ok((high * 16 + low) as u8),
            _ => Err(HexError::InvalidCharacter),
        }
    }
}

/// The bytes that consecutive two-byte chunks stand for, or the error of
/// the first chunk that stands for none.
pub open spec fn chunk_values(bytes: Seq<u8>) -> Result<Seq<u8>, HexError>
    decreases bytes.len(),
{
    if bytes.len() < 2 {
        Ok(Seq::empty())
    } else {
        match chunk_value(bytes[0], bytes[1]) {
            Err(e) => Err(e),
            Ok(value) => match chunk_values(bytes.skip(2)) {
                Err(e) => Err(e),
                Ok(rest) => Ok(seq![value] + rest),
            },
        }
    }
}

/// The byte string that a text, given by its bytes, is the hexadecimal
/// form of.
pub open spec fn hex_decoding_of_bytes(bytes: Seq<u8>) -> Result<Seq<u8>, HexError> {
    if bytes.len() % 2 != 0 {
        Err(HexError::OddLength)
    } else {
        chunk_values(bytes)
    }
}

/// The byte string that a text is the hexadecimal form of. The text is
/// read two bytes at a time.
pub open spec fn hex_decoding(text: Seq<char>) -> Result<Seq<u8>, HexError> {
    hex_decoding_of_bytes(encode_utf8(text))
}

/// The digit for a number below 16, as text.
fn hex_digit_text(n: u8) -> (text: &'static str)
    requires
        n < 16,
    ensures
        text@ == seq![hex_digit(n)],
{
    proof {
        reveal_strlit("0");
        reveal_strlit("1");
        reveal_strlit("2");
        reveal_strlit("3");
        reveal_strlit("4");
        reveal_strlit("5");
        reveal_strlit("6");
        reveal_strlit("7");
        reveal_strlit("8");
        reveal_strlit("9");
        reveal_strlit("a");
        reveal_strlit("b");
        reveal_strlit("c");
        reveal_strlit("d");
        reveal_strlit("e");
        reveal_strlit("f");
    }
    let text = if n == 0 {
        "0"
    } else if n == 1 {
        "1"
    } else if n == 2 {
        "2"
    } else if n == 3 {
        "3"
    } else if n == 4 {
        "4"
    } else if n == 5 {
        "5"
    } else if n == 6 {
        "6"
    } else if n == 7 {
        "7"
    } else if n == 8 {
        "8"
    } else if n == 9 {
        "9"
    } else if n == 10 {
        "a"
    } else if n == 11 {
        "b"
    } else if n == 12 {
        "c"
    } else if n == 13 {
        "d"
    } else if n == 14 {
        "e"
    } else {
        "f"
    };
    assert(text@ =~= seq![hex_digit(n)]);
    text
}

/// Writes `data` as lowercase hexadecimal text, two digits for each byte.
pub fn encode_hex(data: &[u8]) -> (text: String)
    ensures
        text@ == hex_encoding(data@),
        text@.len() == 2 * data@.len(),
{
    let mut text = String::new();
    let mut i: usize = 0;
    while i < data.len()
        invariant
            i <= data@.len(),
            text@ == hex_encoding(data@.take(i as int)),
        decreases data@.len() - i,
    {
        let byte = data[i];
        let ghost before = text@;
        text.append(hex_digit_text(byte / 16));
        text.append(hex_digit_text(byte % 16));
        assert(text@ =~= hex_encoding(data@.take(i as int + 1))) by {
            assert(text@ == before + seq![hex_digit(byte / 16)] + seq![hex_digit(byte % 16)]);
            assert(data@.take(i as int + 1) =~= data@.take(i as int).push(byte));
        }
        i += 1;
    }
    assert(data@.take(i as int) =~= data@);
    text
}

/// The value of a byte read as a hexadecimal digit.
fn hex_digit_value(byte: u8) -> (value: Option<u8>)
    ensures
        value == hex_value(byte),
        value matches Some(v) ==> v < 16,
{
    if 0x30 <= byte && byte <= 0x39 {
        Some(byte - 0x30)
    } else if 0x61 <= byte && byte <= 0x66 {
        Some(byte - 0x61 + 10)
    } else if 0x41 <= byte && byte <= 0x46 {
        Some(byte - 0x41 + 10)
    } else {
        None
    }
}

/// Reads hexadecimal text back into bytes. Digits of either case are
/// accepted; a text of odd length, or one that holds anything but
/// hexadecimal digits, is rejected.
pub fn decode_hex(hex_str: &str) -> (decoded: Result<Vec<u8>, HexError>)
    ensures
        match decoded {
            Ok(bytes) => hex_decoding(hex_str@) == Ok::<Seq<u8>, HexError>(bytes@),
            Err(e) => hex_decoding(hex_str@) == Err::<Seq<u8>, HexError>(e),
        },
{
    let bytes = hex_str.as_bytes();
    if bytes.len() % 2 != 0 {
        return Err(HexError::OddLength);
    }
    let mut result: Vec<u8> = Vec::new();
    let mut i: usize = 0;
    assert(bytes@.skip(0) =~= bytes@);
    while i < bytes.len()
        invariant
            i <= bytes@.len(),
            i % 2 == 0,
            bytes@.len() % 2 == 0,
            bytes@ == encode_utf8(hex_str@),
            chunk_values(bytes@) == match chunk_values(bytes@.skip(i as int)) {
                Ok(rest) => Ok::<Seq<u8>, HexError>(result@ + rest),
                Err(e) => Err(e),
            },
        decreases bytes@.len() - i,
    {
        let first = bytes[i];
        let second = bytes[i + 1];
        let ghost tail = bytes@.skip(i as int);
        assert(tail[0] == first && tail[1] == second);
        assert(tail.skip(2) =~= bytes@.skip(i as int + 2));
        let both_plain = first < 0x80 && second < 0x80;
        let one_wide = 0xC2 <= first && first <= 0xDF && 0x80 <= second && second <= 0xBF;
        if !(both_plain || one_wide) {
            return Err(HexError::InvalidUtf8);
        }
        let value = match (hex_digit_value(first), hex_digit_value(second)) {
            (Some(high), Some(low)) => high * 16 + low,
            _ => {
                return Err(HexError::InvalidCharacter);
            },
        };
        proof {
            let rest = chunk_values(tail.skip(2));
            if let Ok(r) = rest {
                assert(result@.push(value) + r =~= result@ + (seq![value] + r));
            }
        }
        result.push(value);
        i += 2;
    }
    assert(result@ + Seq::<u8>::empty() =~= result@);
    Ok(result)
}

/// The word whose little-endian bytes are the first four of `bytes`,
/// with zeros for those that are missing.
pub open spec fn word_of_prefix(bytes: Seq<u8>) -> u32 {
    word_of_bytes(
        if bytes.len() > 0 { bytes[0] } else { 0 },
        if bytes.len() > 1 { bytes[1] } else { 0 },
        if bytes.len() > 2 { bytes[2] } else { 0 },
        if bytes.len() > 3 { bytes[3] } else { 0 },
    )
}

/// Reads up to four bytes as a little-endian word.
pub fn bytes_to_u32_le(bytes: &[u8]) -> (word: u32)
    ensures
        word == word_of_prefix(bytes@),
{
    let b0: u8 = if bytes.len() > 0 { bytes[0] } else { 0 };
    let b1: u8 = if bytes.len() > 1 { bytes[1] } else { 0 };
    let b2: u8 = if bytes.len() > 2 { bytes[2] } else { 0 };
    let b3: u8 = if bytes.len() > 3 { bytes[3] } else { 0 };
    (b0 as u32) | ((b1 as u32) << 8) | ((b2 as u32) << 16) | ((b3 as u32) << 24)
}

/// The four bytes of a word, least significant first.
pub fn u32_to_bytes_le(value: u32) -> (bytes: [u8; 4])
    ensures
        bytes@ == bytes_of_word(value),
{
    let bytes: [u8; 4] = [
        (value & 0xff) as u8,
        ((value >> 8) & 0xff) as u8,
        ((value >> 16) & 0xff) as u8,
        ((value >> 24) & 0xff) as u8,
    ];
    assert(bytes@ =~= bytes_of_word(value)) by {
        assert(value >> 0u32 == value) by (bit_vector);
    }
    bytes
}

/// Every character of a hexadecimal form is a lowercase hexadecimal
/// digit.
pub open spec fn is_lower_hex(c: char) -> bool {
    ('0' <= c <= '9') || ('a' <= c <= 'f')
}

/// The hexadecimal form of a byte string has two characters for each
/// byte, all of them lowercase digits, and reading it back gives the byte
/// string.
pub proof fn lemma_hex_round_trip(data: Seq<u8>)
    ensures
        hex_encoding(data).len() == 2 * data.len(),
        forall|i: int| 0 <= i < hex_encoding(data).len() ==> is_lower_hex(hex_encoding(data)[i]),
        hex_decoding(hex_encoding(data)) == Ok::<Seq<u8>, HexError>(data),
    decreases data.len(),
{
    let text = hex_encoding(data);
    assert forall|i: int| 0 <= i < text.len() implies is_lower_hex(text[i]) by {}
    assert(is_ascii_chars(text));
    is_ascii_chars_encode_utf8(text);
    let bytes = encode_utf8(text);
    if data.len() > 0 {
        let rest = data.skip(1);
        lemma_hex_round_trip(rest);
        let rest_text = hex_encoding(rest);
        assert(is_ascii_chars(rest_text)) by {
            assert forall|i: int| 0 <= i < rest_text.len() implies is_lower_hex(rest_text[i]) by {}
        }
        is_ascii_chars_encode_utf8(rest_text);
        assert(bytes.skip(2) =~= encode_utf8(rest_text)) by {
            assert forall|i: int| 0 <= i < rest_text.len() implies bytes.skip(2)[i] == encode_utf8(
                rest_text,
            )[i] by {
                assert(text[i + 2] == rest_text[i]);
            }
        }
        assert(bytes[0] == text[0] as u8);
        assert(bytes[1] == text[1] as u8);
        lemma_hex_digit_value(data[0] / 16);
        lemma_hex_digit_value(data[0] % 16);
        assert(chunk_value(bytes[0], bytes[1]) == Ok::<u8, HexError>(data[0]));
        assert(seq![data[0]] + rest =~= data);
        assert(chunk_values(bytes.skip(2)) == Ok::<Seq<u8>, HexError>(rest));
        assert(bytes.len() == 2 * data.len());
    } else {
        assert(data =~= Seq::<u8>::empty());
    }
}

/// A hexadecimal digit, as a byte, has the value it was made from.
pub proof fn lemma_hex_digit_value(n: u8)
    requires
        n < 16,
    ensures
        hex_value(hex_digit(n) as u8) == Some(n),
        (hex_digit(n) as u8) < 0x80,
{
}

/// Splitting a word into bytes and reading them back gives the word.
pub proof fn lemma_word_round_trip(value: u32)
    ensures
        word_of_prefix(bytes_of_word(value)) == value,
{
    crate::vm::memory::lemma_word_of_its_bytes(value);
}

} // verus!
