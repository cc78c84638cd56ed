//! Hexadecimal text for byte strings, through the `hex` crate.
use vstd::prelude::*;
use crate::text::dec_digits;

verus! {

/// The upper-case hex digit of a nibble.
pub open spec fn hex_digit_upper(v: int) -> char {
    if v < 10 {
        (48 + v) as char
    } else {
        (55 + v) as char
    }
}

/// Upper-case hexadecimal text of a byte string: two digits per byte, high nibble first.
pub open spec fn hex_upper(bytes: Seq<u8>) -> Seq<char>
    decreases bytes.len(),
{
    if bytes.len() == 0 {
        Seq::empty()
    } else {
        seq![hex_digit_upper(bytes[0] as int / 16), hex_digit_upper(bytes[0] as int % 16)] + hex_upper(
            bytes.drop_first(),
        )
    }
}

/// Whether `c` is a hexadecimal digit of either case.
pub open spec fn is_hex_char(c: char) -> bool {
    ('0' <= c && c <= '9') || ('A' <= c && c <= 'F') || ('a' <= c && c <= 'f')
}

/// Value of a hexadecimal digit.
pub open spec fn hex_char_value(c: char) -> int {
    if '0' <= c && c <= '9' {
        c as int - 48
    } else if 'A' <= c && c <= 'F' {
        c as int - 55
    } else {
        c as int - 87
    }
}

/// Decoding of hexadecimal text: `None` when the number of digits is odd or a character
/// is not a hex digit, else one byte per pair of digits.
pub open spec fn hex_decode(s: Seq<char>) -> Option<Seq<u8>>
    decreases s.len(),
{
    if s.len() % 2 != 0 {
        None
    } else if s.len() == 0 {
        Some(Seq::empty())
    } else if !is_hex_char(s[0]) || !is_hex_char(s[1]) {
        None
    } else {
        match hex_decode(s.subrange(2, s.len() as int)) {
            Some(rest) => Some(
                seq![(hex_char_value(s[0]) * 16 + hex_char_value(s[1])) as u8] + rest,
            ),
            None => None,
        }
    }
}

/// `hex::encode_upper`: the upper-case hex text of `bytes`, two digits per byte.
#[verifier::external_body]
pub fn encode_upper(bytes: &[u8]) -> (res: String)
    ensures
        res@ == hex_upper(bytes@),
{
    hex::encode_upper(bytes)
}

/// Why a hexadecimal text could not be decoded, variant for variant as `hex::FromHexError`.
#[derive(Debug, Clone, Copy, PartialEq, Eq, Structural)]
pub enum HexFault {
    /// A byte that is not a hex digit, taken as a character, and its position.
    InvalidHexCharacter { c: char, index: usize },
    /// An odd number of bytes.
    OddLength,
    /// A length that does not fit a fixed-size output.
    InvalidStringLength,
}

/// Whether a byte is an ASCII hex digit of either case.
pub open spec fn is_hex_byte(b: u8) -> bool {
    (0x30 <= b <= 0x39) || (0x41 <= b <= 0x46) || (0x61 <= b <= 0x66)
}

/// The position of the first byte from `i` on that is not a hex digit; the length when there
/// is none.
pub open spec fn first_non_hex(b: Seq<u8>, i: int) -> int
    decreases b.len() - i,
{
    if i < 0 || i >= b.len() {
        b.len() as int
    } else if !is_hex_byte(b[i]) {
        i
    } else {
        first_non_hex(b, i + 1)
    }
}

/// The fault for the bytes `b` of a text that does not decode: an odd length first, else the
/// first byte that is not a hex digit, taken as a character, with its position.
pub open spec fn hex_fault_of(b: Seq<u8>) -> HexFault {
    if b.len() % 2 != 0 {
        HexFault::OddLength
    } else {
        let k = first_non_hex(b, 0);
        HexFault::InvalidHexCharacter { c: (if 0 <= k < b.len() { b[k] } else { 0u8 }) as char, index: k as usize }
    }
}

/// `hex::decode`: the bytes that `s` spells, or, when `s` has an odd number of bytes or a byte
/// that is not a hex digit of either case, the error that its source gives for them
/// (`hex_fault_of` of the UTF-8 bytes of `s`).
#[verifier::external_body]
pub(crate) fn decode_hex(s: &str) -> (res: Result<Vec<u8>, HexFault>)
    ensures
        match res {
            Ok(v) => hex_decode(s@) == Some(v@),
            Err(f) => hex_decode(s@) is None && f == hex_fault_of(vstd::utf8::encode_utf8(s@)),
        },
{
    match hex::decode(s) {
        Ok(v) => Ok(v),
        Err(hex::FromHexError::InvalidHexCharacter { c, index }) => Err(HexFault::InvalidHexCharacter { c, index }),
        Err(hex::FromHexError::OddLength) => Err(HexFault::OddLength),
        Err(hex::FromHexError::InvalidStringLength) => Err(HexFault::InvalidStringLength),
    }
}

/// The `Debug` spelling of a character, quotes included (as `{:?}` writes it).
pub uninterp spec fn char_debug(c: char) -> Seq<char>;

/// Whether a character is printable ASCII other than the quote and the backslash, which
/// `{:?}` writes as itself.
pub open spec fn plain_ascii(c: char) -> bool {
    ' ' <= c <= '~' && c != '\'' && c != '\\'
}

/// The `Display` text of a fault (that of `hex::FromHexError`).
pub open spec fn fault_message(f: HexFault) -> Seq<char> {
    match f {
        HexFault::InvalidHexCharacter { c, index } => "Invalid character "@ + char_debug(c) + " at position "@
            + dec_digits(index as nat),
        HexFault::OddLength => "Odd number of digits"@,
        HexFault::InvalidStringLength => "Invalid string length"@,
    }
}

/// The `Display` text of the `hex::FromHexError` that `f` stands for (`fault_message`); for
/// printable ASCII other than the quote and the backslash the character is written between
/// single quotes. What `{:?}` writes for other characters is left to `char_debug`.
#[verifier::external_body]
pub(crate) fn hex_fault_text(f: HexFault) -> (res: String)
    ensures
        res@ == fault_message(f),
        f matches HexFault::InvalidHexCharacter { c, index } ==> res@ == "Invalid character "@ + char_debug(c)
            + " at position "@ + dec_digits(index as nat),
        f matches HexFault::InvalidHexCharacter { c, index } ==> (plain_ascii(c) ==> res@ == "Invalid character '"@
            + seq![c] + "' at position "@ + dec_digits(index as nat)),
{
    let e = match f {
        HexFault::InvalidHexCharacter { c, index } => hex::FromHexError::InvalidHexCharacter { c, index },
        HexFault::OddLength => hex::FromHexError::OddLength,
        HexFault::InvalidStringLength => hex::FromHexError::InvalidStringLength,
    };
    e.to_string()
}

/// The bytes that `s` spells in hexadecimal, or `None` when it is not valid hex.
pub fn decode(s: &str) -> (res: Option<Vec<u8>>)
    ensures
        match res {
            Some(v) => hex_decode(s@) == Some(v@),
            None => hex_decode(s@) is None,
        },
{
    match decode_hex(s) {
        Ok(v) => Some(v),
        Err(_) => None,
    }
}

pub proof fn lemma_hex_upper_len(bytes: Seq<u8>)
    ensures
        hex_upper(bytes).len() == 2 * bytes.len(),
    decreases bytes.len(),
{
    if bytes.len() > 0 {
        lemma_hex_upper_len(bytes.drop_first());
    }
}

pub proof fn lemma_hex_upper_append(a: Seq<u8>, b: Seq<u8>)
    ensures
        hex_upper(a + b) == hex_upper(a) + hex_upper(b),
    decreases a.len(),
{
    if a.len() == 0 {
        assert(a + b =~= b);
        assert(hex_upper(a) + hex_upper(b) =~= hex_upper(b));
    } else {
        assert((a + b).drop_first() =~= a.drop_first() + b);
        lemma_hex_upper_append(a.drop_first(), b);
        assert(hex_upper(a + b) =~= hex_upper(a) + hex_upper(b));
    }
}

/// Decoding the upper-case hex text of a byte string gives the byte string back.
pub proof fn lemma_hex_decode_encode(bytes: Seq<u8>)
    ensures
        hex_decode(hex_upper(bytes)) == Some(bytes),
    decreases bytes.len(),
{
    lemma_hex_upper_len(bytes);
    if bytes.len() > 0 {
        let s = hex_upper(bytes);
        lemma_hex_decode_encode(bytes.drop_first());
        assert(s.subrange(2, s.len() as int) =~= hex_upper(bytes.drop_first()));
        let b = bytes[0];
        assert(b / 16 < 16 && b % 16 < 16);
        assert(hex_char_value(s[0]) == b / 16);
        assert(hex_char_value(s[1]) == b % 16);
        assert((b / 16 * 16 + b % 16) as u8 == b);
        assert(seq![b] + bytes.drop_first() =~= bytes);
    }
}

/// The lower-case hex digit of a nibble.
pub open spec fn hex_digit_lower(v: int) -> char {
    if v < 10 {
        (48 + v) as char
    } else {
        (87 + v) as char
    }
}

/// Lower-case hexadecimal text of a byte string: two digits per byte, high nibble first.
pub open spec fn hex_lower(bytes: Seq<u8>) -> Seq<char>
    decreases bytes.len(),
{
    if bytes.len() == 0 {
        Seq::empty()
    } else {
        seq![hex_digit_lower(bytes[0] as int / 16), hex_digit_lower(bytes[0] as int % 16)] + hex_lower(
            bytes.drop_first(),
        )
    }
}

/// `hex::encode`: the lower-case hex text of `bytes`, two digits per byte.
#[verifier::external_body]
pub fn encode_lower(bytes: &[u8]) -> (res: String)
    ensures
        res@ == hex_lower(bytes@),
{
    hex::encode(bytes)
}

pub proof fn lemma_hex_lower_len(bytes: Seq<u8>)
    ensures
        hex_lower(bytes).len() == 2 * bytes.len(),
    decreases bytes.len(),
{
    if bytes.len() > 0 {
        lemma_hex_lower_len(bytes.drop_first());
    }
}

/// Lower-case hex text holds only hex digits.
pub proof fn lemma_hex_lower_chars(bytes: Seq<u8>)
    ensures
        forall|i: int| 0 <= i < hex_lower(bytes).len() ==> is_hex_char(#[trigger] hex_lower(bytes)[i]),
    decreases bytes.len(),
{
    lemma_hex_lower_len(bytes);
    if bytes.len() > 0 {
        lemma_hex_lower_chars(bytes.drop_first());
        let b = bytes[0];
        assert(b / 16 < 16 && b % 16 < 16);
        let h = hex_lower(bytes);
        let t = hex_lower(bytes.drop_first());
        assert forall|i: int| 0 <= i < h.len() implies is_hex_char(#[trigger] h[i]) by {
            if i >= 2 {
                assert(h[i] == t[i - 2]);
            }
        }
    }
}

/// Decoding the lower-case hex text of a byte string gives the byte string back.
pub proof fn lemma_hex_decode_encode_lower(bytes: Seq<u8>)
    ensures
        hex_decode(hex_lower(bytes)) == Some(bytes),
    decreases bytes.len(),
{
    lemma_hex_lower_len(bytes);
    if bytes.len() > 0 {
        let s = hex_lower(bytes);
        lemma_hex_decode_encode_lower(bytes.drop_first());
        assert(s.subrange(2, s.len() as int) =~= hex_lower(bytes.drop_first()));
        let b = bytes[0];
        assert(b / 16 < 16 && b % 16 < 16);
        assert(hex_char_value(s[0]) == b / 16);
        assert(hex_char_value(s[1]) == b % 16);
        assert((b / 16 * 16 + b % 16) as u8 == b);
        assert(seq![b] + bytes.drop_first() =~= bytes);
    }
}

} // verus!
