//! Byte and text helpers of the decoding layer: hexadecimal, big-endian integers, BCD dates
//! and times, GBK text.
use vstd::prelude::*;
use crate::hexfmt::{decode, encode_upper, hex_decode, hex_upper};
use crate::text::{all_digits, is_digit, push_str, to_owned_string};

verus! {

/// The bytes that a hexadecimal text spells; empty when it is not valid hexadecimal.
pub open spec fn hex_bytes(s: Seq<char>) -> Seq<u8> {
    match hex_decode(s) {
        Some(b) => b,
        None => Seq::empty(),
    }
}

/// Decodes hexadecimal text; invalid text gives no bytes.
pub fn hex_to_bytes(s: &str) -> (res: Vec<u8>)
    ensures
        res@ == hex_bytes(s@),
{
    match decode(s) {
        Some(b) => b,
        None => Vec::new(),
    }
}

/// 2 to the 64th.
pub open spec fn two64() -> int {
    0x1_0000_0000_0000_0000
}

/// The big-endian value of the bytes, modulo 2^64 (bytes beyond the eighth from the end shift
/// out).
pub open spec fn be_wrapped(s: Seq<u8>) -> nat
    decreases s.len(),
{
    if s.len() == 0 {
        0
    } else {
        ((be_wrapped(s.drop_last()) * 256 + s.last()) % two64()) as nat
    }
}

/// The big-endian value of `bytes[start..end]` (modulo 2^64); 0 when the range is empty or
/// runs past the end.
pub open spec fn be_uint_spec(bytes: Seq<u8>, start: int, end: int) -> nat {
    if start >= end || end > bytes.len() {
        0
    } else {
        be_wrapped(bytes.subrange(start, end))
    }
}

/// The big-endian integer in `bytes[start..end]`; 0 for an empty or out-of-range slice.
pub fn be_uint(bytes: &[u8], start: usize, end: usize) -> (res: u64)
    ensures
        res == be_uint_spec(bytes@, start as int, end as int),
{
    if start >= end || end > bytes.len() {
        return 0;
    }
    let mut v: u64 = 0;
    let mut i: usize = start;
    while i < end
        invariant
            start <= i <= end,
            end <= bytes@.len(),
            v == be_wrapped(bytes@.subrange(start as int, i as int)),
        decreases end - i,
    {
        let b = bytes[i];
        let ghost pre = bytes@.subrange(start as int, i as int);
        let ghost next = bytes@.subrange(start as int, i + 1);
        assert(next.drop_last() =~= pre);
        let w = (v << 8) | (b as u64);
        assert(w == ((v as int) * 256 + (b as int)) % 0x1_0000_0000_0000_0000) by (bit_vector)
            requires
                w == (v << 8) | (b as u64),
        ;
        v = w;
        i = i + 1;
    }
    v
}

/// The upper-case hexadecimal of `bytes[start..min(end, len)]`; empty when `start` is past
/// the end.
pub open spec fn hex_slice_spec(bytes: Seq<u8>, start: int, end: int) -> Seq<char> {
    if start >= bytes.len() {
        Seq::empty()
    } else {
        hex_upper(bytes.subrange(start, if end < bytes.len() { end } else { bytes.len() as int }))
    }
}

/// Hexadecimal of a slice of bytes, cut at the end of the bytes.
pub fn hex_slice(bytes: &[u8], start: usize, end: usize) -> (res: String)
    requires
        start < bytes@.len() ==> start <= end,
    ensures
        res@ == hex_slice_spec(bytes@, start as int, end as int),
{
    if start >= bytes.len() {
        return String::new();
    }
    let e = if end < bytes.len() { end } else { bytes.len() };
    encode_upper(vstd::slice::slice_subrange(bytes, start, e))
}

/// A PBOC purse balance in cents: the first 4 bytes (fewer if there are fewer) big-endian,
/// with the sign bit cleared.
pub open spec fn pboc_balance_spec(bytes: Seq<u8>) -> nat {
    be_uint_spec(bytes, 0, if bytes.len() < 4 { bytes.len() as int } else { 4 }) % 0x8000_0000
}

/// The balance of a PBOC purse, in cents.
pub fn pboc_balance_cents(bytes: &[u8]) -> (res: u64)
    ensures
        res == pboc_balance_spec(bytes@),
{
    let n = if bytes.len() < 4 { bytes.len() } else { 4 };
    be_uint(bytes, 0, n) % 0x8000_0000
}

/// What `encoding_rs::GBK.decode` makes of bytes (malformed sequences become U+FFFD).
pub uninterp spec fn gbk_decoded(bytes: Seq<u8>) -> Seq<char>;

/// `encoding_rs::GBK.decode`: the text of GBK bytes, as that crate decodes them.
#[verifier::external_body]
fn gbk_text(bytes: &[u8]) -> (res: String)
    ensures
        res@ == gbk_decoded(bytes@),
{
    let (cow, _, _) = encoding_rs::GBK.decode(bytes);
    cow.into_owned()
}

/// The padding trimmed from both ends of decoded text: NUL, U+FFFD and space.
pub open spec fn is_pad(c: char) -> bool {
    c == '\0' || c == '\u{fffd}' || c == ' '
}

/// The number of padding characters at the start of `s`.
pub open spec fn lead_pad(s: Seq<char>) -> nat
    decreases s.len(),
{
    if s.len() > 0 && is_pad(s[0]) {
        1 + lead_pad(s.drop_first())
    } else {
        0
    }
}

/// The number of padding characters at the end of `s`.
pub open spec fn trail_pad(s: Seq<char>) -> nat
    decreases s.len(),
{
    if s.len() > 0 && is_pad(s.last()) {
        1 + trail_pad(s.drop_last())
    } else {
        0
    }
}

/// `s` without padding at either end.
pub open spec fn trim_pad(s: Seq<char>) -> Seq<char> {
    let a = lead_pad(s);
    let t = s.subrange(a as int, s.len() as int);
    t.subrange(0, t.len() - trail_pad(t))
}

proof fn lemma_lead_pad(s: Seq<char>, k: int)
    requires
        0 <= k <= s.len(),
        forall|j: int| 0 <= j < k ==> is_pad(#[trigger] s[j]),
        k == s.len() || !is_pad(s[k]),
    ensures
        lead_pad(s) == k,
    decreases k,
{
    if k > 0 {
        let d = s.drop_first();
        assert forall|j: int| 0 <= j < k - 1 implies is_pad(#[trigger] d[j]) by {
            assert(d[j] == s[j + 1]);
        }
        lemma_lead_pad(d, k - 1);
    }
}

proof fn lemma_trail_pad(s: Seq<char>, k: int)
    requires
        0 <= k <= s.len(),
        forall|j: int| s.len() - k <= j < s.len() ==> is_pad(#[trigger] s[j]),
        k == s.len() || !is_pad(s[s.len() - k - 1]),
    ensures
        trail_pad(s) == k,
    decreases k,
{
    if k > 0 {
        let d = s.drop_last();
        assert forall|j: int| d.len() - (k - 1) <= j < d.len() implies is_pad(#[trigger] d[j]) by {
            assert(d[j] == s[j]);
        }
        lemma_trail_pad(d, k - 1);
    }
}

/// `s` with NUL, U+FFFD and spaces trimmed from both ends.
pub fn trim_padding(s: &str) -> (res: String)
    ensures
        res@ == trim_pad(s@),
{
    let n = s.unicode_len();
    let mut i: usize = 0;
    while i < n && (s.get_char(i) == '\0' || s.get_char(i) == '\u{fffd}' || s.get_char(i) == ' ')
        invariant
            n == s@.len(),
            i <= n,
            forall|j: int| 0 <= j < i ==> is_pad(#[trigger] s@[j]),
        decreases n - i,
    {
        i = i + 1;
    }
    proof {
        lemma_lead_pad(s@, i as int);
    }
    let t = s.substring_char(i, n);
    let m = t.unicode_len();
    let mut k: usize = 0;
    while k < m && (t.get_char(m - k - 1) == '\0' || t.get_char(m - k - 1) == '\u{fffd}' || t.get_char(m - k - 1) == ' ')
        invariant
            m == t@.len(),
            k <= m,
            forall|j: int| m - k <= j < m ==> is_pad(#[trigger] t@[j]),
        decreases m - k,
    {
        k = k + 1;
    }
    proof {
        lemma_trail_pad(t@, k as int);
    }
    to_owned_string(t.substring_char(0, m - k))
}

/// GBK text of Chinese fields, with trailing padding and invisible characters trimmed.
pub fn gbk_decode(bytes: &[u8]) -> (res: String)
    ensures
        res@ == trim_pad(gbk_decoded(bytes@)),
{
    let t = gbk_text(bytes);
    trim_padding(t.as_str())
}

/// The number of `'0'` characters at the start of `s`.
pub open spec fn lead_zeros(s: Seq<char>) -> nat
    decreases s.len(),
{
    if s.len() > 0 && s[0] == '0' {
        1 + lead_zeros(s.drop_first())
    } else {
        0
    }
}

/// `s` without its leading zeros; `"0"` when nothing else is left.
pub open spec fn trim_zeros_spec(s: Seq<char>) -> Seq<char> {
    let t = s.subrange(lead_zeros(s) as int, s.len() as int);
    if t.len() == 0 {
        seq!['0']
    } else {
        t
    }
}

proof fn lemma_lead_zeros(s: Seq<char>, k: int)
    requires
        0 <= k <= s.len(),
        forall|j: int| 0 <= j < k ==> #[trigger] s[j] == '0',
        k == s.len() || s[k] != '0',
    ensures
        lead_zeros(s) == k,
    decreases k,
{
    if k > 0 {
        let d = s.drop_first();
        assert forall|j: int| 0 <= j < k - 1 implies #[trigger] d[j] == '0' by {
            assert(d[j] == s[j + 1]);
        }
        lemma_lead_zeros(d, k - 1);
    }
}

/// Drops the leading zeros of a card number; all zeros leave one `0`.
pub fn trim_leading_zeros(s: &str) -> (res: String)
    ensures
        res@ == trim_zeros_spec(s@),
{
    let n = s.unicode_len();
    let mut i: usize = 0;
    while i < n && s.get_char(i) == '0'
        invariant
            n == s@.len(),
            i <= n,
            forall|j: int| 0 <= j < i ==> #[trigger] s@[j] == '0',
        decreases n - i,
    {
        i = i + 1;
    }
    proof {
        lemma_lead_zeros(s@, i as int);
    }
    if i == n {
        let mut z = String::new();
        push_str(&mut z, "0");
        proof {
            reveal_strlit("0");
        }
        assert(z@ =~= seq!['0']);
        return z;
    }
    to_owned_string(s.substring_char(i, n))
}

/// Non-empty and made of ASCII digits only.
pub open spec fn bcd_spec(s: Seq<char>) -> bool {
    s.len() > 0 && all_digits(s)
}

/// Whether a hex text is valid BCD: non-empty, digits `0`-`9` only.
pub fn is_bcd(s: &str) -> (res: bool)
    ensures
        res == bcd_spec(s@),
{
    let n = s.unicode_len();
    if n == 0 {
        return false;
    }
    let mut i: usize = 0;
    while i < n
        invariant
            n == s@.len(),
            i <= n,
            forall|j: int| 0 <= j < i ==> is_digit(#[trigger] s@[j]),
        decreases n - i,
    {
        let c = s.get_char(i);
        if !('0' <= c && c <= '9') {
            return false;
        }
        i = i + 1;
    }
    true
}

/// The value of two ASCII digits.
pub open spec fn two_digits(s: Seq<char>, at: int) -> int {
    (s[at] as int - 48) * 10 + (s[at + 1] as int - 48)
}

fn two_digit_value(s: &str, at: usize) -> (res: u32)
    requires
        at as int + 2 <= s@.len(),
        is_digit(s@[at as int]),
        is_digit(s@[at + 1]),
    ensures
        res as int == two_digits(s@, at as int),
        res < 100,
{
    let _n = s.unicode_len();
    let a = s.get_char(at) as u32 - 48;
    let b = s.get_char(at + 1) as u32 - 48;
    a * 10 + b
}

/// `YYYYMMDD` BCD as `YYYY-MM-DD`, from the first 8 characters; empty when they are missing,
/// not all digits, or the month is not 1-12 or the day not 1-31.
pub open spec fn fmt_date8_spec(s: Seq<char>) -> Seq<char> {
    if s.len() < 8 {
        Seq::empty()
    } else {
        let d = s.subrange(0, 8);
        if !bcd_spec(d) || !(1 <= two_digits(d, 4) <= 12) || !(1 <= two_digits(d, 6) <= 31) {
            Seq::empty()
        } else {
            d.subrange(0, 4) + seq!['-'] + d.subrange(4, 6) + seq!['-'] + d.subrange(6, 8)
        }
    }
}

/// Formats a BCD date `YYYYMMDD` as `YYYY-MM-DD`; empty when it is not a plausible date.
pub fn fmt_date8(hex8: &str) -> (res: String)
    ensures
        res@ == fmt_date8_spec(hex8@),
{
    let n = hex8.unicode_len();
    if n < 8 {
        return String::new();
    }
    let d = hex8.substring_char(0, 8);
    if !is_bcd(d) {
        return String::new();
    }
    let month = two_digit_value(d, 4);
    let day = two_digit_value(d, 6);
    if !(1 <= month && month <= 12) || !(1 <= day && day <= 31) {
        return String::new();
    }
    let mut out = to_owned_string(d.substring_char(0, 4));
    push_str(&mut out, "-");
    push_str(&mut out, d.substring_char(4, 6));
    push_str(&mut out, "-");
    push_str(&mut out, d.substring_char(6, 8));
    proof {
        reveal_strlit("-");
    }
    assert(out@ =~= fmt_date8_spec(hex8@));
    out
}

/// `YYYYMMDDhhmmss` BCD as `YYYY-MM-DD HH:MM:SS`, from the first 14 characters; the text
/// unchanged when they are missing or not all digits.
pub open spec fn fmt_timestamp14_spec(s: Seq<char>) -> Seq<char> {
    if s.len() < 14 || !bcd_spec(s.subrange(0, 14)) {
        s
    } else {
        let d = s.subrange(0, 14);
        d.subrange(0, 4) + seq!['-'] + d.subrange(4, 6) + seq!['-'] + d.subrange(6, 8) + seq![' ']
            + d.subrange(8, 10) + seq![':'] + d.subrange(10, 12) + seq![':'] + d.subrange(12, 14)
    }
}

/// Formats a BCD timestamp `YYYYMMDDhhmmss` as `YYYY-MM-DD HH:MM:SS`; invalid BCD comes back
/// unchanged.
pub fn fmt_timestamp14(hex14: &str) -> (res: String)
    ensures
        res@ == fmt_timestamp14_spec(hex14@),
{
    let n = hex14.unicode_len();
    if n < 14 {
        return to_owned_string(hex14);
    }
    let d = hex14.substring_char(0, 14);
    if !is_bcd(d) {
        return to_owned_string(hex14);
    }
    let mut out = to_owned_string(d.substring_char(0, 4));
    push_str(&mut out, "-");
    push_str(&mut out, d.substring_char(4, 6));
    push_str(&mut out, "-");
    push_str(&mut out, d.substring_char(6, 8));
    push_str(&mut out, " ");
    push_str(&mut out, d.substring_char(8, 10));
    push_str(&mut out, ":");
    push_str(&mut out, d.substring_char(10, 12));
    push_str(&mut out, ":");
    push_str(&mut out, d.substring_char(12, 14));
    proof {
        reveal_strlit("-");
        reveal_strlit(" ");
        reveal_strlit(":");
    }
    assert(out@ =~= fmt_timestamp14_spec(hex14@));
    out
}

/// `HHMMSS` BCD as `HH:MM:SS`, from the first 6 characters; empty when they are missing, not
/// all digits, or out of range.
pub open spec fn fmt_time6_spec(s: Seq<char>) -> Seq<char> {
    if s.len() < 6 {
        Seq::empty()
    } else {
        let t = s.subrange(0, 6);
        if !bcd_spec(t) || two_digits(t, 0) > 23 || two_digits(t, 2) > 59 || two_digits(t, 4) > 59 {
            Seq::empty()
        } else {
            t.subrange(0, 2) + seq![':'] + t.subrange(2, 4) + seq![':'] + t.subrange(4, 6)
        }
    }
}

/// Formats a BCD time `HHMMSS` as `HH:MM:SS`; empty when it is not a valid time.
pub fn fmt_time6(hex6: &str) -> (res: String)
    ensures
        res@ == fmt_time6_spec(hex6@),
{
    let n = hex6.unicode_len();
    if n < 6 {
        return String::new();
    }
    let t = hex6.substring_char(0, 6);
    if !is_bcd(t) {
        return String::new();
    }
    let h = two_digit_value(t, 0);
    let m = two_digit_value(t, 2);
    let s = two_digit_value(t, 4);
    if h > 23 || m > 59 || s > 59 {
        return String::new();
    }
    let mut out = to_owned_string(t.substring_char(0, 2));
    push_str(&mut out, ":");
    push_str(&mut out, t.substring_char(2, 4));
    push_str(&mut out, ":");
    push_str(&mut out, t.substring_char(4, 6));
    proof {
        reveal_strlit(":");
    }
    assert(out@ =~= fmt_time6_spec(hex6@));
    out
}


/// Four bytes read big-endian: `bytes[i..i + 4]` is `b0 * 2^24 + b1 * 2^16 + b2 * 2^8 + b3`.
pub proof fn lemma_be4_value(bytes: Seq<u8>, i: int)
    requires
        0 <= i,
        i + 4 <= bytes.len(),
    ensures
        be_uint_spec(bytes, i, i + 4) == bytes[i] * 0x100_0000 + bytes[i + 1] * 0x1_0000 + bytes[i + 2] * 0x100
            + bytes[i + 3],
{
    let s = bytes.subrange(i, i + 4);
    let a = s.subrange(0, 1);
    let b = s.subrange(0, 2);
    let c = s.subrange(0, 3);
    assert(s.drop_last() =~= c);
    assert(c.drop_last() =~= b);
    assert(b.drop_last() =~= a);
    assert(a.drop_last() =~= Seq::<u8>::empty());
    assert(be_wrapped(Seq::<u8>::empty()) == 0);
    assert(be_wrapped(a) == s[0]);
    assert(be_wrapped(b) == s[0] * 0x100 + s[1]);
    assert(be_wrapped(c) == s[0] * 0x1_0000 + s[1] * 0x100 + s[2]);
    assert(be_wrapped(s) == s[0] * 0x100_0000 + s[1] * 0x1_0000 + s[2] * 0x100 + s[3]);
}

} // verus!
