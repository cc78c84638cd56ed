//! The MRZ inputs of travel-document BAC and the MRZ key built from them
//! (ICAO Doc 9303 Part 11 §9.7.1.2, check digits Part 3 §4.9).
use vstd::prelude::*;
use crate::text::{char_is_ws, is_ws, push_char, push_str, to_owned_string, trim, trim_spec};

verus! {

/// The three MRZ elements BAC needs: document number, date of birth and date of expiry
/// (dates as `YYMMDD`).
#[derive(Debug, Clone, PartialEq, Eq)]
pub struct PassportKey {
    pub doc_number: String,
    pub date_of_birth: String,
    pub date_of_expiry: String,
}

/// What `str::to_uppercase` returns for a character sequence (the full Unicode upper-case
/// mapping, which may change the number of characters).
pub uninterp spec fn uppercase_of(s: Seq<char>) -> Seq<char>;

/// `str::to_uppercase`.
#[verifier::external_body]
fn to_uppercase(s: &str) -> (res: String)
    ensures
        res@ == uppercase_of(s@),
{
    s.to_uppercase()
}

/// Number of bytes of the UTF-8 encoding of a character sequence (what `str::len` counts).
pub open spec fn utf8_len(s: Seq<char>) -> nat {
    vstd::utf8::encode_utf8(s).len()
}

/// Whether a byte string is six ASCII digits.
pub open spec fn is_yymmdd_bytes(b: Seq<u8>) -> bool {
    b.len() == 6 && forall|i: int| 0 <= i < 6 ==> 48 <= #[trigger] b[i] <= 57
}

/// Whether a string is six ASCII digits.
pub open spec fn is_yymmdd_spec(s: Seq<char>) -> bool {
    is_yymmdd_bytes(vstd::utf8::encode_utf8(s))
}

/// The document number right-padded with `<` to nine bytes (longer numbers unchanged).
pub open spec fn pad_doc_spec(s: Seq<char>) -> Seq<char> {
    if utf8_len(s) >= 9 {
        s
    } else {
        s + Seq::new((9 - utf8_len(s)) as nat, |i: int| '<')
    }
}

/// Value of a character in a check digit: digits their value, `A`–`Z` 10–35, anything else 0.
pub open spec fn mrz_char_value(c: char) -> int {
    if '0' <= c && c <= '9' {
        c as int - 48
    } else if 'A' <= c && c <= 'Z' {
        c as int - 55
    } else {
        0
    }
}

/// The weight of position `i`: 7, 3, 1, repeating.
pub open spec fn mrz_weight(i: int) -> int {
    if i % 3 == 0 {
        7
    } else if i % 3 == 1 {
        3
    } else {
        1
    }
}

/// The weighted sum of a character sequence.
pub open spec fn weighted_sum(s: Seq<char>) -> int
    decreases s.len(),
{
    if s.len() == 0 {
        0
    } else {
        weighted_sum(s.drop_last()) + mrz_char_value(s.last()) * mrz_weight(s.len() - 1)
    }
}

/// The ICAO 9303 check digit: the weighted sum modulo 10, as a digit character.
pub open spec fn check_digit_spec(s: Seq<char>) -> char {
    (48 + weighted_sum(s) % 10) as char
}

/// The MRZ key: padded document number, dates, each followed by its check digit.
pub open spec fn mrz_key_spec(doc: Seq<char>, dob: Seq<char>, doe: Seq<char>) -> Seq<char> {
    let p = pad_doc_spec(doc);
    p.push(check_digit_spec(p)) + dob.push(check_digit_spec(dob)) + doe.push(
        check_digit_spec(doe),
    )
}

/// The outcome of validating the three elements: the first rule broken, if any.
pub open spec fn validate_spec(doc: Seq<char>, dob: Seq<char>, doe: Seq<char>) -> Result<(), Seq<char>> {
    if doc.len() == 0 {
        Err("证件号不能为空"@)
    } else if utf8_len(doc) > 9 {
        Err("证件号超过 9 位（如为长号请咨询具体规范）"@)
    } else if !is_yymmdd_spec(dob) {
        Err("出生日期须为 YYMMDD 6 位数字"@)
    } else if !is_yymmdd_spec(doe) {
        Err("有效期须为 YYMMDD 6 位数字"@)
    } else {
        Ok(())
    }
}

/// A character sequence with every whitespace character removed.
pub open spec fn strip_ws(s: Seq<char>) -> Seq<char>
    decreases s.len(),
{
    if s.len() == 0 {
        Seq::empty()
    } else {
        strip_ws(s.drop_last()) + if is_ws(s.last()) {
            Seq::<char>::empty()
        } else {
            seq![s.last()]
        }
    }
}

/// The text with every whitespace character removed (`strip_ws`).
fn strip_whitespace(s: &str) -> (res: String)
    ensures
        res@ == strip_ws(s@),
{
    let n = s.unicode_len();
    let mut out = String::new();
    let mut i: usize = 0;
    while i < n
        invariant
            n == s@.len(),
            i <= n,
            out@ == strip_ws(s@.subrange(0, i as int)),
        decreases n - i,
    {
        let c = s.get_char(i);
        let ghost pre = s@.subrange(0, i as int);
        assert(s@.subrange(0, i + 1).drop_last() =~= pre);
        if !char_is_ws(c) {
            push_char(&mut out, c);
        }
        i = i + 1;
        assert(out@ =~= strip_ws(s@.subrange(0, i as int)));
    }
    assert(s@.subrange(0, n as int) =~= s@);
    out
}

/// The document number of a key: its whitespace removed, upper-cased.
pub open spec fn doc_number_spec(s: Seq<char>) -> Seq<char> {
    uppercase_of(strip_ws(s))
}

impl PassportKey {
    /// Builds a key: the document number upper-cased with all its whitespace removed, the
    /// dates trimmed.
    pub fn new(doc_number: &str, date_of_birth: &str, date_of_expiry: &str) -> (res: PassportKey)
        ensures
            res.doc_number@ == doc_number_spec(doc_number@),
            res.date_of_birth@ == trim_spec(date_of_birth@),
            res.date_of_expiry@ == trim_spec(date_of_expiry@),
    {
        let doc = strip_whitespace(doc_number);
        PassportKey {
            doc_number: to_uppercase(doc.as_str()),
            date_of_birth: to_owned_string(trim(date_of_birth)),
            date_of_expiry: to_owned_string(trim(date_of_expiry)),
        }
    }

    /// Checks that the document number is non-empty and at most nine bytes and that both
    /// dates are six digits; the error names the first rule broken.
    pub fn validate(&self) -> (res: Result<(), String>)
        ensures
            match validate_spec(self.doc_number@, self.date_of_birth@, self.date_of_expiry@) {
                Ok(()) => res is Ok,
                Err(m) => res matches Err(e) && e@ == m,
            },
    {
        let mut msg = String::new();
        if self.doc_number.as_str().is_empty() {
            push_str(&mut msg, "证件号不能为空");
            return Err(msg);
        }
        if self.doc_number.as_str().as_bytes().len() > 9 {
            push_str(&mut msg, "证件号超过 9 位（如为长号请咨询具体规范）");
            return Err(msg);
        }
        if !is_yymmdd(self.date_of_birth.as_str()) {
            push_str(&mut msg, "出生日期须为 YYMMDD 6 位数字");
            return Err(msg);
        }
        if !is_yymmdd(self.date_of_expiry.as_str()) {
            push_str(&mut msg, "有效期须为 YYMMDD 6 位数字");
            return Err(msg);
        }
        Ok(())
    }

    /// The MRZ key used by BAC: `docNumber(9, '<'-padded) + check + dob + check + doe + check`.
    pub fn mrz_key(&self) -> (res: String)
        ensures
            res@ == mrz_key_spec(self.doc_number@, self.date_of_birth@, self.date_of_expiry@),
    {
        let padded = pad_doc_number(self.doc_number.as_str());
        let dc = check_digit(padded.as_str());
        let bc = check_digit(self.date_of_birth.as_str());
        let ec = check_digit(self.date_of_expiry.as_str());
        let mut key = String::new();
        push_str(&mut key, padded.as_str());
        push_char(&mut key, dc);
        push_str(&mut key, self.date_of_birth.as_str());
        push_char(&mut key, bc);
        push_str(&mut key, self.date_of_expiry.as_str());
        push_char(&mut key, ec);
        assert(key@ =~= mrz_key_spec(self.doc_number@, self.date_of_birth@, self.date_of_expiry@));
        key
    }
}

/// Whether `s` is six ASCII digits.
fn is_yymmdd(s: &str) -> (res: bool)
    ensures
        res == is_yymmdd_spec(s@),
{
    let b = s.as_bytes();
    if b.len() != 6 {
        return false;
    }
    let mut i: usize = 0;
    while i < 6
        invariant
            b@ == vstd::utf8::encode_utf8(s@),
            b@.len() == 6,
            i <= 6,
            forall|j: int| 0 <= j < i ==> 48 <= #[trigger] b@[j] <= 57,
        decreases 6 - i,
    {
        if b[i] < 48 || b[i] > 57 {
            return false;
        }
        i = i + 1;
    }
    true
}

/// The document number right-padded with `<` to nine bytes; longer numbers are returned whole.
fn pad_doc_number(doc: &str) -> (res: String)
    ensures
        res@ == pad_doc_spec(doc@),
{
    let n = doc.as_bytes().len();
    let mut s = to_owned_string(doc);
    if n >= 9 {
        return s;
    }
    let mut k: usize = n;
    while k < 9
        invariant
            n <= k <= 9,
            n == utf8_len(doc@),
            s@ == doc@ + Seq::new((k - n) as nat, |i: int| '<'),
        decreases 9 - k,
    {
        push_char(&mut s, '<');
        k = k + 1;
        assert(s@ =~= doc@ + Seq::new((k - n) as nat, |i: int| '<'));
    }
    s
}

/// The ICAO 9303 check digit of `input`: characters valued 0–9 for digits, 10–35 for `A`–`Z`
/// and 0 otherwise, weighted 7, 3, 1 in turn, summed, modulo 10.
pub fn check_digit(input: &str) -> (res: char)
    ensures
        res == check_digit_spec(input@),
{
    let n = input.unicode_len();
    let mut sum: u32 = 0;
    let mut i: usize = 0;
    while i < n
        invariant
            n == input@.len(),
            i <= n,
            sum < 10,
            sum as int == weighted_sum(input@.subrange(0, i as int)) % 10,
        decreases n - i,
    {
        let c = input.get_char(i);
        let v: u32 = if '0' <= c && c <= '9' {
            c as u32 - 48
        } else if 'A' <= c && c <= 'Z' {
            c as u32 - 55
        } else {
            0
        };
        let w: u32 = if i % 3 == 0 { 7 } else if i % 3 == 1 { 3 } else { 1 };
        let ghost prev = input@.subrange(0, i as int);
        let ghost next = input@.subrange(0, i + 1);
        assert(next.drop_last() =~= prev);
        assert(next.last() == c);
        assert(weighted_sum(next) == weighted_sum(prev) + v * w);
        sum = (sum + v * w) % 10;
        proof {
            let ws = weighted_sum(prev);
            assert(ws >= 0) by { lemma_weighted_sum_nonneg(prev); }
            assert((ws % 10 + v * w) % 10 == (ws + v * w) % 10) by (nonlinear_arith)
                requires ws >= 0, v * w >= 0;
        }
        i = i + 1;
    }
    assert(input@.subrange(0, n as int) =~= input@);
    let d = sum as u8;
    (48u8 + d) as char
}

pub proof fn lemma_weighted_sum_nonneg(s: Seq<char>)
    ensures
        weighted_sum(s) >= 0,
    decreases s.len(),
{
    if s.len() > 0 {
        lemma_weighted_sum_nonneg(s.drop_last());
    }
}

} // verus!
