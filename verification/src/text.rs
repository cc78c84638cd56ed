//! Text building blocks: decimal numerals, character appends and comparisons of strings.
use vstd::prelude::*;
use vstd::string::StringExecFns;

verus! {

/// Decimal numeral of `n`, without leading zeros (`"0"` for zero).
pub open spec fn dec_digits(n: nat) -> Seq<char>
    decreases n,
{
    if n < 10 {
        seq![(48 + n) as char]
    } else {
        dec_digits(n / 10).push((48 + n % 10) as char)
    }
}

/// `String::push`: appends one character.
#[verifier::external_body]
pub fn push_char(s: &mut String, c: char)
    ensures
        final(s)@ == old(s)@.push(c),
{
    s.push(c)
}

/// Appends a string slice.
pub fn push_str(s: &mut String, t: &str)
    ensures
        final(s)@ == old(s)@ + t@,
{
    s.append(t)
}

/// An owned copy of a string slice.
pub fn to_owned_string(s: &str) -> (res: String)
    ensures
        res@ == s@,
{
    s.to_owned()
}

/// Appends the decimal numeral of `n`.
pub fn push_decimal(s: &mut String, n: u64)
    ensures
        final(s)@ == old(s)@ + dec_digits(n as nat),
    decreases n,
{
    if n >= 10 {
        push_decimal(s, n / 10);
    }
    let d = (n % 10) as u32;
    let c = char_from_digit(d);
    push_char(s, c);
    proof {
        if n < 10 {
            assert(old(s)@ + dec_digits(n as nat) =~= old(s)@.push(c));
        } else {
            assert(old(s)@ + dec_digits(n as nat) =~= old(s)@ + dec_digits((n / 10) as nat) + seq![c]);
        }
    }
}

/// The character of a decimal digit.
pub fn char_from_digit(d: u32) -> (c: char)
    requires
        d < 10,
    ensures
        c == (48 + d) as char,
{
    if d == 0 { '0' } else if d == 1 { '1' } else if d == 2 { '2' } else if d == 3 { '3' }
    else if d == 4 { '4' } else if d == 5 { '5' } else if d == 6 { '6' } else if d == 7 { '7' }
    else if d == 8 { '8' } else { '9' }
}

/// The decimal numeral of `n` as a new string.
pub fn decimal(n: u64) -> (res: String)
    ensures
        res@ == dec_digits(n as nat),
{
    let mut s = String::new();
    push_decimal(&mut s, n);
    assert(s@ =~= dec_digits(n as nat));
    s
}

/// Whether two string slices hold the same characters.
pub fn str_eq(a: &str, b: &str) -> (res: bool)
    ensures
        res == (a@ == b@),
{
    let n = a.unicode_len();
    let m = b.unicode_len();
    if n != m {
        return false;
    }
    let mut i: usize = 0;
    while i < n
        invariant
            n == a@.len(),
            m == b@.len(),
            n == m,
            i <= n,
            a@.subrange(0, i as int) =~= b@.subrange(0, i as int),
        decreases n - i,
    {
        if a.get_char(i) != b.get_char(i) {
            return false;
        }
        i = i + 1;
        assert(a@.subrange(0, i as int) =~= b@.subrange(0, i as int));
    }
    assert(a@ =~= a@.subrange(0, n as int));
    assert(b@ =~= b@.subrange(0, n as int));
    true
}

/// Whether `s` begins with `prefix`.
pub fn starts_with(s: &str, prefix: &str) -> (res: bool)
    ensures
        res == (prefix@.len() <= s@.len() && s@.subrange(0, prefix@.len() as int) == prefix@),
{
    let n = s.unicode_len();
    let p = prefix.unicode_len();
    if p > n {
        return false;
    }
    let head = s.substring_char(0, p);
    str_eq(head, prefix)
}

} // verus!

verus! {

/// Unicode `White_Space` (what `char::is_whitespace` and `str::trim` use).
pub open spec fn is_ws(c: char) -> bool {
    let v = c as u32;
    (9 <= v && v <= 13) || v == 32 || v == 0x85 || v == 0xA0 || v == 0x1680 || (0x2000 <= v
        && v <= 0x200A) || v == 0x2028 || v == 0x2029 || v == 0x202F || v == 0x205F || v
        == 0x3000
}

/// Number of leading whitespace characters.
pub open spec fn lead_ws(s: Seq<char>) -> nat
    decreases s.len(),
{
    if s.len() > 0 && is_ws(s[0]) {
        1 + lead_ws(s.drop_first())
    } else {
        0
    }
}

/// Number of trailing whitespace characters.
pub open spec fn trail_ws(s: Seq<char>) -> nat
    decreases s.len(),
{
    if s.len() > 0 && is_ws(s.last()) {
        1 + trail_ws(s.drop_last())
    } else {
        0
    }
}

/// `s` without leading and trailing whitespace (`str::trim`).
pub open spec fn trim_spec(s: Seq<char>) -> Seq<char> {
    let t = s.subrange(lead_ws(s) as int, s.len() as int);
    t.subrange(0, t.len() - trail_ws(t))
}

pub proof fn lemma_lead_ws(s: Seq<char>, i: int)
    requires
        0 <= i <= s.len(),
        forall|j: int| 0 <= j < i ==> is_ws(#[trigger] s[j]),
        i == s.len() || !is_ws(s[i]),
    ensures
        lead_ws(s) == i,
    decreases i,
{
    if i > 0 {
        assert forall|j: int| 0 <= j < i - 1 implies is_ws(#[trigger] s.drop_first()[j]) by {
            assert(s.drop_first()[j] == s[j + 1]);
        }
        lemma_lead_ws(s.drop_first(), i - 1);
    }
}

pub proof fn lemma_trail_ws(s: Seq<char>, k: int)
    requires
        0 <= k <= s.len(),
        forall|j: int| s.len() - k <= j < s.len() ==> is_ws(#[trigger] s[j]),
        k == s.len() || !is_ws(s[s.len() - k - 1]),
    ensures
        trail_ws(s) == k,
    decreases k,
{
    if k > 0 {
        let d = s.drop_last();
        assert forall|j: int| d.len() - (k - 1) <= j < d.len() implies is_ws(#[trigger] d[j]) by {
            assert(d[j] == s[j]);
        }
        lemma_trail_ws(d, k - 1);
    }
}

/// `char::is_whitespace`.
pub fn char_is_ws(c: char) -> (res: bool)
    ensures
        res == is_ws(c),
{
    let v = c as u32;
    (9 <= v && v <= 13) || v == 32 || v == 0x85 || v == 0xA0 || v == 0x1680 || (0x2000 <= v
        && v <= 0x200A) || v == 0x2028 || v == 0x2029 || v == 0x202F || v == 0x205F || v
        == 0x3000
}

/// `str::trim`: the slice of `s` without leading and trailing whitespace.
pub fn trim(s: &str) -> (res: &str)
    ensures
        res@ == trim_spec(s@),
{
    let n = s.unicode_len();
    let mut i: usize = 0;
    while i < n && char_is_ws(s.get_char(i))
        invariant
            n == s@.len(),
            i <= n,
            forall|j: int| 0 <= j < i ==> is_ws(#[trigger] s@[j]),
        decreases n - i,
    {
        i = i + 1;
    }
    proof {
        lemma_lead_ws(s@, i as int);
    }
    let t = s.substring_char(i, n);
    let m = t.unicode_len();
    let mut k: usize = 0;
    while k < m && char_is_ws(t.get_char(m - k - 1))
        invariant
            m == t@.len(),
            k <= m,
            forall|j: int| m - k <= j < m ==> is_ws(#[trigger] t@[j]),
        decreases m - k,
    {
        k = k + 1;
    }
    proof {
        lemma_trail_ws(t@, k as int);
    }
    t.substring_char(0, m - k)
}

} // verus!

verus! {

/// `a` followed by `b`, as a new string.
pub fn concat2(a: &str, b: &str) -> (res: String)
    ensures
        res@ == a@ + b@,
{
    let mut s = to_owned_string(a);
    push_str(&mut s, b);
    s
}

/// `a`, then `b`, then the decimal numeral of `n`, as a new string.
pub fn concat_num(a: &str, b: &str, n: u64) -> (res: String)
    ensures
        res@ == a@ + b@ + dec_digits(n as nat),
{
    let mut s = concat2(a, b);
    push_decimal(&mut s, n);
    s
}

} // verus!

verus! {

/// Whether `needle` occurs somewhere in `hay` (an empty needle always does).
pub open spec fn contains_chars(hay: Seq<char>, needle: Seq<char>) -> bool {
    exists|i: int| 0 <= i && i + needle.len() <= hay.len() && #[trigger] hay.subrange(i, i + needle.len()) == needle
}

/// `str::contains` with a string pattern.
pub fn contains_str(hay: &str, needle: &str) -> (res: bool)
    ensures
        res == contains_chars(hay@, needle@),
{
    let n = hay.unicode_len();
    let m = needle.unicode_len();
    if m > n {
        proof {
            assert forall|i: int| !(0 <= i && i + needle@.len() <= hay@.len() && #[trigger] hay@.subrange(i, i + needle@.len()) == needle@) by {}
        }
        return false;
    }
    if m == 0 {
        assert(hay@.subrange(0int, 0int + needle@.len()) =~= needle@);
        return true;
    }
    let mut i: usize = 0;
    while i <= n - m
        invariant
            n == hay@.len(),
            m == needle@.len(),
            0 < m <= n,
            i <= n - m + 1,
            forall|k: int| 0 <= k < i ==> #[trigger] hay@.subrange(k, k + m) != needle@,
        decreases n - m + 1 - i,
    {
        let window = hay.substring_char(i, i + m);
        if str_eq(window, needle) {
            return true;
        }
        i = i + 1;
    }
    false
}

/// ASCII lower-casing of one character (`char::to_ascii_lowercase`).
pub open spec fn ascii_lower(c: char) -> char {
    if 'A' <= c && c <= 'Z' {
        ((c as u32) + 32) as char
    } else {
        c
    }
}

/// ASCII lower-casing of a string (`str::to_ascii_lowercase`).
pub open spec fn ascii_lower_seq(s: Seq<char>) -> Seq<char> {
    s.map_values(|c: char| ascii_lower(c))
}

/// `str::to_ascii_lowercase`.
pub fn to_ascii_lowercase(s: &str) -> (res: String)
    ensures
        res@ == ascii_lower_seq(s@),
{
    let n = s.unicode_len();
    let mut out = String::new();
    let mut i: usize = 0;
    while i < n
        invariant
            n == s@.len(),
            i <= n,
            out@ == ascii_lower_seq(s@.subrange(0, i as int)),
        decreases n - i,
    {
        let c = s.get_char(i);
        let l = if 'A' <= c && c <= 'Z' {
            let v = (c as u32) + 32;
            let b = v as u8;
            b as char
        } else {
            c
        };
        push_char(&mut out, l);
        i = i + 1;
        assert(out@ =~= ascii_lower_seq(s@.subrange(0, i as int)));
    }
    assert(s@.subrange(0, n as int) =~= s@);
    out
}

} // verus!

verus! {

/// The texts of a vector of strings.
pub open spec fn strings_view(v: Seq<String>) -> Seq<Seq<char>> {
    v.map_values(|s: String| s@)
}

/// `str::split` on one character: the pieces between the separators, in order (one piece,
/// possibly empty, more than there are separators).
pub open spec fn split_spec(s: Seq<char>, c: char) -> Seq<Seq<char>>
    decreases s.len(),
{
    if s.len() == 0 {
        seq![Seq::<char>::empty()]
    } else {
        let rest = split_spec(s.drop_last(), c);
        if s.last() == c {
            rest.push(Seq::empty())
        } else {
            rest.update(rest.len() - 1, rest.last().push(s.last()))
        }
    }
}

pub proof fn lemma_split_nonempty(s: Seq<char>, c: char)
    ensures
        split_spec(s, c).len() >= 1,
    decreases s.len(),
{
    if s.len() > 0 {
        lemma_split_nonempty(s.drop_last(), c);
    }
}

/// The pieces of `s` between occurrences of `c`.
pub fn split_char(s: &str, c: char) -> (res: Vec<String>)
    ensures
        strings_view(res@) == split_spec(s@, c),
{
    let n = s.unicode_len();
    let mut parts: Vec<String> = Vec::new();
    let mut cur = String::new();
    let mut i: usize = 0;
    assert(s@.subrange(0, 0).len() == 0);
    assert(strings_view(parts@).push(cur@) =~= split_spec(s@.subrange(0, 0), c));
    while i < n
        invariant
            n == s@.len(),
            i <= n,
            strings_view(parts@).push(cur@) == split_spec(s@.subrange(0, i as int), c),
        decreases n - i,
    {
        let ch = s.get_char(i);
        let ghost pre = s@.subrange(0, i as int);
        let ghost next = s@.subrange(0, i + 1);
        assert(next.drop_last() =~= pre);
        assert(next.last() == ch);
        proof {
            lemma_split_nonempty(pre, c);
        }
        if ch == c {
            let done = cur;
            parts.push(done);
            cur = String::new();
            assert(strings_view(parts@).push(cur@) =~= split_spec(next, c));
        } else {
            let ghost old_parts = strings_view(parts@);
            push_char(&mut cur, ch);
            assert(strings_view(parts@) == old_parts);
            assert(strings_view(parts@).push(cur@) =~= split_spec(next, c));
        }
        i = i + 1;
    }
    assert(s@.subrange(0, n as int) =~= s@);
    parts.push(cur);
    assert(strings_view(parts@) =~= split_spec(s@, c));
    parts
}

/// An ASCII decimal digit.
pub open spec fn is_digit(c: char) -> bool {
    '0' <= c && c <= '9'
}

/// Every character is an ASCII decimal digit.
pub open spec fn all_digits(s: Seq<char>) -> bool {
    forall|i: int| 0 <= i < s.len() ==> is_digit(#[trigger] s[i])
}

/// The value of a string of decimal digits.
pub open spec fn digits_value(s: Seq<char>) -> nat
    decreases s.len(),
{
    if s.len() == 0 {
        0
    } else {
        digits_value(s.drop_last()) * 10 + (s.last() as nat - 48) as nat
    }
}

/// The digits after an optional leading `+`.
pub open spec fn unsigned_digits(s: Seq<char>) -> Seq<char> {
    if s.len() > 0 && s[0] == '+' {
        s.drop_first()
    } else {
        s
    }
}

/// `u32::from_str`: an optional `+`, then one or more decimal digits whose value fits.
pub open spec fn parse_u32_spec(s: Seq<char>) -> Option<u32> {
    let d = unsigned_digits(s);
    if d.len() == 0 || !all_digits(d) || digits_value(d) > u32::MAX {
        None
    } else {
        Some(digits_value(d) as u32)
    }
}

/// `i32::from_str`: an optional sign, then one or more decimal digits whose value fits.
pub open spec fn parse_i32_spec(s: Seq<char>) -> Option<i32> {
    if s.len() > 0 && s[0] == '-' {
        let d = s.drop_first();
        if d.len() == 0 || !all_digits(d) || digits_value(d) > 0x8000_0000 {
            None
        } else {
            Some((0 - digits_value(d)) as i32)
        }
    } else {
        let d = unsigned_digits(s);
        if d.len() == 0 || !all_digits(d) || digits_value(d) > 0x7FFF_FFFF {
            None
        } else {
            Some(digits_value(d) as i32)
        }
    }
}

/// The value of the decimal digits of `s` from `start` on, when they all are digits and the
/// value does not exceed `limit`.
fn digits_upto(s: &str, start: usize, limit: u64) -> (res: Option<u64>)
    requires
        start <= s@.len(),
        limit <= 0xFFFF_FFFF,
    ensures
        match res {
            Some(v) => all_digits(s@.subrange(start as int, s@.len() as int)) && v == digits_value(
                s@.subrange(start as int, s@.len() as int),
            ) && v <= limit,
            None => !all_digits(s@.subrange(start as int, s@.len() as int)) || digits_value(
                s@.subrange(start as int, s@.len() as int),
            ) > limit,
        },
{
    let n = s.unicode_len();
    let mut v: u64 = 0;
    let mut i: usize = start;
    while i < n
        invariant
            n == s@.len(),
            start <= i <= n,
            limit <= 0xFFFF_FFFF,
            all_digits(s@.subrange(start as int, i as int)),
            v == digits_value(s@.subrange(start as int, i as int)),
            v <= limit,
        decreases n - i,
    {
        let ch = s.get_char(i);
        let ghost pre = s@.subrange(start as int, i as int);
        let ghost next = s@.subrange(start as int, i + 1);
        assert(next.drop_last() =~= pre);
        if !('0' <= ch && ch <= '9') {
            proof {
                let whole = s@.subrange(start as int, n as int);
                assert(whole[i - start] == ch);
            }
            return None;
        }
        let d = (ch as u32 - 48) as u64;
        v = v * 10 + d;
        if v > limit {
            proof {
                lemma_digits_prefix_le(s@.subrange(start as int, n as int), (i + 1 - start) as int);
                assert(s@.subrange(start as int, n as int).subrange(0, (i + 1 - start) as int) =~= next);
            }
            return None;
        }
        i = i + 1;
    }
    assert(s@.subrange(start as int, i as int) =~= s@.subrange(start as int, s@.len() as int));
    Some(v)
}

/// The value of a digit string is at least that of any prefix.
pub proof fn lemma_digits_prefix_le(s: Seq<char>, k: int)
    requires
        0 <= k <= s.len(),
    ensures
        !all_digits(s) || digits_value(s.subrange(0, k)) <= digits_value(s),
    decreases s.len() - k,
{
    if k < s.len() && all_digits(s) {
        lemma_digits_prefix_le(s, k + 1);
        let p = s.subrange(0, k + 1);
        assert(p.drop_last() =~= s.subrange(0, k));
        assert(is_digit(s[k]));
    } else if k == s.len() {
        assert(s.subrange(0, k) =~= s);
    }
}

/// `u32::from_str` on decimal text.
pub fn parse_u32(s: &str) -> (res: Option<u32>)
    ensures
        res == parse_u32_spec(s@),
{
    let n = s.unicode_len();
    let start: usize = if n > 0 && s.get_char(0) == '+' { 1 } else { 0 };
    assert(unsigned_digits(s@) =~= s@.subrange(start as int, n as int));
    if start == n {
        return None;
    }
    match digits_upto(s, start, 0xFFFF_FFFF) {
        Some(v) => Some(v as u32),
        None => None,
    }
}

/// `i32::from_str` on decimal text.
pub fn parse_i32(s: &str) -> (res: Option<i32>)
    ensures
        res == parse_i32_spec(s@),
{
    let n = s.unicode_len();
    if n > 0 && s.get_char(0) == '-' {
        assert(s@.drop_first() =~= s@.subrange(1, n as int));
        if n == 1 {
            return None;
        }
        match digits_upto(s, 1, 0x8000_0000) {
            Some(v) => {
                let r: i64 = 0 - (v as i64);
                Some(r as i32)
            },
            None => None,
        }
    } else {
        let start: usize = if n > 0 && s.get_char(0) == '+' { 1 } else { 0 };
        assert(unsigned_digits(s@) =~= s@.subrange(start as int, n as int));
        if start == n {
            return None;
        }
        match digits_upto(s, start, 0x7FFF_FFFF) {
            Some(v) => Some(v as i32),
            None => None,
        }
    }
}

} // verus!

verus! {

/// The text of an optional string.
pub open spec fn opt_text(o: Option<String>) -> Option<Seq<char>> {
    match o {
        Some(s) => Some(s@),
        None => None,
    }
}

} // verus!

verus! {

/// `s` without one trailing carriage return.
pub open spec fn strip_cr(p: Seq<char>) -> Seq<char> {
    if p.len() > 0 && p.last() == '\r' {
        p.drop_last()
    } else {
        p
    }
}

/// `str::lines`: the pieces between line feeds, each without a carriage return that ends it
/// before its line feed; the piece after the last line feed counts only when not empty (and
/// keeps a carriage return that ends it).
#[verifier::opaque]
pub open spec fn lines_spec(s: Seq<char>) -> Seq<Seq<char>> {
    let p = split_spec(s, '\n');
    let body = p.drop_last();
    let ended = Seq::new(body.len(), |i: int| strip_cr(body[i]));
    if p.last().len() == 0 {
        ended
    } else {
        ended.push(p.last())
    }
}

/// A piece without its final carriage return.
fn strip_cr_str(p: &str) -> (res: String)
    ensures
        res@ == strip_cr(p@),
{
    let n = p.unicode_len();
    if n > 0 && p.get_char(n - 1) == '\r' {
        to_owned_string(p.substring_char(0, n - 1))
    } else {
        to_owned_string(p)
    }
}

/// The lines of `s` (`lines_spec`).
pub fn lines(s: &str) -> (res: Vec<String>)
    ensures
        strings_view(res@) == lines_spec(s@),
{
    reveal(lines_spec);
    let parts = split_char(s, '\n');
    let ghost p = split_spec(s@, '\n');
    proof {
        lemma_split_nonempty(s@, '\n');
    }
    let last = parts.len() - 1;
    let mut out: Vec<String> = Vec::new();
    let mut i: usize = 0;
    while i < last
        invariant
            last + 1 == parts@.len(),
            strings_view(parts@) == p,
            i <= last,
            out@.len() == i,
            forall|q: int| 0 <= q < i ==> (#[trigger] out@[q])@ == strip_cr(p[q]),
        decreases last - i,
    {
        assert(parts@[i as int]@ == p[i as int]);
        out.push(strip_cr_str(parts[i].as_str()));
        i = i + 1;
    }
    let ghost body = p.drop_last();
    let ghost ended = Seq::new(body.len(), |q: int| strip_cr(body[q]));
    assert(strings_view(out@) =~= ended);
    assert(parts@[last as int]@ == p.last());
    if parts[last].unicode_len() > 0 {
        out.push(to_owned_string(parts[last].as_str()));
        assert(strings_view(out@) =~= ended.push(p.last()));
    }
    out
}

/// The text before and after the first `c` in `s`; none without a `c` (`str::split_once`).
pub open spec fn split_once_spec(s: Seq<char>, c: char) -> Option<(Seq<char>, Seq<char>)> {
    if exists|i: int| 0 <= i < s.len() && s[i] == c {
        let i = choose|i: int| 0 <= i < s.len() && s[i] == c && forall|j: int| 0 <= j < i ==> s[j] != c;
        Some((s.subrange(0, i), s.subrange(i + 1, s.len() as int)))
    } else {
        None
    }
}

/// `str::split_once` on one character (`split_once_spec`).
pub fn split_once_char(s: &str, c: char) -> (res: Option<(String, String)>)
    ensures
        match split_once_spec(s@, c) {
            Some((a, b)) => res matches Some((x, y)) && x@ == a && y@ == b,
            None => res is None,
        },
{
    let n = s.unicode_len();
    let mut i: usize = 0;
    while i < n && s.get_char(i) != c
        invariant
            n == s@.len(),
            i <= n,
            forall|j: int| 0 <= j < i ==> s@[j] != c,
        decreases n - i,
    {
        i = i + 1;
    }
    if i == n {
        return None;
    }
    proof {
        let k = choose|k: int| 0 <= k < s@.len() && s@[k] == c && forall|j: int| 0 <= j < k ==> s@[j] != c;
        assert(s@[i as int] == c);
        if k < i {
            assert(s@[k] != c);
        } else if k > i {
            assert(s@[i as int] != c);
        }
    }
    Some((to_owned_string(s.substring_char(0, i)), to_owned_string(s.substring_char(i + 1, n))))
}

/// Splitting a text without the separator gives the text alone.
pub proof fn lemma_split_no_sep(a: Seq<char>, c: char)
    requires
        forall|i: int| 0 <= i < a.len() ==> a[i] != c,
    ensures
        split_spec(a, c) == seq![a],
    decreases a.len(),
{
    if a.len() == 0 {
        assert(a =~= Seq::<char>::empty());
    } else {
        lemma_split_no_sep(a.drop_last(), c);
        assert(a.drop_last().push(a.last()) =~= a);
        assert(seq![a.drop_last()].update(0, a.drop_last().push(a.last())) =~= seq![a]);
    }
}

/// Splitting a piece without the separator, the separator and a rest: the piece, then the
/// pieces of the rest.
pub proof fn lemma_split_head(a: Seq<char>, c: char, r: Seq<char>)
    requires
        forall|i: int| 0 <= i < a.len() ==> a[i] != c,
    ensures
        split_spec(a.push(c) + r, c) == seq![a] + split_spec(r, c),
    decreases r.len(),
{
    lemma_split_nonempty(r, c);
    if r.len() == 0 {
        assert(a.push(c) + r =~= a.push(c));
        assert(a.push(c).drop_last() =~= a);
        lemma_split_no_sep(a, c);
        assert(seq![a].push(Seq::<char>::empty()) =~= seq![a] + seq![Seq::<char>::empty()]);
    } else {
        let s = a.push(c) + r;
        assert(s.drop_last() =~= a.push(c) + r.drop_last());
        assert(s.last() == r.last());
        lemma_split_head(a, c, r.drop_last());
        lemma_split_nonempty(r.drop_last(), c);
        let rest = split_spec(r.drop_last(), c);
        if r.last() == c {
            assert((seq![a] + rest).push(Seq::<char>::empty()) =~= seq![a] + rest.push(Seq::<char>::empty()));
        } else {
            let big = seq![a] + rest;
            assert(big.update(big.len() - 1, big.last().push(r.last())) =~= seq![a] + rest.update(
                rest.len() - 1,
                rest.last().push(r.last()),
            ));
        }
    }
}

/// `u64::from_str`: an optional `+`, then one or more decimal digits whose value fits.
pub open spec fn parse_u64_spec(s: Seq<char>) -> Option<u64> {
    let d = unsigned_digits(s);
    if d.len() == 0 || !all_digits(d) || digits_value(d) > u64::MAX {
        None
    } else {
        Some(digits_value(d) as u64)
    }
}

/// `u64::from_str` on decimal text.
pub fn parse_u64(s: &str) -> (res: Option<u64>)
    ensures
        res == parse_u64_spec(s@),
{
    let n = s.unicode_len();
    let start: usize = if n > 0 && s.get_char(0) == '+' { 1 } else { 0 };
    let ghost d = s@.subrange(start as int, n as int);
    assert(unsigned_digits(s@) =~= d);
    if start == n {
        return None;
    }
    let mut v: u64 = 0;
    let mut i: usize = start;
    while i < n
        invariant
            n == s@.len(),
            start <= i <= n,
            d == s@.subrange(start as int, n as int),
            unsigned_digits(s@) == d,
            all_digits(d.subrange(0, i - start)),
            v == digits_value(d.subrange(0, i - start)),
        decreases n - i,
    {
        let ch = s.get_char(i);
        let ghost pre = d.subrange(0, i - start);
        let ghost next = d.subrange(0, i + 1 - start);
        assert(next.drop_last() =~= pre);
        assert(d[i - start] == ch);
        if !('0' <= ch && ch <= '9') {
            assert(!is_digit(d[i - start]));
            return None;
        }
        let dv = (ch as u32 - 48) as u64;
        if v > (u64::MAX - dv) / 10 {
            proof {
                lemma_digits_prefix_le(d, (i + 1 - start) as int);
                assert(all_digits(d) ==> digits_value(next) > u64::MAX) by (nonlinear_arith)
                    requires
                        digits_value(next) == v * 10 + dv,
                        v > (u64::MAX - dv) / 10,
                        dv <= 9,
                ;
            }
            return None;
        }
        v = v * 10 + dv;
        i = i + 1;
    }
    assert(d.subrange(0, n - start) =~= d);
    Some(v)
}

/// The decimal numeral of a number reads back as the number.
pub proof fn lemma_dec_digits_parse(n: u64)
    ensures
        parse_u64_spec(dec_digits(n as nat)) == Some(n),
        all_digits(dec_digits(n as nat)),
        dec_digits(n as nat).len() > 0,
        digits_value(dec_digits(n as nat)) == n,
    decreases n,
{
    let d = dec_digits(n as nat);
    if n < 10 {
        assert(d.drop_last() =~= Seq::<char>::empty());
        assert(d.last() as nat == 48 + n);
        assert(digits_value(d) == digits_value(d.drop_last()) * 10 + (d.last() as nat - 48) as nat);
        assert(is_digit(d[0]));
    } else {
        lemma_dec_digits_parse(n / 10);
        let p = dec_digits((n / 10) as nat);
        assert(d.drop_last() =~= p);
        assert(d[0] == p[0]);
        assert forall|i: int| 0 <= i < d.len() implies is_digit(#[trigger] d[i]) by {
            if i < p.len() {
                assert(d[i] == p[i]);
            }
        }
        assert(d.last() as nat == 48 + n % 10);
        assert(digits_value(d) == digits_value(p) * 10 + (n % 10));
        assert((n / 10) * 10 + n % 10 == n);
    }
    assert(is_digit(d[0]));
    assert(unsigned_digits(d) == d);
}


/// Whether byte `i` of the UTF-8 encoding of `s` starts a character or ends the text.
pub open spec fn cut_ok(s: Seq<char>, i: int) -> bool {
    vstd::utf8::is_char_boundary(vstd::utf8::encode_utf8(s), i)
}

/// The characters of `s` whose UTF-8 encoding fills bytes `a..b`.
pub open spec fn byte_part(s: Seq<char>, a: int, b: int) -> Seq<char> {
    vstd::utf8::decode_utf8(vstd::utf8::encode_utf8(s).subrange(a, b))
}

/// `&s[a..b]`: the part of `s` between two byte offsets that fall on character boundaries.
pub fn byte_sub(s: &str, a: usize, b: usize) -> (res: &str)
    requires
        a <= b <= vstd::utf8::encode_utf8(s@).len(),
        cut_ok(s@, a as int),
        cut_ok(s@, b as int),
    ensures
        res@ == byte_part(s@, a as int, b as int),
{
    let ghost bytes = vstd::utf8::encode_utf8(s@);
    proof {
        vstd::utf8::encode_utf8_valid_utf8(s@);
    }
    let (left, _) = s.split_at(b);
    let ghost sub = bytes.subrange(0, b as int);
    assert(vstd::utf8::encode_utf8(left@) == sub);
    proof {
        vstd::utf8::valid_utf8_split(bytes, b as int);
        vstd::utf8::is_char_boundary_start_end_of_seq(sub);
        if a < b {
            vstd::utf8::is_char_boundary_iff_not_is_continuation_byte(bytes, a as int);
            vstd::utf8::is_char_boundary_iff_not_is_continuation_byte(sub, a as int);
        }
    }
    let (_, mid) = left.split_at(a);
    proof {
        vstd::utf8::encode_utf8_decode_utf8(mid@);
        assert(vstd::utf8::encode_utf8(mid@) =~= bytes.subrange(a as int, b as int));
    }
    mid
}

} // verus!
