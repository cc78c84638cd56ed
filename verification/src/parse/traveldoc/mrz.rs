//! MRZ (machine-readable zone) primitives shared by the passport (TD3) and the travel permit
//! (TD1 variant) layouts: field cleaning, dates, sex codes and the split of the name field.
use vstd::prelude::*;
use crate::text::{all_digits, dec_digits, push_char, push_decimal, push_str, to_owned_string, trim, trim_spec};

verus! {

/// The number of `<` at the start of `s`.
pub open spec fn lead_fill(s: Seq<char>) -> nat
    decreases s.len(),
{
    if s.len() > 0 && s[0] == '<' {
        1 + lead_fill(s.drop_first())
    } else {
        0
    }
}

/// The number of `<` at the end of `s`.
pub open spec fn trail_fill(s: Seq<char>) -> nat
    decreases s.len(),
{
    if s.len() > 0 && s.last() == '<' {
        1 + trail_fill(s.drop_last())
    } else {
        0
    }
}

/// `s` without `<` at its end.
pub open spec fn drop_trailing_fill(s: Seq<char>) -> Seq<char> {
    s.subrange(0, s.len() - trail_fill(s))
}

/// `s` without `<` at either end.
pub open spec fn strip_fill(s: Seq<char>) -> Seq<char> {
    drop_trailing_fill(s.subrange(lead_fill(s) as int, s.len() as int))
}

/// `s` with each `<` made a space.
pub open spec fn fill_to_space(s: Seq<char>) -> Seq<char> {
    s.map_values(|c: char| if c == '<' { ' ' } else { c })
}

/// A cleaned MRZ field: the filler `<` dropped at both ends, inner fillers made spaces, and
/// surrounding whitespace trimmed.
pub open spec fn field_spec(s: Seq<char>) -> Seq<char> {
    trim_spec(fill_to_space(strip_fill(s)))
}

proof fn lemma_lead_fill(s: Seq<char>, k: int)
    requires
        0 <= k <= s.len(),
        forall|j: int| 0 <= j < k ==> #[trigger] s[j] == '<',
        k == s.len() || s[k] != '<',
    ensures
        lead_fill(s) == k,
    decreases k,
{
    if k > 0 {
        let d = s.drop_first();
        assert forall|j: int| 0 <= j < k - 1 implies #[trigger] d[j] == '<' by {
            assert(d[j] == s[j + 1]);
        }
        lemma_lead_fill(d, k - 1);
    }
}

proof fn lemma_trail_fill(s: Seq<char>, k: int)
    requires
        0 <= k <= s.len(),
        forall|j: int| s.len() - k <= j < s.len() ==> #[trigger] s[j] == '<',
        k == s.len() || s[s.len() - k - 1] != '<',
    ensures
        trail_fill(s) == k,
    decreases k,
{
    if k > 0 {
        let d = s.drop_last();
        assert forall|j: int| d.len() - (k - 1) <= j < d.len() implies #[trigger] d[j] == '<' by {
            assert(d[j] == s[j]);
        }
        lemma_trail_fill(d, k - 1);
    }
}

/// `s` without `<` at its end.
fn trim_end_fill(s: &str) -> (res: &str)
    ensures
        res@ == drop_trailing_fill(s@),
{
    let n = s.unicode_len();
    let mut k: usize = 0;
    while k < n && s.get_char(n - k - 1) == '<'
        invariant
            n == s@.len(),
            k <= n,
            forall|j: int| n - k <= j < n ==> #[trigger] s@[j] == '<',
        decreases n - k,
    {
        k = k + 1;
    }
    proof {
        lemma_trail_fill(s@, k as int);
    }
    s.substring_char(0, n - k)
}

/// `s` without `<` at either end.
fn trim_fill(s: &str) -> (res: &str)
    ensures
        res@ == strip_fill(s@),
{
    let n = s.unicode_len();
    let mut i: usize = 0;
    while i < n && s.get_char(i) == '<'
        invariant
            n == s@.len(),
            i <= n,
            forall|j: int| 0 <= j < i ==> #[trigger] s@[j] == '<',
        decreases n - i,
    {
        i = i + 1;
    }
    proof {
        lemma_lead_fill(s@, i as int);
    }
    trim_end_fill(s.substring_char(i, n))
}

/// `s` with every `<` replaced by a space.
fn spaces_for_fill(s: &str) -> (res: String)
    ensures
        res@ == fill_to_space(s@),
{
    let n = s.unicode_len();
    let mut out = String::new();
    let mut i: usize = 0;
    while i < n
        invariant
            n == s@.len(),
            i <= n,
            out@ == fill_to_space(s@.subrange(0, i as int)),
        decreases n - i,
    {
        let c = s.get_char(i);
        push_char(&mut out, if c == '<' { ' ' } else { c });
        i = i + 1;
        assert(out@ =~= fill_to_space(s@.subrange(0, i as int)));
    }
    assert(s@.subrange(0, n as int) =~= s@);
    out
}

/// Cleans an MRZ field: outer fillers dropped, inner fillers made spaces, whitespace trimmed.
pub fn field(s: &str) -> (res: String)
    ensures
        res@ == field_spec(s@),
{
    let stripped = trim_fill(s);
    let spaced = spaces_for_fill(stripped);
    to_owned_string(trim(spaced.as_str()))
}

/// Whether `s` has `<<` at position `i`.
pub open spec fn double_fill_at(s: Seq<char>, i: int) -> bool {
    0 <= i && i + 1 < s.len() && s[i] == '<' && s[i + 1] == '<'
}

/// The first position of `<<` in `s`, from `i` on.
pub open spec fn first_double_fill(s: Seq<char>, i: int) -> Option<int>
    decreases s.len() - i,
{
    if i < 0 || i + 1 >= s.len() {
        None
    } else if double_fill_at(s, i) {
        Some(i)
    } else {
        first_double_fill(s, i + 1)
    }
}

/// Surname and given names of an MRZ name field: trailing fillers dropped, then the field is
/// split at its first `<<`; inner fillers become spaces and each part is trimmed. Without
/// `<<` everything is the surname.
pub open spec fn split_name_spec(f: Seq<char>) -> (Seq<char>, Seq<char>) {
    let t = drop_trailing_fill(f);
    match first_double_fill(t, 0) {
        Some(i) => (trim_spec(fill_to_space(t.subrange(0, i))), trim_spec(fill_to_space(t.subrange(i + 2, t.len() as int)))),
        None => (trim_spec(fill_to_space(t)), Seq::empty()),
    }
}

/// Splits an MRZ name field into surname and given names.
pub fn split_name(field_str: &str) -> (res: (String, String))
    ensures
        (res.0@, res.1@) == split_name_spec(field_str@),
{
    let t = trim_end_fill(field_str);
    let n = t.unicode_len();
    let mut i: usize = 0;
    let mut found = false;
    while i < n && n - i > 1 && !found
        invariant
            n == t@.len(),
            i <= n,
            found ==> double_fill_at(t@, i as int) && first_double_fill(t@, 0) == Some(i as int),
            !found ==> first_double_fill(t@, 0) == first_double_fill(t@, i as int),
        decreases n - i, (if found { 0int } else { 1int }),
    {
        if t.get_char(i) == '<' && t.get_char(i + 1) == '<' {
            found = true;
        } else {
            i = i + 1;
        }
    }
    if found {
        let sur = spaces_for_fill(t.substring_char(0, i));
        let giv = spaces_for_fill(t.substring_char(i + 2, n));
        (to_owned_string(trim(sur.as_str())), to_owned_string(trim(giv.as_str())))
    } else {
        let sur = spaces_for_fill(t);
        (to_owned_string(trim(sur.as_str())), String::new())
    }
}

/// The value of the two ASCII digits at `at`.
pub open spec fn two_digit_at(s: Seq<char>, at: int) -> int {
    (s[at] as int - 48) * 10 + (s[at + 1] as int - 48)
}

/// An MRZ date `YYMMDD` as `YYYY-MM-DD`, years up to 50 taken as 20xx and later ones as 19xx;
/// anything that is not six digits comes back unchanged.
pub open spec fn date_spec(s: Seq<char>) -> Seq<char> {
    if s.len() != 6 || !all_digits(s) {
        s
    } else {
        let yy = two_digit_at(s, 0);
        let year = if yy <= 50 { 2000 + yy } else { 1900 + yy };
        dec_digits(year as nat) + seq!['-'] + s.subrange(2, 4) + seq!['-'] + s.subrange(4, 6)
    }
}

/// Formats an MRZ date `YYMMDD` as `YYYY-MM-DD`.
pub fn date(s: &str) -> (res: String)
    ensures
        res@ == date_spec(s@),
{
    let n = s.unicode_len();
    if n != 6 {
        return to_owned_string(s);
    }
    let mut i: usize = 0;
    while i < 6
        invariant
            n == s@.len(),
            n == 6,
            i <= 6,
            forall|j: int| 0 <= j < i ==> crate::text::is_digit(#[trigger] s@[j]),
        decreases 6 - i,
    {
        let c = s.get_char(i);
        if !('0' <= c && c <= '9') {
            return to_owned_string(s);
        }
        i = i + 1;
    }
    let yy = (s.get_char(0) as u32 - 48) * 10 + (s.get_char(1) as u32 - 48);
    let year: u32 = if yy <= 50 { 2000 + yy } else { 1900 + yy };
    let mut out = String::new();
    push_decimal(&mut out, year as u64);
    push_char(&mut out, '-');
    push_str(&mut out, s.substring_char(2, 4));
    push_char(&mut out, '-');
    push_str(&mut out, s.substring_char(4, 6));
    assert(out@ =~= date_spec(s@));
    out
}

/// The sex code: `M` male, `F` female, anything else unspecified.
pub open spec fn sex_spec(s: Seq<char>) -> Seq<char> {
    if s == "M"@ {
        "男"@
    } else if s == "F"@ {
        "女"@
    } else {
        "未指定"@
    }
}

/// The readable sex of an MRZ sex code.
pub fn sex(s: &str) -> (res: String)
    ensures
        res@ == sex_spec(s@),
{
    if crate::text::str_eq(s, "M") {
        to_owned_string("男")
    } else if crate::text::str_eq(s, "F") {
        to_owned_string("女")
    } else {
        to_owned_string("未指定")
    }
}

} // verus!
