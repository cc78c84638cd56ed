//! The travel-permit layout (TD1 variant): three lines of 30 characters.
use vstd::prelude::*;
use crate::passport::utf8_len;
use crate::text::{byte_part, byte_sub, cut_ok, to_owned_string};
use super::super::model::ParsedCard;
use super::mrz::{date, date_spec, field, field_spec, split_name, split_name_spec};

verus! {

/// Whether a travel-permit MRZ can be cut into its fields: it has at least 60 bytes, and
/// every byte offset where a field starts or ends falls on a character boundary.
pub open spec fn eep_cuts_ok(s: Seq<char>) -> bool {
    &&& utf8_len(s) >= 60
    &&& cut_ok(s, 2)
    &&& cut_ok(s, 11)
    &&& cut_ok(s, 13)
    &&& cut_ok(s, 19)
    &&& cut_ok(s, 21)
    &&& cut_ok(s, 27)
    &&& cut_ok(s, 30)
    &&& cut_ok(s, 42)
    &&& cut_ok(s, 60)
}

/// Whether a travel-permit MRZ can be cut into its fields (`eep_cuts_ok`).
pub fn eep_cuts(s: &str) -> (res: bool)
    ensures
        res == eep_cuts_ok(s@),
{
    s.as_bytes().len() >= 60 && s.is_char_boundary(2) && s.is_char_boundary(11)
        && s.is_char_boundary(13) && s.is_char_boundary(19) && s.is_char_boundary(21)
        && s.is_char_boundary(27) && s.is_char_boundary(30) && s.is_char_boundary(42)
        && s.is_char_boundary(60)
}

/// The fields of a travel-permit MRZ (TD1 variant, three lines of 30 bytes, fields cut by
/// byte offset): document code, document number, expiry date, birth date, then surname and
/// given names (from byte 12 of line 2) when not empty.
pub open spec fn eep_fields(s: Seq<char>) -> Seq<(Seq<char>, Seq<char>)> {
    let names = split_name_spec(byte_part(s, 42, 60));
    seq![
        ("证件类型"@, field_spec(byte_part(s, 0, 2))),
        ("证件号"@, field_spec(byte_part(s, 2, 11))),
        ("有效期至"@, date_spec(byte_part(s, 13, 19))),
        ("出生日期"@, date_spec(byte_part(s, 21, 27))),
    ] + (if names.0.len() > 0 {
        seq![("姓"@, names.0)]
    } else {
        Seq::empty()
    }) + (if names.1.len() > 0 {
        seq![("名"@, names.1)]
    } else {
        Seq::empty()
    })
}

/// Fills a card from a travel-permit MRZ (`eep_fields`; the document number is also the card
/// number).
pub fn parse(card: &mut ParsedCard, s: &str)
    requires
        eep_cuts_ok(s@),
    ensures
        final(card).field_pairs() == old(card).field_pairs() + eep_fields(s@),
        final(card).number matches Some(n) && n@ == field_spec(byte_part(s@, 2, 11)),
        final(card).name == old(card).name,
        final(card).balance == old(card).balance,
        final(card).currency == old(card).currency,
        final(card).notes == old(card).notes,
        final(card).transactions == old(card).transactions,
        final(card).protocols == old(card).protocols,
{
    proof {
        vstd::utf8::encode_utf8_valid_utf8(s@);
        vstd::utf8::is_char_boundary_start_end_of_seq(vstd::utf8::encode_utf8(s@));
    }
    let a = field(byte_sub(s, 0, 2));
    card.add_field("证件类型", a.as_str());
    let number = field(byte_sub(s, 2, 11));
    card.number = Some(to_owned_string(number.as_str()));
    card.add_field("证件号", number.as_str());
    let e = date(byte_sub(s, 13, 19));
    card.add_field("有效期至", e.as_str());
    let b = date(byte_sub(s, 21, 27));
    card.add_field("出生日期", b.as_str());
    let (surname, given) = split_name(byte_sub(s, 42, 60));
    if surname.unicode_len() > 0 {
        card.add_field("姓", surname.as_str());
    }
    if given.unicode_len() > 0 {
        card.add_field("名", given.as_str());
    }
    assert(card.field_pairs() =~= old(card).field_pairs() + eep_fields(s@));
}

} // verus!
