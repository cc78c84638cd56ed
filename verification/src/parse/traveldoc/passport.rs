//! The passport layout (TD3): two lines of 44 characters.
use vstd::prelude::*;
use crate::passport::utf8_len;
use crate::text::{byte_part, byte_sub, cut_ok, to_owned_string};
use super::super::model::ParsedCard;
use super::mrz::{date, date_spec, field, field_spec, sex, sex_spec, split_name, split_name_spec};

verus! {

/// Whether a passport MRZ can be cut into its fields: it has at least 88 bytes, and every
/// byte offset where a field starts or ends falls on a character boundary.
pub open spec fn passport_cuts_ok(s: Seq<char>) -> bool {
    &&& utf8_len(s) >= 88
    &&& cut_ok(s, 2)
    &&& cut_ok(s, 5)
    &&& cut_ok(s, 44)
    &&& cut_ok(s, 53)
    &&& cut_ok(s, 54)
    &&& cut_ok(s, 57)
    &&& cut_ok(s, 63)
    &&& cut_ok(s, 64)
    &&& cut_ok(s, 65)
    &&& cut_ok(s, 71)
    &&& cut_ok(s, 88)
}

/// Whether a passport MRZ can be cut into its fields (`passport_cuts_ok`).
pub fn passport_cuts(s: &str) -> (res: bool)
    ensures
        res == passport_cuts_ok(s@),
{
    s.as_bytes().len() >= 88 && s.is_char_boundary(2) && s.is_char_boundary(5)
        && s.is_char_boundary(44) && s.is_char_boundary(53) && s.is_char_boundary(54)
        && s.is_char_boundary(57) && s.is_char_boundary(63) && s.is_char_boundary(64)
        && s.is_char_boundary(65) && s.is_char_boundary(71) && s.is_char_boundary(88)
}

/// The fields of a passport MRZ (TD3, two lines of 44 bytes, fields cut by byte offset):
/// document code, issuing state, surname, given names, document number, nationality, birth
/// date, sex, expiry date.
pub open spec fn passport_fields(s: Seq<char>) -> Seq<(Seq<char>, Seq<char>)> {
    let names = split_name_spec(byte_part(s, 5, 44));
    seq![
        ("证件类型"@, field_spec(byte_part(s, 0, 2))),
        ("签发国"@, field_spec(byte_part(s, 2, 5))),
        ("姓"@, names.0),
        ("名"@, names.1),
        ("证件号"@, field_spec(byte_part(s, 44, 53))),
        ("国籍"@, field_spec(byte_part(s, 54, 57))),
        ("出生日期"@, date_spec(byte_part(s, 57, 63))),
        ("性别"@, sex_spec(byte_part(s, 64, 65))),
        ("有效期至"@, date_spec(byte_part(s, 65, 71))),
    ]
}

/// Fills a card from a passport MRZ (`passport_fields`; the document number is also the card
/// number).
pub fn parse(card: &mut ParsedCard, s: &str)
    requires
        passport_cuts_ok(s@),
    ensures
        final(card).field_pairs() == old(card).field_pairs() + passport_fields(s@),
        final(card).number matches Some(n) && n@ == field_spec(byte_part(s@, 44, 53)),
        final(card).name == old(card).name,
        final(card).balance == old(card).balance,
        final(card).currency == old(card).currency,
        final(card).notes == old(card).notes,
        final(card).transactions == old(card).transactions,
        final(card).protocols == old(card).protocols,
{
    proof {
        vstd::utf8::encode_utf8_valid_utf8(s@);
        vstd::utf8::is_char_boundary_start_end_of_seq(vstd::utf8::encode_utf8(s@));
    }
    let a = field(byte_sub(s, 0, 2));
    card.add_field("证件类型", a.as_str());
    let b = field(byte_sub(s, 2, 5));
    card.add_field("签发国", b.as_str());
    let (surname, given) = split_name(byte_sub(s, 5, 44));
    card.add_field("姓", surname.as_str());
    card.add_field("名", given.as_str());
    let number = field(byte_sub(s, 44, 53));
    card.number = Some(to_owned_string(number.as_str()));
    card.add_field("证件号", number.as_str());
    let c = field(byte_sub(s, 54, 57));
    card.add_field("国籍", c.as_str());
    let d = date(byte_sub(s, 57, 63));
    card.add_field("出生日期", d.as_str());
    let e = sex(byte_sub(s, 64, 65));
    card.add_field("性别", e.as_str());
    let f = date(byte_sub(s, 65, 71));
    card.add_field("有效期至", f.as_str());
    assert(card.field_pairs() =~= old(card).field_pairs() + passport_fields(s@));
}


/// Between two character boundaries one byte apart lies one ASCII character: that byte.
proof fn lemma_one_byte_char(s: Seq<char>, i: int)
    requires
        0 <= i,
        i + 1 < utf8_len(s),
        cut_ok(s, i),
        cut_ok(s, i + 1),
    ensures
        vstd::utf8::encode_utf8(s)[i] < 0x80,
        byte_part(s, i, i + 1) == seq![vstd::utf8::encode_utf8(s)[i] as char],
{
    let bytes = vstd::utf8::encode_utf8(s);
    vstd::utf8::encode_utf8_valid_utf8(s);
    vstd::utf8::valid_utf8_split(bytes, i + 1);
    let pre = bytes.subrange(0, i + 1);
    vstd::utf8::is_char_boundary_iff_not_is_continuation_byte(bytes, i);
    vstd::utf8::is_char_boundary_iff_not_is_continuation_byte(pre, i);
    vstd::utf8::valid_utf8_split(pre, i);
    let one = pre.subrange(i, i + 1);
    assert(one =~= bytes.subrange(i, i + 1));
    let b = bytes[i];
    assert(one =~= seq![b]);
    assert(vstd::utf8::valid_utf8(one));
    assert(vstd::utf8::is_leading_byte_width_1(b));
    assert(b & 0x7F == b) by (bit_vector)
        requires
            b <= 0x7f,
    ;
    assert(vstd::utf8::pop_first_scalar(one) =~= Seq::<u8>::empty());
    assert(vstd::utf8::decode_first_scalar(one) == b as u32);
    assert(vstd::utf8::decode_utf8(Seq::<u8>::empty()) =~= Seq::<char>::empty());
    assert(vstd::utf8::decode_utf8(one) == seq![(b as u32) as char] + vstd::utf8::decode_utf8(Seq::<u8>::empty()));
    assert((b as u32) as char == b as char);
    assert(vstd::utf8::decode_utf8(one) =~= seq![b as char]);
}

/// The sex field of a passport MRZ reads the code at byte 64: `M` is `男`, `F` is `女`, and
/// any other code (such as `<`) is `未指定`.
pub proof fn law_passport_sex(s: Seq<char>)
    requires
        passport_cuts_ok(s),
    ensures
        ({
            let code = vstd::utf8::encode_utf8(s)[64];
            passport_fields(s)[7] == ("性别"@, if code == 0x4D {
                "男"@
            } else if code == 0x46 {
                "女"@
            } else {
                "未指定"@
            })
        }),
{
    lemma_one_byte_char(s, 64);
    let code = vstd::utf8::encode_utf8(s)[64];
    reveal_strlit("M");
    reveal_strlit("F");
    assert(seq![code as char] == "M"@ <==> code == 0x4D) by {
        if code == 0x4D {
            assert(seq![code as char] =~= "M"@);
        }
        if seq![code as char] == "M"@ {
            assert(seq![code as char][0] == 'M');
        }
    }
    assert(seq![code as char] == "F"@ <==> code == 0x46) by {
        if code == 0x46 {
            assert(seq![code as char] =~= "F"@);
        }
        if seq![code as char] == "F"@ {
            assert(seq![code as char][0] == 'F');
        }
    }
}

} // verus!
