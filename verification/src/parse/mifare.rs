//! Mifare decoding: Ultralight/NTAG (`ul_data`), Classic (`classic_data`) and DESFire
//! (`desfire_version_N`). These are mostly memory cards: UID, model and a summary of the data.
use vstd::prelude::*;
use crate::hexfmt::{encode_upper, hex_upper};
use crate::model::{RawCardData, lookup};
use crate::text::{concat2, dec_digits, decimal, push_decimal, push_str, strings_view, to_owned_string};
use super::model::ParsedCard;
use super::util::{hex_bytes, hex_slice, hex_slice_spec, hex_to_bytes};

verus! {

/// A hexadecimal text cut to `max` characters, with `…` when it was longer.
pub open spec fn truncate_spec(hex: Seq<char>, max: int) -> Seq<char> {
    if hex.len() > max {
        hex.subrange(0, max) + "…"@
    } else {
        hex
    }
}

/// Cuts a long hexadecimal text for display.
pub fn truncate_hex(hex: &str, max: usize) -> (res: String)
    ensures
        res@ == truncate_spec(hex@, max as int),
{
    let n = hex.unicode_len();
    if n > max {
        concat2(hex.substring_char(0, max), "…")
    } else {
        to_owned_string(hex)
    }
}

/// The UID of an Ultralight: bytes 0-2 and 4-7 of pages 0 and 1 (byte 3 is a check byte).
pub open spec fn ul_uid(b: Seq<u8>) -> Seq<u8> {
    b.subrange(0, 3) + b.subrange(4, 8)
}

/// What decoding an Ultralight/NTAG read gives: with data, the UID (when at least 9 bytes),
/// the number of bytes and the data cut to 64 hex characters; without, a note.
pub open spec fn ultralight_parsed(fields: Seq<(Seq<char>, Seq<char>)>, card: ParsedCard) -> bool {
    &&& card.name@ == "Mifare Ultralight / NTAG"@
    &&& card.currency@ == "¥"@
    &&& card.balance is None
    &&& card.transactions@.len() == 0
    &&& card.protocols@.len() == 0
    &&& match lookup(fields, "ul_data"@) {
        Some(h) => {
            let b = hex_bytes(h);
            &&& (if b.len() >= 9 { card.number matches Some(n) && n@ == hex_upper(ul_uid(b)) } else { card.number is None })
            &&& card.field_pairs() == seq![("已读字节"@, dec_digits(b.len())), ("原始数据"@, truncate_spec(h, 64))]
            &&& card.notes@.len() == 0
        },
        None => card.number is None && card.fields@.len() == 0 && strings_view(card.notes@) == seq!["未读到 Ultralight 数据"@],
    }
}

/// Decodes a Mifare Ultralight / NTAG read (`ultralight_parsed`).
pub fn parse_ultralight(raw: &RawCardData) -> (res: ParsedCard)
    ensures
        ultralight_parsed(raw.fields(), res),
{
    let mut card = ParsedCard::new("Mifare Ultralight / NTAG");
    match raw.get("ul_data") {
        Some(hex) => {
            let bytes = hex_to_bytes(hex);
            if bytes.len() >= 9 {
                let mut uid: Vec<u8> = Vec::new();
                uid.extend_from_slice(vstd::slice::slice_subrange(bytes.as_slice(), 0, 3));
                uid.extend_from_slice(vstd::slice::slice_subrange(bytes.as_slice(), 4, 8));
                assert(uid@ =~= ul_uid(bytes@));
                card.number = Some(encode_upper(uid.as_slice()));
            }
            let count = decimal(bytes.len() as u64);
            card.add_field("已读字节", count.as_str());
            let t = truncate_hex(hex, 64);
            card.add_field("原始数据", t.as_str());
            assert(card.field_pairs() =~= seq![("已读字节"@, dec_digits(bytes@.len())), ("原始数据"@, truncate_spec(hex@, 64))]);
        },
        None => {
            card.notes.push(to_owned_string("未读到 Ultralight 数据"));
            assert(strings_view(card.notes@) =~= seq!["未读到 Ultralight 数据"@]);
        },
    }
    card
}

/// What decoding a Classic read gives: with data, the UID (first 4 bytes, when there are
/// that many), the number of bytes and the data cut to 64 hex characters; without, a note.
pub open spec fn classic_parsed(fields: Seq<(Seq<char>, Seq<char>)>, card: ParsedCard) -> bool {
    &&& card.name@ == "Mifare Classic"@
    &&& card.currency@ == "¥"@
    &&& card.balance is None
    &&& card.transactions@.len() == 0
    &&& card.protocols@.len() == 0
    &&& match lookup(fields, "classic_data"@) {
        Some(h) => {
            let b = hex_bytes(h);
            &&& (if b.len() >= 4 { card.number matches Some(n) && n@ == hex_slice_spec(b, 0, 4) } else { card.number is None })
            &&& card.field_pairs() == seq![("已读字节"@, dec_digits(b.len())), ("原始数据"@, truncate_spec(h, 64))]
            &&& card.notes@.len() == 0
        },
        None => card.number is None && card.fields@.len() == 0 && strings_view(card.notes@) == seq![
            "未读到 Classic 数据（密钥可能不匹配）"@,
        ],
    }
}

/// Decodes a Mifare Classic read (`classic_parsed`).
pub fn parse_classic(raw: &RawCardData) -> (res: ParsedCard)
    ensures
        classic_parsed(raw.fields(), res),
{
    let mut card = ParsedCard::new("Mifare Classic");
    match raw.get("classic_data") {
        Some(hex) => {
            let bytes = hex_to_bytes(hex);
            if bytes.len() >= 4 {
                card.number = Some(hex_slice(bytes.as_slice(), 0, 4));
            }
            let count = decimal(bytes.len() as u64);
            card.add_field("已读字节", count.as_str());
            let t = truncate_hex(hex, 64);
            card.add_field("原始数据", t.as_str());
            assert(card.field_pairs() =~= seq![("已读字节"@, dec_digits(bytes@.len())), ("原始数据"@, truncate_spec(hex@, 64))]);
        },
        None => {
            card.notes.push(to_owned_string("未读到 Classic 数据（密钥可能不匹配）"));
            assert(strings_view(card.notes@) =~= seq!["未读到 Classic 数据（密钥可能不匹配）"@]);
        },
    }
    card
}

/// 2 to the power `e`.
pub open spec fn two_pow(e: nat) -> nat
    decreases e,
{
    if e == 0 {
        1
    } else {
        2 * two_pow((e - 1) as nat)
    }
}

/// The storage size of a DESFire in bytes: 2 to the power `storage >> 1` (the exponent taken
/// modulo 32, as a 32-bit shift does).
pub open spec fn desfire_size(storage: u8) -> nat {
    two_pow(((storage / 2) % 32) as nat)
}

/// What DESFire version frame 1 gives (at least 7 bytes): vendor, type and storage size.
pub open spec fn desfire_hw_fields(b: Seq<u8>) -> Seq<(Seq<char>, Seq<char>)> {
    if b.len() >= 7 {
        seq![
            ("厂商"@, hex_upper(seq![b[0]])),
            ("类型"@, hex_upper(seq![b[1]])),
            ("存储容量"@, "~"@ + dec_digits(desfire_size(b[5])) + " bytes"@),
        ]
    } else {
        Seq::empty()
    }
}

/// What DESFire version frame 3 gives (at least 7 bytes): the production week and year.
pub open spec fn desfire_prod_fields(b: Seq<u8>) -> Seq<(Seq<char>, Seq<char>)> {
    if b.len() >= 7 {
        seq![("生产"@, "第 "@ + hex_upper(seq![b[5]]) + " 周 / 20"@ + hex_upper(seq![b[6]]) + " 年"@)]
    } else {
        Seq::empty()
    }
}

/// What decoding a DESFire read gives: the hardware fields of frame 1, the production date of
/// frame 3, and the UID (first 7 bytes of frame 3).
pub open spec fn desfire_parsed(fields: Seq<(Seq<char>, Seq<char>)>, card: ParsedCard) -> bool {
    let v1 = match lookup(fields, "desfire_version_1"@) {
        Some(h) => desfire_hw_fields(hex_bytes(h)),
        None => Seq::empty(),
    };
    let v3 = match lookup(fields, "desfire_version_3"@) {
        Some(h) => desfire_prod_fields(hex_bytes(h)),
        None => Seq::empty(),
    };
    &&& card.name@ == "Mifare DESFire"@
    &&& card.currency@ == "¥"@
    &&& card.balance is None
    &&& card.transactions@.len() == 0
    &&& card.protocols@.len() == 0
    &&& card.notes@.len() == 0
    &&& card.field_pairs() == v1 + v3
    &&& match lookup(fields, "desfire_version_3"@) {
        Some(h) => if hex_bytes(h).len() >= 7 {
            card.number matches Some(n) && n@ == hex_slice_spec(hex_bytes(h), 0, 7)
        } else {
            card.number is None
        },
        None => card.number is None,
    }
}

/// 2 to the power `e`, for `e` below 32.
fn pow2_u32(e: u32) -> (res: u64)
    requires
        e < 32,
    ensures
        res == two_pow(e as nat),
        res <= 0x8000_0000,
{
    let mut v: u64 = 1;
    let mut i: u32 = 0;
    while i < e
        invariant
            i <= e,
            e < 32,
            v == two_pow(i as nat),
            v <= 0x8000_0000,
        decreases e - i,
    {
        proof {
            lemma_two_pow_bound((i + 1) as nat);
        }
        v = v * 2;
        i = i + 1;
    }
    v
}

proof fn lemma_two_pow_bound(e: nat)
    requires
        e <= 31,
    ensures
        two_pow(e) <= 0x8000_0000,
{
    lemma_two_pow_le(e, 31);
    assert(two_pow(31) == 0x8000_0000) by {
        reveal_with_fuel(two_pow, 32);
    }
}

proof fn lemma_two_pow_le(e: nat, f: nat)
    requires
        e <= f,
    ensures
        two_pow(e) <= two_pow(f),
    decreases f - e,
{
    if e < f {
        lemma_two_pow_le(e, (f - 1) as nat);
    }
}

/// Decodes a Mifare DESFire read (`desfire_parsed`).
pub fn parse_desfire(raw: &RawCardData) -> (res: ParsedCard)
    ensures
        desfire_parsed(raw.fields(), res),
{
    let mut card = ParsedCard::new("Mifare DESFire");
    if let Some(hex) = raw.get("desfire_version_1") {
        let b = hex_to_bytes(hex);
        if b.len() >= 7 {
            let b0: [u8; 1] = [b[0]];
            let b1: [u8; 1] = [b[1]];
            let h0 = encode_upper(&b0);
            let h1 = encode_upper(&b1);
            assert(b0@ =~= seq![b@[0]]);
            assert(b1@ =~= seq![b@[1]]);
            card.add_field("厂商", h0.as_str());
            card.add_field("类型", h1.as_str());
            let storage = b[5];
            let exp: u32 = ((storage / 2) % 32) as u32;
            let size = pow2_u32(exp);
            let mut v = to_owned_string("~");
            push_decimal(&mut v, size as u64);
            push_str(&mut v, " bytes");
            card.add_field("存储容量", v.as_str());
        }
    }
    let ghost f1 = card.field_pairs();
    assert(f1 =~= match lookup(raw.fields(), "desfire_version_1"@) {
        Some(h) => desfire_hw_fields(hex_bytes(h)),
        None => Seq::empty(),
    });
    if let Some(hex) = raw.get("desfire_version_3") {
        let b = hex_to_bytes(hex);
        if b.len() >= 7 {
            let w: [u8; 1] = [b[5]];
            let y: [u8; 1] = [b[6]];
            assert(w@ =~= seq![b@[5]]);
            assert(y@ =~= seq![b@[6]]);
            let mut v = to_owned_string("第 ");
            let hw = encode_upper(&w);
            push_str(&mut v, hw.as_str());
            push_str(&mut v, " 周 / 20");
            let hy = encode_upper(&y);
            push_str(&mut v, hy.as_str());
            push_str(&mut v, " 年");
            card.add_field("生产", v.as_str());
            card.number = Some(hex_slice(b.as_slice(), 0, 7));
        }
    }
    assert(card.field_pairs() =~= f1 + match lookup(raw.fields(), "desfire_version_3"@) {
        Some(h) => desfire_prod_fields(hex_bytes(h)),
        None => Seq::empty(),
    });
    card
}

} // verus!
