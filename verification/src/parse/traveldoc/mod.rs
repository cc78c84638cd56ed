//! Travel-document decoding: DG1 (the MRZ), DG2 (the face image), DG11 (the full name) and
//! the presence of the security object. Passports (TD3, an MRZ of 88 bytes, document code `P`)
//! and travel permits (TD1 variant, 90 bytes, document code `C`) are told apart by the
//! length of the MRZ.
pub mod eep;
pub mod mrz;
pub mod passport;

use vstd::prelude::*;
use crate::atr::{find_sub, find_subslice};
use crate::model::{RawCardData, lookup};
use crate::passport::utf8_len;
use crate::text::{byte_part, opt_text, char_is_ws, concat2, is_ws, push_char, push_decimal, push_str, strings_view, to_owned_string, trim, trim_spec, dec_digits};
use super::model::{ParsedCard};
use self::eep::{eep_cuts_ok, eep_fields};
use self::mrz::field_spec;
use self::passport::{passport_cuts_ok, passport_fields};
use super::tlv::{self, Tlv, find, find_spec, parsed_from};
use super::util::{hex_bytes, hex_to_bytes};

verus! {

/// The kind of travel document, from its MRZ.
#[derive(Debug, Clone, Copy, PartialEq, Eq, Structural)]
pub enum DocKind {
    Passport,
    Eep,
    Unknown,
}

/// A passport MRZ is 88 bytes long, a travel permit's 90; anything else is unknown.
pub open spec fn kind_spec(mrz: Option<Seq<char>>) -> DocKind {
    match mrz {
        Some(s) => if utf8_len(s) == 88 {
            DocKind::Passport
        } else if utf8_len(s) == 90 {
            DocKind::Eep
        } else {
            DocKind::Unknown
        },
        None => DocKind::Unknown,
    }
}

/// The kind of document an MRZ belongs to, by its length in bytes.
pub fn detect_kind(mrz: Option<&str>) -> (res: DocKind)
    ensures
        res == kind_spec(
            match mrz {
                Some(s) => Some(s@),
                None => None,
            },
        ),
{
    match mrz {
        Some(s) => {
            let n = s.as_bytes().len();
            if n == 88 {
                DocKind::Passport
            } else if n == 90 {
                DocKind::Eep
            } else {
                DocKind::Unknown
            }
        },
        None => DocKind::Unknown,
    }
}

/// Bytes read one character per byte (Latin-1).
pub open spec fn latin1(b: Seq<u8>) -> Seq<char> {
    b.map_values(|x: u8| x as char)
}

/// The MRZ found in DG1 bytes: the value of the first `5F1F` node, one character per byte;
/// none when there is no such node or it is empty.
pub open spec fn dg1_mrz(b: Seq<u8>, res: Option<Seq<char>>) -> bool {
    exists|nodes: Seq<Tlv>|
        #[trigger] parsed_from(b, 0, nodes) && match find_spec(nodes, "5F1F"@) {
            Some(t) => if t.value@.len() > 0 {
                res == Some(latin1(t.value@))
            } else {
                res is None
            },
            None => res is None,
        }
}

/// Extracts the MRZ text from DG1 (`61` → `5F1F`).
pub fn extract_mrz(bytes: &[u8]) -> (res: Option<String>)
    ensures
        dg1_mrz(bytes@, match res {
            Some(s) => Some(s@),
            None => None,
        }),
{
    let nodes = tlv::parse(bytes);
    let node = match find(nodes.as_slice(), "5F1F") {
        Some(n) => n,
        None => {
            assert(parsed_from(bytes@, 0, nodes@));
            return None;
        },
    };
    let mut s = String::new();
    let mut i: usize = 0;
    while i < node.value.len()
        invariant
            i <= node.value@.len(),
            s@ == latin1(node.value@.subrange(0, i as int)),
        decreases node.value@.len() - i,
    {
        let b = node.value[i];
        push_char(&mut s, b as char);
        i = i + 1;
        assert(s@ =~= latin1(node.value@.subrange(0, i as int)));
    }
    assert(node.value@.subrange(0, node.value@.len() as int) =~= node.value@);
    assert(parsed_from(bytes@, 0, nodes@));
    if s.unicode_len() == 0 {
        None
    } else {
        Some(s)
    }
}

/// `s` without its whitespace characters.
pub open spec fn drop_ws(s: Seq<char>) -> Seq<char>
    decreases s.len(),
{
    if s.len() == 0 {
        s
    } else if is_ws(s.last()) {
        drop_ws(s.drop_last())
    } else {
        drop_ws(s.drop_last()).push(s.last())
    }
}

fn remove_whitespace(s: &str) -> (res: String)
    ensures
        res@ == drop_ws(s@),
{
    let n = s.unicode_len();
    let mut out = String::new();
    let mut i: usize = 0;
    while i < n
        invariant
            n == s@.len(),
            i <= n,
            out@ == drop_ws(s@.subrange(0, i as int)),
        decreases n - i,
    {
        let c = s.get_char(i);
        assert(s@.subrange(0, i + 1).drop_last() =~= s@.subrange(0, i as int));
        if !char_is_ws(c) {
            push_char(&mut out, c);
        }
        i = i + 1;
    }
    assert(s@.subrange(0, n as int) =~= s@);
    out
}

/// What `String::from_utf8_lossy` makes of bytes (invalid sequences become U+FFFD).
pub uninterp spec fn utf8_lossy(bytes: Seq<u8>) -> Seq<char>;

/// `String::from_utf8_lossy`: the text of UTF-8 bytes, invalid sequences replaced.
#[verifier::external_body]
fn utf8_text(bytes: &[u8]) -> (res: String)
    ensures
        res@ == utf8_lossy(bytes@),
{
    String::from_utf8_lossy(bytes).into_owned()
}

/// The full name in DG11 bytes: the trimmed text of the first `5F0E` node; none without it.
pub open spec fn dg11_name(b: Seq<u8>, res: Option<Seq<char>>) -> bool {
    exists|nodes: Seq<Tlv>|
        #[trigger] parsed_from(b, 0, nodes) && match find_spec(nodes, "5F0E"@) {
            Some(t) => res == Some(trim_spec(utf8_lossy(t.value@))),
            None => res is None,
        }
}

/// The full name (`5F0E`) of DG11, trimmed.
fn dg11_full_name(bytes: &[u8]) -> (res: Option<String>)
    ensures
        dg11_name(bytes@, match res {
            Some(s) => Some(s@),
            None => None,
        }),
{
    let nodes = tlv::parse(bytes);
    assert(parsed_from(bytes@, 0, nodes@));
    match find(nodes.as_slice(), "5F0E") {
        Some(n) => {
            let t = utf8_text(n.value.as_slice());
            Some(to_owned_string(trim(t.as_str())))
        },
        None => None,
    }
}

/// The JPEG start `FF D8 FF`.
pub open spec fn jpeg_magic() -> Seq<u8> {
    seq![0xFFu8, 0xD8, 0xFF]
}

/// The JPEG 2000 codestream start `FF 4F FF 51`.
pub open spec fn j2k_magic() -> Seq<u8> {
    seq![0xFFu8, 0x4F, 0xFF, 0x51]
}

/// The JPEG 2000 file signature box start `00 00 00 0C 6A 50`.
pub open spec fn jp2_magic() -> Seq<u8> {
    seq![0x00u8, 0x00, 0x00, 0x0C, 0x6A, 0x50]
}

/// The image format in DG2 and the bytes from its start to the end: JPEG, then a JPEG 2000
/// codestream, then a JPEG 2000 file, whichever is found first in that order.
pub open spec fn face_spec(b: Seq<u8>) -> Option<(Seq<char>, nat)> {
    match find_sub(b, jpeg_magic()) {
        Some(p) => Some(("JPEG"@, (b.len() - p) as nat)),
        None => match find_sub(b, j2k_magic()) {
            Some(p) => Some(("JPEG2000"@, (b.len() - p) as nat)),
            None => match find_sub(b, jp2_magic()) {
                Some(p) => Some(("JPEG2000"@, (b.len() - p) as nat)),
                None => None,
            },
        },
    }
}

proof fn lemma_find_sub_in(hay: Seq<u8>, needle: Seq<u8>, from: int)
    requires
        0 <= from,
    ensures
        match crate::atr::find_from(hay, needle, from) {
            Some(p) => from <= p <= hay.len(),
            None => true,
        },
    decreases hay.len() - from,
{
    if from + needle.len() <= hay.len() && needle.len() > 0 && !crate::atr::occurs_at(hay, needle, from) {
        lemma_find_sub_in(hay, needle, from + 1);
    }
}

/// The format of the face image in DG2 and its size in bytes (`face_spec`).
pub fn face_image_info(bytes: &[u8]) -> (res: Option<(&'static str, usize)>)
    ensures
        match face_spec(bytes@) {
            Some((f, n)) => res matches Some((g, m)) && g@ == f && m == n,
            None => res is None,
        },
{
    let jpeg: [u8; 3] = [0xFF, 0xD8, 0xFF];
    let j2k: [u8; 4] = [0xFF, 0x4F, 0xFF, 0x51];
    let jp2: [u8; 6] = [0x00, 0x00, 0x00, 0x0C, 0x6A, 0x50];
    assert(jpeg@ =~= jpeg_magic());
    assert(j2k@ =~= j2k_magic());
    assert(jp2@ =~= jp2_magic());
    proof {
        lemma_find_sub_in(bytes@, jpeg_magic(), 0);
        lemma_find_sub_in(bytes@, j2k_magic(), 0);
        lemma_find_sub_in(bytes@, jp2_magic(), 0);
    }
    if let Some(pos) = find_subslice(bytes, &jpeg) {
        return Some(("JPEG", bytes.len() - pos));
    }
    if let Some(pos) = find_subslice(bytes, &j2k) {
        return Some(("JPEG2000", bytes.len() - pos));
    }
    if let Some(pos) = find_subslice(bytes, &jp2) {
        return Some(("JPEG2000", bytes.len() - pos));
    }
    None
}

/// The title of the card for a kind of document.
pub open spec fn title_spec(k: DocKind) -> Seq<char> {
    match k {
        DocKind::Passport => "电子护照"@,
        DocKind::Eep => "电子往来港澳通行证"@,
        DocKind::Unknown => "旅行证件"@,
    }
}

/// The MRZ part of a decoded travel document: the layout's fields and number, or, for an MRZ
/// of no known layout, a note with its length in bytes and the MRZ itself as a field; a note
/// when there is no MRZ. An MRZ of a known length whose field offsets do not all fall on
/// character boundaries (possible only with non-ASCII characters) cannot be cut into its
/// fields and gets the same note.
pub open spec fn mrz_part(m: Option<Seq<char>>, number: Option<String>, fields: Seq<(Seq<char>, Seq<char>)>, notes: Seq<Seq<char>>) -> bool {
    match m {
        None => number is None && fields.len() == 0 && notes == seq!["未读到 DG1（MRZ）"@],
        Some(s) => if kind_spec(m) == DocKind::Passport && passport_cuts_ok(s) {
            fields == passport_fields(s) && notes.len() == 0 && (number matches Some(n) && n@ == field_spec(byte_part(s, 44, 53)))
        } else if kind_spec(m) == DocKind::Eep && eep_cuts_ok(s) {
            fields == eep_fields(s) && notes.len() == 0 && (number matches Some(n) && n@ == field_spec(byte_part(s, 2, 11)))
        } else {
            &&& number is None
            &&& fields == seq![("MRZ"@, s)]
            &&& notes == seq!["MRZ 长度异常("@ + dec_digits(utf8_len(s)) + ")，无法解析字段"@]
        },
    }
}

/// The fields that DG11, DG2 and the security object add, in that order.
pub open spec fn extra_fields(
    name11: Option<Seq<char>>,
    face: Option<Option<(Seq<char>, nat)>>,
    sod: bool,
) -> Seq<(Seq<char>, Seq<char>)> {
    (match name11 {
        Some(n) => if n.len() > 0 {
            seq![("中文姓名"@, n)]
        } else {
            Seq::empty()
        },
        None => Seq::empty(),
    }) + (match face {
        Some(Some((f, size))) => seq![("人脸图像"@, f + "，"@ + dec_digits(size) + " 字节"@)],
        Some(None) => seq![("人脸图像"@, "存在（格式未识别）"@)],
        None => Seq::empty(),
    }) + (if sod {
        seq![("安全对象"@, "SOD 已读取（含签名，未做 PA 验证）"@)]
    } else {
        Seq::empty()
    })
}

/// The MRZ of a read: the DG1 MRZ with whitespace removed; none without DG1 or MRZ.
pub open spec fn mrz_of(fields: Seq<(Seq<char>, Seq<char>)>, m: Option<Seq<char>>) -> bool {
    match lookup(fields, "passport_dg1"@) {
        Some(h) => exists|raw_mrz: Option<Seq<char>>| #[trigger] dg1_mrz(hex_bytes(h), raw_mrz) && m == match raw_mrz {
            Some(r) => Some(drop_ws(r)),
            None => None::<Seq<char>>,
        },
        None => m is None,
    }
}

/// The DG11 name of a read; none without DG11 or its name.
pub open spec fn name11_of(fields: Seq<(Seq<char>, Seq<char>)>, n: Option<Seq<char>>) -> bool {
    match lookup(fields, "passport_dg11"@) {
        Some(h) => dg11_name(hex_bytes(h), n),
        None => n is None,
    }
}

/// The MRZ of a read, whitespace removed (`mrz_of`).
fn clean_mrz(raw: &RawCardData) -> (res: Option<String>)
    ensures
        mrz_of(raw.fields(), opt_text(res)),
{
    match raw.get("passport_dg1") {
        Some(dg1) => {
            let bytes = hex_to_bytes(dg1);
            let e = extract_mrz(bytes.as_slice());
            assert(lookup(raw.fields(), "passport_dg1"@)->Some_0 == dg1@);
            match e {
                Some(m) => Some(remove_whitespace(m.as_str())),
                None => None,
            }
        },
        None => None,
    }
}

/// The card for an MRZ: the title of its kind, no currency, the MRZ part (`mrz_part`).
pub fn card_from_mrz(mrz_clean: Option<&str>) -> (res: ParsedCard)
    ensures
        ({
            let m = match mrz_clean {
                Some(s) => Some(s@),
                None => None,
            };
            &&& mrz_part(m, res.number, res.field_pairs(), strings_view(res.notes@))
            &&& res.name@ == title_spec(kind_spec(m))
            &&& res.currency@.len() == 0
            &&& res.balance is None
            &&& res.transactions@.len() == 0
            &&& res.protocols@.len() == 0
        }),
{
    let kind = detect_kind(mrz_clean);
    let title = match kind {
        DocKind::Passport => "电子护照",
        DocKind::Eep => "电子往来港澳通行证",
        DocKind::Unknown => "旅行证件",
    };
    let mut card = ParsedCard::new(title);
    card.currency = String::new();
    match mrz_clean {
        Some(cs) => {
            if kind == DocKind::Passport && passport::passport_cuts(cs) {
                passport::parse(&mut card, cs);
            } else if kind == DocKind::Eep && eep::eep_cuts(cs) {
                eep::parse(&mut card, cs);
            } else {
                let mut note = to_owned_string("MRZ 长度异常(");
                push_decimal(&mut note, cs.as_bytes().len() as u64);
                push_str(&mut note, ")，无法解析字段");
                let ghost nv = note@;
                card.notes.push(note);
                assert(strings_view(card.notes@) =~= seq![nv]);
                card.add_field("MRZ", cs);
                assert(card.field_pairs() =~= seq![("MRZ"@, cs@)]);
            }
        },
        None => {
            card.notes.push(to_owned_string("未读到 DG1（MRZ）"));
            assert(strings_view(card.notes@) =~= seq!["未读到 DG1（MRZ）"@]);
        },
    }
    card
}

/// The fields of DG11, DG2 and the security object (`extra_fields`).
fn add_extras(card: &mut ParsedCard, raw: &RawCardData)
    ensures
        exists|n: Option<Seq<char>>| #[trigger] name11_of(raw.fields(), n)
            && final(card).field_pairs() == old(card).field_pairs() + extra_fields(
            n,
            match lookup(raw.fields(), "passport_dg2"@) {
                Some(h) => Some(face_spec(hex_bytes(h))),
                None => None,
            },
            lookup(raw.fields(), "passport_sod"@) is Some,
        ),
        final(card).name == old(card).name,
        final(card).number == old(card).number,
        final(card).balance == old(card).balance,
        final(card).currency == old(card).currency,
        final(card).transactions == old(card).transactions,
        final(card).protocols == old(card).protocols,
        final(card).notes == old(card).notes,
{
    let name11: Option<String> = match raw.get("passport_dg11") {
        Some(dg11) => {
            let bytes = hex_to_bytes(dg11);
            dg11_full_name(bytes.as_slice())
        },
        None => None,
    };
    let ghost n11 = opt_text(name11);
    proof {
        if lookup(raw.fields(), "passport_dg11"@) is Some {
            let h = lookup(raw.fields(), "passport_dg11"@)->Some_0;
            assert(dg11_name(hex_bytes(h), n11));
        }
    }
    assert(name11_of(raw.fields(), n11));
    if let Some(n) = &name11 {
        if n.unicode_len() > 0 {
            card.add_field("中文姓名", n.as_str());
        }
    }
    if let Some(dg2) = raw.get("passport_dg2") {
        let bytes = hex_to_bytes(dg2);
        match face_image_info(bytes.as_slice()) {
            Some((fmt, size)) => {
                let mut v = concat2(fmt, "，");
                push_decimal(&mut v, size as u64);
                push_str(&mut v, " 字节");
                card.add_field("人脸图像", v.as_str());
            },
            None => {
                card.add_field("人脸图像", "存在（格式未识别）");
            },
        }
    }
    if raw.get("passport_sod").is_some() {
        card.add_field("安全对象", "SOD 已读取（含签名，未做 PA 验证）");
    }
    assert(card.field_pairs() =~= old(card).field_pairs() + extra_fields(
        n11,
        match lookup(raw.fields(), "passport_dg2"@) {
            Some(h) => Some(face_spec(hex_bytes(h))),
            None => None,
        },
        lookup(raw.fields(), "passport_sod"@) is Some,
    ));
}

/// What decoding a travel document gives: for the MRZ found (`mrz_of`) and the DG11 name
/// found (`name11_of`), the card of `card_from_mrz` with the fields of `extra_fields` after
/// the MRZ fields `mf`.
pub open spec fn traveldoc_parsed(fields: Seq<(Seq<char>, Seq<char>)>, card: ParsedCard) -> bool {
    exists|m: Option<Seq<char>>, n: Option<Seq<char>>, mf: Seq<(Seq<char>, Seq<char>)>|
        #![trigger mrz_of(fields, m), name11_of(fields, n), mrz_part(m, card.number, mf, strings_view(card.notes@))]
        mrz_of(fields, m) && name11_of(fields, n) && mrz_part(m, card.number, mf, strings_view(card.notes@))
        && card.name@ == title_spec(kind_spec(m)) && card.currency@.len() == 0 && card.balance is None
        && card.transactions@.len() == 0 && card.protocols@.len() == 0 && card.field_pairs() == mf
        + extra_fields(
        n,
        match lookup(fields, "passport_dg2"@) {
            Some(h) => Some(face_spec(hex_bytes(h))),
            None => None,
        },
        lookup(fields, "passport_sod"@) is Some,
    )
}

/// Decodes a travel-document read (`traveldoc_parsed`).
pub fn parse(raw: &RawCardData) -> (res: ParsedCard)
    ensures
        traveldoc_parsed(raw.fields(), res),
{
    let mrz_clean = clean_mrz(raw);
    let ghost m = opt_text(mrz_clean);
    let mut card = match &mrz_clean {
        Some(s) => card_from_mrz(Some(s.as_str())),
        None => card_from_mrz(None),
    };
    let ghost mf = card.field_pairs();
    add_extras(&mut card, raw);
    card
}

} // verus!
