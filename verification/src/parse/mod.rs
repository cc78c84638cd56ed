//! Decoding of the raw bytes a read gathered into readable card information: the card type
//! of a single-protocol card picks its decoder; the sub-cards of a Type A / B chip are decoded
//! one by one and their transit cards folded into one.
pub mod combine;
pub mod dates;
pub mod emv;
pub mod felica;
pub mod mifare;
pub mod model;
pub mod order;
pub mod tlv;
pub mod tmoney;
pub mod transit;
pub mod traveldoc;
pub mod util;

use vstd::prelude::*;
use crate::model::RawCardData;
use crate::text::{starts_with, str_eq, to_owned_string};
use self::combine::{fold_multi_transit_cards, folded};
use self::emv::emv_parsed;
use self::felica::octopus_parsed;
use self::mifare::{classic_parsed, desfire_parsed, ultralight_parsed};
use self::model::{ParsedCard, ParsedResult};
use self::tmoney::tmoney_parsed;
use self::transit::transit_parsed;
use self::traveldoc::traveldoc_parsed;

verus! {

/// The sub-card names that the PBOC transit decoder handles.
pub open spec fn is_transit_sub(sub: Seq<char>) -> bool {
    sub == "ShenzhenTong"@ || sub == "WuhanTong"@ || sub == "LingnanPass"@ || sub == "CityUnion"@
        || sub == "TUnion"@ || sub == "MacauPass"@ || sub == "BMAC"@ || sub == "MotBmac"@
        || sub == "ChinaTransit"@ || sub == "SuXin"@ || sub == "SzpkZyy"@
}

/// A card that only carries a name and one note.
pub open spec fn noted_card(c: ParsedCard, name: Seq<char>, note: Seq<char>) -> bool {
    &&& c.name@ == name
    &&& c.currency@ == "¥"@
    &&& c.number is None
    &&& c.balance is None
    &&& c.fields@.len() == 0
    &&& c.transactions@.len() == 0
    &&& c.protocols@.len() == 0
    &&& c.notes@.len() == 1
    &&& c.notes@[0]@ == note
}

/// What decoding one sub-card gives: the decoder of its name (EMV, Octopus, DESFire, T-Money,
/// the PBOC transit cards); for another name, EMV when the card type starts with `EMV`, else
/// a card of that name noting that no decoder exists.
pub open spec fn sub_parsed(sub: Seq<char>, card_type: Seq<char>, fields: Seq<(Seq<char>, Seq<char>)>, c: ParsedCard) -> bool {
    if sub == "EMV"@ {
        emv_parsed(fields, c)
    } else if sub == "Octopus"@ {
        octopus_parsed(fields, c)
    } else if sub == "MifareDESFire"@ {
        desfire_parsed(fields, c)
    } else if sub == "TMoney"@ {
        tmoney_parsed(fields, c)
    } else if is_transit_sub(sub) {
        transit_parsed(sub, fields, c)
    } else if card_type.len() >= 3 && card_type.subrange(0, 3) == "EMV"@ {
        emv_parsed(fields, c)
    } else {
        noted_card(c, sub, "无专用解析器"@)
    }
}

/// Decodes one sub-card (`sub_parsed`).
fn parse_sub(sub: &str, raw: &RawCardData) -> (res: ParsedCard)
    ensures
        sub_parsed(sub@, raw.card_type@, raw.fields(), res),
{
    proof {
        reveal_strlit("EMV");
    }
    if str_eq(sub, "EMV") {
        emv::parse(raw)
    } else if str_eq(sub, "Octopus") {
        felica::parse(raw)
    } else if str_eq(sub, "MifareDESFire") {
        mifare::parse_desfire(raw)
    } else if str_eq(sub, "TMoney") {
        tmoney::parse(raw)
    } else if str_eq(sub, "ShenzhenTong") || str_eq(sub, "WuhanTong") || str_eq(sub, "LingnanPass")
        || str_eq(sub, "CityUnion") || str_eq(sub, "TUnion") || str_eq(sub, "MacauPass") || str_eq(sub, "BMAC")
        || str_eq(sub, "MotBmac") || str_eq(sub, "ChinaTransit") || str_eq(sub, "SuXin") || str_eq(sub, "SzpkZyy") {
        transit::parse(sub, raw)
    } else if starts_with(raw.card_type.as_str(), "EMV") {
        emv::parse(raw)
    } else {
        let mut c = ParsedCard::new(sub);
        c.notes.push(to_owned_string("无专用解析器"));
        c
    }
}

/// The card that stands in when a Type A / B read gives no sub-card: named `未识别卡片` for
/// the type `Unknown`, else by its type, with a note saying whether anything was read.
pub open spec fn placeholder(card_type: Seq<char>, fields: Seq<(Seq<char>, Seq<char>)>, c: ParsedCard) -> bool {
    noted_card(
        c,
        if card_type == "Unknown"@ { "未识别卡片"@ } else { card_type },
        if fields.len() == 0 { "未抓到任何数据"@ } else { "有原始数据但无匹配解析器"@ },
    )
}

/// The cards of a Type A / B read: `subs` decoded one per sub-card (`sub_parsed`), folded
/// (`folded`), or the placeholder when that leaves none.
pub open spec fn typeab_parts(
    subs_names: Seq<Seq<char>>,
    card_type: Seq<char>,
    fields: Seq<(Seq<char>, Seq<char>)>,
    subs: Seq<ParsedCard>,
    cards: Seq<ParsedCard>,
) -> bool {
    &&& subs.len() == subs_names.len()
    &&& forall|i: int| 0 <= i < subs.len() ==> sub_parsed(subs_names[i], card_type, fields, #[trigger] subs[i])
    &&& if subs.len() == 0 {
        cards.len() == 1 && placeholder(card_type, fields, cards[0])
    } else {
        folded(subs, cards)
    }
}

/// What decoding a whole read gives: its card type and ATR, and the cards. Mifare
/// Ultralight, Mifare Classic, Octopus / FeliCa and travel documents give one card of their
/// decoder; any other type gives the cards of its sub-cards (`typeab_parts`).
pub open spec fn result_parsed(raw: RawCardData, r: ParsedResult) -> bool {
    let ct = raw.card_type@;
    let f = raw.fields();
    &&& r.card_type@ == ct
    &&& r.atr@ == raw.atr@
    &&& if ct == "MifareUltralight"@ {
        r.cards@.len() == 1 && ultralight_parsed(f, r.cards@[0])
    } else if ct == "MifareClassic"@ {
        r.cards@.len() == 1 && classic_parsed(f, r.cards@[0])
    } else if ct == "Octopus"@ || ct == "Felica"@ {
        r.cards@.len() == 1 && octopus_parsed(f, r.cards@[0])
    } else if ct == "TravelDoc"@ {
        r.cards@.len() == 1 && traveldoc_parsed(f, r.cards@[0])
    } else {
        exists|subs: Seq<ParsedCard>| #[trigger] typeab_parts(raw.subs(), ct, f, subs, r.cards@)
    }
}

/// Decodes a whole read (`result_parsed`).
pub fn parse(raw: &RawCardData) -> (res: ParsedResult)
    ensures
        result_parsed(*raw, res),
{
    let ct = raw.card_type.as_str();
    let mut cards: Vec<ParsedCard> = Vec::new();
    let single = if str_eq(ct, "MifareUltralight") {
        Some(mifare::parse_ultralight(raw))
    } else if str_eq(ct, "MifareClassic") {
        Some(mifare::parse_classic(raw))
    } else if str_eq(ct, "Octopus") || str_eq(ct, "Felica") {
        Some(felica::parse(raw))
    } else if str_eq(ct, "TravelDoc") {
        Some(traveldoc::parse(raw))
    } else {
        None
    };
    if let Some(card) = single {
        cards.push(card);
        return ParsedResult { card_type: to_owned_string(ct), atr: to_owned_string(raw.atr.as_str()), cards };
    }
    let mut i: usize = 0;
    while i < raw.sub_cards.len()
        invariant
            i <= raw.sub_cards@.len(),
            cards@.len() == i,
            forall|q: int| 0 <= q < i ==> sub_parsed(raw.subs()[q], raw.card_type@, raw.fields(), #[trigger] cards@[q]),
        decreases raw.sub_cards@.len() - i,
    {
        let c = parse_sub(raw.sub_cards[i].as_str(), raw);
        assert(raw.subs()[i as int] == raw.sub_cards@[i as int]@);
        cards.push(c);
        i = i + 1;
    }
    let ghost subs = cards@;
    fold_multi_transit_cards(&mut cards);
    if cards.len() == 0 {
        let name = if str_eq(ct, "Unknown") { to_owned_string("未识别卡片") } else { to_owned_string(ct) };
        let mut c = ParsedCard::new(name.as_str());
        if raw.raw_fields.len() == 0 {
            c.notes.push(to_owned_string("未抓到任何数据"));
        } else {
            c.notes.push(to_owned_string("有原始数据但无匹配解析器"));
        }
        cards.push(c);
    }
    let res = ParsedResult { card_type: to_owned_string(ct), atr: to_owned_string(raw.atr.as_str()), cards };
    assert(typeab_parts(raw.subs(), ct@, raw.fields(), subs, res.cards@));
    res
}

} // verus!
