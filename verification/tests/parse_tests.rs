use tarot::model::RawCardData;
use tarot::parse::combine::fold_multi_transit_cards;
use tarot::parse::model::{ParsedCard, ProtocolSection, Transaction};
use tarot::parse::parse;
use tarot::parse::traveldoc::card_from_mrz;

fn raw_with(card_type: &str, fields: &[(&str, &str)], subs: &[&str]) -> RawCardData {
    let mut raw = RawCardData::new();
    raw.card_type = card_type.to_string();
    for (k, v) in fields {
        raw.put(k.to_string(), v.to_string());
    }
    for s in subs {
        raw.sub_cards.push(s.to_string());
    }
    raw
}

#[test]
fn unsupported_reader_is_reported_as_note() {
    let raw = raw_with(
        "Octopus",
        &[("felica_idm", "0102030405060708"), ("felica_unsupported_reader", "HID OMNIKEY 5022")],
        &[],
    );

    let card = tarot::parse::felica::parse(&raw);

    assert_eq!(card.number.as_deref(), Some("0102030405060708"));
    assert!(card.fields.is_empty());
    assert_eq!(card.notes, vec!["不支持的读卡器：HID OMNIKEY 5022".to_string()]);
}

#[test]
fn empty_read_gets_a_placeholder_card() {
    let r = parse(&raw_with("Unknown", &[], &[]));
    assert_eq!(r.card_type, "Unknown");
    assert_eq!(r.cards.len(), 1);
    assert_eq!(r.cards[0].name, "未识别卡片");
    assert_eq!(r.cards[0].notes, vec!["未抓到任何数据".to_string()]);

    let r = parse(&raw_with("ISO14443A", &[("x", "00")], &[]));
    assert_eq!(r.cards.len(), 1);
    assert_eq!(r.cards[0].name, "ISO14443A");
    assert_eq!(r.cards[0].notes, vec!["有原始数据但无匹配解析器".to_string()]);
}

#[test]
fn unknown_sub_card_is_noted() {
    let r = parse(&raw_with("ISO14443A", &[], &["Mystery"]));
    assert_eq!(r.cards.len(), 1);
    assert_eq!(r.cards[0].name, "Mystery");
    assert_eq!(r.cards[0].notes, vec!["无专用解析器".to_string()]);
}

#[test]
fn single_protocol_types_give_one_card() {
    let r = parse(&raw_with("MifareUltralight", &[], &[]));
    assert_eq!(r.cards.len(), 1);
    assert_eq!(r.cards[0].name, "Mifare Ultralight / NTAG");
    let r = parse(&raw_with("Felica", &[("felica_idm", "0102030405060708")], &[]));
    assert_eq!(r.cards.len(), 1);
    assert_eq!(r.cards[0].number.as_deref(), Some("0102030405060708"));
}

fn tx(source: &str, amount: i64, date: &str, time: &str) -> Transaction {
    let mut t = Transaction::empty();
    t.source = source.to_string();
    t.kind = "消费".to_string();
    t.amount = amount;
    t.date = date.to_string();
    t.time = time.to_string();
    t
}

#[test]
fn two_transit_cards_fold_into_one() {
    let mut a = ParsedCard::new("岭南通");
    a.number = Some("111".to_string());
    a.transactions = vec![tx("", -100, "07-09", "08:00:00")];
    let mut b = ParsedCard::new("交通联合");
    b.number = Some("222".to_string());
    b.transactions = vec![tx("", -200, "2026-07-10", "09:00:00"), tx("", -300, "2026-07-08", "09:00:00")];
    let other = ParsedCard::new("Visa");
    let mut cards = vec![other, a, b];

    fold_multi_transit_cards(&mut cards);

    assert_eq!(cards.len(), 2);
    assert_eq!(cards[0].name, "Visa");
    let c = &cards[1];
    assert_eq!(c.name, "岭南通+交通联合");
    assert_eq!(c.number.as_deref(), Some("222"));
    assert_eq!(c.protocols.len(), 2);
    let ProtocolSection { name, number, .. } = &c.protocols[0];
    assert_eq!(name, "岭南通");
    assert_eq!(number.as_deref(), Some("111"));
    let dates: Vec<&str> = c.transactions.iter().map(|t| t.date.as_str()).collect();
    assert_eq!(dates, vec!["2026-07-10", "2026-07-09", "2026-07-08"]);
    assert_eq!(c.transactions[1].source, "岭南通");
    assert_eq!(c.transactions[0].source, "交通联合");
}

#[test]
fn one_transit_card_is_left_alone() {
    let mut cards = vec![ParsedCard::new("深圳通"), ParsedCard::new("Visa")];
    fold_multi_transit_cards(&mut cards);
    assert_eq!(cards.len(), 2);
    assert_eq!(cards[0].name, "深圳通");
    assert!(cards[0].protocols.is_empty());
}

fn field_of<'a>(card: &'a ParsedCard, key: &str) -> Option<&'a str> {
    card.fields.iter().find(|(k, _)| k == key).map(|(_, v)| v.as_str())
}

#[test]
fn passport_mrz_fields_are_cut_by_position() {
    let mrz = "P<UTOERIKSSON<<ANNA<MARIA<<<<<<<<<<<<<<<<<<<L898902C36UTO7408122F1204159ZE184226B<<<<<10";
    assert_eq!(mrz.len(), 88);
    let card = card_from_mrz(Some(mrz));
    assert_eq!(card.name, "电子护照");
    assert_eq!(card.number.as_deref(), Some("L898902C3"));
    assert_eq!(field_of(&card, "证件类型"), Some("P"));
    assert_eq!(field_of(&card, "签发国"), Some("UTO"));
    assert_eq!(field_of(&card, "姓"), Some("ERIKSSON"));
    assert_eq!(field_of(&card, "名"), Some("ANNA MARIA"));
    assert_eq!(field_of(&card, "国籍"), Some("UTO"));
    assert_eq!(field_of(&card, "出生日期"), Some("1974-08-12"));
    assert_eq!(field_of(&card, "性别"), Some("女"));
    assert_eq!(field_of(&card, "有效期至"), Some("2012-04-15"));
    assert!(card.notes.is_empty());
}

#[test]
fn passport_mrz_with_a_latin1_letter_in_the_name() {
    let mrz = "P<UTOERIKSSÖN<<ANNA<MARIA<<<<<<<<<<<<<<<<<<L898902C36UTO7408122F1204159ZE184226B<<<<<10";
    assert_eq!(mrz.len(), 88);
    let card = card_from_mrz(Some(mrz));
    assert_eq!(card.name, "电子护照");
    assert_eq!(field_of(&card, "姓"), Some("ERIKSSÖN"));
    assert_eq!(field_of(&card, "名"), Some("ANNA MARIA"));
    assert_eq!(card.number.as_deref(), Some("L898902C3"));
    assert!(card.notes.is_empty());
}

#[test]
fn travel_permit_mrz_fields_are_cut_by_position() {
    let mrz = "CSC123456785<3012310<9001011<6ABCDEFGHIJKLZHANG<<SAN<<<<<<<<<<<<<<<<<<<<<<<<<<<<<<<<<<<<<<";
    assert_eq!(mrz.len(), 90);
    let card = card_from_mrz(Some(mrz));
    assert_eq!(card.name, "电子往来港澳通行证");
    assert_eq!(card.number.as_deref(), Some("C12345678"));
    assert_eq!(field_of(&card, "证件类型"), Some("CS"));
    assert_eq!(field_of(&card, "有效期至"), Some("2030-12-31"));
    assert_eq!(field_of(&card, "出生日期"), Some("1990-01-01"));
    assert_eq!(field_of(&card, "姓"), Some("ZHANG"));
    assert_eq!(field_of(&card, "名"), Some("SAN"));
}

#[test]
fn mrz_of_unknown_length_is_kept_whole() {
    let card = card_from_mrz(Some("P<UTO"));
    assert_eq!(card.name, "旅行证件");
    assert_eq!(card.number, None);
    assert_eq!(card.notes, vec!["MRZ 长度异常(5)，无法解析字段".to_string()]);
    assert_eq!(field_of(&card, "MRZ"), Some("P<UTO"));
}

#[test]
fn balance_is_kept_when_the_field_is_missing_or_short() {
    let mut card = ParsedCard::new("深圳通");
    card.balance = Some(500);
    card.notes.push("先前的说明".to_string());
    tarot::parse::transit::parse_balance("ShenzhenTong", &RawCardData::new(), &mut card);
    assert_eq!(card.balance, Some(500));
    assert_eq!(card.notes, vec!["先前的说明".to_string()]);
    let raw = raw_with("PBOC", &[("ShenzhenTong_balance", "0001")], &[]);
    tarot::parse::transit::parse_balance("ShenzhenTong", &raw, &mut card);
    assert_eq!(card.balance, Some(500));
    assert_eq!(card.notes, vec!["先前的说明".to_string(), "余额字段长度不足".to_string()]);
}

#[test]
fn card_number_is_overwritten_or_kept() {
    let mut card = ParsedCard::new("深圳通");
    card.number = Some("OLD".to_string());
    card.notes.push("先前的说明".to_string());
    tarot::parse::transit::parse_card_number("ShenzhenTong", &RawCardData::new(), &mut card);
    assert_eq!(card.number.as_deref(), Some("OLD"));
    assert_eq!(card.notes, vec!["先前的说明".to_string(), "未取到基础信息文件".to_string()]);
    let file15 = format!("{}{}{}{}", "00".repeat(16), "01234567", "20200101", "20301231");
    let raw = raw_with("PBOC", &[("ShenzhenTong_file15", file15.as_str())], &[]);
    tarot::parse::transit::parse_card_number("ShenzhenTong", &raw, &mut card);
    assert_eq!(card.number.as_deref(), Some("1234567"));
    assert_eq!(card.notes.len(), 2);
}
