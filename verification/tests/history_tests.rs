use tarot::history::{
    append_new_transactions, decode_text, encode_text, history_text, is_transport, parse_history, snapshot,
    transaction_line_count, SavedCard, SavedRecord,
};
use tarot::parse::model::{ParsedCard, Transaction};
use tarot::settings::{parse_bool, parse_settings, settings_text, Settings};

const NOW: u64 = 1_783_584_000;

fn tx(seq: u64, date: &str) -> Transaction {
    let mut t = Transaction::empty();
    t.seq = Some(seq);
    t.kind = "消费".to_string();
    t.amount = -200;
    t.date = date.to_string();
    t.time = "08:00:00".to_string();
    t
}

#[test]
fn append_new_transactions_only_appends_unseen_transactions() {
    let mut first = ParsedCard::new("交通联合");
    first.number = Some("31000001".to_string());
    first.transactions = vec![tx(1, "2026-07-09"), tx(2, "2026-07-08")];
    let mut saved = snapshot(&first, NOW);

    let mut next = ParsedCard::new("交通联合");
    next.number = Some("31000001".to_string());
    next.transactions = vec![tx(3, "2026-07-10"), tx(1, "2026-07-09")];

    assert_eq!(append_new_transactions(&mut saved, &next, NOW), 1);
    assert_eq!(saved.records.len(), 1);
    assert_eq!(saved.records[0].title, "3 条记录");
    assert_eq!(transaction_line_count(&saved.records[0]), 3);
    let marker = saved.records[0].lines.iter().position(|line| line == "记录:").unwrap();
    assert!(saved.records[0].lines[marker + 1].contains("消费 -2.00¥ 2026-07-10"));
    assert!(saved.records[0].lines[marker + 2].contains("消费 -2.00¥ 2026-07-09"));
}

#[test]
fn history_snapshot_omits_balance_and_monthly_discount() {
    let mut card = ParsedCard::new("岭南通");
    card.balance = Some(4200);
    card.add_field("广州优惠金额累计", "2026-07 ¥3.00");
    card.transactions = vec![tx(1, "2026-07-09")];

    let saved = snapshot(&card, NOW);
    let text = saved.records[0].lines.join("\n");

    assert!(!text.contains("余额:"));
    assert!(!text.contains("广州优惠金额累计"));
}

#[test]
fn snapshot_lines_and_key() {
    let mut card = ParsedCard::new("深圳通");
    card.number = Some("123".to_string());
    card.add_field("有效期", "2030-01-01");
    card.notes.push("注意".to_string());
    let mut t = tx(1, "2026-07-09");
    t.amount = 1234;
    t.source = "深圳通".to_string();
    card.transactions = vec![t];
    let saved = snapshot(&card, NOW);
    assert_eq!(saved.key, "深圳通:123");
    assert_eq!(saved.display_name(), "深圳通 123");
    assert_eq!(saved.records[0].timestamp, NOW);
    assert_eq!(saved.records[0].title, "1 条记录");
    assert_eq!(
        saved.records[0].lines,
        vec![
            "卡种: 深圳通".to_string(),
            "卡号: 123".to_string(),
            "有效期: 2030-01-01".to_string(),
            "记录:".to_string(),
            "  消费 +12.34¥ [深圳通] 2026-07-09 08:00:00".to_string(),
            "提示: 注意".to_string(),
        ]
    );
    let bare = snapshot(&ParsedCard::new("澳门通"), NOW);
    assert_eq!(bare.key, "澳门通");
    assert_eq!(bare.display_name(), "澳门通");
    assert_eq!(bare.records[0].title, "0 条记录");
}

#[test]
fn saving_the_same_read_twice_adds_nothing() {
    let mut card = ParsedCard::new("交通联合");
    card.transactions = vec![tx(1, "2026-07-09"), tx(2, "2026-07-08")];
    let mut saved = snapshot(&card, NOW);
    assert_eq!(append_new_transactions(&mut saved, &card, NOW + 1), 0);
    let mut more = card.clone();
    more.transactions.push(tx(3, "2026-07-01"));
    assert_eq!(append_new_transactions(&mut saved, &more, NOW + 2), 1);
    assert_eq!(append_new_transactions(&mut saved, &more, NOW + 3), 0);
}

#[test]
fn older_records_are_merged() {
    let mut saved = SavedCard {
        key: "k".to_string(),
        name: "n".to_string(),
        number: String::new(),
        currency: "¥".to_string(),
        records: vec![
            SavedRecord { timestamp: 1, title: "x".to_string(), lines: vec!["  old".to_string(), "info".to_string()] },
            SavedRecord { timestamp: 2, title: "y".to_string(), lines: vec!["记录:".to_string(), "  kept".to_string()] },
        ],
    };
    let mut card = ParsedCard::new("n");
    card.transactions = vec![tx(9, "2026-01-01")];
    assert_eq!(append_new_transactions(&mut saved, &card, NOW), 1);
    assert_eq!(saved.records.len(), 1);
    assert_eq!(saved.records[0].timestamp, NOW);
    assert_eq!(
        saved.records[0].lines,
        vec![
            "记录:".to_string(),
            "  消费 -2.00¥ 2026-01-01 08:00:00".to_string(),
            "  old".to_string(),
            "  kept".to_string(),
        ]
    );
    assert_eq!(saved.records[0].title, "3 条记录");
}

#[test]
fn transit_cards_are_recognised() {
    assert!(is_transport(&ParsedCard::new("八达通 Octopus")));
    assert!(!is_transport(&ParsedCard::new("Visa")));
}

#[test]
fn history_text_reads_back() {
    let mut card = ParsedCard::new("交通联合");
    card.number = Some("31000001".to_string());
    card.transactions = vec![tx(1, "2026-07-09")];
    let a = snapshot(&card, NOW);
    let b = SavedCard {
        key: "空".to_string(),
        name: "空".to_string(),
        number: String::new(),
        currency: String::new(),
        records: vec![],
    };
    let cards = vec![a.clone(), b];
    let text = history_text(&cards);
    assert!(text.starts_with("tarot-tui-history-v1\ncard\t"));
    let back = parse_history(&text);
    assert_eq!(back.len(), 2);
    assert_eq!(back[0].key, a.key);
    assert_eq!(back[0].number, "31000001");
    assert_eq!(back[0].records.len(), 1);
    assert_eq!(back[0].records[0].timestamp, NOW);
    assert_eq!(back[0].records[0].title, a.records[0].title);
    assert_eq!(back[0].records[0].lines, a.records[0].lines);
    assert_eq!(back[1].name, "空");
    assert!(back[1].records.is_empty());
}

#[test]
fn history_text_tolerates_noise() {
    let text = "tarot-tui-history-v1\nrecord\t1\t\t\n\n  \ncard\t6b\t6e\t\t\nrecord\tx\tzz\t61\ngarbage\n";
    let back = parse_history(text);
    assert_eq!(back.len(), 1);
    assert_eq!(back[0].key, "k");
    assert_eq!(back[0].name, "n");
    assert_eq!(back[0].records.len(), 1);
    assert_eq!(back[0].records[0].timestamp, 0);
    assert_eq!(back[0].records[0].title, "");
    assert_eq!(back[0].records[0].lines, vec!["a".to_string()]);
}

#[test]
fn texts_are_kept_as_hex() {
    assert_eq!(encode_text("交"), "e4baa4");
    assert_eq!(decode_text("e4baa4"), "交");
    assert_eq!(decode_text("ff"), "");
    assert_eq!(decode_text("xyz"), "");
}

#[test]
fn settings_text_reads_back() {
    for (p, s) in [(true, false), (false, true), (true, true), (false, false)] {
        let settings = Settings { auto_poll: p, auto_save: s };
        let text = settings_text(&settings);
        assert_eq!(parse_settings(&text), settings);
    }
    assert_eq!(settings_text(&Settings::default()), "tarot-tui-settings-v1\nauto_poll=true\nauto_save=false\n");
}

#[test]
fn settings_lines_are_lenient() {
    let s = parse_settings("auto_poll = off \nauto_save=yes\nbogus\nother=1\n");
    assert_eq!(s, Settings { auto_poll: true, auto_save: true });
    let s = parse_settings("auto_poll= off \r\nauto_save=maybe\n");
    assert_eq!(s, Settings { auto_poll: false, auto_save: false });
    assert!(parse_bool(" on ", false));
    assert!(!parse_bool("0", true));
    assert!(parse_bool("?", true));
}
