use tarot::app::{App, ReadState};
use tarot::display::{
    card_lines, history_lines, money, parsed_lines, reader_lines, saved_list_lines, settings_popup_lines, status_line,
    traveldoc_popup_lines, ShownLine, Tone,
};
use tarot::reader::CardStatus;
use tarot::settings::Settings;
use tarot::history::{SavedCard, SavedRecord};
use tarot::parse::model::{ParsedCard, ParsedResult, ProtocolSection, Transaction};

fn flat(lines: &[ShownLine]) -> Vec<Vec<(String, Tone)>> {
    lines.iter().map(|l| l.pieces.iter().map(|p| (p.text.clone(), p.tone)).collect()).collect()
}

fn p(t: &str, tone: Tone) -> (String, Tone) {
    (t.to_string(), tone)
}

#[test]
fn money_has_two_decimals_and_sign() {
    assert_eq!(money(0), "0.00");
    assert_eq!(money(5), "0.05");
    assert_eq!(money(1234), "12.34");
    assert_eq!(money(-250), "-2.50");
    assert_eq!(money(-7), "-0.07");
}

#[test]
fn card_lines_show_balance_monthly_total_and_transactions() {
    let mut card = ParsedCard::new("岭南通");
    card.number = Some("123".to_string());
    card.fields.push(("广州优惠金额累计".to_string(), "1.00".to_string()));
    card.fields.push(("城市".to_string(), "广州".to_string()));
    let mut t = Transaction::empty();
    t.kind = "消费".to_string();
    t.amount = -200;
    t.date = "2024-01-02".to_string();
    t.time = "08:09:10".to_string();
    t.balance_after = Some(800);
    t.source = "交通联合".to_string();
    card.transactions.push(t);
    card.protocols.push(ProtocolSection {
        name: "交通联合".to_string(),
        number: Some("999".to_string()),
        balance: Some(1000),
        currency: "¥".to_string(),
        fields: vec![("有效期".to_string(), "2030-01-01".to_string())],
        notes: vec!["缺少记录".to_string()],
    });
    card.notes.push("注意".to_string());
    let shown = flat(&card_lines(1, &card));
    let expected = vec![
        vec![p("● 岭南通", Tone::Heading), p("  (#2)", Tone::Muted)],
        vec![p("  卡号: ", Tone::Label), p("123", Tone::Value)],
        vec![p("  城市: ", Tone::Label), p("广州", Tone::Value)],
        vec![p("  有效期: ", Tone::Label), p("2030-01-01", Tone::Value)],
        vec![p("  ! 缺少记录", Tone::Alert)],
        vec![p("  余额: ", Tone::Label), p("¥10.00", Tone::Balance)],
        vec![p("  广州优惠金额累计: ", Tone::Label), p("1.00", Tone::Value)],
        vec![p("  记录:", Tone::Section)],
        vec![
            p("    消费 ", Tone::Plain),
            p("-2.00¥ ", Tone::Loss),
            p("余8.00¥ ", Tone::Gain),
            p("[交通联合] ", Tone::Muted),
            p("2024-01-02 08:09:10", Tone::Muted),
        ],
        vec![p("  ⚠ 注意", Tone::Alert)],
    ];
    assert_eq!(shown, expected);
}

#[test]
fn card_lines_prefer_the_cards_own_balance() {
    let mut card = ParsedCard::new("深圳通");
    card.balance = Some(-150);
    card.protocols.push(ProtocolSection {
        name: "交通联合".to_string(),
        number: None,
        balance: Some(1000),
        currency: "¥".to_string(),
        fields: vec![],
        notes: vec![],
    });
    card.protocols.push(ProtocolSection {
        name: "深圳通".to_string(),
        number: Some("42".to_string()),
        balance: None,
        currency: "¥".to_string(),
        fields: vec![],
        notes: vec![],
    });
    let mut credit = Transaction::empty();
    credit.kind = "充值".to_string();
    credit.amount = 5000;
    credit.date = "2024-03-04".to_string();
    card.transactions.push(credit);
    let shown = flat(&card_lines(0, &card));
    let expected = vec![
        vec![p("● 深圳通", Tone::Heading), p("  (#1)", Tone::Muted)],
        vec![p("  深圳通卡号: ", Tone::Label), p("42", Tone::Value)],
        vec![p("  余额: ", Tone::Label), p("¥-1.50", Tone::Balance)],
        vec![p("  记录:", Tone::Section)],
        vec![p("    充值 ", Tone::Plain), p("+50.00¥ ", Tone::Gain), p("2024-03-04", Tone::Muted)],
    ];
    assert_eq!(shown, expected);
}

#[test]
fn parsed_lines_without_a_read() {
    let shown = flat(&parsed_lines(&None));
    assert_eq!(shown, vec![vec![p("尚无数据，放卡或按 Enter 读取。", Tone::Muted)]]);
}

#[test]
fn parsed_lines_of_a_combined_chip() {
    let result = ParsedResult {
        card_type: "CPU".to_string(),
        atr: "3B00".to_string(),
        cards: vec![ParsedCard::new("A"), ParsedCard::new("B")],
    };
    let shown = flat(&parsed_lines(&Some(result)));
    let expected = vec![
        vec![p("叠加卡：2 张子卡", Tone::Banner)],
        vec![],
        vec![p("● A", Tone::Heading), p("  (#1)", Tone::Muted)],
        vec![],
        vec![p("● B", Tone::Heading), p("  (#2)", Tone::Muted)],
        vec![],
        vec![p("ATR: 3B00", Tone::Muted)],
    ];
    assert_eq!(shown, expected);
}

#[test]
fn parsed_lines_of_a_single_card_have_no_banner() {
    let result = ParsedResult { card_type: "CPU".to_string(), atr: "3B".to_string(), cards: vec![ParsedCard::new("A")] };
    let shown = flat(&parsed_lines(&Some(result)));
    assert_eq!(shown.len(), 3);
    assert_eq!(shown[0], vec![p("● A", Tone::Heading), p("  (#1)", Tone::Muted)]);
    assert_eq!(shown[2], vec![p("ATR: 3B", Tone::Muted)]);
}

#[test]
fn history_lines_count_transaction_lines() {
    let card = SavedCard {
        key: "深圳通:1".to_string(),
        name: "深圳通".to_string(),
        number: "1".to_string(),
        currency: "¥".to_string(),
        records: vec![
            SavedRecord {
                timestamp: 5,
                title: "2 条记录".to_string(),
                lines: vec!["记录:".to_string(), "  a".to_string(), "  b".to_string()],
            },
            SavedRecord { timestamp: 9, title: "1 条记录".to_string(), lines: vec!["  c".to_string()] },
        ],
    };
    let shown = flat(&history_lines(&card));
    let expected = vec![
        vec![p(&card.display_name(), Tone::Heading)],
        vec![p("共 3 条记录", Tone::Plain)],
        vec![],
        vec![p("记录 ", Tone::Section), p("2 条记录  @5", Tone::Muted)],
        vec![p("  记录:", Tone::Plain)],
        vec![p("    a", Tone::Plain)],
        vec![p("    b", Tone::Plain)],
        vec![],
        vec![p("记录 ", Tone::Section), p("1 条记录  @9", Tone::Muted)],
        vec![p("    c", Tone::Plain)],
        vec![],
    ];
    assert_eq!(shown, expected);
}

fn app_with(readers: &[&str], saved: Vec<SavedCard>) -> App {
    App::new(Settings { auto_poll: true, auto_save: false }, Ok(readers.iter().map(|r| r.to_string()).collect()), saved)
}

fn saved(name: &str, number: &str, records: usize) -> SavedCard {
    SavedCard {
        key: format!("{name}:{number}"),
        name: name.to_string(),
        number: number.to_string(),
        currency: "¥".to_string(),
        records: (0..records)
            .map(|i| SavedRecord { timestamp: i as u64, title: "0 条记录".to_string(), lines: vec![] })
            .collect(),
    }
}

#[test]
fn status_line_shows_state_settings_and_message() {
    let mut a = app_with(&["R"], vec![]);
    a.state = ReadState::Error("x".to_string());
    a.message = "出错".to_string();
    let shown = flat(&[status_line(&a)]);
    assert_eq!(
        shown[0],
        vec![
            p(" tarot TUI ", Tone::Title),
            p("  卡类型: —  ", Tone::Plain),
            p("[错误]", Tone::Alert),
            p("  读卡:开  保存:关  ", Tone::Plain),
            p("| 出错", Tone::Notice),
        ]
    );
    a.state = ReadState::Done;
    a.parsed = Some(ParsedResult { card_type: "CPU".to_string(), atr: String::new(), cards: vec![] });
    let shown = flat(&[status_line(&a)]);
    assert_eq!(shown[0][1], p("  卡类型: CPU  ", Tone::Plain));
    assert_eq!(shown[0][2], p("[读取完成]", Tone::Good));
}

#[test]
fn reader_lines_mark_the_selected_reader() {
    let mut a = app_with(&["A", "B"], vec![]);
    a.selected_reader = 1;
    a.card_status = CardStatus::Present;
    assert_eq!(
        flat(&reader_lines(&a)),
        vec![vec![p("  A", Tone::Unselected)], vec![p("▶ B [卡片在位]", Tone::Selected)]]
    );
    a.card_status = CardStatus::Empty;
    assert_eq!(flat(&reader_lines(&a))[1], vec![p("▶ B [空]", Tone::Selected)]);
    let none = app_with(&[], vec![]);
    assert_eq!(flat(&reader_lines(&none)), vec![vec![p("未检测到读卡器（插入后自动刷新）", Tone::Muted)]]);
    let down = App::new(Settings::default(), Err("down".to_string()), Vec::new());
    assert_eq!(flat(&reader_lines(&down)), vec![vec![p("PC/SC 不可用: down", Tone::Alert)]]);
}

#[test]
fn saved_list_lines_show_names_and_record_counts() {
    let empty = app_with(&[], vec![]);
    assert_eq!(flat(&saved_list_lines(&empty)), vec![vec![p("暂无保存记录。刷交通卡后按 s 保存。", Tone::Muted)]]);
    let mut a = app_with(&[], vec![saved("深圳通", "1", 2), saved("羊城通", "", 0)]);
    a.selected_saved = 1;
    assert_eq!(
        flat(&saved_list_lines(&a)),
        vec![
            vec![p("  ", Tone::Unselected), p("深圳通 1", Tone::Unselected)],
            vec![p("    2 条记录", Tone::Muted)],
            vec![p("▶ ", Tone::Selected), p("羊城通", Tone::Selected)],
            vec![p("    0 条记录", Tone::Muted)],
        ]
    );
}

#[test]
fn traveldoc_popup_lines_show_the_cursor_on_the_active_element() {
    let mut a = app_with(&["R"], vec![]);
    a.start_traveldoc_input();
    a.traveldoc_push_char('e');
    a.traveldoc_push_char('1');
    a.traveldoc_next_field();
    let shown = flat(&traveldoc_popup_lines(&a));
    assert_eq!(
        shown,
        vec![
            vec![],
            vec![p("  证件号: ", Tone::Muted), p("E1", Tone::Unselected)],
            vec![p("▶ 出生日期(YYMMDD): ", Tone::Focused), p("_", Tone::Selected)],
            vec![p("  有效期(YYMMDD): ", Tone::Muted), p("", Tone::Unselected)],
            vec![],
            vec![p("  Tab/↑↓ 切换字段   Enter 读取   Esc 取消", Tone::Muted)],
        ]
    );
}

#[test]
fn settings_popup_lines_show_both_settings() {
    let mut a = app_with(&["R"], vec![]);
    a.open_settings();
    a.settings_next_item();
    let shown = flat(&settings_popup_lines(&a));
    assert_eq!(
        shown,
        vec![
            vec![],
            vec![p("  ", Tone::Unselected), p("自动读卡: ", Tone::Unselected), p("开", Tone::Good)],
            vec![p("▶ ", Tone::Selected), p("自动保存: ", Tone::Selected), p("关", Tone::Muted)],
            vec![],
            vec![p("  ↑↓ 选择   Enter/Space 切换   Esc 关闭", Tone::Muted)],
        ]
    );
}
