use tarot::app::{App, Focus, ReadRequest, ReadState, SaveOutcome, SettingsItem, TickStep, TravelDocField};
use tarot::error::Error;
use tarot::model::RawCardData;
use tarot::reader::CardStatus;
use tarot::settings::Settings;

fn app_with(readers: &[&str]) -> App {
    App::new(
        Settings { auto_poll: true, auto_save: false },
        Ok(readers.iter().map(|r| r.to_string()).collect()),
        Vec::new(),
    )
}

#[test]
fn start_messages() {
    assert_eq!(app_with(&[]).message, "未检测到读卡器");
    assert_eq!(app_with(&["R"]).message, "就绪：放卡或按 Enter 读取");
    let a = App::new(Settings::default(), Err("down".to_string()), Vec::new());
    assert_eq!(a.message, "PC/SC 初始化失败，仅可查看界面");
    assert_eq!(a.init_error.as_deref(), Some("down"));
    assert!(matches!(a.tick(true), TickStep::Skip));
}

#[test]
fn focus_and_scrolling() {
    let mut a = app_with(&["A", "B"]);
    a.on_down();
    assert_eq!(a.selected_reader, 1);
    a.on_down();
    assert_eq!(a.selected_reader, 1);
    a.on_up();
    assert_eq!(a.selected_reader, 0);
    a.cycle_focus();
    assert_eq!(a.focus, Focus::Parsed);
    a.on_page(false);
    assert_eq!(a.parsed_scroll, 10);
    a.on_up();
    assert_eq!(a.parsed_scroll, 9);
    a.on_page(true);
    assert_eq!(a.parsed_scroll, 0);
    a.cycle_focus();
    a.cycle_focus();
    assert_eq!(a.focus, Focus::Readers);
}

#[test]
fn ticks_and_card_status() {
    let mut a = app_with(&["A"]);
    assert!(matches!(a.tick(false), TickStep::Skip));
    match a.tick(true) {
        TickStep::Poll(r) => assert_eq!(r, "A"),
        _ => panic!("expected a poll"),
    }
    match a.on_status(CardStatus::Present) {
        ReadRequest::Card(r) => assert_eq!(r, "A"),
        ReadRequest::Nothing => panic!("expected a read"),
    }
    assert_eq!(a.message, "读取中…");
    assert!(matches!(a.on_status(CardStatus::Present), ReadRequest::Nothing));
    assert!(matches!(a.on_status(CardStatus::Empty), ReadRequest::Nothing));
    assert_eq!(a.state, ReadState::Idle);
    assert_eq!(a.message, "卡片已取出");
    a.toggle_auto();
    assert_eq!(a.message, "自动读卡：关");
    assert!(matches!(a.on_status(CardStatus::Present), ReadRequest::Nothing));
    assert_eq!(a.state, ReadState::CardPresent);
    let empty = app_with(&[]);
    assert!(matches!(empty.tick(true), TickStep::Refresh));
}

#[test]
fn reads_finish_into_the_state() {
    let mut a = app_with(&["A"]);
    assert!(!a.finish_read(Err(Error::NoCard)));
    assert_eq!(a.message, "读卡器上无卡片");
    assert!(!a.finish_read(Err(Error::CardRemoved)));
    assert_eq!(a.state, ReadState::Error("card was removed or reset".to_string()));
    assert_eq!(a.message, "读取错误: card was removed or reset");
    let mut raw = RawCardData::new();
    raw.card_type = "Octopus".to_string();
    assert!(!a.finish_read(Ok(raw)));
    assert_eq!(a.state, ReadState::Done);
    assert_eq!(a.message, "读取完成：按 s 保存交通卡记录");
    assert_eq!(a.save_current_transit(7), SaveOutcome::Write(1));
    assert_eq!(a.saved_cards.len(), 1);
    assert_eq!(a.saved_cards[0].records[0].timestamp, 7);
    a.finish_save(1, Ok(()));
    assert_eq!(a.message, "已保存 1 条新记录");
    a.after_auto_save();
    assert_eq!(a.message, "读取完成：已保存 1 条新记录");
    assert_eq!(a.save_current_transit(8), SaveOutcome::NothingNew);
    assert_eq!(a.message, "没有新的交易记录");
    a.focus = Focus::Saved;
    assert!(matches!(a.on_enter(), ReadRequest::Nothing));
    assert_eq!(a.history_view, Some(0));
    assert_eq!(a.message, "已打开 八达通 Octopus 的历史记录");
}

#[test]
fn saving_without_a_read() {
    let mut a = app_with(&["A"]);
    assert_eq!(a.save_current_transit(1), SaveOutcome::NoResult);
    assert_eq!(a.message, "尚无可保存的读卡结果");
    let mut raw = RawCardData::new();
    raw.card_type = "MifareClassic".to_string();
    a.finish_read(Ok(raw));
    assert_eq!(a.save_current_transit(1), SaveOutcome::NotTransit);
}

#[test]
fn settings_menu() {
    let mut a = app_with(&["A"]);
    a.open_settings();
    assert!(a.is_settings_open());
    a.settings_next_item();
    assert_eq!(a.selected_setting, SettingsItem::AutoSave);
    a.toggle_selected_setting();
    assert!(a.auto_save);
    assert_eq!(a.message, "自动保存：开");
    a.close_settings();
    assert!(!a.is_settings_open());
    assert_eq!(a.settings(), Settings { auto_poll: true, auto_save: true });
}

#[test]
fn traveldoc_input() {
    let mut a = app_with(&["A"]);
    a.start_traveldoc_input();
    assert!(a.is_traveldoc_input());
    assert!(matches!(a.tick(true), TickStep::Skip));
    for c in "l898902c".chars() {
        a.traveldoc_push_char(c);
    }
    a.traveldoc_next_field();
    assert_eq!(a.traveldoc_field, TravelDocField::Dob);
    for c in "6908067".chars() {
        a.traveldoc_push_char(c);
    }
    a.traveldoc_backspace();
    a.traveldoc_next_field();
    for c in "940623".chars() {
        a.traveldoc_push_char(c);
    }
    let input = a.traveldoc_input.clone().unwrap();
    assert_eq!(input.doc_number, "L898902C");
    assert_eq!(input.dob, "690806");
    assert_eq!(input.doe, "940623");
    let (reader, key) = a.begin_traveldoc_read().unwrap();
    assert_eq!(reader, "A");
    assert_eq!(key.mrz_key(), "L898902C<369080619406236");
    a.traveldoc_prev_field();
    a.traveldoc_backspace();
    assert!(a.begin_traveldoc_read().is_none());
    assert_eq!(a.message, "MRZ 输入无效: 出生日期须为 YYMMDD 6 位数字");
    a.finish_traveldoc_read(Err(Error::NoCard));
    assert_eq!(a.message, "旅行证件读取失败: no card present in reader");
    a.cancel_traveldoc_input();
    assert!(!a.is_traveldoc_input());
}

#[test]
fn travel_document_reads_are_never_saved() {
    let mut a = app_with(&["R"]);
    let mut raw = RawCardData::new();
    raw.card_type = "TravelDoc".to_string();
    raw.put("passport_dg1".to_string(), "615B5F1F58".to_string());
    a.parsed = Some(tarot::parse::parse(&raw));
    assert_eq!(a.save_current_transit(1_700_000_000), SaveOutcome::NotTransit);
    assert!(a.saved_cards.is_empty());
    assert_eq!(a.message, "当前卡片不是可保存的交通卡");
}
