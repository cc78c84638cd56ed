//! The state of the interactive program and its transitions: focus and scrolling, the
//! settings menu, the travel-document input, what a poll tick and a finished read do to the
//! state, and the saving of transit records. The program around it performs what these
//! transitions ask for: reader I/O, the clock, and the writing of files.
use vstd::prelude::*;
use crate::error::{Error, error_text_spec};
use crate::history::{
    CardView, SavedCard, append_new_transactions, appended_view, card_view, cards_view, display_spec,
    is_transport, is_transport_spec, lemma_appended_view, lemma_snapshot_view, lemma_view_lines, records_lines,
    snapshot, snapshot_view, transaction_lines_spec, transport_cards, transport_positions, unseen_lines, view_lines,
};
use crate::model::RawCardData;
use crate::parse::model::{ParsedCard, ParsedResult};
use crate::parse::{parse, result_parsed};
use crate::parse::traveldoc::traveldoc_parsed;
use crate::passport::{PassportKey, doc_number_spec, uppercase_of, validate_spec};
use crate::reader::CardStatus;
use crate::settings::Settings;
use crate::text::{trim_spec, concat2, dec_digits, push_char, push_decimal, push_str, starts_with, str_eq, to_owned_string};

verus! {

/// The three elements of the travel-document input.
#[derive(Debug, Clone, Copy, PartialEq, Eq, Structural)]
pub enum TravelDocField {
    /// The document number.
    DocNumber,
    /// The date of birth (YYMMDD).
    Dob,
    /// The date of expiry (YYMMDD).
    Doe,
}

/// The travel-document input being typed.
#[derive(Debug, Clone)]
pub struct TravelDocInput {
    /// The document number typed so far.
    pub doc_number: String,
    /// The date of birth typed so far.
    pub dob: String,
    /// The date of expiry typed so far.
    pub doe: String,
}

/// ASCII lower-case letters as upper case; any other character unchanged.
pub open spec fn ascii_upper(c: char) -> char {
    if 'a' <= c && c <= 'z' {
        ((c as u32) - 32) as char
    } else {
        c
    }
}

/// `char::to_ascii_uppercase`.
pub fn char_to_ascii_upper(c: char) -> (res: char)
    ensures
        res == ascii_upper(c),
{
    if 'a' <= c && c <= 'z' {
        let v = (c as u8) - 32;
        v as char
    } else {
        c
    }
}

impl TravelDocInput {
    /// The text of one element.
    pub open spec fn field_text(&self, f: TravelDocField) -> Seq<char> {
        match f {
            TravelDocField::DocNumber => self.doc_number@,
            TravelDocField::Dob => self.dob@,
            TravelDocField::Doe => self.doe@,
        }
    }

    /// Nothing typed yet.
    pub fn empty() -> (res: TravelDocInput)
        ensures
            res.doc_number@.len() == 0,
            res.dob@.len() == 0,
            res.doe@.len() == 0,
    {
        TravelDocInput { doc_number: String::new(), dob: String::new(), doe: String::new() }
    }

    /// Appends a character to one element; the others are unchanged.
    pub fn push_to(&mut self, f: TravelDocField, c: char)
        ensures
            final(self).field_text(f) == old(self).field_text(f).push(c),
            forall|g: TravelDocField| g != f ==> final(self).field_text(g) == old(self).field_text(g),
    {
        match f {
            TravelDocField::DocNumber => push_char(&mut self.doc_number, c),
            TravelDocField::Dob => push_char(&mut self.dob, c),
            TravelDocField::Doe => push_char(&mut self.doe, c),
        }
    }

    /// Removes the last character of one element, if any; the others are unchanged.
    pub fn pop_from(&mut self, f: TravelDocField)
        ensures
            final(self).field_text(f) == (if old(self).field_text(f).len() > 0 {
                old(self).field_text(f).drop_last()
            } else {
                old(self).field_text(f)
            }),
            forall|g: TravelDocField| g != f ==> final(self).field_text(g) == old(self).field_text(g),
    {
        match f {
            TravelDocField::DocNumber => {
                self.doc_number = without_last(&self.doc_number);
            },
            TravelDocField::Dob => {
                self.dob = without_last(&self.dob);
            },
            TravelDocField::Doe => {
                self.doe = without_last(&self.doe);
            },
        }
    }
}

impl Default for TravelDocInput {
    /// Nothing typed yet.
    fn default() -> (res: TravelDocInput)
        ensures
            res.doc_number@.len() == 0,
            res.dob@.len() == 0,
            res.doe@.len() == 0,
    {
        TravelDocInput::empty()
    }
}

/// A copy of `s` without its last character (`String::pop`).
fn without_last(s: &String) -> (res: String)
    ensures
        res@ == (if s@.len() > 0 {
            s@.drop_last()
        } else {
            s@
        }),
{
    let n = s.unicode_len();
    if n == 0 {
        to_owned_string(s.as_str())
    } else {
        to_owned_string(s.as_str().substring_char(0, n - 1))
    }
}

/// The area that the arrow keys and scrolling act on.
#[derive(Debug, Clone, Copy, PartialEq, Eq, Structural)]
pub enum Focus {
    /// The list of readers.
    Readers,
    /// The decoded card.
    Parsed,
    /// The saved cards.
    Saved,
}

/// The entries of the settings menu.
#[derive(Debug, Clone, Copy, PartialEq, Eq, Structural)]
pub enum SettingsItem {
    /// Automatic reading.
    AutoPoll,
    /// Automatic saving.
    AutoSave,
}

/// Where reading stands.
#[derive(Debug, Clone, PartialEq, Eq)]
pub enum ReadState {
    /// No card, or the card was taken away.
    Idle,
    /// A card is there but was not read yet.
    CardPresent,
    /// The last read succeeded.
    Done,
    /// The last read failed, with the error's text.
    Error(String),
}

/// The state of the interactive program.
pub struct App {
    /// The reader names.
    pub readers: Vec<String>,
    /// The position of the selected reader.
    pub selected_reader: usize,
    /// The card status of the selected reader.
    pub card_status: CardStatus,
    /// Where reading stands.
    pub state: ReadState,
    /// The raw data of the last read.
    pub raw: Option<RawCardData>,
    /// The decoding of the last read.
    pub parsed: Option<ParsedResult>,
    /// The focused area.
    pub focus: Focus,
    /// The scroll offset of the decoded card.
    pub parsed_scroll: u16,
    /// The scroll offset of the saved cards.
    pub saved_scroll: u16,
    /// The position of the selected saved card.
    pub selected_saved: usize,
    /// The saved transit cards.
    pub saved_cards: Vec<SavedCard>,
    /// The saved card whose history is shown, if any.
    pub history_view: Option<usize>,
    /// Whether the program should end.
    pub should_quit: bool,
    /// The status line.
    pub message: String,
    /// Automatic reading.
    pub auto_poll: bool,
    /// Automatic saving of transit records.
    pub auto_save: bool,
    /// Whether the settings menu is open.
    pub settings_open: bool,
    /// The selected settings entry.
    pub selected_setting: SettingsItem,
    /// The text of the PC/SC start-up failure, if any (no reader access then).
    pub init_error: Option<String>,
    /// The travel-document input, while it is being typed (polling pauses meanwhile).
    pub traveldoc_input: Option<TravelDocInput>,
    /// The element of the travel-document input being typed.
    pub traveldoc_field: TravelDocField,
}

/// The next focus of `Tab`.
pub open spec fn next_focus(f: Focus) -> Focus {
    match f {
        Focus::Readers => Focus::Parsed,
        Focus::Parsed => Focus::Saved,
        Focus::Saved => Focus::Readers,
    }
}

/// The next element of the travel-document input.
pub open spec fn next_field(f: TravelDocField) -> TravelDocField {
    match f {
        TravelDocField::DocNumber => TravelDocField::Dob,
        TravelDocField::Dob => TravelDocField::Doe,
        TravelDocField::Doe => TravelDocField::DocNumber,
    }
}

/// The previous element of the travel-document input.
pub open spec fn prev_field(f: TravelDocField) -> TravelDocField {
    match f {
        TravelDocField::DocNumber => TravelDocField::Doe,
        TravelDocField::Dob => TravelDocField::DocNumber,
        TravelDocField::Doe => TravelDocField::Dob,
    }
}

/// The other settings entry.
pub open spec fn other_item(i: SettingsItem) -> SettingsItem {
    match i {
        SettingsItem::AutoPoll => SettingsItem::AutoSave,
        SettingsItem::AutoSave => SettingsItem::AutoPoll,
    }
}

/// `u16::saturating_sub`.
pub open spec fn sat_sub(a: u16, b: u16) -> u16 {
    if a >= b {
        (a - b) as u16
    } else {
        0
    }
}

/// `u16::saturating_add`.
pub open spec fn sat_add(a: u16, b: u16) -> u16 {
    if a + b <= u16::MAX {
        (a + b) as u16
    } else {
        u16::MAX
    }
}

fn u16_sat_sub(a: u16, b: u16) -> (res: u16)
    ensures
        res == sat_sub(a, b),
{
    if a >= b {
        a - b
    } else {
        0
    }
}

fn u16_sat_add(a: u16, b: u16) -> (res: u16)
    ensures
        res == sat_add(a, b),
{
    if a as u32 + b as u32 <= 0xFFFF {
        a + b
    } else {
        0xFFFF
    }
}

/// The status line at start-up: a PC/SC failure, no reader, or ready.
pub open spec fn start_message(pcsc: Result<Vec<String>, String>) -> Seq<char> {
    match pcsc {
        Err(_) => "PC/SC 初始化失败，仅可查看界面"@,
        Ok(v) => if v@.len() == 0 {
            "未检测到读卡器"@
        } else {
            "就绪：放卡或按 Enter 读取"@
        },
    }
}

/// Everything but the fields named in a transition stays as it was: the transitions state
/// this through `same_except_*` predicates over the fields they may change.
pub open spec fn same_reading(a: App, b: App) -> bool {
    &&& a.readers == b.readers
    &&& a.selected_reader == b.selected_reader
    &&& a.card_status == b.card_status
    &&& a.state == b.state
    &&& a.raw == b.raw
    &&& a.parsed == b.parsed
    &&& a.saved_cards == b.saved_cards
    &&& a.history_view == b.history_view
    &&& a.should_quit == b.should_quit
    &&& a.init_error == b.init_error
}

/// Focus, scrolling and selection of saved cards unchanged.
pub open spec fn same_view(a: App, b: App) -> bool {
    &&& a.focus == b.focus
    &&& a.parsed_scroll == b.parsed_scroll
    &&& a.saved_scroll == b.saved_scroll
    &&& a.selected_saved == b.selected_saved
}

/// Settings, their menu and the travel-document input unchanged.
pub open spec fn same_modes(a: App, b: App) -> bool {
    &&& a.auto_poll == b.auto_poll
    &&& a.auto_save == b.auto_save
    &&& a.settings_open == b.settings_open
    &&& a.selected_setting == b.selected_setting
    &&& a.traveldoc_input == b.traveldoc_input
    &&& a.traveldoc_field == b.traveldoc_field
}

impl App {
    /// The state at start-up, from the saved settings, the outcome of starting PC/SC (the
    /// readers listed, or the failure's text) and the saved cards.
    pub fn new(settings: Settings, pcsc: Result<Vec<String>, String>, saved_cards: Vec<SavedCard>) -> (res: App)
        ensures
            res.readers@ == (match pcsc {
                Ok(v) => v@,
                Err(_) => Seq::empty(),
            }),
            res.init_error == (match pcsc {
                Ok(_) => None::<String>,
                Err(e) => Some(e),
            }),
            res.message@ == start_message(pcsc),
            res.selected_reader == 0,
            res.card_status == CardStatus::Empty,
            res.state == ReadState::Idle,
            res.raw is None,
            res.parsed is None,
            res.focus == Focus::Readers,
            res.parsed_scroll == 0,
            res.saved_scroll == 0,
            res.selected_saved == 0,
            res.saved_cards == saved_cards,
            res.history_view is None,
            !res.should_quit,
            res.auto_poll == settings.auto_poll,
            res.auto_save == settings.auto_save,
            !res.settings_open,
            res.selected_setting == SettingsItem::AutoPoll,
            res.traveldoc_input is None,
            res.traveldoc_field == TravelDocField::DocNumber,
    {
        let ghost p = pcsc;
        let (readers, init_error, message) = match pcsc {
            Ok(v) => {
                let m = if v.len() == 0 {
                    to_owned_string("未检测到读卡器")
                } else {
                    to_owned_string("就绪：放卡或按 Enter 读取")
                };
                (v, None, m)
            },
            Err(e) => (Vec::new(), Some(e), to_owned_string("PC/SC 初始化失败，仅可查看界面")),
        };
        App {
            readers,
            selected_reader: 0,
            card_status: CardStatus::Empty,
            state: ReadState::Idle,
            raw: None,
            parsed: None,
            focus: Focus::Readers,
            parsed_scroll: 0,
            saved_scroll: 0,
            selected_saved: 0,
            saved_cards,
            history_view: None,
            should_quit: false,
            message,
            auto_poll: settings.auto_poll,
            auto_save: settings.auto_save,
            settings_open: false,
            selected_setting: SettingsItem::AutoPoll,
            init_error,
            traveldoc_input: None,
            traveldoc_field: TravelDocField::DocNumber,
        }
    }

    /// The name of the selected reader, if it exists.
    pub fn current_reader(&self) -> (res: Option<&str>)
        ensures
            self.selected_reader < self.readers@.len() ==> (res matches Some(r) && r@
                == self.readers@[self.selected_reader as int]@),
            self.selected_reader >= self.readers@.len() ==> res is None,
    {
        if self.selected_reader < self.readers.len() {
            Some(self.readers[self.selected_reader].as_str())
        } else {
            None
        }
    }

    /// Takes a new list of readers (when PC/SC works and the listing succeeded): the
    /// selection moves to the last reader when it is past the end.
    pub fn refresh_readers(&mut self, listed: Option<Vec<String>>)
        ensures
            (old(self).init_error is None && listed is Some) ==> ({
                let v = listed->Some_0;
                &&& final(self).readers == v
                &&& final(self).selected_reader == (if old(self).selected_reader >= v@.len() {
                    if v@.len() == 0 {
                        0
                    } else {
                        (v@.len() - 1) as usize
                    }
                } else {
                    old(self).selected_reader
                })
            }),
            (old(self).init_error is Some || listed is None) ==> final(self).readers == old(self).readers
                && final(self).selected_reader == old(self).selected_reader,
            final(self).card_status == old(self).card_status,
            final(self).state == old(self).state,
            final(self).message == old(self).message,
            same_view(*old(self), *final(self)),
            same_modes(*old(self), *final(self)),
    {
        if self.init_error.is_none() {
            if let Some(v) = listed {
                self.readers = v;
                if self.selected_reader >= self.readers.len() {
                    self.selected_reader = if self.readers.len() == 0 {
                        0
                    } else {
                        self.readers.len() - 1
                    };
                }
            }
        }
    }

    /// `Tab`: the next area gets the focus.
    pub fn cycle_focus(&mut self)
        ensures
            final(self).focus == next_focus(old(self).focus),
            final(self).parsed_scroll == old(self).parsed_scroll,
            final(self).saved_scroll == old(self).saved_scroll,
            final(self).selected_saved == old(self).selected_saved,
            final(self).message == old(self).message,
            same_reading(*old(self), *final(self)),
            same_modes(*old(self), *final(self)),
    {
        self.focus = match self.focus {
            Focus::Readers => Focus::Parsed,
            Focus::Parsed => Focus::Saved,
            Focus::Saved => Focus::Readers,
        };
    }

    /// Up: the previous reader (its card status forgotten), one line up in the decoded card,
    /// or the previous saved card (scrolling one line up), by focus.
    pub fn on_up(&mut self)
        ensures
            old(self).focus == Focus::Readers ==> {
                if old(self).selected_reader > 0 {
                    final(self).selected_reader == old(self).selected_reader - 1 && final(self).card_status
                        == CardStatus::Empty
                } else {
                    final(self).selected_reader == old(self).selected_reader && final(self).card_status == old(self).card_status
                }
            },
            old(self).focus != Focus::Readers ==> final(self).selected_reader == old(self).selected_reader
                && final(self).card_status == old(self).card_status,
            final(self).parsed_scroll == (if old(self).focus == Focus::Parsed {
                sat_sub(old(self).parsed_scroll, 1)
            } else {
                old(self).parsed_scroll
            }),
            (old(self).focus == Focus::Saved && old(self).selected_saved > 0) ==> final(self).selected_saved
                == old(self).selected_saved - 1 && final(self).saved_scroll == sat_sub(old(self).saved_scroll, 1),
            !(old(self).focus == Focus::Saved && old(self).selected_saved > 0) ==> final(self).selected_saved
                == old(self).selected_saved && final(self).saved_scroll == old(self).saved_scroll,
            final(self).focus == old(self).focus,
            final(self).readers == old(self).readers,
            final(self).state == old(self).state,
            final(self).saved_cards == old(self).saved_cards,
            final(self).message == old(self).message,
            same_modes(*old(self), *final(self)),
    {
        match self.focus {
            Focus::Readers => {
                if self.selected_reader > 0 {
                    self.selected_reader = self.selected_reader - 1;
                    self.card_status = CardStatus::Empty;
                }
            },
            Focus::Parsed => self.parsed_scroll = u16_sat_sub(self.parsed_scroll, 1),
            Focus::Saved => {
                if self.selected_saved > 0 {
                    self.selected_saved = self.selected_saved - 1;
                    self.saved_scroll = u16_sat_sub(self.saved_scroll, 1);
                }
            },
        }
    }

    /// Down: the next reader (its card status forgotten), one line down in the decoded card,
    /// or the next saved card (scrolling one line down), by focus; nothing past the ends.
    pub fn on_down(&mut self)
        ensures
            old(self).focus == Focus::Readers ==> {
                if old(self).selected_reader + 1 < old(self).readers@.len() {
                    final(self).selected_reader == old(self).selected_reader + 1 && final(self).card_status
                        == CardStatus::Empty
                } else {
                    final(self).selected_reader == old(self).selected_reader && final(self).card_status == old(self).card_status
                }
            },
            old(self).focus != Focus::Readers ==> final(self).selected_reader == old(self).selected_reader
                && final(self).card_status == old(self).card_status,
            final(self).parsed_scroll == (if old(self).focus == Focus::Parsed {
                sat_add(old(self).parsed_scroll, 1)
            } else {
                old(self).parsed_scroll
            }),
            (old(self).focus == Focus::Saved && old(self).selected_saved + 1 < old(self).saved_cards@.len())
                ==> final(self).selected_saved == old(self).selected_saved + 1 && final(self).saved_scroll
                == sat_add(old(self).saved_scroll, 1),
            !(old(self).focus == Focus::Saved && old(self).selected_saved + 1 < old(self).saved_cards@.len())
                ==> final(self).selected_saved == old(self).selected_saved && final(self).saved_scroll == old(self).saved_scroll,
            final(self).focus == old(self).focus,
            final(self).readers == old(self).readers,
            final(self).state == old(self).state,
            final(self).saved_cards == old(self).saved_cards,
            final(self).message == old(self).message,
            same_modes(*old(self), *final(self)),
    {
        match self.focus {
            Focus::Readers => {
                if self.selected_reader < self.readers.len() && self.selected_reader + 1 < self.readers.len() {
                    self.selected_reader = self.selected_reader + 1;
                    self.card_status = CardStatus::Empty;
                }
            },
            Focus::Parsed => self.parsed_scroll = u16_sat_add(self.parsed_scroll, 1),
            Focus::Saved => {
                if self.selected_saved < self.saved_cards.len() && self.selected_saved + 1 < self.saved_cards.len() {
                    self.selected_saved = self.selected_saved + 1;
                    self.saved_scroll = u16_sat_add(self.saved_scroll, 1);
                }
            },
        }
    }

    /// Page up or down: ten lines in the decoded card or the saved cards; nothing for the
    /// readers.
    pub fn on_page(&mut self, up: bool)
        ensures
            final(self).parsed_scroll == (if old(self).focus == Focus::Parsed {
                if up {
                    sat_sub(old(self).parsed_scroll, 10)
                } else {
                    sat_add(old(self).parsed_scroll, 10)
                }
            } else {
                old(self).parsed_scroll
            }),
            final(self).saved_scroll == (if old(self).focus == Focus::Saved {
                if up {
                    sat_sub(old(self).saved_scroll, 10)
                } else {
                    sat_add(old(self).saved_scroll, 10)
                }
            } else {
                old(self).saved_scroll
            }),
            final(self).focus == old(self).focus,
            final(self).selected_saved == old(self).selected_saved,
            final(self).message == old(self).message,
            same_reading(*old(self), *final(self)),
            same_modes(*old(self), *final(self)),
    {
        match self.focus {
            Focus::Parsed => {
                self.parsed_scroll = if up {
                    u16_sat_sub(self.parsed_scroll, 10)
                } else {
                    u16_sat_add(self.parsed_scroll, 10)
                };
            },
            Focus::Saved => {
                self.saved_scroll = if up {
                    u16_sat_sub(self.saved_scroll, 10)
                } else {
                    u16_sat_add(self.saved_scroll, 10)
                };
            },
            Focus::Readers => {},
        }
    }

    /// Opens the history of the selected saved card (the selection kept within the list), or
    /// says that there is none.
    pub fn open_selected_saved(&mut self)
        ensures
            old(self).saved_cards@.len() == 0 ==> final(self).message@ == "暂无已保存卡片"@
                && final(self).history_view == old(self).history_view && final(self).selected_saved == old(self).selected_saved && final(self).parsed_scroll == old(self).parsed_scroll,
            old(self).saved_cards@.len() > 0 ==> {
                let sel = if old(self).selected_saved < old(self).saved_cards@.len() {
                    old(self).selected_saved
                } else {
                    (old(self).saved_cards@.len() - 1) as usize
                };
                let c = old(self).saved_cards@[sel as int];
                &&& final(self).selected_saved == sel
                &&& final(self).history_view == Some(sel)
                &&& final(self).parsed_scroll == 0
                &&& final(self).message@ == "已打开 "@ + display_spec(c.name@, c.number@) + " 的历史记录"@
            },
            final(self).saved_cards == old(self).saved_cards,
            final(self).focus == old(self).focus,
            final(self).saved_scroll == old(self).saved_scroll,
            final(self).readers == old(self).readers,
            final(self).state == old(self).state,
            same_modes(*old(self), *final(self)),
    {
        if self.saved_cards.len() == 0 {
            self.message = to_owned_string("暂无已保存卡片");
            return;
        }
        let last = self.saved_cards.len() - 1;
        if self.selected_saved > last {
            self.selected_saved = last;
        }
        self.history_view = Some(self.selected_saved);
        self.parsed_scroll = 0;
        let name = self.saved_cards[self.selected_saved].display_name();
        let mut m = to_owned_string("已打开 ");
        push_str(&mut m, name.as_str());
        push_str(&mut m, " 的历史记录");
        self.message = m;
    }

    /// The settings to keep.
    pub fn settings(&self) -> (res: Settings)
        ensures
            res.auto_poll == self.auto_poll,
            res.auto_save == self.auto_save,
    {
        Settings { auto_poll: self.auto_poll, auto_save: self.auto_save }
    }

    /// Switches automatic reading and says so.
    pub fn toggle_auto(&mut self)
        ensures
            final(self).auto_poll == !old(self).auto_poll,
            final(self).message@ == (if final(self).auto_poll {
                "自动读卡：开"@
            } else {
                "自动读卡：关"@
            }),
            final(self).auto_save == old(self).auto_save,
            final(self).settings_open == old(self).settings_open,
            final(self).selected_setting == old(self).selected_setting,
            final(self).traveldoc_input == old(self).traveldoc_input,
            final(self).traveldoc_field == old(self).traveldoc_field,
            same_reading(*old(self), *final(self)),
            same_view(*old(self), *final(self)),
    {
        self.auto_poll = !self.auto_poll;
        self.message = if self.auto_poll {
            to_owned_string("自动读卡：开")
        } else {
            to_owned_string("自动读卡：关")
        };
    }

    /// Switches automatic saving and says so.
    pub fn toggle_auto_save(&mut self)
        ensures
            final(self).auto_save == !old(self).auto_save,
            final(self).message@ == (if final(self).auto_save {
                "自动保存：开"@
            } else {
                "自动保存：关"@
            }),
            final(self).auto_poll == old(self).auto_poll,
            final(self).settings_open == old(self).settings_open,
            final(self).selected_setting == old(self).selected_setting,
            final(self).traveldoc_input == old(self).traveldoc_input,
            final(self).traveldoc_field == old(self).traveldoc_field,
            same_reading(*old(self), *final(self)),
            same_view(*old(self), *final(self)),
    {
        self.auto_save = !self.auto_save;
        self.message = if self.auto_save {
            to_owned_string("自动保存：开")
        } else {
            to_owned_string("自动保存：关")
        };
    }

    /// Whether the settings menu is open.
    pub fn is_settings_open(&self) -> (res: bool)
        ensures
            res == self.settings_open,
    {
        self.settings_open
    }

    /// Opens the settings menu.
    pub fn open_settings(&mut self)
        ensures
            final(self).settings_open,
            final(self).message@ == "设置：↑↓ 选择，Enter/Space 切换，Esc 关闭"@,
            final(self).auto_poll == old(self).auto_poll,
            final(self).auto_save == old(self).auto_save,
            final(self).selected_setting == old(self).selected_setting,
            final(self).traveldoc_input == old(self).traveldoc_input,
            final(self).traveldoc_field == old(self).traveldoc_field,
            same_reading(*old(self), *final(self)),
            same_view(*old(self), *final(self)),
    {
        self.settings_open = true;
        self.message = to_owned_string("设置：↑↓ 选择，Enter/Space 切换，Esc 关闭");
    }

    /// Closes the settings menu.
    pub fn close_settings(&mut self)
        ensures
            !final(self).settings_open,
            final(self).message@ == "已关闭设置"@,
            final(self).auto_poll == old(self).auto_poll,
            final(self).auto_save == old(self).auto_save,
            final(self).selected_setting == old(self).selected_setting,
            final(self).traveldoc_input == old(self).traveldoc_input,
            final(self).traveldoc_field == old(self).traveldoc_field,
            same_reading(*old(self), *final(self)),
            same_view(*old(self), *final(self)),
    {
        self.settings_open = false;
        self.message = to_owned_string("已关闭设置");
    }

    /// Selects the previous settings entry (there are two, so: the other one).
    pub fn settings_prev_item(&mut self)
        ensures
            final(self).selected_setting == other_item(old(self).selected_setting),
            final(self).message == old(self).message,
            final(self).auto_poll == old(self).auto_poll,
            final(self).auto_save == old(self).auto_save,
            final(self).settings_open == old(self).settings_open,
            final(self).traveldoc_input == old(self).traveldoc_input,
            final(self).traveldoc_field == old(self).traveldoc_field,
            same_reading(*old(self), *final(self)),
            same_view(*old(self), *final(self)),
    {
        self.selected_setting = match self.selected_setting {
            SettingsItem::AutoPoll => SettingsItem::AutoSave,
            SettingsItem::AutoSave => SettingsItem::AutoPoll,
        };
    }

    /// Selects the next settings entry (the other one).
    pub fn settings_next_item(&mut self)
        ensures
            final(self).selected_setting == other_item(old(self).selected_setting),
            final(self).message == old(self).message,
            final(self).auto_poll == old(self).auto_poll,
            final(self).auto_save == old(self).auto_save,
            final(self).settings_open == old(self).settings_open,
            final(self).traveldoc_input == old(self).traveldoc_input,
            final(self).traveldoc_field == old(self).traveldoc_field,
            same_reading(*old(self), *final(self)),
            same_view(*old(self), *final(self)),
    {
        self.settings_prev_item();
    }

    /// Switches the selected setting.
    pub fn toggle_selected_setting(&mut self)
        ensures
            old(self).selected_setting == SettingsItem::AutoPoll ==> final(self).auto_poll == !old(self).auto_poll
                && final(self).auto_save == old(self).auto_save && final(self).message@ == (if final(self).auto_poll {
                "自动读卡：开"@
            } else {
                "自动读卡：关"@
            }),
            old(self).selected_setting == SettingsItem::AutoSave ==> final(self).auto_save == !old(self).auto_save
                && final(self).auto_poll == old(self).auto_poll && final(self).message@ == (if final(self).auto_save {
                "自动保存：开"@
            } else {
                "自动保存：关"@
            }),
            final(self).settings_open == old(self).settings_open,
            final(self).selected_setting == old(self).selected_setting,
            same_reading(*old(self), *final(self)),
            same_view(*old(self), *final(self)),
    {
        match self.selected_setting {
            SettingsItem::AutoPoll => self.toggle_auto(),
            SettingsItem::AutoSave => self.toggle_auto_save(),
        }
    }

    /// Whether the travel-document input is open.
    pub fn is_traveldoc_input(&self) -> (res: bool)
        ensures
            res == self.traveldoc_input is Some,
    {
        self.traveldoc_input.is_some()
    }

    /// Opens an empty travel-document input on the document number.
    pub fn start_traveldoc_input(&mut self)
        ensures
            final(self).traveldoc_input matches Some(i) && i.doc_number@.len() == 0 && i.dob@.len() == 0
                && i.doe@.len() == 0,
            final(self).traveldoc_field == TravelDocField::DocNumber,
            final(self).message@ == "旅行证件模式：输入 MRZ 三要素，Enter 读取，Esc 取消"@,
            final(self).settings_open == old(self).settings_open,
            final(self).auto_poll == old(self).auto_poll,
            final(self).auto_save == old(self).auto_save,
            same_reading(*old(self), *final(self)),
            same_view(*old(self), *final(self)),
    {
        self.traveldoc_input = Some(TravelDocInput::empty());
        self.traveldoc_field = TravelDocField::DocNumber;
        self.message = to_owned_string("旅行证件模式：输入 MRZ 三要素，Enter 读取，Esc 取消");
    }

    /// Closes the travel-document input.
    pub fn cancel_traveldoc_input(&mut self)
        ensures
            final(self).traveldoc_input is None,
            final(self).message@ == "已退出旅行证件模式"@,
            final(self).traveldoc_field == old(self).traveldoc_field,
            final(self).settings_open == old(self).settings_open,
            final(self).auto_poll == old(self).auto_poll,
            final(self).auto_save == old(self).auto_save,
            same_reading(*old(self), *final(self)),
            same_view(*old(self), *final(self)),
    {
        self.traveldoc_input = None;
        self.message = to_owned_string("已退出旅行证件模式");
    }

    /// Types a character, upper-cased, into the current element of the input.
    pub fn traveldoc_push_char(&mut self, c: char)
        ensures
            match old(self).traveldoc_input {
                Some(i) => final(self).traveldoc_input matches Some(j) && j.field_text(old(self).traveldoc_field)
                    == i.field_text(old(self).traveldoc_field).push(ascii_upper(c)) && forall|g: TravelDocField|
                    g != old(self).traveldoc_field ==> j.field_text(g) == i.field_text(g),
                None => final(self).traveldoc_input is None,
            },
            final(self).traveldoc_field == old(self).traveldoc_field,
            final(self).message == old(self).message,
            same_reading(*old(self), *final(self)),
            same_view(*old(self), *final(self)),
    {
        let field = self.traveldoc_field;
        let up = char_to_ascii_upper(c);
        let mut cur: Option<TravelDocInput> = None;
        std::mem::swap(&mut cur, &mut self.traveldoc_input);
        if let Some(mut input) = cur {
            input.push_to(field, up);
            self.traveldoc_input = Some(input);
        }
    }

    /// Erases the last character of the current element of the input.
    pub fn traveldoc_backspace(&mut self)
        ensures
            match old(self).traveldoc_input {
                Some(i) => final(self).traveldoc_input matches Some(j) && j.field_text(old(self).traveldoc_field)
                    == (if i.field_text(old(self).traveldoc_field).len() > 0 {
                    i.field_text(old(self).traveldoc_field).drop_last()
                } else {
                    i.field_text(old(self).traveldoc_field)
                }) && forall|g: TravelDocField| g != old(self).traveldoc_field ==> j.field_text(g) == i.field_text(
                    g,
                ),
                None => final(self).traveldoc_input is None,
            },
            final(self).traveldoc_field == old(self).traveldoc_field,
            final(self).message == old(self).message,
            same_reading(*old(self), *final(self)),
            same_view(*old(self), *final(self)),
    {
        let field = self.traveldoc_field;
        let mut cur: Option<TravelDocInput> = None;
        std::mem::swap(&mut cur, &mut self.traveldoc_input);
        if let Some(mut input) = cur {
            input.pop_from(field);
            self.traveldoc_input = Some(input);
        }
    }

    /// The next element of the input.
    pub fn traveldoc_next_field(&mut self)
        ensures
            final(self).traveldoc_field == next_field(old(self).traveldoc_field),
            final(self).traveldoc_input == old(self).traveldoc_input,
            final(self).message == old(self).message,
            same_reading(*old(self), *final(self)),
            same_view(*old(self), *final(self)),
    {
        self.traveldoc_field = match self.traveldoc_field {
            TravelDocField::DocNumber => TravelDocField::Dob,
            TravelDocField::Dob => TravelDocField::Doe,
            TravelDocField::Doe => TravelDocField::DocNumber,
        };
    }

    /// The previous element of the input.
    pub fn traveldoc_prev_field(&mut self)
        ensures
            final(self).traveldoc_field == prev_field(old(self).traveldoc_field),
            final(self).traveldoc_input == old(self).traveldoc_input,
            final(self).message == old(self).message,
            same_reading(*old(self), *final(self)),
            same_view(*old(self), *final(self)),
    {
        self.traveldoc_field = match self.traveldoc_field {
            TravelDocField::DocNumber => TravelDocField::Doe,
            TravelDocField::Dob => TravelDocField::DocNumber,
            TravelDocField::Doe => TravelDocField::Dob,
        };
    }
}

/// The elements of the key that the input gives (`PassportKey::new`).
pub open spec fn key_parts(doc: Seq<char>, dob: Seq<char>, doe: Seq<char>) -> (Seq<char>, Seq<char>, Seq<char>) {
    (doc_number_spec(doc), trim_spec(dob), trim_spec(doe))
}

/// What a poll tick asks of the program.
pub enum TickStep {
    /// Nothing now (no PC/SC, the travel-document input is open, or it is not time yet).
    Skip,
    /// Restart the poll timer and list the readers again (`refresh_readers`).
    Refresh,
    /// Restart the poll timer; there is no selected reader.
    Wait,
    /// Restart the poll timer and ask this reader for its card status (`on_status`).
    Poll(String),
}

/// What the program does after a transition that may read a card.
pub enum ReadRequest {
    /// Nothing to read.
    Nothing,
    /// Read the card of this reader and hand the outcome to `finish_read`.
    Card(String),
}

/// How a read starts (`begin_read`): without a selected reader or without PC/SC nothing is
/// read and the status line says why; otherwise the selected reader is read and the status
/// line says that reading goes on.
pub open spec fn read_start(a: App, res: ReadRequest, msg: Seq<char>) -> bool {
    if a.selected_reader >= a.readers@.len() {
        res is Nothing && msg == "无可用读卡器"@
    } else if a.init_error is Some {
        res is Nothing && msg == "PC/SC 不可用"@
    } else {
        res matches ReadRequest::Card(r) && r@ == a.readers@[a.selected_reader as int]@ && msg == "读取中…"@
    }
}

/// What saving the transit cards of the last read came to.
#[derive(Debug, Clone, Copy, PartialEq, Eq, Structural)]
pub enum SaveOutcome {
    /// There is no read to save.
    NoResult,
    /// The read holds no transit card.
    NotTransit,
    /// The transit cards hold no new transaction.
    NothingNew,
    /// This many new records were merged into the saved cards; the history file is to be
    /// written and the outcome handed to `finish_save`.
    Write(usize),
}

/// How far the saving of transit cards has gone: the saved cards, whether a transit card was
/// met, the records added and the saved card selected.
pub struct SaveProgress {
    /// The saved cards.
    pub saved: Seq<CardView>,
    /// Whether a transit card was met.
    pub any_transit: bool,
    /// The new records counted.
    pub added: nat,
    /// The selected saved card.
    pub selected: int,
}

/// The first saved card with the key, from `i` on.
pub open spec fn key_pos(saved: Seq<CardView>, key: Seq<char>, i: int) -> Option<int>
    decreases saved.len() - i,
{
    if i < 0 || i >= saved.len() {
        None
    } else if saved[i].key == key {
        Some(i)
    } else {
        key_pos(saved, key, i + 1)
    }
}

proof fn lemma_key_pos(saved: Seq<CardView>, key: Seq<char>, i: int)
    requires
        0 <= i,
    ensures
        key_pos(saved, key, i) matches Some(j) ==> i <= j < saved.len() && saved[j].key == key,
    decreases saved.len() - i,
{
    if i < saved.len() && saved[i].key != key {
        lemma_key_pos(saved, key, i + 1);
    }
}

/// Saving one decoded card: other than transit cards are skipped; a transit card whose key is
/// saved takes the new name, number and currency, gets its unseen transaction lines appended
/// and is selected; another is added as a new saved card, selected, and counts for its
/// transactions (at least one).
pub open spec fn save_one(p: SaveProgress, card: ParsedCard, now: u64) -> SaveProgress {
    if !is_transport_spec(card) {
        p
    } else {
        let snap = snapshot_view(card, now);
        match key_pos(p.saved, snap.key, 0) {
            Some(i) => {
                let upd = CardView { name: snap.name, number: snap.number, currency: snap.currency, ..p.saved[i] };
                let new = unseen_lines(transaction_lines_spec(card), view_lines(upd));
                let after = if new.len() == 0 {
                    upd
                } else {
                    appended_view(upd, new, now)
                };
                SaveProgress { saved: p.saved.update(i, after), any_transit: true, added: p.added + new.len(), selected: i }
            },
            None => SaveProgress {
                saved: p.saved.push(snap),
                any_transit: true,
                added: p.added + if card.transactions@.len() > 0 {
                    card.transactions@.len()
                } else {
                    1nat
                },
                selected: p.saved.len() as int,
            },
        }
    }
}

/// Saving decoded cards in order.
pub open spec fn save_all(p: SaveProgress, cards: Seq<ParsedCard>, now: u64) -> SaveProgress
    decreases cards.len(),
{
    if cards.len() == 0 {
        p
    } else {
        save_one(save_all(p, cards.drop_last(), now), cards.last(), now)
    }
}

/// Saving keeps nothing of cards that are not transit cards: the saved cards, the count and
/// the selection stay as they were.
pub proof fn law_non_transit_cards_are_not_saved(p: SaveProgress, cards: Seq<ParsedCard>, now: u64)
    requires
        forall|i: int| 0 <= i < cards.len() ==> !is_transport_spec(#[trigger] cards[i]),
    ensures
        save_all(p, cards, now) == p,
    decreases cards.len(),
{
    if cards.len() > 0 {
        assert(!is_transport_spec(cards[cards.len() - 1]));
        law_non_transit_cards_are_not_saved(p, cards.drop_last(), now);
    }
}

/// What is decoded from a travel document is never saved: its card is not a transit card, so
/// saving a decoded travel-document read leaves the saved cards as they were.
pub proof fn law_travel_documents_are_not_saved(raw: RawCardData, r: ParsedResult, p: SaveProgress, now: u64)
    requires
        raw.card_type@ == "TravelDoc"@,
        result_parsed(raw, r),
    ensures
        save_all(p, r.cards@, now) == p,
{
    reveal_strlit("TravelDoc");
    reveal_strlit("MifareUltralight");
    reveal_strlit("MifareClassic");
    reveal_strlit("Octopus");
    reveal_strlit("Felica");
    let ct = raw.card_type@;
    assert(ct.len() == 9);
    assert("MifareUltralight"@.len() == 16);
    assert("MifareClassic"@.len() == 13);
    assert(ct != "Octopus"@ && ct != "Felica"@);
    assert(r.cards@.len() == 1);
    let c = r.cards@[0];
    assert(traveldoc_parsed(raw.fields(), c));
    assert(!is_transport_spec(c)) by {
        reveal_strlit("电子护照");
        reveal_strlit("电子往来港澳通行证");
        reveal_strlit("旅行证件");
        reveal_strlit("深圳通");
        reveal_strlit("武汉通");
        reveal_strlit("岭南通");
        reveal_strlit("城市一卡通");
        reveal_strlit("交通联合");
        reveal_strlit("澳门通");
        reveal_strlit("北京一卡通");
        reveal_strlit("T-Money");
        reveal_strlit("八达通 Octopus");
        let n = c.name@;
        assert(n == "电子护照"@ || n == "电子往来港澳通行证"@ || n == "旅行证件"@);
        assert(n.len() == 4 || n.len() == 9);
        assert(n.len() == 4 ==> n[0] == '电' || n[0] == '旅');
        assert("交通联合"@[0] == '交');
    }
    law_non_transit_cards_are_not_saved(p, r.cards@, now);
}

/// A count in a `usize`, held at its maximum.
pub open spec fn capped(n: int) -> usize {
    if n > usize::MAX {
        usize::MAX
    } else {
        n as usize
    }
}

/// The position of the first saved card with the key (`key_pos`).
fn find_key(cards: &Vec<SavedCard>, key: &str) -> (res: Option<usize>)
    ensures
        res matches Some(i) ==> key_pos(cards_view(cards@), key@, 0) == Some(i as int),
        res is None ==> key_pos(cards_view(cards@), key@, 0) is None,
{
    let ghost cv = cards_view(cards@);
    let mut i: usize = 0;
    while i < cards.len()
        invariant
            i <= cards@.len(),
            cv == cards_view(cards@),
            key_pos(cv, key@, 0) == key_pos(cv, key@, i as int),
        decreases cards@.len() - i,
    {
        if str_eq(cards[i].key.as_str(), key) {
            return Some(i);
        }
        i = i + 1;
    }
    None
}

impl App {
    /// A poll tick (`due` when the poll interval has passed): nothing without PC/SC, while the
    /// travel-document input is open, or before time; otherwise list the readers when there
    /// are none, or poll the selected reader.
    pub fn tick(&self, due: bool) -> (res: TickStep)
        ensures
            (self.init_error is Some || self.traveldoc_input is Some || !due) ==> res is Skip,
            (self.init_error is None && self.traveldoc_input is None && due) ==> {
                if self.readers@.len() == 0 {
                    res is Refresh
                } else if self.selected_reader < self.readers@.len() {
                    res matches TickStep::Poll(r) && r@ == self.readers@[self.selected_reader as int]@
                } else {
                    res is Wait
                }
            },
    {
        if self.init_error.is_some() || self.traveldoc_input.is_some() || !due {
            return TickStep::Skip;
        }
        if self.readers.len() == 0 {
            return TickStep::Refresh;
        }
        match self.current_reader() {
            Some(r) => TickStep::Poll(to_owned_string(r)),
            None => TickStep::Wait,
        }
    }

    /// The card status that a poll found. A card that just arrived is read at once with
    /// automatic reading on (the result asks for it), else announced; a card taken away
    /// returns reading to idle.
    pub fn on_status(&mut self, status: CardStatus) -> (res: ReadRequest)
        ensures
            final(self).card_status == status,
            ({
                let was = old(self).card_status == CardStatus::Present;
                &&& (status == CardStatus::Present && !was && old(self).auto_poll) ==> (read_start(*old(self), res, final(
                    self).message@) && final(self).state == old(self).state)
                &&& (status == CardStatus::Present && !was && !old(self).auto_poll) ==> (res is Nothing && final(
                    self).state == ReadState::CardPresent && final(self).message@ == "检测到卡片，按 Enter 读取"@)
                &&& (status == CardStatus::Empty && was) ==> (res is Nothing && final(self).state == ReadState::Idle
                    && final(self).message@ == "卡片已取出"@)
                &&& ((status == CardStatus::Present && was) || (status == CardStatus::Empty && !was)) ==> (res is Nothing
                    && final(self).state == old(self).state && final(self).message == old(self).message)
            }),
            final(self).readers == old(self).readers,
            final(self).selected_reader == old(self).selected_reader,
            final(self).saved_cards == old(self).saved_cards,
            same_view(*old(self), *final(self)),
            same_modes(*old(self), *final(self)),
    {
        let was_present = self.card_status == CardStatus::Present;
        self.card_status = status;
        match status {
            CardStatus::Present => {
                if !was_present && self.auto_poll {
                    return self.begin_read();
                } else if !was_present {
                    self.state = ReadState::CardPresent;
                    self.message = to_owned_string("检测到卡片，按 Enter 读取");
                }
            },
            CardStatus::Empty => {
                if was_present {
                    self.state = ReadState::Idle;
                    self.message = to_owned_string("卡片已取出");
                }
            },
        }
        ReadRequest::Nothing
    }

    /// The start of a read (Enter or a new card with automatic reading): without a selected
    /// reader or without PC/SC it says so; otherwise it says that reading goes on and asks
    /// for the read.
    pub fn begin_read(&mut self) -> (res: ReadRequest)
        ensures
            read_start(*old(self), res, final(self).message@),
            same_reading(*old(self), *final(self)),
            same_view(*old(self), *final(self)),
            same_modes(*old(self), *final(self)),
    {
        let reader = match self.current_reader() {
            Some(r) => to_owned_string(r),
            None => {
                self.message = to_owned_string("无可用读卡器");
                return ReadRequest::Nothing;
            },
        };
        if self.init_error.is_some() {
            self.message = to_owned_string("PC/SC 不可用");
            return ReadRequest::Nothing;
        }
        self.message = to_owned_string("读取中…");
        ReadRequest::Card(reader)
    }

    /// Enter: open the selected saved card's history when the saved cards have the focus,
    /// else start a read (`begin_read`).
    pub fn on_enter(&mut self) -> (res: ReadRequest)
        ensures
            old(self).focus == Focus::Saved ==> res is Nothing,
            old(self).focus != Focus::Saved ==> read_start(*old(self), res, final(self).message@),
            final(self).focus == old(self).focus,
            final(self).saved_cards == old(self).saved_cards,
            same_modes(*old(self), *final(self)),
    {
        if self.focus == Focus::Saved {
            self.open_selected_saved();
            ReadRequest::Nothing
        } else {
            self.begin_read()
        }
    }

    /// The outcome of a read. A card read is decoded and shown (scrolled to the top, no
    /// history open); the result asks for saving when it holds a transit card and automatic
    /// saving is on, else the status line says whether there is something to save. No card
    /// returns to idle; another error is shown with its text.
    pub fn finish_read(&mut self, result: Result<RawCardData, Error>) -> (save: bool)
        ensures
            match result {
                Ok(data) => {
                    &&& final(self).raw == Some(data)
                    &&& final(self).parsed matches Some(p) && result_parsed(data, p) && ({
                        let has = transport_positions(p.cards@).len() > 0;
                        &&& save == (has && old(self).auto_save)
                        &&& !save ==> final(self).message@ == (if has {
                            "读取完成：按 s 保存交通卡记录"@
                        } else {
                            "读取完成"@
                        })
                    })
                    &&& final(self).state == ReadState::Done
                    &&& final(self).parsed_scroll == 0
                    &&& final(self).history_view is None
                },
                Err(Error::NoCard) => !save && final(self).state == ReadState::Idle && final(self).message@
                    == "读卡器上无卡片"@ && final(self).raw == old(self).raw && final(self).parsed == old(self).parsed,
                Err(e) => !save && final(self).state == ReadState::Error(final(self).state->Error_0) && final(
                    self).state->Error_0@ == error_text_spec(e) && final(self).message@ == "读取错误: "@
                    + error_text_spec(e) && final(self).raw == old(self).raw && final(self).parsed == old(self).parsed,
            },
            final(self).readers == old(self).readers,
            final(self).selected_reader == old(self).selected_reader,
            final(self).card_status == old(self).card_status,
            final(self).saved_cards == old(self).saved_cards,
            final(self).focus == old(self).focus,
            same_modes(*old(self), *final(self)),
    {
        match result {
            Ok(data) => {
                let parsed = parse(&data);
                let has_transit = transport_cards(&parsed).len() > 0;
                self.parsed = Some(parsed);
                self.raw = Some(data);
                self.state = ReadState::Done;
                self.parsed_scroll = 0;
                self.history_view = None;
                if has_transit && self.auto_save {
                    return true;
                }
                self.message = if has_transit {
                    to_owned_string("读取完成：按 s 保存交通卡记录")
                } else {
                    to_owned_string("读取完成")
                };
                false
            },
            Err(Error::NoCard) => {
                self.state = ReadState::Idle;
                self.message = to_owned_string("读卡器上无卡片");
                false
            },
            Err(e) => {
                let msg = e.text();
                self.message = concat2("读取错误: ", msg.as_str());
                self.state = ReadState::Error(msg);
                false
            },
        }
    }

    /// After automatic saving: a success message is prefixed with `读取完成：`; another
    /// message stays.
    pub fn after_auto_save(&mut self)
        ensures
            final(self).message@ == (if old(self).message@.len() >= 3 && old(self).message@.subrange(0, 3) == "已保存"@ {
                "读取完成："@ + old(self).message@
            } else {
                old(self).message@
            }),
            same_reading(*old(self), *final(self)),
            same_view(*old(self), *final(self)),
            same_modes(*old(self), *final(self)),
    {
        proof {
            reveal_strlit("已保存");
        }
        if starts_with(self.message.as_str(), "已保存") {
            self.message = concat2("读取完成：", self.message.as_str());
        }
    }

    /// Saves the transit cards of the last read into the saved cards (`save_all` from the
    /// current saved cards and selection), at `now`. Without a read, without a transit card
    /// or without anything new it says so; otherwise the result asks for the history file to
    /// be written.
    pub fn save_current_transit(&mut self, now: u64) -> (res: SaveOutcome)
        ensures
            match old(self).parsed {
                None => res == SaveOutcome::NoResult && final(self).message@ == "尚无可保存的读卡结果"@ && final(
                    self).saved_cards == old(self).saved_cards && final(self).selected_saved == old(self).selected_saved,
                Some(pr) => {
                    let p = save_all(
                        SaveProgress {
                            saved: cards_view(old(self).saved_cards@),
                            any_transit: false,
                            added: 0,
                            selected: old(self).selected_saved as int,
                        },
                        pr.cards@,
                        now,
                    );
                    &&& cards_view(final(self).saved_cards@) == p.saved
                    &&& final(self).selected_saved as int == p.selected
                    &&& !p.any_transit ==> res == SaveOutcome::NotTransit && final(self).message@
                        == "当前卡片不是可保存的交通卡"@
                    &&& (p.any_transit && p.added == 0) ==> res == SaveOutcome::NothingNew && final(self).message@
                        == "没有新的交易记录"@
                    &&& (p.any_transit && p.added > 0) ==> res == SaveOutcome::Write(capped(p.added as int)) && final(
                        self).message == old(self).message
                },
            },
            final(self).parsed == old(self).parsed,
            final(self).raw == old(self).raw,
            final(self).state == old(self).state,
            final(self).readers == old(self).readers,
            final(self).focus == old(self).focus,
            same_modes(*old(self), *final(self)),
    {
        let mut added: usize = 0;
        let mut any_transit = false;
        let ghost start = SaveProgress {
            saved: cards_view(self.saved_cards@),
            any_transit: false,
            added: 0,
            selected: self.selected_saved as int,
        };
        let mut saved: Vec<SavedCard> = Vec::new();
        std::mem::swap(&mut saved, &mut self.saved_cards);
        let mut selected = self.selected_saved;
        let outcome = match &self.parsed {
            None => {
                self.saved_cards = saved;
                self.message = to_owned_string("尚无可保存的读卡结果");
                return SaveOutcome::NoResult;
            },
            Some(pr) => {
                let ghost cards = pr.cards@;
                let mut i: usize = 0;
                while i < pr.cards.len()
                    invariant
                        i <= pr.cards@.len(),
                        cards == pr.cards@,
                        ({
                            let p = save_all(start, cards.subrange(0, i as int), now);
                            &&& cards_view(saved@) == p.saved
                            &&& any_transit == p.any_transit
                            &&& added == capped(p.added as int)
                            &&& selected as int == p.selected
                        }),
                    decreases pr.cards@.len() - i,
                {
                    let ghost sub = cards.subrange(0, i + 1);
                    assert(sub.drop_last() =~= cards.subrange(0, i as int));
                    assert(sub.last() == cards[i as int]);
                    let card = &pr.cards[i];
                    if is_transport(card) {
                        self.save_card(&mut saved, &mut added, &mut selected, card, now);
                        any_transit = true;
                    }
                    i = i + 1;
                }
                assert(cards.subrange(0, cards.len() as int) =~= cards);
                0usize
            },
        };
        self.saved_cards = saved;
        self.selected_saved = selected;
        if !any_transit {
            self.message = to_owned_string("当前卡片不是可保存的交通卡");
            return SaveOutcome::NotTransit;
        }
        if added == 0 {
            self.message = to_owned_string("没有新的交易记录");
            return SaveOutcome::NothingNew;
        }
        SaveOutcome::Write(added + outcome)
    }

    /// One transit card of `save_current_transit` (`save_one`).
    fn save_card(
        &self,
        saved: &mut Vec<SavedCard>,
        added: &mut usize,
        selected: &mut usize,
        card: &ParsedCard,
        now: u64,
    )
        requires
            is_transport_spec(*card),
        ensures
            ({
                let p = save_one(
                    SaveProgress {
                        saved: cards_view(old(saved)@),
                        any_transit: false,
                        added: 0,
                        selected: *old(selected) as int,
                    },
                    *card,
                    now,
                );
                &&& cards_view(final(saved)@) == p.saved
                &&& *final(added) == capped(*old(added) + p.added)
                &&& *final(selected) as int == p.selected
            }),
    {
        let mut snap = snapshot(card, now);
        proof {
            lemma_snapshot_view(*card, now, snap);
        }
        let ghost snap_v = card_view(snap);
        let ghost sv = cards_view(saved@);
        proof {
            lemma_key_pos(sv, snap.key@, 0);
        }
        assert(snapshot_view(*card, now).key == snap.key@);
        let found = find_key(saved, snap.key.as_str());
        assert(found matches Some(i) ==> key_pos(sv, snap.key@, 0) == Some(i as int));
        assert(found is None ==> key_pos(sv, snap.key@, 0) is None);
        match found {
            Some(idx) => {
                let mut existing = saved.remove(idx);
                let ghost ev = card_view(existing);
                assert(ev == sv[idx as int]);
                let SavedCard { key: _, name, number, currency, records: _ } = snap;
                existing.name = name;
                existing.number = number;
                existing.currency = currency;
                let ghost upd = card_view(existing);
                assert(upd == (CardView { name: snap_v.name, number: snap_v.number, currency: snap_v.currency, ..sv[idx as int] }));
                proof {
                    lemma_view_lines(existing);
                }
                let ghost before = existing;
                let n = append_new_transactions(&mut existing, card, now);
                proof {
                    if n > 0 {
                        lemma_appended_view(
                            before,
                            unseen_lines(transaction_lines_spec(*card), records_lines(before.records@)),
                            now,
                            existing,
                        );
                    }
                }
                let ghost new = unseen_lines(transaction_lines_spec(*card), view_lines(upd));
                assert(n == new.len());
                assert(card_view(existing) == (if new.len() == 0 {
                    upd
                } else {
                    appended_view(upd, new, now)
                }));
                saved.insert(idx, existing);
                assert(cards_view(saved@) =~= sv.update(idx as int, card_view(existing)));
                assert(key_pos(sv, snapshot_view(*card, now).key, 0) == Some(idx as int));
                *added = if *added > usize::MAX - n { usize::MAX } else { *added + n };
                *selected = idx;
            },
            None => {
                let count = if card.transactions.len() > 0 {
                    card.transactions.len()
                } else {
                    1
                };
                assert(key_pos(sv, snapshot_view(*card, now).key, 0) is None);
                saved.push(snap);
                assert(cards_view(saved@) =~= sv.push(snap_v));
                *selected = saved.len() - 1;
                *added = if *added > usize::MAX - count { usize::MAX } else { *added + count };
            },
        }
    }

    /// The outcome of writing the history file after `save_current_transit` asked for it.
    pub fn finish_save(&mut self, count: usize, result: Result<(), String>)
        ensures
            match result {
                Ok(()) => final(self).message@ == "已保存 "@ + dec_digits(count as nat) + " 条新记录"@,
                Err(e) => final(self).message@ == "保存失败: "@ + e@,
            },
            same_reading(*old(self), *final(self)),
            same_view(*old(self), *final(self)),
            same_modes(*old(self), *final(self)),
    {
        match result {
            Ok(()) => {
                let mut m = to_owned_string("已保存 ");
                push_decimal(&mut m, count as u64);
                push_str(&mut m, " 条新记录");
                self.message = m;
            },
            Err(e) => {
                self.message = concat2("保存失败: ", e.as_str());
            },
        }
    }

    /// The start of a travel-document read (Enter in the input): nothing without the input;
    /// an invalid key, a missing reader or PC/SC are said; otherwise it says that reading goes
    /// on and returns the reader and the key.
    pub fn begin_traveldoc_read(&mut self) -> (res: Option<(String, PassportKey)>)
        ensures
            old(self).traveldoc_input is None ==> res is None && final(self).message == old(self).message,
            old(self).traveldoc_input matches Some(i) ==> {
                let k = key_parts(i.doc_number@, i.dob@, i.doe@);
                match validate_spec(k.0, k.1, k.2) {
                    Err(m) => res is None && final(self).message@ == "MRZ 输入无效: "@ + m,
                    Ok(()) => if old(self).selected_reader >= old(self).readers@.len() {
                        res is None && final(self).message@ == "无可用读卡器"@
                    } else if old(self).init_error is Some {
                        res is None && final(self).message@ == "PC/SC 不可用"@
                    } else {
                        res matches Some((r, key)) && r@ == old(self).readers@[old(self).selected_reader as int]@
                            && key.doc_number@ == k.0 && key.date_of_birth@ == k.1 && key.date_of_expiry@ == k.2
                            && final(self).message@ == "读取旅行证件中…（约需数秒）"@
                    },
                }
            },
            same_reading(*old(self), *final(self)),
            same_view(*old(self), *final(self)),
            same_modes(*old(self), *final(self)),
    {
        let key = match &self.traveldoc_input {
            Some(input) => PassportKey::new(input.doc_number.as_str(), input.dob.as_str(), input.doe.as_str()),
            None => return None,
        };
        if let Err(e) = key.validate() {
            self.message = concat2("MRZ 输入无效: ", e.as_str());
            return None;
        }
        let reader = match self.current_reader() {
            Some(r) => to_owned_string(r),
            None => {
                self.message = to_owned_string("无可用读卡器");
                return None;
            },
        };
        if self.init_error.is_some() {
            self.message = to_owned_string("PC/SC 不可用");
            return None;
        }
        self.message = to_owned_string("读取旅行证件中…（约需数秒）");
        Some((reader, key))
    }

    /// The outcome of a travel-document read: the document decoded and shown, the input
    /// closed and the card marked present; or the failure shown with its text.
    pub fn finish_traveldoc_read(&mut self, result: Result<RawCardData, Error>)
        ensures
            match result {
                Ok(data) => {
                    &&& final(self).raw == Some(data)
                    &&& final(self).parsed matches Some(p) && result_parsed(data, p)
                    &&& final(self).state == ReadState::Done
                    &&& final(self).parsed_scroll == 0
                    &&& final(self).history_view is None
                    &&& final(self).traveldoc_input is None
                    &&& final(self).card_status == CardStatus::Present
                    &&& final(self).message@ == "旅行证件读取完成"@
                },
                Err(e) => {
                    &&& final(self).state == ReadState::Error(final(self).state->Error_0)
                    &&& final(self).state->Error_0@ == error_text_spec(e)
                    &&& final(self).message@ == "旅行证件读取失败: "@ + error_text_spec(e)
                    &&& final(self).raw == old(self).raw
                    &&& final(self).parsed == old(self).parsed
                    &&& final(self).traveldoc_input == old(self).traveldoc_input
                    &&& final(self).card_status == old(self).card_status
                },
            },
            final(self).readers == old(self).readers,
            final(self).selected_reader == old(self).selected_reader,
            final(self).saved_cards == old(self).saved_cards,
            final(self).focus == old(self).focus,
            final(self).auto_poll == old(self).auto_poll,
            final(self).auto_save == old(self).auto_save,
            final(self).traveldoc_field == old(self).traveldoc_field,
    {
        match result {
            Ok(data) => {
                let parsed = parse(&data);
                self.parsed = Some(parsed);
                self.raw = Some(data);
                self.state = ReadState::Done;
                self.parsed_scroll = 0;
                self.history_view = None;
                self.traveldoc_input = None;
                self.card_status = CardStatus::Present;
                self.message = to_owned_string("旅行证件读取完成");
            },
            Err(e) => {
                let msg = e.text();
                self.message = concat2("旅行证件读取失败: ", msg.as_str());
                self.state = ReadState::Error(msg);
            },
        }
    }
}

} // verus!
