//! Persistent settings: automatic reading and automatic saving, kept in a small text file of
//! `key=value` lines after a header line.
use vstd::prelude::*;
use crate::text::{
    lead_ws, lines, lines_spec, push_str, split_once_char, split_once_spec, str_eq, strings_view, strip_cr, trail_ws,
    trim, trim_spec, to_owned_string, split_spec, lemma_split_head, };

verus! {

/// The first line of a settings file.
pub open spec fn settings_header() -> Seq<char> {
    "tarot-tui-settings-v1"@
}

/// The settings of the program.
#[derive(Debug, Clone, Copy, PartialEq, Eq, Structural)]
pub struct Settings {
    /// Read a card as soon as it is put on the reader.
    pub auto_poll: bool,
    /// Save the transit records of every read.
    pub auto_save: bool,
}

impl Default for Settings {
    /// Automatic reading on, automatic saving off.
    fn default() -> (res: Self)
        ensures
            res.auto_poll,
            !res.auto_save,
    {
        Settings { auto_poll: true, auto_save: false }
    }
}

/// A setting's value: `true`, `1`, `yes`, `on` are on, `false`, `0`, `no`, `off` off (after
/// trimming whitespace); anything else keeps `default`.
pub open spec fn bool_word(value: Seq<char>, default: bool) -> bool {
    let t = trim_spec(value);
    if t == "true"@ || t == "1"@ || t == "yes"@ || t == "on"@ {
        true
    } else if t == "false"@ || t == "0"@ || t == "no"@ || t == "off"@ {
        false
    } else {
        default
    }
}

/// Reads a setting's value (`bool_word`).
pub fn parse_bool(value: &str, default: bool) -> (res: bool)
    ensures
        res == bool_word(value@, default),
{
    let t = trim(value);
    if str_eq(t, "true") || str_eq(t, "1") || str_eq(t, "yes") || str_eq(t, "on") {
        true
    } else if str_eq(t, "false") || str_eq(t, "0") || str_eq(t, "no") || str_eq(t, "off") {
        false
    } else {
        default
    }
}

/// The settings after one line of the file: the header, blank lines, lines without `=` and
/// unknown keys change nothing; `auto_poll=` and `auto_save=` set their setting (`bool_word`).
#[verifier::opaque]
pub open spec fn apply_line(s: Settings, line: Seq<char>) -> Settings {
    if line == settings_header() || trim_spec(line).len() == 0 {
        s
    } else {
        match split_once_spec(line, '=') {
            Some((key, value)) => if key == "auto_poll"@ {
                Settings { auto_poll: bool_word(value, s.auto_poll), ..s }
            } else if key == "auto_save"@ {
                Settings { auto_save: bool_word(value, s.auto_save), ..s }
            } else {
                s
            },
            None => s,
        }
    }
}

/// The settings that lines give, line after line, from the defaults.
pub open spec fn settings_from_lines(ls: Seq<Seq<char>>) -> Settings
    decreases ls.len(),
{
    if ls.len() == 0 {
        Settings { auto_poll: true, auto_save: false }
    } else {
        apply_line(settings_from_lines(ls.drop_last()), ls.last())
    }
}

/// Reads the text of a settings file (`settings_from_lines` of its lines).
pub fn parse_settings(text: &str) -> (res: Settings)
    ensures
        res == settings_from_lines(lines_spec(text@)),
{
    let ls = lines(text);
    let ghost lv = strings_view(ls@);
    let mut s = Settings::default();
    let mut i: usize = 0;
    while i < ls.len()
        invariant
            i <= ls@.len(),
            lv == strings_view(ls@),
            s == settings_from_lines(lv.subrange(0, i as int)),
        decreases ls@.len() - i,
    {
        let line = ls[i].as_str();
        assert(lv.subrange(0, i + 1).drop_last() =~= lv.subrange(0, i as int));
        assert(lv[i as int] == line@);
        proof {
            reveal(apply_line);
        }
        if !str_eq(line, "tarot-tui-settings-v1") && trim(line).unicode_len() > 0 {
            if let Some((key, value)) = split_once_char(line, '=') {
                if str_eq(key.as_str(), "auto_poll") {
                    s.auto_poll = parse_bool(value.as_str(), s.auto_poll);
                } else if str_eq(key.as_str(), "auto_save") {
                    s.auto_save = parse_bool(value.as_str(), s.auto_save);
                }
            }
        }
        i = i + 1;
    }
    assert(lv.subrange(0, ls@.len() as int) =~= lv);
    s
}

/// `true` or `false`.
pub open spec fn bool_text(b: bool) -> Seq<char> {
    if b {
        "true"@
    } else {
        "false"@
    }
}

/// The text of a settings file: the header, then `auto_poll=` and `auto_save=` lines.
pub open spec fn settings_text_spec(s: Settings) -> Seq<char> {
    settings_header().push('\n') + ("auto_poll="@ + bool_text(s.auto_poll)).push('\n') + (
    "auto_save="@ + bool_text(s.auto_save)).push('\n')
}

/// The text of a settings file (`settings_text_spec`).
pub fn settings_text(s: &Settings) -> (res: String)
    ensures
        res@ == settings_text_spec(*s),
{
    let mut out = to_owned_string("tarot-tui-settings-v1");
    push_str(&mut out, "\nauto_poll=");
    push_str(&mut out, if s.auto_poll { "true" } else { "false" });
    push_str(&mut out, "\nauto_save=");
    push_str(&mut out, if s.auto_save { "true" } else { "false" });
    push_str(&mut out, "\n");
    proof {
        reveal_strlit("tarot-tui-settings-v1");
        reveal_strlit("\nauto_poll=");
        reveal_strlit("\nauto_save=");
        reveal_strlit("auto_poll=");
        reveal_strlit("auto_save=");
        reveal_strlit("\n");
        reveal_strlit("true");
        reveal_strlit("false");
        assert(out@ =~= settings_text_spec(*s));
    }
    out
}

/// `true` and `false` read back as themselves, whatever the default.
proof fn lemma_bool_text(b: bool)
    ensures
        bool_word(bool_text(b), true) == b,
        bool_word(bool_text(b), false) == b,
{
    reveal_strlit("true");
    reveal_strlit("false");
    reveal_strlit("1");
    reveal_strlit("yes");
    reveal_strlit("on");
    reveal_strlit("0");
    reveal_strlit("no");
    reveal_strlit("off");
    let v = bool_text(b);
    assert(lead_ws(v) == 0);
    assert(v.subrange(0, v.len() as int) =~= v);
    assert(trail_ws(v) == 0);
    assert(trim_spec(v) =~= v);
}

/// A setting line `key=value` holds no line feed and no final carriage return.
proof fn lemma_setting_line_shape(key: Seq<char>, b: bool)
    requires
        key == "auto_poll"@ || key == "auto_save"@,
    ensures
        strip_cr(key + "="@ + bool_text(b)) == key + "="@ + bool_text(b),
        forall|i: int| 0 <= i < (key + "="@ + bool_text(b)).len() ==> (key + "="@ + bool_text(b))[i] != '\n',
{
    reveal_strlit("auto_poll");
    reveal_strlit("auto_save");
    reveal_strlit("=");
    reveal_strlit("true");
    reveal_strlit("false");
}

/// A setting line `key=value` splits at its `=`, and is neither blank nor the header.
proof fn lemma_setting_line(key: Seq<char>, b: bool)
    requires
        key == "auto_poll"@ || key == "auto_save"@,
    ensures
        split_once_spec(key + "="@ + bool_text(b), '=') == Some((key, bool_text(b))),
        trim_spec(key + "="@ + bool_text(b)).len() > 0,
        key + "="@ + bool_text(b) != settings_header(),
{
    reveal_strlit("auto_poll");
    reveal_strlit("auto_save");
    reveal_strlit("=");
    reveal_strlit("true");
    reveal_strlit("false");
    reveal_strlit("tarot-tui-settings-v1");
    let v = bool_text(b);
    let line = key + "="@ + v;
    assert(line[9] == '=');
    assert(forall|j: int| 0 <= j < 9 ==> line[j] != '=');
    let k = choose|k: int| 0 <= k < line.len() && line[k] == '=' && forall|j: int| 0 <= j < k ==> line[j] != '=';
    assert(k == 9);
    assert(line.subrange(0, 9) =~= key);
    assert(line.subrange(10, line.len() as int) =~= v);
    assert(lead_ws(line) == 0);
    assert(!crate::text::is_ws(line.last()));
    assert(trail_ws(line.subrange(0, line.len() as int)) == 0);
    assert(line.subrange(0, line.len() as int) =~= line);
    assert(line.len() != settings_header().len());
}

/// The lines of three lines, each ended by a line feed.
proof fn lemma_three_lines(h: Seq<char>, l1: Seq<char>, l2: Seq<char>)
    requires
        forall|i: int| 0 <= i < h.len() ==> h[i] != '\n',
        forall|i: int| 0 <= i < l1.len() ==> l1[i] != '\n',
        forall|i: int| 0 <= i < l2.len() ==> l2[i] != '\n',
        strip_cr(h) == h,
        strip_cr(l1) == l1,
        strip_cr(l2) == l2,
    ensures
        lines_spec(h.push('\n') + l1.push('\n') + l2.push('\n')) == seq![h, l1, l2],
{
    let e = Seq::<char>::empty();
    let text = h.push('\n') + l1.push('\n') + l2.push('\n');
    assert(text =~= h.push('\n') + (l1.push('\n') + (l2.push('\n') + e)));
    lemma_split_head(l2, '\n', e);
    lemma_split_head(l1, '\n', l2.push('\n') + e);
    lemma_split_head(h, '\n', l1.push('\n') + (l2.push('\n') + e));
    reveal(lines_spec);
    assert(split_spec(e, '\n') == seq![e]);
    let p = split_spec(text, '\n');
    assert(p =~= seq![h, l1, l2, e]);
    assert(lines_spec(text) =~= seq![h, l1, l2]);
}

/// The two setting keys differ.
proof fn lemma_keys_differ()
    ensures
        "auto_poll"@ != "auto_save"@,
        "auto_poll="@ == "auto_poll"@ + "="@,
        "auto_save="@ == "auto_save"@ + "="@,
{
    reveal_strlit("auto_poll");
    reveal_strlit("auto_save");
    reveal_strlit("auto_poll=");
    reveal_strlit("auto_save=");
    reveal_strlit("=");
    assert("auto_poll"@[5] != "auto_save"@[5]);
    assert("auto_poll="@ =~= "auto_poll"@ + "="@);
    assert("auto_save="@ =~= "auto_save"@ + "="@);
}

/// The header holds no line feed and no final carriage return.
proof fn lemma_header_line()
    ensures
        forall|i: int| 0 <= i < settings_header().len() ==> settings_header()[i] != '\n',
        strip_cr(settings_header()) == settings_header(),
{
    reveal_strlit("tarot-tui-settings-v1");
}

/// A setting line sets its setting.
proof fn lemma_apply_setting(st: Settings, key: Seq<char>, b: bool)
    requires
        key == "auto_poll"@ || key == "auto_save"@,
    ensures
        apply_line(st, key + "="@ + bool_text(b)) == (if key == "auto_poll"@ {
            Settings { auto_poll: b, ..st }
        } else {
            Settings { auto_save: b, ..st }
        }),
{
    reveal(apply_line);
    lemma_keys_differ();
    lemma_setting_line(key, b);
    lemma_bool_text(b);
}

/// The header line changes nothing.
proof fn lemma_apply_header(st: Settings)
    ensures
        apply_line(st, settings_header()) == st,
{
    reveal(apply_line);
}

/// The lines of the text of settings: the header and the two setting lines.
proof fn lemma_settings_lines(s: Settings)
    ensures
        lines_spec(settings_text_spec(s)) == seq![
            settings_header(),
            "auto_poll"@ + "="@ + bool_text(s.auto_poll),
            "auto_save"@ + "="@ + bool_text(s.auto_save),
        ],
{
    let h = settings_header();
    let l1 = "auto_poll"@ + "="@ + bool_text(s.auto_poll);
    let l2 = "auto_save"@ + "="@ + bool_text(s.auto_save);
    lemma_keys_differ();
    lemma_header_line();
    lemma_setting_line_shape("auto_poll"@, s.auto_poll);
    lemma_setting_line_shape("auto_save"@, s.auto_save);
    assert(settings_text_spec(s) =~= h.push('\n') + l1.push('\n') + l2.push('\n'));
    lemma_three_lines(h, l1, l2);
}

/// The header and the two setting lines give back the settings.
proof fn lemma_settings_fold(s: Settings)
    ensures
        settings_from_lines(
            seq![
                settings_header(),
                "auto_poll"@ + "="@ + bool_text(s.auto_poll),
                "auto_save"@ + "="@ + bool_text(s.auto_save),
            ],
        ) == s,
{
    let h = settings_header();
    let l1 = "auto_poll"@ + "="@ + bool_text(s.auto_poll);
    let l2 = "auto_save"@ + "="@ + bool_text(s.auto_save);
    let ls = seq![h, l1, l2];
    let d = Settings { auto_poll: true, auto_save: false };
    assert(ls.drop_last().drop_last().drop_last() =~= Seq::<Seq<char>>::empty());
    assert(ls.drop_last().drop_last() =~= seq![h]);
    lemma_apply_header(d);
    assert(settings_from_lines(Seq::<Seq<char>>::empty()) == d);
    assert(seq![h].drop_last() =~= Seq::<Seq<char>>::empty());
    assert(seq![h].last() == h);
    assert(settings_from_lines(seq![h]) == d);
    assert(ls.drop_last() =~= seq![h, l1]);
    lemma_apply_setting(d, "auto_poll"@, s.auto_poll);
    let s1 = Settings { auto_poll: s.auto_poll, ..d };
    assert(settings_from_lines(seq![h, l1]) == s1);
    lemma_keys_differ();
    lemma_apply_setting(s1, "auto_save"@, s.auto_save);
}

/// Reading back the text of settings gives the same settings.
pub proof fn law_settings_roundtrip(s: Settings)
    ensures
        settings_from_lines(lines_spec(settings_text_spec(s))) == s,
{
    lemma_settings_lines(s);
    lemma_settings_fold(s);
}

} // verus!
