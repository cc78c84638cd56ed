//! What the interactive program shows of a decoded read and of a saved card: lines of text
//! pieces, each with a tone that the terminal maps to a colour.
use vstd::prelude::*;
use crate::app::{App, ReadState, SettingsItem, TravelDocField, TravelDocInput};
use crate::reader::CardStatus;
use crate::history::{SavedCard, count_tx, display_spec, record_lines_view};
use crate::parse::model::{ParsedCard, ParsedResult, ProtocolSection, Transaction, pairs_view};
use crate::text::{char_from_digit, concat2, dec_digits, push_char, push_decimal, push_str, str_eq, strings_view, to_owned_string};

verus! {

/// How a piece of text is shown.
#[derive(Debug, Clone, Copy, PartialEq, Eq, Structural)]
pub enum Tone {
    /// A card's name.
    Heading,
    /// Secondary text.
    Muted,
    /// The label of a value.
    Label,
    /// A value.
    Value,
    /// Unstyled text.
    Plain,
    /// A warning or an error.
    Alert,
    /// A balance.
    Balance,
    /// A section title.
    Section,
    /// A credit.
    Gain,
    /// A debit.
    Loss,
    /// A zero amount.
    Even,
    /// The count of sub-cards of a combined chip.
    Banner,
    /// The program's name in the status bar.
    Title,
    /// The label of the input element being typed.
    Focused,
    /// The selected entry of a list.
    Selected,
    /// An entry of a list that is not selected.
    Unselected,
    /// A success, or a setting that is on.
    Good,
    /// A state that asks for attention, or the status message.
    Notice,
}

/// A piece of text and its tone.
#[derive(Debug, Clone)]
pub struct Piece {
    /// The text.
    pub text: String,
    /// The tone.
    pub tone: Tone,
}

/// One line shown: its pieces, in order.
#[derive(Debug, Clone)]
pub struct ShownLine {
    /// The pieces of the line.
    pub pieces: Vec<Piece>,
}

/// Pieces as texts and tones.
pub open spec fn pieces_view(ps: Seq<Piece>) -> Seq<(Seq<char>, Tone)> {
    Seq::new(ps.len(), |i: int| (ps[i].text@, ps[i].tone))
}

/// A line as texts and tones.
pub open spec fn line_view(l: ShownLine) -> Seq<(Seq<char>, Tone)> {
    pieces_view(l.pieces@)
}

/// Lines as texts and tones.
pub open spec fn lines_view(ls: Seq<ShownLine>) -> Seq<Seq<(Seq<char>, Tone)>> {
    Seq::new(ls.len(), |i: int| line_view(ls[i]))
}

/// An amount in hundredths with two decimals, a minus sign when negative (`{:.2}`).
pub open spec fn money_spec(v: int) -> Seq<char> {
    let m = if v < 0 { -v } else { v };
    (if v < 0 { "-"@ } else { Seq::empty() }) + dec_digits((m / 100) as nat) + "."@ + seq![
        (48 + (m % 100) / 10) as char,
        (48 + (m % 100) % 10) as char,
    ]
}

/// The text of an amount in hundredths (`money_spec`).
pub fn money(v: i64) -> (res: String)
    ensures
        res@ == money_spec(v as int),
{
    let m: u64 = if v < 0 { (0i128 - v as i128) as u64 } else { v as u64 };
    let mut s = if v < 0 { to_owned_string("-") } else { String::new() };
    push_decimal(&mut s, m / 100);
    push_str(&mut s, ".");
    let r = m % 100;
    push_char(&mut s, char_from_digit((r / 10) as u32));
    push_char(&mut s, char_from_digit((r % 10) as u32));
    proof {
        reveal_strlit("-");
        reveal_strlit(".");
    }
    assert(s@ =~= money_spec(v as int));
    s
}

fn piece(text: String, tone: Tone) -> (res: Piece)
    ensures
        res.text == text,
        res.tone == tone,
{
    Piece { text, tone }
}

fn line1(a: Piece) -> (res: ShownLine)
    ensures
        line_view(res) == seq![(a.text@, a.tone)],
{
    let mut v: Vec<Piece> = Vec::new();
    v.push(a);
    let res = ShownLine { pieces: v };
    assert(line_view(res) =~= seq![(a.text@, a.tone)]);
    res
}

fn line2(a: Piece, b: Piece) -> (res: ShownLine)
    ensures
        line_view(res) == seq![(a.text@, a.tone), (b.text@, b.tone)],
{
    let mut v: Vec<Piece> = Vec::new();
    v.push(a);
    v.push(b);
    let res = ShownLine { pieces: v };
    assert(line_view(res) =~= seq![(a.text@, a.tone), (b.text@, b.tone)]);
    res
}

/// A `  key: value` line.
pub open spec fn kv_spec(k: Seq<char>, v: Seq<char>) -> Seq<(Seq<char>, Tone)> {
    seq![("  "@ + k + ": "@, Tone::Label), (v, Tone::Value)]
}

fn empty_line() -> (res: ShownLine)
    ensures
        line_view(res) == Seq::<(Seq<char>, Tone)>::empty(),
{
    let res = ShownLine { pieces: Vec::new() };
    assert(line_view(res) =~= Seq::<(Seq<char>, Tone)>::empty());
    res
}

fn kv_line(k: &str, v: &str) -> (res: ShownLine)
    ensures
        line_view(res) == kv_spec(k@, v@),
{
    let mut label = to_owned_string("  ");
    push_str(&mut label, k);
    push_str(&mut label, ": ");
    line2(piece(label, Tone::Label), piece(to_owned_string(v), Tone::Value))
}

/// The field that is shown after the balance rather than among the fields.
pub open spec fn is_monthly_key(k: Seq<char>) -> bool {
    k == "广州优惠金额累计"@
}

/// The lines of fields, and the monthly total seen last (or `monthly` when none is there).
pub open spec fn field_lines_shown(
    fields: Seq<(Seq<char>, Seq<char>)>,
    monthly: Option<Seq<char>>,
) -> (Seq<Seq<(Seq<char>, Tone)>>, Option<Seq<char>>)
    decreases fields.len(),
{
    if fields.len() == 0 {
        (Seq::empty(), monthly)
    } else {
        let (ls, m) = field_lines_shown(fields.drop_last(), monthly);
        let (k, v) = fields.last();
        if is_monthly_key(k) {
            (ls, Some(v))
        } else {
            (ls.push(kv_spec(k, v)), m)
        }
    }
}

/// A `  ! note` line of a protocol.
pub open spec fn protocol_note_spec(n: Seq<char>) -> Seq<(Seq<char>, Tone)> {
    seq![("  ! "@ + n, Tone::Alert)]
}

/// What the lines shown so far carry along: the lines, the balance to show (currency and
/// amount), and the monthly total.
pub struct ShownState {
    /// The lines so far.
    pub lines: Seq<Seq<(Seq<char>, Tone)>>,
    /// The balance to show, with its currency.
    pub balance: Option<(Seq<char>, i64)>,
    /// The monthly total to show.
    pub monthly: Option<Seq<char>>,
}

/// The lines of one protocol: its number (but for T-Union), its fields and its notes; the
/// T-Union balance becomes the balance to show when there is none yet.
pub open spec fn protocol_shown(st: ShownState, p: ProtocolSection) -> ShownState {
    let head = protocol_head_shown(p);
    let balance = if p.name@ == "交通联合"@ && st.balance is None {
        match p.balance {
            Some(b) => Some((p.currency@, b)),
            None => st.balance,
        }
    } else {
        st.balance
    };
    let (fl, m) = field_lines_shown(pairs_view(p.fields@), st.monthly);
    let notes = strings_view(p.notes@);
    ShownState {
        lines: st.lines + head + fl + Seq::new(notes.len(), |i: int| protocol_note_spec(notes[i])),
        balance,
        monthly: m,
    }
}

/// The number line of a protocol: none for T-Union or without a number.
pub open spec fn protocol_head_shown(p: ProtocolSection) -> Seq<Seq<(Seq<char>, Tone)>> {
    if p.name@ != "交通联合"@ {
        match p.number {
            Some(n) => seq![kv_spec(p.name@ + "卡号"@, n@)],
            None => Seq::empty(),
        }
    } else {
        Seq::empty()
    }
}

/// The protocols shown in order.
pub open spec fn protocols_shown(st: ShownState, ps: Seq<ProtocolSection>) -> ShownState
    decreases ps.len(),
{
    if ps.len() == 0 {
        st
    } else {
        protocol_shown(protocols_shown(st, ps.drop_last()), ps.last())
    }
}

/// The kind of a transaction as shown: its trip kind and auxiliary type, else its kind.
pub open spec fn kind_shown(t: Transaction) -> Seq<char> {
    if t.trip_kind@.len() > 0 {
        t.trip_kind@ + " ["@ + t.aux@ + "] "@
    } else {
        t.kind@ + " "@
    }
}

/// The date and time of a transaction as shown.
pub open spec fn when_shown(t: Transaction) -> Seq<char> {
    if t.date@.len() == 0 && t.time@.len() == 0 {
        Seq::empty()
    } else if t.time@.len() == 0 {
        t.date@
    } else if t.date@.len() == 0 {
        t.time@
    } else {
        t.date@ + " "@ + t.time@
    }
}

/// The line of a transaction: the kind, the signed amount (debits in the loss tone, credits
/// with `+` in the gain tone), the balance after when known, the source when known, the date
/// and time.
pub open spec fn transaction_shown(t: Transaction, currency: Seq<char>) -> Seq<(Seq<char>, Tone)> {
    let sign = if t.amount > 0 { "+"@ } else { Seq::empty() };
    let tone = if t.amount < 0 {
        Tone::Loss
    } else if t.amount > 0 {
        Tone::Gain
    } else {
        Tone::Even
    };
    let head = seq![("    "@ + kind_shown(t), Tone::Plain), (sign + money_spec(t.amount as int) + currency + " "@, tone)];
    let bal = match t.balance_after {
        Some(b) => seq![("余"@ + money_spec(b as int) + currency + " "@, Tone::Gain)],
        None => Seq::empty(),
    };
    let src = if t.source@.len() > 0 {
        seq![("["@ + t.source@ + "] "@, Tone::Muted)]
    } else {
        Seq::empty()
    };
    head + bal + src + seq![(when_shown(t), Tone::Muted)]
}

/// The lines shown for a decoded card, `idx` being its position: its name and position, its
/// number, its fields (the monthly total kept aside), its protocols (`protocols_shown`), the
/// balance (its own, else the T-Union one), the monthly total, the transactions after a
/// `记录:` line, and its notes.
pub open spec fn card_shown(idx: int, card: ParsedCard) -> Seq<Seq<(Seq<char>, Tone)>> {
    let title = seq![("● "@ + card.name@, Tone::Heading), ("  (#"@ + dec_digits((idx + 1) as nat) + ")"@, Tone::Muted)];
    let number = match card.number {
        Some(n) => seq![kv_spec("卡号"@, n@)],
        None => Seq::empty(),
    };
    let (fl, m0) = field_lines_shown(card.field_pairs(), None);
    let st0 = ShownState {
        lines: seq![title] + number + fl,
        balance: match card.balance {
            Some(b) => Some((card.currency@, b)),
            None => None,
        },
        monthly: m0,
    };
    let st = protocols_shown(st0, card.protocols@);
    let balance = match st.balance {
        Some((c, b)) => seq![seq![("  余额: "@, Tone::Label), (c + money_spec(b as int), Tone::Balance)]],
        None => Seq::empty(),
    };
    let monthly = match st.monthly {
        Some(t) => seq![kv_spec("广州优惠金额累计"@, t)],
        None => Seq::empty(),
    };
    let ts = card.transactions@;
    let txs = if ts.len() > 0 {
        seq![seq![("  记录:"@, Tone::Section)]] + Seq::new(ts.len(), |i: int| transaction_shown(ts[i], card.currency@))
    } else {
        Seq::empty()
    };
    let notes = strings_view(card.notes@);
    st.lines + balance + monthly + txs + Seq::new(notes.len(), |i: int| seq![("  ⚠ "@ + notes[i], Tone::Alert)])
}

fn push_field_lines(out: &mut Vec<ShownLine>, monthly: &mut Option<String>, fields: &Vec<(String, String)>)
    ensures
        ({
            let (fl, m) = field_lines_shown(pairs_view(fields@), opt_view(*old(monthly)));
            &&& lines_view(final(out)@) == lines_view(old(out)@) + fl
            &&& m == opt_view(*final(monthly))
        }),
{
    let ghost start = lines_view(out@);
    let ghost m_start = opt_view(*monthly);
    let ghost fv = pairs_view(fields@);
    let mut i: usize = 0;
    assert(start + Seq::<Seq<(Seq<char>, Tone)>>::empty() =~= start);
    assert(fv.subrange(0, 0) =~= Seq::<(Seq<char>, Seq<char>)>::empty());
    while i < fields.len()
        invariant
            i <= fields@.len(),
            fv == pairs_view(fields@),
            ({
                let (fl, m) = field_lines_shown(fv.subrange(0, i as int), m_start);
                &&& lines_view(out@) == start + fl
                &&& m == opt_view(*monthly)
            }),
        decreases fields@.len() - i,
    {
        let ghost pre = fv.subrange(0, i + 1);
        assert(pre.drop_last() =~= fv.subrange(0, i as int));
        assert(pre.last() == (fields@[i as int].0@, fields@[i as int].1@));
        let (k, v) = &fields[i];
        if str_eq(k.as_str(), "广州优惠金额累计") {
            *monthly = Some(to_owned_string(v.as_str()));
        } else {
            let ghost before = lines_view(out@);
            let l = kv_line(k.as_str(), v.as_str());
            out.push(l);
            assert(lines_view(out@) =~= before.push(kv_spec(k@, v@)));
        }
        i = i + 1;
    }
    assert(fv.subrange(0, fields@.len() as int) =~= fv);
}

fn push_protocol(
    out: &mut Vec<ShownLine>,
    balance: &mut Option<(String, i64)>,
    monthly: &mut Option<String>,
    p: &ProtocolSection,
)
    ensures
        ({
            let st = protocol_shown(
                ShownState {
                    lines: lines_view(old(out)@),
                    balance: bal_view(*old(balance)),
                    monthly: opt_view(*old(monthly)),
                },
                *p,
            );
            &&& lines_view(final(out)@) == st.lines
            &&& bal_view(*final(balance)) == st.balance
            &&& opt_view(*final(monthly)) == st.monthly
        }),
{
    let ghost start = lines_view(out@);
    let is_tunion = str_eq(p.name.as_str(), "交通联合");
    if !is_tunion {
        if let Some(n) = &p.number {
            let label = concat2(p.name.as_str(), "卡号");
            out.push(kv_line(label.as_str(), n.as_str()));
        }
    }
    assert(lines_view(out@) =~= start + protocol_head_shown(*p));
    if is_tunion && balance.is_none() {
        if let Some(b) = p.balance {
            *balance = Some((to_owned_string(p.currency.as_str()), b));
        }
    }
    let ghost mid = lines_view(out@);
    push_field_lines(out, monthly, &p.fields);
    let ghost after_fields = lines_view(out@);
    let mut j: usize = 0;
    let ghost notes = strings_view(p.notes@);
    let ghost n0 = out@.len();
    while j < p.notes.len()
        invariant
            j <= p.notes@.len(),
            notes == strings_view(p.notes@),
            n0 == after_fields.len(),
            out@.len() == n0 + j,
            forall|q: int| 0 <= q < n0 ==> line_view(#[trigger] out@[q]) == after_fields[q],
            forall|q: int| n0 <= q < n0 + j ==> line_view(#[trigger] out@[q]) == protocol_note_spec(notes[q - n0]),
        decreases p.notes@.len() - j,
    {
        let text = concat2("  ! ", p.notes[j].as_str());
        out.push(line1(piece(text, Tone::Alert)));
        j = j + 1;
    }
    assert(lines_view(out@) =~= after_fields + Seq::new(notes.len(), |i: int| protocol_note_spec(notes[i])));
}

/// A balance and its currency as texts.
pub open spec fn bal_view(b: Option<(String, i64)>) -> Option<(Seq<char>, i64)> {
    match b {
        Some((c, v)) => Some((c@, v)),
        None => None,
    }
}

/// An optional text as a text.
pub open spec fn opt_view(o: Option<String>) -> Option<Seq<char>> {
    match o {
        Some(s) => Some(s@),
        None => None,
    }
}

fn transaction_line(t: &Transaction, currency: &str) -> (res: ShownLine)
    ensures
        line_view(res) == transaction_shown(*t, currency@),
{
    proof {
        reveal_strlit("    ");
        reveal_strlit(" [");
        reveal_strlit("] ");
        reveal_strlit(" ");
        reveal_strlit("+");
        reveal_strlit("余");
        reveal_strlit("[");
    }
    let mut pieces: Vec<Piece> = Vec::new();
    let mut kind = to_owned_string("    ");
    if t.trip_kind.unicode_len() > 0 {
        push_str(&mut kind, t.trip_kind.as_str());
        push_str(&mut kind, " [");
        push_str(&mut kind, t.aux.as_str());
        push_str(&mut kind, "] ");
    } else {
        push_str(&mut kind, t.kind.as_str());
        push_str(&mut kind, " ");
    }
    assert(kind@ =~= "    "@ + kind_shown(*t));
    pieces.push(piece(kind, Tone::Plain));
    let mut amount = if t.amount > 0 { to_owned_string("+") } else { String::new() };
    let m = money(t.amount);
    push_str(&mut amount, m.as_str());
    push_str(&mut amount, currency);
    push_str(&mut amount, " ");
    let tone = if t.amount < 0 {
        Tone::Loss
    } else if t.amount > 0 {
        Tone::Gain
    } else {
        Tone::Even
    };
    let ghost sign = if t.amount > 0 { "+"@ } else { Seq::<char>::empty() };
    assert(amount@ =~= sign + money_spec(t.amount as int) + currency@ + " "@);
    pieces.push(piece(amount, tone));
    let ghost head = seq![("    "@ + kind_shown(*t), Tone::Plain), (sign + money_spec(t.amount as int) + currency@ + " "@, tone)];
    assert(pieces_view(pieces@) =~= head);
    if let Some(b) = t.balance_after {
        let mut s = to_owned_string("余");
        let mb = money(b);
        push_str(&mut s, mb.as_str());
        push_str(&mut s, currency);
        push_str(&mut s, " ");
        let ghost before = pieces_view(pieces@);
        pieces.push(piece(s, Tone::Gain));
        assert(pieces_view(pieces@) =~= before.push((s@, Tone::Gain)));
    }
    let ghost bal = match t.balance_after {
        Some(b) => seq![("余"@ + money_spec(b as int) + currency@ + " "@, Tone::Gain)],
        None => Seq::<(Seq<char>, Tone)>::empty(),
    };
    assert(pieces_view(pieces@) =~= head + bal);
    if t.source.unicode_len() > 0 {
        let mut s = to_owned_string("[");
        push_str(&mut s, t.source.as_str());
        push_str(&mut s, "] ");
        let ghost before = pieces_view(pieces@);
        pieces.push(piece(s, Tone::Muted));
        assert(pieces_view(pieces@) =~= before.push((s@, Tone::Muted)));
    }
    let ghost src = if t.source@.len() > 0 {
        seq![("["@ + t.source@ + "] "@, Tone::Muted)]
    } else {
        Seq::<(Seq<char>, Tone)>::empty()
    };
    assert(pieces_view(pieces@) =~= head + bal + src);
    let dl = t.date.unicode_len();
    let tl = t.time.unicode_len();
    let when = if dl == 0 && tl == 0 {
        String::new()
    } else if tl == 0 {
        to_owned_string(t.date.as_str())
    } else if dl == 0 {
        to_owned_string(t.time.as_str())
    } else {
        let mut s = to_owned_string(t.date.as_str());
        push_str(&mut s, " ");
        push_str(&mut s, t.time.as_str());
        s
    };
    assert(when@ =~= when_shown(*t));
    let ghost before = pieces_view(pieces@);
    pieces.push(piece(when, Tone::Muted));
    assert(pieces_view(pieces@) =~= before.push((when@, Tone::Muted)));
    let res = ShownLine { pieces };
    assert(line_view(res) =~= transaction_shown(*t, currency@));
    res
}

/// The lines shown for a decoded card at position `idx` (`card_shown`).
pub fn card_lines(idx: usize, card: &ParsedCard) -> (res: Vec<ShownLine>)
    requires
        idx < usize::MAX,
    ensures
        lines_view(res@) == card_shown(idx as int, *card),
{
    let mut out: Vec<ShownLine> = Vec::new();
    let mut name = to_owned_string("● ");
    push_str(&mut name, card.name.as_str());
    let mut pos = to_owned_string("  (#");
    push_decimal(&mut pos, (idx + 1) as u64);
    push_str(&mut pos, ")");
    proof {
        reveal_strlit("● ");
        reveal_strlit("  (#");
        reveal_strlit(")");
    }
    let ghost title = seq![("● "@ + card.name@, Tone::Heading), ("  (#"@ + dec_digits((idx + 1) as nat) + ")"@, Tone::Muted)];
    assert(name@ =~= "● "@ + card.name@);
    assert(pos@ =~= "  (#"@ + dec_digits((idx + 1) as nat) + ")"@);
    out.push(line2(piece(name, Tone::Heading), piece(pos, Tone::Muted)));
    assert(lines_view(out@) =~= seq![title]);
    if let Some(n) = &card.number {
        out.push(kv_line("卡号", n.as_str()));
    }
    let ghost number = match opt_view(card.number) {
        Some(n) => seq![kv_spec("卡号"@, n)],
        None => Seq::<Seq<(Seq<char>, Tone)>>::empty(),
    };
    assert(lines_view(out@) =~= seq![title] + number);
    let mut balance: Option<(String, i64)> = match card.balance {
        Some(b) => Some((to_owned_string(card.currency.as_str()), b)),
        None => None,
    };
    let mut monthly: Option<String> = None;
    push_field_lines(&mut out, &mut monthly, &card.fields);
    let ghost st0 = ShownState { lines: lines_view(out@), balance: bal_view(balance), monthly: opt_view(monthly) };
    let mut i: usize = 0;
    assert(card.protocols@.subrange(0, 0) =~= Seq::<ProtocolSection>::empty());
    while i < card.protocols.len()
        invariant
            i <= card.protocols@.len(),
            ({
                let st = protocols_shown(st0, card.protocols@.subrange(0, i as int));
                &&& lines_view(out@) == st.lines
                &&& bal_view(balance) == st.balance
                &&& opt_view(monthly) == st.monthly
            }),
        decreases card.protocols@.len() - i,
    {
        let ghost pre = card.protocols@.subrange(0, i + 1);
        assert(pre.drop_last() =~= card.protocols@.subrange(0, i as int));
        assert(pre.last() == card.protocols@[i as int]);
        push_protocol(&mut out, &mut balance, &mut monthly, &card.protocols[i]);
        i = i + 1;
    }
    assert(card.protocols@.subrange(0, card.protocols@.len() as int) =~= card.protocols@);
    let ghost after_protocols = lines_view(out@);
    if let Some((c, b)) = &balance {
        let mut text = to_owned_string(c.as_str());
        let m = money(*b);
        push_str(&mut text, m.as_str());
        out.push(line2(piece(to_owned_string("  余额: "), Tone::Label), piece(text, Tone::Balance)));
        assert(lines_view(out@) =~= after_protocols.push(seq![("  余额: "@, Tone::Label), (c@ + money_spec(*b as int), Tone::Balance)]));
    }
    let ghost balance_lines = match bal_view(balance) {
        Some((c, b)) => seq![seq![("  余额: "@, Tone::Label), (c + money_spec(b as int), Tone::Balance)]],
        None => Seq::<Seq<(Seq<char>, Tone)>>::empty(),
    };
    assert(lines_view(out@) =~= after_protocols + balance_lines);
    let ghost after_balance = lines_view(out@);
    if let Some(t) = &monthly {
        out.push(kv_line("广州优惠金额累计", t.as_str()));
        assert(lines_view(out@) =~= after_balance.push(kv_spec("广州优惠金额累计"@, t@)));
    }
    let ghost monthly_lines = match opt_view(monthly) {
        Some(t) => seq![kv_spec("广州优惠金额累计"@, t)],
        None => Seq::<Seq<(Seq<char>, Tone)>>::empty(),
    };
    assert(lines_view(out@) =~= after_balance + monthly_lines);
    let ghost before_txs = lines_view(out@);
    if card.transactions.len() > 0 {
        out.push(line1(piece(to_owned_string("  记录:"), Tone::Section)));
        let ghost n0 = out@.len();
        let ghost head = lines_view(out@);
        let mut j: usize = 0;
        while j < card.transactions.len()
            invariant
                j <= card.transactions@.len(),
                n0 == head.len(),
                out@.len() == n0 + j,
                forall|q: int| 0 <= q < n0 ==> line_view(#[trigger] out@[q]) == head[q],
                forall|q: int| n0 <= q < n0 + j ==> line_view(#[trigger] out@[q]) == transaction_shown(
                    card.transactions@[q - n0],
                    card.currency@,
                ),
            decreases card.transactions@.len() - j,
        {
            out.push(transaction_line(&card.transactions[j], card.currency.as_str()));
            j = j + 1;
        }
        let ghost ts = card.transactions@;
        assert(lines_view(out@) =~= before_txs + (seq![seq![("  记录:"@, Tone::Section)]] + Seq::new(
            ts.len(),
            |k: int| transaction_shown(ts[k], card.currency@),
        )));
    }
    let ghost tx_lines = if card.transactions@.len() > 0 {
        seq![seq![("  记录:"@, Tone::Section)]] + Seq::new(
            card.transactions@.len(),
            |k: int| transaction_shown(card.transactions@[k], card.currency@),
        )
    } else {
        Seq::<Seq<(Seq<char>, Tone)>>::empty()
    };
    assert(lines_view(out@) =~= before_txs + tx_lines);
    let ghost before_notes = lines_view(out@);
    let ghost n1 = out@.len();
    let mut k: usize = 0;
    let ghost notes = strings_view(card.notes@);
    while k < card.notes.len()
        invariant
            k <= card.notes@.len(),
            notes == strings_view(card.notes@),
            n1 == before_notes.len(),
            out@.len() == n1 + k,
            forall|q: int| 0 <= q < n1 ==> line_view(#[trigger] out@[q]) == before_notes[q],
            forall|q: int| n1 <= q < n1 + k ==> line_view(#[trigger] out@[q]) == seq![("  ⚠ "@ + notes[q - n1], Tone::Alert)],
        decreases card.notes@.len() - k,
    {
        let text = concat2("  ⚠ ", card.notes[k].as_str());
        out.push(line1(piece(text, Tone::Alert)));
        k = k + 1;
    }
    assert(lines_view(out@) =~= before_notes + Seq::new(notes.len(), |q: int| seq![("  ⚠ "@ + notes[q], Tone::Alert)]));
    assert(lines_view(out@) =~= card_shown(idx as int, *card));
    out
}

/// The lines of the first `k` cards of a read, each followed by an empty line.
pub open spec fn cards_shown(cards: Seq<ParsedCard>, k: int) -> Seq<Seq<(Seq<char>, Tone)>>
    decreases k,
{
    if k <= 0 {
        Seq::empty()
    } else {
        cards_shown(cards, k - 1) + card_shown(k - 1, cards[k - 1]) + seq![Seq::<(Seq<char>, Tone)>::empty()]
    }
}

/// The lines shown for the decoded read: a hint when there is none; otherwise the number of
/// sub-cards (and an empty line) when there are several, each card (`card_shown`) followed by
/// an empty line, and the ATR.
pub open spec fn parsed_shown(parsed: Option<ParsedResult>) -> Seq<Seq<(Seq<char>, Tone)>> {
    match parsed {
        None => seq![seq![("尚无数据，放卡或按 Enter 读取。"@, Tone::Muted)]],
        Some(r) => {
            let n = r.cards@.len();
            let banner = if n > 1 {
                seq![seq![("叠加卡："@ + dec_digits(n) + " 张子卡"@, Tone::Banner)], Seq::<(Seq<char>, Tone)>::empty()]
            } else {
                Seq::empty()
            };
            banner + cards_shown(r.cards@, n as int) + seq![seq![("ATR: "@ + r.atr@, Tone::Muted)]]
        },
    }
}

fn push_lines(out: &mut Vec<ShownLine>, more: Vec<ShownLine>)
    ensures
        lines_view(final(out)@) == lines_view(old(out)@) + lines_view(more@),
{
    let ghost start = lines_view(out@);
    let ghost mv = lines_view(more@);
    let n0 = out.len();
    let m = more.len();
    let mut rest = more;
    let ghost total = rest@;
    let mut i: usize = 0;
    while rest.len() > 0
        invariant
            total.len() == m,
            n0 == start.len(),
            mv == lines_view(total),
            i + rest@.len() == total.len(),
            rest@ == total.subrange(i as int, total.len() as int),
            out@.len() == n0 + i,
            forall|q: int| 0 <= q < n0 ==> line_view(#[trigger] out@[q]) == start[q],
            forall|q: int| n0 <= q < n0 + i ==> line_view(#[trigger] out@[q]) == mv[q - n0],
        decreases rest@.len(),
    {
        let l = rest.remove(0);
        out.push(l);
        i = i + 1;
        assert(rest@ =~= total.subrange(i as int, total.len() as int));
    }
    assert(lines_view(out@) =~= start + mv);
}

/// The lines shown for the decoded read (`parsed_shown`).
pub fn parsed_lines(parsed: &Option<ParsedResult>) -> (res: Vec<ShownLine>)
    ensures
        lines_view(res@) == parsed_shown(*parsed),
{
    let mut out: Vec<ShownLine> = Vec::new();
    match parsed {
        None => {
            out.push(line1(piece(to_owned_string("尚无数据，放卡或按 Enter 读取。"), Tone::Muted)));
            assert(lines_view(out@) =~= parsed_shown(*parsed));
        },
        Some(r) => {
            let n = r.cards.len();
            if n > 1 {
                let mut text = to_owned_string("叠加卡：");
                push_decimal(&mut text, n as u64);
                push_str(&mut text, " 张子卡");
                assert(text@ =~= "叠加卡："@ + dec_digits(n as nat) + " 张子卡"@);
                out.push(line1(piece(text, Tone::Banner)));
                out.push(empty_line());
            }
            let ghost banner = lines_view(out@);
            assert(banner =~= (if n > 1 {
                seq![seq![("叠加卡："@ + dec_digits(n as nat) + " 张子卡"@, Tone::Banner)], Seq::<(Seq<char>, Tone)>::empty()]
            } else {
                Seq::<Seq<(Seq<char>, Tone)>>::empty()
            }));
            let mut i: usize = 0;
            while i < n
                invariant
                    n == r.cards@.len(),
                    i <= n,
                    lines_view(out@) == banner + cards_shown(r.cards@, i as int),
                decreases n - i,
            {
                let ls = card_lines(i, &r.cards[i]);
                push_lines(&mut out, ls);
                let ghost before = lines_view(out@);
                out.push(empty_line());
                assert(lines_view(out@) =~= before.push(Seq::<(Seq<char>, Tone)>::empty()));
                i = i + 1;
                assert(lines_view(out@) =~= banner + cards_shown(r.cards@, i as int));
            }
            let ghost before = lines_view(out@);
            out.push(line1(piece(concat2("ATR: ", r.atr.as_str()), Tone::Muted)));
            assert(lines_view(out@) =~= before.push(seq![("ATR: "@ + r.atr@, Tone::Muted)]));
            assert(lines_view(out@) =~= parsed_shown(*parsed));
        },
    }
    out
}

/// The number of transaction lines of the records.
pub open spec fn records_tx(rs: Seq<crate::history::SavedRecord>) -> nat
    decreases rs.len(),
{
    if rs.len() == 0 {
        0
    } else {
        records_tx(rs.drop_last()) + count_tx(record_lines_view(rs.last()))
    }
}

/// The lines of the records shown, in order: a `记录` line with the title and timestamp, the
/// record's lines indented, and an empty line.
pub open spec fn records_shown(rs: Seq<crate::history::SavedRecord>) -> Seq<Seq<(Seq<char>, Tone)>>
    decreases rs.len(),
{
    if rs.len() == 0 {
        Seq::empty()
    } else {
        let r = rs.last();
        let ls = record_lines_view(r);
        records_shown(rs.drop_last()) + seq![
            seq![("记录 "@, Tone::Section), (r.title@ + "  @"@ + dec_digits(r.timestamp as nat), Tone::Muted)],
        ] + Seq::new(ls.len(), |i: int| seq![("  "@ + ls[i], Tone::Plain)]) + seq![Seq::<(Seq<char>, Tone)>::empty()]
    }
}

/// The lines shown for a saved card: its name, the number of transaction lines of its records
/// (held at the largest `usize`), an empty line, then its records (`records_shown`).
pub open spec fn history_shown(card: SavedCard) -> Seq<Seq<(Seq<char>, Tone)>> {
    let total = records_tx(card.records@);
    let shown = if total > usize::MAX { usize::MAX as nat } else { total };
    seq![
        seq![(display_spec(card.name@, card.number@), Tone::Heading)],
        seq![("共 "@ + dec_digits(shown) + " 条记录"@, Tone::Plain)],
        Seq::<(Seq<char>, Tone)>::empty(),
    ] + records_shown(card.records@)
}

fn push_record(out: &mut Vec<ShownLine>, r: &crate::history::SavedRecord)
    ensures
        lines_view(final(out)@) == lines_view(old(out)@) + seq![
            seq![("记录 "@, Tone::Section), (r.title@ + "  @"@ + dec_digits(r.timestamp as nat), Tone::Muted)],
        ] + Seq::new(record_lines_view(*r).len(), |i: int| seq![("  "@ + record_lines_view(*r)[i], Tone::Plain)])
            + seq![Seq::<(Seq<char>, Tone)>::empty()],
{
    let ghost start = lines_view(out@);
    let mut head = to_owned_string(r.title.as_str());
    push_str(&mut head, "  @");
    push_decimal(&mut head, r.timestamp);
    out.push(line2(piece(to_owned_string("记录 "), Tone::Section), piece(head, Tone::Muted)));
    let ghost first = lines_view(out@);
    let ghost ls = record_lines_view(*r);
    let n0 = out.len();
    let mut i: usize = 0;
    while i < r.lines.len()
        invariant
            i <= r.lines@.len(),
            ls == record_lines_view(*r),
            n0 == first.len(),
            out@.len() == n0 + i,
            forall|q: int| 0 <= q < n0 ==> line_view(#[trigger] out@[q]) == first[q],
            forall|q: int| n0 <= q < n0 + i ==> line_view(#[trigger] out@[q]) == seq![("  "@ + ls[q - n0], Tone::Plain)],
        decreases r.lines@.len() - i,
    {
        let text = concat2("  ", r.lines[i].as_str());
        out.push(line1(piece(text, Tone::Plain)));
        i = i + 1;
    }
    let ghost before = lines_view(out@);
    out.push(empty_line());
    assert(lines_view(out@) =~= before.push(Seq::<(Seq<char>, Tone)>::empty()));
    assert(lines_view(out@) =~= start + seq![
        seq![("记录 "@, Tone::Section), (r.title@ + "  @"@ + dec_digits(r.timestamp as nat), Tone::Muted)],
    ] + Seq::new(ls.len(), |i: int| seq![("  "@ + ls[i], Tone::Plain)]) + seq![Seq::<(Seq<char>, Tone)>::empty()]);
}

/// The lines shown for a saved card (`history_shown`).
pub fn history_lines(card: &SavedCard) -> (res: Vec<ShownLine>)
    ensures
        lines_view(res@) == history_shown(*card),
{
    let mut total: usize = 0;
    let mut i: usize = 0;
    while i < card.records.len()
        invariant
            i <= card.records@.len(),
            total == (if records_tx(card.records@.subrange(0, i as int)) > usize::MAX {
                usize::MAX as nat
            } else {
                records_tx(card.records@.subrange(0, i as int))
            }),
        decreases card.records@.len() - i,
    {
        let ghost pre = card.records@.subrange(0, i + 1);
        assert(pre.drop_last() =~= card.records@.subrange(0, i as int));
        assert(pre.last() == card.records@[i as int]);
        let c = crate::history::transaction_line_count(&card.records[i]);
        total = if total > usize::MAX - c { usize::MAX } else { total + c };
        i = i + 1;
    }
    assert(card.records@.subrange(0, card.records@.len() as int) =~= card.records@);
    let mut out: Vec<ShownLine> = Vec::new();
    out.push(line1(piece(card.display_name(), Tone::Heading)));
    let mut count = to_owned_string("共 ");
    push_decimal(&mut count, total as u64);
    push_str(&mut count, " 条记录");
    assert(count@ =~= "共 "@ + dec_digits(total as nat) + " 条记录"@);
    out.push(line1(piece(count, Tone::Plain)));
    out.push(empty_line());
    let ghost head = lines_view(out@);
    let mut j: usize = 0;
    assert(records_shown(card.records@.subrange(0, 0)) == Seq::<Seq<(Seq<char>, Tone)>>::empty());
    assert(head + Seq::<Seq<(Seq<char>, Tone)>>::empty() =~= head);
    while j < card.records.len()
        invariant
            j <= card.records@.len(),
            lines_view(out@) == head + records_shown(card.records@.subrange(0, j as int)),
        decreases card.records@.len() - j,
    {
        let ghost pre = card.records@.subrange(0, j + 1);
        assert(pre.drop_last() =~= card.records@.subrange(0, j as int));
        assert(pre.last() == card.records@[j as int]);
        push_record(&mut out, &card.records[j]);
        j = j + 1;
        assert(lines_view(out@) =~= head + records_shown(card.records@.subrange(0, j as int)));
    }
    assert(card.records@.subrange(0, card.records@.len() as int) =~= card.records@);
    assert(lines_view(out@) =~= history_shown(*card));
    out
}


/// The text of a read state in the status bar.
pub open spec fn state_text(s: ReadState) -> Seq<char> {
    match s {
        ReadState::Idle => "空闲"@,
        ReadState::CardPresent => "卡片在位"@,
        ReadState::Done => "读取完成"@,
        ReadState::Error(_) => "错误"@,
    }
}

/// The tone of a read state in the status bar.
pub open spec fn state_tone(s: ReadState) -> Tone {
    match s {
        ReadState::Idle => Tone::Label,
        ReadState::CardPresent => Tone::Notice,
        ReadState::Done => Tone::Good,
        ReadState::Error(_) => Tone::Alert,
    }
}

/// The status bar: the program's name, the card type of the last read (`—` without one),
/// the read state, both automatic settings and the status message.
pub open spec fn status_shown(app: App) -> Seq<(Seq<char>, Tone)> {
    let card_type = match app.parsed {
        Some(p) => p.card_type@,
        None => "—"@,
    };
    let auto = if app.auto_poll { "读卡:开"@ } else { "读卡:关"@ };
    let save = if app.auto_save { "保存:开"@ } else { "保存:关"@ };
    seq![
        (" tarot TUI "@, Tone::Title),
        ("  卡类型: "@ + card_type + "  "@, Tone::Plain),
        ("["@ + state_text(app.state) + "]"@, state_tone(app.state)),
        ("  "@ + auto + "  "@ + save + "  "@, Tone::Plain),
        ("| "@ + app.message@, Tone::Notice),
    ]
}

/// The status bar of the program (`status_shown`).
pub fn status_line(app: &App) -> (res: ShownLine)
    ensures
        line_view(res) == status_shown(*app),
{
    let mut kind = to_owned_string("  卡类型: ");
    match &app.parsed {
        Some(p) => push_str(&mut kind, p.card_type.as_str()),
        None => push_str(&mut kind, "—"),
    }
    push_str(&mut kind, "  ");
    let (text, tone) = match &app.state {
        ReadState::Idle => ("空闲", Tone::Label),
        ReadState::CardPresent => ("卡片在位", Tone::Notice),
        ReadState::Done => ("读取完成", Tone::Good),
        ReadState::Error(_) => ("错误", Tone::Alert),
    };
    let mut state = to_owned_string("[");
    push_str(&mut state, text);
    push_str(&mut state, "]");
    let mut autos = to_owned_string("  ");
    push_str(&mut autos, if app.auto_poll { "读卡:开" } else { "读卡:关" });
    push_str(&mut autos, "  ");
    push_str(&mut autos, if app.auto_save { "保存:开" } else { "保存:关" });
    push_str(&mut autos, "  ");
    let mut message = to_owned_string("| ");
    push_str(&mut message, app.message.as_str());
    let mut pieces: Vec<Piece> = Vec::new();
    pieces.push(piece(to_owned_string(" tarot TUI "), Tone::Title));
    pieces.push(piece(kind, Tone::Plain));
    pieces.push(piece(state, tone));
    pieces.push(piece(autos, Tone::Plain));
    pieces.push(piece(message, Tone::Notice));
    let res = ShownLine { pieces };
    assert(line_view(res) =~= status_shown(*app));
    res
}

/// The list entry of reader `i`: a marker and, for the selected reader, the card status.
pub open spec fn reader_shown(app: App, i: int) -> Seq<(Seq<char>, Tone)> {
    let selected = i == app.selected_reader;
    let marker = if selected { "▶ "@ } else { "  "@ };
    let card = if selected {
        match app.card_status {
            CardStatus::Present => " [卡片在位]"@,
            CardStatus::Empty => " [空]"@,
        }
    } else {
        Seq::empty()
    };
    seq![(marker + app.readers@[i]@ + card, if selected { Tone::Selected } else { Tone::Unselected })]
}

/// The reader area: the PC/SC failure when there was one, else a hint when no reader is
/// there, else one entry per reader (`reader_shown`).
pub open spec fn readers_shown(app: App) -> Seq<Seq<(Seq<char>, Tone)>> {
    match app.init_error {
        Some(e) => seq![seq![("PC/SC 不可用: "@ + e@, Tone::Alert)]],
        None => if app.readers@.len() == 0 {
            seq![seq![("未检测到读卡器（插入后自动刷新）"@, Tone::Muted)]]
        } else {
            Seq::new(app.readers@.len(), |i: int| reader_shown(app, i))
        },
    }
}

/// The lines of the reader area (`readers_shown`).
pub fn reader_lines(app: &App) -> (res: Vec<ShownLine>)
    ensures
        lines_view(res@) == readers_shown(*app),
{
    let mut out: Vec<ShownLine> = Vec::new();
    if let Some(e) = &app.init_error {
        out.push(line1(piece(concat2("PC/SC 不可用: ", e.as_str()), Tone::Alert)));
        assert(lines_view(out@) =~= readers_shown(*app));
        return out;
    }
    if app.readers.len() == 0 {
        out.push(line1(piece(to_owned_string("未检测到读卡器（插入后自动刷新）"), Tone::Muted)));
        assert(lines_view(out@) =~= readers_shown(*app));
        return out;
    }
    let mut i: usize = 0;
    while i < app.readers.len()
        invariant
            i <= app.readers@.len(),
            lines_view(out@) == Seq::new(i as nat, |k: int| reader_shown(*app, k)),
        decreases app.readers@.len() - i,
    {
        let selected = i == app.selected_reader;
        let mut text = to_owned_string(if selected { "▶ " } else { "  " });
        push_str(&mut text, app.readers[i].as_str());
        if selected {
            match app.card_status {
                CardStatus::Present => push_str(&mut text, " [卡片在位]"),
                CardStatus::Empty => push_str(&mut text, " [空]"),
            }
        }
        let ghost before = lines_view(out@);
        out.push(line1(piece(text, if selected { Tone::Selected } else { Tone::Unselected })));
        assert(lines_view(out@) =~= before.push(reader_shown(*app, i as int)));
        i = i + 1;
        assert(lines_view(out@) =~= Seq::new(i as nat, |k: int| reader_shown(*app, k)));
    }
    assert(lines_view(out@) =~= readers_shown(*app));
    out
}

/// The two lines of saved card `i` in the list: marker and name, then its record count.
pub open spec fn saved_entry_shown(card: SavedCard, selected: bool) -> Seq<Seq<(Seq<char>, Tone)>> {
    let tone = if selected { Tone::Selected } else { Tone::Unselected };
    seq![
        seq![(if selected { "▶ "@ } else { "  "@ }, tone), (display_spec(card.name@, card.number@), tone)],
        seq![("    "@ + dec_digits(card.records@.len()) + " 条记录"@, Tone::Muted)],
    ]
}

/// The entries of the first `n` saved cards, `selected` being the selected position.
pub open spec fn saved_entries_shown(cards: Seq<SavedCard>, selected: int, n: nat) -> Seq<Seq<(Seq<char>, Tone)>>
    decreases n,
{
    if n == 0 {
        Seq::empty()
    } else {
        saved_entries_shown(cards, selected, (n - 1) as nat) + saved_entry_shown(cards[n - 1], n - 1 == selected)
    }
}

/// The saved-card area: a hint when nothing is saved, then two lines per saved card.
pub open spec fn saved_list_shown(app: App) -> Seq<Seq<(Seq<char>, Tone)>> {
    let cs = app.saved_cards@;
    let head = if cs.len() == 0 {
        seq![seq![("暂无保存记录。刷交通卡后按 s 保存。"@, Tone::Muted)]]
    } else {
        Seq::empty()
    };
    head + saved_entries_shown(cs, app.selected_saved as int, cs.len())
}

/// The lines of the saved-card area (`saved_list_shown`).
pub fn saved_list_lines(app: &App) -> (res: Vec<ShownLine>)
    ensures
        lines_view(res@) == saved_list_shown(*app),
{
    let mut out: Vec<ShownLine> = Vec::new();
    if app.saved_cards.len() == 0 {
        out.push(line1(piece(to_owned_string("暂无保存记录。刷交通卡后按 s 保存。"), Tone::Muted)));
    }
    let ghost head = lines_view(out@);
    let ghost cs = app.saved_cards@;
    let ghost sel = app.selected_saved as int;
    assert(head + saved_entries_shown(cs, sel, 0) =~= head);
    let mut i: usize = 0;
    while i < app.saved_cards.len()
        invariant
            i <= cs.len(),
            cs == app.saved_cards@,
            sel == app.selected_saved as int,
            lines_view(out@) == head + saved_entries_shown(cs, sel, i as nat),
        decreases cs.len() - i,
    {
        let card = &app.saved_cards[i];
        let selected = i == app.selected_saved;
        let tone = if selected { Tone::Selected } else { Tone::Unselected };
        let mut count = to_owned_string("    ");
        push_decimal(&mut count, card.records.len() as u64);
        push_str(&mut count, " 条记录");
        let ghost before = lines_view(out@);
        out.push(line2(piece(to_owned_string(if selected { "▶ " } else { "  " }), tone), piece(card.display_name(), tone)));
        out.push(line1(piece(count, Tone::Muted)));
        assert(lines_view(out@) =~= before + saved_entry_shown(cs[i as int], i as int == sel));
        i = i + 1;
        assert(lines_view(out@) =~= head + saved_entries_shown(cs, sel, i as nat));
    }
    out
}

/// An element of the travel-document input: marker and label, then the value with a cursor
/// when it is the one being typed.
pub open spec fn input_field_shown(label: Seq<char>, val: Seq<char>, active: bool) -> Seq<(Seq<char>, Tone)> {
    seq![
        ((if active { "▶ "@ } else { "  "@ }) + label + ": "@, if active { Tone::Focused } else { Tone::Muted }),
        (val + (if active { "_"@ } else { Seq::empty() }), if active { Tone::Selected } else { Tone::Unselected }),
    ]
}

/// The travel-document input window: the three elements typed so far (empty without an
/// input) and the keys.
pub open spec fn traveldoc_popup_shown(input: Option<TravelDocInput>, field: TravelDocField) -> Seq<Seq<(Seq<char>, Tone)>> {
    let (doc, dob, doe) = match input {
        Some(i) => (i.doc_number@, i.dob@, i.doe@),
        None => (Seq::<char>::empty(), Seq::<char>::empty(), Seq::<char>::empty()),
    };
    seq![
        Seq::empty(),
        input_field_shown("证件号"@, doc, field == TravelDocField::DocNumber),
        input_field_shown("出生日期(YYMMDD)"@, dob, field == TravelDocField::Dob),
        input_field_shown("有效期(YYMMDD)"@, doe, field == TravelDocField::Doe),
        Seq::empty(),
        seq![("  Tab/↑↓ 切换字段   Enter 读取   Esc 取消"@, Tone::Muted)],
    ]
}

fn input_field_line(label: &str, val: &str, active: bool) -> (res: ShownLine)
    ensures
        line_view(res) == input_field_shown(label@, val@, active),
{
    let mut head = to_owned_string(if active { "▶ " } else { "  " });
    push_str(&mut head, label);
    push_str(&mut head, ": ");
    let mut value = to_owned_string(val);
    if active {
        push_str(&mut value, "_");
    }
    assert(value@ =~= val@ + (if active { "_"@ } else { Seq::empty() }));
    line2(
        piece(head, if active { Tone::Focused } else { Tone::Muted }),
        piece(value, if active { Tone::Selected } else { Tone::Unselected }),
    )
}

/// The lines of the travel-document input window (`traveldoc_popup_shown`).
pub fn traveldoc_popup_lines(app: &App) -> (res: Vec<ShownLine>)
    ensures
        lines_view(res@) == traveldoc_popup_shown(app.traveldoc_input, app.traveldoc_field),
{
    let (doc, dob, doe) = match &app.traveldoc_input {
        Some(i) => (i.doc_number.as_str(), i.dob.as_str(), i.doe.as_str()),
        None => ("", "", ""),
    };
    proof {
        reveal_strlit("");
    }
    let mut out: Vec<ShownLine> = Vec::new();
    out.push(empty_line());
    out.push(input_field_line("证件号", doc, app.traveldoc_field == TravelDocField::DocNumber));
    out.push(input_field_line("出生日期(YYMMDD)", dob, app.traveldoc_field == TravelDocField::Dob));
    out.push(input_field_line("有效期(YYMMDD)", doe, app.traveldoc_field == TravelDocField::Doe));
    out.push(empty_line());
    out.push(line1(piece(to_owned_string("  Tab/↑↓ 切换字段   Enter 读取   Esc 取消"), Tone::Muted)));
    assert(lines_view(out@) =~= traveldoc_popup_shown(app.traveldoc_input, app.traveldoc_field));
    out
}

/// An entry of the settings menu: marker, label, and whether it is on.
pub open spec fn setting_shown(selected: bool, label: Seq<char>, enabled: bool) -> Seq<(Seq<char>, Tone)> {
    let tone = if selected { Tone::Selected } else { Tone::Unselected };
    seq![
        (if selected { "▶ "@ } else { "  "@ }, tone),
        (label + ": "@, tone),
        (if enabled { "开"@ } else { "关"@ }, if enabled { Tone::Good } else { Tone::Muted }),
    ]
}

/// The settings window: automatic reading, automatic saving, and the keys.
pub open spec fn settings_popup_shown(app: App) -> Seq<Seq<(Seq<char>, Tone)>> {
    seq![
        Seq::empty(),
        setting_shown(app.selected_setting == SettingsItem::AutoPoll, "自动读卡"@, app.auto_poll),
        setting_shown(app.selected_setting == SettingsItem::AutoSave, "自动保存"@, app.auto_save),
        Seq::empty(),
        seq![("  ↑↓ 选择   Enter/Space 切换   Esc 关闭"@, Tone::Muted)],
    ]
}

fn setting_line(selected: bool, label: &str, enabled: bool) -> (res: ShownLine)
    ensures
        line_view(res) == setting_shown(selected, label@, enabled),
{
    let tone = if selected { Tone::Selected } else { Tone::Unselected };
    let mut v: Vec<Piece> = Vec::new();
    v.push(piece(to_owned_string(if selected { "▶ " } else { "  " }), tone));
    v.push(piece(concat2(label, ": "), tone));
    v.push(piece(to_owned_string(if enabled { "开" } else { "关" }), if enabled { Tone::Good } else { Tone::Muted }));
    let res = ShownLine { pieces: v };
    assert(line_view(res) =~= setting_shown(selected, label@, enabled));
    res
}

/// The lines of the settings window (`settings_popup_shown`).
pub fn settings_popup_lines(app: &App) -> (res: Vec<ShownLine>)
    ensures
        lines_view(res@) == settings_popup_shown(*app),
{
    let mut out: Vec<ShownLine> = Vec::new();
    out.push(empty_line());
    out.push(setting_line(app.selected_setting == SettingsItem::AutoPoll, "自动读卡", app.auto_poll));
    out.push(setting_line(app.selected_setting == SettingsItem::AutoSave, "自动保存", app.auto_save));
    out.push(empty_line());
    out.push(line1(piece(to_owned_string("  ↑↓ 选择   Enter/Space 切换   Esc 关闭"), Tone::Muted)));
    assert(lines_view(out@) =~= settings_popup_shown(*app));
    out
}

} // verus!
