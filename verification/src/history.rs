//! The saved history of transit cards: snapshots of reads, the merging of newly seen
//! transactions into a saved card, and the text that keeps the history between runs.
use vstd::prelude::*;
use crate::parse::model::{ParsedCard, ParsedResult, ProtocolSection, Transaction, pairs_view};
use crate::hexfmt::{decode as hex_decode_bytes, encode_lower, hex_decode, hex_lower, lemma_hex_decode_encode_lower};
use crate::text::{
    char_from_digit, concat2, dec_digits, lines, lines_spec, parse_u64, parse_u64_spec, push_decimal, push_str,
    split_char, split_spec, str_eq, strings_view, to_owned_string, trim, trim_spec, strip_cr, lemma_split_head,
    is_ws, lead_ws, trail_ws,
};
use vstd::utf8::{decode_utf8, encode_utf8, valid_utf8};

verus! {

/// One saved reading of a card: when, a title, and the lines shown.
#[derive(Debug, Clone)]
pub struct SavedRecord {
    /// Seconds since the Unix epoch.
    pub timestamp: u64,
    /// `N 条记录`.
    pub title: String,
    /// The lines of the record; transaction lines start with two spaces.
    pub lines: Vec<String>,
}

/// A saved card and its records.
#[derive(Debug, Clone)]
pub struct SavedCard {
    /// The card's name, with `:` and the number when it has one.
    pub key: String,
    /// The card's name.
    pub name: String,
    /// The card number, empty when unknown.
    pub number: String,
    /// The currency symbol.
    pub currency: String,
    /// The records, oldest first.
    pub records: Vec<SavedRecord>,
}

/// The lines of a record as texts.
pub open spec fn record_lines_view(r: SavedRecord) -> Seq<Seq<char>> {
    strings_view(r.lines@)
}

/// The lines of each record.
pub open spec fn records_lines(rs: Seq<SavedRecord>) -> Seq<Seq<Seq<char>>> {
    Seq::new(rs.len(), |i: int| record_lines_view(rs[i]))
}

/// The name shown for a saved card: its name, then a space and the number when it has one.
pub open spec fn display_spec(name: Seq<char>, number: Seq<char>) -> Seq<char> {
    if number.len() == 0 {
        name
    } else {
        name + " "@ + number
    }
}

impl SavedCard {
    /// The name shown for the card (`display_spec`).
    pub fn display_name(&self) -> (res: String)
        ensures
            res@ == display_spec(self.name@, self.number@),
    {
        if self.number.unicode_len() == 0 {
            to_owned_string(self.name.as_str())
        } else {
            let mut s = to_owned_string(self.name.as_str());
            push_str(&mut s, " ");
            push_str(&mut s, self.number.as_str());
            proof {
                reveal_strlit(" ");
            }
            s
        }
    }
}

/// The names of the cards whose records can be saved.
pub open spec fn is_saved_transit_name(n: Seq<char>) -> bool {
    n == "深圳通"@ || n == "武汉通"@ || n == "岭南通"@ || n == "城市一卡通"@ || n == "交通联合"@ || n == "澳门通"@
        || n == "北京一卡通"@ || n == "T-Money"@ || n == "八达通 Octopus"@
}

/// A transit card: one of the saved transit names, or a card combining several protocols.
pub open spec fn is_transport_spec(c: ParsedCard) -> bool {
    is_saved_transit_name(c.name@) || c.protocols@.len() > 0
}

/// Whether a decoded card is a transit card (`is_transport_spec`).
pub fn is_transport(card: &ParsedCard) -> (res: bool)
    ensures
        res == is_transport_spec(*card),
{
    let n = card.name.as_str();
    str_eq(n, "深圳通") || str_eq(n, "武汉通") || str_eq(n, "岭南通") || str_eq(n, "城市一卡通") || str_eq(n, "交通联合")
        || str_eq(n, "澳门通") || str_eq(n, "北京一卡通") || str_eq(n, "T-Money") || str_eq(n, "八达通 Octopus")
        || card.protocols.len() > 0
}

/// The positions of the transit cards, in order.
pub open spec fn transport_positions(cards: Seq<ParsedCard>) -> Seq<usize>
    decreases cards.len(),
{
    if cards.len() == 0 {
        Seq::empty()
    } else if is_transport_spec(cards.last()) {
        transport_positions(cards.drop_last()).push((cards.len() - 1) as usize)
    } else {
        transport_positions(cards.drop_last())
    }
}

/// The positions of the transit cards of a decoded read (`transport_positions`).
pub fn transport_cards(parsed: &ParsedResult) -> (res: Vec<usize>)
    ensures
        res@ == transport_positions(parsed.cards@),
{
    let mut out: Vec<usize> = Vec::new();
    let mut i: usize = 0;
    while i < parsed.cards.len()
        invariant
            i <= parsed.cards@.len(),
            out@ == transport_positions(parsed.cards@.subrange(0, i as int)),
        decreases parsed.cards@.len() - i,
    {
        let ghost pre = parsed.cards@.subrange(0, i + 1);
        assert(pre.drop_last() =~= parsed.cards@.subrange(0, i as int));
        assert(pre.last() == parsed.cards@[i as int]);
        if is_transport(&parsed.cards[i]) {
            out.push(i);
        }
        i = i + 1;
    }
    assert(parsed.cards@.subrange(0, parsed.cards@.len() as int) =~= parsed.cards@);
    out
}

/// `N 条记录`.
pub open spec fn title_spec(n: nat) -> Seq<char> {
    dec_digits(n) + " 条记录"@
}

/// The title of a record of `n` transactions (`title_spec`).
pub fn record_title(n: usize) -> (res: String)
    ensures
        res@ == title_spec(n as nat),
{
    let mut s = String::new();
    push_decimal(&mut s, n as u64);
    push_str(&mut s, " 条记录");
    assert(s@ =~= title_spec(n as nat));
    s
}

/// Two decimal digits of a number below 100.
pub open spec fn two_digit_text(n: nat) -> Seq<char> {
    seq![(48 + n / 10) as char, (48 + n % 10) as char]
}

/// An amount in hundredths as `{:+.2}` writes it: the sign (`+` for zero too), the whole
/// units, a point and two digits.
pub open spec fn amount_text_spec(a: int) -> Seq<char> {
    let m = if a < 0 { -a } else { a };
    (if a < 0 { "-"@ } else { "+"@ }) + dec_digits((m / 100) as nat) + "."@ + two_digit_text((m % 100) as nat)
}

/// The text of an amount in hundredths (`amount_text_spec`).
pub fn amount_text(a: i64) -> (res: String)
    ensures
        res@ == amount_text_spec(a as int),
{
    let m: u64 = if a < 0 { (0i128 - a as i128) as u64 } else { a as u64 };
    let mut s = if a < 0 { to_owned_string("-") } else { to_owned_string("+") };
    push_decimal(&mut s, m / 100);
    push_str(&mut s, ".");
    let r = m % 100;
    let hi = char_from_digit((r / 10) as u32);
    let lo = char_from_digit((r % 10) as u32);
    crate::text::push_char(&mut s, hi);
    crate::text::push_char(&mut s, lo);
    proof {
        reveal_strlit("-");
        reveal_strlit("+");
        reveal_strlit(".");
    }
    assert(s@ =~= amount_text_spec(a as int));
    s
}

/// The date and time of a transaction, joined by a space when both are known.
pub open spec fn tx_datetime(t: Transaction) -> Seq<char> {
    let d = t.date@;
    let tm = t.time@;
    if d.len() == 0 && tm.len() == 0 {
        Seq::empty()
    } else if tm.len() == 0 {
        d
    } else if d.len() == 0 {
        tm
    } else {
        d + " "@ + tm
    }
}

/// The kind of a transaction: its trip kind and auxiliary type when it has a trip kind.
pub open spec fn tx_kind(t: Transaction) -> Seq<char> {
    if t.trip_kind@.len() == 0 {
        t.kind@
    } else {
        t.trip_kind@ + " ["@ + t.aux@ + "]"@
    }
}

/// The saved line of a transaction: two spaces, the kind, the amount and currency, the source
/// in brackets when known, the date and time when known.
pub open spec fn transaction_line_spec(t: Transaction, currency: Seq<char>) -> Seq<char> {
    let base = "  "@ + tx_kind(t) + " "@ + amount_text_spec(t.amount as int) + currency;
    let with_source = if t.source@.len() == 0 {
        base
    } else {
        base + " ["@ + t.source@ + "]"@
    };
    let dt = tx_datetime(t);
    if dt.len() == 0 {
        with_source
    } else {
        with_source + " "@ + dt
    }
}

/// The saved lines of the transactions of a card, in order.
pub open spec fn transaction_lines_spec(card: ParsedCard) -> Seq<Seq<char>> {
    Seq::new(card.transactions@.len(), |i: int| transaction_line_spec(card.transactions@[i], card.currency@))
}

fn transaction_line(t: &Transaction, currency: &str) -> (res: String)
    ensures
        res@ == transaction_line_spec(*t, currency@),
{
    proof {
        reveal_strlit("  ");
        reveal_strlit(" ");
        reveal_strlit(" [");
        reveal_strlit("]");
    }
    let d = t.date.as_str();
    let tm = t.time.as_str();
    let mut line = to_owned_string("  ");
    if t.trip_kind.unicode_len() == 0 {
        push_str(&mut line, t.kind.as_str());
    } else {
        push_str(&mut line, t.trip_kind.as_str());
        push_str(&mut line, " [");
        push_str(&mut line, t.aux.as_str());
        push_str(&mut line, "]");
    }
    push_str(&mut line, " ");
    let amount = amount_text(t.amount);
    push_str(&mut line, amount.as_str());
    push_str(&mut line, currency);
    let ghost base = line@;
    assert(base =~= "  "@ + tx_kind(*t) + " "@ + amount_text_spec(t.amount as int) + currency@);
    if t.source.unicode_len() > 0 {
        push_str(&mut line, " [");
        push_str(&mut line, t.source.as_str());
        push_str(&mut line, "]");
    }
    let ghost with_source = line@;
    assert(with_source =~= (if t.source@.len() == 0 { base } else { base + " ["@ + t.source@ + "]"@ }));
    let dl = d.unicode_len();
    let tl = tm.unicode_len();
    if dl > 0 || tl > 0 {
        push_str(&mut line, " ");
        if tl == 0 {
            push_str(&mut line, d);
        } else if dl == 0 {
            push_str(&mut line, tm);
        } else {
            push_str(&mut line, d);
            push_str(&mut line, " ");
            push_str(&mut line, tm);
        }
    }
    assert(line@ =~= transaction_line_spec(*t, currency@));
    line
}

/// The saved lines of the transactions of a card (`transaction_lines_spec`).
pub fn transaction_lines(card: &ParsedCard) -> (res: Vec<String>)
    ensures
        strings_view(res@) == transaction_lines_spec(*card),
{
    let mut out: Vec<String> = Vec::new();
    let mut i: usize = 0;
    while i < card.transactions.len()
        invariant
            i <= card.transactions@.len(),
            out@.len() == i,
            forall|q: int| 0 <= q < i ==> (#[trigger] out@[q])@ == transaction_line_spec(card.transactions@[q], card.currency@),
        decreases card.transactions@.len() - i,
    {
        out.push(transaction_line(&card.transactions[i], card.currency.as_str()));
        i = i + 1;
    }
    assert(strings_view(out@) =~= transaction_lines_spec(*card));
    out
}

/// The field that records leave out: the monthly Guangzhou discount total.
pub open spec fn skipped_key(k: Seq<char>) -> bool {
    k == "广州优惠金额累计"@
}

/// `key: value` lines of fields, the skipped field left out.
pub open spec fn field_lines(fields: Seq<(Seq<char>, Seq<char>)>) -> Seq<Seq<char>>
    decreases fields.len(),
{
    if fields.len() == 0 {
        Seq::empty()
    } else {
        let rest = field_lines(fields.drop_last());
        let (k, v) = fields.last();
        if skipped_key(k) {
            rest
        } else {
            rest.push(k + ": "@ + v)
        }
    }
}

/// `提示: note` lines of notes.
pub open spec fn note_lines(notes: Seq<Seq<char>>) -> Seq<Seq<char>> {
    Seq::new(notes.len(), |i: int| "提示: "@ + notes[i])
}

/// The lines of one protocol of a combined card: its number (except for T-Union), its fields
/// and its notes.
pub open spec fn protocol_lines(p: ProtocolSection) -> Seq<Seq<char>> {
    protocol_head(p) + field_lines(pairs_view(p.fields@)) + note_lines(strings_view(p.notes@))
}

/// The number line of a protocol: none for T-Union or without a number.
pub open spec fn protocol_head(p: ProtocolSection) -> Seq<Seq<char>> {
    if p.name@ != "交通联合"@ {
        match p.number {
            Some(n) => seq![p.name@ + "卡号: "@ + n@],
            None => Seq::empty(),
        }
    } else {
        Seq::empty()
    }
}

/// The first lines of a record: the kind, and the number when known.
pub open spec fn card_head(card: ParsedCard) -> Seq<Seq<char>> {
    seq!["卡种: "@ + card.name@] + (match card.number {
        Some(n) => seq!["卡号: "@ + n@],
        None => Seq::empty(),
    })
}

/// The lines of the protocols, in order.
pub open spec fn protocols_lines(ps: Seq<ProtocolSection>) -> Seq<Seq<char>>
    decreases ps.len(),
{
    if ps.len() == 0 {
        Seq::empty()
    } else {
        protocols_lines(ps.drop_last()) + protocol_lines(ps.last())
    }
}

/// The lines of the record of a card: its kind, number, fields, protocols, the transactions
/// after a `记录:` line when there are any, and its notes. The balance is not kept.
pub open spec fn record_lines_spec(card: ParsedCard) -> Seq<Seq<char>> {
    card_head(card) + field_lines(card.field_pairs()) + protocols_lines(card.protocols@) + (if card.transactions@.len() > 0 {
        seq!["记录:"@] + transaction_lines_spec(card)
    } else {
        Seq::empty()
    }) + note_lines(strings_view(card.notes@))
}

fn concat3(a: &str, b: &str, c: &str) -> (res: String)
    ensures
        res@ == a@ + b@ + c@,
{
    let mut s = to_owned_string(a);
    push_str(&mut s, b);
    push_str(&mut s, c);
    s
}

fn push_field_lines(out: &mut Vec<String>, fields: &Vec<(String, String)>)
    ensures
        strings_view(final(out)@) == strings_view(old(out)@) + field_lines(pairs_view(fields@)),
{
    let ghost start = strings_view(out@);
    let mut i: usize = 0;
    assert(pairs_view(fields@).subrange(0, 0) =~= Seq::<(Seq<char>, Seq<char>)>::empty());
    assert(start + Seq::<Seq<char>>::empty() =~= start);
    while i < fields.len()
        invariant
            i <= fields@.len(),
            strings_view(out@) == start + field_lines(pairs_view(fields@).subrange(0, i as int)),
        decreases fields@.len() - i,
    {
        let ghost pre = pairs_view(fields@).subrange(0, i + 1);
        assert(pre.drop_last() =~= pairs_view(fields@).subrange(0, i as int));
        assert(pre.last() == (fields@[i as int].0@, fields@[i as int].1@));
        let (k, v) = &fields[i];
        if !str_eq(k.as_str(), "广州优惠金额累计") {
            let ghost before = strings_view(out@);
            out.push(concat3(k.as_str(), ": ", v.as_str()));
            assert(strings_view(out@) =~= before.push(k@ + ": "@ + v@));
        }
        i = i + 1;
    }
    assert(pairs_view(fields@).subrange(0, fields@.len() as int) =~= pairs_view(fields@));
}

fn push_note_lines(out: &mut Vec<String>, notes: &Vec<String>)
    ensures
        strings_view(final(out)@) == strings_view(old(out)@) + note_lines(strings_view(notes@)),
{
    let ghost start = strings_view(out@);
    let ghost n0 = out@.len();
    let mut i: usize = 0;
    while i < notes.len()
        invariant
            i <= notes@.len(),
            n0 == start.len(),
            out@.len() == n0 + i,
            forall|q: int| 0 <= q < n0 ==> (#[trigger] out@[q])@ == start[q],
            forall|q: int| n0 <= q < n0 + i ==> (#[trigger] out@[q])@ == "提示: "@ + notes@[q - n0]@,
        decreases notes@.len() - i,
    {
        out.push(concat2("提示: ", notes[i].as_str()));
        i = i + 1;
    }
    assert(strings_view(out@) =~= start + note_lines(strings_view(notes@)));
}

fn push_protocol_lines(out: &mut Vec<String>, p: &ProtocolSection)
    ensures
        strings_view(final(out)@) == strings_view(old(out)@) + protocol_lines(*p),
{
    let ghost start = strings_view(out@);
    if !str_eq(p.name.as_str(), "交通联合") {
        if let Some(n) = &p.number {
            out.push(concat3(p.name.as_str(), "卡号: ", n.as_str()));
        }
    }
    assert(strings_view(out@) =~= start + protocol_head(*p));
    push_field_lines(out, &p.fields);
    push_note_lines(out, &p.notes);
    assert(strings_view(out@) =~= start + protocol_lines(*p));
}

/// The lines of the record of a card (`record_lines_spec`).
pub fn record_lines(card: &ParsedCard) -> (res: Vec<String>)
    ensures
        strings_view(res@) == record_lines_spec(*card),
{
    let mut out: Vec<String> = Vec::new();
    out.push(concat2("卡种: ", card.name.as_str()));
    if let Some(n) = &card.number {
        out.push(concat2("卡号: ", n.as_str()));
    }
    assert(strings_view(out@) =~= card_head(*card));
    push_field_lines(&mut out, &card.fields);
    let ghost with_fields = strings_view(out@);
    let mut i: usize = 0;
    assert(protocols_lines(card.protocols@.subrange(0, 0)) == Seq::<Seq<char>>::empty());
    assert(with_fields + Seq::<Seq<char>>::empty() =~= with_fields);
    while i < card.protocols.len()
        invariant
            i <= card.protocols@.len(),
            strings_view(out@) == with_fields + protocols_lines(card.protocols@.subrange(0, i as int)),
        decreases card.protocols@.len() - i,
    {
        let ghost pre = card.protocols@.subrange(0, i + 1);
        assert(pre.drop_last() =~= card.protocols@.subrange(0, i as int));
        assert(pre.last() == card.protocols@[i as int]);
        push_protocol_lines(&mut out, &card.protocols[i]);
        i = i + 1;
        assert(strings_view(out@) =~= with_fields + protocols_lines(card.protocols@.subrange(0, i as int)));
    }
    assert(card.protocols@.subrange(0, card.protocols@.len() as int) =~= card.protocols@);
    let ghost with_protocols = strings_view(out@);
    if card.transactions.len() > 0 {
        out.push(to_owned_string("记录:"));
        let txs = transaction_lines(card);
        let ghost before = strings_view(out@);
        let ghost n0 = out@.len();
        let mut j: usize = 0;
        while j < txs.len()
            invariant
                j <= txs@.len(),
                n0 == before.len(),
                out@.len() == n0 + j,
                forall|q: int| 0 <= q < n0 ==> (#[trigger] out@[q])@ == before[q],
                forall|q: int| n0 <= q < n0 + j ==> (#[trigger] out@[q])@ == txs@[q - n0]@,
            decreases txs@.len() - j,
        {
            out.push(to_owned_string(txs[j].as_str()));
            j = j + 1;
        }
        assert(strings_view(out@) =~= before + strings_view(txs@));
        assert(strings_view(out@) =~= with_protocols + (seq!["记录:"@] + transaction_lines_spec(*card)));
    }
    push_note_lines(&mut out, &card.notes);
    assert(strings_view(out@) =~= record_lines_spec(*card));
    out
}

/// The key of a saved card: its name, with `:` and the number when it has one.
pub open spec fn saved_key(name: Seq<char>, number: Seq<char>) -> Seq<char> {
    if number.len() == 0 {
        name
    } else {
        name + ":"@ + number
    }
}

/// The number of a card, empty when it has none.
pub open spec fn number_or_empty(o: Option<String>) -> Seq<char> {
    match o {
        Some(n) => n@,
        None => Seq::empty(),
    }
}

/// A saved card made of one read of a card, at `now`: its key, name, number, currency, and
/// one record titled by the number of transactions with the lines of `record_lines_spec`.
pub fn snapshot(card: &ParsedCard, now: u64) -> (res: SavedCard)
    ensures
        res.key@ == saved_key(card.name@, number_or_empty(card.number)),
        res.name@ == card.name@,
        res.number@ == number_or_empty(card.number),
        res.currency@ == card.currency@,
        res.records@.len() == 1,
        res.records@[0].timestamp == now,
        res.records@[0].title@ == title_spec(card.transactions@.len()),
        record_lines_view(res.records@[0]) == record_lines_spec(*card),
{
    let number = match &card.number {
        Some(n) => to_owned_string(n.as_str()),
        None => String::new(),
    };
    let key = if number.unicode_len() == 0 {
        to_owned_string(card.name.as_str())
    } else {
        concat3(card.name.as_str(), ":", number.as_str())
    };
    let record = SavedRecord {
        timestamp: now,
        title: record_title(card.transactions.len()),
        lines: record_lines(card),
    };
    let mut records: Vec<SavedRecord> = Vec::new();
    records.push(record);
    SavedCard {
        key,
        name: to_owned_string(card.name.as_str()),
        number,
        currency: to_owned_string(card.currency.as_str()),
        records,
    }
}

/// A transaction line: it starts with two spaces.
pub open spec fn is_tx_line(l: Seq<char>) -> bool {
    l.len() >= 2 && l[0] == ' ' && l[1] == ' '
}

/// The number of transaction lines.
pub open spec fn count_tx(ls: Seq<Seq<char>>) -> nat
    decreases ls.len(),
{
    if ls.len() == 0 {
        0
    } else {
        count_tx(ls.drop_last()) + if is_tx_line(ls.last()) {
            1nat
        } else {
            0nat
        }
    }
}

proof fn lemma_count_tx_le(ls: Seq<Seq<char>>)
    ensures
        count_tx(ls) <= ls.len(),
    decreases ls.len(),
{
    if ls.len() > 0 {
        lemma_count_tx_le(ls.drop_last());
    }
}

/// Whether a line starts with two spaces (`is_tx_line`).
fn starts_with_two_spaces(s: &str) -> (res: bool)
    ensures
        res == is_tx_line(s@),
{
    s.unicode_len() >= 2 && s.get_char(0) == ' ' && s.get_char(1) == ' '
}

/// Whether some record holds the line.
pub open spec fn saved_has_line(rls: Seq<Seq<Seq<char>>>, l: Seq<char>) -> bool {
    exists|i: int| 0 <= i < rls.len() && #[trigger] rls[i].contains(l)
}

/// Whether some line of `lines` is `x`.
fn contains_line(lines: &Vec<String>, x: &str) -> (res: bool)
    ensures
        res == strings_view(lines@).contains(x@),
{
    let mut i: usize = 0;
    while i < lines.len()
        invariant
            i <= lines@.len(),
            forall|q: int| 0 <= q < i ==> (#[trigger] lines@[q])@ != x@,
        decreases lines@.len() - i,
    {
        if str_eq(lines[i].as_str(), x) {
            assert(strings_view(lines@)[i as int] == x@);
            return true;
        }
        i = i + 1;
    }
    assert forall|q: int| 0 <= q < strings_view(lines@).len() implies strings_view(lines@)[q] != x@ by {
        assert(lines@[q]@ != x@);
    }
    false
}

/// Whether a record of the saved card holds the line.
pub fn has_transaction_line(card: &SavedCard, line: &str) -> (res: bool)
    ensures
        res == saved_has_line(records_lines(card.records@), line@),
{
    let ghost rls = records_lines(card.records@);
    let mut i: usize = 0;
    while i < card.records.len()
        invariant
            i <= card.records@.len(),
            rls == records_lines(card.records@),
            forall|q: int| 0 <= q < i ==> !(#[trigger] rls[q]).contains(line@),
        decreases card.records@.len() - i,
    {
        if contains_line(&card.records[i].lines, line) {
            assert(rls[i as int].contains(line@));
            return true;
        }
        i = i + 1;
    }
    false
}

/// The number of transaction lines of a record (`count_tx`).
pub fn transaction_line_count(record: &SavedRecord) -> (res: usize)
    ensures
        res == count_tx(record_lines_view(*record)),
{
    let ghost ls = record_lines_view(*record);
    let mut n: usize = 0;
    let mut i: usize = 0;
    while i < record.lines.len()
        invariant
            i <= record.lines@.len(),
            ls == record_lines_view(*record),
            n <= i,
            n == count_tx(ls.subrange(0, i as int)),
        decreases record.lines@.len() - i,
    {
        let ghost pre = ls.subrange(0, i + 1);
        assert(pre.drop_last() =~= ls.subrange(0, i as int));
        assert(pre.last() == record.lines@[i as int]@);
        if starts_with_two_spaces(record.lines[i].as_str()) {
            n = n + 1;
        }
        i = i + 1;
    }
    assert(ls.subrange(0, record.lines@.len() as int) =~= ls);
    n
}

/// The line after which transactions are listed.
pub open spec fn marker_text() -> Seq<char> {
    "记录:"@
}

/// The lines, with the marker line added at the end when missing.
pub open spec fn with_marker(ls: Seq<Seq<char>>) -> Seq<Seq<char>> {
    if ls.contains(marker_text()) {
        ls
    } else {
        ls.push(marker_text())
    }
}

/// The position of the first `x` from `i` on; the length when there is none.
pub open spec fn first_pos(ls: Seq<Seq<char>>, x: Seq<char>, i: int) -> int
    decreases ls.len() - i,
{
    if i < 0 || i >= ls.len() {
        ls.len() as int
    } else if ls[i] == x {
        i
    } else {
        first_pos(ls, x, i + 1)
    }
}

proof fn lemma_first_pos(ls: Seq<Seq<char>>, x: Seq<char>, i: int)
    requires
        0 <= i <= ls.len(),
    ensures
        i <= first_pos(ls, x, i) <= ls.len(),
        first_pos(ls, x, i) < ls.len() ==> ls[first_pos(ls, x, i)] == x,
        forall|k: int| i <= k < first_pos(ls, x, i) ==> ls[k] != x,
        (exists|k: int| i <= k < ls.len() && ls[k] == x) ==> first_pos(ls, x, i) < ls.len(),
    decreases ls.len() - i,
{
    if i < ls.len() && ls[i] != x {
        lemma_first_pos(ls, x, i + 1);
        if exists|k: int| i <= k < ls.len() && ls[k] == x {
            let k = choose|k: int| i <= k < ls.len() && ls[k] == x;
            assert(k != i);
        }
    }
}

/// The lines with `new` inserted right after the (first) marker line, the marker added at the
/// end first when missing.
pub open spec fn insert_after_marker(ls: Seq<Seq<char>>, new: Seq<Seq<char>>) -> Seq<Seq<char>> {
    let l = with_marker(ls);
    let p = first_pos(l, marker_text(), 0) + 1;
    l.subrange(0, p) + new + l.subrange(p, l.len() as int)
}

/// The transaction lines of `ls` that `merged` lacks, in order.
pub open spec fn kept_tx(ls: Seq<Seq<char>>, merged: Seq<Seq<char>>) -> Seq<Seq<char>>
    decreases ls.len(),
{
    if ls.len() == 0 {
        Seq::empty()
    } else {
        let rest = kept_tx(ls.drop_last(), merged);
        if is_tx_line(ls.last()) && !merged.contains(ls.last()) {
            rest.push(ls.last())
        } else {
            rest
        }
    }
}

/// The transaction lines of the records that `merged` lacks, record after record.
pub open spec fn old_tx_lines(rls: Seq<Seq<Seq<char>>>, merged: Seq<Seq<char>>) -> Seq<Seq<char>>
    decreases rls.len(),
{
    if rls.len() == 0 {
        Seq::empty()
    } else {
        old_tx_lines(rls.drop_last(), merged) + kept_tx(rls.last(), merged)
    }
}

/// The lines of the single record left after adding `new`: with no record, a marker line and
/// `new`; with one, `new` after its marker; with several, the last record keeps its lines and
/// takes, after its marker, `new` and then the transaction lines of the older records that it
/// lacks.
pub open spec fn appended_lines(rls: Seq<Seq<Seq<char>>>, new: Seq<Seq<char>>) -> Seq<Seq<char>> {
    if rls.len() == 0 {
        insert_after_marker(seq![marker_text()], new)
    } else if rls.len() == 1 {
        insert_after_marker(rls[0], new)
    } else {
        let m = with_marker(rls.last());
        insert_after_marker(insert_after_marker(m, old_tx_lines(rls.drop_last(), m)), new)
    }
}

fn copy_lines(lines: &Vec<String>) -> (res: Vec<String>)
    ensures
        strings_view(res@) == strings_view(lines@),
{
    let mut out: Vec<String> = Vec::new();
    let mut i: usize = 0;
    while i < lines.len()
        invariant
            i <= lines@.len(),
            out@.len() == i,
            forall|q: int| 0 <= q < i ==> (#[trigger] out@[q])@ == lines@[q]@,
        decreases lines@.len() - i,
    {
        out.push(to_owned_string(lines[i].as_str()));
        i = i + 1;
    }
    assert(strings_view(out@) =~= strings_view(lines@));
    out
}

/// Appends copies of `src[from..to]` to `out`.
fn push_copies(out: &mut Vec<String>, src: &Vec<String>, from: usize, to: usize)
    requires
        from <= to <= src@.len(),
    ensures
        strings_view(final(out)@) == strings_view(old(out)@) + strings_view(src@).subrange(from as int, to as int),
{
    let ghost start = strings_view(out@);
    let ghost n0 = out@.len();
    let mut i: usize = from;
    while i < to
        invariant
            from <= i <= to,
            to <= src@.len(),
            n0 == start.len(),
            out@.len() == n0 + (i - from),
            forall|q: int| 0 <= q < n0 ==> (#[trigger] out@[q])@ == start[q],
            forall|q: int| n0 <= q < n0 + (i - from) ==> (#[trigger] out@[q])@ == src@[q - n0 + from]@,
        decreases to - i,
    {
        out.push(to_owned_string(src[i].as_str()));
        i = i + 1;
    }
    assert(strings_view(out@) =~= start + strings_view(src@).subrange(from as int, to as int));
}

/// The lines with `new` after the marker (`insert_after_marker`).
fn insert_lines_after_marker(lines: Vec<String>, new: Vec<String>) -> (res: Vec<String>)
    ensures
        strings_view(res@) == insert_after_marker(strings_view(lines@), strings_view(new@)),
{
    let ghost lv = strings_view(lines@);
    let mut l = lines;
    if !contains_line(&l, "记录:") {
        l.push(to_owned_string("记录:"));
        assert(strings_view(l@) =~= lv.push(marker_text()));
    }
    let ghost wl = strings_view(l@);
    assert(wl == with_marker(lv));
    let mut p: usize = 0;
    while p < l.len() && !str_eq(l[p].as_str(), "记录:")
        invariant
            p <= l@.len(),
            wl == strings_view(l@),
            first_pos(wl, marker_text(), 0) == first_pos(wl, marker_text(), p as int),
        decreases l@.len() - p,
    {
        p = p + 1;
    }
    proof {
        if !lv.contains(marker_text()) {
            assert(wl[wl.len() - 1] == marker_text());
        }
        lemma_first_pos(wl, marker_text(), 0);
    }
    assert(p < l@.len());
    let at = p + 1;
    let mut out: Vec<String> = Vec::new();
    push_copies(&mut out, &l, 0, at);
    push_copies(&mut out, &new, 0, new.len());
    push_copies(&mut out, &l, at, l.len());
    assert(strings_view(new@).subrange(0, new@.len() as int) =~= strings_view(new@));
    assert(Seq::<Seq<char>>::empty() + wl.subrange(0, at as int) =~= wl.subrange(0, at as int));
    out
}

/// Appends to `out` the transaction lines of `lines` that `merged` lacks (`kept_tx`).
fn push_kept_tx(out: &mut Vec<String>, lines: &Vec<String>, merged: &Vec<String>)
    ensures
        strings_view(final(out)@) == strings_view(old(out)@) + kept_tx(strings_view(lines@), strings_view(merged@)),
{
    let ghost start = strings_view(out@);
    let ghost lv = strings_view(lines@);
    let ghost mv = strings_view(merged@);
    assert(start + kept_tx(lv.subrange(0, 0), mv) =~= start);
    let mut i: usize = 0;
    while i < lines.len()
        invariant
            i <= lines@.len(),
            lv == strings_view(lines@),
            mv == strings_view(merged@),
            strings_view(out@) == start + kept_tx(lv.subrange(0, i as int), mv),
        decreases lines@.len() - i,
    {
        let ghost pre = lv.subrange(0, i + 1);
        assert(pre.drop_last() =~= lv.subrange(0, i as int));
        assert(pre.last() == lines@[i as int]@);
        let line = lines[i].as_str();
        let tx = starts_with_two_spaces(line);
        if tx && !contains_line(merged, line) {
            let ghost before = strings_view(out@);
            out.push(to_owned_string(line));
            assert(strings_view(out@) =~= before.push(line@));
        }
        i = i + 1;
    }
    assert(lv.subrange(0, lines@.len() as int) =~= lv);
}

/// What appending `new` to a saved card leaves: the same key, name, number and currency, and
/// one record at `now` whose lines are `appended_lines` and whose title counts its
/// transaction lines.
pub open spec fn appended_card(prior: SavedCard, new: Seq<Seq<char>>, now: u64, res: SavedCard) -> bool {
    let ls = appended_lines(records_lines(prior.records@), new);
    &&& res.key == prior.key
    &&& res.name == prior.name
    &&& res.number == prior.number
    &&& res.currency == prior.currency
    &&& res.records@.len() == 1
    &&& res.records@[0].timestamp == now
    &&& record_lines_view(res.records@[0]) == ls
    &&& res.records@[0].title@ == title_spec(count_tx(ls))
}

/// Appends transaction lines to a saved card, merging its records into one
/// (`appended_card`).
pub fn append_transaction_lines(card: &mut SavedCard, lines: Vec<String>, now: u64)
    ensures
        appended_card(*old(card), strings_view(lines@), now, *final(card)),
{
    let ghost rls = records_lines(card.records@);
    let n = card.records.len();
    let mut recs: Vec<SavedRecord> = Vec::new();
    std::mem::swap(&mut recs, &mut card.records);
    assert(records_lines(recs@) == rls);
    let base: Vec<String> = if n == 0 {
        let mut v: Vec<String> = Vec::new();
        v.push(to_owned_string("记录:"));
        assert(strings_view(v@) =~= seq![marker_text()]);
        v
    } else if n == 1 {
        assert(record_lines_view(recs@[0]) == rls[0]);
        copy_lines(&recs[0].lines)
    } else {
        let last = &recs[n - 1];
        assert(record_lines_view(*last) == rls.last());
        let mut m = copy_lines(&last.lines);
        if !contains_line(&m, "记录:") {
            let ghost mv0 = strings_view(m@);
            m.push(to_owned_string("记录:"));
            assert(strings_view(m@) =~= mv0.push(marker_text()));
        }
        let ghost mv = strings_view(m@);
        assert(mv == with_marker(rls.last()));
        let mut prior: Vec<String> = Vec::new();
        let mut i: usize = 0;
        let ghost older = rls.drop_last();
        assert(old_tx_lines(older.subrange(0, 0), mv) =~= Seq::<Seq<char>>::empty());
        assert(strings_view(prior@) =~= Seq::<Seq<char>>::empty());
        while i < n - 1
            invariant
                n == recs@.len(),
                n >= 2,
                i <= n - 1,
                rls == records_lines(recs@),
                older == rls.drop_last(),
                mv == strings_view(m@),
                strings_view(prior@) == old_tx_lines(older.subrange(0, i as int), mv),
            decreases n - 1 - i,
        {
            let ghost pre = older.subrange(0, i + 1);
            assert(pre.drop_last() =~= older.subrange(0, i as int));
            assert(pre.last() == record_lines_view(recs@[i as int]));
            push_kept_tx(&mut prior, &recs[i].lines, &m);
            i = i + 1;
        }
        assert(older.subrange(0, (n - 1) as int) =~= older);
        insert_lines_after_marker(m, prior)
    };
    assert(strings_view(base@) == (if n == 0 {
        seq![marker_text()]
    } else if n == 1 {
        rls[0]
    } else {
        insert_after_marker(with_marker(rls.last()), old_tx_lines(rls.drop_last(), with_marker(rls.last())))
    }));
    let ghost nv = strings_view(lines@);
    let result = insert_lines_after_marker(base, lines);
    assert(strings_view(result@) == appended_lines(rls, nv));
    let rec = SavedRecord { timestamp: now, title: String::new(), lines: result };
    proof {
        lemma_count_tx_le(record_lines_view(rec));
    }
    let count = transaction_line_count(&rec);
    let rec = SavedRecord { timestamp: now, title: record_title(count), lines: rec.lines };
    card.records.push(rec);
}

/// The lines of `tx` that no record holds, in order.
pub open spec fn unseen_lines(tx: Seq<Seq<char>>, rls: Seq<Seq<Seq<char>>>) -> Seq<Seq<char>>
    decreases tx.len(),
{
    if tx.len() == 0 {
        Seq::empty()
    } else {
        let rest = unseen_lines(tx.drop_last(), rls);
        if saved_has_line(rls, tx.last()) {
            rest
        } else {
            rest.push(tx.last())
        }
    }
}

/// Adds to a saved card the transaction lines of a read that none of its records holds, and
/// returns how many (`unseen_lines`); with none, the saved card is left as it was, else the
/// lines are appended (`appended_card`).
pub fn append_new_transactions(existing: &mut SavedCard, card: &ParsedCard, now: u64) -> (res: usize)
    ensures
        res == unseen_lines(transaction_lines_spec(*card), records_lines(old(existing).records@)).len(),
        res == 0 ==> *final(existing) == *old(existing),
        res > 0 ==> appended_card(
            *old(existing),
            unseen_lines(transaction_lines_spec(*card), records_lines(old(existing).records@)),
            now,
            *final(existing),
        ),
{
    let all = transaction_lines(card);
    let ghost tv = strings_view(all@);
    let ghost rls = records_lines(existing.records@);
    let mut fresh: Vec<String> = Vec::new();
    let mut i: usize = 0;
    while i < all.len()
        invariant
            i <= all@.len(),
            tv == strings_view(all@),
            rls == records_lines(existing.records@),
            strings_view(fresh@) == unseen_lines(tv.subrange(0, i as int), rls),
            fresh@.len() <= i,
        decreases all@.len() - i,
    {
        let ghost pre = tv.subrange(0, i + 1);
        assert(pre.drop_last() =~= tv.subrange(0, i as int));
        assert(pre.last() == all@[i as int]@);
        if !has_transaction_line(existing, all[i].as_str()) {
            let ghost before = strings_view(fresh@);
            fresh.push(to_owned_string(all[i].as_str()));
            assert(strings_view(fresh@) =~= before.push(all@[i as int]@));
        }
        i = i + 1;
    }
    assert(tv.subrange(0, all@.len() as int) =~= tv);
    let count = fresh.len();
    if count == 0 {
        return 0;
    }
    append_transaction_lines(existing, fresh, now);
    count
}

proof fn lemma_tx_lines_are_tx(card: ParsedCard)
    ensures
        forall|i: int| 0 <= i < transaction_lines_spec(card).len() ==> is_tx_line(#[trigger] transaction_lines_spec(card)[i]),
{
    reveal_strlit("  ");
    assert forall|i: int| 0 <= i < transaction_lines_spec(card).len() implies is_tx_line(
        #[trigger] transaction_lines_spec(card)[i],
    ) by {
        let t = card.transactions@[i];
        let base = "  "@ + tx_kind(t) + " "@ + amount_text_spec(t.amount as int) + card.currency@;
        assert(base[0] == ' ' && base[1] == ' ');
        let with_source = if t.source@.len() == 0 {
            base
        } else {
            base + " ["@ + t.source@ + "]"@
        };
        assert(with_source[0] == ' ' && with_source[1] == ' ');
        let dt = tx_datetime(t);
        if dt.len() > 0 {
            assert((with_source + " "@ + dt)[0] == ' ');
            assert((with_source + " "@ + dt)[1] == ' ');
        }
    }
}

proof fn lemma_unseen_contains(tx: Seq<Seq<char>>, rls: Seq<Seq<Seq<char>>>, x: Seq<char>)
    requires
        tx.contains(x),
        !saved_has_line(rls, x),
    ensures
        unseen_lines(tx, rls).contains(x),
    decreases tx.len(),
{
    if tx.last() == x {
        assert(unseen_lines(tx, rls).last() == x);
    } else {
        let k = choose|k: int| 0 <= k < tx.len() && tx[k] == x;
        assert(tx.drop_last()[k] == x);
        lemma_unseen_contains(tx.drop_last(), rls, x);
        let r = unseen_lines(tx.drop_last(), rls);
        let j = choose|j: int| 0 <= j < r.len() && r[j] == x;
        if !saved_has_line(rls, tx.last()) {
            assert(r.push(tx.last())[j] == x);
        }
    }
}

proof fn lemma_unseen_empty(tx: Seq<Seq<char>>, rls: Seq<Seq<Seq<char>>>)
    requires
        forall|i: int| 0 <= i < tx.len() ==> saved_has_line(rls, #[trigger] tx[i]),
    ensures
        unseen_lines(tx, rls).len() == 0,
    decreases tx.len(),
{
    if tx.len() > 0 {
        assert(saved_has_line(rls, tx[tx.len() - 1]));
        assert forall|i: int| 0 <= i < tx.drop_last().len() implies saved_has_line(rls, #[trigger] tx.drop_last()[i]) by {
            assert(tx.drop_last()[i] == tx[i]);
        }
        lemma_unseen_empty(tx.drop_last(), rls);
    }
}

proof fn lemma_insert_keeps(ls: Seq<Seq<char>>, new: Seq<Seq<char>>, x: Seq<char>)
    requires
        ls.contains(x) || new.contains(x),
    ensures
        insert_after_marker(ls, new).contains(x),
{
    let l = with_marker(ls);
    if !ls.contains(marker_text()) {
        assert(l[l.len() - 1] == marker_text());
    }
    lemma_first_pos(l, marker_text(), 0);
    let p = first_pos(l, marker_text(), 0) + 1;
    let r = insert_after_marker(ls, new);
    assert(r == l.subrange(0, p) + new + l.subrange(p, l.len() as int));
    if new.contains(x) {
        let k = choose|k: int| 0 <= k < new.len() && new[k] == x;
        assert(r[p + k] == x);
    } else {
        let k = choose|k: int| 0 <= k < ls.len() && ls[k] == x;
        assert(l[k] == x);
        if k < p {
            assert(r[k] == x);
        } else {
            assert(r[k + new.len()] == x);
        }
    }
}

proof fn lemma_kept_contains(ls: Seq<Seq<char>>, m: Seq<Seq<char>>, x: Seq<char>)
    requires
        ls.contains(x),
        is_tx_line(x),
        !m.contains(x),
    ensures
        kept_tx(ls, m).contains(x),
    decreases ls.len(),
{
    if ls.last() == x {
        assert(kept_tx(ls, m).last() == x);
    } else {
        let k = choose|k: int| 0 <= k < ls.len() && ls[k] == x;
        assert(ls.drop_last()[k] == x);
        lemma_kept_contains(ls.drop_last(), m, x);
        let r = kept_tx(ls.drop_last(), m);
        let j = choose|j: int| 0 <= j < r.len() && r[j] == x;
        assert(r.push(ls.last())[j] == x);
    }
}

proof fn lemma_old_contains(rls: Seq<Seq<Seq<char>>>, m: Seq<Seq<char>>, i: int, x: Seq<char>)
    requires
        0 <= i < rls.len(),
        rls[i].contains(x),
        is_tx_line(x),
        !m.contains(x),
    ensures
        old_tx_lines(rls, m).contains(x),
    decreases rls.len(),
{
    let head = old_tx_lines(rls.drop_last(), m);
    let tail = kept_tx(rls.last(), m);
    if i == rls.len() - 1 {
        lemma_kept_contains(rls.last(), m, x);
        let j = choose|j: int| 0 <= j < tail.len() && tail[j] == x;
        assert((head + tail)[head.len() + j] == x);
    } else {
        assert(rls.drop_last()[i] == rls[i]);
        lemma_old_contains(rls.drop_last(), m, i, x);
        let j = choose|j: int| 0 <= j < head.len() && head[j] == x;
        assert((head + tail)[j] == x);
    }
}

proof fn lemma_appended_keeps(rls: Seq<Seq<Seq<char>>>, new: Seq<Seq<char>>, x: Seq<char>)
    requires
        new.contains(x) || (is_tx_line(x) && saved_has_line(rls, x)),
    ensures
        appended_lines(rls, new).contains(x),
{
    if rls.len() == 0 {
        lemma_insert_keeps(seq![marker_text()], new, x);
    } else if rls.len() == 1 {
        if !new.contains(x) {
            let i = choose|i: int| 0 <= i < rls.len() && #[trigger] rls[i].contains(x);
            assert(i == 0);
        }
        lemma_insert_keeps(rls[0], new, x);
    } else {
        let m = with_marker(rls.last());
        let prior = old_tx_lines(rls.drop_last(), m);
        if new.contains(x) {
            lemma_insert_keeps(insert_after_marker(m, prior), new, x);
        } else {
            let i = choose|i: int| 0 <= i < rls.len() && #[trigger] rls[i].contains(x);
            if m.contains(x) {
                lemma_insert_keeps(m, prior, x);
            } else if i == rls.len() - 1 {
                let k = choose|k: int| 0 <= k < rls.last().len() && rls.last()[k] == x;
                assert(m[k] == x);
            } else {
                assert(rls.drop_last()[i] == rls[i]);
                lemma_old_contains(rls.drop_last(), m, i, x);
                lemma_insert_keeps(m, prior, x);
            }
            lemma_insert_keeps(insert_after_marker(m, prior), new, x);
        }
    }
}

/// Saving the same read a second time adds nothing: whatever `append_new_transactions` left
/// (`mid`, as its contract states), none of the read's transaction lines is unseen any more.
pub proof fn law_saving_twice_adds_nothing(saved: SavedCard, card: ParsedCard, now: u64, mid: SavedCard)
    requires
        ({
            let new = unseen_lines(transaction_lines_spec(card), records_lines(saved.records@));
            (new.len() == 0 && mid == saved) || (new.len() > 0 && appended_card(saved, new, now, mid))
        }),
    ensures
        unseen_lines(transaction_lines_spec(card), records_lines(mid.records@)).len() == 0,
{
    let tx = transaction_lines_spec(card);
    let rls = records_lines(saved.records@);
    let new = unseen_lines(tx, rls);
    let after = records_lines(mid.records@);
    lemma_tx_lines_are_tx(card);
    if new.len() == 0 {
        assert forall|i: int| 0 <= i < tx.len() implies saved_has_line(after, #[trigger] tx[i]) by {
            if !saved_has_line(rls, tx[i]) {
                lemma_unseen_contains(tx, rls, tx[i]);
            }
        }
    } else {
        let ls = appended_lines(rls, new);
        assert(after =~= seq![ls]);
        assert forall|i: int| 0 <= i < tx.len() implies saved_has_line(after, #[trigger] tx[i]) by {
            if !saved_has_line(rls, tx[i]) {
                lemma_unseen_contains(tx, rls, tx[i]);
            }
            lemma_appended_keeps(rls, new, tx[i]);
            assert(after[0].contains(tx[i]));
        }
    }
    lemma_unseen_empty(tx, after);
}

} // verus!

verus! {

/// A saved record as plain values.
pub struct RecordView {
    /// Seconds since the Unix epoch.
    pub timestamp: u64,
    /// The title.
    pub title: Seq<char>,
    /// The lines.
    pub lines: Seq<Seq<char>>,
}

/// A saved card as plain values.
pub struct CardView {
    /// The key.
    pub key: Seq<char>,
    /// The name.
    pub name: Seq<char>,
    /// The number, empty when unknown.
    pub number: Seq<char>,
    /// The currency symbol.
    pub currency: Seq<char>,
    /// The records, oldest first.
    pub records: Seq<RecordView>,
}

/// A record as plain values.
pub open spec fn record_view(r: SavedRecord) -> RecordView {
    RecordView { timestamp: r.timestamp, title: r.title@, lines: record_lines_view(r) }
}

/// A saved card as plain values.
pub open spec fn card_view(c: SavedCard) -> CardView {
    CardView {
        key: c.key@,
        name: c.name@,
        number: c.number@,
        currency: c.currency@,
        records: Seq::new(c.records@.len(), |i: int| record_view(c.records@[i])),
    }
}

/// Saved cards as plain values.
pub open spec fn cards_view(cs: Seq<SavedCard>) -> Seq<CardView> {
    Seq::new(cs.len(), |i: int| card_view(cs[i]))
}

/// The first line of a history file.
pub open spec fn history_header() -> Seq<char> {
    "tarot-tui-history-v1"@
}

/// How a text is kept in the file: the lower-case hex of its UTF-8 bytes.
pub open spec fn hex_of_text(s: Seq<char>) -> Seq<char> {
    hex_lower(encode_utf8(s))
}

/// The text that hex spells: its bytes read as UTF-8; empty when the hex or the UTF-8 is
/// invalid.
pub open spec fn text_of_hex(h: Seq<char>) -> Seq<char> {
    match hex_decode(h) {
        Some(b) => if valid_utf8(b) {
            decode_utf8(b)
        } else {
            Seq::empty()
        },
        None => Seq::empty(),
    }
}

/// Lines joined by line feeds.
pub open spec fn join_lines(ls: Seq<Seq<char>>) -> Seq<char>
    decreases ls.len(),
{
    if ls.len() == 0 {
        Seq::empty()
    } else if ls.len() == 1 {
        ls[0]
    } else {
        ls[0].push('\n') + join_lines(ls.drop_first())
    }
}

/// The line of a card: `card`, then its key, name, number and currency in hex, separated by
/// tabs.
pub open spec fn card_line(c: CardView) -> Seq<char> {
    "card\t"@ + hex_of_text(c.key) + "\t"@ + hex_of_text(c.name) + "\t"@ + hex_of_text(c.number) + "\t"@
        + hex_of_text(c.currency)
}

/// The line of a record: `record`, then its timestamp in decimal, its title in hex and its
/// lines, joined by line feeds, in hex, separated by tabs.
pub open spec fn record_line(r: RecordView) -> Seq<char> {
    "record\t"@ + dec_digits(r.timestamp as nat) + "\t"@ + hex_of_text(r.title) + "\t"@ + hex_of_text(
        join_lines(r.lines),
    )
}

/// The lines of a card: its line, then one line per record.
pub open spec fn card_block(c: CardView) -> Seq<Seq<char>> {
    seq![card_line(c)] + Seq::new(c.records.len(), |i: int| record_line(c.records[i]))
}

/// The lines of the cards, card after card.
pub open spec fn blocks(cs: Seq<CardView>) -> Seq<Seq<char>>
    decreases cs.len(),
{
    if cs.len() == 0 {
        Seq::empty()
    } else {
        blocks(cs.drop_last()) + card_block(cs.last())
    }
}

/// The lines of a history file: the header, then the cards.
pub open spec fn file_lines(cs: Seq<CardView>) -> Seq<Seq<char>> {
    seq![history_header()] + blocks(cs)
}

/// Lines, each ended by a line feed.
pub open spec fn unlines(ls: Seq<Seq<char>>) -> Seq<char>
    decreases ls.len(),
{
    if ls.len() == 0 {
        Seq::empty()
    } else {
        unlines(ls.drop_last()) + ls.last().push('\n')
    }
}

/// The text of a history file.
pub open spec fn history_text_spec(cs: Seq<CardView>) -> Seq<char> {
    unlines(file_lines(cs))
}

/// The state of reading a history file: the cards done, and the card being read.
pub struct LoadState {
    /// The cards read completely.
    pub done: Seq<CardView>,
    /// The card whose records are being read.
    pub current: Option<CardView>,
}

/// The timestamp of a record line: its decimal value, zero when it is not one.
pub open spec fn stamp_of(s: Seq<char>) -> u64 {
    match parse_u64_spec(s) {
        Some(v) => v,
        None => 0,
    }
}

/// Reading one line: the header and blank lines change nothing; a line of five tab-separated
/// fields starting with `card` closes the current card and starts a new one; a line of four
/// starting with `record` adds a record to the current card (none without one); other lines
/// change nothing.
#[verifier::opaque]
pub open spec fn load_step(st: LoadState, line: Seq<char>) -> LoadState {
    if line == history_header() || trim_spec(line).len() == 0 {
        st
    } else {
        let parts = split_spec(line, '\t');
        if parts.len() == 5 && parts[0] == "card"@ {
            LoadState {
                done: match st.current {
                    Some(c) => st.done.push(c),
                    None => st.done,
                },
                current: Some(
                    CardView {
                        key: text_of_hex(parts[1]),
                        name: text_of_hex(parts[2]),
                        number: text_of_hex(parts[3]),
                        currency: text_of_hex(parts[4]),
                        records: Seq::empty(),
                    },
                ),
            }
        } else if parts.len() == 4 && parts[0] == "record"@ {
            match st.current {
                Some(c) => LoadState {
                    done: st.done,
                    current: Some(
                        CardView {
                            records: c.records.push(
                                RecordView {
                                    timestamp: stamp_of(parts[1]),
                                    title: text_of_hex(parts[2]),
                                    lines: lines_spec(text_of_hex(parts[3])),
                                },
                            ),
                            ..c
                        },
                    ),
                },
                None => st,
            }
        } else {
            st
        }
    }
}

/// Reading lines in order from a state.
pub open spec fn load_from(st: LoadState, ls: Seq<Seq<char>>) -> LoadState
    decreases ls.len(),
{
    if ls.len() == 0 {
        st
    } else {
        load_step(load_from(st, ls.drop_last()), ls.last())
    }
}

/// Nothing read yet.
pub open spec fn load_init() -> LoadState {
    LoadState { done: Seq::empty(), current: None }
}

/// The cards read, the current one closed.
pub open spec fn finish(st: LoadState) -> Seq<CardView> {
    match st.current {
        Some(c) => st.done.push(c),
        None => st.done,
    }
}

/// The cards that the text of a history file holds.
pub open spec fn loaded(text: Seq<char>) -> Seq<CardView> {
    finish(load_from(load_init(), lines_spec(text)))
}

/// `str::as_bytes`: the UTF-8 bytes of a text.
fn text_bytes(s: &str) -> (res: Vec<u8>)
    ensures
        res@ == encode_utf8(s@),
{
    s.as_bytes_vec()
}

/// `String::from_utf8`: the text of UTF-8 bytes, or none when they are not valid UTF-8.
#[verifier::external_body]
fn utf8_string(bytes: Vec<u8>) -> (res: Option<String>)
    ensures
        match res {
            Some(s) => valid_utf8(bytes@) && s@ == decode_utf8(bytes@),
            None => !valid_utf8(bytes@),
        },
{
    String::from_utf8(bytes).ok()
}

/// How a text is kept in the file (`hex_of_text`).
pub fn encode_text(s: &str) -> (res: String)
    ensures
        res@ == hex_of_text(s@),
{
    let b = text_bytes(s);
    encode_lower(b.as_slice())
}

/// The text that hex spells (`text_of_hex`).
pub fn decode_text(s: &str) -> (res: String)
    ensures
        res@ == text_of_hex(s@),
{
    match hex_decode_bytes(s) {
        Some(b) => match utf8_string(b) {
            Some(t) => t,
            None => String::new(),
        },
        None => String::new(),
    }
}

proof fn lemma_join_push(ls: Seq<Seq<char>>, x: Seq<char>)
    ensures
        join_lines(ls.push(x)) == (if ls.len() == 0 {
            x
        } else {
            join_lines(ls).push('\n') + x
        }),
    decreases ls.len(),
{
    if ls.len() == 0 {
        assert(ls.push(x) =~= seq![x]);
    } else if ls.len() == 1 {
        assert(ls.push(x).drop_first() =~= seq![x]);
        assert(join_lines(seq![x]) == x);
        assert(ls.push(x)[0] == ls[0]);
    } else {
        assert(ls.push(x)[0] == ls[0]);
        assert(ls.push(x).drop_first() =~= ls.drop_first().push(x));
        lemma_join_push(ls.drop_first(), x);
        assert(ls[0].push('\n') + (join_lines(ls.drop_first()).push('\n') + x) =~= (ls[0].push('\n') + join_lines(
            ls.drop_first(),
        )).push('\n') + x);
    }
}

/// Lines joined by line feeds (`join_lines`).
fn join_lines_exec(lines: &Vec<String>) -> (res: String)
    ensures
        res@ == join_lines(strings_view(lines@)),
{
    let ghost lv = strings_view(lines@);
    let mut out = String::new();
    let mut i: usize = 0;
    while i < lines.len()
        invariant
            i <= lines@.len(),
            lv == strings_view(lines@),
            out@ == join_lines(lv.subrange(0, i as int)),
        decreases lines@.len() - i,
    {
        proof {
            lemma_join_push(lv.subrange(0, i as int), lv[i as int]);
            assert(lv.subrange(0, i as int).push(lv[i as int]) =~= lv.subrange(0, i + 1));
        }
        if i > 0 {
            crate::text::push_char(&mut out, '\n');
        }
        push_str(&mut out, lines[i].as_str());
        i = i + 1;
    }
    assert(lv.subrange(0, lines@.len() as int) =~= lv);
    out
}

fn card_line_exec(c: &SavedCard) -> (res: String)
    ensures
        res@ == card_line(card_view(*c)),
{
    let mut s = to_owned_string("card\t");
    let k = encode_text(c.key.as_str());
    push_str(&mut s, k.as_str());
    push_str(&mut s, "\t");
    let n = encode_text(c.name.as_str());
    push_str(&mut s, n.as_str());
    push_str(&mut s, "\t");
    let num = encode_text(c.number.as_str());
    push_str(&mut s, num.as_str());
    push_str(&mut s, "\t");
    let cur = encode_text(c.currency.as_str());
    push_str(&mut s, cur.as_str());
    assert(s@ =~= card_line(card_view(*c)));
    s
}

fn record_line_exec(r: &SavedRecord) -> (res: String)
    ensures
        res@ == record_line(record_view(*r)),
{
    let mut s = to_owned_string("record\t");
    push_decimal(&mut s, r.timestamp);
    push_str(&mut s, "\t");
    let t = encode_text(r.title.as_str());
    push_str(&mut s, t.as_str());
    push_str(&mut s, "\t");
    let joined = join_lines_exec(&r.lines);
    let l = encode_text(joined.as_str());
    push_str(&mut s, l.as_str());
    assert(s@ =~= record_line(record_view(*r)));
    s
}

fn push_card_block(out: &mut String, card: &SavedCard, Ghost(before): Ghost<Seq<Seq<char>>>)
    requires
        old(out)@ == unlines(before),
    ensures
        final(out)@ == unlines(before + card_block(card_view(*card))),
{
    let ghost c = card_view(*card);
    let line = card_line_exec(card);
    push_str(out, line.as_str());
    crate::text::push_char(out, '\n');
    proof {
        assert(before.push(line@).drop_last() =~= before);
        assert(out@ =~= unlines(before.push(line@)));
        assert(before + seq![card_line(c)] + Seq::new(0, |q: int| record_line(c.records[q])) =~= before.push(line@));
    }
    let mut j: usize = 0;
    while j < card.records.len()
        invariant
            j <= card.records@.len(),
            c == card_view(*card),
            out@ == unlines(before + seq![card_line(c)] + Seq::new(j as nat, |q: int| record_line(c.records[q]))),
        decreases card.records@.len() - j,
    {
        let ghost prev = before + seq![card_line(c)] + Seq::new(j as nat, |q: int| record_line(c.records[q]));
        let rl = record_line_exec(&card.records[j]);
        push_str(out, rl.as_str());
        crate::text::push_char(out, '\n');
        proof {
            let next = before + seq![card_line(c)] + Seq::new((j + 1) as nat, |q: int| record_line(c.records[q]));
            assert(next =~= prev.push(rl@));
            assert(next.drop_last() =~= prev);
            assert(out@ =~= unlines(next));
        }
        j = j + 1;
    }
    assert(before + seq![card_line(c)] + Seq::new(card.records@.len(), |q: int| record_line(c.records[q])) =~= before
        + card_block(c));
}

/// The text of a history file (`history_text_spec`).
pub fn history_text(cards: &Vec<SavedCard>) -> (res: String)
    ensures
        res@ == history_text_spec(cards_view(cards@)),
{
    let ghost cv = cards_view(cards@);
    let mut out = to_owned_string("tarot-tui-history-v1");
    crate::text::push_char(&mut out, '\n');
    proof {
        let h = seq![history_header()];
        assert(h.drop_last() =~= Seq::<Seq<char>>::empty());
        assert(h.last() == history_header());
        assert(unlines(Seq::<Seq<char>>::empty()) == Seq::<char>::empty());
        assert(out@ =~= unlines(h));
        assert(cv.subrange(0, 0) =~= Seq::<CardView>::empty());
        assert(h + blocks(Seq::<CardView>::empty()) =~= h);
    }
    let mut i: usize = 0;
    while i < cards.len()
        invariant
            i <= cards@.len(),
            cv == cards_view(cards@),
            out@ == unlines(seq![history_header()] + blocks(cv.subrange(0, i as int))),
        decreases cards@.len() - i,
    {
        let ghost before = seq![history_header()] + blocks(cv.subrange(0, i as int));
        push_card_block(&mut out, &cards[i], Ghost(before));
        proof {
            let sub = cv.subrange(0, i + 1);
            assert(sub.drop_last() =~= cv.subrange(0, i as int));
            assert(sub.last() == card_view(cards@[i as int]));
            assert(before + card_block(card_view(cards@[i as int])) =~= seq![history_header()] + blocks(sub));
        }
        i = i + 1;
    }
    assert(cv.subrange(0, cards@.len() as int) =~= cv);
    out
}

/// The state of reading as plain values.
pub open spec fn state_view(done: Seq<SavedCard>, current: Option<SavedCard>) -> LoadState {
    LoadState {
        done: cards_view(done),
        current: match current {
            Some(c) => Some(card_view(c)),
            None => None,
        },
    }
}

fn load_line(done: &mut Vec<SavedCard>, current: &mut Option<SavedCard>, line: &str)
    ensures
        state_view(final(done)@, *final(current)) == load_step(state_view(old(done)@, *old(current)), line@),
{
    proof {
        reveal(load_step);
    }
    if str_eq(line, "tarot-tui-history-v1") || trim(line).unicode_len() == 0 {
        return;
    }
    let parts = split_char(line, '\t');
    let ghost pv = split_spec(line@, '\t');
    assert(strings_view(parts@) == pv);
    if parts.len() == 5 && str_eq(parts[0].as_str(), "card") {
        assert(parts@[0]@ == pv[0]);
        let mut cur: Option<SavedCard> = None;
        std::mem::swap(&mut cur, current);
        if let Some(c) = cur {
            let ghost before = cards_view(done@);
            done.push(c);
            assert(cards_view(done@) =~= before.push(card_view(c)));
        }
        let card = SavedCard {
            key: decode_text(parts[1].as_str()),
            name: decode_text(parts[2].as_str()),
            number: decode_text(parts[3].as_str()),
            currency: decode_text(parts[4].as_str()),
            records: Vec::new(),
        };
        assert(card_view(card).records =~= Seq::<RecordView>::empty());
        *current = Some(card);
    } else if parts.len() == 4 && str_eq(parts[0].as_str(), "record") {
        assert(parts@[0]@ == pv[0]);
        let mut cur: Option<SavedCard> = None;
        std::mem::swap(&mut cur, current);
        match cur {
            Some(mut c) => {
                let ghost cv0 = card_view(c);
                let stamp = match parse_u64(parts[1].as_str()) {
                    Some(v) => v,
                    None => 0,
                };
                let title = decode_text(parts[2].as_str());
                let body = decode_text(parts[3].as_str());
                let ls = lines(body.as_str());
                let rec = SavedRecord { timestamp: stamp, title, lines: ls };
                c.records.push(rec);
                assert(card_view(c).records =~= cv0.records.push(record_view(rec)));
                *current = Some(c);
            },
            None => {},
        }
    }
}

/// Reads the text of a history file (`loaded`).
pub fn parse_history(text: &str) -> (res: Vec<SavedCard>)
    ensures
        cards_view(res@) == loaded(text@),
{
    let ls = lines(text);
    let ghost lv = strings_view(ls@);
    let mut done: Vec<SavedCard> = Vec::new();
    let mut current: Option<SavedCard> = None;
    assert(cards_view(done@) =~= Seq::<CardView>::empty());
    assert(lv.subrange(0, 0) =~= Seq::<Seq<char>>::empty());
    assert(state_view(done@, current) == load_from(load_init(), lv.subrange(0, 0)));
    let mut i: usize = 0;
    while i < ls.len()
        invariant
            i <= ls@.len(),
            lv == strings_view(ls@),
            state_view(done@, current) == load_from(load_init(), lv.subrange(0, i as int)),
        decreases ls@.len() - i,
    {
        let ghost pre = lv.subrange(0, i + 1);
        assert(pre.drop_last() =~= lv.subrange(0, i as int));
        assert(pre.last() == ls@[i as int]@);
        load_line(&mut done, &mut current, ls[i].as_str());
        i = i + 1;
    }
    assert(lv.subrange(0, ls@.len() as int) =~= lv);
    if let Some(c) = current {
        let ghost before = cards_view(done@);
        done.push(c);
        assert(cards_view(done@) =~= before.push(card_view(c)));
    }
    done
}

/// A text without line feeds, carriage returns or tabs.
pub open spec fn plain_chars(s: Seq<char>) -> bool {
    forall|j: int| 0 <= j < s.len() ==> s[j] != '\n' && s[j] != '\r' && s[j] != '\t'
}

/// Lines that survive being joined by line feeds and split again: none holds a line feed,
/// none but the last ends with a carriage return, and the last is not empty.
pub open spec fn lines_keepable(ls: Seq<Seq<char>>) -> bool {
    &&& forall|i: int, j: int| 0 <= i < ls.len() && 0 <= j < ls[i].len() ==> ls[i][j] != '\n'
    &&& forall|i: int| 0 <= i < ls.len() - 1 ==> strip_cr(#[trigger] ls[i]) == ls[i]
    &&& ls.len() > 0 ==> ls.last().len() > 0
}

/// Every record of the cards has keepable lines.
pub open spec fn history_keepable(cs: Seq<CardView>) -> bool {
    forall|i: int, j: int| 0 <= i < cs.len() && 0 <= j < cs[i].records.len() ==> lines_keepable(
        #[trigger] cs[i].records[j].lines,
    )
}

proof fn lemma_text_hex_roundtrip(s: Seq<char>)
    ensures
        text_of_hex(hex_of_text(s)) == s,
        plain_chars(hex_of_text(s)),
{
    lemma_hex_decode_encode_lower(encode_utf8(s));
    vstd::utf8::encode_utf8_valid_utf8(s);
    vstd::utf8::encode_utf8_decode_utf8(s);
    crate::hexfmt::lemma_hex_lower_chars(encode_utf8(s));
}

proof fn lemma_unlines_front(x: Seq<char>, rest: Seq<Seq<char>>)
    ensures
        unlines(seq![x] + rest) == x.push('\n') + unlines(rest),
    decreases rest.len(),
{
    assert(unlines(Seq::<Seq<char>>::empty()) == Seq::<char>::empty());
    if rest.len() == 0 {
        assert(seq![x] + rest =~= seq![x]);
        assert(seq![x].drop_last() =~= Seq::<Seq<char>>::empty());
        assert(seq![x].last() == x);
        assert(x.push('\n') + Seq::<char>::empty() =~= x.push('\n'));
    } else {
        assert((seq![x] + rest).drop_last() =~= seq![x] + rest.drop_last());
        assert((seq![x] + rest).last() == rest.last());
        lemma_unlines_front(x, rest.drop_last());
        assert(x.push('\n') + unlines(rest.drop_last()) + rest.last().push('\n') =~= x.push('\n') + (unlines(
            rest.drop_last(),
        ) + rest.last().push('\n')));
    }
}

proof fn lemma_split_unlines(ls: Seq<Seq<char>>)
    requires
        forall|i: int, j: int| 0 <= i < ls.len() && 0 <= j < ls[i].len() ==> ls[i][j] != '\n',
    ensures
        split_spec(unlines(ls), '\n') == ls.push(Seq::<char>::empty()),
    decreases ls.len(),
{
    if ls.len() == 0 {
        assert(split_spec(Seq::<char>::empty(), '\n') == seq![Seq::<char>::empty()]);
        assert(ls.push(Seq::<char>::empty()) =~= seq![Seq::<char>::empty()]);
    } else {
        let rest = ls.drop_first();
        assert(ls =~= seq![ls[0]] + rest);
        lemma_unlines_front(ls[0], rest);
        assert forall|i: int, j: int| 0 <= i < rest.len() && 0 <= j < rest[i].len() implies rest[i][j] != '\n' by {
            assert(rest[i] == ls[i + 1]);
        }
        lemma_split_unlines(rest);
        assert(forall|j: int| 0 <= j < ls[0].len() ==> ls[0][j] != '\n');
        lemma_split_head(ls[0], '\n', unlines(rest));
        assert(seq![ls[0]] + rest.push(Seq::<char>::empty()) =~= ls.push(Seq::<char>::empty()));
    }
}

/// The lines of lines each ended by a line feed are the lines themselves, when none holds a
/// line feed or ends with a carriage return.
proof fn lemma_lines_of_unlines(ls: Seq<Seq<char>>)
    requires
        forall|i: int, j: int| 0 <= i < ls.len() && 0 <= j < ls[i].len() ==> ls[i][j] != '\n',
        forall|i: int| 0 <= i < ls.len() ==> strip_cr(#[trigger] ls[i]) == ls[i],
    ensures
        lines_spec(unlines(ls)) == ls,
{
    reveal(lines_spec);
    lemma_split_unlines(ls);
    let p = ls.push(Seq::<char>::empty());
    assert(p.drop_last() =~= ls);
    let ended = Seq::new(ls.len(), |i: int| strip_cr(ls[i]));
    assert(ended =~= ls);
}

proof fn lemma_split_join(ls: Seq<Seq<char>>)
    requires
        ls.len() > 0,
        forall|i: int, j: int| 0 <= i < ls.len() && 0 <= j < ls[i].len() ==> ls[i][j] != '\n',
    ensures
        split_spec(join_lines(ls), '\n') == ls,
    decreases ls.len(),
{
    if ls.len() == 1 {
        assert(forall|j: int| 0 <= j < ls[0].len() ==> ls[0][j] != '\n');
        crate::text::lemma_split_no_sep(ls[0], '\n');
        assert(ls =~= seq![ls[0]]);
    } else {
        let rest = ls.drop_first();
        assert forall|i: int, j: int| 0 <= i < rest.len() && 0 <= j < rest[i].len() implies rest[i][j] != '\n' by {
            assert(rest[i] == ls[i + 1]);
        }
        lemma_split_join(rest);
        assert(forall|j: int| 0 <= j < ls[0].len() ==> ls[0][j] != '\n');
        lemma_split_head(ls[0], '\n', join_lines(rest));
        assert(seq![ls[0]] + rest =~= ls);
    }
}

/// Keepable lines, joined by line feeds, split back into themselves.
proof fn lemma_lines_of_join(ls: Seq<Seq<char>>)
    requires
        lines_keepable(ls),
    ensures
        lines_spec(join_lines(ls)) == ls,
{
    reveal(lines_spec);
    if ls.len() == 0 {
        assert(split_spec(Seq::<char>::empty(), '\n') == seq![Seq::<char>::empty()]);
        assert(lines_spec(join_lines(ls)) =~= ls);
    } else {
        lemma_split_join(ls);
        let body = ls.drop_last();
        let ended = Seq::new(body.len(), |i: int| strip_cr(body[i]));
        assert(ended =~= body);
        assert(body.push(ls.last()) =~= ls);
    }
}

proof fn lemma_trail_ws_lt(s: Seq<char>)
    requires
        s.len() > 0,
        !is_ws(s[0]),
    ensures
        trail_ws(s) < s.len(),
    decreases s.len(),
{
    if s.len() > 1 && is_ws(s.last()) {
        assert(s.drop_last()[0] == s[0]);
        lemma_trail_ws_lt(s.drop_last());
    }
}

/// A line starting with a letter is not blank.
proof fn lemma_not_blank(s: Seq<char>)
    requires
        s.len() > 0,
        !is_ws(s[0]),
    ensures
        trim_spec(s).len() > 0,
{
    assert(lead_ws(s) == 0);
    assert(s.subrange(0, s.len() as int) =~= s);
    lemma_trail_ws_lt(s);
}

/// The parts of a line made of a first piece and four more, separated by tabs.
proof fn lemma_split_tabs(a: Seq<Seq<char>>)
    requires
        a.len() >= 1,
        forall|i: int| 0 <= i < a.len() ==> plain_chars(#[trigger] a[i]),
    ensures
        split_spec(join_tabs(a), '\t') == a,
    decreases a.len(),
{
    if a.len() == 1 {
        crate::text::lemma_split_no_sep(a[0], '\t');
        assert(a =~= seq![a[0]]);
    } else {
        let rest = a.drop_first();
        assert forall|i: int| 0 <= i < rest.len() implies plain_chars(#[trigger] rest[i]) by {
            assert(rest[i] == a[i + 1]);
        }
        lemma_split_tabs(rest);
        assert(plain_chars(a[0]));
        lemma_split_head(a[0], '\t', join_tabs(rest));
        assert(seq![a[0]] + rest =~= a);
    }
}

/// Pieces joined by tabs.
pub open spec fn join_tabs(a: Seq<Seq<char>>) -> Seq<char>
    decreases a.len(),
{
    if a.len() <= 1 {
        if a.len() == 1 {
            a[0]
        } else {
            Seq::empty()
        }
    } else {
        a[0].push('\t') + join_tabs(a.drop_first())
    }
}

proof fn lemma_join_tabs_plain(a: Seq<Seq<char>>)
    requires
        a.len() >= 1,
        forall|i: int| 0 <= i < a.len() ==> plain_chars(#[trigger] a[i]),
    ensures
        forall|j: int| 0 <= j < join_tabs(a).len() ==> join_tabs(a)[j] != '\n' && join_tabs(a)[j] != '\r',
        join_tabs(a).len() > 0 ==> join_tabs(a).last() != '\r',
    decreases a.len(),
{
    if a.len() > 1 {
        let rest = a.drop_first();
        assert forall|i: int| 0 <= i < rest.len() implies plain_chars(#[trigger] rest[i]) by {
            assert(rest[i] == a[i + 1]);
        }
        lemma_join_tabs_plain(rest);
        assert(plain_chars(a[0]));
        let t = join_tabs(a);
        assert forall|j: int| 0 <= j < t.len() implies t[j] != '\n' && t[j] != '\r' by {
            if j >= a[0].len() + 1 {
                assert(t[j] == join_tabs(rest)[j - a[0].len() - 1]);
            }
        }
    } else {
        assert(plain_chars(a[0]));
    }
}

/// The fields of the line of a card.
pub open spec fn card_fields(c: CardView) -> Seq<Seq<char>> {
    seq!["card"@, hex_of_text(c.key), hex_of_text(c.name), hex_of_text(c.number), hex_of_text(c.currency)]
}

/// The fields of the line of a record.
pub open spec fn record_fields(r: RecordView) -> Seq<Seq<char>> {
    seq!["record"@, dec_digits(r.timestamp as nat), hex_of_text(r.title), hex_of_text(join_lines(r.lines))]
}

proof fn lemma_card_line(c: CardView)
    ensures
        card_line(c) == join_tabs(card_fields(c)),
        split_spec(card_line(c), '\t') == card_fields(c),
        forall|j: int| 0 <= j < card_line(c).len() ==> card_line(c)[j] != '\n',
        strip_cr(card_line(c)) == card_line(c),
        card_line(c) != history_header(),
        trim_spec(card_line(c)).len() > 0,
{
    reveal_strlit("card");
    reveal_strlit("card\t");
    reveal_strlit("\t");
    reveal_strlit("tarot-tui-history-v1");
    let f = card_fields(c);
    lemma_text_hex_roundtrip(c.key);
    lemma_text_hex_roundtrip(c.name);
    lemma_text_hex_roundtrip(c.number);
    lemma_text_hex_roundtrip(c.currency);
    assert(plain_chars("card"@));
    assert forall|i: int| 0 <= i < f.len() implies plain_chars(#[trigger] f[i]) by {}
    let f4 = seq![f[4]];
    let f3 = seq![f[3], f[4]];
    let f2 = seq![f[2], f[3], f[4]];
    let f1 = seq![f[1], f[2], f[3], f[4]];
    assert(f3.drop_first() =~= f4);
    assert(f2.drop_first() =~= f3);
    assert(f1.drop_first() =~= f2);
    assert(f.drop_first() =~= f1);
    assert(join_tabs(f4) == f[4]);
    assert(join_tabs(f3) == f[3].push('\t') + join_tabs(f4));
    assert(join_tabs(f2) == f[2].push('\t') + join_tabs(f3));
    assert(join_tabs(f1) == f[1].push('\t') + join_tabs(f2));
    assert(join_tabs(f) == f[0].push('\t') + join_tabs(f1));
    assert(card_line(c) =~= join_tabs(f));
    lemma_split_tabs(f);
    lemma_join_tabs_plain(f);
    assert(card_line(c)[0] == 'c');
    lemma_not_blank(card_line(c));
    assert(history_header()[0] == 't');
}

proof fn lemma_record_line(r: RecordView)
    ensures
        record_line(r) == join_tabs(record_fields(r)),
        split_spec(record_line(r), '\t') == record_fields(r),
        forall|j: int| 0 <= j < record_line(r).len() ==> record_line(r)[j] != '\n',
        strip_cr(record_line(r)) == record_line(r),
        record_line(r) != history_header(),
        trim_spec(record_line(r)).len() > 0,
{
    reveal_strlit("record");
    reveal_strlit("record\t");
    reveal_strlit("\t");
    reveal_strlit("tarot-tui-history-v1");
    let f = record_fields(r);
    lemma_text_hex_roundtrip(r.title);
    lemma_text_hex_roundtrip(join_lines(r.lines));
    crate::text::lemma_dec_digits_parse(r.timestamp);
    let d = dec_digits(r.timestamp as nat);
    assert forall|j: int| 0 <= j < d.len() implies d[j] != '\n' && d[j] != '\r' && d[j] != '\t' by {
        assert(crate::text::is_digit(d[j]));
    }
    assert(plain_chars("record"@));
    assert forall|i: int| 0 <= i < f.len() implies plain_chars(#[trigger] f[i]) by {}
    let f3 = seq![f[3]];
    let f2 = seq![f[2], f[3]];
    let f1 = seq![f[1], f[2], f[3]];
    assert(f2.drop_first() =~= f3);
    assert(f1.drop_first() =~= f2);
    assert(f.drop_first() =~= f1);
    assert(join_tabs(f3) == f[3]);
    assert(join_tabs(f2) == f[2].push('\t') + join_tabs(f3));
    assert(join_tabs(f1) == f[1].push('\t') + join_tabs(f2));
    assert(join_tabs(f) == f[0].push('\t') + join_tabs(f1));
    assert(record_line(r) =~= join_tabs(f));
    lemma_split_tabs(f);
    lemma_join_tabs_plain(f);
    assert(record_line(r)[0] == 'r');
    lemma_not_blank(record_line(r));
    assert(history_header()[0] == 't');
}

proof fn lemma_load_append(st: LoadState, a: Seq<Seq<char>>, b: Seq<Seq<char>>)
    ensures
        load_from(st, a + b) == load_from(load_from(st, a), b),
    decreases b.len(),
{
    if b.len() == 0 {
        assert(a + b =~= a);
    } else {
        assert((a + b).drop_last() =~= a + b.drop_last());
        assert((a + b).last() == b.last());
        lemma_load_append(st, a, b.drop_last());
    }
}

/// The state after a card's line and its first `k` records.
pub open spec fn after_records(done: Seq<CardView>, c: CardView, k: int) -> LoadState {
    LoadState { done, current: Some(CardView { records: c.records.subrange(0, k), ..c }) }
}

proof fn lemma_load_records(done: Seq<CardView>, c: CardView, k: int)
    requires
        0 <= k <= c.records.len(),
        forall|j: int| 0 <= j < c.records.len() ==> lines_keepable(#[trigger] c.records[j].lines),
    ensures
        load_from(after_records(done, c, 0), Seq::new(k as nat, |q: int| record_line(c.records[q])))
            == after_records(done, c, k),
    decreases k,
{
    let ls = Seq::new(k as nat, |q: int| record_line(c.records[q]));
    if k == 0 {
        assert(ls.len() == 0);
    } else {
        let prev = Seq::new((k - 1) as nat, |q: int| record_line(c.records[q]));
        assert(ls.drop_last() =~= prev);
        lemma_load_records(done, c, k - 1);
        let r = c.records[k - 1];
        reveal(load_step);
        lemma_record_line(r);
        crate::text::lemma_dec_digits_parse(r.timestamp);
        lemma_text_hex_roundtrip(r.title);
        lemma_text_hex_roundtrip(join_lines(r.lines));
        lemma_lines_of_join(r.lines);
        reveal_strlit("record");
        reveal_strlit("card");
        let line = record_line(r);
        assert(ls.last() == line);
        let parts = split_spec(line, '\t');
        assert(parts == record_fields(r));
        assert(parts.len() == 4);
        assert(parts[0] == "record"@);
        assert(c.records.subrange(0, k - 1).push(r) =~= c.records.subrange(0, k));
    }
}

proof fn lemma_load_block(st: LoadState, c: CardView)
    requires
        forall|j: int| 0 <= j < c.records.len() ==> lines_keepable(#[trigger] c.records[j].lines),
    ensures
        load_from(st, card_block(c)) == (LoadState {
            done: match st.current {
                Some(x) => st.done.push(x),
                None => st.done,
            },
            current: Some(c),
        }),
{
    let done = match st.current {
        Some(x) => st.done.push(x),
        None => st.done,
    };
    let recs = Seq::new(c.records.len(), |q: int| record_line(c.records[q]));
    assert(card_block(c) == seq![card_line(c)] + recs);
    lemma_load_append(st, seq![card_line(c)], recs);
    lemma_card_line(c);
    lemma_text_hex_roundtrip(c.key);
    lemma_text_hex_roundtrip(c.name);
    lemma_text_hex_roundtrip(c.number);
    lemma_text_hex_roundtrip(c.currency);
    reveal_strlit("card");
    reveal(load_step);
    assert(seq![card_line(c)].drop_last() =~= Seq::<Seq<char>>::empty());
    assert(seq![card_line(c)].last() == card_line(c));
    assert(load_from(st, Seq::<Seq<char>>::empty()) == st);
    assert(load_from(st, seq![card_line(c)]) == load_step(st, card_line(c)));
    assert(c.records.subrange(0, 0) =~= Seq::<RecordView>::empty());
    assert(load_step(st, card_line(c)) == after_records(done, c, 0));
    lemma_load_records(done, c, c.records.len() as int);
    assert(c.records.subrange(0, c.records.len() as int) =~= c.records);
}

/// The state after the header and the lines of the cards: the cards but the last done, the
/// last one current.
pub open spec fn after_cards(cs: Seq<CardView>) -> LoadState {
    if cs.len() == 0 {
        load_init()
    } else {
        LoadState { done: cs.drop_last(), current: Some(cs.last()) }
    }
}

proof fn lemma_load_header()
    ensures
        load_from(load_init(), seq![history_header()]) == load_init(),
{
    reveal_strlit("tarot-tui-history-v1");
    reveal(load_step);
    assert(seq![history_header()].drop_last() =~= Seq::<Seq<char>>::empty());
    assert(seq![history_header()].last() == history_header());
    assert(load_from(load_init(), Seq::<Seq<char>>::empty()) == load_init());
    assert(load_step(load_init(), history_header()) == load_init());
}

proof fn lemma_load_blocks(cs: Seq<CardView>)
    requires
        history_keepable(cs),
    ensures
        load_from(load_init(), file_lines(cs)) == after_cards(cs),
    decreases cs.len(),
{
    if cs.len() == 0 {
        assert(blocks(cs) == Seq::<Seq<char>>::empty());
        assert(file_lines(cs) =~= seq![history_header()]);
        lemma_load_header();
    } else {
        let prev = cs.drop_last();
        assert forall|i: int, j: int| 0 <= i < prev.len() && 0 <= j < prev[i].records.len() implies lines_keepable(
            #[trigger] prev[i].records[j].lines,
        ) by {
            assert(prev[i] == cs[i]);
        }
        lemma_load_blocks(prev);
        assert(file_lines(cs) =~= file_lines(prev) + card_block(cs.last()));
        lemma_load_append(load_init(), file_lines(prev), card_block(cs.last()));
        let c = cs.last();
        assert forall|j: int| 0 <= j < c.records.len() implies lines_keepable(#[trigger] c.records[j].lines) by {
            assert(cs[cs.len() - 1] == c);
        }
        lemma_load_block(after_cards(prev), c);
        if prev.len() > 0 {
            assert(prev.drop_last().push(prev.last()) =~= prev);
        } else {
            assert(prev =~= Seq::<CardView>::empty());
        }
        assert(load_from(after_cards(prev), card_block(c)) == (LoadState { done: prev, current: Some(c) }));
        assert(after_cards(cs) == (LoadState { done: prev, current: Some(c) }));
    }
}

/// A line without line feeds that does not end with a carriage return.
pub open spec fn line_plain(l: Seq<char>) -> bool {
    (forall|j: int| 0 <= j < l.len() ==> l[j] != '\n') && strip_cr(l) == l
}

/// All the lines of a history file hold no line feed and end without a carriage return.
proof fn lemma_file_lines_plain(cs: Seq<CardView>)
    ensures
        forall|i: int, j: int| 0 <= i < file_lines(cs).len() && 0 <= j < file_lines(cs)[i].len() ==> file_lines(
            cs,
        )[i][j] != '\n',
        forall|i: int| 0 <= i < file_lines(cs).len() ==> strip_cr(#[trigger] file_lines(cs)[i]) == file_lines(cs)[i],
    decreases cs.len(),
{
    reveal_strlit("tarot-tui-history-v1");
    if cs.len() > 0 {
        let prev = cs.drop_last();
        lemma_file_lines_plain(prev);
        let c = cs.last();
        let b = card_block(c);
        lemma_card_line(c);
        assert forall|q: int| 0 <= q < c.records.len() implies line_plain(record_line(#[trigger] c.records[q])) by {
            lemma_record_line(c.records[q]);
        }
        assert(file_lines(cs) =~= file_lines(prev) + b);
        let f = file_lines(cs);
        let fp = file_lines(prev);
        assert forall|i: int| 0 <= i < f.len() implies strip_cr(#[trigger] f[i]) == f[i] by {
            if i < fp.len() {
                assert(f[i] == fp[i]);
            } else if i > fp.len() {
                assert(f[i] == record_line(c.records[i - fp.len() - 1]));
                assert(line_plain(record_line(c.records[i - fp.len() - 1])));
            }
        }
        assert forall|i: int, j: int| 0 <= i < f.len() && 0 <= j < f[i].len() implies f[i][j] != '\n' by {
            if i < fp.len() {
                assert(f[i] == fp[i]);
            } else if i > fp.len() {
                assert(f[i] == record_line(c.records[i - fp.len() - 1]));
                assert(line_plain(record_line(c.records[i - fp.len() - 1])));
            }
        }
    }
}

/// Reading back the text of a history gives the same cards, when every record's lines survive
/// being joined by line feeds (`history_keepable`).
pub proof fn law_history_roundtrip(cs: Seq<CardView>)
    requires
        history_keepable(cs),
    ensures
        loaded(history_text_spec(cs)) == cs,
{
    lemma_file_lines_plain(cs);
    lemma_lines_of_unlines(file_lines(cs));
    lemma_load_blocks(cs);
    if cs.len() > 0 {
        assert(cs.drop_last().push(cs.last()) =~= cs);
    }
}

/// A read of a card saved at `now`, as plain values (what `snapshot` gives).
pub open spec fn snapshot_view(card: ParsedCard, now: u64) -> CardView {
    let num = number_or_empty(card.number);
    CardView {
        key: saved_key(card.name@, num),
        name: card.name@,
        number: num,
        currency: card.currency@,
        records: seq![
            RecordView {
                timestamp: now,
                title: title_spec(card.transactions@.len()),
                lines: record_lines_spec(card),
            },
        ],
    }
}

/// The lines of each record of a card.
pub open spec fn view_lines(c: CardView) -> Seq<Seq<Seq<char>>> {
    Seq::new(c.records.len(), |i: int| c.records[i].lines)
}

/// A card after appending lines at `now`, as plain values (what `append_transaction_lines`
/// gives).
pub open spec fn appended_view(c: CardView, new: Seq<Seq<char>>, now: u64) -> CardView {
    let ls = appended_lines(view_lines(c), new);
    CardView { records: seq![RecordView { timestamp: now, title: title_spec(count_tx(ls)), lines: ls }], ..c }
}

/// The records' lines of a saved card are those of its plain values.
pub proof fn lemma_view_lines(c: SavedCard)
    ensures
        records_lines(c.records@) == view_lines(card_view(c)),
{
    assert(records_lines(c.records@) =~= view_lines(card_view(c)));
}

/// `snapshot` as plain values.
pub proof fn lemma_snapshot_view(card: ParsedCard, now: u64, res: SavedCard)
    requires
        res.key@ == saved_key(card.name@, number_or_empty(card.number)),
        res.name@ == card.name@,
        res.number@ == number_or_empty(card.number),
        res.currency@ == card.currency@,
        res.records@.len() == 1,
        res.records@[0].timestamp == now,
        res.records@[0].title@ == title_spec(card.transactions@.len()),
        record_lines_view(res.records@[0]) == record_lines_spec(card),
    ensures
        card_view(res) == snapshot_view(card, now),
{
    assert(card_view(res).records =~= snapshot_view(card, now).records);
}

/// `appended_card` as plain values.
pub proof fn lemma_appended_view(prior: SavedCard, new: Seq<Seq<char>>, now: u64, res: SavedCard)
    requires
        appended_card(prior, new, now, res),
    ensures
        card_view(res) == appended_view(card_view(prior), new, now),
{
    lemma_view_lines(prior);
    assert(card_view(res).records =~= appended_view(card_view(prior), new, now).records);
}

} // verus!
