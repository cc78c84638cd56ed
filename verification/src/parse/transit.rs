//! PBOC transit-card decoding (Shenzhen Tong, Wuhan Tong, Lingnan Pass, City Union, T-Union,
//! Macau Pass, Beijing BMAC). Offsets are positions in the hexadecimal text of a field, as the
//! card documentation gives them.
use vstd::prelude::*;
use crate::model::{RawCardData, lookup};
use crate::text::{split_once_char, split_once_spec, concat2, dec_digits, push_char, push_str, str_eq, strings_view, to_owned_string};
use super::model::{ParsedCard, Transaction, Trip};
use super::util::{be_uint, be_uint_spec, fmt_date8, fmt_date8_spec, fmt_time6, fmt_time6_spec, fmt_timestamp14, fmt_timestamp14_spec, hex_bytes, hex_slice, hex_slice_spec, hex_to_bytes, pboc_balance_cents, pboc_balance_spec, trim_leading_zeros, trim_zeros_spec, two_digits};
use crate::text::{all_digits, is_digit};

verus! {

/// The characters `start..min(end, len)` of a text; empty when `start` is past the end.
pub open spec fn slice_spec(s: Seq<char>, start: int, end: int) -> Seq<char> {
    if start >= s.len() {
        Seq::empty()
    } else {
        s.subrange(start, if end < s.len() { end } else { s.len() as int })
    }
}

/// Cuts a hexadecimal text by character positions, safely at the end.
pub fn slice(hex: &str, start: usize, end: usize) -> (res: &str)
    requires
        start < hex@.len() ==> start <= end,
    ensures
        res@ == slice_spec(hex@, start as int, end as int),
{
    let n = hex.unicode_len();
    if start >= n {
        return hex.substring_char(0, 0);
    }
    let e = if end < n { end } else { n };
    hex.substring_char(start, e)
}

/// The readable name of a transit sub-card.
pub open spec fn display_name_spec(name: Seq<char>) -> Seq<char> {
    if name == "ShenzhenTong"@ {
        "深圳通"@
    } else if name == "WuhanTong"@ {
        "武汉通"@
    } else if name == "LingnanPass"@ {
        "岭南通"@
    } else if name == "CityUnion"@ {
        "城市一卡通"@
    } else if name == "TUnion"@ {
        "交通联合"@
    } else if name == "MacauPass"@ {
        "澳门通"@
    } else if name == "BMAC"@ {
        "北京一卡通"@
    } else if name == "TMoney"@ {
        "T-Money"@
    } else {
        "交通卡"@
    }
}

/// The readable name of a transit sub-card.
pub fn display_name(name: &str) -> (res: &'static str)
    ensures
        res@ == display_name_spec(name@),
{
    if str_eq(name, "ShenzhenTong") {
        "深圳通"
    } else if str_eq(name, "WuhanTong") {
        "武汉通"
    } else if str_eq(name, "LingnanPass") {
        "岭南通"
    } else if str_eq(name, "CityUnion") {
        "城市一卡通"
    } else if str_eq(name, "TUnion") {
        "交通联合"
    } else if str_eq(name, "MacauPass") {
        "澳门通"
    } else if str_eq(name, "BMAC") {
        "北京一卡通"
    } else if str_eq(name, "TMoney") {
        "T-Money"
    } else {
        "交通卡"
    }
}

/// The kind of a trip record: `02`/`06` single, `03` entry, `04` exit.
pub open spec fn trip_kind_spec(code: Seq<char>) -> Seq<char> {
    if code == "02"@ || code == "06"@ {
        "单次"@
    } else if code == "03"@ {
        "进站"@
    } else if code == "04"@ {
        "出站"@
    } else {
        "其他"@
    }
}

/// The readable kind of a trip record.
pub fn trip_kind(code: &str) -> (res: &'static str)
    ensures
        res@ == trip_kind_spec(code@),
{
    if str_eq(code, "02") || str_eq(code, "06") {
        "单次"
    } else if str_eq(code, "03") {
        "进站"
    } else if str_eq(code, "04") {
        "出站"
    } else {
        "其他"
    }
}

/// The auxiliary type of a trip: `01` metro, `02` bus.
pub open spec fn trip_aux_spec(code: Seq<char>) -> Seq<char> {
    if code == "01"@ {
        "地铁"@
    } else if code == "02"@ {
        "公交"@
    } else {
        "其他"@
    }
}

/// The readable auxiliary type of a trip.
pub fn trip_aux(code: &str) -> (res: &'static str)
    ensures
        res@ == trip_aux_spec(code@),
{
    if str_eq(code, "01") {
        "地铁"
    } else if str_eq(code, "02") {
        "公交"
    } else {
        "其他"
    }
}

/// The kind of a transaction type code: `06` purchase, `02` load, `09` compound purchase.
pub open spec fn tti_name_spec(tti: Seq<char>) -> Seq<char> {
    if tti == "06"@ {
        "消费"@
    } else if tti == "02"@ {
        "圈存(充值)"@
    } else if tti == "09"@ {
        "复合消费"@
    } else {
        "其他"@
    }
}

/// The readable kind of a transaction type code.
pub fn tti_name(tti: &str) -> (res: &'static str)
    ensures
        res@ == tti_name_spec(tti@),
{
    if str_eq(tti, "06") {
        "消费"
    } else if str_eq(tti, "02") {
        "圈存(充值)"
    } else if str_eq(tti, "09") {
        "复合消费"
    } else {
        "其他"
    }
}

/// `MMDD` BCD as `MM-DD` (Lingnan Pass records carry no year), from the first 4 characters;
/// empty when they are missing, not digits, or out of range.
pub open spec fn fmt_month_day4_spec(s: Seq<char>) -> Seq<char> {
    if s.len() < 4 || !all_digits(s.subrange(0, 4)) {
        Seq::empty()
    } else {
        let d = s.subrange(0, 4);
        if !(1 <= two_digits(d, 0) <= 12) || !(1 <= two_digits(d, 2) <= 31) {
            Seq::empty()
        } else {
            d.subrange(0, 2) + seq!['-'] + d.subrange(2, 4)
        }
    }
}

/// Formats a BCD `MMDD` as `MM-DD`.
pub fn fmt_month_day4(hex4: &str) -> (res: String)
    ensures
        res@ == fmt_month_day4_spec(hex4@),
{
    let n = hex4.unicode_len();
    if n < 4 {
        return String::new();
    }
    let d = hex4.substring_char(0, 4);
    let mut i: usize = 0;
    while i < 4
        invariant
            d@.len() == 4,
            hex4@.len() >= 4,
            d@ == hex4@.subrange(0, 4),
            i <= 4,
            forall|j: int| 0 <= j < i ==> is_digit(#[trigger] d@[j]),
        decreases 4 - i,
    {
        let c = d.get_char(i);
        if !('0' <= c && c <= '9') {
            assert(!is_digit(d@[i as int]));
            assert(!all_digits(hex4@.subrange(0, 4)));
            return String::new();
        }
        i = i + 1;
    }
    let month = (d.get_char(0) as u32 - 48) * 10 + (d.get_char(1) as u32 - 48);
    let day = (d.get_char(2) as u32 - 48) * 10 + (d.get_char(3) as u32 - 48);
    if !(1 <= month && month <= 12) || !(1 <= day && day <= 31) {
        return String::new();
    }
    let mut out = to_owned_string(d.substring_char(0, 2));
    push_char(&mut out, '-');
    push_str(&mut out, d.substring_char(2, 4));
    assert(out@ =~= fmt_month_day4_spec(hex4@));
    out
}

} // verus!

verus! {

/// Every character is `0`.
pub open spec fn all_zero_chars(s: Seq<char>) -> bool {
    forall|i: int| 0 <= i < s.len() ==> #[trigger] s[i] == '0'
}

pub(crate) fn record_all_zero(s: &str) -> (res: bool)
    ensures
        res == all_zero_chars(s@),
{
    let n = s.unicode_len();
    let mut i: usize = 0;
    while i < n
        invariant
            n == s@.len(),
            i <= n,
            forall|j: int| 0 <= j < i ==> #[trigger] s@[j] == '0',
        decreases n - i,
    {
        if s.get_char(i) != '0' {
            return false;
        }
        i = i + 1;
    }
    true
}

/// The key of record `n` of a card: `<name>_trans_<n>`.
pub open spec fn trans_key(name: Seq<char>, n: int) -> Seq<char> {
    name + "_trans_"@ + dec_digits(n as nat)
}

/// A record holds a transaction: not all zeros and at least 23 bytes.
pub open spec fn record_used(hex: Seq<char>) -> bool {
    !all_zero_chars(hex) && hex_bytes(hex).len() >= 23
}

/// The amount of a record in hundredths: bytes 5-8 big-endian without the sign bit (times ten
/// for Macau Pass), negative for purchases (`06`, `09`) unless zero.
pub open spec fn record_amount(name: Seq<char>, hex: Seq<char>) -> int {
    let raw = be_uint_spec(hex_bytes(hex), 5, 9) % 0x8000_0000;
    let a: int = if name == "MacauPass"@ { (raw * 10) as int } else { raw as int };
    let tti = slice_spec(hex, 18, 20);
    if (tti == "06"@ || tti == "09"@) && a != 0 {
        -a
    } else {
        a
    }
}

/// The transaction of a 23-byte PBOC record: sequence number (bytes 0-1), amount, type
/// (hex 18-20), terminal (hex 20-32), date (hex 32-40; `MM-DD` from hex 36-40 for Lingnan
/// Pass) and time (hex 40-46).
pub open spec fn record_transaction(name: Seq<char>, hex: Seq<char>, t: Transaction) -> bool {
    &&& t.source@.len() == 0
    &&& t.seq == Some(be_uint_spec(hex_bytes(hex), 0, 2) as u64)
    &&& t.kind@ == tti_name_spec(slice_spec(hex, 18, 20))
    &&& t.amount == record_amount(name, hex)
    &&& t.terminal@ == slice_spec(hex, 20, 32)
    &&& t.date@ == if name == "LingnanPass"@ {
        fmt_month_day4_spec(slice_spec(hex, 36, 40))
    } else {
        fmt_date8_spec(slice_spec(hex, 32, 40))
    }
    &&& t.time@ == fmt_time6_spec(slice_spec(hex, 40, 46))
    &&& t.aux@.len() == 0
    &&& t.trip_kind@.len() == 0
    &&& t.balance_after is None
    &&& t.line_station@.len() == 0
}

/// The transactions of records `n..10` of a card, in order, skipping missing and empty ones.
pub open spec fn records_read(name: Seq<char>, fields: Seq<(Seq<char>, Seq<char>)>, n: int, ts: Seq<Transaction>) -> bool
    decreases 11 - n,
{
    if n > 10 {
        ts.len() == 0
    } else {
        match lookup(fields, trans_key(name, n)) {
            Some(h) => if record_used(h) {
                ts.len() >= 1 && record_transaction(name, h, ts[0]) && records_read(name, fields, n + 1, ts.drop_first())
            } else {
                records_read(name, fields, n + 1, ts)
            },
            None => records_read(name, fields, n + 1, ts),
        }
    }
}

fn record_to_transaction(name: &str, hex: &str) -> (res: Option<Transaction>)
    ensures
        match res {
            Some(t) => record_used(hex@) && record_transaction(name@, hex@, t),
            None => !record_used(hex@),
        },
{
    if record_all_zero(hex) {
        return None;
    }
    let bytes = hex_to_bytes(hex);
    if bytes.len() < 23 {
        return None;
    }
    let mut t = Transaction::empty();
    t.seq = Some(be_uint(bytes.as_slice(), 0, 2));
    let amount_raw = be_uint(bytes.as_slice(), 5, 9) % 0x8000_0000;
    let mut amount: i64 = if str_eq(name, "MacauPass") { amount_raw as i64 * 10 } else { amount_raw as i64 };
    let tti = slice(hex, 18, 20);
    t.kind = to_owned_string(tti_name(tti));
    if (str_eq(tti, "06") || str_eq(tti, "09")) && amount != 0 {
        amount = -amount;
    }
    t.amount = amount;
    t.terminal = to_owned_string(slice(hex, 20, 32));
    t.date = if str_eq(name, "LingnanPass") {
        fmt_month_day4(slice(hex, 36, 40))
    } else {
        fmt_date8(slice(hex, 32, 40))
    };
    t.time = fmt_time6(slice(hex, 40, 46));
    Some(t)
}

/// Appends the transactions of records `n..10` of a card (`records_read`).
fn parse_transactions(name: &str, raw: &RawCardData, card: &mut ParsedCard, n: u64)
    requires
        1 <= n <= 11,
    ensures
        exists|ts: Seq<Transaction>| #[trigger] records_read(name@, raw.fields(), n as int, ts)
            && final(card).transactions@ == old(card).transactions@ + ts,
        final(card).name == old(card).name,
        final(card).number == old(card).number,
        final(card).balance == old(card).balance,
        final(card).currency == old(card).currency,
        final(card).fields == old(card).fields,
        final(card).protocols == old(card).protocols,
        final(card).notes == old(card).notes,
    decreases 11 - n,
{
    if n > 10 {
        assert(records_read(name@, raw.fields(), n as int, Seq::empty()));
        assert(card.transactions@ =~= old(card).transactions@ + Seq::<Transaction>::empty());
        return;
    }
    let key = crate::text::concat_num(name, "_trans_", n);
    let ghost before = card.transactions@;
    match raw.get(key.as_str()) {
        Some(hex) => {
            match record_to_transaction(name, hex) {
                Some(t) => {
                    let ghost t0 = t;
                    card.transactions.push(t);
                    parse_transactions(name, raw, card, n + 1);
                    proof {
                        let ts = choose|ts: Seq<Transaction>| #[trigger] records_read(name@, raw.fields(), n + 1, ts)
                            && card.transactions@ == before.push(t0) + ts;
                        assert(seq![t0] + ts =~= (seq![t0] + ts));
                        assert((seq![t0] + ts).drop_first() =~= ts);
                        assert(records_read(name@, raw.fields(), n as int, seq![t0] + ts));
                        assert(card.transactions@ =~= before + (seq![t0] + ts));
                    }
                },
                None => {
                    parse_transactions(name, raw, card, n + 1);
                    proof {
                        let ts = choose|ts: Seq<Transaction>| #[trigger] records_read(name@, raw.fields(), n + 1, ts)
                            && card.transactions@ == before + ts;
                        assert(records_read(name@, raw.fields(), n as int, ts));
                    }
                },
            }
        },
        None => {
            parse_transactions(name, raw, card, n + 1);
            proof {
                let ts = choose|ts: Seq<Transaction>| #[trigger] records_read(name@, raw.fields(), n + 1, ts)
                    && card.transactions@ == before + ts;
                assert(records_read(name@, raw.fields(), n as int, ts));
            }
        },
    }
}

} // verus!

verus! {

/// The key of trip record `n`: `TUnion_trip_<n>`.
pub open spec fn trip_key(n: int) -> Seq<char> {
    "TUnion_trip_"@ + dec_digits(n as nat)
}

/// A trip record holds a trip: at least `0x22` bytes, and amount, balance and timestamp not
/// all zero.
pub open spec fn trip_used(hex: Seq<char>) -> bool {
    let b = hex_bytes(hex);
    b.len() >= 0x22 && !(be_uint_spec(b, 0x11, 0x19) == 0 && be_uint_spec(b, 0x19, 0x20) == 0)
}

/// The trip of a T-Union trip record (SFI `1E`): kind (byte 0), auxiliary type (byte 9),
/// line and station (bytes 10-16), amount (bytes 17-20) and balance (bytes 21-24) in
/// hundredths, BCD timestamp (bytes 25-31), city (bytes 32-33).
pub open spec fn trip_from(hex: Seq<char>, t: Trip) -> bool {
    let b = hex_bytes(hex);
    &&& t.kind@ == trip_kind_spec(hex_slice_spec(b, 0x00, 0x01))
    &&& t.aux@ == trip_aux_spec(hex_slice_spec(b, 0x09, 0x0A))
    &&& t.line_station@ == hex_slice_spec(b, 0x0A, 0x11)
    &&& t.amount == be_uint_spec(b, 0x11, 0x15)
    &&& t.balance == be_uint_spec(b, 0x15, 0x19)
    &&& t.timestamp@ == fmt_timestamp14_spec(hex_slice_spec(b, 0x19, 0x20))
    &&& t.city@ == hex_slice_spec(b, 0x20, 0x22)
}

/// The trips of records `n..10`, in order, skipping missing and empty ones.
pub open spec fn trips_read(fields: Seq<(Seq<char>, Seq<char>)>, n: int, trips: Seq<Trip>) -> bool
    decreases 11 - n,
{
    if n > 10 {
        trips.len() == 0
    } else {
        match lookup(fields, trip_key(n)) {
            Some(h) => if trip_used(h) {
                trips.len() >= 1 && trip_from(h, trips[0]) && trips_read(fields, n + 1, trips.drop_first())
            } else {
                trips_read(fields, n + 1, trips)
            },
            None => trips_read(fields, n + 1, trips),
        }
    }
}

proof fn lemma_be4_small(b: Seq<u8>, s: int)
    requires
        0 <= s,
        s + 4 <= b.len(),
    ensures
        be_uint_spec(b, s, s + 4) < 0x1_0000_0000,
{
    let x = b.subrange(s, s + 4);
    assert(x.drop_last() =~= x.subrange(0, 3));
    assert(x.subrange(0, 3).drop_last() =~= x.subrange(0, 2));
    assert(x.subrange(0, 2).drop_last() =~= x.subrange(0, 1));
    assert(x.subrange(0, 1).drop_last() =~= Seq::<u8>::empty());
    assert(super::util::be_wrapped(Seq::<u8>::empty()) == 0);
    assert(super::util::be_wrapped(x.subrange(0, 1)) < 0x100);
    assert(super::util::be_wrapped(x.subrange(0, 2)) < 0x1_0000);
    assert(super::util::be_wrapped(x.subrange(0, 3)) < 0x100_0000);
}

fn record_to_trip(hex: &str) -> (res: Option<Trip>)
    ensures
        match res {
            Some(t) => trip_used(hex@) && trip_from(hex@, t),
            None => !trip_used(hex@),
        },
{
    let bytes = hex_to_bytes(hex);
    if bytes.len() < 0x22 {
        return None;
    }
    let b = bytes.as_slice();
    if be_uint(b, 0x11, 0x19) == 0 && be_uint(b, 0x19, 0x20) == 0 {
        return None;
    }
    let k = hex_slice(b, 0x00, 0x01);
    let a = hex_slice(b, 0x09, 0x0A);
    let amount = be_uint(b, 0x11, 0x15);
    let balance = be_uint(b, 0x15, 0x19);
    proof {
        lemma_be4_small(b@, 0x11);
        lemma_be4_small(b@, 0x15);
    }
    let ts = hex_slice(b, 0x19, 0x20);
    Some(Trip {
        kind: to_owned_string(trip_kind(k.as_str())),
        aux: to_owned_string(trip_aux(a.as_str())),
        amount: amount as i64,
        balance: balance as i64,
        timestamp: fmt_timestamp14(ts.as_str()),
        line_station: hex_slice(b, 0x0A, 0x11),
        city: hex_slice(b, 0x20, 0x22),
    })
}

/// The trip records `n..10` of a T-Union card (`trips_read`).
pub fn parse_trips(raw: &RawCardData, n: u64) -> (res: Vec<Trip>)
    requires
        1 <= n <= 11,
    ensures
        trips_read(raw.fields(), n as int, res@),
    decreases 11 - n,
{
    if n > 10 {
        return Vec::new();
    }
    let key = crate::text::concat_num("TUnion_trip_", "", n);
    proof {
        reveal_strlit("");
        assert("TUnion_trip_"@ + ""@ == "TUnion_trip_"@);
    }
    let mut rest = parse_trips(raw, n + 1);
    match raw.get(key.as_str()) {
        Some(hex) => match record_to_trip(hex) {
            Some(t) => {
                let ghost r = rest@;
                rest.insert(0, t);
                assert(rest@.drop_first() =~= r);
                rest
            },
            None => rest,
        },
        None => rest,
    }
}

/// A transaction with the trip of the same number merged in: its entry/exit kind, auxiliary
/// type, balance after and line/station; a missing date or time is taken from the trip's
/// timestamp when it has one.
pub open spec fn merged_with_trip(t: Transaction, trip: Trip, r: Transaction) -> bool {
    let fill = (t.date@.len() == 0 || t.time@.len() == 0) && trip.timestamp@.len() > 0;
    &&& r.source@ == t.source@
    &&& r.seq == t.seq
    &&& r.kind@ == t.kind@
    &&& r.amount == t.amount
    &&& r.terminal@ == t.terminal@
    &&& r.trip_kind@ == trip.kind@
    &&& r.aux@ == trip.aux@
    &&& r.balance_after == Some(trip.balance)
    &&& r.line_station@ == trip.line_station@
    &&& match split_once_spec(trip.timestamp@, ' ') {
        Some((d, tm)) => {
            &&& r.date@ == (if fill && t.date@.len() == 0 { d } else { t.date@ })
            &&& r.time@ == (if fill && t.time@.len() == 0 { tm } else { t.time@ })
        },
        None => r.date@ == t.date@ && r.time@ == t.time@,
    }
}

/// The transaction made of a trip that has no transaction of its own: a purchase of the trip's
/// amount, dated by its timestamp.
pub open spec fn transaction_of_trip(trip: Trip, r: Transaction) -> bool {
    &&& r.source@.len() == 0
    &&& r.seq is None
    &&& r.kind@ == "消费"@
    &&& r.amount == -trip.amount
    &&& match split_once_spec(trip.timestamp@, ' ') {
        Some((d, tm)) => r.date@ == d && r.time@ == tm,
        None => r.date@.len() == 0 && r.time@.len() == 0,
    }
    &&& r.terminal@.len() == 0
    &&& r.aux@ == trip.aux@
    &&& r.trip_kind@ == trip.kind@
    &&& r.balance_after == Some(trip.balance)
    &&& r.line_station@ == trip.line_station@
}

/// The transactions after merging the trips in order: trip `i` completes transaction `i`;
/// trips beyond the transactions become transactions of their own.
pub open spec fn trips_merged(prior: Seq<Transaction>, trips: Seq<Trip>, new: Seq<Transaction>) -> bool {
    &&& new.len() == if trips.len() > prior.len() { trips.len() } else { prior.len() }
    &&& forall|i: int| 0 <= i < new.len() ==> if i < prior.len() {
        if i < trips.len() {
            merged_with_trip(prior[i], trips[i], #[trigger] new[i])
        } else {
            new[i] == prior[i]
        }
    } else {
        transaction_of_trip(trips[i], new[i])
    }
}

fn copy_string(s: &String) -> (res: String)
    ensures
        res@ == s@,
{
    to_owned_string(s.as_str())
}

/// Merges the trip records into the transactions (`trips_merged`).
pub fn merge_trips_into_transactions(card: &mut ParsedCard, trips: Vec<Trip>)
    requires
        forall|k: int| 0 <= k < trips@.len() ==> (#[trigger] trips@[k]).amount > i64::MIN,
    ensures
        trips_merged(old(card).transactions@, trips@, final(card).transactions@),
        final(card).name == old(card).name,
        final(card).number == old(card).number,
        final(card).balance == old(card).balance,
        final(card).currency == old(card).currency,
        final(card).fields == old(card).fields,
        final(card).protocols == old(card).protocols,
        final(card).notes == old(card).notes,
{
    let ghost old_ts = card.transactions@;
    let mut i: usize = 0;
    while i < trips.len()
        invariant
            i <= trips@.len(),
            forall|k: int| 0 <= k < trips@.len() ==> (#[trigger] trips@[k]).amount > i64::MIN,
            old_ts == old(card).transactions@,
            card.name == old(card).name,
            card.number == old(card).number,
            card.balance == old(card).balance,
            card.currency == old(card).currency,
            card.fields == old(card).fields,
            card.protocols == old(card).protocols,
            card.notes == old(card).notes,
            card.transactions@.len() == if i > old_ts.len() { i as int } else { old_ts.len() as int },
            forall|j: int| 0 <= j < i && j < old_ts.len() ==> merged_with_trip(old_ts[j], trips@[j], #[trigger] card.transactions@[j]),
            forall|j: int| old_ts.len() <= j < i ==> transaction_of_trip(trips@[j], #[trigger] card.transactions@[j]),
            forall|j: int| i <= j < old_ts.len() ==> #[trigger] card.transactions@[j] == old_ts[j],
        decreases trips@.len() - i,
    {
        let trip = &trips[i];
        let split = split_once_char(trip.timestamp.as_str(), ' ');
        if i < card.transactions.len() {
            let t = &card.transactions[i];
            let fill = (t.date.unicode_len() == 0 || t.time.unicode_len() == 0) && trip.timestamp.unicode_len() > 0;
            let (date, time) = match &split {
                Some((d, tm)) => (
                    if fill && t.date.unicode_len() == 0 { copy_string(d) } else { copy_string(&t.date) },
                    if fill && t.time.unicode_len() == 0 { copy_string(tm) } else { copy_string(&t.time) },
                ),
                None => (copy_string(&t.date), copy_string(&t.time)),
            };
            let source = copy_string(&t.source);
            let kind = copy_string(&t.kind);
            let terminal = copy_string(&t.terminal);
            let nt = Transaction {
                source,
                seq: t.seq,
                kind,
                amount: t.amount,
                date,
                time,
                terminal,
                aux: copy_string(&trip.aux),
                trip_kind: copy_string(&trip.kind),
                balance_after: Some(trip.balance),
                line_station: copy_string(&trip.line_station),
            };
            let ghost prev = card.transactions@;
            assert(card.transactions@[i as int] == old_ts[i as int]);
            assert(merged_with_trip(old_ts[i as int], trips@[i as int], nt));
            card.transactions.set(i, nt);
        } else {
            let (date, time) = match &split {
                Some((d, tm)) => (copy_string(d), copy_string(tm)),
                None => (String::new(), String::new()),
            };
            let nt = Transaction {
                source: String::new(),
                seq: None,
                kind: to_owned_string("消费"),
                amount: -trip.amount,
                date,
                time,
                terminal: String::new(),
                aux: copy_string(&trip.aux),
                trip_kind: copy_string(&trip.kind),
                balance_after: Some(trip.balance),
                line_station: copy_string(&trip.line_station),
            };
            assert(transaction_of_trip(trips@[i as int], nt));
            let ghost prev = card.transactions@;
            card.transactions.push(nt);
        }
        i = i + 1;
    }
}

} // verus!

verus! {

/// Where a card keeps its number and dates: the raw field of its basic file, then the hex
/// ranges of the number, the issue date and the expiry date (an empty range for none).
pub open spec fn number_layout(name: Seq<char>) -> Option<(Seq<char>, (int, int), (int, int), (int, int))> {
    if name == "ShenzhenTong"@ {
        Some(("ShenzhenTong_file15"@, (32, 40), (40, 48), (48, 56)))
    } else if name == "WuhanTong"@ {
        Some(("WuhanTong_file15"@, (24, 40), (40, 48), (48, 56)))
    } else if name == "LingnanPass"@ {
        Some(("LingnanPass_file15"@, (22, 32), (0, 0), (0, 0)))
    } else if name == "CityUnion"@ {
        Some(("CityUnion_file15"@, (24, 40), (40, 48), (48, 56)))
    } else if name == "TUnion"@ {
        Some(("TUnion_file15"@, (20, 40), (0, 0), (0, 0)))
    } else if name == "MacauPass"@ {
        Some(("MacauPass_file15"@, (70, 80), (0, 0), (0, 0)))
    } else if name == "BMAC"@ {
        Some(("BMAC_file04"@, (0, 16), (48, 56), (56, 64)))
    } else {
        None
    }
}

/// The date field for a hex range of the basic file, when the range is not empty and the
/// date is valid BCD.
pub open spec fn date_field(key: Seq<char>, hex: Seq<char>, r: (int, int)) -> Seq<(Seq<char>, Seq<char>)> {
    if r.1 > 0 && fmt_date8_spec(slice_spec(hex, r.0, r.1)).len() > 0 {
        seq![(key, fmt_date8_spec(slice_spec(hex, r.0, r.1)))]
    } else {
        Seq::empty()
    }
}

/// What the basic file gives: the number (leading zeros dropped) when its range is not empty,
/// else the number stays `prev`; for City Union its city code (shown as an unknown code: the
/// code table is not part of this library), the issue and expiry dates; a note (and `prev`
/// kept) when the file is missing.
pub open spec fn number_parsed(
    name: Seq<char>,
    fields: Seq<(Seq<char>, Seq<char>)>,
    prev: Option<String>,
    number: Option<String>,
    added: Seq<(Seq<char>, Seq<char>)>,
    notes: Seq<Seq<char>>,
) -> bool {
    let file = match number_layout(name) {
        Some(l) => lookup(fields, l.0),
        None => None,
    };
    match file {
        None => number == prev && added.len() == 0 && notes == seq!["未取到基础信息文件"@],
        Some(hex) => {
            let l = number_layout(name)->Some_0;
            let n = slice_spec(hex, (l.1).0, (l.1).1);
            let city = slice_spec(hex, 4, 8);
            &&& notes.len() == 0
            &&& if (l.1).1 > 0 && n.len() > 0 {
                number matches Some(s) && s@ == trim_zeros_spec(n)
            } else {
                number == prev
            }
            &&& added == (if name == "CityUnion"@ && city.len() > 0 {
                seq![("城市"@, "未知代码"@ + city)]
            } else {
                Seq::empty()
            }) + date_field("发行日期"@, hex, l.2) + date_field("有效期至"@, hex, l.3)
        },
    }
}

fn number_layout_of(name: &str) -> (res: Option<(&'static str, (usize, usize), (usize, usize), (usize, usize))>)
    ensures
        match number_layout(name@) {
            Some(l) => res matches Some(r) && r.0@ == l.0 && r.1.0 == l.1.0 && r.1.1 == l.1.1 && r.2.0 == l.2.0
                && r.2.1 == l.2.1 && r.3.0 == l.3.0 && r.3.1 == l.3.1,
            None => res is None,
        },
{
    if str_eq(name, "ShenzhenTong") {
        Some(("ShenzhenTong_file15", (32, 40), (40, 48), (48, 56)))
    } else if str_eq(name, "WuhanTong") {
        Some(("WuhanTong_file15", (24, 40), (40, 48), (48, 56)))
    } else if str_eq(name, "LingnanPass") {
        Some(("LingnanPass_file15", (22, 32), (0, 0), (0, 0)))
    } else if str_eq(name, "CityUnion") {
        Some(("CityUnion_file15", (24, 40), (40, 48), (48, 56)))
    } else if str_eq(name, "TUnion") {
        Some(("TUnion_file15", (20, 40), (0, 0), (0, 0)))
    } else if str_eq(name, "MacauPass") {
        Some(("MacauPass_file15", (70, 80), (0, 0), (0, 0)))
    } else if str_eq(name, "BMAC") {
        Some(("BMAC_file04", (0, 16), (48, 56), (56, 64)))
    } else {
        None
    }
}

fn add_date_field(card: &mut ParsedCard, key: &str, hex: &str, r: (usize, usize))
    requires
        r.0 <= r.1,
    ensures
        final(card).field_pairs() == old(card).field_pairs() + date_field(key@, hex@, (r.0 as int, r.1 as int)),
        final(card).name == old(card).name,
        final(card).number == old(card).number,
        final(card).balance == old(card).balance,
        final(card).currency == old(card).currency,
        final(card).transactions == old(card).transactions,
        final(card).protocols == old(card).protocols,
        final(card).notes == old(card).notes,
{
    if r.1 > 0 {
        let d = fmt_date8(slice(hex, r.0, r.1));
        if d.unicode_len() > 0 {
            card.add_field(key, d.as_str());
            return;
        }
    }
    assert(card.field_pairs() =~= old(card).field_pairs() + Seq::<(Seq<char>, Seq<char>)>::empty());
}

/// Reads the number, City Union city code and dates from the basic file (`number_parsed`),
/// adding the fields after the existing ones and its note, if any, after the existing notes.
pub fn parse_card_number(name: &str, raw: &RawCardData, card: &mut ParsedCard)
    ensures
        exists|added: Seq<(Seq<char>, Seq<char>)>, notes: Seq<Seq<char>>| #[trigger] number_parsed(name@, raw.fields(),
            old(card).number, final(card).number, added, notes) && final(card).field_pairs() == old(card).field_pairs() + added
            && strings_view(final(card).notes@) == strings_view(old(card).notes@) + notes,
        final(card).name == old(card).name,
        final(card).balance == old(card).balance,
        final(card).currency == old(card).currency,
        final(card).transactions == old(card).transactions,
        final(card).protocols == old(card).protocols,
{
    let ghost n0 = strings_view(card.notes@);
    let layout = number_layout_of(name);
    let file = match layout {
        Some(l) => raw.get(l.0),
        None => None,
    };
    let hex = match file {
        Some(h) => h,
        None => {
            card.notes.push(to_owned_string("未取到基础信息文件"));
            assert(strings_view(card.notes@) =~= n0 + seq!["未取到基础信息文件"@]);
            assert(number_parsed(name@, raw.fields(), old(card).number, card.number, Seq::empty(), seq!["未取到基础信息文件"@]));
            assert(card.field_pairs() =~= old(card).field_pairs() + Seq::<(Seq<char>, Seq<char>)>::empty());
            return;
        },
    };
    let (_, num, issue, expire) = match layout {
        Some(l) => l,
        None => {
            return;
        },
    };
    if num.1 > 0 {
        let n = slice(hex, num.0, num.1);
        if n.unicode_len() > 0 {
            card.number = Some(trim_leading_zeros(n));
        }
    }
    let ghost f0 = card.field_pairs();
    let ghost cityv = slice_spec(hex@, 4, 8);
    let ghost city_part: Seq<(Seq<char>, Seq<char>)> = if name@ == "CityUnion"@ && cityv.len() > 0 {
        seq![("城市"@, "未知代码"@ + cityv)]
    } else {
        Seq::empty()
    };
    if str_eq(name, "CityUnion") {
        let city = slice(hex, 4, 8);
        if city.unicode_len() > 0 {
            let v = concat2("未知代码", city);
            card.add_field("城市", v.as_str());
        }
    }
    assert(card.field_pairs() =~= f0 + city_part);
    add_date_field(card, "发行日期", hex, issue);
    add_date_field(card, "有效期至", hex, expire);
    let ghost added = city_part + date_field("发行日期"@, hex@, (issue.0 as int, issue.1 as int))
        + date_field("有效期至"@, hex@, (expire.0 as int, expire.1 as int));
    assert(card.field_pairs() =~= old(card).field_pairs() + added);
    assert(strings_view(card.notes@) =~= n0 + Seq::<Seq<char>>::empty());
    assert(number_parsed(name@, raw.fields(), old(card).number, card.number, added, Seq::<Seq<char>>::empty()));
}

/// The balance of a card in hundredths, from `<name>_balance`: for Macau Pass ten times the
/// first 4 bytes (sign bit cleared) less 1000, otherwise the PBOC purse value; `prev` kept
/// without the field, and kept with a note when it is shorter than 4 bytes.
pub open spec fn balance_parsed(name: Seq<char>, fields: Seq<(Seq<char>, Seq<char>)>, prev: Option<i64>, balance: Option<i64>, notes: Seq<Seq<char>>) -> bool {
    match lookup(fields, name + "_balance"@) {
        None => balance == prev && notes.len() == 0,
        Some(h) => {
            let b = hex_bytes(h);
            if b.len() < 4 {
                balance == prev && notes == seq!["余额字段长度不足"@]
            } else if name == "MacauPass"@ {
                balance == Some(((be_uint_spec(b, 0, 4) % 0x8000_0000) * 10 - 1000) as i64) && notes.len() == 0
            } else {
                balance == Some(pboc_balance_spec(b) as i64) && notes.len() == 0
            }
        },
    }
}

/// Reads the balance (`balance_parsed`), adding its note, if any, after the existing ones.
pub fn parse_balance(name: &str, raw: &RawCardData, card: &mut ParsedCard)
    ensures
        exists|added: Seq<Seq<char>>| #[trigger] balance_parsed(name@, raw.fields(), old(card).balance, final(card).balance, added)
            && strings_view(final(card).notes@) == strings_view(old(card).notes@) + added,
        final(card).name == old(card).name,
        final(card).number == old(card).number,
        final(card).currency == old(card).currency,
        final(card).fields == old(card).fields,
        final(card).transactions == old(card).transactions,
        final(card).protocols == old(card).protocols,
{
    let key = concat2(name, "_balance");
    let ghost n0 = strings_view(card.notes@);
    let hex = match raw.get(key.as_str()) {
        Some(h) => h,
        None => {
            assert(balance_parsed(name@, raw.fields(), old(card).balance, card.balance, Seq::empty()));
            assert(strings_view(card.notes@) =~= n0 + Seq::<Seq<char>>::empty());
            return;
        },
    };
    let bytes = hex_to_bytes(hex);
    if bytes.len() < 4 {
        card.notes.push(to_owned_string("余额字段长度不足"));
        assert(strings_view(card.notes@) =~= n0 + seq!["余额字段长度不足"@]);
        assert(balance_parsed(name@, raw.fields(), old(card).balance, card.balance, seq!["余额字段长度不足"@]));
        return;
    }
    if str_eq(name, "MacauPass") {
        let raw_val = be_uint(bytes.as_slice(), 0, 4) % 0x8000_0000;
        card.balance = Some(raw_val as i64 * 10 - 1000);
    } else {
        let v = pboc_balance_cents(bytes.as_slice());
        card.balance = Some(v as i64);
    }
    assert(strings_view(card.notes@) =~= n0 + Seq::<Seq<char>>::empty());
    assert(balance_parsed(name@, raw.fields(), old(card).balance, card.balance, Seq::empty()));
}

/// Whether a text is a byte in hexadecimal as `u8::from_str_radix(_, 16)` reads it: an
/// optional `+`, then one or more hex digits whose value fits in a byte.
pub open spec fn hex_byte_ok(s: Seq<char>) -> bool {
    let d = signless(s);
    d.len() > 0 && all_hex(d) && hex_digits_value(d) <= 255
}

/// The text after an optional leading `+`.
pub open spec fn signless(s: Seq<char>) -> Seq<char> {
    if s.len() > 0 && s[0] == '+' {
        s.drop_first()
    } else {
        s
    }
}

/// Every character is a hexadecimal digit.
pub open spec fn all_hex(d: Seq<char>) -> bool {
    forall|i: int| 0 <= i < d.len() ==> crate::hexfmt::is_hex_char(#[trigger] d[i])
}

/// The value of hexadecimal digits.
pub open spec fn hex_digits_value(d: Seq<char>) -> nat
    decreases d.len(),
{
    if d.len() == 0 {
        0
    } else {
        (hex_digits_value(d.drop_last()) * 16 + crate::hexfmt::hex_char_value(d.last())) as nat
    }
}

/// Whether a text of at most two characters is a hexadecimal byte (`hex_byte_ok`).
fn is_hex_byte(s: &str) -> (res: bool)
    requires
        s@.len() <= 2,
    ensures
        res == hex_byte_ok(s@),
{
    let n = s.unicode_len();
    let start: usize = if n > 0 && s.get_char(0) == '+' { 1 } else { 0 };
    let ghost d = signless(s@);
    assert(d =~= s@.subrange(start as int, n as int));
    if start == n {
        return false;
    }
    let mut i: usize = start;
    while i < n
        invariant
            n == s@.len(),
            n <= 2,
            start <= i <= n,
            d == s@.subrange(start as int, n as int),
            d == signless(s@),
            forall|k: int| start <= k < i ==> crate::hexfmt::is_hex_char(#[trigger] s@[k]),
        decreases n - i,
    {
        let c = s.get_char(i);
        if !(('0' <= c && c <= '9') || ('a' <= c && c <= 'f') || ('A' <= c && c <= 'F')) {
            assert(!crate::hexfmt::is_hex_char(d[i - start]));
            assert(!all_hex(d));
            return false;
        }
        i = i + 1;
    }
    proof {
        assert forall|k: int| 0 <= k < d.len() implies crate::hexfmt::is_hex_char(#[trigger] d[k]) by {
            assert(d[k] == s@[k + start]);
        }
        assert(all_hex(d));
        if d.len() == 1 {
            assert(d.drop_last() =~= Seq::<char>::empty());
            assert(hex_digits_value(Seq::<char>::empty()) == 0);
            assert(crate::hexfmt::is_hex_char(d[0]));
            assert(crate::hexfmt::hex_char_value(d[0]) <= 15);
            assert(hex_digits_value(d) == crate::hexfmt::hex_char_value(d.last()));
        } else {
            let e = d.drop_last();
            assert(e.drop_last() =~= Seq::<char>::empty());
            assert(hex_digits_value(Seq::<char>::empty()) == 0);
            assert(crate::hexfmt::is_hex_char(d[0]));
            assert(crate::hexfmt::is_hex_char(d[1]));
            assert(e.last() == d[0]);
            assert(hex_digits_value(e) == crate::hexfmt::hex_char_value(d[0]));
            assert(hex_digits_value(d) == hex_digits_value(e) * 16 + crate::hexfmt::hex_char_value(d[1]));
        }
    }
    true
}

/// The fields of T-Union file 17: province and city codes and the card type (shown as codes:
/// the code tables are not part of this library).
pub open spec fn file17_fields(f17: Seq<char>) -> Seq<(Seq<char>, Seq<char>)> {
    let province = slice_spec(f17, 8, 12);
    let city = slice_spec(f17, 12, 16);
    let ctype = slice_spec(f17, 20, 22);
    (if province.len() > 0 {
        seq![("省份"@, "("@ + province + ")"@)]
    } else {
        Seq::empty()
    }) + (if city.len() > 0 {
        seq![("城市"@, "("@ + city + ")"@)]
    } else {
        Seq::empty()
    }) + (if hex_byte_ok(ctype) {
        seq![("卡类型"@, "("@ + ctype + ")"@)]
    } else {
        Seq::empty()
    })
}

fn add_code_field(card: &mut ParsedCard, key: &str, code: &str)
    ensures
        final(card).field_pairs() == old(card).field_pairs().push((key@, "("@ + code@ + ")"@)),
        final(card).name == old(card).name,
        final(card).number == old(card).number,
        final(card).balance == old(card).balance,
        final(card).currency == old(card).currency,
        final(card).transactions == old(card).transactions,
        final(card).protocols == old(card).protocols,
        final(card).notes == old(card).notes,
{
    let mut v = concat2("(", code);
    push_str(&mut v, ")");
    card.add_field(key, v.as_str());
}

/// Adds the fields of T-Union file 17 (`file17_fields`).
fn parse_file17(card: &mut ParsedCard, f17: &str)
    ensures
        final(card).field_pairs() == old(card).field_pairs() + file17_fields(f17@),
        final(card).name == old(card).name,
        final(card).number == old(card).number,
        final(card).balance == old(card).balance,
        final(card).currency == old(card).currency,
        final(card).transactions == old(card).transactions,
        final(card).protocols == old(card).protocols,
        final(card).notes == old(card).notes,
{
    let province = slice(f17, 8, 12);
    let city = slice(f17, 12, 16);
    let ctype = slice(f17, 20, 22);
    if province.unicode_len() > 0 {
        add_code_field(card, "省份", province);
    }
    if city.unicode_len() > 0 {
        add_code_field(card, "城市", city);
    }
    if is_hex_byte(ctype) {
        add_code_field(card, "卡类型", ctype);
    }
    assert(card.field_pairs() =~= old(card).field_pairs() + file17_fields(f17@));
}

} // verus!

verus! {

proof fn lemma_trips_nonneg(fields: Seq<(Seq<char>, Seq<char>)>, n: int, trips: Seq<Trip>)
    requires
        trips_read(fields, n, trips),
    ensures
        forall|k: int| 0 <= k < trips.len() ==> (#[trigger] trips[k]).amount > i64::MIN,
    decreases 11 - n,
{
    if n <= 10 {
        match lookup(fields, trip_key(n)) {
            Some(h) => if trip_used(h) {
                lemma_trips_nonneg(fields, n + 1, trips.drop_first());
                assert forall|k: int| 0 <= k < trips.len() implies (#[trigger] trips[k]).amount > i64::MIN by {
                    if k > 0 {
                        assert(trips[k] == trips.drop_first()[k - 1]);
                    }
                }
            } else {
                lemma_trips_nonneg(fields, n + 1, trips);
            },
            None => lemma_trips_nonneg(fields, n + 1, trips),
        }
    }
}

/// What decoding a transit sub-card gives: its readable name, currency `MOP` for Macau Pass
/// and `¥` otherwise; the basic file (`number_parsed`, fields `f1` and notes `n1`), the
/// balance (`balance_parsed`, notes `n2` after `n1`), the records 1 to 10 (`records_read`);
/// for T-Union the fields of file 17 after `f1` and the trips 1 to 10 merged into the
/// transactions (`trips_merged`).
pub open spec fn transit_parts(
    name: Seq<char>,
    fields: Seq<(Seq<char>, Seq<char>)>,
    card: ParsedCard,
    f1: Seq<(Seq<char>, Seq<char>)>,
    n1: Seq<Seq<char>>,
    n2: Seq<Seq<char>>,
    ts: Seq<Transaction>,
    trips: Seq<Trip>,
) -> bool {
    &&& card.name@ == display_name_spec(name)
    &&& card.currency@ == if name == "MacauPass"@ { "MOP"@ } else { "¥"@ }
    &&& card.protocols@.len() == 0
    &&& number_parsed(name, fields, None, card.number, f1, n1)
    &&& balance_parsed(name, fields, None, card.balance, n2)
    &&& strings_view(card.notes@) == n1 + n2
    &&& records_read(name, fields, 1, ts)
    &&& if name == "TUnion"@ {
        &&& card.field_pairs() == f1 + match lookup(fields, "TUnion_file17"@) {
            Some(f17) => file17_fields(f17),
            None => Seq::empty(),
        }
        &&& trips_read(fields, 1, trips)
        &&& trips_merged(ts, trips, card.transactions@)
    } else {
        card.field_pairs() == f1 && card.transactions@ == ts
    }
}

/// What decoding a transit sub-card gives (`transit_parts`).
pub open spec fn transit_parsed(name: Seq<char>, fields: Seq<(Seq<char>, Seq<char>)>, card: ParsedCard) -> bool {
    exists|f1: Seq<(Seq<char>, Seq<char>)>, n1: Seq<Seq<char>>, n2: Seq<Seq<char>>, ts: Seq<Transaction>, trips: Seq<Trip>|
        #[trigger] transit_parts(name, fields, card, f1, n1, n2, ts, trips)
}

/// Decodes a PBOC transit sub-card named `name` (`transit_parsed`).
pub fn parse(name: &str, raw: &RawCardData) -> (res: ParsedCard)
    ensures
        transit_parsed(name@, raw.fields(), res),
{
    let mut card = ParsedCard::new(display_name(name));
    if str_eq(name, "MacauPass") {
        card.currency = to_owned_string("MOP");
    }
    let ghost fp0 = card.field_pairs();
    assert(fp0 =~= Seq::<(Seq<char>, Seq<char>)>::empty());
    let ghost nt0 = strings_view(card.notes@);
    assert(nt0 =~= Seq::<Seq<char>>::empty());
    parse_card_number(name, raw, &mut card);
    let ghost (f1, n1) = choose|added: Seq<(Seq<char>, Seq<char>)>, notes: Seq<Seq<char>>| #[trigger] number_parsed(name@,
        raw.fields(), None, card.number, added, notes) && card.field_pairs() == fp0 + added
        && strings_view(card.notes@) == nt0 + notes;
    assert(card.field_pairs() =~= f1);
    assert(strings_view(card.notes@) =~= n1);
    parse_balance(name, raw, &mut card);
    let ghost n2 = choose|added: Seq<Seq<char>>| #[trigger] balance_parsed(name@, raw.fields(), None, card.balance, added)
        && strings_view(card.notes@) == n1 + added;
    let ghost t0 = card.transactions@;
    parse_transactions(name, raw, &mut card, 1);
    let ghost ts = card.transactions@;
    assert(t0.len() == 0);
    assert(ts =~= t0 + ts);
    let mut trips_v: Vec<Trip> = Vec::new();
    if str_eq(name, "TUnion") {
        if let Some(f17) = raw.get("TUnion_file17") {
            parse_file17(&mut card, f17);
        }
        trips_v = parse_trips(raw, 1);
        proof {
            lemma_trips_nonneg(raw.fields(), 1, trips_v@);
        }
        let ghost tv = trips_v@;
        merge_trips_into_transactions(&mut card, trips_v);
        assert(transit_parts(name@, raw.fields(), card, f1, n1, n2, ts, tv));
    } else {
        assert(transit_parts(name@, raw.fields(), card, f1, n1, n2, ts, trips_v@));
    }
    card
}


/// The sign of a record's amount follows its type code (hex 18-20). A purchase (`06`) or a
/// compound purchase (`09`, the metro and bus fares) with a non-zero amount takes money off
/// the card: the amount is minus the value of bytes 5-8 read big-endian with the sign bit
/// cleared (ten times that for Macau Pass). A load (`02`) or any other code adds that value.
/// The kinds read `消费`, `复合消费` and `圈存(充值)`.
pub proof fn law_record_amount_sign(name: Seq<char>, hex: Seq<char>, t: Transaction)
    requires
        record_transaction(name, hex, t),
        hex_bytes(hex).len() >= 23,
    ensures
        ({
            let b = hex_bytes(hex);
            let v = (b[5] * 0x100_0000 + b[6] * 0x1_0000 + b[7] * 0x100 + b[8]) % 0x8000_0000;
            let a = if name == "MacauPass"@ { 10 * v } else { v };
            let code = slice_spec(hex, 18, 20);
            &&& (code == "06"@ || code == "09"@) && v != 0 ==> t.amount == -a && t.amount < 0
            &&& !(code == "06"@ || code == "09"@) ==> t.amount == a && t.amount >= 0
            &&& v == 0 ==> t.amount == 0
            &&& code == "06"@ ==> t.kind@ == "消费"@
            &&& code == "09"@ ==> t.kind@ == "复合消费"@
            &&& code == "02"@ ==> t.kind@ == "圈存(充值)"@
        }),
{
    super::util::lemma_be4_value(hex_bytes(hex), 5);
    reveal_strlit("06");
    reveal_strlit("09");
    reveal_strlit("02");
    assert("06"@[1] != "09"@[1] && "06"@[1] != "02"@[1] && "09"@[1] != "02"@[1]);
    assert("06"@ != "09"@ && "06"@ != "02"@ && "09"@ != "02"@);
}

/// The first record of a card other than T-Union, when present and used, is the card's first
/// transaction, decoded from that record.
pub proof fn law_first_record_is_first_transaction(
    name: Seq<char>,
    fields: Seq<(Seq<char>, Seq<char>)>,
    card: ParsedCard,
    h: Seq<char>,
)
    requires
        transit_parsed(name, fields, card),
        name != "TUnion"@,
        lookup(fields, trans_key(name, 1)) == Some(h),
        record_used(h),
    ensures
        card.transactions@.len() >= 1,
        record_transaction(name, h, card.transactions@[0]),
{
    let (f1, n1, n2, ts, trips) = choose|f1: Seq<(Seq<char>, Seq<char>)>, n1: Seq<Seq<char>>, n2: Seq<Seq<char>>, ts: Seq<Transaction>, trips: Seq<Trip>|
        #[trigger] transit_parts(name, fields, card, f1, n1, n2, ts, trips);
    assert(records_read(name, fields, 1, ts));
    assert(card.transactions@ == ts);
}

} // verus!
