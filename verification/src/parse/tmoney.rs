//! T-Money (Korea) decoding: the purse information inside the SELECT answer (`tmoney_fci`,
//! after its first 4 bytes), the balance (`TMoney_balance`) and the records
//! (`TMoney_trans_N`). Won have no subunit: amounts are whole won times one hundred.
use vstd::prelude::*;
use crate::model::{RawCardData, lookup};
use crate::text::{dec_digits, str_eq, strings_view, to_owned_string};
use super::model::{ParsedCard, Transaction};
use super::transit::{all_zero_chars, slice, slice_spec};
use super::util::{be_uint, be_uint_spec, fmt_date8, fmt_date8_spec, hex_bytes, hex_to_bytes, trim_leading_zeros, trim_zeros_spec};

verus! {

/// The purse information: the FCI after its first 8 hex characters (all of it when shorter).
pub open spec fn purse_spec(fci: Seq<char>) -> Seq<char> {
    if fci.len() > 8 {
        fci.subrange(8, fci.len() as int)
    } else {
        fci
    }
}

/// A T-Money record holds a transaction: not all zeros and at least 12 bytes.
pub open spec fn tmoney_record_used(hex: Seq<char>) -> bool {
    !all_zero_chars(hex) && hex_bytes(hex).len() >= 12
}

/// The transaction of a T-Money record: kind from hex 0-2 (`01` purchase, `02` load), amount
/// from bytes 1-4 in won (negative for a purchase), in hundredths.
pub open spec fn tmoney_transaction(hex: Seq<char>, t: Transaction) -> bool {
    let kind = slice_spec(hex, 0, 2);
    let a = be_uint_spec(hex_bytes(hex), 1, 5) * 100;
    &&& t.kind@ == if kind == "01"@ { "消费"@ } else if kind == "02"@ { "充值"@ } else { "其他"@ }
    &&& t.amount == if kind == "01"@ { -a } else { a as int }
    &&& t.source@.len() == 0
    &&& t.seq is None
    &&& t.date@.len() == 0
    &&& t.time@.len() == 0
    &&& t.terminal@.len() == 0
    &&& t.aux@.len() == 0
    &&& t.trip_kind@.len() == 0
    &&& t.balance_after is None
    &&& t.line_station@.len() == 0
}

/// The transactions of records `n..10`, in order, skipping missing and empty ones.
pub open spec fn tmoney_records(fields: Seq<(Seq<char>, Seq<char>)>, n: int, ts: Seq<Transaction>) -> bool
    decreases 11 - n,
{
    if n > 10 {
        ts.len() == 0
    } else {
        match lookup(fields, "TMoney_trans_"@ + dec_digits(n as nat)) {
            Some(h) => if tmoney_record_used(h) {
                ts.len() >= 1 && tmoney_transaction(h, ts[0]) && tmoney_records(fields, n + 1, ts.drop_first())
            } else {
                tmoney_records(fields, n + 1, ts)
            },
            None => tmoney_records(fields, n + 1, ts),
        }
    }
}

fn be4_small(b: &[u8], s: usize) -> (res: u64)
    requires
        s + 4 <= b@.len(),
    ensures
        res == be_uint_spec(b@, s as int, s + 4),
        res < 0x1_0000_0000,
{
    let _n = b.len();
    let v = be_uint(b, s, s + 4);
    proof {
        let x = b@.subrange(s as int, s + 4);
        assert(x.drop_last() =~= x.subrange(0, 3));
        assert(x.subrange(0, 3).drop_last() =~= x.subrange(0, 2));
        assert(x.subrange(0, 2).drop_last() =~= x.subrange(0, 1));
        assert(x.subrange(0, 1).drop_last() =~= Seq::<u8>::empty());
        assert(super::util::be_wrapped(Seq::<u8>::empty()) == 0);
        assert(super::util::be_wrapped(x.subrange(0, 1)) < 0x100);
        assert(super::util::be_wrapped(x.subrange(0, 2)) < 0x1_0000);
        assert(super::util::be_wrapped(x.subrange(0, 3)) < 0x100_0000);
    }
    v
}

fn tmoney_records_from(raw: &RawCardData, n: u64) -> (res: Vec<Transaction>)
    requires
        1 <= n <= 11,
    ensures
        tmoney_records(raw.fields(), n as int, res@),
    decreases 11 - n,
{
    if n > 10 {
        return Vec::new();
    }
    let key = crate::text::concat_num("TMoney_trans_", "", n);
    proof {
        reveal_strlit("");
        assert("TMoney_trans_"@ + ""@ == "TMoney_trans_"@);
    }
    let mut rest = tmoney_records_from(raw, n + 1);
    let hex = match raw.get(key.as_str()) {
        Some(h) => h,
        None => {
            return rest;
        },
    };
    if super::transit::record_all_zero(hex) {
        return rest;
    }
    let bytes = hex_to_bytes(hex);
    if bytes.len() < 12 {
        return rest;
    }
    let kind = slice(hex, 0, 2);
    let mut t = Transaction::empty();
    t.kind = if str_eq(kind, "01") {
        to_owned_string("消费")
    } else if str_eq(kind, "02") {
        to_owned_string("充值")
    } else {
        to_owned_string("其他")
    };
    let a = be4_small(bytes.as_slice(), 1) as i64 * 100;
    t.amount = if str_eq(kind, "01") { -a } else { a };
    let ghost r = rest@;
    rest.insert(0, t);
    assert(rest@.drop_first() =~= r);
    rest
}

/// What decoding a T-Money read gives: name `T-Money`, currency `₩`; the balance (bytes 0-3
/// in won, in hundredths) when `TMoney_balance` has at least 4 bytes; from the purse, the
/// number (hex 24-34, leading zeros dropped) and the issue and expiry dates (hex 34-42, 42-50);
/// the records 1 to 10; a note when neither balance nor number was found.
pub open spec fn tmoney_parsed(fields: Seq<(Seq<char>, Seq<char>)>, card: ParsedCard) -> bool {
    let bal = match lookup(fields, "TMoney_balance"@) {
        Some(h) => if hex_bytes(h).len() >= 4 {
            Some((be_uint_spec(hex_bytes(h), 0, 4) * 100) as i64)
        } else {
            None
        },
        None => None,
    };
    &&& card.name@ == "T-Money"@
    &&& card.currency@ == "₩"@
    &&& card.balance == bal
    &&& card.protocols@.len() == 0
    &&& tmoney_records(fields, 1, card.transactions@)
    &&& match lookup(fields, "tmoney_fci"@) {
        Some(fci) => {
            let p = purse_spec(fci);
            let num = slice_spec(p, 24, 34);
            let issue = fmt_date8_spec(slice_spec(p, 34, 42));
            let expire = fmt_date8_spec(slice_spec(p, 42, 50));
            &&& if num.len() > 0 { card.number matches Some(n) && n@ == trim_zeros_spec(num) } else { card.number is None }
            &&& card.field_pairs() == (if issue.len() > 0 { seq![("发行日期"@, issue)] } else { Seq::empty() })
                + (if expire.len() > 0 { seq![("有效期至"@, expire)] } else { Seq::empty() })
        },
        None => card.number is None && card.fields@.len() == 0,
    }
    &&& strings_view(card.notes@) == if bal is None && card.number is None {
        seq!["T-Money 关键字段缺失"@]
    } else {
        Seq::empty()
    }
}

/// Decodes a T-Money read (`tmoney_parsed`).
pub fn parse(raw: &RawCardData) -> (res: ParsedCard)
    ensures
        tmoney_parsed(raw.fields(), res),
{
    let mut card = ParsedCard::new("T-Money");
    card.currency = to_owned_string("₩");
    if let Some(hex) = raw.get("TMoney_balance") {
        let bytes = hex_to_bytes(hex);
        if bytes.len() >= 4 {
            let v = be4_small(bytes.as_slice(), 0);
            card.balance = Some(v as i64 * 100);
        }
    }
    if let Some(fci) = raw.get("tmoney_fci") {
        let n = fci.unicode_len();
        let purse = if n > 8 { fci.substring_char(8, n) } else { fci };
        let num = slice(purse, 24, 34);
        if num.unicode_len() > 0 {
            card.number = Some(trim_leading_zeros(num));
        }
        let issue = fmt_date8(slice(purse, 34, 42));
        if issue.unicode_len() > 0 {
            card.add_field("发行日期", issue.as_str());
        }
        let ghost f_issue = card.field_pairs();
        let expire = fmt_date8(slice(purse, 42, 50));
        if expire.unicode_len() > 0 {
            card.add_field("有效期至", expire.as_str());
        }
        assert(purse@ == purse_spec(fci@));
        assert(card.field_pairs() =~= (if issue@.len() > 0 { seq![("发行日期"@, issue@)] } else { Seq::empty() })
            + (if expire@.len() > 0 { seq![("有效期至"@, expire@)] } else { Seq::empty() }));
    }
    card.transactions = tmoney_records_from(raw, 1);
    if card.balance.is_none() && card.number.is_none() {
        card.notes.push(to_owned_string("T-Money 关键字段缺失"));
        assert(strings_view(card.notes@) =~= seq!["T-Money 关键字段缺失"@]);
    } else {
        assert(strings_view(card.notes@) =~= Seq::<Seq<char>>::empty());
    }
    card
}

} // verus!
