//! Ordering the transactions of a combined transit card: each transaction's timestamp, the
//! years that Lingnan Pass records lack (taken from the T-Union records), and a stable sort,
//! newest first.
use vstd::prelude::*;
use crate::text::{dec_digits, push_char, push_str, str_eq};
use super::dates::{
    full_date_spec, month_day_spec, nearest_year_for_month_day, nearest_year_ok, parse_full_date,
    parse_month_day, parse_time, time_spec, timestamp_for_date_time, timestamp_spec, fits_i32,
};
use super::model::Transaction;

verus! {

/// The timestamp of a transaction: its `YYYY-MM-DD` date and `HH:MM:SS` time (midnight when
/// the time is missing or invalid); none when the date is not a full valid date or the
/// timestamp does not fit in an `i32`.
pub open spec fn sort_key_spec(date: Seq<char>, time: Seq<char>) -> Option<i32> {
    match full_date_spec(date) {
        None => None,
        Some((y, m, d)) => {
            let (h, mi, s) = match time_spec(time) {
                Some(t) => t,
                None => (0u32, 0u32, 0u32),
            };
            match timestamp_spec(y as int, m as int, d as int, h as int, mi as int, s as int) {
                Some(t) => if fits_i32(t) { Some(t as i32) } else { None },
                None => None,
            }
        },
    }
}

/// The timestamp of a transaction (`sort_key_spec` of its date and time).
#[verifier::opaque]
pub open spec fn tx_key(t: Transaction) -> Option<i32> {
    sort_key_spec(t.date@, t.time@)
}

/// The timestamp of a transaction (`sort_key_spec`).
pub fn transaction_sort_key(tx: &Transaction) -> (res: Option<i32>)
    ensures
        res == sort_key_spec(tx.date@, tx.time@),
        res == tx_key(*tx),
{
    proof {
        reveal(tx_key);
    }
    let (year, month, day) = match parse_full_date(tx.date.as_str()) {
        Some(v) => v,
        None => {
            return None;
        },
    };
    let (hour, minute, second) = match parse_time(tx.time.as_str()) {
        Some(t) => t,
        None => (0, 0, 0),
    };
    timestamp_for_date_time(year, month, day, hour, minute, second)
}

/// `a` comes no later than `b` in newest-first order: a key at least as large, and any key
/// before no key.
pub open spec fn key_ge(a: Option<i32>, b: Option<i32>) -> bool {
    match (a, b) {
        (_, None) => true,
        (None, Some(_)) => false,
        (Some(x), Some(y)) => x >= y,
    }
}

fn key_lt(a: Option<i32>, b: Option<i32>) -> (res: bool)
    ensures
        res == !key_ge(a, b),
{
    match (a, b) {
        (_, None) => false,
        (None, Some(_)) => true,
        (Some(x), Some(y)) => x < y,
    }
}

/// `perm` lists each index below `n` exactly once.
pub open spec fn is_perm(perm: Seq<int>, n: int) -> bool {
    &&& perm.len() == n
    &&& forall|i: int| 0 <= i < n ==> 0 <= #[trigger] perm[i] < n
    &&& forall|i: int, j: int| 0 <= i < j < n ==> #[trigger] perm[i] != #[trigger] perm[j]
}

/// `out` is `input` sorted newest first, keeping the order of transactions with equal
/// timestamps: a rearrangement by `perm` whose keys do not increase, and where equal keys keep
/// their relative order.
pub open spec fn stable_sorted_by(input: Seq<Transaction>, out: Seq<Transaction>, perm: Seq<int>) -> bool {
    &&& is_perm(perm, input.len() as int)
    &&& out.len() == input.len()
    &&& forall|i: int| 0 <= i < out.len() ==> #[trigger] out[i] == input[perm[i]]
    &&& forall|i: int, j: int|
        0 <= i < j < out.len() ==> key_ge(
            tx_key(#[trigger] out[i]),
            tx_key(#[trigger] out[j]),
        )
    &&& forall|i: int, j: int|
        0 <= i < j < out.len() && tx_key(#[trigger] out[i]) == tx_key(#[trigger] out[j]) ==> perm[i] < perm[j]
}

/// `out` is `input` sorted newest first, stably (`stable_sorted_by` for some rearrangement).
pub open spec fn stable_sorted(input: Seq<Transaction>, out: Seq<Transaction>) -> bool {
    exists|perm: Seq<int>| #[trigger] stable_sorted_by(input, out, perm)
}

/// Sorts transactions newest first; transactions with equal timestamps keep their order
/// (`stable_sorted`).
pub fn sort_newest_first(ts: Vec<Transaction>) -> (res: Vec<Transaction>)
    ensures
        stable_sorted(ts@, res@),
{
    let ghost input = ts@;
    let mut rest = ts;
    let mut out: Vec<Transaction> = Vec::new();
    let mut out_keys: Vec<Option<i32>> = Vec::new();
    let ghost mut perm: Seq<int> = Seq::empty();
    let mut m: usize = 0;
    let total = rest.len();
    while rest.len() > 0
        invariant
            total == input.len(),
            m + rest@.len() == input.len(),
            rest@ == input.subrange(m as int, input.len() as int),
            out_keys@.len() == out@.len(),
            forall|i: int| 0 <= i < out@.len() ==> #[trigger] out_keys@[i] == tx_key(out@[i]),
            stable_sorted_by(input.subrange(0, m as int), out@, perm),
        decreases rest@.len(),
    {
        let t = rest.remove(0);
        let k = transaction_sort_key(&t);
        let ghost before = out@;
        let ghost perm0 = perm;
        let ghost pre_in = input.subrange(0, m as int);
        let mut pos: usize = 0;
        while pos < out_keys.len() && !key_lt(out_keys[pos], k)
            invariant
                out_keys@.len() == out@.len(),
                pos <= out@.len(),
                forall|i: int| 0 <= i < out@.len() ==> #[trigger] out_keys@[i] == tx_key(out@[i]),
                forall|i: int| 0 <= i < pos ==> key_ge(#[trigger] out_keys@[i], k),
            decreases out@.len() - pos,
        {
            pos = pos + 1;
        }
        proof {
            assert(input[m as int] == t);
            assert(input.subrange(0, m + 1) =~= pre_in.push(t));
            if pos < before.len() {
                assert(!key_ge(out_keys@[pos as int], k));
            }
            assert forall|i: int| 0 <= i < pos implies key_ge(
                tx_key(#[trigger] before[i]),
                k,
            ) by {
                assert(key_ge(out_keys@[i], k));
            }
            perm = lemma_insert_sorted(pre_in, before, perm0, t, pos as int, k);
        }
        out.insert(pos, t);
        out_keys.insert(pos, k);
        proof {
            assert forall|i: int| 0 <= i < out@.len() implies #[trigger] out_keys@[i] == tx_key(out@[i]) by {
                if i < pos {
                    assert(out@[i] == before[i]);
                } else if i > pos {
                    assert(out@[i] == before[i - 1]);
                }
            }
            assert(out@ == before.insert(pos as int, t));
        }
        m = m + 1;
        assert(rest@ =~= input.subrange(m as int, input.len() as int));
    }
    assert(input.subrange(0, m as int) =~= input);
    out
}

proof fn lemma_insert_sorted(
    pre_in: Seq<Transaction>,
    before: Seq<Transaction>,
    perm0: Seq<int>,
    t: Transaction,
    pos: int,
    k: Option<i32>,
) -> (np: Seq<int>)
    requires
        stable_sorted_by(pre_in, before, perm0),
        0 <= pos <= before.len(),
        k == tx_key(t),
        forall|i: int| 0 <= i < pos ==> key_ge(tx_key(#[trigger] before[i]), k),
        pos < before.len() ==> !key_ge(tx_key(before[pos]), k),
    ensures
        stable_sorted_by(pre_in.push(t), before.insert(pos, t), np),
{
    let m = pre_in.len() as int;
    let np = perm0.subrange(0, pos).push(m) + perm0.subrange(pos, perm0.len() as int);
    let nin = pre_in.push(t);
    let nout = before.insert(pos, t);
    assert forall|i: int| 0 <= i < nout.len() implies #[trigger] nout[i] == nin[np[i]] by {
        if i < pos {
            assert(nout[i] == before[i]);
            assert(np[i] == perm0[i]);
        } else if i == pos {
        } else {
            assert(nout[i] == before[i - 1]);
            assert(np[i] == perm0[i - 1]);
        }
    }
    assert forall|i: int| 0 <= i < m + 1 implies 0 <= #[trigger] np[i] < m + 1 by {
        if i < pos {
            assert(np[i] == perm0[i]);
        } else if i > pos {
            assert(np[i] == perm0[i - 1]);
        }
    }
    assert forall|i: int, j: int| 0 <= i < j < m + 1 implies #[trigger] np[i] != #[trigger] np[j] by {
        if i < pos {
            assert(np[i] == perm0[i]);
        } else if i > pos {
            assert(np[i] == perm0[i - 1]);
        }
        if j < pos {
            assert(np[j] == perm0[j]);
        } else if j > pos {
            assert(np[j] == perm0[j - 1]);
        }
    }
    assert forall|i: int| pos <= i < before.len() implies !key_ge(
        tx_key(#[trigger] before[i]),
        k,
    ) by {
        if i > pos {
            assert(key_ge(
                tx_key(before[pos]),
                tx_key(before[i]),
            ));
        }
    }
    assert forall|i: int, j: int| 0 <= i < j < nout.len() implies key_ge(
        tx_key(#[trigger] nout[i]),
        tx_key(#[trigger] nout[j]),
    ) by {
        if i < pos {
            assert(nout[i] == before[i]);
        } else if i > pos {
            assert(nout[i] == before[i - 1]);
        }
        if j < pos {
            assert(nout[j] == before[j]);
        } else if j > pos {
            assert(nout[j] == before[j - 1]);
        }
    }
    assert forall|i: int, j: int|
        0 <= i < j < nout.len() && tx_key(#[trigger] nout[i]) == tx_key(#[trigger] nout[j]) implies np[i] < np[j] by {
        if i < pos {
            assert(nout[i] == before[i]);
            assert(np[i] == perm0[i]);
        } else if i > pos {
            assert(nout[i] == before[i - 1]);
            assert(np[i] == perm0[i - 1]);
        }
        if j < pos {
            assert(nout[j] == before[j]);
            assert(np[j] == perm0[j]);
        } else if j > pos {
            assert(nout[j] == before[j - 1]);
            assert(np[j] == perm0[j - 1]);
        }
    }
    np
}

} // verus!

verus! {

/// The timestamps of the T-Union transactions that have one, in order: the anchors for
/// completing Lingnan Pass dates.
pub open spec fn anchors_of(ts: Seq<Transaction>) -> Seq<i32>
    decreases ts.len(),
{
    if ts.len() == 0 {
        Seq::empty()
    } else {
        let rest = anchors_of(ts.drop_last());
        let t = ts.last();
        if t.source@ == "交通联合"@ && tx_key(t) is Some {
            rest.push(tx_key(t)->0)
        } else {
            rest
        }
    }
}

/// `n` zeros.
pub open spec fn zeros(n: int) -> Seq<char> {
    Seq::new(if n > 0 { n as nat } else { 0 }, |i: int| '0')
}

/// A number formatted with at least `width` characters, zero-padded after the sign (Rust's
/// `{:0width$}`).
pub open spec fn zero_padded(v: int, width: int) -> Seq<char> {
    if v >= 0 {
        zeros(width - dec_digits(v as nat).len()) + dec_digits(v as nat)
    } else {
        "-"@ + zeros(width - 1 - dec_digits((-v) as nat).len()) + dec_digits((-v) as nat)
    }
}

/// `YYYY-MM-DD` with the year padded to 4 and month and day to 2 characters.
pub open spec fn ymd_text(y: int, m: int, d: int) -> Seq<char> {
    zero_padded(y, 4) + "-"@ + zero_padded(m, 2) + "-"@ + zero_padded(d, 2)
}

fn push_zeros(s: &mut String, n: usize)
    ensures
        final(s)@ == old(s)@ + zeros(n as int),
{
    let mut i: usize = 0;
    while i < n
        invariant
            i <= n,
            s@ == old(s)@ + zeros(i as int),
        decreases n - i,
    {
        push_char(s, '0');
        i = i + 1;
        assert(s@ =~= old(s)@ + zeros(i as int));
    }
}

fn push_padded(s: &mut String, v: i64, width: usize)
    requires
        v > i64::MIN,
        width >= 1,
    ensures
        final(s)@ == old(s)@ + zero_padded(v as int, width as int),
{
    let a: u64 = if v >= 0 { v as u64 } else { (-v) as u64 };
    let digits = crate::text::decimal(a);
    let len = digits.unicode_len();
    if v < 0 {
        push_char(s, '-');
        let pad = if width - 1 > len { width - 1 - len } else { 0 };
        push_zeros(s, pad);
    } else {
        let pad = if width > len { width - len } else { 0 };
        push_zeros(s, pad);
    }
    push_str(s, digits.as_str());
    proof {
        reveal_strlit("-");
    }
    assert(s@ =~= old(s)@ + zero_padded(v as int, width as int));
}

/// The date `YYYY-MM-DD` of a year, month and day.
fn ymd_string(y: i32, m: u32, d: u32) -> (res: String)
    ensures
        res@ == ymd_text(y as int, m as int, d as int),
{
    let mut s = String::new();
    push_padded(&mut s, y as i64, 4);
    push_str(&mut s, "-");
    push_padded(&mut s, m as i64, 2);
    push_str(&mut s, "-");
    push_padded(&mut s, d as i64, 2);
    assert(s@ =~= ymd_text(y as int, m as int, d as int));
    s
}

/// A transaction `t` after completing Lingnan Pass dates: a Lingnan Pass transaction with an
/// `MM-DD` date gets the year nearest to the anchors (`nearest_year_ok`), when there is one;
/// anything else is unchanged.
pub open spec fn completed_one(t: Transaction, anchors: Seq<i32>, r: Transaction) -> bool {
    if t.source@ == "岭南通"@ && month_day_spec(t.date@) is Some {
        let (m, d) = month_day_spec(t.date@)->0;
        exists|y: Option<i32>| #[trigger] nearest_year_ok(m, d, anchors, y) && match y {
            Some(yy) => r.date@ == ymd_text(yy as int, m as int, d as int) && r.source == t.source && r.seq == t.seq
                && r.kind == t.kind && r.amount == t.amount && r.time == t.time && r.terminal == t.terminal && r.aux
                == t.aux && r.trip_kind == t.trip_kind && r.balance_after == t.balance_after && r.line_station
                == t.line_station,
            None => r == t,
        }
    } else {
        r == t
    }
}

/// The transactions after completing the Lingnan Pass dates (`completed_one` for each, with the
/// anchors of all the transactions).
pub open spec fn years_completed(ts: Seq<Transaction>, new: Seq<Transaction>) -> bool {
    &&& new.len() == ts.len()
    &&& forall|i: int| 0 <= i < ts.len() ==> completed_one(ts[i], anchors_of(ts), #[trigger] new[i])
}

/// Gives Lingnan Pass transactions (dated `MM-DD`) the year nearest to the T-Union ones
/// (`years_completed`).
pub fn complete_lingnan_transaction_years(ts: &mut Vec<Transaction>)
    ensures
        years_completed(old(ts)@, final(ts)@),
{
    let ghost orig = ts@;
    let n = ts.len();
    let mut anchors: Vec<i32> = Vec::new();
    let mut i: usize = 0;
    while i < n
        invariant
            n == ts@.len(),
            ts@ == orig,
            i <= n,
            anchors@ == anchors_of(orig.subrange(0, i as int)),
        decreases n - i,
    {
        let t = &ts[i];
        let k = transaction_sort_key(t);
        assert(orig.subrange(0, i + 1).drop_last() =~= orig.subrange(0, i as int));
        if str_eq(t.source.as_str(), "交通联合") {
            if let Some(v) = k {
                anchors.push(v);
            }
        }
        i = i + 1;
    }
    assert(orig.subrange(0, n as int) =~= orig);
    let ghost anc = anchors@;
    let mut j: usize = 0;
    while j < n
        invariant
            n == ts@.len(),
            n == orig.len(),
            j <= n,
            anc == anchors@,
            anc == anchors_of(orig),
            forall|q: int| 0 <= q < j ==> completed_one(orig[q], anc, #[trigger] ts@[q]),
            forall|q: int| j <= q < n ==> #[trigger] ts@[q] == orig[q],
        decreases n - j,
    {
        let is_lingnan = str_eq(ts[j].source.as_str(), "岭南通");
        let md = if is_lingnan { parse_month_day(ts[j].date.as_str()) } else { None };
        let ghost before = ts@;
        match md {
            Some((m, d)) => {
                let y = nearest_year_for_month_day(m, d, anchors.as_slice());
                match y {
                    Some(yy) => {
                        let mut t = ts.remove(j);
                        t.date = ymd_string(yy, m, d);
                        ts.insert(j, t);
                        proof {
                            assert(ts@[j as int].date@ == ymd_text(yy as int, m as int, d as int));
                            assert(nearest_year_ok(m, d, anc, Some(yy)));
                            assert(completed_one(orig[j as int], anc, ts@[j as int]));
                            assert forall|q: int| 0 <= q < n && q != j implies #[trigger] ts@[q] == before[q] by {
                                if q < j {
                                    assert(ts@[q] == before[q]);
                                } else {
                                    assert(ts@[q] == before[q]);
                                }
                            }
                        }
                    },
                    None => {
                        assert(nearest_year_ok(m, d, anc, None));
                        assert(completed_one(orig[j as int], anc, ts@[j as int]));
                    },
                }
            },
            None => {
                assert(completed_one(orig[j as int], anc, ts@[j as int]));
            },
        }
        j = j + 1;
    }
}

} // verus!
