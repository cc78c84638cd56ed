//! Reading PBOC transit and campus cards: fixed files, purse, records, and the card-specific
//! extras. Raw bytes only; their meaning is decoded elsewhere.
use vstd::prelude::*;
use crate::aids::{amtjavacard, amtjavacard_spec, lingnan_ticl, type_a_chain, type_a_chain_spec};
use crate::apdu::{Apdu, ApduResponse, case3_bytes, case4_bytes, response_ok, status_word};
use crate::error::Error;
use crate::aids::lingnan_ticl_spec;
use crate::helpers::{fetched, lemma_log_trans, lemma_one_more_extends, load_init_data, log_extends, select_aid};
use crate::model::{Exchange, RawCardData, Transceiver};
use crate::hexfmt::hex_upper;
use crate::text::{concat2, concat_num, dec_digits, push_decimal, str_eq, to_owned_string};

verus! {

/// The command to resend after a reply to `cmd`: with `6Cxx` the last byte (`Le`) becomes `xx`;
/// with `6700` a non-zero last byte becomes `00`; otherwise none.
pub open spec fn retry_cmd(cmd: Seq<u8>, r: ApduResponse) -> Option<Seq<u8>> {
    if cmd.len() == 0 {
        None
    } else if r.sw1 == 0x6C {
        Some(cmd.drop_last().push(r.sw2))
    } else if status_word(r) == 0x6700 && cmd.last() != 0 {
        Some(cmd.drop_last().push(0))
    } else {
        None
    }
}

/// `after` extends `before` by sending `cmd` and, when its reply calls for it, the
/// corrected command of `retry_cmd`.
pub open spec fn retried(before: Seq<Exchange>, after: Seq<Exchange>, cmd: Seq<u8>) -> bool {
    let n = before.len() as int;
    &&& after.len() >= n + 1
    &&& after.subrange(0, n) == before
    &&& after[n].0 == cmd
    &&& match after[n].1 {
        Err(_) => after.len() == n + 1,
        Ok(r1) => match retry_cmd(cmd, r1) {
            None => after.len() == n + 1,
            Some(c2) => after.len() == n + 2 && after[n + 1].0 == c2,
        },
    }
}

pub proof fn lemma_retried_extends(before: Seq<Exchange>, after: Seq<Exchange>, cmd: Seq<u8>)
    requires
        retried(before, after, cmd),
    ensures
        log_extends(before, after),
{
}

/// Sends `apdu`; on `6Cxx` resends it with `Le = xx`, on `6700` resends it with `Le = 00`
/// (unless `Le` already was `00`). The result is the last reply.
pub fn transceive_retry<T: Transceiver>(tx: &mut T, apdu: Apdu) -> (res: Result<ApduResponse, Error>)
    ensures
        retried(old(tx).exchanges(), final(tx).exchanges(), apdu@),
        res == final(tx).exchanges().last().1,
{
    let r = tx.transceive(&apdu);
    let ghost n = old(tx).exchanges().len() as int;
    assert(tx.exchanges().subrange(0, n) =~= old(tx).exchanges());
    let resp = r?;
    let mut bytes = vstd::slice::slice_to_vec(apdu.as_bytes());
    if bytes.len() == 0 {
        return Ok(resp);
    }
    if resp.sw1 == 0x6C {
        bytes.pop();
        bytes.push(resp.sw2);
        let a2 = Apdu::from_bytes(bytes);
        assert(a2@ =~= apdu@.drop_last().push(resp.sw2));
        let r2 = tx.transceive(&a2);
        assert(tx.exchanges().subrange(0, n) =~= old(tx).exchanges());
        return r2;
    }
    if resp.sw() == 0x6700 && bytes[bytes.len() - 1] != 0x00 {
        bytes.pop();
        bytes.push(0x00);
        let a2 = Apdu::from_bytes(bytes);
        assert(a2@ =~= apdu@.drop_last().push(0));
        let r2 = tx.transceive(&a2);
        assert(tx.exchanges().subrange(0, n) =~= old(tx).exchanges());
        return r2;
    }
    Ok(resp)
}

/// Sends `bytes` with the `transceive_retry` correction and stores the data of a `9000` reply
/// under `key`; the result tells whether the final status was `9000`.
pub fn put_if_ok<T: Transceiver>(tx: &mut T, data: &mut RawCardData, key: String, bytes: Vec<u8>) -> (res: Result<bool, Error>)
    ensures
        retried(old(tx).exchanges(), final(tx).exchanges(), bytes@),
        fetched(*old(data), *final(data), final(tx).exchanges().last().1, key@, res),
{
    let r = transceive_retry(tx, Apdu::from_bytes(bytes));
    match r {
        Err(e) => Err(e),
        Ok(resp) => {
            if resp.is_ok() {
                data.put(key, resp.data_hex());
                Ok(true)
            } else {
                Ok(false)
            }
        },
    }
}

/// Raw fields, key then hexadecimal value.
pub type Fields = Seq<(Seq<char>, Seq<char>)>;

/// One step of a transit read plan.
pub enum ReadOp {
    /// Send the command, with the `transceive_retry` resend, and store the data of a `9000`
    /// reply under the key.
    Put(Seq<char>, Seq<u8>),
    /// As `Put` with the first command; when its reply is not `9000`, as `Put` with the second
    /// command under the same key.
    PutOr(Seq<char>, Seq<u8>, Seq<u8>),
    /// Records `00 B2 <n> <p2> <le>` for `n` from 1 to the maximum, each as `Put` under the key
    /// followed by the decimal `n`, until one is not `9000`.
    Records(Seq<char>, u8, u8, u8),
    /// Send the command once, without resend, and store the data of a `9000` reply under the key.
    Select(Seq<char>, Seq<u8>),
    /// Send the first command with resend; when it answers `9000`, go on as `Put` with the key
    /// and the second command.
    Then(Seq<u8>, Seq<char>, Seq<u8>),
}

/// What a plan, or one of its steps, comes to on a log of exchanges from a position.
pub enum PlanRun {
    /// The log does not hold the exchanges that the plan asks for.
    Invalid,
    /// An exchange failed: the fields stored before it, the error, the position after.
    Failed(Fields, Error, int),
    /// The plan went through: the fields stored and the position after.
    Ran(Fields, int),
}

/// The retried exchange of `cmd` at position `i` of `log`: its final reply and the position
/// after it (`retried`), if the log holds it there.
pub open spec fn retry_at(log: Seq<Exchange>, i: int, cmd: Seq<u8>) -> Option<(Result<ApduResponse, Error>, int)> {
    if 0 <= i < log.len() && log[i].0 == cmd {
        match log[i].1 {
            Err(e) => Some((Err(e), i + 1)),
            Ok(r1) => match retry_cmd(cmd, r1) {
                None => Some((Ok(r1), i + 1)),
                Some(c2) => if i + 1 < log.len() && log[i + 1].0 == c2 {
                    Some((log[i + 1].1, i + 2))
                } else {
                    None
                },
            },
        }
    } else {
        None
    }
}

/// The single exchange of `cmd` at position `i` of `log`, if the log holds it there.
pub open spec fn once_at(log: Seq<Exchange>, i: int, cmd: Seq<u8>) -> Option<(Result<ApduResponse, Error>, int)> {
    if 0 <= i < log.len() && log[i].0 == cmd {
        Some((log[i].1, i + 1))
    } else {
        None
    }
}

/// Whether a reply is a `9000` response.
pub open spec fn put_hit(reply: Result<ApduResponse, Error>) -> bool {
    reply matches Ok(r) && response_ok(r)
}

/// The field a reply stores under `key`: its data in hexadecimal on `9000`, else none.
pub open spec fn stored_reply(key: Seq<char>, reply: Result<ApduResponse, Error>) -> Fields {
    match reply {
        Ok(r) => if response_ok(r) {
            seq![(key, hex_upper(r.data@))]
        } else {
            Seq::empty()
        },
        Err(_) => Seq::empty(),
    }
}

/// A stored reply, or the failure of the exchange.
pub open spec fn put_run(key: Seq<char>, got: Option<(Result<ApduResponse, Error>, int)>) -> PlanRun {
    match got {
        None => PlanRun::Invalid,
        Some((Err(e), j)) => PlanRun::Failed(Seq::empty(), e, j),
        Some((Ok(r), j)) => PlanRun::Ran(stored_reply(key, Ok(r)), j),
    }
}

/// `f` stored in front of what follows.
pub open spec fn prepend(f: Fields, r: PlanRun) -> PlanRun {
    match r {
        PlanRun::Invalid => PlanRun::Invalid,
        PlanRun::Failed(g, e, k) => PlanRun::Failed(f + g, e, k),
        PlanRun::Ran(g, k) => PlanRun::Ran(f + g, k),
    }
}

/// The record read `00 B2 <n> <p2> <le>`.
pub open spec fn record_read_cmd(n: int, p2: u8, le: u8) -> Seq<u8> {
    seq![0x00u8, 0xB2, n as u8, p2, le]
}

/// Records `n` to `max` from position `i`: each stored under `key` and its number, until one
/// is not `9000`.
pub open spec fn records_run(key: Seq<char>, p2: u8, le: u8, max: u8, n: int, log: Seq<Exchange>, i: int) -> PlanRun
    decreases max + 1 - n,
{
    if n > max || n < 1 {
        PlanRun::Ran(Seq::empty(), i)
    } else {
        match retry_at(log, i, record_read_cmd(n, p2, le)) {
            None => PlanRun::Invalid,
            Some((Err(e), j)) => PlanRun::Failed(Seq::empty(), e, j),
            Some((Ok(r), j)) => if !response_ok(r) {
                PlanRun::Ran(Seq::empty(), j)
            } else {
                prepend(
                    seq![(key + dec_digits(n as nat), hex_upper(r.data@))],
                    records_run(key, p2, le, max, n + 1, log, j),
                )
            },
        }
    }
}

/// One step of a plan from position `i` of `log`.
pub open spec fn op_run(op: ReadOp, log: Seq<Exchange>, i: int) -> PlanRun {
    match op {
        ReadOp::Put(key, cmd) => put_run(key, retry_at(log, i, cmd)),
        ReadOp::PutOr(key, c1, c2) => match retry_at(log, i, c1) {
            Some((Ok(r), j)) => if response_ok(r) {
                PlanRun::Ran(stored_reply(key, Ok(r)), j)
            } else {
                put_run(key, retry_at(log, j, c2))
            },
            got => put_run(key, got),
        },
        ReadOp::Records(key, p2, le, max) => records_run(key, p2, le, max, 1, log, i),
        ReadOp::Select(key, cmd) => put_run(key, once_at(log, i, cmd)),
        ReadOp::Then(g, key, cmd) => match retry_at(log, i, g) {
            None => PlanRun::Invalid,
            Some((Err(e), j)) => PlanRun::Failed(Seq::empty(), e, j),
            Some((Ok(r), j)) => if response_ok(r) {
                put_run(key, retry_at(log, j, cmd))
            } else {
                PlanRun::Ran(Seq::empty(), j)
            },
        },
    }
}

/// A plan from position `i` of `log`: its steps in order, the first failure ending it.
pub open spec fn plan_run(plan: Seq<ReadOp>, log: Seq<Exchange>, i: int) -> PlanRun
    decreases plan.len(),
{
    if plan.len() == 0 {
        PlanRun::Ran(Seq::empty(), i)
    } else {
        match op_run(plan[0], log, i) {
            PlanRun::Invalid => PlanRun::Invalid,
            PlanRun::Failed(f, e, j) => PlanRun::Failed(f, e, j),
            PlanRun::Ran(f, j) => prepend(f, plan_run(plan.drop_first(), log, j)),
        }
    }
}

/// A read whose exchanges came to `run`, the log being `log_len` long at its end: the run
/// used the log to its end, the read ended with `res` (the run's failure, else success), and
/// the raw fields gained what the run stored; nothing else of the card data changed.
pub open spec fn run_read(run: PlanRun, log_len: int, before: RawCardData, after: RawCardData, res: Result<(), Error>) -> bool {
    &&& after.card_type == before.card_type
    &&& after.atr == before.atr
    &&& after.sub_cards == before.sub_cards
    &&& after.apdu_history == before.apdu_history
    &&& match run {
        PlanRun::Invalid => false,
        PlanRun::Failed(f, e, k) => k == log_len && res == Err::<(), Error>(e) && after.fields() == before.fields() + f,
        PlanRun::Ran(f, k) => k == log_len && res is Ok && after.fields() == before.fields() + f,
    }
}

/// A read that followed `plan` from position `start` of `log` to its end (`run_read`).
pub open spec fn plan_read(plan: Seq<ReadOp>, log: Seq<Exchange>, start: int, before: RawCardData, after: RawCardData, res: Result<(), Error>) -> bool {
    run_read(plan_run(plan, log, start), log.len() as int, before, after, res)
}

/// A result with its value dropped.
pub open spec fn unit_result<A>(r: Result<A, Error>) -> Result<(), Error> {
    match r {
        Ok(_) => Ok(()),
        Err(e) => Err(e),
    }
}

proof fn lemma_retried_at(before: Seq<Exchange>, after: Seq<Exchange>, cmd: Seq<u8>)
    requires
        retried(before, after, cmd),
    ensures
        retry_at(after, before.len() as int, cmd) == Some((after.last().1, after.len() as int)),
{
}

proof fn lemma_retry_stable(l1: Seq<Exchange>, l2: Seq<Exchange>, i: int, cmd: Seq<u8>)
    requires
        log_extends(l1, l2),
        retry_at(l1, i, cmd) is Some,
    ensures
        retry_at(l2, i, cmd) == retry_at(l1, i, cmd),
{
    assert(l2[i] == l1[i]);
    if i + 1 < l1.len() {
        assert(l2[i + 1] == l1[i + 1]);
    }
}

proof fn lemma_records_stable(key: Seq<char>, p2: u8, le: u8, max: u8, n: int, l1: Seq<Exchange>, l2: Seq<Exchange>, i: int)
    requires
        log_extends(l1, l2),
        !(records_run(key, p2, le, max, n, l1, i) is Invalid),
    ensures
        records_run(key, p2, le, max, n, l2, i) == records_run(key, p2, le, max, n, l1, i),
    decreases max + 1 - n,
{
    if !(n > max || n < 1) {
        lemma_retry_stable(l1, l2, i, record_read_cmd(n, p2, le));
        match retry_at(l1, i, record_read_cmd(n, p2, le)) {
            Some((Ok(r), j)) => {
                if response_ok(r) {
                    lemma_records_stable(key, p2, le, max, n + 1, l1, l2, j);
                }
            },
            _ => {},
        }
    }
}

proof fn lemma_op_stable(op: ReadOp, l1: Seq<Exchange>, l2: Seq<Exchange>, i: int)
    requires
        log_extends(l1, l2),
        !(op_run(op, l1, i) is Invalid),
    ensures
        op_run(op, l2, i) == op_run(op, l1, i),
{
    match op {
        ReadOp::Put(key, cmd) => {
            lemma_retry_stable(l1, l2, i, cmd);
        },
        ReadOp::PutOr(key, c1, c2) => {
            lemma_retry_stable(l1, l2, i, c1);
            match retry_at(l1, i, c1) {
                Some((Ok(r), j)) => {
                    if !response_ok(r) {
                        lemma_retry_stable(l1, l2, j, c2);
                    }
                },
                _ => {},
            }
        },
        ReadOp::Records(key, p2, le, max) => {
            lemma_records_stable(key, p2, le, max, 1, l1, l2, i);
        },
        ReadOp::Select(key, cmd) => {
            assert(l2[i] == l1[i]);
        },
        ReadOp::Then(g, key, cmd) => {
            lemma_retry_stable(l1, l2, i, g);
            match retry_at(l1, i, g) {
                Some((Ok(r), j)) => {
                    if response_ok(r) {
                        lemma_retry_stable(l1, l2, j, cmd);
                    }
                },
                _ => {},
            }
        },
    }
}

proof fn lemma_plan_stable(plan: Seq<ReadOp>, l1: Seq<Exchange>, l2: Seq<Exchange>, i: int)
    requires
        log_extends(l1, l2),
        !(plan_run(plan, l1, i) is Invalid),
    ensures
        plan_run(plan, l2, i) == plan_run(plan, l1, i),
    decreases plan.len(),
{
    if plan.len() > 0 {
        lemma_op_stable(plan[0], l1, l2, i);
        match op_run(plan[0], l1, i) {
            PlanRun::Ran(f, j) => {
                lemma_plan_stable(plan.drop_first(), l1, l2, j);
            },
            _ => {},
        }
    }
}

proof fn lemma_prepend_assoc(f: Fields, g: Fields, r: PlanRun)
    ensures
        prepend(f, prepend(g, r)) == prepend(f + g, r),
{
    match r {
        PlanRun::Failed(h, e, k) => {
            assert(f + (g + h) =~= (f + g) + h);
        },
        PlanRun::Ran(h, k) => {
            assert(f + (g + h) =~= (f + g) + h);
        },
        _ => {},
    }
}

/// A plan followed by another: the second runs from where the first ended.
proof fn lemma_plan_append(p1: Seq<ReadOp>, p2: Seq<ReadOp>, log: Seq<Exchange>, i: int)
    ensures
        plan_run(p1 + p2, log, i) == match plan_run(p1, log, i) {
            PlanRun::Invalid => PlanRun::Invalid,
            PlanRun::Failed(f, e, j) => PlanRun::Failed(f, e, j),
            PlanRun::Ran(f, j) => prepend(f, plan_run(p2, log, j)),
        },
    decreases p1.len(),
{
    if p1.len() == 0 {
        assert(p1 + p2 =~= p2);
        match plan_run(p2, log, i) {
            PlanRun::Failed(g, e, k) => {
                assert(Seq::<(Seq<char>, Seq<char>)>::empty() + g =~= g);
            },
            PlanRun::Ran(g, k) => {
                assert(Seq::<(Seq<char>, Seq<char>)>::empty() + g =~= g);
            },
            _ => {},
        }
    } else {
        assert((p1 + p2)[0] == p1[0]);
        assert((p1 + p2).drop_first() =~= p1.drop_first() + p2);
        match op_run(p1[0], log, i) {
            PlanRun::Ran(f, j) => {
                lemma_plan_append(p1.drop_first(), p2, log, j);
                match plan_run(p1.drop_first(), log, j) {
                    PlanRun::Ran(g, k) => {
                        lemma_prepend_assoc(f, g, plan_run(p2, log, k));
                    },
                    _ => {},
                }
            },
            _ => {},
        }
    }
}

proof fn lemma_plan_single(op: ReadOp, log: Seq<Exchange>, i: int)
    ensures
        plan_run(seq![op], log, i) == op_run(op, log, i),
{
    assert(seq![op][0] == op);
    assert(seq![op].drop_first() =~= Seq::<ReadOp>::empty());
    match op_run(op, log, i) {
        PlanRun::Ran(f, j) => {
            assert(plan_run(Seq::<ReadOp>::empty(), log, j) == PlanRun::Ran(Seq::<(Seq<char>, Seq<char>)>::empty(), j));
            assert(f + Seq::<(Seq<char>, Seq<char>)>::empty() =~= f);
        },
        _ => {},
    }
}

/// A plan that went through, followed by a second plan read right after it.
proof fn lemma_plan_then(
    p1: Seq<ReadOp>,
    p2: Seq<ReadOp>,
    l1: Seq<Exchange>,
    l2: Seq<Exchange>,
    start: int,
    d0: RawCardData,
    d1: RawCardData,
    d2: RawCardData,
    r2: Result<(), Error>,
)
    requires
        plan_read(p1, l1, start, d0, d1, Ok(())),
        log_extends(l1, l2),
        plan_read(p2, l2, l1.len() as int, d1, d2, r2),
    ensures
        plan_read(p1 + p2, l2, start, d0, d2, r2),
{
    lemma_plan_stable(p1, l1, l2, start);
    lemma_plan_append(p1, p2, l2, start);
    match plan_run(p1, l1, start) {
        PlanRun::Ran(f, j) => {
            match plan_run(p2, l2, j) {
                PlanRun::Ran(g, k) => {
                    assert(d2.fields() =~= d0.fields() + (f + g));
                },
                PlanRun::Failed(g, e, k) => {
                    assert(d2.fields() =~= d0.fields() + (f + g));
                },
                _ => {},
            }
        },
        _ => {},
    }
}

/// A plan that failed, with more planned after it.
proof fn lemma_plan_stop(p1: Seq<ReadOp>, p2: Seq<ReadOp>, log: Seq<Exchange>, start: int, d0: RawCardData, d1: RawCardData, e: Error)
    requires
        plan_read(p1, log, start, d0, d1, Err(e)),
    ensures
        plan_read(p1 + p2, log, start, d0, d1, Err(e)),
{
    lemma_plan_append(p1, p2, log, start);
}

/// Nothing read: the empty plan.
proof fn lemma_plan_empty(log: Seq<Exchange>, d: RawCardData)
    ensures
        plan_read(Seq::empty(), log, log.len() as int, d, d, Ok(())),
{
    assert(d.fields() + Seq::<(Seq<char>, Seq<char>)>::empty() =~= d.fields());
}

/// The retried exchange of `bytes`, its `9000` data stored under `key` (`ReadOp::Put`); the
/// value tells whether the reply was `9000`.
fn put_op<T: Transceiver>(tx: &mut T, data: &mut RawCardData, key: String, bytes: Vec<u8>) -> (res: Result<bool, Error>)
    ensures
        log_extends(old(tx).exchanges(), final(tx).exchanges()),
        plan_read(seq![ReadOp::Put(key@, bytes@)], final(tx).exchanges(), old(tx).exchanges().len() as int, *old(data), *final(data), unit_result(res)),
        res matches Ok(b) ==> b == put_hit(final(tx).exchanges().last().1),
        retry_at(final(tx).exchanges(), old(tx).exchanges().len() as int, bytes@) == Some((final(tx).exchanges().last().1, final(tx).exchanges().len() as int)),
{
    let ghost kv = key@;
    let ghost cmd = bytes@;
    let r = put_if_ok(tx, data, key, bytes);
    proof {
        lemma_retried_at(old(tx).exchanges(), tx.exchanges(), cmd);
        lemma_retried_extends(old(tx).exchanges(), tx.exchanges(), cmd);
        lemma_plan_single(ReadOp::Put(kv, cmd), tx.exchanges(), old(tx).exchanges().len() as int);
        assert(data.fields() =~= old(data).fields() + stored_reply(kv, tx.exchanges().last().1));
    }
    r
}

/// The names read by `read_standard_transit`.
pub open spec fn is_standard_transit_name(name: Seq<char>) -> bool {
    name == "ShenzhenTong"@ || name == "WuhanTong"@ || name == "CityUnion"@ || name == "TUnion"@
        || name == "MotBmac"@ || name == "ChinaTransit"@ || name == "SuXin"@ || name
        == "SzpkZyy"@
}

fn is_standard_transit(name: &str) -> (res: bool)
    ensures
        res == is_standard_transit_name(name@),
{
    str_eq(name, "ShenzhenTong") || str_eq(name, "WuhanTong") || str_eq(name, "CityUnion")
        || str_eq(name, "TUnion") || str_eq(name, "MotBmac") || str_eq(name, "ChinaTransit")
        || str_eq(name, "SuXin") || str_eq(name, "SzpkZyy")
}

/// Files 04 (`00B0 84 00 3C`), 05 (`00B0 85 00 20`) and 15 (`00B0 95 00 46`, or
/// `00B0 95 00 1E` when the long read is not `9000`), stored as `<name>_file04/05/15`.
pub open spec fn fixed_files_plan(name: Seq<char>) -> Seq<ReadOp> {
    seq![
        ReadOp::Put(name + "_file04"@, seq![0x00u8, 0xB0, 0x84, 0x00, 0x3C]),
        ReadOp::Put(name + "_file05"@, seq![0x00u8, 0xB0, 0x85, 0x00, 0x20]),
        ReadOp::PutOr(name + "_file15"@, seq![0x00u8, 0xB0, 0x95, 0x00, 0x46], seq![0x00u8, 0xB0, 0x95, 0x00, 0x1E]),
    ]
}

/// The PBOC load-initialisation command for purse 2.
pub open spec fn load_atc_cmd() -> Seq<u8> {
    case3_bytes(0x80, 0x50, 0x00, 0x02, load_init_data())
}

/// Balance (`805C 00 02 04`), extended balance (`805C 05 02 10`), usage-1 balance
/// (`805C 00 01 04`) and load ATC (`8050 00 02 0B ...`), stored under `<prefix>balance`,
/// `balance_ext`, `balance_usage1` and `load_atc`.
pub open spec fn balance_plan(prefix: Seq<char>) -> Seq<ReadOp> {
    seq![
        ReadOp::Put(prefix + "balance"@, seq![0x80u8, 0x5C, 0x00, 0x02, 0x04]),
        ReadOp::Put(prefix + "balance_ext"@, seq![0x80u8, 0x5C, 0x05, 0x02, 0x10]),
        ReadOp::Put(prefix + "balance_usage1"@, seq![0x80u8, 0x5C, 0x00, 0x01, 0x04]),
        ReadOp::Put(prefix + "load_atc"@, load_atc_cmd()),
    ]
}

/// The four record files, records 1 to 31 each: `C4`/`17` as `<prefix>trans_<n>`, `84`/`17`
/// as `record84_<n>`, `3C`/`10` as `record3c_<n>`, `9C`/`17` as `record9c_<n>`.
pub open spec fn records_plan(prefix: Seq<char>) -> Seq<ReadOp> {
    seq![
        ReadOp::Records(prefix + "trans_"@, 0xC4, 0x17, 31),
        ReadOp::Records(prefix + "record84_"@, 0x84, 0x17, 31),
        ReadOp::Records(prefix + "record3c_"@, 0x3C, 0x10, 31),
        ReadOp::Records(prefix + "record9c_"@, 0x9C, 0x17, 31),
    ]
}

/// The month-ticket record `00B2 06 C8 30`, stored as `<name>_record19_6`.
pub open spec fn month_plan(name: Seq<char>) -> Seq<ReadOp> {
    seq![ReadOp::Put(name + "_record19_6"@, seq![0x00u8, 0xB2, 0x06, 0xC8, 0x30])]
}

/// A standard PBOC card: fixed files, purse, records and month-ticket record.
pub open spec fn standard_plan(name: Seq<char>) -> Seq<ReadOp> {
    fixed_files_plan(name) + balance_plan(name + "_"@) + records_plan(name + "_"@) + month_plan(name)
}

/// T-Union extras: file 17 (`00B0 97 00 0B`) and trip records 1 to 10 of SFI `1E`
/// (`00B2 <n> F4 00`).
pub open spec fn tunion_plan() -> Seq<ReadOp> {
    seq![
        ReadOp::Put("TUnion_file17"@, seq![0x00u8, 0xB0, 0x97, 0x00, 0x0B]),
        ReadOp::Records("TUnion_trip_"@, 0xF4, 0x00, 10),
    ]
}

/// Chongqing City Union: SELECT MF (`00A4 00 00 02 3F00`); when `9000`, file 85
/// (`00B0 85 00 30`) stored as `CityUnion_chongqing_file`.
pub open spec fn chongqing_plan() -> Seq<ReadOp> {
    seq![ReadOp::Then(
        seq![0x00u8, 0xA4, 0x00, 0x00, 0x02, 0x3F, 0x00],
        "CityUnion_chongqing_file"@,
        seq![0x00u8, 0xB0, 0x85, 0x00, 0x30],
    )]
}

/// Lingnan Pass: its fixed files, the second SELECT of `PAY.TICL`, purse, records, month
/// ticket, and the Guangzhou monthly record (`00B2 01 44 16`).
pub open spec fn lingnan_plan() -> Seq<ReadOp> {
    fixed_files_plan("LingnanPass"@) + seq![
        ReadOp::Select("LingnanPass_ticl"@, case4_bytes(0x00, 0xA4, 0x04, 0x00, lingnan_ticl_spec(), 0x00)),
    ] + balance_plan("LingnanPass_"@) + records_plan("LingnanPass_"@) + month_plan("LingnanPass"@) + seq![
        ReadOp::Put("LingnanPass_guangzhou_monthly"@, seq![0x00u8, 0xB2, 0x01, 0x44, 0x16]),
    ]
}

/// T-Money: the balance (`904C 00 00 04`) and records 1 to 10 (`00B2 <n> 24 2E`).
pub open spec fn tmoney_plan() -> Seq<ReadOp> {
    seq![
        ReadOp::Put("TMoney_balance"@, seq![0x90u8, 0x4C, 0x00, 0x00, 0x04]),
        ReadOp::Records("TMoney_trans_"@, 0x24, 0x2E, 10),
    ]
}

/// What `read_by_name` reads for a card name.
pub open spec fn transit_plan(name: Seq<char>) -> Seq<ReadOp> {
    if is_standard_transit_name(name) {
        standard_plan(name) + (if name == "TUnion"@ {
            tunion_plan()
        } else {
            Seq::empty()
        }) + (if name == "CityUnion"@ {
            chongqing_plan()
        } else {
            Seq::empty()
        })
    } else if name == "LingnanPass"@ {
        lingnan_plan()
    } else if name == "MacauPass"@ {
        standard_plan("MacauPass"@)
    } else if name == "TMoney"@ {
        tmoney_plan()
    } else {
        Seq::empty()
    }
}

/// The step `then` after the plan `done`: from a failure of `then`, the read stops there.
proof fn lemma_step_stop(done: Seq<ReadOp>, then: Seq<ReadOp>, rest: Seq<ReadOp>, l1: Seq<Exchange>, l2: Seq<Exchange>, start: int, d0: RawCardData, d1: RawCardData, d2: RawCardData, e: Error)
    requires
        plan_read(done, l1, start, d0, d1, Ok(())),
        log_extends(l1, l2),
        plan_read(then, l2, l1.len() as int, d1, d2, Err(e)),
    ensures
        plan_read(done + then + rest, l2, start, d0, d2, Err(e)),
{
    lemma_plan_then(done, then, l1, l2, start, d0, d1, d2, Err(e));
    lemma_plan_stop(done + then, rest, l2, start, d0, d2, e);
}

/// A `ReadOp::PutOr` step: the first command, then the second under the same key when the
/// first reply is not `9000`.
fn put_or_op<T: Transceiver>(tx: &mut T, data: &mut RawCardData, key: &str, first: Vec<u8>, second: Vec<u8>) -> (res: Result<(), Error>)
    ensures
        log_extends(old(tx).exchanges(), final(tx).exchanges()),
        plan_read(seq![ReadOp::PutOr(key@, first@, second@)], final(tx).exchanges(), old(tx).exchanges().len() as int, *old(data), *final(data), res),
{
    let ghost n0 = old(tx).exchanges().len() as int;
    let ghost op = ReadOp::PutOr(key@, first@, second@);
    let ghost c1 = first@;
    let ghost c2 = second@;
    let r = put_op(tx, data, to_owned_string(key), first);
    let ghost l1 = tx.exchanges();
    let ghost d1 = *data;
    proof {
        lemma_plan_single(ReadOp::Put(key@, c1), l1, n0);
        lemma_plan_single(op, l1, n0);
    }
    match r {
        Err(e) => {
            return Err(e);
        },
        Ok(true) => {
            return Ok(());
        },
        Ok(false) => {},
    }
    let r2 = put_op(tx, data, to_owned_string(key), second);
    proof {
        lemma_retry_stable(l1, tx.exchanges(), n0, c1);
        lemma_plan_single(op, tx.exchanges(), n0);
        lemma_plan_single(ReadOp::Put(key@, c2), tx.exchanges(), l1.len() as int);
        lemma_log_trans(old(tx).exchanges(), l1, tx.exchanges());
        assert(d1.fields() =~= old(data).fields());
    }
    match r2 {
        Err(e) => Err(e),
        Ok(_) => Ok(()),
    }
}

/// A `ReadOp::Select` step: SELECT by AID, sent once.
fn select_op<T: Transceiver>(tx: &mut T, data: &mut RawCardData, aid: &[u8], key: &str) -> (res: Result<(), Error>)
    ensures
        log_extends(old(tx).exchanges(), final(tx).exchanges()),
        plan_read(seq![ReadOp::Select(key@, case4_bytes(0x00, 0xA4, 0x04, 0x00, aid@, 0x00))], final(tx).exchanges(), old(tx).exchanges().len() as int, *old(data), *final(data), res),
{
    let ghost cmd = case4_bytes(0x00, 0xA4, 0x04, 0x00, aid@, 0x00);
    let r = select_aid(tx, aid, data, key);
    proof {
        lemma_one_more_extends(old(tx).exchanges(), tx.exchanges(), cmd);
        lemma_plan_single(ReadOp::Select(key@, cmd), tx.exchanges(), old(tx).exchanges().len() as int);
        assert(data.fields() =~= old(data).fields() + stored_reply(key@, tx.exchanges().last().1));
    }
    match r {
        Err(e) => Err(e),
        Ok(_) => Ok(()),
    }
}

/// Records `n` to `max` of `00B2 <n> <p2> <le>`, stored as `<key><n>`, stopping at the first
/// that is not `9000` (`records_run`).
fn read_records_from<T: Transceiver>(tx: &mut T, data: &mut RawCardData, key: &str, p2: u8, le: u8, max: u8, n: u8) -> (res: Result<(), Error>)
    requires
        1 <= n,
        max <= 31,
    ensures
        log_extends(old(tx).exchanges(), final(tx).exchanges()),
        run_read(records_run(key@, p2, le, max, n as int, final(tx).exchanges(), old(tx).exchanges().len() as int), final(tx).exchanges().len() as int, *old(data), *final(data), res),
    decreases max + 1 - n,
{
    let ghost n0 = old(tx).exchanges().len() as int;
    if n > max {
        assert(data.fields() =~= data.fields() + Seq::<(Seq<char>, Seq<char>)>::empty());
        return Ok(());
    }
    let ghost cmd = record_read_cmd(n as int, p2, le);
    let v = vec![0x00, 0xB2, n, p2, le];
    assert(v@ =~= cmd);
    let mut k = to_owned_string(key);
    push_decimal(&mut k, n as u64);
    let ghost kn = k@;
    let r = put_op(tx, data, k, v);
    let ghost l1 = tx.exchanges();
    let ghost d1 = *data;
    proof {
        lemma_plan_single(ReadOp::Put(kn, cmd), l1, n0);
    }
    let ok = match r {
        Err(e) => {
            return Err(e);
        },
        Ok(b) => b,
    };
    if !ok {
        assert(d1.fields() =~= old(data).fields() + Seq::<(Seq<char>, Seq<char>)>::empty());
        return Ok(());
    }
    let r2 = read_records_from(tx, data, key, p2, le, max, n + 1);
    proof {
        lemma_retry_stable(l1, tx.exchanges(), n0, cmd);
        lemma_log_trans(old(tx).exchanges(), l1, tx.exchanges());
        let hit = seq![(kn, hex_upper(l1.last().1->Ok_0.data@))];
        assert(d1.fields() == old(data).fields() + hit);
        match records_run(key@, p2, le, max, n + 1, tx.exchanges(), l1.len() as int) {
            PlanRun::Ran(g, j) => {
                assert(data.fields() =~= old(data).fields() + (hit + g));
            },
            PlanRun::Failed(g, e, j) => {
                assert(data.fields() =~= old(data).fields() + (hit + g));
            },
            _ => {},
        }
    }
    r2
}

/// A `ReadOp::Records` step: records 1 to `max`.
fn records_op<T: Transceiver>(tx: &mut T, data: &mut RawCardData, key: &str, p2: u8, le: u8, max: u8) -> (res: Result<(), Error>)
    requires
        max <= 31,
    ensures
        log_extends(old(tx).exchanges(), final(tx).exchanges()),
        plan_read(seq![ReadOp::Records(key@, p2, le, max)], final(tx).exchanges(), old(tx).exchanges().len() as int, *old(data), *final(data), res),
{
    let r = read_records_from(tx, data, key, p2, le, max, 1);
    proof {
        lemma_plan_single(ReadOp::Records(key@, p2, le, max), tx.exchanges(), old(tx).exchanges().len() as int);
    }
    r
}

/// A one-step plan of `ReadOp::Put`.
fn put_plan<T: Transceiver>(tx: &mut T, data: &mut RawCardData, key: String, bytes: Vec<u8>) -> (res: Result<(), Error>)
    ensures
        log_extends(old(tx).exchanges(), final(tx).exchanges()),
        plan_read(seq![ReadOp::Put(key@, bytes@)], final(tx).exchanges(), old(tx).exchanges().len() as int, *old(data), *final(data), res),
{
    match put_op(tx, data, key, bytes) {
        Err(e) => Err(e),
        Ok(_) => Ok(()),
    }
}

/// Files 04, 05 and 15 (`fixed_files_plan`).
fn read_fixed_files<T: Transceiver>(tx: &mut T, data: &mut RawCardData, name: &str) -> (res: Result<(), Error>)
    ensures
        log_extends(old(tx).exchanges(), final(tx).exchanges()),
        plan_read(fixed_files_plan(name@), final(tx).exchanges(), old(tx).exchanges().len() as int, *old(data), *final(data), res),
{
    let ghost n0 = old(tx).exchanges().len() as int;
    let ghost plan = fixed_files_plan(name@);
    let ghost a = seq![plan[0]];
    let ghost b = seq![plan[1]];
    let ghost c = seq![plan[2]];
    assert(plan =~= a + b + c);
    let v = vec![0x00, 0xB0, 0x84, 0x00, 0x3C];
    assert(v@ =~= seq![0x00u8, 0xB0, 0x84, 0x00, 0x3C]);
    let r = put_plan(tx, data, concat2(name, "_file04"), v);
    let ghost l1 = tx.exchanges();
    let ghost d1 = *data;
    if let Err(e) = r {
        proof {
            lemma_plan_stop(a, b + c, l1, n0, *old(data), d1, e);
            assert(a + (b + c) =~= plan);
        }
        return Err(e);
    }
    let v = vec![0x00, 0xB0, 0x85, 0x00, 0x20];
    assert(v@ =~= seq![0x00u8, 0xB0, 0x85, 0x00, 0x20]);
    let r = put_plan(tx, data, concat2(name, "_file05"), v);
    let ghost l2 = tx.exchanges();
    let ghost d2 = *data;
    proof {
        lemma_log_trans(old(tx).exchanges(), l1, l2);
    }
    if let Err(e) = r {
        proof {
            lemma_step_stop(a, b, c, l1, l2, n0, *old(data), d1, d2, e);
        }
        return Err(e);
    }
    proof {
        lemma_plan_then(a, b, l1, l2, n0, *old(data), d1, d2, Ok(()));
    }
    let long = vec![0x00, 0xB0, 0x95, 0x00, 0x46];
    let short = vec![0x00, 0xB0, 0x95, 0x00, 0x1E];
    assert(long@ =~= seq![0x00u8, 0xB0, 0x95, 0x00, 0x46]);
    assert(short@ =~= seq![0x00u8, 0xB0, 0x95, 0x00, 0x1E]);
    let k15 = concat2(name, "_file15");
    let r = put_or_op(tx, data, k15.as_str(), long, short);
    proof {
        lemma_plan_then(a + b, c, l2, tx.exchanges(), n0, *old(data), d2, *data, r);
        lemma_log_trans(old(tx).exchanges(), l2, tx.exchanges());
    }
    r
}

/// Balance, extended balance, usage-1 balance and load ATC (`balance_plan`).
fn read_transit_balance<T: Transceiver>(tx: &mut T, data: &mut RawCardData, prefix: &str) -> (res: Result<(), Error>)
    ensures
        log_extends(old(tx).exchanges(), final(tx).exchanges()),
        plan_read(balance_plan(prefix@), final(tx).exchanges(), old(tx).exchanges().len() as int, *old(data), *final(data), res),
{
    let ghost n0 = old(tx).exchanges().len() as int;
    let ghost plan = balance_plan(prefix@);
    let ghost a = seq![plan[0]];
    let ghost b = seq![plan[1]];
    let ghost c = seq![plan[2]];
    let ghost d = seq![plan[3]];
    assert(plan =~= a + b + c + d);
    let v = vec![0x80, 0x5C, 0x00, 0x02, 0x04];
    assert(v@ =~= seq![0x80u8, 0x5C, 0x00, 0x02, 0x04]);
    let r = put_plan(tx, data, concat2(prefix, "balance"), v);
    let ghost l1 = tx.exchanges();
    let ghost d1 = *data;
    if let Err(e) = r {
        proof {
            lemma_plan_stop(a, b + c + d, l1, n0, *old(data), d1, e);
            assert(a + (b + c + d) =~= plan);
        }
        return Err(e);
    }
    let v = vec![0x80, 0x5C, 0x05, 0x02, 0x10];
    assert(v@ =~= seq![0x80u8, 0x5C, 0x05, 0x02, 0x10]);
    let r = put_plan(tx, data, concat2(prefix, "balance_ext"), v);
    let ghost l2 = tx.exchanges();
    let ghost d2 = *data;
    proof {
        lemma_log_trans(old(tx).exchanges(), l1, l2);
    }
    if let Err(e) = r {
        proof {
            lemma_step_stop(a, b, c + d, l1, l2, n0, *old(data), d1, d2, e);
            assert(a + b + (c + d) =~= plan);
        }
        return Err(e);
    }
    proof {
        lemma_plan_then(a, b, l1, l2, n0, *old(data), d1, d2, Ok(()));
    }
    let v = vec![0x80, 0x5C, 0x00, 0x01, 0x04];
    assert(v@ =~= seq![0x80u8, 0x5C, 0x00, 0x01, 0x04]);
    let r = put_plan(tx, data, concat2(prefix, "balance_usage1"), v);
    let ghost l3 = tx.exchanges();
    let ghost d3 = *data;
    proof {
        lemma_log_trans(old(tx).exchanges(), l2, l3);
    }
    if let Err(e) = r {
        proof {
            lemma_step_stop(a + b, c, d, l2, l3, n0, *old(data), d2, d3, e);
        }
        return Err(e);
    }
    proof {
        lemma_plan_then(a + b, c, l2, l3, n0, *old(data), d2, d3, Ok(()));
    }
    let load: Vec<u8> = vec![0x80, 0x50, 0x00, 0x02, 0x0B, 0x01, 0x00, 0x00, 0x00, 0x01, 0x00, 0x00, 0x00, 0x00, 0x00, 0x10];
    assert(load@ =~= load_atc_cmd());
    let r = put_plan(tx, data, concat2(prefix, "load_atc"), load);
    proof {
        lemma_plan_then(a + b + c, d, l3, tx.exchanges(), n0, *old(data), d3, *data, r);
        lemma_log_trans(old(tx).exchanges(), l3, tx.exchanges());
    }
    r
}

/// The four record files (`records_plan`).
fn read_transit_records<T: Transceiver>(tx: &mut T, data: &mut RawCardData, prefix: &str) -> (res: Result<(), Error>)
    ensures
        log_extends(old(tx).exchanges(), final(tx).exchanges()),
        plan_read(records_plan(prefix@), final(tx).exchanges(), old(tx).exchanges().len() as int, *old(data), *final(data), res),
{
    let ghost n0 = old(tx).exchanges().len() as int;
    let ghost plan = records_plan(prefix@);
    let ghost a = seq![plan[0]];
    let ghost b = seq![plan[1]];
    let ghost c = seq![plan[2]];
    let ghost d = seq![plan[3]];
    assert(plan =~= a + b + c + d);
    let r = records_op(tx, data, concat2(prefix, "trans_").as_str(), 0xC4, 0x17, 31);
    let ghost l1 = tx.exchanges();
    let ghost d1 = *data;
    if let Err(e) = r {
        proof {
            lemma_plan_stop(a, b + c + d, l1, n0, *old(data), d1, e);
            assert(a + (b + c + d) =~= plan);
        }
        return Err(e);
    }
    let r = records_op(tx, data, concat2(prefix, "record84_").as_str(), 0x84, 0x17, 31);
    let ghost l2 = tx.exchanges();
    let ghost d2 = *data;
    proof {
        lemma_log_trans(old(tx).exchanges(), l1, l2);
    }
    if let Err(e) = r {
        proof {
            lemma_step_stop(a, b, c + d, l1, l2, n0, *old(data), d1, d2, e);
            assert(a + b + (c + d) =~= plan);
        }
        return Err(e);
    }
    proof {
        lemma_plan_then(a, b, l1, l2, n0, *old(data), d1, d2, Ok(()));
    }
    let r = records_op(tx, data, concat2(prefix, "record3c_").as_str(), 0x3C, 0x10, 31);
    let ghost l3 = tx.exchanges();
    let ghost d3 = *data;
    proof {
        lemma_log_trans(old(tx).exchanges(), l2, l3);
    }
    if let Err(e) = r {
        proof {
            lemma_step_stop(a + b, c, d, l2, l3, n0, *old(data), d2, d3, e);
        }
        return Err(e);
    }
    proof {
        lemma_plan_then(a + b, c, l2, l3, n0, *old(data), d2, d3, Ok(()));
    }
    let r = records_op(tx, data, concat2(prefix, "record9c_").as_str(), 0x9C, 0x17, 31);
    proof {
        lemma_plan_then(a + b + c, d, l3, tx.exchanges(), n0, *old(data), d3, *data, r);
        lemma_log_trans(old(tx).exchanges(), l3, tx.exchanges());
    }
    r
}

/// The month-ticket record (`month_plan`).
fn read_month_ticket_record<T: Transceiver>(tx: &mut T, data: &mut RawCardData, name: &str) -> (res: Result<(), Error>)
    ensures
        log_extends(old(tx).exchanges(), final(tx).exchanges()),
        plan_read(month_plan(name@), final(tx).exchanges(), old(tx).exchanges().len() as int, *old(data), *final(data), res),
{
    let v = vec![0x00, 0xB2, 0x06, 0xC8, 0x30];
    assert(v@ =~= seq![0x00u8, 0xB2, 0x06, 0xC8, 0x30]);
    put_plan(tx, data, concat2(name, "_record19_6"), v)
}

/// Fixed files, purse, records and month-ticket record of a standard PBOC card
/// (`standard_plan`).
fn read_standard_transit<T: Transceiver>(tx: &mut T, data: &mut RawCardData, name: &str) -> (res: Result<(), Error>)
    ensures
        log_extends(old(tx).exchanges(), final(tx).exchanges()),
        plan_read(standard_plan(name@), final(tx).exchanges(), old(tx).exchanges().len() as int, *old(data), *final(data), res),
{
    let ghost n0 = old(tx).exchanges().len() as int;
    let ghost a = fixed_files_plan(name@);
    let ghost b = balance_plan(name@ + "_"@);
    let ghost c = records_plan(name@ + "_"@);
    let ghost d = month_plan(name@);
    let r = read_fixed_files(tx, data, name);
    let ghost l1 = tx.exchanges();
    let ghost d1 = *data;
    if let Err(e) = r {
        proof {
            lemma_plan_stop(a, b + c + d, l1, n0, *old(data), d1, e);
            assert(a + (b + c + d) =~= standard_plan(name@));
        }
        return Err(e);
    }
    let prefix = concat2(name, "_");
    let r = read_transit_balance(tx, data, prefix.as_str());
    let ghost l2 = tx.exchanges();
    let ghost d2 = *data;
    proof {
        lemma_log_trans(old(tx).exchanges(), l1, l2);
    }
    if let Err(e) = r {
        proof {
            lemma_step_stop(a, b, c + d, l1, l2, n0, *old(data), d1, d2, e);
            assert(a + b + (c + d) =~= standard_plan(name@));
        }
        return Err(e);
    }
    proof {
        lemma_plan_then(a, b, l1, l2, n0, *old(data), d1, d2, Ok(()));
    }
    let r = read_transit_records(tx, data, prefix.as_str());
    let ghost l3 = tx.exchanges();
    let ghost d3 = *data;
    proof {
        lemma_log_trans(old(tx).exchanges(), l2, l3);
    }
    if let Err(e) = r {
        proof {
            lemma_step_stop(a + b, c, d, l2, l3, n0, *old(data), d2, d3, e);
        }
        return Err(e);
    }
    proof {
        lemma_plan_then(a + b, c, l2, l3, n0, *old(data), d2, d3, Ok(()));
    }
    let r = read_month_ticket_record(tx, data, name);
    proof {
        lemma_plan_then(a + b + c, d, l3, tx.exchanges(), n0, *old(data), d3, *data, r);
        lemma_log_trans(old(tx).exchanges(), l3, tx.exchanges());
    }
    r
}

/// Chongqing City Union (`chongqing_plan`).
fn probe_chongqing<T: Transceiver>(tx: &mut T, data: &mut RawCardData) -> (res: Result<(), Error>)
    ensures
        log_extends(old(tx).exchanges(), final(tx).exchanges()),
        plan_read(chongqing_plan(), final(tx).exchanges(), old(tx).exchanges().len() as int, *old(data), *final(data), res),
{
    let ghost n0 = old(tx).exchanges().len() as int;
    let ghost op = chongqing_plan()[0];
    let mf = vec![0x00, 0xA4, 0x00, 0x00, 0x02, 0x3F, 0x00];
    let ghost g = mf@;
    assert(g =~= seq![0x00u8, 0xA4, 0x00, 0x00, 0x02, 0x3F, 0x00]);
    let apdu = Apdu::from_bytes(mf);
    let r = transceive_retry(tx, apdu);
    let ghost l1 = tx.exchanges();
    proof {
        lemma_retried_extends(old(tx).exchanges(), l1, g);
        lemma_retried_at(old(tx).exchanges(), l1, g);
        lemma_plan_single(op, l1, n0);
        assert(data.fields() =~= old(data).fields() + Seq::<(Seq<char>, Seq<char>)>::empty());
    }
    let resp = match r {
        Err(e) => {
            return Err(e);
        },
        Ok(resp) => resp,
    };
    if !resp.is_ok() {
        return Ok(());
    }
    let f = vec![0x00, 0xB0, 0x85, 0x00, 0x30];
    assert(f@ =~= seq![0x00u8, 0xB0, 0x85, 0x00, 0x30]);
    let r2 = put_plan(tx, data, to_owned_string("CityUnion_chongqing_file"), f);
    proof {
        lemma_retry_stable(l1, tx.exchanges(), n0, g);
        lemma_plan_single(op, tx.exchanges(), n0);
        lemma_plan_single(ReadOp::Put("CityUnion_chongqing_file"@, seq![0x00u8, 0xB0, 0x85, 0x00, 0x30]), tx.exchanges(), l1.len() as int);
        lemma_log_trans(old(tx).exchanges(), l1, tx.exchanges());
    }
    r2
}

/// T-Money (`tmoney_plan`).
fn read_tmoney<T: Transceiver>(tx: &mut T, data: &mut RawCardData) -> (res: Result<(), Error>)
    ensures
        log_extends(old(tx).exchanges(), final(tx).exchanges()),
        plan_read(tmoney_plan(), final(tx).exchanges(), old(tx).exchanges().len() as int, *old(data), *final(data), res),
{
    let ghost n0 = old(tx).exchanges().len() as int;
    let ghost a = seq![tmoney_plan()[0]];
    let ghost b = seq![tmoney_plan()[1]];
    assert(tmoney_plan() =~= a + b);
    let v = vec![0x90, 0x4C, 0x00, 0x00, 0x04];
    assert(v@ =~= seq![0x90u8, 0x4C, 0x00, 0x00, 0x04]);
    let r = put_plan(tx, data, to_owned_string("TMoney_balance"), v);
    let ghost l1 = tx.exchanges();
    let ghost d1 = *data;
    if let Err(e) = r {
        proof {
            lemma_plan_stop(a, b, l1, n0, *old(data), d1, e);
        }
        return Err(e);
    }
    let r = records_op(tx, data, "TMoney_trans_", 0x24, 0x2E, 10);
    proof {
        lemma_plan_then(a, b, l1, tx.exchanges(), n0, *old(data), d1, *data, r);
        lemma_log_trans(old(tx).exchanges(), l1, tx.exchanges());
    }
    r
}

/// T-Union extras (`tunion_plan`).
fn read_tunion_extras<T: Transceiver>(tx: &mut T, data: &mut RawCardData) -> (res: Result<(), Error>)
    ensures
        log_extends(old(tx).exchanges(), final(tx).exchanges()),
        plan_read(tunion_plan(), final(tx).exchanges(), old(tx).exchanges().len() as int, *old(data), *final(data), res),
{
    let ghost n0 = old(tx).exchanges().len() as int;
    let ghost t1 = seq![tunion_plan()[0]];
    let ghost t2 = seq![tunion_plan()[1]];
    assert(tunion_plan() =~= t1 + t2);
    let v = vec![0x00, 0xB0, 0x97, 0x00, 0x0B];
    assert(v@ =~= seq![0x00u8, 0xB0, 0x97, 0x00, 0x0B]);
    let r = put_plan(tx, data, to_owned_string("TUnion_file17"), v);
    let ghost l1 = tx.exchanges();
    let ghost d1 = *data;
    if let Err(e) = r {
        proof {
            lemma_plan_stop(t1, t2, l1, n0, *old(data), d1, e);
        }
        return Err(e);
    }
    let r = records_op(tx, data, "TUnion_trip_", 0xF4, 0x00, 10);
    proof {
        lemma_plan_then(t1, t2, l1, tx.exchanges(), n0, *old(data), d1, *data, r);
        lemma_log_trans(old(tx).exchanges(), l1, tx.exchanges());
    }
    r
}

/// A standard PBOC card with its extras (`transit_plan` of a standard name).
fn read_standard_named<T: Transceiver>(tx: &mut T, name: &str, data: &mut RawCardData) -> (res: Result<(), Error>)
    requires
        is_standard_transit_name(name@),
    ensures
        log_extends(old(tx).exchanges(), final(tx).exchanges()),
        plan_read(transit_plan(name@), final(tx).exchanges(), old(tx).exchanges().len() as int, *old(data), *final(data), res),
{
    let ghost n0 = old(tx).exchanges().len() as int;
    let ghost empty = Seq::<ReadOp>::empty();
    let ghost a = standard_plan(name@);
    let ghost b = if name@ == "TUnion"@ { tunion_plan() } else { empty };
    let ghost c = if name@ == "CityUnion"@ { chongqing_plan() } else { empty };
    assert(transit_plan(name@) == a + b + c);
    let r = read_standard_transit(tx, data, name);
    let ghost l1 = tx.exchanges();
    let ghost d1 = *data;
    if let Err(e) = r {
        proof {
            lemma_plan_stop(a, b + c, l1, n0, *old(data), d1, e);
            assert(a + (b + c) =~= transit_plan(name@));
        }
        return Err(e);
    }
    if str_eq(name, "TUnion") {
        let r = read_tunion_extras(tx, data);
        proof {
            lemma_plan_then(a, b, l1, tx.exchanges(), n0, *old(data), d1, *data, r);
            lemma_log_trans(old(tx).exchanges(), l1, tx.exchanges());
            reveal_strlit("TUnion");
            reveal_strlit("CityUnion");
            assert(c == empty);
            assert(a + b + c =~= a + b);
        }
        return r;
    }
    if str_eq(name, "CityUnion") {
        let r = probe_chongqing(tx, data);
        proof {
            lemma_plan_then(a, c, l1, tx.exchanges(), n0, *old(data), d1, *data, r);
            lemma_log_trans(old(tx).exchanges(), l1, tx.exchanges());
            assert(a + b + c =~= a + c);
        }
        return r;
    }
    proof {
        assert(a + b + c =~= a);
    }
    Ok(())
}

/// Lingnan Pass (`lingnan_plan`).
fn read_lingnan<T: Transceiver>(tx: &mut T, data: &mut RawCardData) -> (res: Result<(), Error>)
    ensures
        log_extends(old(tx).exchanges(), final(tx).exchanges()),
        plan_read(lingnan_plan(), final(tx).exchanges(), old(tx).exchanges().len() as int, *old(data), *final(data), res),
{
    let ghost n0 = old(tx).exchanges().len() as int;
    let ghost a = fixed_files_plan("LingnanPass"@);
    let ghost b = seq![ReadOp::Select("LingnanPass_ticl"@, case4_bytes(0x00, 0xA4, 0x04, 0x00, lingnan_ticl_spec(), 0x00))];
    let ghost c = balance_plan("LingnanPass_"@);
    let ghost d = records_plan("LingnanPass_"@);
    let ghost m = month_plan("LingnanPass"@);
    let ghost g = seq![ReadOp::Put("LingnanPass_guangzhou_monthly"@, seq![0x00u8, 0xB2, 0x01, 0x44, 0x16])];
    assert(lingnan_plan() =~= a + b + c + d + m + g);
    let r = read_fixed_files(tx, data, "LingnanPass");
    let ghost l1 = tx.exchanges();
    let ghost d1 = *data;
    if let Err(e) = r {
        proof {
            lemma_plan_stop(a, b + c + d + m + g, l1, n0, *old(data), d1, e);
            assert(a + (b + c + d + m + g) =~= lingnan_plan());
        }
        return Err(e);
    }
    let r = select_op(tx, data, lingnan_ticl(), "LingnanPass_ticl");
    let ghost l2 = tx.exchanges();
    let ghost d2 = *data;
    proof {
        lemma_log_trans(old(tx).exchanges(), l1, l2);
    }
    if let Err(e) = r {
        proof {
            lemma_step_stop(a, b, c + d + m + g, l1, l2, n0, *old(data), d1, d2, e);
            assert(a + b + (c + d + m + g) =~= lingnan_plan());
        }
        return Err(e);
    }
    proof {
        lemma_plan_then(a, b, l1, l2, n0, *old(data), d1, d2, Ok(()));
    }
    let r = read_transit_balance(tx, data, "LingnanPass_");
    let ghost l3 = tx.exchanges();
    let ghost d3 = *data;
    proof {
        lemma_log_trans(old(tx).exchanges(), l2, l3);
    }
    if let Err(e) = r {
        proof {
            lemma_step_stop(a + b, c, d + m + g, l2, l3, n0, *old(data), d2, d3, e);
            assert(a + b + c + (d + m + g) =~= lingnan_plan());
        }
        return Err(e);
    }
    proof {
        lemma_plan_then(a + b, c, l2, l3, n0, *old(data), d2, d3, Ok(()));
    }
    let r = read_transit_records(tx, data, "LingnanPass_");
    let ghost l4 = tx.exchanges();
    let ghost d4 = *data;
    proof {
        lemma_log_trans(old(tx).exchanges(), l3, l4);
    }
    if let Err(e) = r {
        proof {
            lemma_step_stop(a + b + c, d, m + g, l3, l4, n0, *old(data), d3, d4, e);
            assert(a + b + c + d + (m + g) =~= lingnan_plan());
        }
        return Err(e);
    }
    proof {
        lemma_plan_then(a + b + c, d, l3, l4, n0, *old(data), d3, d4, Ok(()));
    }
    let r = read_month_ticket_record(tx, data, "LingnanPass");
    let ghost l5 = tx.exchanges();
    let ghost d5 = *data;
    proof {
        lemma_log_trans(old(tx).exchanges(), l4, l5);
    }
    if let Err(e) = r {
        proof {
            lemma_step_stop(a + b + c + d, m, g, l4, l5, n0, *old(data), d4, d5, e);
        }
        return Err(e);
    }
    proof {
        lemma_plan_then(a + b + c + d, m, l4, l5, n0, *old(data), d4, d5, Ok(()));
    }
    let v = vec![0x00, 0xB2, 0x01, 0x44, 0x16];
    assert(v@ =~= seq![0x00u8, 0xB2, 0x01, 0x44, 0x16]);
    let r = put_plan(tx, data, to_owned_string("LingnanPass_guangzhou_monthly"), v);
    proof {
        lemma_plan_then(a + b + c + d + m, g, l5, tx.exchanges(), n0, *old(data), d5, *data, r);
        lemma_log_trans(old(tx).exchanges(), l5, tx.exchanges());
    }
    r
}

/// After a successful SELECT, reads what the named card holds (`transit_plan`): for the
/// standard PBOC cards the fixed files, purse, records and month-ticket record (plus file 17
/// and the trip records for T-Union, and the Chongqing file for City Union); for Lingnan Pass
/// its files, the second SELECT of `PAY.TICL`, purse, records and Guangzhou monthly record;
/// for Macau Pass the standard reads; for T-Money its balance and records. Other names read
/// nothing.
pub fn read_by_name<T: Transceiver>(tx: &mut T, name: &str, data: &mut RawCardData) -> (res: Result<(), Error>)
    ensures
        log_extends(old(tx).exchanges(), final(tx).exchanges()),
        plan_read(transit_plan(name@), final(tx).exchanges(), old(tx).exchanges().len() as int, *old(data), *final(data), res),
{
    if is_standard_transit(name) {
        read_standard_named(tx, name, data)
    } else if str_eq(name, "LingnanPass") {
        read_lingnan(tx, data)
    } else if str_eq(name, "MacauPass") {
        read_standard_transit(tx, data, "MacauPass")
    } else if str_eq(name, "TMoney") {
        read_tmoney(tx, data)
    } else {
        proof {
            lemma_plan_empty(tx.exchanges(), *data);
        }
        Ok(())
    }
}

/// Whether a reply marks a Beijing card: `9000` and data starting with `10 00`.
pub open spec fn beijing_hit(r: ApduResponse) -> bool {
    response_ok(r) && r.data@.len() >= 2 && r.data@[0] == 0x10 && r.data@[1] == 0x00
}

/// The Beijing file-04 read `00B0 84 00 20`.
pub open spec fn beijing_cmd() -> Seq<u8> {
    seq![0x00u8, 0xB0, 0x84, 0x00, 0x20]
}

/// What a Beijing card is read for after its file 04: the `1001` directory
/// (`00A4 00 00 02 1001`, FCI as `BMAC_df`), its purse and its records.
pub open spec fn beijing_plan() -> Seq<ReadOp> {
    seq![ReadOp::Put("BMAC_df"@, case3_bytes(0x00, 0xA4, 0x00, 0x00, seq![0x10u8, 0x01]))] + balance_plan("BMAC_"@)
        + records_plan("BMAC_"@)
}

/// The Beijing probe from position `start` of `log` to its end: file 04 is read with resend;
/// a failure ends the probe with its error, a reply that does not mark a Beijing card ends it
/// with `false`, nothing stored. A Beijing card's file is stored as `BMAC_file04` and
/// `beijing_plan` follows; when it goes through, `BMAC` joins the sub-cards and the result is
/// `true`.
pub open spec fn beijing_probed(log: Seq<Exchange>, start: int, before: RawCardData, after: RawCardData, res: Result<bool, Error>) -> bool {
    match retry_at(log, start, beijing_cmd()) {
        None => false,
        Some((Err(e), j)) => j == log.len() && res == Err::<bool, Error>(e) && after == before,
        Some((Ok(r), j)) => if !beijing_hit(r) {
            j == log.len() && res == Ok::<bool, Error>(false) && after == before
        } else {
            let f0 = before.fields().push(("BMAC_file04"@, hex_upper(r.data@)));
            &&& after.card_type == before.card_type
            &&& after.atr == before.atr
            &&& after.apdu_history == before.apdu_history
            &&& match plan_run(beijing_plan(), log, j) {
                PlanRun::Invalid => false,
                PlanRun::Failed(f, e, k) => k == log.len() && res == Err::<bool, Error>(e) && after.fields() == f0 + f
                    && after.sub_cards == before.sub_cards,
                PlanRun::Ran(f, k) => k == log.len() && res == Ok::<bool, Error>(true) && after.fields() == f0 + f
                    && after.subs() == before.subs().push("BMAC"@),
            }
        },
    }
}

/// Beijing (BMAC): reads file 04 (`00B0 84 00 20`) without SELECT; a `9000` reply starting
/// with `10 00` marks the card, whose file is stored as `BMAC_file04`, then the `1001`
/// directory is selected, purse and records are read and `BMAC` joins the sub-cards
/// (`beijing_probed`). The result tells whether the card was found.
pub fn probe_beijing<T: Transceiver>(tx: &mut T, data: &mut RawCardData) -> (res: Result<bool, Error>)
    ensures
        log_extends(old(tx).exchanges(), final(tx).exchanges()),
        beijing_probed(final(tx).exchanges(), old(tx).exchanges().len() as int, *old(data), *final(data), res),
{
    let ghost n0 = old(tx).exchanges().len() as int;
    let apdu = Apdu::from_bytes(vec![0x00, 0xB0, 0x84, 0x00, 0x20]);
    assert(apdu@ =~= beijing_cmd());
    let r = transceive_retry(tx, apdu);
    let ghost l1 = tx.exchanges();
    proof {
        lemma_retried_extends(old(tx).exchanges(), l1, beijing_cmd());
        lemma_retried_at(old(tx).exchanges(), l1, beijing_cmd());
    }
    let r = match r {
        Err(e) => {
            return Err(e);
        },
        Ok(r) => r,
    };
    if !(r.is_ok() && r.data.len() >= 2 && r.data[0] == 0x10 && r.data[1] == 0x00) {
        return Ok(false);
    }
    data.put(to_owned_string("BMAC_file04"), r.data_hex());
    let ghost d1 = *data;
    let ghost a = seq![beijing_plan()[0]];
    let ghost b = balance_plan("BMAC_"@);
    let ghost c = records_plan("BMAC_"@);
    assert(beijing_plan() =~= a + b + c);
    let sel = vec![0x00, 0xA4, 0x00, 0x00, 0x02, 0x10, 0x01];
    assert(sel@ =~= case3_bytes(0x00, 0xA4, 0x00, 0x00, seq![0x10u8, 0x01]));
    let s = put_plan(tx, data, to_owned_string("BMAC_df"), sel);
    let ghost l2 = tx.exchanges();
    let ghost d2 = *data;
    proof {
        lemma_log_trans(old(tx).exchanges(), l1, l2);
        lemma_retry_stable(l1, l2, n0, beijing_cmd());
    }
    if let Err(e) = s {
        proof {
            lemma_plan_stop(a, b + c, l2, l1.len() as int, d1, d2, e);
            assert(a + (b + c) =~= beijing_plan());
        }
        return Err(e);
    }
    let r = read_transit_balance(tx, data, "BMAC_");
    let ghost l3 = tx.exchanges();
    let ghost d3 = *data;
    proof {
        lemma_log_trans(old(tx).exchanges(), l2, l3);
        lemma_retry_stable(l1, l3, n0, beijing_cmd());
    }
    if let Err(e) = r {
        proof {
            lemma_step_stop(a, b, c, l2, l3, l1.len() as int, d1, d2, d3, e);
        }
        return Err(e);
    }
    proof {
        lemma_plan_then(a, b, l2, l3, l1.len() as int, d1, d2, d3, Ok(()));
    }
    let r = read_transit_records(tx, data, "BMAC_");
    let ghost l4 = tx.exchanges();
    let ghost d4 = *data;
    proof {
        lemma_plan_then(a + b, c, l3, l4, l1.len() as int, d1, d3, d4, r);
        lemma_log_trans(old(tx).exchanges(), l3, l4);
        lemma_retry_stable(l1, l4, n0, beijing_cmd());
    }
    if let Err(e) = r {
        return Err(e);
    }
    data.sub_cards.push(to_owned_string("BMAC"));
    proof {
        assert(data.subs() =~= d4.subs().push("BMAC"@));
    }
    Ok(true)
}

/// Whether a sub-card list already names Macau Pass.
pub open spec fn has_macau(subs: Seq<Seq<char>>) -> bool {
    exists|i: int| 0 <= i < subs.len() && subs[i] == "MacauPass"@
}

/// The SELECT of the AMTJAVACARD container.
pub open spec fn amtjavacard_select() -> Seq<u8> {
    case4_bytes(0x00, 0xA4, 0x04, 0x00, amtjavacard_spec(), 0x00)
}

/// The SELECT of the Macau Pass AID.
pub open spec fn macau_select() -> Seq<u8> {
    case4_bytes(0x00, 0xA4, 0x04, 0x00, type_a_chain_spec()[4].1, 0x00)
}

/// `after` is `before` with the raw fields `fields` and nothing else changed.
pub open spec fn with_fields(before: RawCardData, after: RawCardData, fields: Fields) -> bool {
    &&& after.fields() == fields
    &&& after.card_type == before.card_type
    &&& after.sub_cards == before.sub_cards
    &&& after.atr == before.atr
    &&& after.apdu_history == before.apdu_history
}

/// The Macau Pass fallback from position `start` of `log` to its end: nothing when Macau Pass
/// is already a sub-card; else the AMTJAVACARD SELECT (FCI as `amtjavacard_fci`) and, when it
/// answers `9000`, the Macau SELECT (FCI as `macau_fci`) and, when that answers `9000`, the
/// standard reads of `MacauPass`, after which `MacauPass` joins the sub-cards. A failed
/// exchange ends the probe with its error.
pub open spec fn macau_probed(log: Seq<Exchange>, start: int, before: RawCardData, after: RawCardData, res: Result<(), Error>) -> bool {
    if has_macau(before.subs()) {
        log.len() == start && after == before && res is Ok
    } else {
        match once_at(log, start, amtjavacard_select()) {
            None => false,
            Some((Err(e), j)) => j == log.len() && res == Err::<(), Error>(e) && after == before,
            Some((Ok(r), j)) => if !response_ok(r) {
                j == log.len() && res is Ok && after == before
            } else {
                let f1 = before.fields().push(("amtjavacard_fci"@, hex_upper(r.data@)));
                match once_at(log, j, macau_select()) {
                    None => false,
                    Some((Err(e), k)) => k == log.len() && res == Err::<(), Error>(e) && with_fields(before, after, f1),
                    Some((Ok(r2), k)) => if !response_ok(r2) {
                        k == log.len() && res is Ok && with_fields(before, after, f1)
                    } else {
                        let f2 = f1.push(("macau_fci"@, hex_upper(r2.data@)));
                        &&& after.card_type == before.card_type
                        &&& after.atr == before.atr
                        &&& after.apdu_history == before.apdu_history
                        &&& match plan_run(standard_plan("MacauPass"@), log, k) {
                            PlanRun::Invalid => false,
                            PlanRun::Failed(f, e, m) => m == log.len() && res == Err::<(), Error>(e)
                                && after.fields() == f2 + f && after.sub_cards == before.sub_cards,
                            PlanRun::Ran(f, m) => m == log.len() && res is Ok && after.fields() == f2 + f
                                && after.subs() == before.subs().push("MacauPass"@),
                        }
                    },
                }
            },
        }
    }
}

pub proof fn lemma_once_at(before: Seq<Exchange>, after: Seq<Exchange>, cmd: Seq<u8>)
    requires
        crate::model::one_more(before, after, cmd),
    ensures
        once_at(after, before.len() as int, cmd) == Some((after.last().1, after.len() as int)),
{
}

pub proof fn lemma_once_stable(l1: Seq<Exchange>, l2: Seq<Exchange>, i: int, cmd: Seq<u8>)
    requires
        log_extends(l1, l2),
        once_at(l1, i, cmd) is Some,
    ensures
        once_at(l2, i, cmd) == once_at(l1, i, cmd),
{
    assert(l2[i] == l1[i]);
}

/// Macau Pass fallback: unless Macau Pass is already among the sub-cards, SELECT the
/// AMTJAVACARD container (FCI as `amtjavacard_fci`), then the Macau AID (FCI as `macau_fci`);
/// when both succeed, read it as a standard card and add `MacauPass` to the sub-cards
/// (`macau_probed`).
pub fn probe_macau_fallback<T: Transceiver>(tx: &mut T, data: &mut RawCardData) -> (res: Result<(), Error>)
    ensures
        log_extends(old(tx).exchanges(), final(tx).exchanges()),
        macau_probed(final(tx).exchanges(), old(tx).exchanges().len() as int, *old(data), *final(data), res),
{
    let ghost n0 = old(tx).exchanges().len() as int;
    let mut i: usize = 0;
    while i < data.sub_cards.len()
        invariant
            i <= data.sub_cards@.len(),
            *data == *old(data),
            tx.exchanges() == old(tx).exchanges(),
            forall|j: int| 0 <= j < i ==> data.subs()[j] != "MacauPass"@,
        decreases data.sub_cards@.len() - i,
    {
        if str_eq(data.sub_cards[i].as_str(), "MacauPass") {
            assert(data.subs()[i as int] == "MacauPass"@);
            return Ok(());
        }
        i = i + 1;
    }
    assert(!has_macau(old(data).subs()));
    let s = select_aid(tx, amtjavacard(), data, "amtjavacard_fci");
    let ghost l1 = tx.exchanges();
    let ghost d1 = *data;
    proof {
        lemma_one_more_extends(old(tx).exchanges(), l1, amtjavacard_select());
        lemma_once_at(old(tx).exchanges(), l1, amtjavacard_select());
    }
    let found = match s {
        Err(e) => {
            return Err(e);
        },
        Ok(b) => b,
    };
    if !found {
        return Ok(());
    }
    let chain = type_a_chain();
    assert(chain@.map_values(|e: crate::aids::AidEntry| e.spec_view()).len() == chain@.len());
    assert(chain@.map_values(|e: crate::aids::AidEntry| e.spec_view())[4] == chain@[4].spec_view());
    let macau_aid = chain[4].aid;
    assert(case4_bytes(0x00, 0xA4, 0x04, 0x00, macau_aid@, 0x00) == macau_select());
    let s2 = select_aid(tx, macau_aid, data, "macau_fci");
    let ghost l2 = tx.exchanges();
    let ghost d2 = *data;
    proof {
        lemma_one_more_extends(l1, l2, macau_select());
        lemma_once_at(l1, l2, macau_select());
        lemma_log_trans(old(tx).exchanges(), l1, l2);
        lemma_once_stable(l1, l2, n0, amtjavacard_select());
    }
    let found = match s2 {
        Err(e) => {
            return Err(e);
        },
        Ok(b) => b,
    };
    if !found {
        return Ok(());
    }
    let r = read_standard_transit(tx, data, "MacauPass");
    let ghost l3 = tx.exchanges();
    let ghost d3 = *data;
    proof {
        lemma_log_trans(old(tx).exchanges(), l2, l3);
        lemma_once_stable(l1, l3, n0, amtjavacard_select());
        lemma_once_stable(l2, l3, l1.len() as int, macau_select());
    }
    if let Err(e) = r {
        return Err(e);
    }
    data.sub_cards.push(to_owned_string("MacauPass"));
    proof {
        assert(data.subs() =~= d3.subs().push("MacauPass"@));
    }
    Ok(())
}


/// How many times `name` occurs in a list of sub-card names.
pub open spec fn name_count(subs: Seq<Seq<char>>, name: Seq<char>) -> nat
    decreases subs.len(),
{
    if subs.len() == 0 {
        0
    } else {
        name_count(subs.drop_last(), name) + if subs.last() == name {
            1nat
        } else {
            0nat
        }
    }
}

proof fn lemma_name_count_absent(subs: Seq<Seq<char>>)
    requires
        !has_macau(subs),
    ensures
        name_count(subs, "MacauPass"@) == 0,
    decreases subs.len(),
{
    if subs.len() > 0 {
        let d = subs.drop_last();
        assert forall|i: int| 0 <= i < d.len() implies d[i] != "MacauPass"@ by {
            assert(d[i] == subs[i]);
        }
        assert(subs.last() == subs[subs.len() - 1]);
        lemma_name_count_absent(d);
    }
}

/// The Macau Pass fallback adds Macau Pass at most once. When it is already a sub-card,
/// nothing is sent and the record is unchanged. Otherwise, after a successful probe, it occurs
/// once among the sub-cards exactly when the AMTJAVACARD SELECT and then the Macau Pass SELECT
/// both answered `9000`, and not at all otherwise.
pub proof fn law_macau_fallback_at_most_once(
    log: Seq<Exchange>,
    start: int,
    before: RawCardData,
    after: RawCardData,
    res: Result<(), Error>,
)
    requires
        macau_probed(log, start, before, after, res),
    ensures
        has_macau(before.subs()) ==> log.len() == start && after == before,
        !has_macau(before.subs()) && res is Ok ==> name_count(after.subs(), "MacauPass"@) <= 1,
        !has_macau(before.subs()) && res is Ok ==> (name_count(after.subs(), "MacauPass"@) == 1 <==> (
            0 <= start && start + 1 < log.len()
            && log[start].0 == amtjavacard_select() && put_hit(log[start].1)
            && log[start + 1].0 == macau_select() && put_hit(log[start + 1].1))),
{
    if !has_macau(before.subs()) {
        lemma_name_count_absent(before.subs());
        let m = "MacauPass"@;
        let p = before.subs().push(m);
        assert(p.drop_last() =~= before.subs());
        assert(name_count(p, m) == 1);
    }
}

} // verus!
