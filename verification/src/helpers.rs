//! Reading steps shared by several card types: SELECT by AID, the PBOC purse reads and the
//! basic-information file. They store raw bytes only.
use vstd::prelude::*;
use crate::apdu::{Apdu, ApduResponse, case3_bytes, case4_bytes, response_ok};
use crate::error::Error;
use crate::hexfmt::hex_upper;
use crate::model::{Exchange, RawCardData, Transceiver, one_more, put_one};
use crate::text::{concat2, concat_num, dec_digits, to_owned_string};

verus! {

/// What one fetch leaves behind: the reply of the exchange decides the result, and a `9000`
/// reply stores its data, in hexadecimal, under `key`.
pub open spec fn fetched(
    before: RawCardData,
    after: RawCardData,
    reply: Result<ApduResponse, Error>,
    key: Seq<char>,
    res: Result<bool, Error>,
) -> bool {
    match reply {
        Err(e) => res == Err::<bool, Error>(e) && after == before,
        Ok(r) => res == Ok::<bool, Error>(response_ok(r)) && if response_ok(r) {
            put_one(before, after, key, hex_upper(r.data@))
        } else {
            after == before
        },
    }
}

/// `after` is `before` with more exchanges appended.
pub open spec fn log_extends(before: Seq<Exchange>, after: Seq<Exchange>) -> bool {
    &&& after.len() >= before.len()
    &&& forall|i: int| 0 <= i < before.len() ==> #[trigger] after[i] == before[i]
}

pub proof fn lemma_log_trans(a: Seq<Exchange>, b: Seq<Exchange>, c: Seq<Exchange>)
    requires
        log_extends(a, b),
        log_extends(b, c),
    ensures
        log_extends(a, c),
{
}

pub proof fn lemma_one_more_extends(a: Seq<Exchange>, b: Seq<Exchange>, cmd: Seq<u8>)
    requires
        one_more(a, b, cmd),
    ensures
        log_extends(a, b),
{
}

/// Sends `cmd` once and stores the data of a `9000` reply under `key`; the result tells
/// whether the status was `9000`.
pub fn fetch<T: Transceiver>(tx: &mut T, cmd: &Apdu, data: &mut RawCardData, key: String) -> (res: Result<bool, Error>)
    ensures
        one_more(old(tx).exchanges(), final(tx).exchanges(), cmd@),
        fetched(*old(data), *final(data), final(tx).exchanges().last().1, key@, res),
{
    let r = tx.transceive(cmd);
    proof {
        assert(final(tx).exchanges().subrange(0, old(tx).exchanges().len() as int) =~= old(tx).exchanges());
    }
    match r {
        Err(e) => Err(e),
        Ok(resp) => {
            if resp.is_ok() {
                data.put(key, resp.data_hex());
                Ok(true)
            } else {
                Ok(false)
            }
        },
    }
}

/// SELECT by AID (`00 A4 04 00 Lc <AID> 00`); on `9000` the FCI is stored under `key`.
/// The result tells whether the selection succeeded.
pub fn select_aid<T: Transceiver>(tx: &mut T, aid: &[u8], data: &mut RawCardData, key: &str) -> (res: Result<bool, Error>)
    ensures
        one_more(old(tx).exchanges(), final(tx).exchanges(), case4_bytes(0x00, 0xA4, 0x04, 0x00, aid@, 0x00)),
        fetched(*old(data), *final(data), final(tx).exchanges().last().1, key@, res),
{
    let apdu = Apdu::case4(0x00, 0xA4, 0x04, 0x00, aid, 0x00);
    fetch(tx, &apdu, data, to_owned_string(key))
}

/// The PBOC balance command `80 5C 00 <usage> 04`.
pub open spec fn balance_cmd(usage: u8) -> Seq<u8> {
    seq![0x80u8, 0x5C, 0x00, usage, 0x04]
}

/// The data of the PBOC load-initialisation command.
pub open spec fn load_init_data() -> Seq<u8> {
    seq![0x01u8, 0x00, 0x00, 0x00, 0x01, 0x00, 0x00, 0x00, 0x00, 0x00, 0x10]
}

/// The PBOC transaction-record command `00 B2 <n> C4 17`.
pub open spec fn record_cmd(n: u8) -> Seq<u8> {
    seq![0x00u8, 0xB2, n, 0xC4, 0x17]
}

/// The PBOC load-initialisation command `80 50 00 <usage> 0B ...`.
pub open spec fn load_cmd(usage: u8) -> Seq<u8> {
    case3_bytes(0x80, 0x50, 0x00, usage, load_init_data())
}

/// Where a PBOC purse read stands: before the balance, before transaction record `n`, before
/// the load initialisation, or finished with its result.
pub enum PbocStep {
    /// The balance is asked next.
    Balance,
    /// Transaction record `n` is asked next.
    Record(u8),
    /// The load initialisation is asked next.
    Load,
    /// The read is over.
    Done(Result<(), Error>),
}

/// The command sent at a step.
pub open spec fn pboc_cmd(step: PbocStep, usage: u8) -> Seq<u8> {
    match step {
        PbocStep::Balance => balance_cmd(usage),
        PbocStep::Record(n) => record_cmd(n),
        PbocStep::Load => load_cmd(usage),
        PbocStep::Done(_) => Seq::empty(),
    }
}

/// The step after a reply: a failed exchange ends the read with its error; after the
/// balance come the records from 1; a record that is not `9000`, or record 10, leads to the
/// load initialisation, whose reply ends the read.
pub open spec fn pboc_next(step: PbocStep, reply: Result<ApduResponse, Error>) -> PbocStep {
    match step {
        PbocStep::Done(x) => PbocStep::Done(x),
        _ => match reply {
            Err(e) => PbocStep::Done(Err(e)),
            Ok(r) => match step {
                PbocStep::Balance => PbocStep::Record(1),
                PbocStep::Record(n) => if response_ok(r) && n < 10 {
                    PbocStep::Record((n + 1) as u8)
                } else {
                    PbocStep::Load
                },
                _ => PbocStep::Done(Ok(())),
            },
        },
    }
}

/// The key under which the reply of a step is stored.
pub open spec fn pboc_key(step: PbocStep, prefix: Seq<char>) -> Seq<char> {
    match step {
        PbocStep::Balance => prefix + "balance"@,
        PbocStep::Record(n) => prefix + "trans_"@ + dec_digits(n as nat),
        _ => prefix + "load_atc"@,
    }
}

/// What a reply adds to the raw fields: its data in hexadecimal on `9000`, nothing else.
pub open spec fn pboc_stored(step: PbocStep, reply: Result<ApduResponse, Error>, prefix: Seq<char>) -> Seq<
    (Seq<char>, Seq<char>),
> {
    match reply {
        Ok(r) => if response_ok(r) && !(step is Done) {
            seq![(pboc_key(step, prefix), hex_upper(r.data@))]
        } else {
            Seq::empty()
        },
        Err(_) => Seq::empty(),
    }
}

/// The step reached after the exchanges `seg`.
pub open spec fn pboc_state(seg: Seq<Exchange>) -> PbocStep
    decreases seg.len(),
{
    if seg.len() == 0 {
        PbocStep::Balance
    } else {
        pboc_next(pboc_state(seg.drop_last()), seg.last().1)
    }
}

/// The raw fields stored along the exchanges `seg`.
pub open spec fn pboc_fields(seg: Seq<Exchange>, prefix: Seq<char>) -> Seq<(Seq<char>, Seq<char>)>
    decreases seg.len(),
{
    if seg.len() == 0 {
        Seq::empty()
    } else {
        pboc_fields(seg.drop_last(), prefix) + pboc_stored(pboc_state(seg.drop_last()), seg.last().1, prefix)
    }
}

/// Each exchange of `seg` sent the command of the step it was made at, before the read was over.
pub open spec fn pboc_sent(seg: Seq<Exchange>, usage: u8) -> bool
    decreases seg.len(),
{
    seg.len() == 0 || (pboc_sent(seg.drop_last(), usage) && !(pboc_state(seg.drop_last()) is Done)
        && seg.last().0 == pboc_cmd(pboc_state(seg.drop_last()), usage))
}

/// The PBOC purse read, with `seg` its exchanges: the commands follow the steps, the read ends
/// with `res`, and the raw fields gain what the steps stored.
pub open spec fn pboc_read(seg: Seq<Exchange>, usage: u8, prefix: Seq<char>, before: RawCardData, after: RawCardData, res: Result<(), Error>) -> bool {
    &&& pboc_sent(seg, usage)
    &&& pboc_state(seg) == PbocStep::Done(res)
    &&& after.fields() == before.fields() + pboc_fields(seg, prefix)
    &&& after.card_type == before.card_type
    &&& after.atr == before.atr
    &&& after.sub_cards == before.sub_cards
    &&& after.apdu_history == before.apdu_history
}

proof fn lemma_pboc_step(
    seg: Seq<Exchange>,
    x: Exchange,
    usage: u8,
    prefix: Seq<char>,
    before: RawCardData,
    mid: RawCardData,
    after: RawCardData,
    key: Seq<char>,
    r: Result<bool, Error>,
)
    requires
        pboc_sent(seg, usage),
        !(pboc_state(seg) is Done),
        x.0 == pboc_cmd(pboc_state(seg), usage),
        key == pboc_key(pboc_state(seg), prefix),
        mid.fields() == before.fields() + pboc_fields(seg, prefix),
        mid.card_type == before.card_type,
        mid.atr == before.atr,
        mid.sub_cards == before.sub_cards,
        mid.apdu_history == before.apdu_history,
        fetched(mid, after, x.1, key, r),
    ensures
        pboc_sent(seg.push(x), usage),
        pboc_state(seg.push(x)) == pboc_next(pboc_state(seg), x.1),
        after.fields() == before.fields() + pboc_fields(seg.push(x), prefix),
        after.card_type == before.card_type,
        after.atr == before.atr,
        after.sub_cards == before.sub_cards,
        after.apdu_history == before.apdu_history,
{
    assert(seg.push(x).drop_last() =~= seg);
    let st = pboc_state(seg);
    match x.1 {
        Ok(resp) => {
            if response_ok(resp) {
                assert(after.fields() =~= before.fields() + pboc_fields(seg.push(x), prefix));
            } else {
                assert(after.fields() =~= before.fields() + pboc_fields(seg.push(x), prefix));
            }
        },
        Err(_) => {
            assert(after.fields() =~= before.fields() + pboc_fields(seg.push(x), prefix));
        },
    }
}

/// Reads the PBOC purse: the balance (`805C 00 <usage> 04`, stored as `<prefix>balance`),
/// transaction records 1 to 10 (`00B2 <n> C4 17`, stored as `<prefix>trans_<n>`, stopping at the
/// first record that is not `9000`) and the load ATC (`8050 00 <usage> 0B ...`, stored as
/// `<prefix>load_atc`). A failed exchange ends the read with its error (`pboc_read`).
pub fn read_pboc_balance_atc_trans<T: Transceiver>(
    tx: &mut T,
    usage: u8,
    data: &mut RawCardData,
    prefix: &str,
) -> (res: Result<(), Error>)
    ensures
        log_extends(old(tx).exchanges(), final(tx).exchanges()),
        pboc_read(
            final(tx).exchanges().subrange(old(tx).exchanges().len() as int, final(tx).exchanges().len() as int),
            usage,
            prefix@,
            *old(data),
            *final(data),
            res,
        ),
{
    let ghost n0 = old(tx).exchanges().len() as int;
    let ghost d0 = *old(data);
    let ghost log0 = old(tx).exchanges();
    proof {
        assert(log0.subrange(n0, n0) =~= Seq::<Exchange>::empty());
        assert(d0.fields() + pboc_fields(Seq::<Exchange>::empty(), prefix@) =~= d0.fields());
    }
    let bal = Apdu::from_bytes(vec![0x80, 0x5C, 0x00, usage, 0x04]);
    assert(bal@ =~= balance_cmd(usage));
    let ghost log1 = tx.exchanges();
    let ghost mid = *data;
    let r = fetch(tx, &bal, data, concat2(prefix, "balance"));
    proof {
        lemma_pboc_step(log1.subrange(n0, n0), tx.exchanges().last(), usage, prefix@, d0, mid, *data, prefix@ + "balance"@, r);
        lemma_one_more_extends(log1, tx.exchanges(), balance_cmd(usage));
        assert(tx.exchanges().subrange(n0, tx.exchanges().len() as int) =~= log1.subrange(n0, n0).push(tx.exchanges().last()));
    }
    r?;
    let mut n: u8 = 1;
    let mut reading = true;
    while reading
        invariant
            1 <= n <= 10,
            log0 == old(tx).exchanges(),
            d0 == *old(data),
            log_extends(log0, tx.exchanges()),
            n0 == log0.len(),
            pboc_sent(tx.exchanges().subrange(n0, tx.exchanges().len() as int), usage),
            pboc_state(tx.exchanges().subrange(n0, tx.exchanges().len() as int)) == (if reading {
                PbocStep::Record(n)
            } else {
                PbocStep::Load
            }),
            data.fields() == d0.fields() + pboc_fields(tx.exchanges().subrange(n0, tx.exchanges().len() as int), prefix@),
            data.card_type == d0.card_type,
            data.atr == d0.atr,
            data.sub_cards == d0.sub_cards,
            data.apdu_history == d0.apdu_history,
        decreases (if reading { 11 - n } else { 0 }),
    {
        let rec = Apdu::from_bytes(vec![0x00, 0xB2, n, 0xC4, 0x17]);
        assert(rec@ =~= record_cmd(n));
        let ghost before_log = tx.exchanges();
        let ghost seg = before_log.subrange(n0, before_log.len() as int);
        let ghost mid = *data;
        let r = fetch(tx, &rec, data, concat_num(prefix, "trans_", n as u64));
        proof {
            lemma_pboc_step(seg, tx.exchanges().last(), usage, prefix@, d0, mid, *data, prefix@ + "trans_"@ + dec_digits(n as nat), r);
            lemma_one_more_extends(before_log, tx.exchanges(), record_cmd(n));
            lemma_log_trans(log0, before_log, tx.exchanges());
            assert(tx.exchanges().subrange(n0, tx.exchanges().len() as int) =~= seg.push(tx.exchanges().last()));
            assert(tx.exchanges().subrange(0, before_log.len() as int) =~= before_log);
        }
        let ok = r?;
        if ok && n < 10 {
            n = n + 1;
        } else {
            reading = false;
        }
    }
    let init_data: [u8; 11] = [0x01, 0x00, 0x00, 0x00, 0x01, 0x00, 0x00, 0x00, 0x00, 0x00, 0x10];
    assert(init_data@ =~= load_init_data());
    let load = Apdu::case3(0x80, 0x50, 0x00, usage, &init_data);
    let ghost before_log = tx.exchanges();
    let ghost seg = before_log.subrange(n0, before_log.len() as int);
    let ghost mid = *data;
    let r = fetch(tx, &load, data, concat2(prefix, "load_atc"));
    proof {
        lemma_pboc_step(seg, tx.exchanges().last(), usage, prefix@, d0, mid, *data, prefix@ + "load_atc"@, r);
        lemma_one_more_extends(before_log, tx.exchanges(), load_cmd(usage));
        lemma_log_trans(log0, before_log, tx.exchanges());
        assert(tx.exchanges().subrange(n0, tx.exchanges().len() as int) =~= seg.push(tx.exchanges().last()));
        assert(tx.exchanges().subrange(0, before_log.len() as int) =~= before_log);
    }
    r?;
    Ok(())
}

/// The basic-information file command `00 B0 95 00 1E`.
pub open spec fn basic_info_cmd() -> Seq<u8> {
    seq![0x00u8, 0xB0, 0x95, 0x00, 0x1E]
}

/// Reads the basic-information file (file 15, `00 B0 95 00 1E`) and stores it under `key`
/// on `9000`; the result tells whether the read succeeded.
pub fn read_basic_info_file<T: Transceiver>(tx: &mut T, data: &mut RawCardData, key: &str) -> (res: Result<bool, Error>)
    ensures
        one_more(old(tx).exchanges(), final(tx).exchanges(), basic_info_cmd()),
        fetched(*old(data), *final(data), final(tx).exchanges().last().1, key@, res),
{
    let apdu = Apdu::from_bytes(vec![0x00, 0xB0, 0x95, 0x00, 0x1E]);
    assert(apdu@ =~= basic_info_cmd());
    fetch(tx, &apdu, data, to_owned_string(key))
}

} // verus!
