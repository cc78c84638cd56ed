//! Card detection and reading: the protocol family inferred from the ATR decides which reads
//! run; Type A cards go through the whole probe chain, since several cards can share one chip.
use vstd::prelude::*;
use crate::aids::{AidEntry, type_a_chain, type_a_chain_spec};
use crate::apdu::{case4_bytes, response_ok};
use crate::hexfmt::hex_upper;
use crate::emv::{ppse_probed, probe_ppse};
use crate::error::Error;
use crate::felica::{octopus_read, read_octopus};
use crate::helpers::{lemma_log_trans, lemma_one_more_extends, log_extends, select_aid};
use crate::mifare::{classic_read, desfire_probed, probe_desfire, read_classic, read_ultralight, ultralight_read};
use crate::model::{CardStandard, Exchange, RawCardData, Transceiver, names_view};
use crate::text::{push_str, to_owned_string};
use crate::transit::{
    PlanRun, beijing_probed, lemma_once_at, macau_probed, once_at, plan_run, probe_beijing, probe_macau_fallback, read_by_name,
    transit_plan,
};

verus! {

/// The sub-card names joined with `+`.
pub open spec fn join_plus(names: Seq<Seq<char>>) -> Seq<char>
    decreases names.len(),
{
    if names.len() == 0 {
        Seq::empty()
    } else if names.len() == 1 {
        names[0]
    } else {
        join_plus(names.drop_last()) + "+"@ + names.last()
    }
}

/// The names joined with `+`.
pub fn join_names(names: &Vec<String>) -> (res: String)
    ensures
        res@ == join_plus(names_view(names@)),
{
    let mut s = String::new();
    let mut i: usize = 0;
    while i < names.len()
        invariant
            i <= names@.len(),
            s@ == join_plus(names_view(names@).subrange(0, i as int)),
        decreases names@.len() - i,
    {
        let ghost pre = names_view(names@).subrange(0, i as int);
        let ghost next = names_view(names@).subrange(0, i + 1);
        assert(next.drop_last() =~= pre);
        if i > 0 {
            push_str(&mut s, "+");
        } else {
            assert(s@ =~= Seq::<char>::empty());
        }
        push_str(&mut s, names[i].as_str());
        proof {
            if i == 0 {
                assert(s@ =~= next[0]);
            }
        }
        i = i + 1;
    }
    assert(names_view(names@).subrange(0, names@.len() as int) =~= names_view(names@));
    s
}

/// The card type that the sub-cards found give: several are joined with `+`, a single one
/// names the card, none leaves `current`.
pub open spec fn combined_type(subs: Seq<Seq<char>>, current: Seq<char>) -> Seq<char> {
    if subs.len() > 1 {
        join_plus(subs)
    } else if subs.len() == 1 {
        subs[0]
    } else {
        current
    }
}

/// One entry of the probe chain, as (card name, AID, FCI key), from position `start` of `log`
/// to its end: SELECT of its AID (FCI stored under its key); on `9000`, the card's reads
/// (`transit_plan` of its name), after which the name joins the sub-cards. A failed exchange
/// ends it with its error.
pub open spec fn chain_entry_read(e: (Seq<char>, Seq<u8>, Seq<char>), log: Seq<Exchange>, start: int, before: RawCardData, after: RawCardData, res: Result<(), Error>) -> bool {
    match once_at(log, start, case4_bytes(0x00, 0xA4, 0x04, 0x00, e.1, 0x00)) {
        None => false,
        Some((Err(er), j)) => j == log.len() && res == Err::<(), Error>(er) && after == before,
        Some((Ok(r), j)) => if !response_ok(r) {
            j == log.len() && res is Ok && after == before
        } else {
            let f1 = before.fields().push((e.2, hex_upper(r.data@)));
            &&& after.card_type == before.card_type
            &&& after.atr == before.atr
            &&& after.apdu_history == before.apdu_history
            &&& match plan_run(transit_plan(e.0), log, j) {
                PlanRun::Invalid => false,
                PlanRun::Failed(f, er, k) => k == log.len() && res == Err::<(), Error>(er) && after.fields() == f1 + f
                    && after.sub_cards == before.sub_cards,
                PlanRun::Ran(f, k) => k == log.len() && res is Ok && after.fields() == f1 + f
                    && after.subs() == before.subs().push(e.0),
            }
        },
    }
}

/// The probe chain `entries` from position `start` of `log` to its end: the entries in
/// order (`chain_entry_read`), the first failure ending it.
pub open spec fn chain_read(entries: Seq<(Seq<char>, Seq<u8>, Seq<char>)>, log: Seq<Exchange>, start: int, before: RawCardData, after: RawCardData, res: Result<(), Error>) -> bool
    decreases entries.len(),
{
    if entries.len() == 0 {
        log.len() == start && after == before && res is Ok
    } else {
        ||| res is Err && chain_read(entries.drop_last(), log, start, before, after, res)
        ||| exists|m: int, dm: RawCardData|
            start <= m <= log.len() && chain_read(entries.drop_last(), log.take(m), start, before, dm, Ok(()))
                && #[trigger] chain_entry_read(entries.last(), log, m, dm, after, res)
    }
}

/// The stages of the Type A probe chain over `log` from `start` to its end, with their
/// positions, intermediate records and results: the Beijing probe, the DESFire probe, the AID
/// chain, the Macau Pass fallback and the PPSE probe, the first failure ending it; on success
/// a PPSE hit adds `EMV` to the sub-cards and the card is named after them (`combined_type`).
pub open spec fn type_a_trace(
    log: Seq<Exchange>,
    start: int,
    before: RawCardData,
    after: RawCardData,
    res: Result<(), Error>,
    p1: int,
    d1: RawCardData,
    r1: Result<bool, Error>,
    p2: int,
    d2: RawCardData,
    r2: Result<bool, Error>,
    p3: int,
    d3: RawCardData,
    r3: Result<(), Error>,
    p4: int,
    d4: RawCardData,
    r4: Result<(), Error>,
    d5: RawCardData,
    r5: Result<bool, Error>,
) -> bool {
    &&& start <= p1 <= log.len()
    &&& beijing_probed(log.take(p1), start, before, d1, r1)
    &&& match r1 {
        Err(e) => p1 == log.len() && res == Err::<(), Error>(e) && after == d1,
        Ok(_) => {
            &&& p1 <= p2 <= log.len()
            &&& desfire_probed(log.subrange(p1, p2), d1, d2, r2)
            &&& match r2 {
                Err(e) => p2 == log.len() && res == Err::<(), Error>(e) && after == d2,
                Ok(_) => {
                    &&& p2 <= p3 <= log.len()
                    &&& chain_read(type_a_chain_spec(), log.take(p3), p2, d2, d3, r3)
                    &&& match r3 {
                        Err(e) => p3 == log.len() && res == Err::<(), Error>(e) && after == d3,
                        Ok(_) => {
                            &&& p3 <= p4 <= log.len()
                            &&& macau_probed(log.take(p4), p3, d3, d4, r4)
                            &&& match r4 {
                                Err(e) => p4 == log.len() && res == Err::<(), Error>(e) && after == d4,
                                Ok(_) => {
                                    &&& ppse_probed(log.subrange(p4, log.len() as int), d4, d5, r5)
                                    &&& match r5 {
                                        Err(e) => res == Err::<(), Error>(e) && after == d5,
                                        Ok(hit) => {
                                            let subs = if hit { d5.subs().push("EMV"@) } else { d5.subs() };
                                            &&& res is Ok
                                            &&& after.subs() == subs
                                            &&& after.fields() == d5.fields()
                                            &&& after.atr == d5.atr
                                            &&& after.apdu_history == d5.apdu_history
                                            &&& after.card_type@ == combined_type(subs, d5.card_type@)
                                        },
                                    }
                                },
                            }
                        },
                    }
                },
            }
        },
    }
}

/// The Type A probe chain over `log` from `start` to its end (`type_a_trace`, for some
/// positions and intermediate records).
pub open spec fn type_a_read(log: Seq<Exchange>, start: int, before: RawCardData, after: RawCardData, res: Result<(), Error>) -> bool {
    exists|
        p1: int,
        d1: RawCardData,
        r1: Result<bool, Error>,
        p2: int,
        d2: RawCardData,
        r2: Result<bool, Error>,
        p3: int,
        d3: RawCardData,
        r3: Result<(), Error>,
        p4: int,
        d4: RawCardData,
        r4: Result<(), Error>,
        d5: RawCardData,
        r5: Result<bool, Error>,
    | #[trigger] type_a_trace(log, start, before, after, res, p1, d1, r1, p2, d2, r2, p3, d3, r3, p4, d4, r4, d5, r5)
}

proof fn lemma_take_extends(l1: Seq<Exchange>, l2: Seq<Exchange>)
    requires
        log_extends(l1, l2),
    ensures
        l2.take(l1.len() as int) == l1,
{
    assert(l2.take(l1.len() as int) =~= l1);
}

proof fn lemma_subrange_extends(l1: Seq<Exchange>, l2: Seq<Exchange>, a: int)
    requires
        log_extends(l1, l2),
        0 <= a <= l1.len(),
    ensures
        l2.subrange(a, l1.len() as int) == l1.subrange(a, l1.len() as int),
{
    assert(l2.subrange(a, l1.len() as int) =~= l1.subrange(a, l1.len() as int));
}

/// One more entry of the chain after the first `i` went through.
proof fn lemma_chain_step(
    entries: Seq<(Seq<char>, Seq<u8>, Seq<char>)>,
    i: int,
    l1: Seq<Exchange>,
    l2: Seq<Exchange>,
    start: int,
    before: RawCardData,
    mid: RawCardData,
    after: RawCardData,
    res: Result<(), Error>,
)
    requires
        0 <= i < entries.len(),
        start <= l1.len(),
        chain_read(entries.take(i), l1, start, before, mid, Ok(())),
        log_extends(l1, l2),
        chain_entry_read(entries[i], l2, l1.len() as int, mid, after, res),
    ensures
        chain_read(entries.take(i + 1), l2, start, before, after, res),
{
    lemma_take_extends(l1, l2);
    assert(entries.take(i + 1).drop_last() =~= entries.take(i));
    assert(entries.take(i + 1).last() == entries[i]);
    assert(chain_read(entries.take(i + 1).drop_last(), l2.take(l1.len() as int), start, before, mid, Ok(())));
    assert(l1.len() <= l2.len());
    assert(chain_entry_read(entries.take(i + 1).last(), l2, l1.len() as int, mid, after, res));
}

/// The Type A probe chain: the Beijing file, DESFire, each transit/payment AID of the chain
/// (a hit is read by name and recorded as a sub-card), the Macau Pass fallback, then PPSE
/// (recorded as `EMV`); finally the card is named after the sub-cards found (`type_a_read`).
pub fn read_type_a<T: Transceiver>(tx: &mut T, data: &mut RawCardData) -> (res: Result<(), Error>)
    ensures
        log_extends(old(tx).exchanges(), final(tx).exchanges()),
        type_a_read(final(tx).exchanges(), old(tx).exchanges().len() as int, *old(data), *final(data), res),
{
    let ghost n0 = old(tx).exchanges().len() as int;
    let ghost d0 = *old(data);
    let pb = probe_beijing(tx, data);
    let ghost l1 = tx.exchanges();
    let ghost d1 = *data;
    let ghost r1 = pb;
    proof {
        lemma_take_extends(l1, l1);
    }
    if let Err(e) = pb {
        assert(type_a_trace(l1, n0, d0, d1, Err(e), l1.len() as int, d1, r1, 0, d1, r1, 0, d1, Ok(()), 0, d1, Ok(()), d1, Ok(false)));
        return Err(e);
    }
    let pd = probe_desfire(tx, data);
    let ghost l2 = tx.exchanges();
    let ghost d2 = *data;
    let ghost r2 = pd;
    proof {
        lemma_log_trans(old(tx).exchanges(), l1, l2);
        lemma_take_extends(l1, l2);
    }
    if let Err(e) = pd {
        assert(type_a_trace(l2, n0, d0, d2, Err(e), l1.len() as int, d1, r1, l2.len() as int, d2, r2, 0, d2, Ok(()), 0, d2, Ok(()), d2, Ok(false)));
        return Err(e);
    }
    let chain = type_a_chain();
    let ghost entries = type_a_chain_spec();
    let mut i: usize = 0;
    assert(entries.take(0) =~= Seq::<(Seq<char>, Seq<u8>, Seq<char>)>::empty());
    while i < chain.len()
        invariant
            i <= chain@.len(),
            chain@.map_values(|e: AidEntry| e.spec_view()) == entries,
            entries == type_a_chain_spec(),
            log_extends(old(tx).exchanges(), l2),
            log_extends(l2, tx.exchanges()),
            l2.len() >= n0,
            n0 == old(tx).exchanges().len(),
            d0 == *old(data),
            log_extends(l1, l2),
            n0 <= l1.len(),
            beijing_probed(l1, n0, d0, d1, r1),
            r1 is Ok,
            desfire_probed(l2.subrange(l1.len() as int, l2.len() as int), d1, d2, r2),
            r2 is Ok,
            chain_read(entries.take(i as int), tx.exchanges(), l2.len() as int, d2, *data, Ok(())),
        decreases chain@.len() - i,
    {
        let entry = &chain[i];
        assert(chain@.map_values(|e: AidEntry| e.spec_view())[i as int] == entry.spec_view());
        let ghost lb = tx.exchanges();
        let ghost db = *data;
        let ghost sel = case4_bytes(0x00, 0xA4, 0x04, 0x00, entry.aid@, 0x00);
        let hit = select_aid(tx, entry.aid, data, entry.key);
        let ghost lc = tx.exchanges();
        let ghost dc = *data;
        proof {
            lemma_one_more_extends(lb, lc, sel);
            lemma_log_trans(l2, lb, lc);
            lemma_once_at(lb, lc, sel);
        }
        let found = match hit {
            Err(e) => {
                proof {
                    lemma_chain_step(entries, i as int, lb, lc, l2.len() as int, d2, db, dc, Err(e));
                    assert(chain_read(entries, lc, l2.len() as int, d2, dc, Err(e))) by {
                        lemma_chain_err(entries, i as int + 1, lc, l2.len() as int, d2, dc, e);
                    }
                    lemma_take_extends(l1, lc);
                    lemma_subrange_extends(l2, lc, l1.len() as int);
                    assert(lc.take(lc.len() as int) =~= lc);
                    assert(type_a_trace(lc, n0, d0, dc, Err(e), l1.len() as int, d1, r1, l2.len() as int, d2, r2, lc.len() as int, dc, Err(e), 0, dc, Ok(()), dc, Ok(false)));
                }
                return Err(e);
            },
            Ok(b) => b,
        };
        if found {
            let rn = read_by_name(tx, entry.name, data);
            let ghost ld = tx.exchanges();
            let ghost dd = *data;
            proof {
                lemma_log_trans(l2, lc, ld);
                crate::transit::lemma_once_stable(lc, ld, lb.len() as int, sel);
            }
            if let Err(e) = rn {
                proof {
                    lemma_chain_step(entries, i as int, lb, ld, l2.len() as int, d2, db, dd, Err(e));
                    lemma_chain_err(entries, i as int + 1, ld, l2.len() as int, d2, dd, e);
                    lemma_take_extends(l1, ld);
                    lemma_subrange_extends(l2, ld, l1.len() as int);
                    assert(ld.take(ld.len() as int) =~= ld);
                    assert(type_a_trace(ld, n0, d0, dd, Err(e), l1.len() as int, d1, r1, l2.len() as int, d2, r2, ld.len() as int, dd, Err(e), 0, dd, Ok(()), dd, Ok(false)));
                }
                return Err(e);
            }
            data.sub_cards.push(to_owned_string(entry.name));
            proof {
                assert(data.subs() =~= dd.subs().push(entry.name@));
                lemma_chain_step(entries, i as int, lb, ld, l2.len() as int, d2, db, *data, Ok(()));
            }
        } else {
            proof {
                lemma_chain_step(entries, i as int, lb, lc, l2.len() as int, d2, db, dc, Ok(()));
            }
        }
        i = i + 1;
    }
    let ghost l3 = tx.exchanges();
    let ghost d3 = *data;
    proof {
        assert(entries.take(entries.len() as int) =~= entries);
        lemma_log_trans(old(tx).exchanges(), l2, l3);
    }
    let pm = probe_macau_fallback(tx, data);
    let ghost l4 = tx.exchanges();
    let ghost d4 = *data;
    let ghost r4 = pm;
    proof {
        lemma_log_trans(old(tx).exchanges(), l3, l4);
        lemma_log_trans(l2, l3, l4);
        lemma_take_extends(l1, l4);
        lemma_take_extends(l3, l4);
        lemma_subrange_extends(l2, l4, l1.len() as int);
        assert(l4.take(l4.len() as int) =~= l4);
    }
    if let Err(e) = pm {
        assert(type_a_trace(l4, n0, d0, d4, Err(e), l1.len() as int, d1, r1, l2.len() as int, d2, r2, l3.len() as int, d3, Ok(()), l4.len() as int, d4, r4, d4, Ok(false)));
        return Err(e);
    }
    let emv = probe_ppse(tx, data);
    let ghost l5 = tx.exchanges();
    let ghost d5 = *data;
    let ghost r5 = emv;
    proof {
        lemma_log_trans(old(tx).exchanges(), l4, l5);
        lemma_log_trans(l1, l4, l5);
        lemma_log_trans(l2, l4, l5);
        lemma_log_trans(l3, l4, l5);
        lemma_take_extends(l1, l5);
        lemma_take_extends(l3, l5);
        lemma_take_extends(l4, l5);
        lemma_subrange_extends(l2, l5, l1.len() as int);
    }
    let hit = match emv {
        Err(e) => {
            assert(type_a_trace(l5, n0, d0, d5, Err(e), l1.len() as int, d1, r1, l2.len() as int, d2, r2, l3.len() as int, d3, Ok(()), l4.len() as int, d4, r4, d5, r5));
            return Err(e);
        },
        Ok(b) => b,
    };
    if hit {
        data.sub_cards.push(to_owned_string("EMV"));
        assert(data.subs() =~= d5.subs().push("EMV"@));
    }
    let ghost d6 = *data;
    if data.sub_cards.len() > 1 {
        data.card_type = join_names(&data.sub_cards);
    } else if data.sub_cards.len() == 1 {
        data.card_type = to_owned_string(data.sub_cards[0].as_str());
    }
    assert(data.card_type@ == combined_type(d6.subs(), d5.card_type@));
    assert(type_a_trace(l5, n0, d0, *data, Ok(()), l1.len() as int, d1, r1, l2.len() as int, d2, r2, l3.len() as int, d3, Ok(()), l4.len() as int, d4, r4, d5, r5));
    Ok(())
}

/// A failure in the first `i` entries of the chain ends the whole chain there.
proof fn lemma_chain_err(entries: Seq<(Seq<char>, Seq<u8>, Seq<char>)>, i: int, log: Seq<Exchange>, start: int, before: RawCardData, after: RawCardData, e: Error)
    requires
        0 <= i <= entries.len(),
        chain_read(entries.take(i), log, start, before, after, Err(e)),
    ensures
        chain_read(entries, log, start, before, after, Err(e)),
    decreases entries.len() - i,
{
    if i < entries.len() {
        assert(entries.take(i + 1).drop_last() =~= entries.take(i));
        assert(chain_read(entries.take(i + 1), log, start, before, after, Err(e)));
        lemma_chain_err(entries, i + 1, log, start, before, after, e);
    } else {
        assert(entries.take(i) =~= entries);
    }
}

/// A fresh record for a card with the given ATR: type `Unknown`, no fields or sub-cards.
pub open spec fn fresh_record(d: RawCardData, atr: Seq<char>) -> bool {
    &&& d.atr@ == atr
    &&& d.card_type@ == "Unknown"@
    &&& d.raw_fields@.len() == 0
    &&& d.sub_cards@.len() == 0
    &&& d.apdu_history@.len() == 0
}

/// The read of a card of family `standard` on reader `reader` over `log` from `start` to its
/// end, from the record `before` to `after`, ending with `res`: Type B probes PPSE (a hit is
/// named and recorded as `EMV`), Type A runs the probe chain (`type_a_read`), Mifare
/// Ultralight and Classic their page and block reads, FeliCa the Octopus read; an unknown
/// family reads nothing.
pub open spec fn card_read(standard: CardStandard, reader: Seq<char>, log: Seq<Exchange>, start: int, before: RawCardData, after: RawCardData, res: Result<(), Error>) -> bool {
    let seg = log.subrange(start, log.len() as int);
    match standard {
        CardStandard::Unknown => log.len() == start && after == before && res is Ok,
        CardStandard::Iso14443B => exists|dp: RawCardData, rp: Result<bool, Error>|
            #[trigger] ppse_probed(seg, before, dp, rp) && match rp {
                Err(e) => res == Err::<(), Error>(e) && after == dp,
                Ok(false) => res is Ok && after == dp,
                Ok(true) => {
                    &&& res is Ok
                    &&& after.card_type@ == "EMV"@
                    &&& after.subs() == dp.subs().push("EMV"@)
                    &&& after.fields() == dp.fields()
                    &&& after.atr == dp.atr
                    &&& after.apdu_history == dp.apdu_history
                },
            },
        CardStandard::Iso14443A => type_a_read(log, start, before, after, res),
        CardStandard::MifareUltralight => ultralight_read(seg, before, after, res),
        CardStandard::MifareClassic => classic_read(seg, before, after, res),
        CardStandard::Felica => octopus_read(seg, reader, before, after, res),
    }
}

/// Reads a card by the protocol family inferred from its ATR (`card_read`), starting from a
/// `fresh_record`; the result is the record, or the error that ended the read.
pub fn read_card<T: Transceiver>(tx: &mut T, reader_name: &str, standard: CardStandard, atr_hex: &str) -> (res: Result<RawCardData, Error>)
    ensures
        log_extends(old(tx).exchanges(), final(tx).exchanges()),
        exists|d0: RawCardData, d1: RawCardData, r: Result<(), Error>|
            fresh_record(d0, atr_hex@) && #[trigger] card_read(standard, reader_name@, final(tx).exchanges(),
                old(tx).exchanges().len() as int, d0, d1, r) && match r {
                Ok(_) => res == Ok::<RawCardData, Error>(d1),
                Err(e) => res == Err::<RawCardData, Error>(e),
            },
{
    let ghost n = old(tx).exchanges().len() as int;
    let mut data = RawCardData::new();
    data.atr = to_owned_string(atr_hex);
    data.card_type = to_owned_string("Unknown");
    let ghost d0 = data;
    assert(fresh_record(d0, atr_hex@));
    let r: Result<(), Error> = match standard {
        CardStandard::Iso14443B => {
            let hit = probe_ppse(tx, &mut data);
            let ghost dp = data;
            let ghost rp = hit;
            let ghost l1 = tx.exchanges();
            assert(ppse_probed(l1.subrange(n, l1.len() as int), d0, dp, rp));
            match hit {
                Err(e) => Err(e),
                Ok(true) => {
                    data.sub_cards.push(to_owned_string("EMV"));
                    data.card_type = to_owned_string("EMV");
                    assert(data.subs() =~= dp.subs().push("EMV"@));
                    Ok(())
                },
                Ok(false) => Ok(()),
            }
        },
        CardStandard::Iso14443A => read_type_a(tx, &mut data),
        CardStandard::MifareUltralight => read_ultralight(tx, &mut data),
        CardStandard::MifareClassic => read_classic(tx, &mut data),
        CardStandard::Felica => read_octopus(tx, reader_name, &mut data),
        CardStandard::Unknown => Ok(()),
    };
    assert(card_read(standard, reader_name@, tx.exchanges(), n, d0, data, r));
    match r {
        Ok(_) => Ok(data),
        Err(e) => Err(e),
    }
}

} // verus!
