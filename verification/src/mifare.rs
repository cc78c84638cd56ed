//! Mifare Ultralight / Classic reads through the reader's pseudo-APDUs (`FF B0`, `FF 82`,
//! `FF 86`) and the DESFire GetVersion probe.
use vstd::prelude::*;
use crate::apdu::{Apdu, ApduResponse, case3_bytes, response_ok, status_word};
use crate::error::Error;
use crate::helpers::log_extends;
use crate::hexfmt::hex_upper;
use crate::model::{Exchange, RawCardData, Transceiver};
use crate::text::{concat_num, push_str, to_owned_string};

verus! {

/// The Ultralight page read `FF B0 00 <page> 10` (four pages, 16 bytes).
pub open spec fn ul_read_cmd(page: int) -> Seq<u8> {
    seq![0xFFu8, 0xB0, 0x00, page as u8, 0x10]
}

/// Hexadecimal data of the `9000` replies of a run of exchanges, in order.
pub open spec fn ok_data_hex(seg: Seq<Exchange>) -> Seq<char>
    decreases seg.len(),
{
    if seg.len() == 0 {
        Seq::empty()
    } else {
        ok_data_hex(seg.drop_last()) + match seg.last().1 {
            Ok(r) => if response_ok(r) {
                hex_upper(r.data@)
            } else {
                Seq::empty()
            },
            Err(_) => Seq::empty(),
        }
    }
}

/// Whether an exchange carried a `9000` reply.
pub open spec fn exchange_ok(e: Exchange) -> bool {
    e.1 matches Ok(r) && response_ok(r)
}

/// The Ultralight read, with `seg` its exchanges: pages 0, 4, ... read in order while they
/// answer `9000`, at most 15 reads; on success the data read, when there is any, is stored as
/// `ul_data`; a failed exchange ends the read with its error, nothing stored. The card type
/// becomes `MifareUltralight`.
pub open spec fn ultralight_read(seg: Seq<Exchange>, before: RawCardData, after: RawCardData, res: Result<(), Error>) -> bool {
    &&& after.card_type@ == "MifareUltralight"@
    &&& after.atr == before.atr
    &&& after.sub_cards == before.sub_cards
    &&& after.apdu_history == before.apdu_history
    &&& 1 <= seg.len() <= 15
    &&& forall|j: int| 0 <= j < seg.len() ==> (#[trigger] seg[j]).0 == ul_read_cmd(4 * j)
    &&& forall|j: int| 0 <= j < seg.len() - 1 ==> exchange_ok(#[trigger] seg[j])
    &&& match res {
        Ok(_) => {
            &&& seg.len() < 15 ==> !exchange_ok(seg.last())
            &&& seg.last().1 is Ok
            &&& if ok_data_hex(seg).len() == 0 {
                after.fields() == before.fields()
            } else {
                after.fields() == before.fields().push(("ul_data"@, ok_data_hex(seg)))
            }
        },
        Err(e) => seg.last().1 == Err::<ApduResponse, Error>(e) && after.fields() == before.fields(),
    }
}

/// Mifare Ultralight / NTAG: reads pages 0, 4, ..., 56 (`FF B0 00 <page> 10`) until a read is
/// not `9000`, and stores the concatenated data as `ul_data` when any was read. The card
/// type becomes `MifareUltralight` (`ultralight_read`).
#[verifier::loop_isolation(false)]
pub fn read_ultralight<T: Transceiver>(tx: &mut T, data: &mut RawCardData) -> (res: Result<(), Error>)
    ensures
        log_extends(old(tx).exchanges(), final(tx).exchanges()),
        ultralight_read(
            final(tx).exchanges().subrange(old(tx).exchanges().len() as int, final(tx).exchanges().len() as int),
            *old(data),
            *final(data),
            res,
        ),
{
    data.card_type = to_owned_string("MifareUltralight");
    let ghost d0 = *data;
    let ghost base = old(tx).exchanges().len() as int;
    let mut all = String::new();
    let mut page: u8 = 0;
    let mut stopped = false;
    while page < 60 && !stopped
        invariant
            page % 4 == 0,
            page <= 60,
            *data == d0,
            base == old(tx).exchanges().len(),
            log_extends(old(tx).exchanges(), tx.exchanges()),
            tx.exchanges().len() == base + (page / 4) + (if stopped { 1int } else { 0int }),
            forall|j: int| 0 <= j < tx.exchanges().len() - base ==> (#[trigger] tx.exchanges()[base + j]).0 == ul_read_cmd(4 * j),
            forall|j: int| 0 <= j < page / 4 ==> exchange_ok(#[trigger] tx.exchanges()[base + j]),
            stopped ==> !exchange_ok(tx.exchanges().last()) && page < 60,
            tx.exchanges().len() > base ==> tx.exchanges().last().1 is Ok,
            all@ == ok_data_hex(tx.exchanges().subrange(base, tx.exchanges().len() as int)),
        decreases 60 - page, (if stopped { 0int } else { 1int }),
    {
        let apdu = Apdu::from_bytes(vec![0xFF, 0xB0, 0x00, page, 0x10]);
        assert(apdu@ =~= ul_read_cmd(4 * (page / 4) as int));
        let ghost l0 = tx.exchanges();
        let r = tx.transceive(&apdu);
        proof {
            let seg = tx.exchanges().subrange(base, tx.exchanges().len() as int);
            assert forall|j: int| 0 <= j < seg.len() implies (#[trigger] seg[j]).0 == ul_read_cmd(4 * j) by {
                assert(seg[j] == tx.exchanges()[base + j]);
            }
            assert forall|j: int| 0 <= j < seg.len() - 1 implies exchange_ok(#[trigger] seg[j]) by {
                assert(seg[j] == tx.exchanges()[base + j]);
            }
        }
        let r = r?;
        proof {
            let seg = tx.exchanges().subrange(base, tx.exchanges().len() as int);
            assert(seg.drop_last() =~= l0.subrange(base, l0.len() as int));
        }
        if !r.is_ok() {
            stopped = true;
        } else {
            let h = r.data_hex();
            push_str(&mut all, h.as_str());
            page = page + 4;
        }
    }
    let ghost seg = tx.exchanges().subrange(base, tx.exchanges().len() as int);
    assert forall|j: int| 0 <= j < seg.len() implies (#[trigger] seg[j]).0 == ul_read_cmd(4 * j) by {
        assert(seg[j] == tx.exchanges()[base + j]);
    }
    assert forall|j: int| 0 <= j < seg.len() - 1 implies exchange_ok(#[trigger] seg[j]) by {
        assert(seg[j] == tx.exchanges()[base + j]);
    }
    assert(page == 60 || stopped);
    assert(tx.exchanges().len() == base + (page / 4) + (if stopped { 1int } else { 0int }));
    assert(seg.len() == tx.exchanges().len() - base);
    assert(1 <= seg.len() <= 15);
    assert(seg.len() < 15 ==> !exchange_ok(seg.last()));
    assert(all@ == ok_data_hex(seg));
    if all.as_str().unicode_len() > 0 {
        data.put(to_owned_string("ul_data"), all);
    }
    Ok(())
}

/// Where a Mifare Classic read stands: loading the key of a sector, authenticating it,
/// reading one of its blocks, or finished with its result.
pub enum ClassicStep {
    /// The key of the sector is loaded next.
    LoadKey(u8),
    /// The first block of the sector is authenticated next.
    Auth(u8),
    /// Block `b` of the sector is read next.
    Read(u8, u8),
    /// The read is over.
    Done(Result<(), Error>),
}

/// The public default key A tried on a sector.
pub open spec fn classic_key(sector: u8) -> Seq<u8> {
    if sector == 0 {
        seq![0xA0u8, 0xA1, 0xA2, 0xA3, 0xA4, 0xA5]
    } else {
        seq![0xD3u8, 0xF7, 0xD3, 0xF7, 0xD3, 0xF7]
    }
}

/// The command sent at a step: `FF 82 00 00 06 <key>`, `FF 86 00 00 05 01 00 <block> 60 00`
/// or `FF B0 00 <block> 10`.
pub open spec fn classic_cmd(step: ClassicStep) -> Seq<u8> {
    match step {
        ClassicStep::LoadKey(s) => case3_bytes(0xFF, 0x82, 0x00, 0x00, classic_key(s)),
        ClassicStep::Auth(s) => case3_bytes(0xFF, 0x86, 0x00, 0x00, seq![0x01u8, 0x00, (4 * s) as u8, 0x60, 0x00]),
        ClassicStep::Read(s, b) => seq![0xFFu8, 0xB0, 0x00, (4 * s + b) as u8, 0x10],
        ClassicStep::Done(_) => Seq::empty(),
    }
}

/// The step after reading block `b` of sector `s`: the next block, else the next sector's
/// key, else the end (sectors 0 to 2).
pub open spec fn classic_after_read(s: u8, b: u8) -> ClassicStep {
    if b < 3 {
        ClassicStep::Read(s, (b + 1) as u8)
    } else if s < 2 {
        ClassicStep::LoadKey((s + 1) as u8)
    } else {
        ClassicStep::Done(Ok(()))
    }
}

/// The step after a reply: a failed exchange ends the read with its error; a key load or an
/// authentication that is not `9000` ends it without error; a block read goes on whatever
/// its status.
pub open spec fn classic_next(step: ClassicStep, reply: Result<ApduResponse, Error>) -> ClassicStep {
    match step {
        ClassicStep::Done(x) => ClassicStep::Done(x),
        _ => match reply {
            Err(e) => ClassicStep::Done(Err(e)),
            Ok(r) => match step {
                ClassicStep::LoadKey(s) => if response_ok(r) {
                    ClassicStep::Auth(s)
                } else {
                    ClassicStep::Done(Ok(()))
                },
                ClassicStep::Auth(s) => if response_ok(r) {
                    ClassicStep::Read(s, 0)
                } else {
                    ClassicStep::Done(Ok(()))
                },
                ClassicStep::Read(s, b) => classic_after_read(s, b),
                _ => ClassicStep::Done(Ok(())),
            },
        },
    }
}

/// The data that a reply contributes: a block read answered `9000` gives its data in
/// hexadecimal.
pub open spec fn classic_block(step: ClassicStep, reply: Result<ApduResponse, Error>) -> Seq<char> {
    match (step, reply) {
        (ClassicStep::Read(_, _), Ok(r)) => if response_ok(r) {
            hex_upper(r.data@)
        } else {
            Seq::empty()
        },
        _ => Seq::empty(),
    }
}

/// The step reached after the exchanges `seg`.
pub open spec fn classic_state(seg: Seq<Exchange>) -> ClassicStep
    decreases seg.len(),
{
    if seg.len() == 0 {
        ClassicStep::LoadKey(0)
    } else {
        classic_next(classic_state(seg.drop_last()), seg.last().1)
    }
}

/// The block data gathered along the exchanges `seg`.
pub open spec fn classic_collected(seg: Seq<Exchange>) -> Seq<char>
    decreases seg.len(),
{
    if seg.len() == 0 {
        Seq::empty()
    } else {
        classic_collected(seg.drop_last()) + classic_block(classic_state(seg.drop_last()), seg.last().1)
    }
}

/// Each exchange of `seg` sent the command of the step it was made at, before the read was over.
pub open spec fn classic_sent(seg: Seq<Exchange>) -> bool
    decreases seg.len(),
{
    seg.len() == 0 || (classic_sent(seg.drop_last()) && !(classic_state(seg.drop_last()) is Done)
        && seg.last().0 == classic_cmd(classic_state(seg.drop_last())))
}

/// The Mifare Classic read, with `seg` its exchanges: the commands follow the steps, the read
/// ends with `res`, the card type becomes `MifareClassic`, and on success the gathered block
/// data, when there is any, is stored as `classic_data`.
pub open spec fn classic_read(seg: Seq<Exchange>, before: RawCardData, after: RawCardData, res: Result<(), Error>) -> bool {
    &&& classic_sent(seg)
    &&& classic_state(seg) == ClassicStep::Done(res)
    &&& after.card_type@ == "MifareClassic"@
    &&& after.atr == before.atr
    &&& after.sub_cards == before.sub_cards
    &&& after.apdu_history == before.apdu_history
    &&& after.fields() == (if res is Ok && classic_collected(seg).len() > 0 {
        before.fields().push(("classic_data"@, classic_collected(seg)))
    } else {
        before.fields()
    })
}

proof fn lemma_classic_step(seg: Seq<Exchange>, x: Exchange)
    requires
        classic_sent(seg),
        !(classic_state(seg) is Done),
        x.0 == classic_cmd(classic_state(seg)),
    ensures
        classic_sent(seg.push(x)),
        classic_state(seg.push(x)) == classic_next(classic_state(seg), x.1),
        classic_collected(seg.push(x)) == classic_collected(seg) + classic_block(classic_state(seg), x.1),
{
    assert(seg.push(x).drop_last() =~= seg);
}

fn classic_send<T: Transceiver>(tx: &mut T, apdu: &Apdu, Ghost(base): Ghost<int>) -> (res: Result<ApduResponse, Error>)
    requires
        0 <= base <= old(tx).exchanges().len(),
        classic_sent(old(tx).exchanges().subrange(base, old(tx).exchanges().len() as int)),
        !(classic_state(old(tx).exchanges().subrange(base, old(tx).exchanges().len() as int)) is Done),
        apdu@ == classic_cmd(classic_state(old(tx).exchanges().subrange(base, old(tx).exchanges().len() as int))),
    ensures
        ({
            let before = old(tx).exchanges().subrange(base, old(tx).exchanges().len() as int);
            let after = final(tx).exchanges().subrange(base, final(tx).exchanges().len() as int);
            &&& final(tx).exchanges() == old(tx).exchanges().push((apdu@, res))
            &&& classic_sent(after)
            &&& classic_state(after) == classic_next(classic_state(before), res)
            &&& classic_collected(after) == classic_collected(before) + classic_block(classic_state(before), res)
        }),
{
    let ghost before = tx.exchanges().subrange(base, tx.exchanges().len() as int);
    let r = tx.transceive(apdu);
    proof {
        lemma_classic_step(before, (apdu@, r));
        assert(tx.exchanges().subrange(base, tx.exchanges().len() as int) =~= before.push((apdu@, r)));
    }
    r
}

/// Mifare Classic: for sectors 0 to 2, loads the sector's public default key A
/// (`FF 82 00 00 06 <key>`), authenticates its first block (`FF 86 00 00 05 01 00 <block> 60 00`)
/// and reads its four blocks (`FF B0 00 <block> 10`); stops at the first failed load or
/// authentication. The data of the blocks read is stored, concatenated, as `classic_data`.
/// The card type becomes `MifareClassic` (`classic_read`).
#[verifier::loop_isolation(false)]
pub fn read_classic<T: Transceiver>(tx: &mut T, data: &mut RawCardData) -> (res: Result<(), Error>)
    ensures
        log_extends(old(tx).exchanges(), final(tx).exchanges()),
        classic_read(
            final(tx).exchanges().subrange(old(tx).exchanges().len() as int, final(tx).exchanges().len() as int),
            *old(data),
            *final(data),
            res,
        ),
{
    data.card_type = to_owned_string("MifareClassic");
    let ghost d0 = *data;
    let ghost base = old(tx).exchanges().len() as int;
    let mut all = String::new();
    let mut sector: u8 = 0;
    assert(tx.exchanges().subrange(base, base) =~= Seq::<Exchange>::empty());
    while sector < 3
        invariant
            *data == d0,
            sector <= 3,
            base <= tx.exchanges().len(),
            log_extends(old(tx).exchanges(), tx.exchanges()),
            classic_sent(tx.exchanges().subrange(base, tx.exchanges().len() as int)),
            classic_state(tx.exchanges().subrange(base, tx.exchanges().len() as int)) == (if sector < 3 {
                ClassicStep::LoadKey(sector)
            } else {
                ClassicStep::Done(Ok(()))
            }),
            all@ == classic_collected(tx.exchanges().subrange(base, tx.exchanges().len() as int)),
        decreases 3 - sector,
    {
        let begin_block = sector * 4;
        let key: [u8; 6] = if sector == 0 {
            [0xA0, 0xA1, 0xA2, 0xA3, 0xA4, 0xA5]
        } else {
            [0xD3, 0xF7, 0xD3, 0xF7, 0xD3, 0xF7]
        };
        let load = Apdu::case3(0xFF, 0x82, 0x00, 0x00, &key);
        assert(key@ =~= classic_key(sector));
        let r = classic_send(tx, &load, Ghost(base));
        if !r?.is_ok() {
            break;
        }
        let auth_data: [u8; 5] = [0x01, 0x00, begin_block, 0x60, 0x00];
        let auth = Apdu::case3(0xFF, 0x86, 0x00, 0x00, &auth_data);
        assert(auth_data@ =~= seq![0x01u8, 0x00, (4 * sector) as u8, 0x60, 0x00]);
        let r = classic_send(tx, &auth, Ghost(base));
        if !r?.is_ok() {
            break;
        }
        let mut b: u8 = 0;
        while b < 4
            invariant
                *data == d0,
                sector < 3,
                b <= 4,
                begin_block == 4 * sector,
                base <= tx.exchanges().len(),
                log_extends(old(tx).exchanges(), tx.exchanges()),
                classic_sent(tx.exchanges().subrange(base, tx.exchanges().len() as int)),
                classic_state(tx.exchanges().subrange(base, tx.exchanges().len() as int)) == (if b < 4 {
                    ClassicStep::Read(sector, b)
                } else {
                    classic_after_read(sector, 3)
                }),
                all@ == classic_collected(tx.exchanges().subrange(base, tx.exchanges().len() as int)),
            decreases 4 - b,
        {
            let read = Apdu::from_bytes(vec![0xFF, 0xB0, 0x00, begin_block + b, 0x10]);
            assert(read@ =~= classic_cmd(ClassicStep::Read(sector, b)));
            let r = classic_send(tx, &read, Ghost(base))?;
            if r.is_ok() {
                let h = r.data_hex();
                push_str(&mut all, h.as_str());
            }
            b = b + 1;
        }
        sector = sector + 1;
    }
    let ghost seg = tx.exchanges().subrange(base, tx.exchanges().len() as int);
    assert(classic_state(seg) == ClassicStep::Done(Ok::<(), Error>(())));
    if all.as_str().unicode_len() > 0 {
        data.put(to_owned_string("classic_data"), all);
    }
    Ok(())
}

/// The DESFire GetVersion command `90 60 00 00 00`.
pub open spec fn get_version_cmd() -> Seq<u8> {
    seq![0x90u8, 0x60, 0x00, 0x00, 0x00]
}

/// The DESFire follow-up frame command `90 AF 00 00 00`.
pub open spec fn more_frames_cmd() -> Seq<u8> {
    seq![0x90u8, 0xAF, 0x00, 0x00, 0x00]
}

/// `after` is `before` with the raw fields `fields`, marked as DESFire: the card type becomes
/// `MifareDESFire`, which joins the sub-cards.
pub open spec fn desfire_marked(before: RawCardData, after: RawCardData, fields: Seq<(Seq<char>, Seq<char>)>) -> bool {
    &&& after.fields() == fields
    &&& after.card_type@ == "MifareDESFire"@
    &&& after.subs() == before.subs().push("MifareDESFire"@)
    &&& after.atr == before.atr
    &&& after.apdu_history == before.apdu_history
}

/// `after` is `before` with the raw fields `fields` and nothing else changed.
pub open spec fn fields_only(before: RawCardData, after: RawCardData, fields: Seq<(Seq<char>, Seq<char>)>) -> bool {
    &&& after.fields() == fields
    &&& after.card_type == before.card_type
    &&& after.sub_cards == before.sub_cards
    &&& after.atr == before.atr
    &&& after.apdu_history == before.apdu_history
}

/// The DESFire probe, with `seg` its exchanges: GetVersion; on `91AF`, its data as
/// `desfire_version_1`, then up to two follow-up frames stored as `desfire_version_2/3`
/// whatever their status, stopping after one that is not `91AF`, and the card marked as
/// DESFire; a failed exchange ends the probe with its error, the card unmarked.
pub open spec fn desfire_probed(seg: Seq<Exchange>, before: RawCardData, after: RawCardData, res: Result<bool, Error>) -> bool {
    &&& seg.len() >= 1
    &&& seg[0].0 == get_version_cmd()
    &&& match seg[0].1 {
        Err(e) => seg.len() == 1 && res == Err::<bool, Error>(e) && after == before,
        Ok(r) => if status_word(r) != 0x91AF {
            seg.len() == 1 && res == Ok::<bool, Error>(false) && after == before
        } else {
            let f1 = before.fields().push(("desfire_version_1"@, hex_upper(r.data@)));
            &&& seg.len() >= 2
            &&& seg[1].0 == more_frames_cmd()
            &&& match seg[1].1 {
                Err(e) => seg.len() == 2 && res == Err::<bool, Error>(e) && fields_only(before, after, f1),
                Ok(a) => {
                    let f2 = f1.push(("desfire_version_2"@, hex_upper(a.data@)));
                    if status_word(a) != 0x91AF {
                        seg.len() == 2 && res == Ok::<bool, Error>(true) && desfire_marked(before, after, f2)
                    } else {
                        &&& seg.len() == 3
                        &&& seg[2].0 == more_frames_cmd()
                        &&& match seg[2].1 {
                            Err(e) => res == Err::<bool, Error>(e) && fields_only(before, after, f2),
                            Ok(b) => res == Ok::<bool, Error>(true) && desfire_marked(
                                before,
                                after,
                                f2.push(("desfire_version_3"@, hex_upper(b.data@))),
                            ),
                        }
                    }
                },
            }
        },
    }
}

/// DESFire: GetVersion (`90 60 00 00 00`); a `91AF` reply marks the card. Its data is stored
/// as `desfire_version_1`, then up to two more frames (`90 AF 00 00 00`) as
/// `desfire_version_2/3` whatever their status, stopping after one that is not `91AF`; the card
/// type becomes `MifareDESFire`, which joins the sub-cards. The result tells whether the
/// card was found (`desfire_probed`).
pub fn probe_desfire<T: Transceiver>(tx: &mut T, data: &mut RawCardData) -> (res: Result<bool, Error>)
    ensures
        log_extends(old(tx).exchanges(), final(tx).exchanges()),
        desfire_probed(
            final(tx).exchanges().subrange(old(tx).exchanges().len() as int, final(tx).exchanges().len() as int),
            *old(data),
            *final(data),
            res,
        ),
{
    let ghost n0 = old(tx).exchanges().len() as int;
    let apdu = Apdu::from_bytes(vec![0x90, 0x60, 0x00, 0x00, 0x00]);
    assert(apdu@ =~= get_version_cmd());
    let r = tx.transceive(&apdu);
    assert(tx.exchanges().subrange(n0, tx.exchanges().len() as int) =~= seq![(apdu@, r)]);
    let r = r?;
    if r.sw() != 0x91AF {
        return Ok(false);
    }
    data.put(to_owned_string("desfire_version_1"), r.data_hex());
    let more = Apdu::from_bytes(vec![0x90, 0xAF, 0x00, 0x00, 0x00]);
    assert(more@ =~= more_frames_cmd());
    let r2 = tx.transceive(&more);
    assert(tx.exchanges().subrange(n0, tx.exchanges().len() as int) =~= seq![(apdu@, Ok::<ApduResponse, Error>(r)), (more@, r2)]);
    let r2 = r2?;
    data.put(to_owned_string("desfire_version_2"), r2.data_hex());
    if r2.sw() == 0x91AF {
        let r3 = tx.transceive(&more);
        assert(tx.exchanges().subrange(n0, tx.exchanges().len() as int) =~= seq![
            (apdu@, Ok::<ApduResponse, Error>(r)),
            (more@, Ok::<ApduResponse, Error>(r2)),
            (more@, r3),
        ]);
        let r3 = r3?;
        data.put(to_owned_string("desfire_version_3"), r3.data_hex());
    }
    data.card_type = to_owned_string("MifareDESFire");
    let ghost d2 = *data;
    data.sub_cards.push(to_owned_string("MifareDESFire"));
    assert(data.subs() =~= d2.subs().push("MifareDESFire"@));
    Ok(true)
}

} // verus!
