//! Reading an EMV contactless application: SELECT PPSE, SELECT of a candidate AID found in the
//! PPSE answer, GPO with an empty PDOL, the common records and three GET DATA objects. Raw
//! bytes only; their meaning is decoded elsewhere.
use vstd::prelude::*;
use crate::aids::{emv_aid_names, emv_aid_names_spec, ppse, ppse_spec};
use crate::apdu::{Apdu, ApduResponse, case4_bytes, response_ok};
use crate::error::Error;
use crate::helpers::{fetch, log_extends, select_aid};
use crate::hexfmt::{decode, encode_upper, hex_decode, hex_upper};
use crate::model::{Exchange, RawCardData, Transceiver, lookup};
use crate::text::{concat2, dec_digits, push_decimal, push_str, starts_with, strings_view, to_owned_string};

verus! {

/// `p` is a prefix of `s`.
pub open spec fn has_prefix(s: Seq<char>, p: Seq<char>) -> bool {
    p.len() <= s.len() && s.subrange(0, p.len() as int) == p
}

/// The brand of the first entry of `names` whose prefix begins `aid`, else `Unknown`.
pub open spec fn brand_from(names: Seq<(Seq<char>, Seq<char>)>, aid: Seq<char>) -> Seq<char>
    decreases names.len(),
{
    if names.len() == 0 {
        "Unknown"@
    } else if has_prefix(aid, names[0].0) {
        names[0].1
    } else {
        brand_from(names.drop_first(), aid)
    }
}

/// The brand that an AID (hexadecimal) belongs to, by its prefix; `Unknown` when none matches.
pub open spec fn brand_spec(aid: Seq<char>) -> Seq<char> {
    brand_from(emv_aid_names_spec(), aid)
}

/// The brand of an AID given in hexadecimal, by its registered prefix; `Unknown` if none.
pub fn brand_of_aid(aid_hex: &str) -> (res: String)
    ensures
        res@ == brand_spec(aid_hex@),
{
    let names = emv_aid_names();
    let ghost spec_names = emv_aid_names_spec();
    let mut i: usize = 0;
    assert(spec_names.subrange(0, spec_names.len() as int) =~= spec_names);
    while i < names.len()
        invariant
            i <= names@.len(),
            names@.map_values(|p: (&'static str, &'static str)| (p.0@, p.1@)) == spec_names,
            spec_names == emv_aid_names_spec(),
            brand_spec(aid_hex@) == brand_from(spec_names.subrange(i as int, spec_names.len() as int), aid_hex@),
        decreases names@.len() - i,
    {
        let (prefix, name) = names[i];
        let ghost rest = spec_names.subrange(i as int, spec_names.len() as int);
        assert(rest[0] == spec_names[i as int]);
        assert(spec_names[i as int] == (prefix@, name@));
        if starts_with(aid_hex, prefix) {
            return to_owned_string(name);
        }
        assert(rest.drop_first() =~= spec_names.subrange(i + 1, spec_names.len() as int));
        i = i + 1;
    }
    assert(spec_names.subrange(i as int, spec_names.len() as int).len() == 0);
    to_owned_string("Unknown")
}

/// The values of the `4F` (ADF name) objects found scanning `b` from `i`: at a `4F` whose
/// length byte is 5 to 16 and whose value fits, the value is taken and the scan goes on after
/// it; otherwise the scan moves one byte on.
pub open spec fn scan_aids(b: Seq<u8>, i: int) -> Seq<Seq<u8>>
    decreases b.len() - i,
{
    if i < 0 || i + 1 >= b.len() {
        Seq::empty()
    } else if b[i] == 0x4F && 5 <= b[i + 1] <= 16 && i + 2 + b[i + 1] <= b.len() {
        seq![b.subrange(i + 2, i + 2 + b[i + 1])] + scan_aids(b, i + 2 + b[i + 1])
    } else {
        scan_aids(b, i + 1)
    }
}

/// The candidate AIDs (upper-case hexadecimal) of a PPSE answer given in hexadecimal, in order;
/// none when the text is not valid hexadecimal.
pub open spec fn ppse_aids(ppse_hex: Seq<char>) -> Seq<Seq<char>> {
    match hex_decode(ppse_hex) {
        Some(b) => scan_aids(b, 0).map_values(|a: Seq<u8>| hex_upper(a)),
        None => Seq::empty(),
    }
}

/// The AIDs (tag `4F`) of a PPSE answer given in hexadecimal, in upper-case hexadecimal.
pub fn extract_aids_from_ppse(ppse_hex: &str) -> (res: Vec<String>)
    ensures
        strings_view(res@) == ppse_aids(ppse_hex@),
{
    let bytes = match decode(ppse_hex) {
        Some(b) => b,
        None => {
            let v: Vec<String> = Vec::new();
            assert(strings_view(v@) =~= ppse_aids(ppse_hex@));
            return v;
        },
    };
    let ghost b = bytes@;
    let mut aids: Vec<String> = Vec::new();
    let mut i: usize = 0;
    while i < bytes.len() && bytes.len() - i > 1
        invariant
            b == bytes@,
            i <= bytes@.len(),
            scan_aids(b, 0).map_values(|a: Seq<u8>| hex_upper(a)) == strings_view(aids@) + scan_aids(b, i as int).map_values(|a: Seq<u8>| hex_upper(a)),
        decreases bytes@.len() - i,
    {
        let ghost before = strings_view(aids@);
        if bytes[i] == 0x4F {
            let len = bytes[i + 1] as usize;
            let start = i + 2;
            if len <= bytes.len() - start && 5 <= len && len <= 16 {
                let v = vstd::slice::slice_subrange(bytes.as_slice(), start, start + len);
                let h = encode_upper(v);
                aids.push(h);
                proof {
                    let tail = scan_aids(b, (start + len) as int);
                    let head = b.subrange(start as int, (start + len) as int);
                    assert(scan_aids(b, i as int) == seq![head] + tail);
                    assert((seq![head] + tail).map_values(|a: Seq<u8>| hex_upper(a))
                        =~= seq![hex_upper(head)] + tail.map_values(|a: Seq<u8>| hex_upper(a)));
                    assert(strings_view(aids@) =~= before.push(hex_upper(head)));
                }
                i = start + len;
                continue;
            }
        }
        i = i + 1;
    }
    proof {
        assert(scan_aids(b, i as int) =~= Seq::<Seq<u8>>::empty());
        assert(scan_aids(b, i as int).map_values(|a: Seq<u8>| hex_upper(a)) =~= Seq::<Seq<char>>::empty());
        assert(strings_view(aids@) + Seq::<Seq<char>>::empty() =~= strings_view(aids@));
        match hex_decode(ppse_hex@) {
            Some(x) => assert(x == b),
            None => {},
        }
    }
    aids
}

/// Every candidate is a T-Union (`A000000632…`) application, and there is at least one.
pub open spec fn all_transit(cands: Seq<Seq<char>>) -> bool {
    cands.len() > 0 && forall|i: int| 0 <= i < cands.len() ==> has_prefix(#[trigger] cands[i], "A000000632"@)
}

fn is_all_transit(cands: &Vec<String>) -> (res: bool)
    ensures
        res == all_transit(strings_view(cands@)),
{
    if cands.len() == 0 {
        return false;
    }
    let mut i: usize = 0;
    while i < cands.len()
        invariant
            i <= cands@.len(),
            forall|k: int| 0 <= k < i ==> has_prefix(#[trigger] strings_view(cands@)[k], "A000000632"@),
        decreases cands@.len() - i,
    {
        if !starts_with(cands[i].as_str(), "A000000632") {
            assert(!has_prefix(strings_view(cands@)[i as int], "A000000632"@));
            return false;
        }
        i = i + 1;
    }
    true
}

/// The fields after a reply `r` stored under `key` when its status is `9000`.
pub open spec fn stored_if_ok(
    fields: Seq<(Seq<char>, Seq<char>)>,
    key: Seq<char>,
    r: ApduResponse,
) -> Seq<(Seq<char>, Seq<char>)> {
    if response_ok(r) {
        fields.push((key, hex_upper(r.data@)))
    } else {
        fields
    }
}

/// GET DATA for `tag`: `80 CA <tag> 00`.
pub open spec fn get_data_cmd(t0: u8, t1: u8) -> Seq<u8> {
    seq![0x80u8, 0xCA, t0, t1, 0x00]
}

/// GET DATA for a two-byte tag; on `9000` the value is stored under `key`.
pub fn read_get_data<T: Transceiver>(tx: &mut T, tag: &[u8; 2], data: &mut RawCardData, key: &str) -> (res: Result<(), Error>)
    ensures
        final(tx).exchanges() == old(tx).exchanges().push((get_data_cmd(tag[0], tag[1]), final(tx).exchanges().last().1)),
        final(data).card_type == old(data).card_type,
        final(data).atr == old(data).atr,
        final(data).sub_cards == old(data).sub_cards,
        final(data).apdu_history == old(data).apdu_history,
        match final(tx).exchanges().last().1 {
            Err(e) => res == Err::<(), Error>(e) && final(data).fields() == old(data).fields(),
            Ok(r) => res == Ok::<(), Error>(()) && final(data).fields() == stored_if_ok(old(data).fields(), key@, r),
        },
{
    let apdu = Apdu::from_bytes(vec![0x80, 0xCA, tag[0], tag[1], 0x00]);
    assert(apdu@ =~= get_data_cmd(tag[0], tag[1]));
    let r = fetch(tx, &apdu, data, to_owned_string(key));
    assert(tx.exchanges() =~= old(tx).exchanges().push((get_data_cmd(tag[0], tag[1]), tx.exchanges().last().1)));
    match r {
        Ok(_) => Ok(()),
        Err(e) => Err(e),
    }
}

/// The key of record number `j` (0 to 11) of the record sweep: `emv_rec_<sfi>_<rec>` with
/// `sfi = j / 4 + 1`, `rec = j % 4 + 1`.
pub open spec fn rec_key(j: int) -> Seq<char> {
    "emv_rec_"@ + dec_digits((j / 4 + 1) as nat) + "_"@ + dec_digits((j % 4 + 1) as nat)
}

/// READ RECORD for step `j` of the sweep: `00 B2 <rec> <sfi << 3 | 04> 00`.
pub open spec fn rec_cmd(j: int) -> Seq<u8> {
    seq![0x00u8, 0xB2, (j % 4 + 1) as u8, ((j / 4 + 1) * 8 + 4) as u8, 0x00]
}

/// What the record sweep from step `j` leaves over its exchanges `seg`: one READ RECORD per
/// step up to step 11, each stored when `9000`; a transport error ends it with that error.
pub open spec fn emv_records(
    seg: Seq<Exchange>,
    j: int,
    fields: Seq<(Seq<char>, Seq<char>)>,
    res: Result<(), Error>,
    after: Seq<(Seq<char>, Seq<char>)>,
) -> bool
    decreases 12 - j,
{
    if j < 0 || j >= 12 {
        seg.len() == 0 && res is Ok && after == fields
    } else {
        &&& seg.len() >= 1
        &&& seg[0].0 == rec_cmd(j)
        &&& match seg[0].1 {
            Err(e) => seg.len() == 1 && res == Err::<(), Error>(e) && after == fields,
            Ok(r) => emv_records(seg.drop_first(), j + 1, stored_if_ok(fields, rec_key(j), r), res, after),
        }
    }
}

/// Reads the records of SFI 1 to 3, records 1 to 4, from step `j` on.
fn read_records<T: Transceiver>(tx: &mut T, data: &mut RawCardData, j: u8) -> (res: Result<(), Error>)
    requires
        j <= 12,
    ensures
        log_extends(old(tx).exchanges(), final(tx).exchanges()),
        emv_records(final(tx).exchanges().subrange(old(tx).exchanges().len() as int, final(tx).exchanges().len() as int),
            j as int, old(data).fields(), res, final(data).fields()),
        final(data).card_type == old(data).card_type,
        final(data).atr == old(data).atr,
        final(data).sub_cards == old(data).sub_cards,
        final(data).apdu_history == old(data).apdu_history,
    decreases 12 - j,
{
    let ghost n = tx.exchanges().len() as int;
    if j >= 12 {
        assert(tx.exchanges().subrange(n, n).len() == 0);
        return Ok(());
    }
    let sfi: u8 = j / 4 + 1;
    let rec: u8 = j % 4 + 1;
    let p2: u8 = sfi * 8 + 4;
    let apdu = Apdu::from_bytes(vec![0x00, 0xB2, rec, p2, 0x00]);
    assert(apdu@ =~= rec_cmd(j as int));
    let mut key = to_owned_string("emv_rec_");
    push_decimal(&mut key, sfi as u64);
    push_str(&mut key, "_");
    push_decimal(&mut key, rec as u64);
    assert(key@ =~= rec_key(j as int));
    let ghost f0 = data.fields();
    let r = fetch(tx, &apdu, data, key);
    let ghost l1 = tx.exchanges();
    proof {
        assert(l1.subrange(n, l1.len() as int)[0] == l1[n]);
    }
    match r {
        Err(e) => {
            return Err(e);
        },
        Ok(_) => {},
    }
    let res = read_records(tx, data, j + 1);
    proof {
        let fl = tx.exchanges();
        let seg = fl.subrange(n, fl.len() as int);
        assert(seg[0] == l1[n]);
        assert(seg.drop_first() =~= fl.subrange(n + 1, fl.len() as int));
    }
    res
}

/// GPO with an empty PDOL: `80 A8 00 00 02 83 00 00`.
pub open spec fn gpo_cmd() -> Seq<u8> {
    seq![0x80u8, 0xA8, 0x00, 0x00, 0x02, 0x83, 0x00, 0x00]
}

/// What the three GET DATA reads (ATC `9F36`, PIN try counter `9F17`, log format `9F4F`) leave
/// over their exchanges `seg`.
pub open spec fn get_datas(
    seg: Seq<Exchange>,
    fields: Seq<(Seq<char>, Seq<char>)>,
    res: Result<bool, Error>,
    after: Seq<(Seq<char>, Seq<char>)>,
) -> bool {
    &&& seg.len() >= 1
    &&& seg[0].0 == get_data_cmd(0x9F, 0x36)
    &&& match seg[0].1 {
        Err(e) => seg.len() == 1 && res == Err::<bool, Error>(e) && after == fields,
        Ok(r1) => {
            let f1 = stored_if_ok(fields, "emv_atc"@, r1);
            &&& seg.len() >= 2
            &&& seg[1].0 == get_data_cmd(0x9F, 0x17)
            &&& match seg[1].1 {
                Err(e) => seg.len() == 2 && res == Err::<bool, Error>(e) && after == f1,
                Ok(r2) => {
                    let f2 = stored_if_ok(f1, "emv_pin_retry"@, r2);
                    &&& seg.len() == 3
                    &&& seg[2].0 == get_data_cmd(0x9F, 0x4F)
                    &&& match seg[2].1 {
                        Err(e) => res == Err::<bool, Error>(e) && after == f2,
                        Ok(r3) => res == Ok::<bool, Error>(true) && after == stored_if_ok(f2, "emv_log_format"@, r3),
                    }
                },
            }
        },
    }
}

/// What reading a selected EMV application leaves over its exchanges `seg`: GPO (stored as
/// `emv_gpo` when `9000`), the record sweep, then the GET DATA reads; a transport error ends it.
pub open spec fn emv_app_read(
    seg: Seq<Exchange>,
    fields: Seq<(Seq<char>, Seq<char>)>,
    res: Result<bool, Error>,
    after: Seq<(Seq<char>, Seq<char>)>,
) -> bool {
    &&& seg.len() >= 1
    &&& seg[0].0 == gpo_cmd()
    &&& match seg[0].1 {
        Err(e) => seg.len() == 1 && res == Err::<bool, Error>(e) && after == fields,
        Ok(r) => exists|j: int, rr: Result<(), Error>, f2: Seq<(Seq<char>, Seq<char>)>|
            1 <= j <= seg.len() && #[trigger] emv_records(seg.subrange(1, j), 0, stored_if_ok(fields, "emv_gpo"@, r), rr, f2)
            && match rr {
                Err(e) => j == seg.len() && res == Err::<bool, Error>(e) && after == f2,
                Ok(_) => get_datas(seg.subrange(j, seg.len() as int), f2, res, after),
            },
    }
}

fn read_emv_app<T: Transceiver>(tx: &mut T, data: &mut RawCardData) -> (res: Result<bool, Error>)
    ensures
        log_extends(old(tx).exchanges(), final(tx).exchanges()),
        emv_app_read(final(tx).exchanges().subrange(old(tx).exchanges().len() as int, final(tx).exchanges().len() as int),
            old(data).fields(), res, final(data).fields()),
        final(data).card_type == old(data).card_type,
        final(data).atr == old(data).atr,
        final(data).sub_cards == old(data).sub_cards,
        final(data).apdu_history == old(data).apdu_history,
{
    let ghost n = tx.exchanges().len() as int;
    let gpo = Apdu::from_bytes(vec![0x80, 0xA8, 0x00, 0x00, 0x02, 0x83, 0x00, 0x00]);
    assert(gpo@ =~= gpo_cmd());
    let r = fetch(tx, &gpo, data, to_owned_string("emv_gpo"));
    let ghost l1 = tx.exchanges();
    let ghost f1 = data.fields();
    proof {
        assert(l1.subrange(n, l1.len() as int)[0] == l1[n]);
    }
    match r {
        Err(e) => {
            return Err(e);
        },
        Ok(_) => {},
    }
    let ghost r0 = l1[n].1->Ok_0;
    assert(f1 == stored_if_ok(old(data).fields(), "emv_gpo"@, r0));
    let rr = read_records(tx, data, 0);
    let ghost l2 = tx.exchanges();
    let ghost f2 = data.fields();
    let ghost j = l2.len() - n;
    proof {
        let seg = l2.subrange(n, l2.len() as int);
        assert(seg[0] == l1[n]);
        assert(seg.subrange(1, j) =~= l2.subrange(n + 1, l2.len() as int));
        assert(emv_records(seg.subrange(1, j), 0, stored_if_ok(old(data).fields(), "emv_gpo"@, r0), rr, f2));
    }
    match rr {
        Err(e) => {
            return Err(e);
        },
        Ok(_) => {},
    }
    let t1: [u8; 2] = [0x9F, 0x36];
    let t2: [u8; 2] = [0x9F, 0x17];
    let t3: [u8; 2] = [0x9F, 0x4F];
    let a = read_get_data(tx, &t1, data, "emv_atc");
    let ghost l3 = tx.exchanges();
    proof {
        let seg = l3.subrange(n, l3.len() as int);
        assert(seg[0] == l1[n]);
        assert(seg.subrange(1, j) =~= l2.subrange(n + 1, l2.len() as int));
        assert(emv_records(seg.subrange(1, j), 0, stored_if_ok(old(data).fields(), "emv_gpo"@, r0), rr, f2));
        let g = seg.subrange(j, seg.len() as int);
        assert(g[0] == l3[l2.len() as int]);
    }
    match a {
        Err(e) => {
            return Err(e);
        },
        Ok(_) => {},
    }
    let b = read_get_data(tx, &t2, data, "emv_pin_retry");
    let ghost l4 = tx.exchanges();
    proof {
        let seg = l4.subrange(n, l4.len() as int);
        assert(seg[0] == l1[n]);
        assert(seg.subrange(1, j) =~= l2.subrange(n + 1, l2.len() as int));
        assert(emv_records(seg.subrange(1, j), 0, stored_if_ok(old(data).fields(), "emv_gpo"@, r0), rr, f2));
        let g = seg.subrange(j, seg.len() as int);
        assert(g[0] == l3[l2.len() as int]);
        assert(g[1] == l4[l2.len() as int + 1]);
    }
    match b {
        Err(e) => {
            return Err(e);
        },
        Ok(_) => {},
    }
    let c = read_get_data(tx, &t3, data, "emv_log_format");
    proof {
        let l5 = tx.exchanges();
        let seg = l5.subrange(n, l5.len() as int);
        assert(seg[0] == l1[n]);
        assert(seg.subrange(1, j) =~= l2.subrange(n + 1, l2.len() as int));
        assert(emv_records(seg.subrange(1, j), 0, stored_if_ok(old(data).fields(), "emv_gpo"@, r0), rr, f2));
        let g = seg.subrange(j, seg.len() as int);
        assert(g[0] == l3[l2.len() as int]);
        assert(g[1] == l4[l2.len() as int + 1]);
        assert(g[2] == l5[l2.len() as int + 2]);
    }
    match c {
        Err(e) => Err(e),
        Ok(_) => Ok(true),
    }
}

/// The first candidate, from number `k` on, whose SELECT succeeded, over the exchanges `seg`
/// made: candidates that are not valid hexadecimal or are empty are skipped without a command;
/// a transport error ends the search with that error.
pub open spec fn first_selected(
    cands: Seq<Seq<char>>,
    k: int,
    seg: Seq<Exchange>,
    res: Result<Option<int>, Error>,
) -> bool
    decreases cands.len() - k,
{
    if k < 0 || k >= cands.len() {
        seg.len() == 0 && res == Ok::<Option<int>, Error>(None)
    } else {
        let aid = match hex_decode(cands[k]) {
            Some(a) => a,
            None => Seq::<u8>::empty(),
        };
        if aid.len() > 0 {
                &&& seg.len() >= 1
                &&& seg[0].0 == case4_bytes(0x00, 0xA4, 0x04, 0x00, aid, 0x00)
                &&& match seg[0].1 {
                    Err(e) => seg.len() == 1 && res == Err::<Option<int>, Error>(e),
                    Ok(r) => if response_ok(r) {
                        seg.len() == 1 && res == Ok::<Option<int>, Error>(Some(k))
                    } else {
                        first_selected(cands, k + 1, seg.drop_first(), res)
                    },
                }
        } else {
            first_selected(cands, k + 1, seg, res)
        }
    }
}

/// A search result with the index taken as an integer.
pub open spec fn index_result(r: Result<Option<usize>, Error>) -> Result<Option<int>, Error> {
    match r {
        Ok(Some(i)) => Ok(Some(i as int)),
        Ok(None) => Ok(None),
        Err(e) => Err(e),
    }
}

/// Tries the candidates from number `k` on until one can be selected; its FCI is stored as
/// `emv_app_fci`.
fn select_first<T: Transceiver>(tx: &mut T, cands: &Vec<String>, k: usize, data: &mut RawCardData) -> (res: Result<Option<usize>, Error>)
    requires
        k <= cands@.len(),
    ensures
        log_extends(old(tx).exchanges(), final(tx).exchanges()),
        first_selected(strings_view(cands@), k as int,
            final(tx).exchanges().subrange(old(tx).exchanges().len() as int, final(tx).exchanges().len() as int),
            index_result(res)),
        match res {
            Ok(Some(i)) => i < cands@.len() && final(tx).exchanges().len() > old(tx).exchanges().len()
                && (final(tx).exchanges().last().1 matches Ok(r)
                && final(data).fields() == old(data).fields().push(("emv_app_fci"@, hex_upper(r.data@)))),
            _ => final(data).fields() == old(data).fields(),
        },
        final(data).card_type == old(data).card_type,
        final(data).atr == old(data).atr,
        final(data).sub_cards == old(data).sub_cards,
        final(data).apdu_history == old(data).apdu_history,
    decreases cands@.len() - k,
{
    let ghost n = tx.exchanges().len() as int;
    if k >= cands.len() {
        assert(tx.exchanges().subrange(n, n).len() == 0);
        return Ok(None);
    }
    let aid = match decode(cands[k].as_str()) {
        Some(a) => a,
        None => Vec::new(),
    };
    if aid.len() == 0 {
        return select_first(tx, cands, k + 1, data);
    }
    let r = select_aid(tx, aid.as_slice(), data, "emv_app_fci");
    let ghost l1 = tx.exchanges();
    proof {
        assert(l1.subrange(n, l1.len() as int)[0] == l1[n]);
    }
    match r {
        Err(e) => Err(e),
        Ok(true) => Ok(Some(k)),
        Ok(false) => {
            let res = select_first(tx, cands, k + 1, data);
            proof {
                let fl = tx.exchanges();
                let seg = fl.subrange(n, fl.len() as int);
                assert(seg[0] == l1[n]);
                assert(seg.drop_first() =~= fl.subrange(n + 1, fl.len() as int));
            }
            res
        },
    }
}

/// The candidate AIDs found in the first `ppse_fci` field.
pub open spec fn ppse_candidates(fields: Seq<(Seq<char>, Seq<char>)>) -> Seq<Seq<char>> {
    ppse_aids(
        match lookup(fields, "ppse_fci"@) {
            Some(v) => v,
            None => Seq::<char>::empty(),
        },
    )
}

/// What probing for an EMV application leaves over the exchanges `seg` it made: SELECT PPSE
/// (stored as `ppse_fci`); a transport error ends it; a status other than `9000` means no
/// EMV application; candidates that are all T-Union applications too. Otherwise the first
/// candidate that can be selected names the card `EMV:<brand>`, its AID and brand are stored
/// (`emv_aid`, `emv_brand`) and the application is read (`emv_app_read`); when none can be
/// selected, the card is named `EMV`.
pub open spec fn ppse_probed(seg: Seq<Exchange>, before: RawCardData, after: RawCardData, res: Result<bool, Error>) -> bool {
    &&& after.atr == before.atr
    &&& after.sub_cards == before.sub_cards
    &&& after.apdu_history == before.apdu_history
    &&& seg.len() >= 1
    &&& seg[0].0 == case4_bytes(0x00, 0xA4, 0x04, 0x00, ppse_spec(), 0x00)
    &&& match seg[0].1 {
        Err(e) => seg.len() == 1 && res == Err::<bool, Error>(e) && after == before,
        Ok(r) => if !response_ok(r) {
            seg.len() == 1 && res == Ok::<bool, Error>(false) && after == before
        } else {
            let f1 = before.fields().push(("ppse_fci"@, hex_upper(r.data@)));
            let cands = ppse_candidates(f1);
            if all_transit(cands) {
                seg.len() == 1 && res == Ok::<bool, Error>(false) && after.fields() == f1 && after.card_type == before.card_type
            } else {
                exists|j: int, sel: Result<Option<int>, Error>|
                    1 <= j <= seg.len() && #[trigger] first_selected(cands, 0, seg.subrange(1, j), sel) && match sel {
                        Err(e) => j == seg.len() && res == Err::<bool, Error>(e) && after.fields() == f1
                            && after.card_type == before.card_type,
                        Ok(None) => j == seg.len() && res == Ok::<bool, Error>(true) && after.fields() == f1
                            && after.card_type@ == "EMV"@,
                        Ok(Some(k)) => {
                            &&& 0 <= k < cands.len()
                            &&& after.card_type@ == "EMV:"@ + brand_spec(cands[k])
                            &&& seg[j - 1].1 matches Ok(fci)
                            &&& emv_app_read(seg.subrange(j, seg.len() as int),
                                f1.push(("emv_app_fci"@, hex_upper(fci.data@))).push(("emv_aid"@, cands[k])).push(
                                ("emv_brand"@, brand_spec(cands[k]))), res, after.fields())
                        },
                    }
            }
        },
    }
}

/// Probes for an EMV application and reads it (`ppse_probed`); the result tells whether the
/// PPSE answered.
pub fn probe_ppse<T: Transceiver>(tx: &mut T, data: &mut RawCardData) -> (res: Result<bool, Error>)
    ensures
        log_extends(old(tx).exchanges(), final(tx).exchanges()),
        ppse_probed(final(tx).exchanges().subrange(old(tx).exchanges().len() as int, final(tx).exchanges().len() as int),
            *old(data), *final(data), res),
{
    let ghost n = tx.exchanges().len() as int;
    let ok = select_aid(tx, ppse(), data, "ppse_fci");
    let ghost l1 = tx.exchanges();
    let ghost f1 = data.fields();
    proof {
        assert(l1.subrange(n, l1.len() as int)[0] == l1[n]);
    }
    let ok = match ok {
        Ok(b) => b,
        Err(e) => {
            return Err(e);
        },
    };
    if !ok {
        return Ok(false);
    }
    let ppse_hex = match data.get("ppse_fci") {
        Some(v) => to_owned_string(v),
        None => String::new(),
    };
    let cands = extract_aids_from_ppse(ppse_hex.as_str());
    assert(strings_view(cands@) == ppse_candidates(f1));
    if is_all_transit(&cands) {
        return Ok(false);
    }
    let ghost cs = strings_view(cands@);
    let sel = select_first(tx, &cands, 0, data);
    let ghost l2 = tx.exchanges();
    let ghost j = l2.len() - n;
    let ghost msel = index_result(sel);
    proof {
        let seg = l2.subrange(n, l2.len() as int);
        assert(seg[0] == l1[n]);
        assert(seg.subrange(1, j) =~= l2.subrange(n + 1, l2.len() as int));
        assert(first_selected(cs, 0, seg.subrange(1, j), msel));
    }
    let k = match sel {
        Err(e) => {
            return Err(e);
        },
        Ok(None) => {
            data.card_type = to_owned_string("EMV");
            return Ok(true);
        },
        Ok(Some(k)) => k,
    };
    let ghost f2 = data.fields();
    let aid_hex = cands[k].as_str();
    let brand = brand_of_aid(aid_hex);
    data.card_type = concat2("EMV:", brand.as_str());
    data.put(to_owned_string("emv_aid"), to_owned_string(aid_hex));
    data.put(to_owned_string("emv_brand"), to_owned_string(brand.as_str()));
    let res = read_emv_app(tx, data);
    proof {
        let fl = tx.exchanges();
        let seg = fl.subrange(n, fl.len() as int);
        assert(seg[0] == l1[n]);
        assert(seg.subrange(1, j) =~= l2.subrange(n + 1, l2.len() as int));
        assert(seg[j - 1] == l2[l2.len() - 1]);
        assert(seg.subrange(j, seg.len() as int) =~= fl.subrange(l2.len() as int, fl.len() as int));
    }
    res
}

} // verus!
