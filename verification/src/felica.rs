//! FeliCa (Octopus) reads: the IDm through `FF CA`, then the balance block through the
//! reader's FeliCa pass-through, chosen by reader name (ACR1251 direct commands, or Sony
//! RC-S300 `FF FE` data exchange). Other readers only yield the IDm.
use vstd::prelude::*;
use crate::apdu::{Apdu, ApduResponse, case3_bytes, case4_bytes, response_bytes, response_ok};
use crate::error::Error;
use crate::helpers::{lemma_one_more_extends, log_extends};
use crate::hexfmt::{encode_upper, hex_upper};
use crate::model::{Exchange, RawCardData, Transceiver, one_more, put_one};
use crate::text::{ascii_lower_seq, concat2, contains_chars, contains_str, to_ascii_lowercase, to_owned_string};

verus! {

/// How FeliCa commands reach the card on a given reader.
#[derive(Debug, Clone, Copy, PartialEq, Eq, Structural)]
pub enum FelicaTransport {
    /// ACR1251 direct FeliCa command (`FF 00 00 00 <Lc> <frame>`).
    AcrDirect,
    /// Sony RC-S300 data exchange (`FF FE 01 00 <Lc> <frame> 00`).
    RcS300DataExchange,
}

/// The transport of a reader, from its lower-cased name: RC-S300 (`rc-s300` or
/// `felica port/pasori 4.0`), else ACR direct (`acr1251`), else none.
pub open spec fn transport_spec(reader: Seq<char>) -> Option<FelicaTransport> {
    let name = ascii_lower_seq(reader);
    if contains_chars(name, "rc-s300"@) || contains_chars(name, "felica port/pasori 4.0"@) {
        Some(FelicaTransport::RcS300DataExchange)
    } else if contains_chars(name, "acr1251"@) {
        Some(FelicaTransport::AcrDirect)
    } else {
        None
    }
}

/// The FeliCa transport adapted to a reader, by name; `None` for readers without one.
pub fn transport_for_reader(reader_name: &str) -> (res: Option<FelicaTransport>)
    ensures
        res == transport_spec(reader_name@),
{
    let name = to_ascii_lowercase(reader_name);
    if contains_str(name.as_str(), "rc-s300") || contains_str(name.as_str(), "felica port/pasori 4.0") {
        Some(FelicaTransport::RcS300DataExchange)
    } else if contains_str(name.as_str(), "acr1251") {
        Some(FelicaTransport::AcrDirect)
    } else {
        None
    }
}

/// The Octopus balance service code (sent little-endian).
pub open spec fn balance_service() -> u16 {
    0x0117
}

/// The Read Without Encryption body after the command code: IDm, one service (code
/// little-endian), one block in two-byte list form.
pub open spec fn rwe_tail(idm: Seq<u8>, service: u16, addr: u8) -> Seq<u8> {
    idm + seq![0x01u8, (service % 256) as u8, (service / 256) as u8, 0x01, 0x80, addr]
}

/// The Read Without Encryption frame `10 06 <IDm> 01 <svcLo> <svcHi> 01 80 <addr>`
/// (length byte fixed at `0x10`).
pub open spec fn rwe_frame(idm: Seq<u8>, service: u16, addr: u8) -> Seq<u8> {
    seq![0x10u8, 0x06] + rwe_tail(idm, service, addr)
}

/// The ACR direct frame: a length byte counting itself, then `06` and the body.
pub open spec fn acr_frame(idm: Seq<u8>, service: u16, addr: u8) -> Seq<u8> {
    let cmd = seq![0x06u8] + rwe_tail(idm, service, addr);
    seq![(cmd.len() + 1) as u8] + cmd
}

/// The Read Without Encryption frame for one block of a service.
pub fn build_read_without_encryption(idm: &[u8], service: u16, addr: u8) -> (res: Vec<u8>)
    ensures
        res@ == rwe_frame(idm@, service, addr),
{
    let mut frame: Vec<u8> = Vec::new();
    frame.push(0x10);
    frame.push(0x06);
    let mut i: usize = 0;
    while i < idm.len()
        invariant
            i <= idm@.len(),
            frame@ == seq![0x10u8, 0x06] + idm@.subrange(0, i as int),
        decreases idm@.len() - i,
    {
        frame.push(idm[i]);
        i = i + 1;
        assert(frame@ =~= seq![0x10u8, 0x06] + idm@.subrange(0, i as int));
    }
    frame.push(0x01);
    frame.push((service & 0xff) as u8);
    frame.push((service >> 8) as u8);
    frame.push(0x01);
    frame.push(0x80);
    frame.push(addr);
    assert((service & 0xff) == service % 256 && (service >> 8) == service / 256) by (bit_vector);
    assert(idm@.subrange(0, i as int) =~= idm@);
    assert(frame@ =~= rwe_frame(idm@, service, addr));
    frame
}

/// Wraps a FeliCa frame in the RC-S300 data exchange `FF FE 01 00 <Lc> <frame> 00`.
pub fn build_rc_s300_data_exchange(frame: &[u8]) -> (res: Apdu)
    ensures
        res@ == case4_bytes(0xFF, 0xFE, 0x01, 0x00, frame@, 0x00),
{
    Apdu::case4(0xFF, 0xFE, 0x01, 0x00, frame, 0x00)
}

/// Why a Read Without Encryption reply frame is refused, if it is: shorter than 13 bytes or
/// not response code `07` (`unexpected FeliCa read response`), or non-zero status flags at
/// bytes 10 and 11 (`FeliCa status flags XXYY`).
pub open spec fn felica_reply_error(frame: Seq<u8>) -> Option<Seq<char>> {
    if frame.len() < 13 || frame[1] != 0x07 {
        Some("unexpected FeliCa read response"@)
    } else if frame[10] != 0x00 || frame[11] != 0x00 {
        Some("FeliCa status flags "@ + hex_upper(seq![frame[10], frame[11]]))
    } else {
        None
    }
}

/// Checks a Read Without Encryption reply frame.
pub fn validate_felica_read_response(frame: &[u8]) -> (res: Result<(), Error>)
    ensures
        match felica_reply_error(frame@) {
            None => res is Ok,
            Some(m) => res matches Err(Error::Other(s)) && s@ == m,
        },
{
    if frame.len() < 13 || frame[1] != 0x07 {
        return Err(Error::Other(to_owned_string("unexpected FeliCa read response")));
    }
    if frame[10] != 0x00 || frame[11] != 0x00 {
        let flags: [u8; 2] = [frame[10], frame[11]];
        assert(flags@ =~= seq![frame@[10], frame@[11]]);
        let h = encode_upper(&flags);
        return Err(Error::Other(concat2("FeliCa status flags ", h.as_str())));
    }
    Ok(())
}

/// Reads one block through the ACR direct command (`FF 00 00 00 <Lc> <acr frame>`); whatever
/// the reply, when one comes back, its full bytes (status word included) are stored under `key`.
fn read_block_acr_direct<T: Transceiver>(tx: &mut T, idm: &[u8], service: u16, addr: u8, data: &mut RawCardData, key: &str)
    requires
        idm@.len() == 8,
    ensures
        one_more(old(tx).exchanges(), final(tx).exchanges(), case3_bytes(0xFF, 0x00, 0x00, 0x00, acr_frame(idm@, service, addr))),
        match final(tx).exchanges().last().1 {
            Ok(r) => put_one(*old(data), *final(data), key@, hex_upper(response_bytes(r))),
            Err(_) => *final(data) == *old(data),
        },
{
    let mut felica_cmd: Vec<u8> = Vec::new();
    felica_cmd.push(0x06);
    let mut i: usize = 0;
    while i < idm.len()
        invariant
            i <= idm@.len(),
            felica_cmd@ == seq![0x06u8] + idm@.subrange(0, i as int),
        decreases idm@.len() - i,
    {
        felica_cmd.push(idm[i]);
        i = i + 1;
        assert(felica_cmd@ =~= seq![0x06u8] + idm@.subrange(0, i as int));
    }
    felica_cmd.push(0x01);
    felica_cmd.push((service & 0xff) as u8);
    felica_cmd.push((service >> 8) as u8);
    felica_cmd.push(0x01);
    felica_cmd.push(0x80);
    felica_cmd.push(addr);
    assert((service & 0xff) == service % 256 && (service >> 8) == service / 256) by (bit_vector);
    assert(idm@.subrange(0, i as int) =~= idm@);
    let mut frame: Vec<u8> = Vec::new();
    frame.push((felica_cmd.len() + 1) as u8);
    let mut j: usize = 0;
    while j < felica_cmd.len()
        invariant
            j <= felica_cmd@.len(),
            frame@ == seq![(felica_cmd@.len() + 1) as u8] + felica_cmd@.subrange(0, j as int),
        decreases felica_cmd@.len() - j,
    {
        frame.push(felica_cmd[j]);
        j = j + 1;
        assert(frame@ =~= seq![(felica_cmd@.len() + 1) as u8] + felica_cmd@.subrange(0, j as int));
    }
    assert(felica_cmd@.subrange(0, j as int) =~= felica_cmd@);
    assert(felica_cmd@ =~= seq![0x06u8] + rwe_tail(idm@, service, addr));
    assert(frame@ =~= acr_frame(idm@, service, addr));
    let apdu = Apdu::case3(0xFF, 0x00, 0x00, 0x00, frame.as_slice());
    let r = tx.transceive(&apdu);
    assert(tx.exchanges().subrange(0, old(tx).exchanges().len() as int) =~= old(tx).exchanges());
    if let Ok(resp) = r {
        data.put(to_owned_string(key), resp.to_hex());
    }
}

/// Reads one block through the RC-S300 data exchange; a `9000` reply whose frame passes
/// `validate_felica_read_response` is stored, in hexadecimal, under `key`.
fn read_block_rc_s300<T: Transceiver>(tx: &mut T, idm: &[u8], service: u16, addr: u8, data: &mut RawCardData, key: &str)
    ensures
        one_more(old(tx).exchanges(), final(tx).exchanges(), case4_bytes(0xFF, 0xFE, 0x01, 0x00, rwe_frame(idm@, service, addr), 0x00)),
        match final(tx).exchanges().last().1 {
            Ok(r) => if response_ok(r) && felica_reply_error(r.data@) is None {
                put_one(*old(data), *final(data), key@, hex_upper(r.data@))
            } else {
                *final(data) == *old(data)
            },
            Err(_) => *final(data) == *old(data),
        },
{
    let frame = build_read_without_encryption(idm, service, addr);
    let apdu = build_rc_s300_data_exchange(frame.as_slice());
    let r = tx.transceive(&apdu);
    assert(tx.exchanges().subrange(0, old(tx).exchanges().len() as int) =~= old(tx).exchanges());
    if let Ok(response) = r {
        if response.is_ok() && validate_felica_read_response(response.data.as_slice()).is_ok() {
            data.put(to_owned_string(key), encode_upper(response.data.as_slice()));
        }
    }
}

/// The balance block stored from an RC-S300 reply: a `9000` reply that passes the FeliCa
/// check, as `felica_balance_block`.
pub open spec fn rc_s300_block(reply: Result<ApduResponse, Error>) -> Seq<(Seq<char>, Seq<char>)> {
    match reply {
        Ok(r) => if response_ok(r) && felica_reply_error(r.data@) is None {
            seq![("felica_balance_block"@, hex_upper(r.data@))]
        } else {
            Seq::empty()
        },
        Err(_) => Seq::empty(),
    }
}

/// The balance block stored from an ACR reply: any reply, data and status, as
/// `felica_balance_block`.
pub open spec fn acr_block(reply: Result<ApduResponse, Error>) -> Seq<(Seq<char>, Seq<char>)> {
    match reply {
        Ok(r) => seq![("felica_balance_block"@, hex_upper(response_bytes(r)))],
        Err(_) => Seq::empty(),
    }
}

/// The IDm command `FF CA 00 00 00`.
pub open spec fn get_idm_cmd() -> Seq<u8> {
    seq![0xFFu8, 0xCA, 0x00, 0x00, 0x00]
}

/// The raw fields after the reader check: unchanged for an adapted reader, else with
/// `felica_unsupported_reader` holding the reader name.
pub open spec fn fields_after_reader_check(before: Seq<(Seq<char>, Seq<char>)>, reader: Seq<char>) -> Seq<(Seq<char>, Seq<char>)> {
    if transport_spec(reader) is None {
        before.push(("felica_unsupported_reader"@, reader))
    } else {
        before
    }
}

/// The FeliCa / Octopus read, with `seg` its exchanges (`read_octopus`).
pub open spec fn octopus_read(seg: Seq<Exchange>, reader: Seq<char>, before: RawCardData, after: RawCardData, res: Result<(), Error>) -> bool {
    let t = transport_spec(reader);
    let checked = fields_after_reader_check(before.fields(), reader);
    &&& seg.len() >= 1
    &&& seg[0].0 == get_idm_cmd()
    &&& after.atr == before.atr
    &&& after.apdu_history == before.apdu_history
    &&& match seg[0].1 {
        Err(e) => seg.len() == 1 && after.fields() == checked && after.card_type@ == "Felica"@
            && after.sub_cards == before.sub_cards && (t is None ==> res is Ok) && (t is Some ==> res == Err::<(), Error>(e)),
        Ok(r) => if !response_ok(r) || r.data@.len() < 8 {
            seg.len() == 1 && after.fields() == checked && after.card_type@ == "Felica"@
                && after.sub_cards == before.sub_cards && res is Ok
        } else {
            let idm = r.data@.subrange(0, 8);
            let with_idm = checked.push(("felica_idm"@, hex_upper(idm)));
            &&& res is Ok
            &&& after.card_type@ == "Octopus"@
            &&& after.subs() == before.subs().push("Octopus"@)
            &&& match t {
                None => seg.len() == 1 && after.fields() == with_idm,
                Some(FelicaTransport::RcS300DataExchange) => seg.len() == 2
                    && seg[1].0 == case4_bytes(0xFF, 0xFE, 0x01, 0x00, rwe_frame(idm, balance_service(), 0), 0x00)
                    && after.fields() == with_idm.push(("felica_transport"@, "rc_s300_data_exchange"@)) + rc_s300_block(seg[1].1),
                Some(FelicaTransport::AcrDirect) => seg.len() == 2
                    && seg[1].0 == case3_bytes(0xFF, 0x00, 0x00, 0x00, acr_frame(idm, balance_service(), 0))
                    && after.fields() == with_idm.push(("felica_transport"@, "acr_direct"@)) + acr_block(seg[1].1),
            }
        },
    }
}

/// FeliCa / Octopus: the card type becomes `Felica`; for a reader without an adapted
/// transport the reader name is stored as `felica_unsupported_reader`. The IDm is asked with
/// `FF CA 00 00 00`; a failed exchange is an error only on an adapted reader. A `9000` reply
/// of at least eight bytes gives the IDm (stored as `felica_idm`), the card type becomes
/// `Octopus`, which joins the sub-cards, and on an adapted reader the transport is stored as
/// `felica_transport` and the balance block (service `0117`, block 0) is read through it into
/// `felica_balance_block` (`octopus_read`).
pub fn read_octopus<T: Transceiver>(tx: &mut T, reader_name: &str, data: &mut RawCardData) -> (res: Result<(), Error>)
    ensures
        log_extends(old(tx).exchanges(), final(tx).exchanges()),
        octopus_read(
            final(tx).exchanges().subrange(old(tx).exchanges().len() as int, final(tx).exchanges().len() as int),
            reader_name@,
            *old(data),
            *final(data),
            res,
        ),
{
    data.card_type = to_owned_string("Felica");
    let transport = transport_for_reader(reader_name);
    if transport.is_none() {
        data.put(to_owned_string("felica_unsupported_reader"), to_owned_string(reader_name));
    }
    let ghost d1 = *data;
    assert(d1.fields() == fields_after_reader_check(old(data).fields(), reader_name@));
    let get_idm = Apdu::from_bytes(vec![0xFF, 0xCA, 0x00, 0x00, 0x00]);
    assert(get_idm@ =~= get_idm_cmd());
    let r = match tx.transceive(&get_idm) {
        Ok(response) => response,
        Err(error) => {
            if transport.is_none() {
                return Ok(());
            }
            return Err(error);
        },
    };
    let ghost l1 = tx.exchanges();
    if !r.is_ok() || r.data.len() < 8 {
        return Ok(());
    }
    let idm = vstd::slice::slice_to_vec(vstd::slice::slice_subrange(r.data.as_slice(), 0, 8));
    data.put(to_owned_string("felica_idm"), encode_upper(idm.as_slice()));
    data.card_type = to_owned_string("Octopus");
    let ghost d2 = *data;
    data.sub_cards.push(to_owned_string("Octopus"));
    assert(data.subs() =~= d2.subs().push("Octopus"@));
    match transport {
        Some(FelicaTransport::RcS300DataExchange) => {
            data.put(to_owned_string("felica_transport"), to_owned_string("rc_s300_data_exchange"));
            let ghost d3 = *data;
            read_block_rc_s300(tx, idm.as_slice(), 0x0117, 0x00, data, "felica_balance_block");
            proof {
                lemma_one_more_extends(l1, tx.exchanges(), tx.exchanges().last().0);
                assert(data.fields() =~= d3.fields() + rc_s300_block(tx.exchanges().last().1));
            }
        },
        Some(FelicaTransport::AcrDirect) => {
            data.put(to_owned_string("felica_transport"), to_owned_string("acr_direct"));
            let ghost d3 = *data;
            read_block_acr_direct(tx, idm.as_slice(), 0x0117, 0x00, data, "felica_balance_block");
            proof {
                lemma_one_more_extends(l1, tx.exchanges(), tx.exchanges().last().0);
                assert(data.fields() =~= d3.fields() + acr_block(tx.exchanges().last().1));
            }
        },
        None => {},
    }
    Ok(())
}

} // verus!
