//! The decisions of the reader layer: the card status of a reader, the choice of the first
//! reader, and the steps of one command exchange (resending with the length that a `6CXX`
//! status suggests, collecting `61XX` continuations with GET RESPONSE). The transport itself
//! (PC/SC) performs the transmissions that these steps ask for.
use vstd::prelude::*;
use crate::apdu::{ApduResponse, response_bytes, split_response};
use crate::error::Error;
use crate::hexfmt::{encode_upper, hex_upper};
use crate::model::ApduTrace;
use crate::text::to_owned_string;

verus! {

/// The state of the card slot of a reader.
#[derive(Debug, Clone, Copy, PartialEq, Eq, Structural)]
pub enum CardStatus {
    /// The reader is there but holds no card.
    Empty,
    /// A card is in place and can be connected.
    Present,
}

/// The first reader of a list, or `NoReader` when the list is empty.
pub fn first_reader(readers: &Vec<String>) -> (res: Result<String, Error>)
    ensures
        readers@.len() == 0 <==> res == Err::<String, Error>(Error::NoReader),
        readers@.len() > 0 ==> (res matches Ok(r) && r@ == readers@[0]@),
{
    if readers.len() == 0 {
        Err(Error::NoReader)
    } else {
        Ok(to_owned_string(readers[0].as_str()))
    }
}

/// Where an exchange stands: after the command, after resending it with a corrected length
/// (holding the first response), or collecting continuations (holding the response so far).
pub enum ExchangePhase {
    /// The command was sent.
    Sent,
    /// The command was resent with the length the card suggested.
    Resent(ApduResponse),
    /// A GET RESPONSE was sent for the rest of the data.
    Collecting(ApduResponse),
}

/// What to do next in an exchange.
pub enum ExchangeAction {
    /// Transmit these bytes and hand the raw reply to `exchange_next`.
    Transmit(Vec<u8>),
    /// The exchange is over with this response; `short` tells that the card's reply was too
    /// short to hold a status word (the response is then empty with status `0000`).
    Finish { response: ApduResponse, short: bool },
}

/// A response as its parts.
pub open spec fn resp_parts(r: ApduResponse) -> (Seq<u8>, u8, u8) {
    (r.data@, r.sw1, r.sw2)
}

/// The GET RESPONSE command for `le` more bytes.
pub open spec fn get_response_cmd(le: u8) -> Seq<u8> {
    seq![0x00u8, 0xC0, 0x00, 0x00, le]
}

/// After a response `p`: while the card signals more data (`61XX`), ask for it; else finish.
pub open spec fn collect_or_finish(p: (Seq<u8>, u8, u8), phase: ExchangePhase, act: ExchangeAction) -> bool {
    if p.1 == 0x61 {
        &&& phase matches ExchangePhase::Collecting(acc) && resp_parts(acc) == p
        &&& act matches ExchangeAction::Transmit(b) && b@ == get_response_cmd(p.2)
    } else {
        (act matches ExchangeAction::Finish { response, short } && resp_parts(response) == p && !short)
    }
}

/// The step after a raw reply `reply` to the last transmission, in phase `phase`, for the
/// command `cmd`:
/// - after the command: a reply under two bytes finishes with an empty `0000` response marked
///   short; a `6CXX` status, for a command of at least four bytes, resends the header with
///   `Le = XX`; otherwise the response goes to `collect_or_finish`;
/// - after the resend: the new response (the first one when the reply is under two bytes)
///   goes to `collect_or_finish`;
/// - while collecting: a reply under two bytes finishes with the response so far; otherwise
///   its data is appended and its status word taken, and the result goes to
///   `collect_or_finish`.
pub open spec fn exchange_step(
    cmd: Seq<u8>,
    phase: ExchangePhase,
    reply: Seq<u8>,
    next: ExchangePhase,
    act: ExchangeAction,
) -> bool {
    match phase {
        ExchangePhase::Sent => match split_response(reply) {
            None => (act matches ExchangeAction::Finish { response, short } && short && resp_parts(response) == (
                Seq::<u8>::empty(),
                0u8,
                0u8,
            )),
            Some(p) => if p.1 == 0x6C && cmd.len() >= 4 {
                &&& next matches ExchangePhase::Resent(first) && resp_parts(first) == p
                &&& act matches ExchangeAction::Transmit(b) && b@ == cmd.subrange(0, 4).push(p.2)
            } else {
                collect_or_finish(p, next, act)
            },
        },
        ExchangePhase::Resent(first) => match split_response(reply) {
            None => collect_or_finish(resp_parts(first), next, act),
            Some(p) => collect_or_finish(p, next, act),
        },
        ExchangePhase::Collecting(acc) => match split_response(reply) {
            None => (act matches ExchangeAction::Finish { response, short } && resp_parts(response) == resp_parts(acc)
                && !short),
            Some(p) => collect_or_finish((acc.data@ + p.0, p.1, p.2), next, act),
        },
    }
}

fn response_of(reply: &[u8]) -> (res: ApduResponse)
    requires
        reply@.len() >= 2,
    ensures
        split_response(reply@) == Some(resp_parts(res)),
{
    match ApduResponse::parse(reply) {
        Ok(r) => r,
        Err(_) => ApduResponse { data: Vec::new(), sw1: 0, sw2: 0 },
    }
}

fn collect_step(p: ApduResponse) -> (res: (ExchangePhase, ExchangeAction))
    ensures
        collect_or_finish(resp_parts(p), res.0, res.1),
{
    if p.sw1 == 0x61 {
        let le = p.sw2;
        let mut cmd: Vec<u8> = Vec::new();
        cmd.push(0x00);
        cmd.push(0xC0);
        cmd.push(0x00);
        cmd.push(0x00);
        cmd.push(le);
        assert(cmd@ =~= get_response_cmd(le));
        (ExchangePhase::Collecting(p), ExchangeAction::Transmit(cmd))
    } else {
        (ExchangePhase::Sent, ExchangeAction::Finish { response: p, short: false })
    }
}

/// The next step of an exchange (`exchange_step`).
pub fn exchange_next(cmd: &[u8], phase: ExchangePhase, reply: &[u8]) -> (res: (ExchangePhase, ExchangeAction))
    ensures
        exchange_step(cmd@, phase, reply@, res.0, res.1),
{
    match phase {
        ExchangePhase::Sent => {
            if reply.len() < 2 {
                return (
                    ExchangePhase::Sent,
                    ExchangeAction::Finish { response: ApduResponse { data: Vec::new(), sw1: 0, sw2: 0 }, short: true },
                );
            }
            let p = response_of(reply);
            if p.sw1 == 0x6C && cmd.len() >= 4 {
                let mut retry: Vec<u8> = Vec::new();
                retry.push(cmd[0]);
                retry.push(cmd[1]);
                retry.push(cmd[2]);
                retry.push(cmd[3]);
                retry.push(p.sw2);
                assert(retry@ =~= cmd@.subrange(0, 4).push(p.sw2));
                (ExchangePhase::Resent(p), ExchangeAction::Transmit(retry))
            } else {
                collect_step(p)
            }
        },
        ExchangePhase::Resent(first) => {
            if reply.len() >= 2 {
                collect_step(response_of(reply))
            } else {
                collect_step(first)
            }
        },
        ExchangePhase::Collecting(acc) => {
            if reply.len() < 2 {
                return (ExchangePhase::Sent, ExchangeAction::Finish { response: acc, short: false });
            }
            let next = response_of(reply);
            let mut data = acc.data;
            let mut more = next.data;
            let ghost d0 = data@;
            let ghost m0 = more@;
            data.append(&mut more);
            assert(data@ == d0 + m0);
            collect_step(ApduResponse { data, sw1: next.sw1, sw2: next.sw2 })
        },
    }
}

/// The history entry of a finished exchange of `cmd`: the command in hexadecimal; for a reply
/// too short to hold a status word, the raw reply `raw` in hexadecimal with the note
/// `empty/short response`; otherwise the response (data and status word) in hexadecimal and
/// no note.
pub fn trace_of(cmd: &[u8], raw: &[u8], response: &ApduResponse, short: bool) -> (res: ApduTrace)
    ensures
        res.tx@ == hex_upper(cmd@),
        short ==> res.rx@ == hex_upper(raw@) && (res.note matches Some(n) && n@ == "empty/short response"@),
        !short ==> res.rx@ == hex_upper(response_bytes(*response)) && res.note is None,
{
    if short {
        ApduTrace { tx: encode_upper(cmd), rx: encode_upper(raw), note: Some(to_owned_string("empty/short response")) }
    } else {
        ApduTrace { tx: encode_upper(cmd), rx: response.to_hex(), note: None }
    }
}

} // verus!
