//! Command and response APDUs (ISO 7816-4): framing and status words.
use vstd::prelude::*;
use crate::error::Error;
use crate::hexfmt::{decode_hex, encode_upper, fault_message, hex_decode, hex_fault_of, hex_fault_text, hex_upper};
use crate::text::push_str;

verus! {

/// A command APDU: `CLA INS P1 P2 [Lc Data] [Le]`, or a raw reader command sent whole.
#[derive(Debug, Clone)]
pub struct Apdu {
    bytes: Vec<u8>,
}

impl View for Apdu {
    type V = Seq<u8>;

    closed spec fn view(&self) -> Seq<u8> {
        self.bytes@
    }
}

/// Bytes of a case-2 command: header and `Le`.
pub open spec fn case2_bytes(cla: u8, ins: u8, p1: u8, p2: u8, le: u8) -> Seq<u8> {
    seq![cla, ins, p1, p2, le]
}

/// Bytes of a case-3 command: header, `Lc` (the data length modulo 256) and the data.
pub open spec fn case3_bytes(cla: u8, ins: u8, p1: u8, p2: u8, data: Seq<u8>) -> Seq<u8> {
    seq![cla, ins, p1, p2, data.len() as u8] + data
}

/// Bytes of a case-4 command: a case-3 command followed by `Le`.
pub open spec fn case4_bytes(cla: u8, ins: u8, p1: u8, p2: u8, data: Seq<u8>, le: u8) -> Seq<u8> {
    case3_bytes(cla, ins, p1, p2, data).push(le)
}

impl Apdu {
    /// A command made of the given bytes, sent as they are.
    pub fn from_bytes(bytes: Vec<u8>) -> (res: Apdu)
        ensures
            res@ == bytes@,
    {
        Apdu { bytes }
    }

    /// A command spelled in hexadecimal, such as `"00A4040000"`.
    pub fn from_hex(s: &str) -> (res: Result<Apdu, Error>)
        ensures
            match hex_decode(s@) {
                Some(b) => res matches Ok(a) && a@ == b,
                None => res matches Err(Error::Other(m)) && m@ == "bad hex apdu: "@ + fault_message(
                    hex_fault_of(vstd::utf8::encode_utf8(s@)),
                ),
            },
    {
        match decode_hex(s) {
            Ok(bytes) => Ok(Apdu { bytes }),
            Err(f) => {
                let mut msg = String::new();
                push_str(&mut msg, "bad hex apdu: ");
                let detail = hex_fault_text(f);
                push_str(&mut msg, detail.as_str());
                Err(Error::Other(msg))
            },
        }
    }

    /// A command with an expected length `Le` and no data.
    pub fn case2(cla: u8, ins: u8, p1: u8, p2: u8, le: u8) -> (res: Apdu)
        ensures
            res@ == case2_bytes(cla, ins, p1, p2, le),
    {
        let res = Apdu { bytes: vec![cla, ins, p1, p2, le] };
        assert(res@ =~= case2_bytes(cla, ins, p1, p2, le));
        res
    }

    /// A command with data and no `Le`.
    pub fn case3(cla: u8, ins: u8, p1: u8, p2: u8, data: &[u8]) -> (res: Apdu)
        ensures
            res@ == case3_bytes(cla, ins, p1, p2, data@),
    {
        let mut b = vec![cla, ins, p1, p2, data.len() as u8];
        let mut i: usize = 0;
        while i < data.len()
            invariant
                i <= data@.len(),
                b@ == seq![cla, ins, p1, p2, data@.len() as u8] + data@.subrange(0, i as int),
            decreases data@.len() - i,
        {
            b.push(data[i]);
            i = i + 1;
            assert(b@ =~= seq![cla, ins, p1, p2, data@.len() as u8] + data@.subrange(0, i as int));
        }
        assert(data@.subrange(0, i as int) =~= data@);
        Apdu { bytes: b }
    }

    /// A command with data and an expected length `Le`.
    pub fn case4(cla: u8, ins: u8, p1: u8, p2: u8, data: &[u8], le: u8) -> (res: Apdu)
        ensures
            res@ == case4_bytes(cla, ins, p1, p2, data@, le),
    {
        let a = Apdu::case3(cla, ins, p1, p2, data);
        let mut b = a.bytes;
        b.push(le);
        Apdu { bytes: b }
    }

    /// The bytes of the command.
    pub fn as_bytes(&self) -> (res: &[u8])
        ensures
            res@ == self@,
    {
        self.bytes.as_slice()
    }

    /// Upper-case hexadecimal text of the command.
    pub fn to_hex(&self) -> (res: String)
        ensures
            res@ == hex_upper(self@),
    {
        encode_upper(self.bytes.as_slice())
    }
}

/// A response APDU: the data body and the status word `SW1 SW2`.
#[derive(Debug, Clone)]
pub struct ApduResponse {
    /// The data body, without the status word.
    pub data: Vec<u8>,
    pub sw1: u8,
    pub sw2: u8,
}

/// How raw reader output splits into body and status word: `None` below two bytes,
/// otherwise everything but the last two bytes, then those two bytes.
pub open spec fn split_response(raw: Seq<u8>) -> Option<(Seq<u8>, u8, u8)> {
    if raw.len() < 2 {
        None
    } else {
        Some((raw.subrange(0, raw.len() - 2), raw[raw.len() - 2], raw[raw.len() - 1]))
    }
}

/// The status word of a response as one number.
pub open spec fn status_word(r: ApduResponse) -> u16 {
    (r.sw1 as int * 256 + r.sw2 as int) as u16
}

/// Whether a response carries the success status `9000`.
pub open spec fn response_ok(r: ApduResponse) -> bool {
    r.sw1 == 0x90 && r.sw2 == 0x00
}

/// The full bytes of a response: the body, then `SW1 SW2`.
pub open spec fn response_bytes(r: ApduResponse) -> Seq<u8> {
    r.data@ + seq![r.sw1, r.sw2]
}

/// Splitting the bytes of a response gives its body and status word back.
pub proof fn law_split_response_bytes(data: Seq<u8>, sw1: u8, sw2: u8)
    ensures
        split_response(data + seq![sw1, sw2]) == Some((data, sw1, sw2)),
{
    let raw = data + seq![sw1, sw2];
    assert(raw.subrange(0, raw.len() - 2) =~= data);
}

impl ApduResponse {
    /// Splits raw reader output into body and status word; fails below two bytes.
    pub fn parse(raw: &[u8]) -> (res: Result<ApduResponse, Error>)
        ensures
            match split_response(raw@) {
                None => res == Err::<ApduResponse, Error>(Error::ShortResponse(raw@.len() as usize)),
                Some((d, s1, s2)) => res matches Ok(r) && r.data@ == d && r.sw1 == s1 && r.sw2 == s2,
            },
    {
        if raw.len() < 2 {
            return Err(Error::ShortResponse(raw.len()));
        }
        let split = raw.len() - 2;
        let data = vstd::slice::slice_to_vec(vstd::slice::slice_subrange(raw, 0, split));
        Ok(ApduResponse { data, sw1: raw[split], sw2: raw[split + 1] })
    }

    /// The status word as one number, such as `0x9000`.
    pub fn sw(&self) -> (res: u16)
        ensures
            res == status_word(*self),
            res as int == self.sw1 as int * 256 + self.sw2 as int,
    {
        let hi = self.sw1 as u16;
        let lo = self.sw2 as u16;
        let res = (hi << 8) | lo;
        assert(res == hi * 256 + lo) by (bit_vector)
            requires
                hi < 256,
                lo < 256,
                res == (hi << 8) | lo,
        ;
        res
    }

    /// Whether the status word is `9000`.
    pub fn is_ok(&self) -> (res: bool)
        ensures
            res == response_ok(*self),
    {
        self.sw1 == 0x90 && self.sw2 == 0x00
    }

    /// Upper-case hexadecimal text of the whole response, status word included.
    pub fn to_hex(&self) -> (res: String)
        ensures
            res@ == hex_upper(response_bytes(*self)),
    {
        let mut full = vstd::slice::slice_to_vec(self.data.as_slice());
        full.push(self.sw1);
        full.push(self.sw2);
        assert(full@ =~= response_bytes(*self));
        encode_upper(full.as_slice())
    }

    /// Upper-case hexadecimal text of the data body.
    pub fn data_hex(&self) -> (res: String)
        ensures
            res@ == hex_upper(self.data@),
    {
        encode_upper(self.data.as_slice())
    }

    /// The response itself when its status is `9000`, else the status as an error.
    pub fn ok_or_status(self) -> (res: Result<ApduResponse, Error>)
        ensures
            response_ok(self) ==> res == Ok::<ApduResponse, Error>(self),
            !response_ok(self) ==> res == Err::<ApduResponse, Error>(
                Error::ApduStatus { sw1: self.sw1, sw2: self.sw2 },
            ),
    {
        if self.is_ok() {
            Ok(self)
        } else {
            Err(Error::ApduStatus { sw1: self.sw1, sw2: self.sw2 })
        }
    }
}

} // verus!
