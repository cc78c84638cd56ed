//! Error type shared by the card-access and parsing layers.
use vstd::prelude::*;
use crate::hexfmt::{encode_upper, hex_upper};
use crate::text::{concat2, dec_digits, push_decimal, push_str, to_owned_string};

verus! {

/// Failures of readers, cards, APDU exchanges and travel-document sessions.
#[derive(Debug, Clone, PartialEq, Eq)]
pub enum Error {
    /// An error reported by the PC/SC stack (driver, connection, ...).
    Pcsc(String),
    /// No reader is available.
    NoReader,
    /// The reader holds no card.
    NoCard,
    /// The card was removed or reset during an operation.
    CardRemoved,
    /// The card answered with a status word other than `9000`.
    ApduStatus { sw1: u8, sw2: u8 },
    /// A response too short to be split into data and status word.
    ShortResponse(usize),
    /// The card type could not be recognised.
    UnknownCard,
    /// A travel-document step failed (BAC, secure messaging, data groups).
    Passport(String),
    /// Any other failure.
    Other(String),
}

} // verus!

verus! {

/// The text of an error, as it is shown to users.
pub open spec fn error_text_spec(e: Error) -> Seq<char> {
    match e {
        Error::Pcsc(s) => "PC/SC error: "@ + s@,
        Error::NoReader => "no reader available"@,
        Error::NoCard => "no card present in reader"@,
        Error::CardRemoved => "card was removed or reset"@,
        Error::ApduStatus { sw1, sw2 } => "card returned status "@ + hex_upper(seq![sw1, sw2]),
        Error::ShortResponse(n) => "response too short: "@ + dec_digits(n as nat) + " bytes"@,
        Error::UnknownCard => "unsupported or unknown card"@,
        Error::Passport(s) => "passport error: "@ + s@,
        Error::Other(s) => s@,
    }
}

impl Error {
    /// The text of the error (`error_text_spec`).
    pub fn text(&self) -> (res: String)
        ensures
            res@ == error_text_spec(*self),
    {
        match self {
            Error::Pcsc(s) => concat2("PC/SC error: ", s.as_str()),
            Error::NoReader => to_owned_string("no reader available"),
            Error::NoCard => to_owned_string("no card present in reader"),
            Error::CardRemoved => to_owned_string("card was removed or reset"),
            Error::ApduStatus { sw1, sw2 } => {
                let mut b: Vec<u8> = Vec::new();
                b.push(*sw1);
                b.push(*sw2);
                assert(b@ =~= seq![*sw1, *sw2]);
                let h = encode_upper(b.as_slice());
                concat2("card returned status ", h.as_str())
            },
            Error::ShortResponse(n) => {
                let mut s = to_owned_string("response too short: ");
                push_decimal(&mut s, *n as u64);
                push_str(&mut s, " bytes");
                s
            },
            Error::UnknownCard => to_owned_string("unsupported or unknown card"),
            Error::Passport(s) => concat2("passport error: ", s.as_str()),
            Error::Other(s) => to_owned_string(s.as_str()),
        }
    }
}

} // verus!
