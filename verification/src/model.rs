//! Raw card data gathered by a read, and the transport abstraction used to talk to cards.
use vstd::prelude::*;
use crate::apdu::{Apdu, ApduResponse};
use crate::error::Error;
use crate::hexfmt::hex_decode;
use crate::text::str_eq;

verus! {

/// The physical / protocol family of a card, inferred from its ATR.
#[derive(Debug, Clone, Copy, PartialEq, Eq, Structural)]
pub enum CardStandard {
    /// ISO 14443-4 Type A (most CPU cards, EMV, transit cards).
    Iso14443A,
    /// ISO 14443-4 Type B (some bank cards).
    Iso14443B,
    /// Mifare Classic.
    MifareClassic,
    /// Mifare Ultralight / NTAG.
    MifareUltralight,
    /// FeliCa (such as Octopus).
    Felica,
    /// Unknown.
    Unknown,
}

/// One APDU round trip, for display.
#[derive(Debug, Clone)]
pub struct ApduTrace {
    /// The command in hexadecimal.
    pub tx: String,
    /// The full response in hexadecimal, status word included.
    pub rx: String,
    /// An optional human-readable note.
    pub note: Option<String>,
}

/// What a read produces: the card type, the raw fields gathered (key, hexadecimal value),
/// the sub-cards found on the chip and the APDU history.
#[derive(Debug, Clone)]
pub struct RawCardData {
    /// The card type identified (such as `"PPSE:Visa"` or `"ShenzhenTong"`).
    pub card_type: String,
    /// The ATR in hexadecimal.
    pub atr: String,
    /// The raw fields gathered, key then hexadecimal value, in the order they were read.
    pub raw_fields: Vec<(String, String)>,
    /// The sub-cards found on a combined chip.
    pub sub_cards: Vec<String>,
    /// The complete APDU history.
    pub apdu_history: Vec<ApduTrace>,
}

/// The raw fields as character sequences.
pub open spec fn fields_view(fields: Seq<(String, String)>) -> Seq<(Seq<char>, Seq<char>)> {
    fields.map_values(|p: (String, String)| (p.0@, p.1@))
}

/// The value of the first field with key `key`, if any.
pub open spec fn lookup(fields: Seq<(Seq<char>, Seq<char>)>, key: Seq<char>) -> Option<Seq<char>>
    decreases fields.len(),
{
    if fields.len() == 0 {
        None
    } else if fields[0].0 == key {
        Some(fields[0].1)
    } else {
        lookup(fields.drop_first(), key)
    }
}

/// The sub-card names as character sequences.
pub open spec fn names_view(names: Seq<String>) -> Seq<Seq<char>> {
    names.map_values(|s: String| s@)
}

impl RawCardData {
    /// The raw fields as character sequences.
    pub open spec fn fields(&self) -> Seq<(Seq<char>, Seq<char>)> {
        fields_view(self.raw_fields@)
    }

    /// The sub-card names as character sequences.
    pub open spec fn subs(&self) -> Seq<Seq<char>> {
        names_view(self.sub_cards@)
    }

    /// An empty record: no type, no ATR, no fields, no sub-cards, no history.
    pub fn new() -> (res: RawCardData)
        ensures
            res.card_type@ == Seq::<char>::empty(),
            res.atr@ == Seq::<char>::empty(),
            res.raw_fields@.len() == 0,
            res.sub_cards@.len() == 0,
            res.apdu_history@.len() == 0,
    {
        RawCardData {
            card_type: String::new(),
            atr: String::new(),
            raw_fields: Vec::new(),
            sub_cards: Vec::new(),
            apdu_history: Vec::new(),
        }
    }

    /// Appends a raw field.
    pub fn put(&mut self, key: String, hex_value: String)
        ensures
            final(self).raw_fields@ == old(self).raw_fields@.push((key, hex_value)),
            final(self).fields() == old(self).fields().push((key@, hex_value@)),
            final(self).card_type == old(self).card_type,
            final(self).atr == old(self).atr,
            final(self).sub_cards == old(self).sub_cards,
            final(self).apdu_history == old(self).apdu_history,
    {
        self.raw_fields.push((key, hex_value));
        assert(self.fields() =~= old(self).fields().push((key@, hex_value@)));
    }

    /// The value of the first raw field with the given key.
    pub fn get(&self, key: &str) -> (res: Option<&str>)
        ensures
            match res {
                Some(v) => lookup(self.fields(), key@) == Some(v@),
                None => lookup(self.fields(), key@) is None,
            },
    {
        let n = self.raw_fields.len();
        let mut i: usize = 0;
        assert(self.fields().subrange(0, n as int) =~= self.fields());
        while i < n
            invariant
                n == self.raw_fields@.len(),
                i <= n,
                lookup(self.fields(), key@) == lookup(self.fields().subrange(i as int, n as int), key@),
            decreases n - i,
        {
            let pair = &self.raw_fields[i];
            let k = pair.0.as_str();
            let ghost rest = self.fields().subrange(i as int, n as int);
            assert(rest[0] == self.fields()[i as int]);
            if str_eq(k, key) {
                return Some(pair.1.as_str());
            }
            assert(rest.drop_first() =~= self.fields().subrange(i + 1, n as int));
            i = i + 1;
        }
        assert(self.fields().subrange(n as int, n as int).len() == 0);
        None
    }
}

/// `after` extends `before` by exactly one exchange, whose command is `cmd`.
pub open spec fn one_more(before: Seq<Exchange>, after: Seq<Exchange>, cmd: Seq<u8>) -> bool {
    &&& after.len() == before.len() + 1
    &&& after.subrange(0, before.len() as int) == before
    &&& after.last().0 == cmd
}

/// `after` holds the raw fields of `before` plus one more, `(key, value)`; nothing else changed.
pub open spec fn put_one(before: RawCardData, after: RawCardData, key: Seq<char>, value: Seq<char>) -> bool {
    &&& after.fields() == before.fields().push((key, value))
    &&& after.card_type == before.card_type
    &&& after.atr == before.atr
    &&& after.sub_cards == before.sub_cards
    &&& after.apdu_history == before.apdu_history
}

/// One exchange with a card: the command bytes sent and what came back.
pub type Exchange = (Seq<u8>, Result<ApduResponse, Error>);

/// Anything that carries APDUs to a card and back (a PC/SC connection, a test double).
pub trait Transceiver {
    /// Every exchange made through this channel so far, oldest first.
    spec fn exchanges(&self) -> Seq<Exchange>;

    /// Sends one command and returns the parsed response.
    fn transceive(&mut self, apdu: &Apdu) -> (res: Result<ApduResponse, Error>)
        ensures
            final(self).exchanges() == old(self).exchanges().push((apdu@, res)),
    ;

    /// Sends a command spelled in hexadecimal; an invalid spelling fails before anything is sent.
    fn transceive_hex(&mut self, hex: &str) -> (res: Result<ApduResponse, Error>)
        ensures
            match hex_decode(hex@) {
                Some(b) => final(self).exchanges() == old(self).exchanges().push((b, res)),
                None => res matches Err(Error::Other(_)) && final(self).exchanges() == old(
                    self,
                ).exchanges(),
            },
    {
        let apdu = Apdu::from_hex(hex)?;
        self.transceive(&apdu)
    }
}

/// A plain carrier of commands to a card and of its parsed replies (a PC/SC session, a test
/// double); `Channel` turns one into a `Transceiver` that keeps the record of its exchanges.
pub trait ApduLink {
    /// Sends one command and returns the parsed reply.
    fn send(&mut self, apdu: &Apdu) -> Result<ApduResponse, Error>;
}

/// An `ApduLink` with the record of the exchanges made through it.
pub struct Channel<L: ApduLink> {
    /// The link itself.
    pub link: L,
    /// The exchanges made so far, oldest first.
    pub log: Ghost<Seq<Exchange>>,
}

impl<L: ApduLink> Channel<L> {
    /// A channel over `link`, with no exchange yet.
    pub fn new(link: L) -> (res: Channel<L>)
        ensures
            res.link == link,
            res.exchanges() == Seq::<Exchange>::empty(),
    {
        Channel { link, log: Ghost(Seq::empty()) }
    }
}

impl<L: ApduLink> Transceiver for Channel<L> {
    open spec fn exchanges(&self) -> Seq<Exchange> {
        self.log@
    }

    fn transceive(&mut self, apdu: &Apdu) -> (res: Result<ApduResponse, Error>) {
        let r = self.link.send(apdu);
        self.log = Ghost(self.log@.push((apdu@, r)));
        r
    }
}

} // verus!
