//! The readable card information that decoding produces. Amounts are integers in hundredths
//! of the currency unit (cents, fen, avos; hundredths of a won for T-Money).
use vstd::prelude::*;
use crate::text::to_owned_string;

verus! {

/// One transaction record (PBOC, T-Money and the like). For T-Union cards the trip record of
/// the same number is merged in (entry/exit, auxiliary type, balance after, line and station).
#[derive(Debug, Clone)]
pub struct Transaction {
    /// The protocol it came from (when several transit protocols are shown together).
    pub source: String,
    /// The sequence number, if any.
    pub seq: Option<u64>,
    /// The readable kind (purchase, load, ...).
    pub kind: String,
    /// The signed amount, in hundredths.
    pub amount: i64,
    /// `YYYY-MM-DD` (or `MM-DD` where the card keeps no year), if any.
    pub date: String,
    /// `HH:MM:SS`, if any.
    pub time: String,
    /// The terminal number in hexadecimal, if any.
    pub terminal: String,
    /// The trip's auxiliary type (metro, bus), from T-Union trip records only.
    pub aux: String,
    /// Entry, exit or single trip, from T-Union trip records only.
    pub trip_kind: String,
    /// The balance after the transaction, in hundredths, from trip records only.
    pub balance_after: Option<i64>,
    /// Line and station in hexadecimal, from trip records only.
    pub line_station: String,
}

impl Transaction {
    /// A transaction with every field empty, no numbers and a zero amount.
    pub fn empty() -> (res: Transaction)
        ensures
            res.source@.len() == 0,
            res.seq is None,
            res.kind@.len() == 0,
            res.amount == 0,
            res.date@.len() == 0,
            res.time@.len() == 0,
            res.terminal@.len() == 0,
            res.aux@.len() == 0,
            res.trip_kind@.len() == 0,
            res.balance_after is None,
            res.line_station@.len() == 0,
    {
        Transaction {
            source: String::new(),
            seq: None,
            kind: String::new(),
            amount: 0,
            date: String::new(),
            time: String::new(),
            terminal: String::new(),
            aux: String::new(),
            trip_kind: String::new(),
            balance_after: None,
            line_station: String::new(),
        }
    }
}

/// One T-Union trip record (SFI `1E`).
#[derive(Debug, Clone)]
pub struct Trip {
    /// Entry, exit, single trip or other.
    pub kind: String,
    /// Metro, bus or other.
    pub aux: String,
    /// The amount, in hundredths.
    pub amount: i64,
    /// The balance after, in hundredths.
    pub balance: i64,
    /// `YYYY-MM-DD HH:MM:SS`.
    pub timestamp: String,
    /// Line and station in hexadecimal.
    pub line_station: String,
    /// City code in hexadecimal.
    pub city: String,
}

/// The summary of one protocol of a multi-protocol transit card.
#[derive(Debug, Clone)]
pub struct ProtocolSection {
    /// The readable protocol name.
    pub name: String,
    /// The card number, if any.
    pub number: Option<String>,
    /// The balance in hundredths, where it applies.
    pub balance: Option<i64>,
    /// The currency symbol.
    pub currency: String,
    /// Additional fields.
    pub fields: Vec<(String, String)>,
    /// Decoding notes.
    pub notes: Vec<String>,
}

/// The decoded information of one (sub-)card.
#[derive(Debug, Clone)]
pub struct ParsedCard {
    /// The readable card name (such as `深圳通` or `Visa`).
    pub name: String,
    /// The card number or PAN, if any.
    pub number: Option<String>,
    /// The balance in hundredths, where it applies.
    pub balance: Option<i64>,
    /// The currency symbol (`¥` by default, `HK$` for Octopus).
    pub currency: String,
    /// Additional fields (expiry, brand, city, version, ...).
    pub fields: Vec<(String, String)>,
    /// The transactions (T-Union trip records merged into their transactions).
    pub transactions: Vec<Transaction>,
    /// The protocols of a multi-protocol transit card, in reading order.
    pub protocols: Vec<ProtocolSection>,
    /// Decoding notes (missing fields, odd lengths, ...).
    pub notes: Vec<String>,
}

/// The decoded information of a whole card (sub-cards of a combined chip included).
#[derive(Debug, Clone)]
pub struct ParsedResult {
    /// The card type of the read.
    pub card_type: String,
    /// The ATR in hexadecimal.
    pub atr: String,
    /// The decoded sub-cards.
    pub cards: Vec<ParsedCard>,
}

/// Pairs of strings as pairs of texts.
pub open spec fn pairs_view(v: Seq<(String, String)>) -> Seq<(Seq<char>, Seq<char>)> {
    v.map_values(|p: (String, String)| (p.0@, p.1@))
}

impl ParsedCard {
    /// The fields as pairs of texts.
    pub open spec fn field_pairs(&self) -> Seq<(Seq<char>, Seq<char>)> {
        pairs_view(self.fields@)
    }

    /// A card with the given name, currency `¥` and nothing else.
    pub fn new(name: &str) -> (res: ParsedCard)
        ensures
            res.name@ == name@,
            res.currency@ == "¥"@,
            res.number is None,
            res.balance is None,
            res.fields@.len() == 0,
            res.transactions@.len() == 0,
            res.protocols@.len() == 0,
            res.notes@.len() == 0,
    {
        ParsedCard {
            name: to_owned_string(name),
            number: None,
            balance: None,
            currency: to_owned_string("¥"),
            fields: Vec::new(),
            transactions: Vec::new(),
            protocols: Vec::new(),
            notes: Vec::new(),
        }
    }

    /// Appends a field.
    pub fn add_field(&mut self, k: &str, v: &str)
        ensures
            final(self).field_pairs() == old(self).field_pairs().push((k@, v@)),
            final(self).name == old(self).name,
            final(self).number == old(self).number,
            final(self).balance == old(self).balance,
            final(self).currency == old(self).currency,
            final(self).transactions == old(self).transactions,
            final(self).protocols == old(self).protocols,
            final(self).notes == old(self).notes,
    {
        self.fields.push((to_owned_string(k), to_owned_string(v)));
        assert(self.field_pairs() =~= old(self).field_pairs().push((k@, v@)));
    }
}

} // verus!
