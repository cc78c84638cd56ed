//! Octopus (FeliCa) decoding: the IDm from `felica_idm`; the balance from
//! `felica_balance_block`, whose block data begins with a big-endian value `v` giving
//! `(v - 500) * 10` hundredths of a Hong Kong dollar.
use vstd::prelude::*;
use crate::model::{RawCardData, lookup};
use crate::text::{concat2, strings_view, to_owned_string};
use super::model::ParsedCard;
use super::util::{be_uint, be_uint_spec, hex_bytes, hex_to_bytes};

verus! {

/// The first position of `v` in `s`, from `i` on.
pub open spec fn index_of_from(s: Seq<u8>, v: u8, i: int) -> Option<int>
    decreases s.len() - i,
{
    if i < 0 || i >= s.len() {
        None
    } else if s[i] == v {
        Some(i)
    } else {
        index_of_from(s, v, i + 1)
    }
}

/// The balance in a FeliCa Read Without Encryption reply: after dropping a trailing `90xx`,
/// the block data starts 12 bytes after the response code `07` (IDm, two status flags, the
/// block count); its first 4 bytes big-endian give `v`, and the balance is `(v - 500) * 10`
/// hundredths. None when there is no `07` or the block is short.
pub open spec fn octopus_balance_spec(bytes: Seq<u8>) -> Option<int> {
    let body = if bytes.len() >= 2 && bytes[bytes.len() - 2] == 0x90 {
        bytes.subrange(0, bytes.len() - 2)
    } else {
        bytes
    };
    match index_of_from(body, 0x07, 0) {
        None => None,
        Some(p) => if p + 16 > body.len() {
            None
        } else {
            Some((be_uint_spec(body, p + 12, p + 16) - 500) * 10)
        },
    }
}

/// The Octopus balance in hundredths of a Hong Kong dollar, from a read reply.
pub fn extract_balance(bytes: &[u8]) -> (res: Option<i64>)
    ensures
        match octopus_balance_spec(bytes@) {
            Some(v) => res == Some(v as i64),
            None => res is None,
        },
{
    let n = bytes.len();
    let body: &[u8] = if n >= 2 && bytes[n - 2] == 0x90 {
        vstd::slice::slice_subrange(bytes, 0, n - 2)
    } else {
        bytes
    };
    let m = body.len();
    let mut pos: usize = 0;
    while pos < m && body[pos] != 0x07
        invariant
            m == body@.len(),
            pos <= m,
            index_of_from(body@, 0x07, 0) == index_of_from(body@, 0x07, pos as int),
        decreases m - pos,
    {
        pos = pos + 1;
    }
    if pos >= m {
        return None;
    }
    if pos > m || m - pos < 16 {
        return None;
    }
    let data_start = pos + 12;
    let raw_val = be_uint(body, data_start, data_start + 4);
    assert(raw_val < 0x1_0000_0000) by {
        lemma_be4_bound(body@.subrange(data_start as int, data_start + 4));
    }
    Some((raw_val as i64 - 500) * 10)
}

proof fn lemma_be4_bound(s: Seq<u8>)
    requires
        s.len() == 4,
    ensures
        super::util::be_wrapped(s) < 0x1_0000_0000,
{
    let a = s.subrange(0, 1);
    let b = s.subrange(0, 2);
    let c = s.subrange(0, 3);
    assert(s.drop_last() =~= c);
    assert(c.drop_last() =~= b);
    assert(b.drop_last() =~= a);
    assert(a.drop_last() =~= Seq::<u8>::empty());
    let e = Seq::<u8>::empty();
    assert(super::util::be_wrapped(e) == 0);
    assert(super::util::be_wrapped(a) == a.last());
    assert(super::util::be_wrapped(a) < 0x100);
    assert(super::util::be_wrapped(b) == super::util::be_wrapped(a) * 256 + b.last());
    assert(super::util::be_wrapped(b) < 0x1_0000);
    assert(super::util::be_wrapped(c) == super::util::be_wrapped(b) * 256 + c.last());
    assert(super::util::be_wrapped(c) < 0x100_0000);
    assert(super::util::be_wrapped(s) == super::util::be_wrapped(c) * 256 + s.last());
}

/// What decoding an Octopus read gives: name `八达通 Octopus`, currency `HK$`, the IDm as the
/// number; a reader that could not read it is reported as a note and nothing else; otherwise
/// the balance from the balance block, or a note that it is missing or unreadable.
pub open spec fn octopus_parsed(fields: Seq<(Seq<char>, Seq<char>)>, card: ParsedCard) -> bool {
    &&& card.name@ == "八达通 Octopus"@
    &&& card.currency@ == "HK$"@
    &&& card.fields@.len() == 0
    &&& card.transactions@.len() == 0
    &&& card.protocols@.len() == 0
    &&& match lookup(fields, "felica_idm"@) {
        Some(idm) => card.number matches Some(s) && s@ == idm,
        None => card.number is None,
    }
    &&& match lookup(fields, "felica_unsupported_reader"@) {
        Some(reader) => card.balance is None && strings_view(card.notes@) == seq!["不支持的读卡器："@ + reader],
        None => match lookup(fields, "felica_balance_block"@) {
            Some(block) => match octopus_balance_spec(hex_bytes(block)) {
                Some(v) => card.balance == Some(v as i64) && card.notes@.len() == 0,
                None => card.balance is None && strings_view(card.notes@) == seq!["八达通余额块解析失败"@],
            },
            None => card.balance is None && strings_view(card.notes@) == seq!["未取到八达通余额块"@],
        },
    }
}

/// Decodes an Octopus read (`octopus_parsed`).
pub fn parse(raw: &RawCardData) -> (res: ParsedCard)
    ensures
        octopus_parsed(raw.fields(), res),
{
    let mut card = ParsedCard::new("八达通 Octopus");
    card.currency = to_owned_string("HK$");
    if let Some(idm) = raw.get("felica_idm") {
        card.number = Some(to_owned_string(idm));
    }
    if let Some(reader) = raw.get("felica_unsupported_reader") {
        card.notes.push(concat2("不支持的读卡器：", reader));
        assert(strings_view(card.notes@) =~= seq!["不支持的读卡器："@ + reader@]);
        return card;
    }
    if let Some(block) = raw.get("felica_balance_block") {
        let bytes = hex_to_bytes(block);
        match extract_balance(bytes.as_slice()) {
            Some(bal) => {
                card.balance = Some(bal);
            },
            None => {
                card.notes.push(to_owned_string("八达通余额块解析失败"));
                assert(strings_view(card.notes@) =~= seq!["八达通余额块解析失败"@]);
            },
        }
    } else {
        card.notes.push(to_owned_string("未取到八达通余额块"));
        assert(strings_view(card.notes@) =~= seq!["未取到八达通余额块"@]);
    }
    card
}


proof fn lemma_index_of_first(s: Seq<u8>, v: u8, i: int, p: int)
    requires
        0 <= i <= p < s.len(),
        s[p] == v,
        forall|j: int| i <= j < p ==> s[j] != v,
    ensures
        index_of_from(s, v, i) == Some(p),
    decreases p - i,
{
    if i < p {
        lemma_index_of_first(s, v, i + 1, p);
    }
}

/// The Octopus balance is `(v - 500) * 10` hundredths of a Hong Kong dollar, where `v` is the
/// big-endian value of the first four bytes of block data; the block data starts 12 bytes
/// after the response code `07` of the Read Without Encryption reply (the IDm, two status
/// flags and the block count lie between). Here `pre` is what comes before the response code,
/// `mid` those 11 bytes, `data` the block data and `90 sw2` the status word.
pub proof fn law_octopus_balance(
    fields: Seq<(Seq<char>, Seq<char>)>,
    card: ParsedCard,
    block: Seq<char>,
    pre: Seq<u8>,
    mid: Seq<u8>,
    data: Seq<u8>,
    sw2: u8,
)
    requires
        octopus_parsed(fields, card),
        lookup(fields, "felica_unsupported_reader"@) is None,
        lookup(fields, "felica_balance_block"@) == Some(block),
        hex_bytes(block) == pre + seq![0x07u8] + mid + data + seq![0x90u8, sw2],
        !pre.contains(0x07u8),
        mid.len() == 11,
        data.len() >= 4,
    ensures
        card.balance matches Some(x) && x == (data[0] * 0x100_0000 + data[1] * 0x1_0000 + data[2] * 0x100 + data[3]
            - 500) * 10,
        card.notes@.len() == 0,
{
    let bytes = hex_bytes(block);
    let body = pre + seq![0x07u8] + mid + data;
    assert(bytes.subrange(0, bytes.len() - 2) =~= body);
    assert(bytes[bytes.len() - 2] == 0x90);
    let p = pre.len() as int;
    assert forall|j: int| 0 <= j < p implies body[j] != 0x07u8 by {
        assert(body[j] == pre[j]);
        if pre[j] == 0x07u8 {
            assert(pre.contains(0x07u8));
        }
    }
    lemma_index_of_first(body, 0x07, 0, p);
    super::util::lemma_be4_value(body, p + 12);
    assert(body[p + 12] == data[0] && body[p + 13] == data[1] && body[p + 14] == data[2] && body[p + 15] == data[3]);
    assert(octopus_balance_spec(bytes) == Some((be_uint_spec(body, p + 12, p + 16) - 500) * 10));
}

} // verus!
