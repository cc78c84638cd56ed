//! EMV bank-card decoding: the PAN and expiry from the Track 2 equivalent data (tag `57`) of
//! the GPO answer or the records, the cardholder name (tag `5F20`, GBK), the brand named by
//! the read, the ATC and the PIN try counter.
use vstd::prelude::*;
use crate::hexfmt::{encode_upper, hex_upper};
use crate::model::{RawCardData, lookup};
use crate::text::{opt_text, dec_digits, decimal, push_str, starts_with, str_eq, strings_view, to_owned_string};
use super::model::ParsedCard;
use super::tlv::{self, Tlv, find, find_spec, parsed_from};
use super::util::{be_uint, be_uint_spec, gbk_decode, gbk_decoded, hex_bytes, hex_to_bytes, trim_pad};

verus! {

/// The readable brand of a brand identifier.
pub open spec fn brand_display_spec(brand: Seq<char>) -> Seq<char> {
    if brand == "UnionPay-Debit"@ {
        "银联借记"@
    } else if brand == "UnionPay-Credit"@ {
        "银联贷记"@
    } else if brand == "UnionPay-SecuredCredit"@ {
        "银联准贷记"@
    } else if brand == "Visa"@ {
        "Visa"@
    } else if brand == "MasterCard"@ || brand == "MasterCard-China"@ {
        "MasterCard"@
    } else if brand == "AMEX"@ || brand == "AMEX-China"@ {
        "American Express"@
    } else if brand == "JCB"@ {
        "JCB"@
    } else if brand == "Discover"@ {
        "Discover"@
    } else {
        brand
    }
}

/// The readable brand of a brand identifier.
pub fn brand_display(brand: &str) -> (res: String)
    ensures
        res@ == brand_display_spec(brand@),
{
    if str_eq(brand, "UnionPay-Debit") {
        to_owned_string("银联借记")
    } else if str_eq(brand, "UnionPay-Credit") {
        to_owned_string("银联贷记")
    } else if str_eq(brand, "UnionPay-SecuredCredit") {
        to_owned_string("银联准贷记")
    } else if str_eq(brand, "Visa") {
        to_owned_string("Visa")
    } else if str_eq(brand, "MasterCard") || str_eq(brand, "MasterCard-China") {
        to_owned_string("MasterCard")
    } else if str_eq(brand, "AMEX") || str_eq(brand, "AMEX-China") {
        to_owned_string("American Express")
    } else if str_eq(brand, "JCB") {
        to_owned_string("JCB")
    } else if str_eq(brand, "Discover") {
        to_owned_string("Discover")
    } else {
        to_owned_string(brand)
    }
}

/// The first position of a `D` or `d` separator in Track 2 text, from `i` on.
pub open spec fn separator_from(t: Seq<char>, i: int) -> Option<int>
    decreases t.len() - i,
{
    if i < 0 || i >= t.len() {
        None
    } else if t[i] == 'D' || t[i] == 'd' {
        Some(i)
    } else {
        separator_from(t, i + 1)
    }
}

/// The number of trailing `F`/`f` padding characters.
pub open spec fn trailing_f(t: Seq<char>) -> nat
    decreases t.len(),
{
    if t.len() > 0 && (t.last() == 'F' || t.last() == 'f') {
        1 + trailing_f(t.drop_last())
    } else {
        0
    }
}

/// What Track 2 text gives: before the first `D` the PAN, and after it, when at least four
/// characters follow, the expiry `20YY-MM`; without a separator, the whole text less its
/// `F` padding is the PAN.
pub open spec fn track2_parsed(t: Seq<char>, number: Option<String>, added: Seq<(Seq<char>, Seq<char>)>) -> bool {
    match separator_from(t, 0) {
        Some(p) => {
            let rest = t.subrange(p + 1, t.len() as int);
            &&& number matches Some(n) && n@ == t.subrange(0, p)
            &&& added == if rest.len() >= 4 {
                seq![("有效期"@, "20"@ + rest.subrange(0, 2) + "-"@ + rest.subrange(2, 4))]
            } else {
                Seq::empty()
            }
        },
        None => (number matches Some(n) && n@ == t.subrange(0, t.len() - trailing_f(t))) && added.len() == 0,
    }
}

proof fn lemma_trailing_f(s: Seq<char>, k: int)
    requires
        0 <= k <= s.len(),
        forall|j: int| s.len() - k <= j < s.len() ==> (#[trigger] s[j] == 'F' || s[j] == 'f'),
        k == s.len() || !(s[s.len() - k - 1] == 'F' || s[s.len() - k - 1] == 'f'),
    ensures
        trailing_f(s) == k,
    decreases k,
{
    if k > 0 {
        let d = s.drop_last();
        assert forall|j: int| d.len() - (k - 1) <= j < d.len() implies (#[trigger] d[j] == 'F' || d[j] == 'f') by {
            assert(d[j] == s[j]);
        }
        lemma_trailing_f(d, k - 1);
    }
}

/// Reads the PAN and expiry from Track 2 text (`track2_parsed`).
pub fn parse_track2(t2: &str, card: &mut ParsedCard)
    ensures
        exists|added: Seq<(Seq<char>, Seq<char>)>| #[trigger] track2_parsed(t2@, final(card).number, added)
            && final(card).field_pairs() == old(card).field_pairs() + added,
        final(card).name == old(card).name,
        final(card).balance == old(card).balance,
        final(card).currency == old(card).currency,
        final(card).transactions == old(card).transactions,
        final(card).protocols == old(card).protocols,
        final(card).notes == old(card).notes,
{
    let n = t2.unicode_len();
    let mut pos: usize = 0;
    while pos < n && t2.get_char(pos) != 'D' && t2.get_char(pos) != 'd'
        invariant
            n == t2@.len(),
            pos <= n,
            separator_from(t2@, 0) == separator_from(t2@, pos as int),
        decreases n - pos,
    {
        pos = pos + 1;
    }
    if pos < n {
        card.number = Some(to_owned_string(t2.substring_char(0, pos)));
        let rest = t2.substring_char(pos + 1, n);
        if rest.unicode_len() >= 4 {
            let mut v = to_owned_string("20");
            push_str(&mut v, rest.substring_char(0, 2));
            push_str(&mut v, "-");
            push_str(&mut v, rest.substring_char(2, 4));
            card.add_field("有效期", v.as_str());
            assert(track2_parsed(t2@, card.number, seq![("有效期"@, v@)]));
        } else {
            assert(card.field_pairs() =~= old(card).field_pairs() + Seq::<(Seq<char>, Seq<char>)>::empty());
            assert(track2_parsed(t2@, card.number, Seq::empty()));
        }
    } else {
        let mut k: usize = 0;
        while k < n && (t2.get_char(n - k - 1) == 'F' || t2.get_char(n - k - 1) == 'f')
            invariant
                n == t2@.len(),
                k <= n,
                forall|j: int| n - k <= j < n ==> (#[trigger] t2@[j] == 'F' || t2@[j] == 'f'),
            decreases n - k,
        {
            k = k + 1;
        }
        proof {
            lemma_trailing_f(t2@, k as int);
        }
        card.number = Some(to_owned_string(t2.substring_char(0, n - k)));
        assert(card.field_pairs() =~= old(card).field_pairs() + Seq::<(Seq<char>, Seq<char>)>::empty());
        assert(track2_parsed(t2@, card.number, Seq::empty()));
    }
}

/// The value of the first node with `tag` found in TLV bytes, if any.
pub open spec fn tlv_found(b: Seq<u8>, tag: Seq<char>, v: Option<Seq<u8>>) -> bool {
    exists|nodes: Seq<Tlv>|
        #[trigger] parsed_from(b, 0, nodes) && match find_spec(nodes, tag) {
            Some(t) => v == Some(t.value@),
            None => v is None,
        }
}

/// The bytes of an optional vector.
pub open spec fn opt_bytes(o: Option<Vec<u8>>) -> Option<Seq<u8>> {
    match o {
        Some(v) => Some(v@),
        None => None,
    }
}

/// The value of the first node with `tag` in TLV bytes (`tlv_found`).
fn tlv_value(bytes: &[u8], tag: &str) -> (res: Option<Vec<u8>>)
    ensures
        tlv_found(bytes@, tag@, opt_bytes(res)),
{
    let nodes = tlv::parse(bytes);
    assert(parsed_from(bytes@, 0, nodes@));
    match find(nodes.as_slice(), tag) {
        Some(t) => Some(vstd::slice::slice_to_vec(t.value.as_slice())),
        None => None,
    }
}

/// The record fields of a read: the values of the fields whose key begins with `emv_rec_`, in
/// order, as bytes.
pub open spec fn record_sources(fields: Seq<(Seq<char>, Seq<char>)>) -> Seq<Seq<u8>>
    decreases fields.len(),
{
    if fields.len() == 0 {
        Seq::empty()
    } else {
        let rest = record_sources(fields.drop_last());
        let f = fields.last();
        if f.0.len() >= "emv_rec_"@.len() && f.0.subrange(0, "emv_rec_"@.len() as int) == "emv_rec_"@ {
            rest.push(hex_bytes(f.1))
        } else {
            rest
        }
    }
}

/// The TLV sources searched for Track 2 and the cardholder name: the GPO answer, then the
/// records.
pub open spec fn emv_sources(fields: Seq<(Seq<char>, Seq<char>)>) -> Seq<Seq<u8>> {
    (match lookup(fields, "emv_gpo"@) {
        Some(g) => seq![hex_bytes(g)],
        None => Seq::empty(),
    }) + record_sources(fields)
}

/// The cardholder name in a source, when it has a non-empty one.
pub open spec fn holder_of(v5f20: Option<Seq<u8>>) -> Seq<Seq<char>> {
    match v5f20 {
        Some(v) => if trim_pad(gbk_decoded(v)).len() > 0 {
            seq![trim_pad(gbk_decoded(v))]
        } else {
            Seq::empty()
        },
        None => Seq::empty(),
    }
}

/// The Track 2 of the first source that has one, in hexadecimal.
pub open spec fn first_track2(v57s: Seq<Option<Seq<u8>>>) -> Option<Seq<char>>
    decreases v57s.len(),
{
    if v57s.len() == 0 {
        None
    } else {
        match v57s[0] {
            Some(v) => Some(hex_upper(v)),
            None => first_track2(v57s.drop_first()),
        }
    }
}

/// The non-empty cardholder names of the sources, in order.
pub open spec fn holders_of(v5f20s: Seq<Option<Seq<u8>>>) -> Seq<Seq<char>>
    decreases v5f20s.len(),
{
    if v5f20s.len() == 0 {
        Seq::empty()
    } else {
        holder_of(v5f20s[0]) + holders_of(v5f20s.drop_first())
    }
}

/// `v57s` and `v5f20s` are the values of tags `57` and `5F20` found in each source.
pub open spec fn all_found(srcs: Seq<Seq<u8>>, v57s: Seq<Option<Seq<u8>>>, v5f20s: Seq<Option<Seq<u8>>>) -> bool {
    &&& v57s.len() == srcs.len()
    &&& v5f20s.len() == srcs.len()
    &&& forall|k: int| 0 <= k < srcs.len() ==> tlv_found(#[trigger] srcs[k], "57"@, v57s[k]) && tlv_found(srcs[k], "5F20"@, v5f20s[k])
}

proof fn lemma_first_track2_push(s: Seq<Option<Seq<u8>>>, x: Option<Seq<u8>>)
    ensures
        first_track2(s.push(x)) == match first_track2(s) {
            Some(t) => Some(t),
            None => match x {
                Some(v) => Some(hex_upper(v)),
                None => None,
            },
        },
    decreases s.len(),
{
    if s.len() > 0 {
        assert(s.push(x).drop_first() =~= s.drop_first().push(x));
        assert(s.push(x)[0] == s[0]);
        lemma_first_track2_push(s.drop_first(), x);
        assert(first_track2(s.push(x)) == match s[0] {
            Some(v) => Some(hex_upper(v)),
            None => first_track2(s.drop_first().push(x)),
        });
        assert(first_track2(s) == match s[0] {
            Some(v) => Some(hex_upper(v)),
            None => first_track2(s.drop_first()),
        });
    } else {
        let e = Seq::<Option<Seq<u8>>>::empty();
        assert(s.push(x).drop_first() =~= e);
        assert(s.push(x)[0] == x);
        assert(first_track2(e) is None);
        assert(first_track2(s) is None);
        assert(first_track2(s.push(x)) == match x {
            Some(v) => Some(hex_upper(v)),
            None => first_track2(s.push(x).drop_first()),
        });
    }
}

proof fn lemma_holders_push(s: Seq<Option<Seq<u8>>>, x: Option<Seq<u8>>)
    ensures
        holders_of(s.push(x)) == holders_of(s) + holder_of(x),
    decreases s.len(),
{
    if s.len() == 0 {
        let e = Seq::<Option<Seq<u8>>>::empty();
        assert(s.push(x).drop_first() =~= e);
        assert(s.push(x)[0] == x);
        assert(holders_of(e) =~= Seq::<Seq<char>>::empty());
        assert(holders_of(s) =~= Seq::<Seq<char>>::empty());
        assert(holders_of(s.push(x)) == holder_of(x) + holders_of(s.push(x).drop_first()));
        assert(holders_of(s.push(x)) =~= holders_of(s) + holder_of(x));
    } else {
        assert(s.push(x).drop_first() =~= s.drop_first().push(x));
        assert(s.push(x)[0] == s[0]);
        lemma_holders_push(s.drop_first(), x);
        assert(holders_of(s.push(x)) == holder_of(s[0]) + holders_of(s.drop_first().push(x)));
        assert(holders_of(s) == holder_of(s[0]) + holders_of(s.drop_first()));
        assert(holders_of(s.push(x)) =~= holders_of(s) + holder_of(x));
    }
}

/// The bytes of each vector.
pub open spec fn bytes_views(v: Seq<Vec<u8>>) -> Seq<Seq<u8>> {
    v.map_values(|x: Vec<u8>| x@)
}

/// Scans the sources for Track 2 and the cardholder names.
fn scan_sources(srcs: &Vec<Vec<u8>>) -> (res: (Option<String>, Vec<String>))
    ensures
        exists|v57s: Seq<Option<Seq<u8>>>, v5f20s: Seq<Option<Seq<u8>>>|
            #[trigger] all_found(bytes_views(srcs@), v57s, v5f20s) && opt_text(res.0) == first_track2(v57s)
                && strings_view(res.1@) == holders_of(v5f20s),
{
    let ghost sv = bytes_views(srcs@);
    let ghost mut v57s: Seq<Option<Seq<u8>>> = Seq::empty();
    let ghost mut v5f20s: Seq<Option<Seq<u8>>> = Seq::empty();
    let mut track2: Option<String> = None;
    let mut holders: Vec<String> = Vec::new();
    let mut k: usize = 0;
    while k < srcs.len()
        invariant
            k <= srcs@.len(),
            sv == bytes_views(srcs@),
            all_found(sv.subrange(0, k as int), v57s, v5f20s),
            opt_text(track2) == first_track2(v57s),
            strings_view(holders@) == holders_of(v5f20s),
        decreases srcs@.len() - k,
    {
        let src = srcs[k].as_slice();
        assert(sv[k as int] == src@);
        let v57 = tlv_value(src, "57");
        let v5f20 = tlv_value(src, "5F20");
        proof {
            lemma_first_track2_push(v57s, opt_bytes(v57));
            lemma_holders_push(v5f20s, opt_bytes(v5f20));
        }
        if track2.is_none() {
            if let Some(v) = &v57 {
                track2 = Some(encode_upper(v.as_slice()));
            }
        }
        if let Some(v) = &v5f20 {
            let name = gbk_decode(v.as_slice());
            if name.unicode_len() > 0 {
                let ghost before = strings_view(holders@);
                holders.push(name);
                assert(strings_view(holders@) =~= before + seq![trim_pad(gbk_decoded(v@))]);
            } else {
                assert(strings_view(holders@) =~= strings_view(holders@) + Seq::<Seq<char>>::empty());
            }
        } else {
            assert(strings_view(holders@) =~= strings_view(holders@) + Seq::<Seq<char>>::empty());
        }
        proof {
            let old57 = v57s;
            let old5f = v5f20s;
            v57s = v57s.push(opt_bytes(v57));
            v5f20s = v5f20s.push(opt_bytes(v5f20));
            let pre = sv.subrange(0, k as int);
            let nxt = sv.subrange(0, k + 1);
            assert forall|j: int| 0 <= j < nxt.len() implies tlv_found(#[trigger] nxt[j], "57"@, v57s[j]) && tlv_found(nxt[j], "5F20"@, v5f20s[j]) by {
                if j < k {
                    assert(nxt[j] == pre[j]);
                    assert(v57s[j] == old57[j]);
                    assert(v5f20s[j] == old5f[j]);
                } else {
                    assert(nxt[j] == src@);
                }
            }
        }
        k = k + 1;
    }
    assert(sv.subrange(0, k as int) =~= sv);
    (track2, holders)
}

/// The field a GET DATA answer stored under `key` gives: the value of its node `tag` as a
/// big-endian number, labelled `label`.
pub open spec fn data_field(
    fields: Seq<(Seq<char>, Seq<char>)>,
    key: Seq<char>,
    tag: Seq<char>,
    label: Seq<char>,
    v: Option<Seq<u8>>,
) -> Seq<(Seq<char>, Seq<char>)> {
    match lookup(fields, key) {
        Some(h) => match v {
            Some(b) => seq![(label, dec_digits(be_uint_spec(b, 0, b.len() as int)))],
            None => Seq::empty(),
        },
        None => Seq::empty(),
    }
}

/// `v` is what the GET DATA answer under `key` holds for `tag` (none without the answer).
pub open spec fn data_found(fields: Seq<(Seq<char>, Seq<char>)>, key: Seq<char>, tag: Seq<char>, v: Option<Seq<u8>>) -> bool {
    match lookup(fields, key) {
        Some(h) => tlv_found(hex_bytes(h), tag, v),
        None => v is None,
    }
}

fn add_data_field(card: &mut ParsedCard, raw: &RawCardData, key: &str, tag: &str, label: &str)
    ensures
        exists|v: Option<Seq<u8>>| #[trigger] data_found(raw.fields(), key@, tag@, v)
            && final(card).field_pairs() == old(card).field_pairs() + data_field(raw.fields(), key@, tag@, label@, v),
        final(card).name == old(card).name,
        final(card).number == old(card).number,
        final(card).balance == old(card).balance,
        final(card).currency == old(card).currency,
        final(card).transactions == old(card).transactions,
        final(card).protocols == old(card).protocols,
        final(card).notes == old(card).notes,
{
    match raw.get(key) {
        Some(h) => {
            let bytes = hex_to_bytes(h);
            let v = tlv_value(bytes.as_slice(), tag);
            let ghost gv = opt_bytes(v);
            assert(lookup(raw.fields(), key@)->Some_0 == h@);
            assert(data_found(raw.fields(), key@, tag@, gv));
            match v {
                Some(b) => {
                    let n = be_uint(b.as_slice(), 0, b.len());
                    let d = decimal(n);
                    card.add_field(label, d.as_str());
                },
                None => {
                    assert(card.field_pairs() =~= old(card).field_pairs() + Seq::<(Seq<char>, Seq<char>)>::empty());
                },
            }
        },
        None => {
            assert(data_found(raw.fields(), key@, tag@, None));
            assert(card.field_pairs() =~= old(card).field_pairs() + Seq::<(Seq<char>, Seq<char>)>::empty());
        },
    }
}

/// The cardholder fields.
pub open spec fn holder_fields(holders: Seq<Seq<char>>) -> Seq<(Seq<char>, Seq<char>)> {
    holders.map_values(|h: Seq<char>| ("持卡人"@, h))
}

/// What decoding an EMV read gives, for the values found in the sources (`all_found`) and in
/// the two GET DATA answers: the brand's readable name (`EMV 银行卡` without brand),
/// currency `¥`; the AID, the cardholder names, the expiry from Track 2, the ATC and the PIN
/// try counter as fields; the PAN from Track 2, or a note that Track 2 was not found.
pub open spec fn emv_parts(
    fields: Seq<(Seq<char>, Seq<char>)>,
    card: ParsedCard,
    v57s: Seq<Option<Seq<u8>>>,
    v5f20s: Seq<Option<Seq<u8>>>,
    t2_added: Seq<(Seq<char>, Seq<char>)>,
    atc: Option<Seq<u8>>,
    pin: Option<Seq<u8>>,
) -> bool {
    let brand = match lookup(fields, "emv_brand"@) {
        Some(b) => b,
        None => Seq::<char>::empty(),
    };
    let aid_fields = match lookup(fields, "emv_aid"@) {
        Some(a) => seq![("AID"@, a)],
        None => Seq::empty(),
    };
    let t2 = first_track2(v57s);
    &&& all_found(emv_sources(fields), v57s, v5f20s)
    &&& data_found(fields, "emv_atc"@, "9F36"@, atc)
    &&& data_found(fields, "emv_pin_retry"@, "9F17"@, pin)
    &&& card.name@ == if brand.len() == 0 { "EMV 银行卡"@ } else { brand_display_spec(brand) }
    &&& card.currency@ == "¥"@
    &&& card.balance is None
    &&& card.transactions@.len() == 0
    &&& card.protocols@.len() == 0
    &&& match t2 {
        Some(t) => track2_parsed(t, card.number, t2_added) && card.notes@.len() == 0,
        None => card.number is None && t2_added.len() == 0 && strings_view(card.notes@) == seq!["未找到 Track2（可能需 PDOL）"@],
    }
    &&& card.field_pairs() == aid_fields + holder_fields(holders_of(v5f20s)) + t2_added
        + data_field(fields, "emv_atc"@, "9F36"@, "应用交易计数(ATC)"@, atc)
        + data_field(fields, "emv_pin_retry"@, "9F17"@, "PIN 剩余重试"@, pin)
}

/// What decoding an EMV read gives (`emv_parts`).
pub open spec fn emv_parsed(fields: Seq<(Seq<char>, Seq<char>)>, card: ParsedCard) -> bool {
    exists|v57s: Seq<Option<Seq<u8>>>, v5f20s: Seq<Option<Seq<u8>>>, t2_added: Seq<(Seq<char>, Seq<char>)>, atc: Option<Seq<u8>>, pin: Option<Seq<u8>>|
        #[trigger] emv_parts(fields, card, v57s, v5f20s, t2_added, atc, pin)
}

/// The TLV sources of a read (`emv_sources`).
fn sources_of(raw: &RawCardData) -> (res: Vec<Vec<u8>>)
    ensures
        bytes_views(res@) == emv_sources(raw.fields()),
{
    let mut sources: Vec<Vec<u8>> = Vec::new();
    if let Some(g) = raw.get("emv_gpo") {
        sources.push(hex_to_bytes(g));
    }
    let ghost fields = raw.fields();
    let ghost gpo_part = match lookup(fields, "emv_gpo"@) {
        Some(g) => seq![hex_bytes(g)],
        None => Seq::<Seq<u8>>::empty(),
    };
    assert(bytes_views(sources@) =~= gpo_part + record_sources(fields.subrange(0, 0)));
    let n = raw.raw_fields.len();
    let mut i: usize = 0;
    while i < n
        invariant
            n == raw.raw_fields@.len(),
            fields == raw.fields(),
            fields.len() == n,
            i <= n,
            bytes_views(sources@) == gpo_part + record_sources(fields.subrange(0, i as int)),
        decreases n - i,
    {
        let (k, v) = &raw.raw_fields[i];
        let ghost pre = fields.subrange(0, i as int);
        let ghost nxt = fields.subrange(0, i + 1);
        assert(nxt.drop_last() =~= pre);
        assert(nxt.last() == (k@, v@));
        if starts_with(k.as_str(), "emv_rec_") {
            let ghost before = bytes_views(sources@);
            sources.push(hex_to_bytes(v.as_str()));
            assert(bytes_views(sources@) =~= before.push(hex_bytes(v@)));
        }
        i = i + 1;
    }
    assert(fields.subrange(0, n as int) =~= fields);
    sources
}

/// The card named after the brand, with the AID field.
fn emv_card_head(raw: &RawCardData) -> (res: ParsedCard)
    ensures
        ({
            let brand = match lookup(raw.fields(), "emv_brand"@) {
                Some(b) => b,
                None => Seq::<char>::empty(),
            };
            &&& res.name@ == if brand.len() == 0 { "EMV 银行卡"@ } else { brand_display_spec(brand) }
            &&& res.field_pairs() == match lookup(raw.fields(), "emv_aid"@) {
                Some(a) => seq![("AID"@, a)],
                None => Seq::empty(),
            }
            &&& res.currency@ == "¥"@
            &&& res.number is None
            &&& res.balance is None
            &&& res.notes@.len() == 0
            &&& res.transactions@.len() == 0
            &&& res.protocols@.len() == 0
        }),
{
    let mut card = match raw.get("emv_brand") {
        Some(b) => if b.unicode_len() == 0 {
            ParsedCard::new("EMV 银行卡")
        } else {
            let d = brand_display(b);
            ParsedCard::new(d.as_str())
        },
        None => ParsedCard::new("EMV 银行卡"),
    };
    if let Some(aid) = raw.get("emv_aid") {
        card.add_field("AID", aid);
    }
    assert(card.field_pairs() =~= match lookup(raw.fields(), "emv_aid"@) {
        Some(a) => seq![("AID"@, a)],
        None => Seq::empty(),
    });
    card
}

/// Adds the cardholder fields and the Track 2 information.
fn add_scan_results(card: &mut ParsedCard, track2: &Option<String>, holders: &Vec<String>)
    requires
        old(card).number is None,
        old(card).notes@.len() == 0,
    ensures
        exists|t2_added: Seq<(Seq<char>, Seq<char>)>| #[trigger] final(card).field_pairs() == old(card).field_pairs()
            + holder_fields(strings_view(holders@)) + t2_added && match opt_text(*track2) {
            Some(t) => track2_parsed(t, final(card).number, t2_added) && final(card).notes@.len() == 0,
            None => final(card).number is None && t2_added.len() == 0 && strings_view(final(card).notes@) == seq![
                "未找到 Track2（可能需 PDOL）"@,
            ],
        },
        final(card).name == old(card).name,
        final(card).balance == old(card).balance,
        final(card).currency == old(card).currency,
        final(card).transactions == old(card).transactions,
        final(card).protocols == old(card).protocols,
{
    let ghost f0 = card.field_pairs();
    let mut j: usize = 0;
    assert(card.field_pairs() =~= f0 + holder_fields(strings_view(holders@).subrange(0, 0)));
    while j < holders.len()
        invariant
            j <= holders@.len(),
            card.field_pairs() == f0 + holder_fields(strings_view(holders@).subrange(0, j as int)),
            card.name == old(card).name,
            card.number is None,
            card.notes@.len() == 0,
            card.balance == old(card).balance,
            card.currency == old(card).currency,
            card.transactions == old(card).transactions,
            card.protocols == old(card).protocols,
        decreases holders@.len() - j,
    {
        card.add_field("持卡人", holders[j].as_str());
        assert(strings_view(holders@)[j as int] == holders@[j as int]@);
        assert(holder_fields(strings_view(holders@).subrange(0, j + 1)) =~= holder_fields(
            strings_view(holders@).subrange(0, j as int),
        ).push(("持卡人"@, holders@[j as int]@)));
        j = j + 1;
    }
    assert(strings_view(holders@).subrange(0, holders@.len() as int) =~= strings_view(holders@));
    let ghost f_h = card.field_pairs();
    match track2 {
        Some(t2) => {
            parse_track2(t2.as_str(), card);
        },
        None => {
            card.notes.push(to_owned_string("未找到 Track2（可能需 PDOL）"));
            assert(strings_view(card.notes@) =~= seq!["未找到 Track2（可能需 PDOL）"@]);
            assert(card.field_pairs() =~= f_h + Seq::<(Seq<char>, Seq<char>)>::empty());
        },
    }
}

/// Decodes an EMV read (`emv_parsed`).
pub fn parse(raw: &RawCardData) -> (res: ParsedCard)
    ensures
        emv_parsed(raw.fields(), res),
{
    let mut card = emv_card_head(raw);
    let sources = sources_of(raw);
    let (track2, holders) = scan_sources(&sources);
    let ghost vs = choose|v57s: Seq<Option<Seq<u8>>>, v5f20s: Seq<Option<Seq<u8>>>|
        #[trigger] all_found(bytes_views(sources@), v57s, v5f20s) && opt_text(track2) == first_track2(v57s)
            && strings_view(holders@) == holders_of(v5f20s);
    let ghost f_aid = card.field_pairs();
    add_scan_results(&mut card, &track2, &holders);
    let ghost f_t = card.field_pairs();
    let ghost t2_added = choose|t2_added: Seq<(Seq<char>, Seq<char>)>| #[trigger] card.field_pairs() == f_aid
        + holder_fields(strings_view(holders@)) + t2_added && match opt_text(track2) {
        Some(t) => track2_parsed(t, card.number, t2_added) && card.notes@.len() == 0,
        None => card.number is None && t2_added.len() == 0 && strings_view(card.notes@) == seq![
            "未找到 Track2（可能需 PDOL）"@,
        ],
    };
    add_data_field(&mut card, raw, "emv_atc", "9F36", "应用交易计数(ATC)");
    let ghost atc = choose|v: Option<Seq<u8>>| #[trigger] data_found(raw.fields(), "emv_atc"@, "9F36"@, v)
        && card.field_pairs() == f_t + data_field(raw.fields(), "emv_atc"@, "9F36"@, "应用交易计数(ATC)"@, v);
    let ghost f_a = card.field_pairs();
    add_data_field(&mut card, raw, "emv_pin_retry", "9F17", "PIN 剩余重试");
    let ghost pin = choose|v: Option<Seq<u8>>| #[trigger] data_found(raw.fields(), "emv_pin_retry"@, "9F17"@, v)
        && card.field_pairs() == f_a + data_field(raw.fields(), "emv_pin_retry"@, "9F17"@, "PIN 剩余重试"@, v);
    assert(card.field_pairs() =~= f_aid + holder_fields(holders_of(vs.1)) + t2_added
        + data_field(raw.fields(), "emv_atc"@, "9F36"@, "应用交易计数(ATC)"@, atc)
        + data_field(raw.fields(), "emv_pin_retry"@, "9F17"@, "PIN 剩余重试"@, pin));
    assert(emv_parts(raw.fields(), card, vs.0, vs.1, t2_added, atc, pin));
    card
}


proof fn lemma_separator_first(t: Seq<char>, i: int, p: int)
    requires
        0 <= i <= p < t.len(),
        t[p] == 'D' || t[p] == 'd',
        forall|j: int| i <= j < p ==> t[j] != 'D' && t[j] != 'd',
    ensures
        separator_from(t, i) == Some(p),
    decreases p - i,
{
    if i < p {
        lemma_separator_first(t, i + 1, p);
    }
}

/// Track 2 is the PAN, the separator `D`, then the expiry as `YYMM`: for text
/// `pan + "D" + rest` with no separator in the PAN and at least four characters after it, the
/// number is the PAN and the one field added is `有效期` = `20` Y Y `-` M M, the two characters
/// after the separator giving the year and the next two the month.
pub proof fn law_track2_expiry_is_year_then_month(
    pan: Seq<char>,
    rest: Seq<char>,
    number: Option<String>,
    added: Seq<(Seq<char>, Seq<char>)>,
)
    requires
        forall|j: int| 0 <= j < pan.len() ==> pan[j] != 'D' && pan[j] != 'd',
        rest.len() >= 4,
        track2_parsed(pan + seq!['D'] + rest, number, added),
    ensures
        number matches Some(n) && n@ == pan,
        added == seq![("有效期"@, seq!['2', '0', rest[0], rest[1], '-', rest[2], rest[3]])],
{
    let t = pan + seq!['D'] + rest;
    let p = pan.len() as int;
    assert forall|j: int| 0 <= j < p implies t[j] != 'D' && t[j] != 'd' by {
        assert(t[j] == pan[j]);
    }
    lemma_separator_first(t, 0, p);
    assert(t.subrange(0, p) =~= pan);
    assert(t.subrange(p + 1, t.len() as int) =~= rest);
    reveal_strlit("20");
    reveal_strlit("-");
    assert("20"@ + rest.subrange(0, 2) + "-"@ + rest.subrange(2, 4) =~= seq!['2', '0', rest[0], rest[1], '-', rest[2], rest[3]]);
}

} // verus!
