//! Inferring the protocol family of a card from its ATR (PC/SC Part 3 synthesised ATR:
//! the RID `A0 00 00 03 06` is followed by the standard byte SS and a two-byte card name).
use vstd::prelude::*;
use crate::model::CardStandard;

verus! {

/// Whether `needle` occurs in `hay` at position `i`.
pub open spec fn occurs_at(hay: Seq<u8>, needle: Seq<u8>, i: int) -> bool {
    0 <= i && i + needle.len() <= hay.len() && hay.subrange(i, i + needle.len()) == needle
}

/// The first position at or after `from` where `needle` occurs in `hay`.
pub open spec fn find_from(hay: Seq<u8>, needle: Seq<u8>, from: int) -> Option<int>
    decreases hay.len() - from,
{
    if from < 0 || from + needle.len() > hay.len() {
        None
    } else if needle.len() == 0 {
        Some(from)
    } else if occurs_at(hay, needle, from) {
        Some(from)
    } else {
        find_from(hay, needle, from + 1)
    }
}

/// The first position where a non-empty `needle` occurs in `hay`; `None` for an empty needle.
pub open spec fn find_sub(hay: Seq<u8>, needle: Seq<u8>) -> Option<int> {
    if needle.len() == 0 {
        None
    } else {
        find_from(hay, needle, 0)
    }
}

/// The PC/SC registered application identifier that precedes SS and the card name.
pub open spec fn pcsc_rid() -> Seq<u8> {
    seq![0xA0u8, 0x00, 0x00, 0x03, 0x06]
}

/// The family named by the standard byte and the card name.
pub open spec fn classify_spec(ss: u8, name: Seq<u8>) -> CardStandard {
    if name == seq![0x00u8, 0x01] || name == seq![0x00u8, 0x02] {
        CardStandard::MifareClassic
    } else if name == seq![0x00u8, 0x03] || name == seq![0x00u8, 0x3A] {
        CardStandard::MifareUltralight
    } else if name == seq![0x00u8, 0x3B] {
        CardStandard::Felica
    } else if ss == 0x05 || ss == 0x0B || ss == 0x0C {
        CardStandard::Iso14443B
    } else {
        CardStandard::Iso14443A
    }
}

/// The family an ATR names: after the first PC/SC RID, when SS and both name bytes are
/// present; Type A otherwise.
pub open spec fn detect_spec(atr: Seq<u8>) -> CardStandard {
    match find_sub(atr, pcsc_rid()) {
        Some(pos) => if pos + 8 <= atr.len() {
            classify_spec(atr[pos + 5], atr.subrange(pos + 6, pos + 8))
        } else {
            CardStandard::Iso14443A
        },
        None => CardStandard::Iso14443A,
    }
}

/// Infers the protocol family from the ATR; Type A when it cannot be told.
pub fn detect(atr: &[u8]) -> (res: CardStandard)
    ensures
        res == detect_spec(atr@),
{
    let rid: [u8; 5] = [0xA0, 0x00, 0x00, 0x03, 0x06];
    assert(rid@ =~= pcsc_rid());
    if let Some(pos) = find_subslice(atr, &rid) {
        if atr.len() >= 8 && pos <= atr.len() - 8 {
            let ss = atr[pos + 5];
            let name = [atr[pos + 6], atr[pos + 7]];
            assert(name@ =~= atr@.subrange(pos + 6, pos + 8));
            return classify(ss, &name);
        }
    }
    CardStandard::Iso14443A
}

/// The family named by the standard byte and the card name.
fn classify(ss: u8, name: &[u8; 2]) -> (res: CardStandard)
    ensures
        res == classify_spec(ss, name@),
{
    let a = name[0];
    let b = name[1];
    assert(name@ =~= seq![a, b]);
    if a == 0x00 && (b == 0x01 || b == 0x02) {
        return CardStandard::MifareClassic;
    }
    if a == 0x00 && (b == 0x03 || b == 0x3A) {
        return CardStandard::MifareUltralight;
    }
    if a == 0x00 && b == 0x3B {
        return CardStandard::Felica;
    }
    assert(name@ != seq![0x00u8, 0x01] && name@ != seq![0x00u8, 0x02]) by {
        if a != 0x00 {
            assert(seq![0x00u8, 0x01][0] == 0x00);
            assert(seq![0x00u8, 0x02][0] == 0x00);
        } else {
            assert(seq![0x00u8, 0x01][1] == 0x01);
            assert(seq![0x00u8, 0x02][1] == 0x02);
        }
    }
    assert(name@ != seq![0x00u8, 0x03] && name@ != seq![0x00u8, 0x3A]) by {
        assert(seq![0x00u8, 0x03][0] == 0x00 && seq![0x00u8, 0x03][1] == 0x03);
        assert(seq![0x00u8, 0x3A][0] == 0x00 && seq![0x00u8, 0x3A][1] == 0x3A);
    }
    assert(name@ != seq![0x00u8, 0x3B]) by {
        assert(seq![0x00u8, 0x3B][0] == 0x00 && seq![0x00u8, 0x3B][1] == 0x3B);
    }
    if ss == 0x05 || ss == 0x0B || ss == 0x0C {
        CardStandard::Iso14443B
    } else {
        CardStandard::Iso14443A
    }
}

/// The first position where a non-empty `needle` occurs in `haystack`.
pub fn find_subslice(haystack: &[u8], needle: &[u8]) -> (res: Option<usize>)
    ensures
        match res {
            Some(p) => find_sub(haystack@, needle@) == Some(p as int),
            None => find_sub(haystack@, needle@) is None,
        },
{
    let n = haystack.len();
    let m = needle.len();
    if m == 0 || n < m {
        return None;
    }
    let mut i: usize = 0;
    while i <= n - m
        invariant
            n == haystack@.len(),
            m == needle@.len(),
            0 < m <= n,
            i <= n - m + 1,
            find_sub(haystack@, needle@) == find_from(haystack@, needle@, i as int),
        decreases n - i,
    {
        let mut j: usize = 0;
        let mut same = true;
        while j < m
            invariant
                n == haystack@.len(),
                m == needle@.len(),
                i + m <= n,
                j <= m,
                same == (forall|k: int| 0 <= k < j ==> haystack@[i + k] == #[trigger] needle@[k]),
            decreases m - j,
        {
            if haystack[i + j] != needle[j] {
                same = false;
            }
            j = j + 1;
        }
        if same {
            assert(haystack@.subrange(i as int, i + m) =~= needle@);
            return Some(i);
        }
        proof {
            if haystack@.subrange(i as int, i + m) == needle@ {
                let k = choose|k: int| 0 <= k < m && haystack@[i + k] != #[trigger] needle@[k];
                assert(haystack@.subrange(i as int, i + m)[k] == haystack@[i + k]);
            }
        }
        i = i + 1;
    }
    None
}


/// Whether the five bytes of `atr` at `q` are the PC/SC RID `A0 00 00 03 06`.
pub open spec fn rid_at(atr: Seq<u8>, q: int) -> bool {
    0 <= q && q + 5 <= atr.len() && atr[q] == 0xA0 && atr[q + 1] == 0x00 && atr[q + 2] == 0x00
        && atr[q + 3] == 0x03 && atr[q + 4] == 0x06
}

proof fn lemma_rid_at(atr: Seq<u8>, q: int)
    requires
        0 <= q,
        q + 5 <= atr.len(),
    ensures
        occurs_at(atr, pcsc_rid(), q) <==> rid_at(atr, q),
{
    let w = atr.subrange(q, q + 5);
    if rid_at(atr, q) {
        assert(w =~= pcsc_rid());
    }
    if occurs_at(atr, pcsc_rid(), q) {
        assert(w[0] == pcsc_rid()[0] && w[1] == pcsc_rid()[1] && w[2] == pcsc_rid()[2]);
        assert(w[3] == pcsc_rid()[3] && w[4] == pcsc_rid()[4]);
    }
}

proof fn lemma_first_rid(atr: Seq<u8>, i: int, p: int)
    requires
        0 <= i <= p,
        p + 5 <= atr.len(),
        rid_at(atr, p),
        forall|q: int| i <= q < p ==> !rid_at(atr, q),
    ensures
        find_from(atr, pcsc_rid(), i) == Some(p),
    decreases p - i,
{
    lemma_rid_at(atr, i);
    if i < p {
        lemma_first_rid(atr, i + 1, p);
    }
}

/// The family an ATR names follows the two-byte card name after its first PC/SC RID
/// `A0 00 00 03 06` and standard byte SS: `00 01` and `00 02` are Mifare Classic (1K and 4K),
/// `00 03` and `00 3A` Mifare Ultralight, `00 3B` FeliCa; any other name is Type B when SS is
/// `05`, `0B` or `0C`, and Type A otherwise.
pub proof fn law_atr_card_names(atr: Seq<u8>, p: int)
    requires
        rid_at(atr, p),
        forall|q: int| 0 <= q < p ==> !rid_at(atr, q),
        p + 8 <= atr.len(),
    ensures
        ({
            let ss = atr[p + 5];
            let a = atr[p + 6];
            let b = atr[p + 7];
            let r = detect_spec(atr);
            &&& a == 0x00 && (b == 0x01 || b == 0x02) ==> r == CardStandard::MifareClassic
            &&& a == 0x00 && (b == 0x03 || b == 0x3A) ==> r == CardStandard::MifareUltralight
            &&& a == 0x00 && b == 0x3B ==> r == CardStandard::Felica
            &&& !(a == 0x00 && (b == 0x01 || b == 0x02 || b == 0x03 || b == 0x3A || b == 0x3B)) ==> r == if ss == 0x05
                || ss == 0x0B || ss == 0x0C {
                CardStandard::Iso14443B
            } else {
                CardStandard::Iso14443A
            }
        }),
{
    lemma_first_rid(atr, 0, p);
    let name = atr.subrange(p + 6, p + 8);
    let a = atr[p + 6];
    let b = atr[p + 7];
    assert(name =~= seq![a, b]);
    assert(seq![a, b] == seq![0x00u8, 0x01] <==> (a == 0x00 && b == 0x01)) by {
        if a == 0x00 && b == 0x01 {
            assert(seq![a, b] =~= seq![0x00u8, 0x01]);
        }
        assert(seq![0x00u8, 0x01][0] == 0x00 && seq![0x00u8, 0x01][1] == 0x01);
    }
    assert(seq![a, b] == seq![0x00u8, 0x02] <==> (a == 0x00 && b == 0x02)) by {
        if a == 0x00 && b == 0x02 {
            assert(seq![a, b] =~= seq![0x00u8, 0x02]);
        }
        assert(seq![0x00u8, 0x02][0] == 0x00 && seq![0x00u8, 0x02][1] == 0x02);
    }
    assert(seq![a, b] == seq![0x00u8, 0x03] <==> (a == 0x00 && b == 0x03)) by {
        if a == 0x00 && b == 0x03 {
            assert(seq![a, b] =~= seq![0x00u8, 0x03]);
        }
        assert(seq![0x00u8, 0x03][0] == 0x00 && seq![0x00u8, 0x03][1] == 0x03);
    }
    assert(seq![a, b] == seq![0x00u8, 0x3A] <==> (a == 0x00 && b == 0x3A)) by {
        if a == 0x00 && b == 0x3A {
            assert(seq![a, b] =~= seq![0x00u8, 0x3A]);
        }
        assert(seq![0x00u8, 0x3A][0] == 0x00 && seq![0x00u8, 0x3A][1] == 0x3A);
    }
    assert(seq![a, b] == seq![0x00u8, 0x3B] <==> (a == 0x00 && b == 0x3B)) by {
        if a == 0x00 && b == 0x3B {
            assert(seq![a, b] =~= seq![0x00u8, 0x3B]);
        }
        assert(seq![0x00u8, 0x3B][0] == 0x00 && seq![0x00u8, 0x3B][1] == 0x3B);
    }
}

} // verus!
