//! Decoding a whole read: dispatch by card type and sub-card, and folding several transit
//! protocols found on one chip into one combined card.
use vstd::prelude::*;
use crate::cards::{join_names, join_plus};
use crate::model::names_view;
use crate::text::{str_eq, strings_view, to_owned_string, opt_text};
use super::model::{ParsedCard, ProtocolSection, Transaction};
use super::order::{complete_lingnan_transaction_years, sort_newest_first, stable_sorted, years_completed};

verus! {

/// The readable names of the transit cards.
pub open spec fn is_transit_name(n: Seq<char>) -> bool {
    n == "深圳通"@ || n == "武汉通"@ || n == "岭南通"@ || n == "城市一卡通"@ || n == "交通联合"@ || n == "澳门通"@
        || n == "北京一卡通"@ || n == "T-Money"@
}

/// Whether a decoded card is a transit card, by its name.
pub fn is_transit_card(card: &ParsedCard) -> (res: bool)
    ensures
        res == is_transit_name(card.name@),
{
    let n = card.name.as_str();
    str_eq(n, "深圳通") || str_eq(n, "武汉通") || str_eq(n, "岭南通") || str_eq(n, "城市一卡通") || str_eq(n, "交通联合")
        || str_eq(n, "澳门通") || str_eq(n, "北京一卡通") || str_eq(n, "T-Money")
}

/// The transit cards among `cards`, in order.
pub open spec fn transit_cards_of(cards: Seq<ParsedCard>) -> Seq<ParsedCard>
    decreases cards.len(),
{
    if cards.len() == 0 {
        Seq::empty()
    } else if is_transit_name(cards.last().name@) {
        transit_cards_of(cards.drop_last()).push(cards.last())
    } else {
        transit_cards_of(cards.drop_last())
    }
}

/// The other cards among `cards`, in order.
pub open spec fn other_cards_of(cards: Seq<ParsedCard>) -> Seq<ParsedCard>
    decreases cards.len(),
{
    if cards.len() == 0 {
        Seq::empty()
    } else if is_transit_name(cards.last().name@) {
        other_cards_of(cards.drop_last())
    } else {
        other_cards_of(cards.drop_last()).push(cards.last())
    }
}

/// The position of the first transit card, from `i` on.
pub open spec fn first_transit_from(cards: Seq<ParsedCard>, i: int) -> int
    decreases cards.len() - i,
{
    if i < 0 || i >= cards.len() {
        cards.len() as int
    } else if is_transit_name(cards[i].name@) {
        i
    } else {
        first_transit_from(cards, i + 1)
    }
}

/// The number of the first card with a number.
pub open spec fn first_number(cards: Seq<ParsedCard>) -> Option<Seq<char>>
    decreases cards.len(),
{
    if cards.len() == 0 {
        None
    } else {
        match cards[0].number {
            Some(n) => Some(n@),
            None => first_number(cards.drop_first()),
        }
    }
}

/// The position of the first T-Union card, if any.
pub open spec fn first_tunion(cards: Seq<ParsedCard>, i: int) -> Option<int>
    decreases cards.len() - i,
{
    if i < 0 || i >= cards.len() {
        None
    } else if cards[i].name@ == "交通联合"@ {
        Some(i)
    } else {
        first_tunion(cards, i + 1)
    }
}

/// The number of the combined card: that of the first T-Union card when it has one, else that
/// of the first card with a number.
pub open spec fn combined_number(cards: Seq<ParsedCard>) -> Option<Seq<char>> {
    match first_tunion(cards, 0) {
        Some(i) => match cards[i].number {
            Some(n) => Some(n@),
            None => first_number(cards),
        },
        None => first_number(cards),
    }
}

/// A transaction taken over with its source set, everything else unchanged.
pub open spec fn sourced(t: Transaction, r: Transaction, source: Seq<char>) -> bool {
    &&& r.source@ == source
    &&& r.seq == t.seq
    &&& r.kind == t.kind
    &&& r.amount == t.amount
    &&& r.date == t.date
    &&& r.time == t.time
    &&& r.terminal == t.terminal
    &&& r.aux == t.aux
    &&& r.trip_kind == t.trip_kind
    &&& r.balance_after == t.balance_after
    &&& r.line_station == t.line_station
}

/// `all` is the transactions of the cards, card after card, each with its card's name as
/// source.
pub open spec fn tagged(cards: Seq<ParsedCard>, all: Seq<Transaction>) -> bool
    decreases cards.len(),
{
    if cards.len() == 0 {
        all.len() == 0
    } else {
        let c = cards.last();
        let ts = c.transactions@;
        let k = all.len() - ts.len();
        &&& k >= 0
        &&& forall|i: int| 0 <= i < ts.len() ==> sourced(ts[i], #[trigger] all[k + i], c.name@)
        &&& tagged(cards.drop_last(), all.subrange(0, k))
    }
}

/// The protocol section of a card.
pub open spec fn section_of(c: ParsedCard, s: ProtocolSection) -> bool {
    &&& s.name == c.name
    &&& s.number == c.number
    &&& s.balance == c.balance
    &&& s.currency == c.currency
    &&& s.fields == c.fields
    &&& s.notes == c.notes
}

/// The card that combines several transit cards: the names joined with `+`, the number of
/// `combined_number`, the first card's currency, one protocol section per card, and all the
/// transactions, tagged with their card (`tagged`), Lingnan Pass years completed
/// (`years_completed`) and sorted newest first (`stable_sorted`).
pub open spec fn combined_from(tcards: Seq<ParsedCard>, c: ParsedCard) -> bool {
    &&& c.name@ == join_plus(tcards.map_values(|x: ParsedCard| x.name@))
    &&& opt_text(c.number) == combined_number(tcards)
    &&& c.currency@ == tcards[0].currency@
    &&& c.balance is None
    &&& c.fields@.len() == 0
    &&& c.notes@.len() == 0
    &&& c.protocols@.len() == tcards.len()
    &&& forall|i: int| 0 <= i < tcards.len() ==> section_of(tcards[i], #[trigger] c.protocols@[i])
    &&& exists|all: Seq<Transaction>, done: Seq<Transaction>|
        #![trigger tagged(tcards, all), years_completed(all, done)]
        tagged(tcards, all) && years_completed(all, done) && stable_sorted(done, c.transactions@)
}

/// The cards after folding: with two or more transit cards, these are replaced by one combined
/// card (`combined_from`) standing where the first of them stood; otherwise unchanged.
pub open spec fn folded(cards: Seq<ParsedCard>, res: Seq<ParsedCard>) -> bool {
    let tc = transit_cards_of(cards);
    if tc.len() < 2 {
        res == cards
    } else {
        let at = first_transit_from(cards, 0);
        let others = other_cards_of(cards);
        &&& res.len() == others.len() + 1
        &&& res.subrange(0, at) == others.subrange(0, at)
        &&& combined_from(tc, res[at])
        &&& res.subrange(at + 1, res.len() as int) == others.subrange(at, others.len() as int)
    }
}

/// The names of cards.
pub open spec fn card_names(cards: Seq<ParsedCard>) -> Seq<Seq<char>> {
    cards.map_values(|x: ParsedCard| x.name@)
}

fn tunion_index(cards: &Vec<ParsedCard>) -> (res: Option<usize>)
    ensures
        match res {
            Some(i) => i < cards@.len() && first_tunion(cards@, 0) == Some(i as int),
            None => first_tunion(cards@, 0) is None,
        },
{
    let mut i: usize = 0;
    while i < cards.len()
        invariant
            i <= cards@.len(),
            first_tunion(cards@, 0) == first_tunion(cards@, i as int),
        decreases cards@.len() - i,
    {
        if str_eq(cards[i].name.as_str(), "交通联合") {
            return Some(i);
        }
        i = i + 1;
    }
    None
}

fn combined_number_of(tcards: &Vec<ParsedCard>) -> (res: Option<String>)
    ensures
        opt_text(res) == combined_number(tcards@),
{
    let n = tcards.len();
    if let Some(i) = tunion_index(tcards) {
        if let Some(num) = &tcards[i].number {
            return Some(to_owned_string(num.as_str()));
        }
    }
    assert(tcards@.subrange(0, n as int) =~= tcards@);
    assert(combined_number(tcards@) == first_number(tcards@));
    let mut j: usize = 0;
    while j < n
        invariant
            n == tcards@.len(),
            combined_number(tcards@) == first_number(tcards@),
            j <= n,
            first_number(tcards@) == first_number(tcards@.subrange(j as int, n as int)),
        decreases n - j,
    {
        let ghost rest = tcards@.subrange(j as int, n as int);
        assert(rest[0] == tcards@[j as int]);
        if let Some(num) = &tcards[j].number {
            return Some(to_owned_string(num.as_str()));
        }
        assert(rest.drop_first() =~= tcards@.subrange(j + 1, n as int));
        j = j + 1;
    }
    assert(tcards@.subrange(n as int, n as int).len() == 0);
    None
}

/// Combines transit cards into one (`combined_from`).
fn combine_transit(tcards: Vec<ParsedCard>) -> (res: ParsedCard)
    requires
        tcards@.len() >= 1,
    ensures
        combined_from(tcards@, res),
{
    let ghost orig = tcards@;
    let total = tcards.len();
    assert(orig.len() == total);
    let mut names: Vec<String> = Vec::new();
    let mut i: usize = 0;
    while i < tcards.len()
        invariant
            i <= tcards@.len(),
            names@.len() == i,
            forall|q: int| 0 <= q < i ==> (#[trigger] names@[q])@ == tcards@[q].name@,
        decreases tcards@.len() - i,
    {
        names.push(to_owned_string(tcards[i].name.as_str()));
        i = i + 1;
    }
    assert(strings_view(names@) =~= card_names(tcards@));
    assert(names_view(names@) == strings_view(names@));
    let name = join_names(&names);
    let mut combined = ParsedCard::new(name.as_str());
    combined.number = combined_number_of(&tcards);
    combined.currency = to_owned_string(tcards[0].currency.as_str());
    let mut rest = tcards;
    let mut all: Vec<Transaction> = Vec::new();
    let mut k: usize = 0;
    while rest.len() > 0
        invariant
            k + rest@.len() == orig.len(),
            orig.len() <= usize::MAX,
            rest@ == orig.subrange(k as int, orig.len() as int),
            combined.name@ == join_plus(orig.map_values(|x: ParsedCard| x.name@)),
            opt_text(combined.number) == combined_number(orig),
            combined.currency@ == orig[0].currency@,
            combined.balance is None,
            combined.fields@.len() == 0,
            combined.notes@.len() == 0,
            combined.protocols@.len() == k,
            forall|q: int| 0 <= q < k ==> section_of(orig[q], #[trigger] combined.protocols@[q]),
            tagged(orig.subrange(0, k as int), all@),
        decreases rest@.len(),
    {
        let card = rest.remove(0);
        assert(card == orig[k as int]);
        let source = to_owned_string(card.name.as_str());
        let ghost before_all = all@;
        let ghost cts = card.transactions@;
        let tlen = card.transactions.len();
        assert(cts.len() == tlen);
        let mut ts = card.transactions;
        let mut m: usize = 0;
        while ts.len() > 0
            invariant
                m + ts@.len() == cts.len(),
                cts.len() <= usize::MAX,
                ts@ == cts.subrange(m as int, cts.len() as int),
                all@.len() == before_all.len() + m,
                all@.subrange(0, before_all.len() as int) == before_all,
                forall|q: int| 0 <= q < m ==> sourced(cts[q], #[trigger] all@[before_all.len() + q], source@),
            decreases ts@.len(),
        {
            let mut t = ts.remove(0);
            assert(t == cts[m as int]);
            t.source = to_owned_string(source.as_str());
            all.push(t);
            m = m + 1;
            assert(ts@ =~= cts.subrange(m as int, cts.len() as int));
            assert(all@.subrange(0, before_all.len() as int) =~= before_all);
        }
        proof {
            let nk = orig.subrange(0, k + 1);
            assert(nk.drop_last() =~= orig.subrange(0, k as int));
            assert(nk.last() == orig[k as int]);
            assert(all@.subrange(0, all@.len() - cts.len()) =~= before_all);
        }
        combined.protocols.push(ProtocolSection {
            name: card.name,
            number: card.number,
            balance: card.balance,
            currency: card.currency,
            fields: card.fields,
            notes: card.notes,
        });
        k = k + 1;
        assert(rest@ =~= orig.subrange(k as int, orig.len() as int));
    }
    assert(orig.subrange(0, k as int) =~= orig);
    let ghost tagged_all = all@;
    complete_lingnan_transaction_years(&mut all);
    let ghost done = all@;
    combined.transactions = sort_newest_first(all);
    assert(tagged(orig, tagged_all) && years_completed(tagged_all, done));
    combined
}

fn transit_count(cards: &Vec<ParsedCard>) -> (res: usize)
    ensures
        res == transit_cards_of(cards@).len(),
{
    let mut count: usize = 0;
    let mut i: usize = 0;
    while i < cards.len()
        invariant
            i <= cards@.len(),
            count <= i,
            count == transit_cards_of(cards@.subrange(0, i as int)).len(),
        decreases cards@.len() - i,
    {
        let ghost pre = cards@.subrange(0, i + 1);
        assert(pre.drop_last() =~= cards@.subrange(0, i as int));
        assert(pre.last() == cards@[i as int]);
        if is_transit_card(&cards[i]) {
            count = count + 1;
        }
        i = i + 1;
    }
    assert(cards@.subrange(0, cards@.len() as int) =~= cards@);
    count
}

/// Folds two or more transit cards into one combined card (`folded`).
pub fn fold_multi_transit_cards(cards: &mut Vec<ParsedCard>)
    ensures
        folded(old(cards)@, final(cards)@),
{
    let count = transit_count(cards);
    if count < 2 {
        return;
    }
    let mut src: Vec<ParsedCard> = Vec::new();
    std::mem::swap(&mut src, cards);
    let ghost orig = src@;
    let total = src.len();
    let mut others: Vec<ParsedCard> = Vec::new();
    let mut tcards: Vec<ParsedCard> = Vec::new();
    let mut at: usize = 0;
    let mut seen = false;
    let mut k: usize = 0;
    while src.len() > 0
        invariant
            total == orig.len(),
            k + src@.len() == total,
            src@ == orig.subrange(k as int, total as int),
            tcards@ == transit_cards_of(orig.subrange(0, k as int)),
            others@ == other_cards_of(orig.subrange(0, k as int)),
            !seen ==> tcards@.len() == 0,
            !seen ==> others@ == orig.subrange(0, k as int),
            !seen ==> first_transit_from(orig, 0) == first_transit_from(orig, k as int),
            seen ==> at == first_transit_from(orig, 0),
            seen ==> at <= others@.len(),
            seen ==> others@.subrange(0, at as int) == orig.subrange(0, at as int),
        decreases src@.len(),
    {
        let card = src.remove(0);
        let ghost pre = orig.subrange(0, k + 1);
        assert(pre.drop_last() =~= orig.subrange(0, k as int));
        assert(pre.last() == orig[k as int]);
        assert(card == orig[k as int]);
        if is_transit_card(&card) {
            if !seen {
                at = others.len();
                seen = true;
            }
            tcards.push(card);
        } else {
            let ghost before = others@;
            others.push(card);
            assert(others@.subrange(0, before.len() as int) =~= before);
            proof {
                if !seen {
                    assert(others@ =~= orig.subrange(0, k + 1));
                } else {
                    assert(others@.subrange(0, at as int) =~= before.subrange(0, at as int));
                }
            }
        }
        k = k + 1;
        assert(src@ =~= orig.subrange(k as int, total as int));
    }
    assert(orig.subrange(0, total as int) =~= orig);
    let ghost others_v = others@;
    let ghost tc = tcards@;
    let combined = combine_transit(tcards);
    others.insert(at, combined);
    proof {
        assert(others@.subrange(0, at as int) =~= others_v.subrange(0, at as int));
        assert(others@.subrange(at + 1, others@.len() as int) =~= others_v.subrange(at as int, others_v.len() as int));
        assert(others@[at as int] == combined);
    }
    *cards = others;
}

} // verus!
