//! Application identifiers and command constants of the card probes.
use vstd::prelude::*;

verus! {

/// One entry of the SELECT-by-AID probe chain: card name, AID, and the key under which the
/// FCI returned by a successful SELECT is stored.
pub struct AidEntry {
    pub name: &'static str,
    pub aid: &'static [u8],
    /// The raw-field key for the FCI.
    pub key: &'static str,
}

impl AidEntry {
    /// The entry as (name, AID, key).
    pub open spec fn spec_view(&self) -> (Seq<char>, Seq<u8>, Seq<char>) {
        (self.name@, self.aid@, self.key@)
    }
}

/// The PPSE directory name `2PAY.SYS.DDF01` (contactless EMV directory).
pub open spec fn ppse_spec() -> Seq<u8> {
    seq![0x32u8, 0x50, 0x41, 0x59, 0x2E, 0x53, 0x59, 0x53, 0x2E, 0x44, 0x44, 0x46, 0x30, 0x31]
}

/// The PPSE directory name `2PAY.SYS.DDF01` (contactless EMV directory).
pub fn ppse() -> (res: &'static [u8])
    ensures
        res@ == ppse_spec(),
{
    let r: &'static [u8] = &[0x32, 0x50, 0x41, 0x59, 0x2E, 0x53, 0x59, 0x53, 0x2E, 0x44, 0x44, 0x46, 0x30, 0x31];
    assert(r@ =~= ppse_spec());
    r
}

/// The AMTJAVACARD container AID of the Macau Pass fallback path.
pub open spec fn amtjavacard_spec() -> Seq<u8> {
    seq![0x41u8, 0x4D, 0x54, 0x4A, 0x41, 0x56, 0x41, 0x43, 0x41, 0x52, 0x44]
}

/// The AMTJAVACARD container AID of the Macau Pass fallback path.
pub fn amtjavacard() -> (res: &'static [u8])
    ensures
        res@ == amtjavacard_spec(),
{
    let r: &'static [u8] = &[0x41, 0x4D, 0x54, 0x4A, 0x41, 0x56, 0x41, 0x43, 0x41, 0x52, 0x44];
    assert(r@ =~= amtjavacard_spec());
    r
}

/// The Lingnan Pass second SELECT name `PAY.TICL`.
pub open spec fn lingnan_ticl_spec() -> Seq<u8> {
    seq![0x50u8, 0x41, 0x59, 0x2E, 0x54, 0x49, 0x43, 0x4C]
}

/// The Lingnan Pass second SELECT name `PAY.TICL`.
pub fn lingnan_ticl() -> (res: &'static [u8])
    ensures
        res@ == lingnan_ticl_spec(),
{
    let r: &'static [u8] = &[0x50, 0x41, 0x59, 0x2E, 0x54, 0x49, 0x43, 0x4C];
    assert(r@ =~= lingnan_ticl_spec());
    r
}

/// The Type A probe chain, in probing order: (card name, AID, FCI key).
pub open spec fn type_a_chain_spec() -> Seq<(Seq<char>, Seq<u8>, Seq<char>)> {
    seq![
        ("ShenzhenTong"@, seq![0x50u8, 0x41, 0x59, 0x2E, 0x53, 0x5A, 0x54], "szt_fci"@),
        ("WuhanTong"@, seq![0x41u8, 0x50, 0x31, 0x2E, 0x57, 0x48, 0x43, 0x54, 0x43], "whctc_fci"@),
        ("LingnanPass"@, seq![0x50u8, 0x41, 0x59, 0x2E, 0x41, 0x50, 0x50, 0x59], "lnt_fci"@),
        ("TMoney"@, seq![0xD4u8, 0x10, 0x00, 0x00, 0x03, 0x00, 0x01], "tmoney_fci"@),
        ("MacauPass"@, seq![0xB0u8, 0xC4, 0xC3, 0xC5, 0xCD, 0xA8, 0xC7, 0xAE, 0xB0, 0xFC], "macau_fci"@),
        ("MotBmac"@, seq![0x91u8, 0x56, 0x00, 0x00, 0x14, 0x4D, 0x4F, 0x54, 0x2E, 0x42, 0x4D, 0x41, 0x43, 0x30, 0x30, 0x31], "mot_bmac_fci"@),
        ("ChinaTransit"@, seq![0xD1u8, 0x56, 0x00, 0x00, 0x15, 0xB9, 0xAB, 0xB9, 0xB2, 0xD3, 0xA6, 0xD3, 0xC3], "china_transit_fci"@),
        ("SuXin"@, seq![0x53u8, 0x55, 0x58, 0x49, 0x4E, 0x2E, 0x44, 0x44, 0x46, 0x30, 0x31], "suxin_fci"@),
        ("SzpkZyy"@, seq![0x53u8, 0x5A, 0x50, 0x4B, 0x5F, 0x5A, 0x59, 0x59], "szpk_zyy_fci"@),
        ("CityUnion"@, seq![0xA0u8, 0x00, 0x00, 0x00, 0x03, 0x86, 0x98, 0x07, 0x01], "cityunion_fci"@),
        ("TUnion"@, seq![0xA0u8, 0x00, 0x00, 0x06, 0x32, 0x01, 0x01, 0x05], "tunion_fci"@),
    ]
}

/// The Type A probe chain, in probing order.
pub fn type_a_chain() -> (res: Vec<AidEntry>)
    ensures
        res@.map_values(|e: AidEntry| e.spec_view()) == type_a_chain_spec(),
{
    let mut v: Vec<AidEntry> = Vec::new();
    let a0: &'static [u8] = &[0x50, 0x41, 0x59, 0x2E, 0x53, 0x5A, 0x54];
    assert(a0@ =~= seq![0x50u8, 0x41, 0x59, 0x2E, 0x53, 0x5A, 0x54]);
    v.push(AidEntry { name: "ShenzhenTong", aid: a0, key: "szt_fci" });
    let a1: &'static [u8] = &[0x41, 0x50, 0x31, 0x2E, 0x57, 0x48, 0x43, 0x54, 0x43];
    assert(a1@ =~= seq![0x41u8, 0x50, 0x31, 0x2E, 0x57, 0x48, 0x43, 0x54, 0x43]);
    v.push(AidEntry { name: "WuhanTong", aid: a1, key: "whctc_fci" });
    let a2: &'static [u8] = &[0x50, 0x41, 0x59, 0x2E, 0x41, 0x50, 0x50, 0x59];
    assert(a2@ =~= seq![0x50u8, 0x41, 0x59, 0x2E, 0x41, 0x50, 0x50, 0x59]);
    v.push(AidEntry { name: "LingnanPass", aid: a2, key: "lnt_fci" });
    let a3: &'static [u8] = &[0xD4, 0x10, 0x00, 0x00, 0x03, 0x00, 0x01];
    assert(a3@ =~= seq![0xD4u8, 0x10, 0x00, 0x00, 0x03, 0x00, 0x01]);
    v.push(AidEntry { name: "TMoney", aid: a3, key: "tmoney_fci" });
    let a4: &'static [u8] = &[0xB0, 0xC4, 0xC3, 0xC5, 0xCD, 0xA8, 0xC7, 0xAE, 0xB0, 0xFC];
    assert(a4@ =~= seq![0xB0u8, 0xC4, 0xC3, 0xC5, 0xCD, 0xA8, 0xC7, 0xAE, 0xB0, 0xFC]);
    v.push(AidEntry { name: "MacauPass", aid: a4, key: "macau_fci" });
    let a5: &'static [u8] = &[0x91, 0x56, 0x00, 0x00, 0x14, 0x4D, 0x4F, 0x54, 0x2E, 0x42, 0x4D, 0x41, 0x43, 0x30, 0x30, 0x31];
    assert(a5@ =~= seq![0x91u8, 0x56, 0x00, 0x00, 0x14, 0x4D, 0x4F, 0x54, 0x2E, 0x42, 0x4D, 0x41, 0x43, 0x30, 0x30, 0x31]);
    v.push(AidEntry { name: "MotBmac", aid: a5, key: "mot_bmac_fci" });
    let a6: &'static [u8] = &[0xD1, 0x56, 0x00, 0x00, 0x15, 0xB9, 0xAB, 0xB9, 0xB2, 0xD3, 0xA6, 0xD3, 0xC3];
    assert(a6@ =~= seq![0xD1u8, 0x56, 0x00, 0x00, 0x15, 0xB9, 0xAB, 0xB9, 0xB2, 0xD3, 0xA6, 0xD3, 0xC3]);
    v.push(AidEntry { name: "ChinaTransit", aid: a6, key: "china_transit_fci" });
    let a7: &'static [u8] = &[0x53, 0x55, 0x58, 0x49, 0x4E, 0x2E, 0x44, 0x44, 0x46, 0x30, 0x31];
    assert(a7@ =~= seq![0x53u8, 0x55, 0x58, 0x49, 0x4E, 0x2E, 0x44, 0x44, 0x46, 0x30, 0x31]);
    v.push(AidEntry { name: "SuXin", aid: a7, key: "suxin_fci" });
    let a8: &'static [u8] = &[0x53, 0x5A, 0x50, 0x4B, 0x5F, 0x5A, 0x59, 0x59];
    assert(a8@ =~= seq![0x53u8, 0x5A, 0x50, 0x4B, 0x5F, 0x5A, 0x59, 0x59]);
    v.push(AidEntry { name: "SzpkZyy", aid: a8, key: "szpk_zyy_fci" });
    let a9: &'static [u8] = &[0xA0, 0x00, 0x00, 0x00, 0x03, 0x86, 0x98, 0x07, 0x01];
    assert(a9@ =~= seq![0xA0u8, 0x00, 0x00, 0x00, 0x03, 0x86, 0x98, 0x07, 0x01]);
    v.push(AidEntry { name: "CityUnion", aid: a9, key: "cityunion_fci" });
    let a10: &'static [u8] = &[0xA0, 0x00, 0x00, 0x06, 0x32, 0x01, 0x01, 0x05];
    assert(a10@ =~= seq![0xA0u8, 0x00, 0x00, 0x06, 0x32, 0x01, 0x01, 0x05]);
    v.push(AidEntry { name: "TUnion", aid: a10, key: "tunion_fci" });
    assert(v@.map_values(|e: AidEntry| e.spec_view()) =~= type_a_chain_spec());
    v
}

/// EMV AID prefixes (hexadecimal) and the brand each names, in matching order.
pub open spec fn emv_aid_names_spec() -> Seq<(Seq<char>, Seq<char>)> {
    seq![
        ("A000000333010101"@, "UnionPay-Debit"@),
        ("A000000333010102"@, "UnionPay-Credit"@),
        ("A000000333010103"@, "UnionPay-SecuredCredit"@),
        ("A000000003"@, "Visa"@),
        ("A000000004"@, "MasterCard"@),
        ("A000000010"@, "MasterCard-China"@),
        ("A000000025"@, "AMEX"@),
        ("A000000065"@, "JCB"@),
        ("A000000324"@, "Discover"@),
        ("A000000790"@, "AMEX-China"@),
    ]
}

/// EMV AID prefixes (hexadecimal) and the brand each names, in matching order.
pub fn emv_aid_names() -> (res: Vec<(&'static str, &'static str)>)
    ensures
        res@.map_values(|p: (&'static str, &'static str)| (p.0@, p.1@)) == emv_aid_names_spec(),
{
    let mut v: Vec<(&'static str, &'static str)> = Vec::new();
    v.push(("A000000333010101", "UnionPay-Debit"));
    v.push(("A000000333010102", "UnionPay-Credit"));
    v.push(("A000000333010103", "UnionPay-SecuredCredit"));
    v.push(("A000000003", "Visa"));
    v.push(("A000000004", "MasterCard"));
    v.push(("A000000010", "MasterCard-China"));
    v.push(("A000000025", "AMEX"));
    v.push(("A000000065", "JCB"));
    v.push(("A000000324", "Discover"));
    v.push(("A000000790", "AMEX-China"));
    assert(v@.map_values(|p: (&'static str, &'static str)| (p.0@, p.1@)) =~= emv_aid_names_spec());
    v
}

} // verus!
