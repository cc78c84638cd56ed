//! Cryptographic primitives of BAC (ICAO 9303 Part 11): DES / two-key 3DES in CBC and ECB mode
//! through the `des`, `cbc` and `ecb` crates, SHA-1 through `sha1`, the retail MAC, key
//! derivation with DES parity, and ISO 9797-1 method 2 padding.
use vstd::prelude::*;
use cbc::cipher::block_padding::NoPadding as NoPad;
use cbc::cipher::{BlockDecryptMut, BlockEncryptMut, KeyInit, KeyIvInit};
use sha1::Digest;

verus! {

/// What `sha1::Sha1` computes for a byte string (the 20-byte SHA-1 digest).
pub uninterp spec fn sha1_spec(data: Seq<u8>) -> Seq<u8>;

/// What two-key 3DES (`des::TdesEde2`) in CBC mode with a zero IV and no padding computes.
pub uninterp spec fn tdes_cbc_enc_spec(key: Seq<u8>, data: Seq<u8>) -> Seq<u8>;

/// What two-key 3DES CBC decryption with a zero IV and no padding computes.
pub uninterp spec fn tdes_cbc_dec_spec(key: Seq<u8>, data: Seq<u8>) -> Seq<u8>;

/// What single DES (`des::Des`) in CBC mode with a zero IV and no padding computes.
pub uninterp spec fn des_cbc_enc_spec(key: Seq<u8>, data: Seq<u8>) -> Seq<u8>;

/// What single DES in ECB mode computes (encryption).
pub uninterp spec fn des_ecb_enc_spec(key: Seq<u8>, data: Seq<u8>) -> Seq<u8>;

/// What single DES in ECB mode computes (decryption).
pub uninterp spec fn des_ecb_dec_spec(key: Seq<u8>, data: Seq<u8>) -> Seq<u8>;

/// `sha1::Sha1` over `data`: the SHA-1 digest, 20 bytes.
#[verifier::external_body]
fn sha1_digest(data: &[u8]) -> (res: Vec<u8>)
    ensures
        res@ == sha1_spec(data@),
        res@.len() == 20,
{
    let mut h = sha1::Sha1::new();
    h.update(data);
    h.finalize().to_vec()
}

/// `cbc::Encryptor<des::TdesEde2>` with a zero IV, `NoPadding`: 3DES-CBC encryption of a
/// whole number of blocks under a 16-byte key; the output has the length of the input.
#[verifier::external_body]
pub fn tdes_cbc_encrypt(key: &[u8], data: &[u8]) -> (res: Vec<u8>)
    requires
        key@.len() == 16,
        data@.len() % 8 == 0,
    ensures
        res@ == tdes_cbc_enc_spec(key@, data@),
        res@.len() == data@.len(),
{
    let iv = [0u8; 8];
    let mut buf = data.to_vec();
    let enc = cbc::Encryptor::<des::TdesEde2>::new_from_slices(key, &iv).expect("3des key/iv");
    enc.encrypt_padded_mut::<NoPad>(&mut buf, data.len()).expect("cbc enc").to_vec()
}

/// `cbc::Decryptor<des::TdesEde2>` with a zero IV, `NoPadding`: 3DES-CBC decryption of a
/// whole number of blocks under a 16-byte key; the output has the length of the input.
#[verifier::external_body]
pub fn tdes_cbc_decrypt(key: &[u8], data: &[u8]) -> (res: Vec<u8>)
    requires
        key@.len() == 16,
        data@.len() % 8 == 0,
    ensures
        res@ == tdes_cbc_dec_spec(key@, data@),
        res@.len() == data@.len(),
{
    let iv = [0u8; 8];
    let mut buf = data.to_vec();
    let dec = cbc::Decryptor::<des::TdesEde2>::new_from_slices(key, &iv).expect("3des key/iv");
    dec.decrypt_padded_mut::<NoPad>(&mut buf).expect("cbc dec").to_vec()
}

/// `cbc::Encryptor<des::Des>` with a zero IV, `NoPadding`: DES-CBC encryption of a whole
/// number of blocks under an 8-byte key; the output has the length of the input.
#[verifier::external_body]
fn des_cbc_encrypt(key: &[u8], data: &[u8]) -> (res: Vec<u8>)
    requires
        key@.len() == 8,
        data@.len() % 8 == 0,
    ensures
        res@ == des_cbc_enc_spec(key@, data@),
        res@.len() == data@.len(),
{
    let iv = [0u8; 8];
    let mut buf = data.to_vec();
    let enc = cbc::Encryptor::<des::Des>::new_from_slices(key, &iv).expect("des key/iv");
    enc.encrypt_padded_mut::<NoPad>(&mut buf, data.len()).expect("des cbc enc").to_vec()
}

/// `ecb::Encryptor<des::Des>`, `NoPadding`: DES encryption of one 8-byte block under an
/// 8-byte key.
#[verifier::external_body]
fn des_ecb_encrypt(key: &[u8], block: &[u8]) -> (res: Vec<u8>)
    requires
        key@.len() == 8,
        block@.len() == 8,
    ensures
        res@ == des_ecb_enc_spec(key@, block@),
        res@.len() == 8,
{
    let mut buf = block.to_vec();
    let enc = ecb::Encryptor::<des::Des>::new_from_slice(key).expect("des key");
    enc.encrypt_padded_mut::<NoPad>(&mut buf, block.len()).expect("des ecb enc").to_vec()
}

/// `ecb::Decryptor<des::Des>`, `NoPadding`: DES decryption of one 8-byte block under an
/// 8-byte key.
#[verifier::external_body]
fn des_ecb_decrypt(key: &[u8], block: &[u8]) -> (res: Vec<u8>)
    requires
        key@.len() == 8,
        block@.len() == 8,
    ensures
        res@ == des_ecb_dec_spec(key@, block@),
        res@.len() == 8,
{
    let mut buf = block.to_vec();
    let dec = ecb::Decryptor::<des::Des>::new_from_slice(key).expect("des key");
    dec.decrypt_padded_mut::<NoPad>(&mut buf).expect("des ecb dec").to_vec()
}

/// Number of zero bytes that method 2 padding adds after `0x80` to a message of `n` bytes.
pub open spec fn pad_zeros(n: nat) -> nat {
    ((8 - (n + 1) % 8) % 8) as nat
}

/// ISO 9797-1 method 2 padding: `0x80`, then zeros up to a multiple of eight bytes.
pub open spec fn pad_spec(data: Seq<u8>) -> Seq<u8> {
    data.push(0x80) + Seq::new(pad_zeros(data.len()), |i: int| 0u8)
}

/// Number of trailing zero bytes.
pub open spec fn trailing_zeros(data: Seq<u8>) -> nat
    decreases data.len(),
{
    if data.len() > 0 && data.last() == 0 {
        1 + trailing_zeros(data.drop_last())
    } else {
        0
    }
}

/// Removal of method 2 padding: when the last byte that is not zero is `0x80`, everything
/// before it; otherwise the data unchanged.
pub open spec fn unpad_spec(data: Seq<u8>) -> Seq<u8> {
    let z = trailing_zeros(data);
    if z < data.len() && data[data.len() - 1 - z] == 0x80 {
        data.subrange(0, data.len() - 1 - z)
    } else {
        data
    }
}

/// ISO 9797-1 method 2 padding: appends `0x80`, then zeros up to a multiple of eight bytes.
pub fn pad(data: &[u8]) -> (res: Vec<u8>)
    ensures
        res@ == pad_spec(data@),
        res@.len() % 8 == 0,
        res@.len() > data@.len(),
{
    let mut v = vstd::slice::slice_to_vec(data);
    v.push(0x80);
    let ghost start = v@;
    while v.len() % 8 != 0
        invariant
            start == data@.push(0x80),
            v@.len() <= data@.len() + 8,
            v@.len() >= start.len(),
            v@ == start + Seq::new((v@.len() - start.len()) as nat, |i: int| 0u8),
            (v@.len() - start.len()) <= pad_zeros(data@.len()),
        decreases 8 - (v@.len() - start.len()),
    {
        v.push(0x00);
        assert(v@ =~= start + Seq::new((v@.len() - start.len()) as nat, |i: int| 0u8));
    }
    assert(v@.len() - start.len() == pad_zeros(data@.len()));
    v
}

/// Removes method 2 padding: finds the last byte that is not zero; when it is `0x80` the
/// bytes before it are returned, otherwise the data unchanged.
pub fn unpad(data: &[u8]) -> (res: Vec<u8>)
    ensures
        res@ == unpad_spec(data@),
{
    let mut i = data.len();
    assert(data@.subrange(0, i as int) =~= data@);
    while i > 0 && data[i - 1] == 0x00
        invariant
            i <= data@.len(),
            trailing_zeros(data@) == (data@.len() - i) + trailing_zeros(data@.subrange(0, i as int)),
        decreases i,
    {
        let ghost s = data@.subrange(0, i as int);
        assert(s.drop_last() =~= data@.subrange(0, i - 1));
        i = i - 1;
    }
    let ghost s = data@.subrange(0, i as int);
    assert(trailing_zeros(s) == 0);
    if i > 0 && data[i - 1] == 0x80 {
        return vstd::slice::slice_to_vec(vstd::slice::slice_subrange(data, 0, i - 1));
    }
    vstd::slice::slice_to_vec(data)
}

/// Removing the padding of a padded message gives the message back.
pub proof fn law_unpad_pad(data: Seq<u8>)
    ensures
        unpad_spec(pad_spec(data)) == data,
{
    let p = pad_spec(data);
    let z = pad_zeros(data.len());
    let zeros = Seq::new(z, |i: int| 0u8);
    assert forall|k: nat| k <= z implies trailing_zeros(#[trigger] p.subrange(0, (data.len() + 1 + k) as int)) == k by {
        lemma_trailing_zeros_run(data, z, k);
    }
    assert(p.subrange(0, (data.len() + 1 + z) as int) =~= p);
    assert(p[data.len() as int] == 0x80);
    assert(p.subrange(0, data.len() as int) =~= data);
}

proof fn lemma_trailing_zeros_run(data: Seq<u8>, z: nat, k: nat)
    requires
        k <= z,
    ensures
        trailing_zeros((data.push(0x80) + Seq::new(z, |i: int| 0u8)).subrange(0, (data.len() + 1 + k) as int)) == k,
    decreases k,
{
    let p = data.push(0x80) + Seq::new(z, |i: int| 0u8);
    let s = p.subrange(0, (data.len() + 1 + k) as int);
    if k == 0 {
        assert(s.last() == 0x80);
    } else {
        assert(s.drop_last() =~= p.subrange(0, (data.len() + 1 + (k - 1)) as int));
        lemma_trailing_zeros_run(data, z, (k - 1) as nat);
    }
}

/// ISO 9797-1 MAC algorithm 3 (retail MAC) over a padded message with a 16-byte key
/// `Ka || Kb`: DES-CBC under `Ka`, its last block decrypted under `Kb`, then encrypted
/// under `Ka`.
pub open spec fn retail_mac_spec(key: Seq<u8>, message: Seq<u8>) -> Seq<u8> {
    let ka = key.subrange(0, 8);
    let kb = key.subrange(8, 16);
    let c = des_cbc_enc_spec(ka, message);
    des_ecb_enc_spec(ka, des_ecb_dec_spec(kb, c.subrange(c.len() - 8, c.len() as int)))
}

/// The retail MAC of a message already padded to a non-zero multiple of eight bytes, under
/// the first 16 bytes of `key`; 8 bytes.
pub fn retail_mac(key: &[u8], message: &[u8]) -> (res: Vec<u8>)
    requires
        key@.len() >= 16,
        message@.len() >= 8,
        message@.len() % 8 == 0,
    ensures
        res@ == retail_mac_spec(key@.subrange(0, 16), message@),
        res@.len() == 8,
{
    let ka = vstd::slice::slice_subrange(key, 0, 8);
    let kb = vstd::slice::slice_subrange(key, 8, 16);
    let cbc = des_cbc_encrypt(ka, message);
    let last = vstd::slice::slice_subrange(cbc.as_slice(), cbc.len() - 8, cbc.len());
    let y = des_ecb_decrypt(kb, last);
    let res = des_ecb_encrypt(ka, y.as_slice());
    assert(ka@ =~= key@.subrange(0, 16).subrange(0, 8));
    assert(kb@ =~= key@.subrange(0, 16).subrange(8, 16));
    res
}

/// `Kseed = SHA-1(MRZ key)[0..16]`, over the UTF-8 bytes of the MRZ key.
pub open spec fn kseed_spec(mrz_key: Seq<char>) -> Seq<u8> {
    sha1_spec(vstd::utf8::encode_utf8(mrz_key)).subrange(0, 16)
}

/// `Kseed = SHA-1(MRZ key)[0..16]`.
pub fn generate_kseed(mrz_key: &str) -> (res: Vec<u8>)
    ensures
        res@ == kseed_spec(mrz_key@),
        res@.len() == 16,
{
    let h = sha1_digest(mrz_key.as_bytes());
    vstd::slice::slice_to_vec(vstd::slice::slice_subrange(h.as_slice(), 0, 16))
}

/// Number of bits set in a byte.
pub open spec fn ones(b: u8) -> u8 {
    ((b & 1) + ((b >> 1) & 1) + ((b >> 2) & 1) + ((b >> 3) & 1) + ((b >> 4) & 1) + ((b >> 5) & 1)
        + ((b >> 6) & 1) + ((b >> 7) & 1)) as u8
}

/// DES odd parity of one byte: the lowest bit is flipped when the number of set bits is even.
pub open spec fn parity_byte(b: u8) -> u8 {
    if ones(b) % 2 == 0 {
        b ^ 1
    } else {
        b
    }
}

/// DES odd parity of each byte.
pub open spec fn parity_spec(bytes: Seq<u8>) -> Seq<u8> {
    bytes.map_values(|b: u8| parity_byte(b))
}

/// Every byte out of the parity adjustment has an odd number of bits set, and differs from
/// its input at most in the lowest bit.
pub proof fn law_parity_odd(b: u8)
    ensures
        ones(parity_byte(b)) % 2 == 1,
        parity_byte(b) >> 1 == b >> 1,
{
    assert(ones(b) % 2 == 0 ==> ones(b ^ 1) % 2 == 1 && (b ^ 1) >> 1 == b >> 1) by (bit_vector);
}

fn ones_exec(b: u8) -> (res: u8)
    ensures
        res == ones(b),
{
    assert((b & 1) <= 1 && ((b >> 1) & 1) <= 1 && ((b >> 2) & 1) <= 1 && ((b >> 3) & 1) <= 1
        && ((b >> 4) & 1) <= 1 && ((b >> 5) & 1) <= 1 && ((b >> 6) & 1) <= 1 && ((b >> 7) & 1) <= 1) by (bit_vector);
    (b & 1) + ((b >> 1) & 1) + ((b >> 2) & 1) + ((b >> 3) & 1) + ((b >> 4) & 1) + ((b >> 5) & 1)
        + ((b >> 6) & 1) + ((b >> 7) & 1)
}

/// DES odd parity: each byte's lowest bit is adjusted so that it has an odd number of bits set.
fn adjust_parity(bytes: &[u8]) -> (res: Vec<u8>)
    ensures
        res@ == parity_spec(bytes@),
{
    let mut out: Vec<u8> = Vec::new();
    let mut i: usize = 0;
    while i < bytes.len()
        invariant
            i <= bytes@.len(),
            out@ == parity_spec(bytes@.subrange(0, i as int)),
        decreases bytes@.len() - i,
    {
        let b = bytes[i];
        let v = if ones_exec(b) % 2 == 0 { b ^ 0x01 } else { b };
        out.push(v);
        i = i + 1;
        assert(out@ =~= parity_spec(bytes@.subrange(0, i as int)));
    }
    assert(bytes@.subrange(0, i as int) =~= bytes@);
    out
}

/// ICAO key derivation: `H = SHA-1(Kseed || 00 00 00 mode)`, key = parity(`H[0..8]`) ||
/// parity(`H[8..16]`) (mode 1 encryption, mode 2 MAC).
pub open spec fn derive_key_spec(kseed: Seq<u8>, mode: u8) -> Seq<u8> {
    let h = sha1_spec(kseed + seq![0x00u8, 0x00, 0x00, mode]);
    parity_spec(h.subrange(0, 8)) + parity_spec(h.subrange(8, 16))
}

/// ICAO key derivation of a 16-byte two-key 3DES key (mode 1 encryption, 2 MAC).
pub fn derive_key(kseed: &[u8], mode: u8) -> (res: Vec<u8>)
    ensures
        res@ == derive_key_spec(kseed@, mode),
        res@.len() == 16,
        sha1_spec(kseed@ + seq![0x00u8, 0x00, 0x00, mode]).len() == 20,
        forall|i: int| 0 <= i < 16 ==> #[trigger] res@[i] == parity_byte(sha1_spec(kseed@ + seq![0x00u8, 0x00, 0x00, mode])[i]),
{
    let mut input = vstd::slice::slice_to_vec(kseed);
    input.push(0x00);
    input.push(0x00);
    input.push(0x00);
    input.push(mode);
    assert(input@ =~= kseed@ + seq![0x00u8, 0x00, 0x00, mode]);
    let hash = sha1_digest(input.as_slice());
    let mut key = adjust_parity(vstd::slice::slice_subrange(hash.as_slice(), 0, 8));
    let tail = adjust_parity(vstd::slice::slice_subrange(hash.as_slice(), 8, 16));
    let mut i: usize = 0;
    let ghost first = key@;
    while i < tail.len()
        invariant
            i <= tail@.len(),
            key@ == first + tail@.subrange(0, i as int),
        decreases tail@.len() - i,
    {
        key.push(tail[i]);
        i = i + 1;
        assert(key@ =~= first + tail@.subrange(0, i as int));
    }
    assert(tail@.subrange(0, i as int) =~= tail@);
    key
}

} // verus!
