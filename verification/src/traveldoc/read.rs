//! Reading a travel document: SELECT of the eMRTD application, BAC, then the data groups
//! through the secure channel. The decrypted data groups are stored as `passport_*` raw
//! fields; the card type is `TravelDoc` (passport and travel permit read alike).
use vstd::prelude::*;
use rand::RngCore;
use crate::apdu::{Apdu, ApduResponse, case2_bytes, case4_bytes, response_ok};
use crate::error::Error;
use crate::helpers::log_extends;
use crate::hexfmt::{encode_upper, hex_upper};
use crate::model::{Exchange, RawCardData, Transceiver};
use crate::passport::{PassportKey, mrz_key_spec, validate_spec};
use crate::text::{concat2, dec_digits, push_decimal, push_str, to_owned_string};
use super::crypto::{derive_key, derive_key_spec, generate_kseed, kseed_spec, pad, pad_spec, retail_mac, retail_mac_spec, tdes_cbc_decrypt, tdes_cbc_dec_spec, tdes_cbc_encrypt, tdes_cbc_enc_spec};
use super::sm::{SecureSession, bytes_eq, failure_is, inc_spec, parse_len, parse_len_spec, protect_spec, sm_outcome};

verus! {

/// `rand::thread_rng().fill_bytes`: `n` random bytes; nothing is stated of their values.
#[verifier::external_body]
fn random_bytes(n: usize) -> (res: Vec<u8>)
    ensures
        res@.len() == n,
{
    let mut v = vec![0u8; n];
    rand::thread_rng().fill_bytes(&mut v);
    v
}

/// The eMRTD application identifier `A0 00 00 02 47 10 01`.
pub open spec fn emrtd_aid() -> Seq<u8> {
    seq![0xA0u8, 0x00, 0x00, 0x02, 0x47, 0x10, 0x01]
}

/// The BAC encryption key derived from the MRZ key.
pub open spec fn bac_kenc(key: PassportKey) -> Seq<u8> {
    derive_key_spec(kseed_spec(mrz_key_spec(key.doc_number@, key.date_of_birth@, key.date_of_expiry@)), 1)
}

/// The BAC MAC key derived from the MRZ key.
pub open spec fn bac_kmac(key: PassportKey) -> Seq<u8> {
    derive_key_spec(kseed_spec(mrz_key_spec(key.doc_number@, key.date_of_birth@, key.date_of_expiry@)), 2)
}

/// `<what> 失败: SW=XXXX 长度=n`, the message of a failed BAC step.
pub open spec fn step_error(what: Seq<char>, r: ApduResponse) -> Seq<char> {
    what + " 失败: SW="@ + hex_upper(seq![r.sw1, r.sw2]) + " 长度="@ + dec_digits(r.data@.len())
}

/// Byte-wise XOR of two 16-byte strings.
pub open spec fn xor16(a: Seq<u8>, b: Seq<u8>) -> Seq<u8> {
    Seq::new(16, |i: int| a[i] ^ b[i])
}

/// The MUTUAL AUTHENTICATE data for the terminal's random values: `E = 3DES-CBC(Kenc,
/// rnd.ifd || rnd.icc || k.ifd)` followed by its retail MAC under `Kmac`.
pub open spec fn auth_data(kenc: Seq<u8>, kmac: Seq<u8>, rnd_ifd: Seq<u8>, rnd_icc: Seq<u8>, k_ifd: Seq<u8>) -> Seq<u8> {
    let e = tdes_cbc_enc_spec(kenc, rnd_ifd + rnd_icc + k_ifd);
    e + retail_mac_spec(kmac, pad_spec(e))
}

/// What the MUTUAL AUTHENTICATE reply gives: an error unless the reply is `9000` with 40 bytes,
/// its MAC checks and the decrypted nonces match; then a session keyed from
/// `k.ifd XOR k.icc`, with counter `rnd.icc[4..8] || rnd.ifd[4..8]`.
pub open spec fn bac_result(
    kenc: Seq<u8>,
    kmac: Seq<u8>,
    rnd_icc: Seq<u8>,
    rnd_ifd: Seq<u8>,
    k_ifd: Seq<u8>,
    reply: Result<ApduResponse, Error>,
    res: Result<SecureSession, Error>,
) -> bool {
    match reply {
        Err(e) => res == Err::<SecureSession, Error>(e),
        Ok(r) => if !response_ok(r) || r.data@.len() != 40 {
            (res matches Err(Error::Passport(s)) && s@ == step_error("MUTUAL AUTHENTICATE"@, r))
        } else {
            let enc = r.data@.subrange(0, 32);
            let dec = tdes_cbc_dec_spec(kenc, enc);
            if retail_mac_spec(kmac, pad_spec(enc)) != r.data@.subrange(32, 40) {
                (res matches Err(Error::Passport(s)) && s@ == "响应 MAC 校验失败"@)
            } else if dec.subrange(0, 8) != rnd_icc {
                (res matches Err(Error::Passport(s)) && s@ == "rnd.icc 不匹配"@)
            } else if dec.subrange(8, 16) != rnd_ifd {
                (res matches Err(Error::Passport(s)) && s@ == "rnd.ifd 不匹配（MRZ 密钥可能错误）"@)
            } else {
                let seed = xor16(k_ifd, dec.subrange(16, 32));
                (res matches Ok(s) && s.wf() && s.enc_key() == derive_key_spec(seed, 1)
                    && s.mac_key() == derive_key_spec(seed, 2)
                    && s.counter() == rnd_icc.subrange(4, 8) + rnd_ifd.subrange(4, 8))
            }
        },
    }
}

/// `<prefix>XXXX 长度=n` built from a reply.
fn step_error_message(what: &str, r: &ApduResponse) -> (res: String)
    ensures
        res@ == step_error(what@, *r),
{
    let sw: [u8; 2] = [r.sw1, r.sw2];
    assert(sw@ =~= seq![r.sw1, r.sw2]);
    let h = encode_upper(&sw);
    let mut s = concat2(what, " 失败: SW=");
    push_str(&mut s, h.as_str());
    push_str(&mut s, " 长度=");
    push_decimal(&mut s, r.data.len() as u64);
    s
}

/// What BAC leaves in the exchanges `seg` it made: GET CHALLENGE (`00 84 00 00 08`) first; a
/// reply other than `9000` with 8 bytes ends it; otherwise MUTUAL AUTHENTICATE
/// (`00 82 00 00 28 <auth_data> 28`) for some 8-byte `rnd.ifd` and 16-byte `k.ifd`, whose reply
/// decides the result as `bac_result` states.
pub open spec fn bac_done(key: PassportKey, seg: Seq<Exchange>, res: Result<SecureSession, Error>) -> bool {
    &&& seg.len() >= 1
    &&& seg[0].0 == case2_bytes(0x00, 0x84, 0x00, 0x00, 0x08)
    &&& match seg[0].1 {
        Err(e) => res == Err::<SecureSession, Error>(e) && seg.len() == 1,
        Ok(r) => if !response_ok(r) || r.data@.len() != 8 {
            seg.len() == 1 && (res matches Err(Error::Passport(s)) && s@ == step_error("GET CHALLENGE"@, r))
        } else {
            seg.len() == 2 && exists|rnd_ifd: Seq<u8>, k_ifd: Seq<u8>| rnd_ifd.len() == 8 && k_ifd.len() == 16
                && #[trigger] seg[1].0 == case4_bytes(0x00, 0x82, 0x00, 0x00,
                    auth_data(bac_kenc(key), bac_kmac(key), rnd_ifd, r.data@, k_ifd), 0x28)
                && bac_result(bac_kenc(key), bac_kmac(key), r.data@, rnd_ifd, k_ifd, seg[1].1, res)
        },
    }
}

/// Performs BAC: GET CHALLENGE for the card's 8-byte `rnd.icc`, then MUTUAL AUTHENTICATE with
/// fresh random `rnd.ifd` (8 bytes) and `k.ifd` (16 bytes); on success, the secure-messaging
/// session of `bac_result` (`bac_done`).
pub fn perform_bac<T: Transceiver>(tx: &mut T, key: &PassportKey) -> (res: Result<SecureSession, Error>)
    ensures
        log_extends(old(tx).exchanges(), final(tx).exchanges()),
        bac_done(*key, final(tx).exchanges().subrange(old(tx).exchanges().len() as int, final(tx).exchanges().len() as int), res),
{
    let mrz_key = key.mrz_key();
    let kseed = generate_kseed(mrz_key.as_str());
    let kenc = derive_key(kseed.as_slice(), 1);
    let kmac = derive_key(kseed.as_slice(), 2);
    let ghost n = old(tx).exchanges().len() as int;

    let gc = Apdu::case2(0x00, 0x84, 0x00, 0x00, 0x08);
    let r = tx.transceive(&gc);
    assert(tx.exchanges().subrange(0, n) =~= old(tx).exchanges());
    proof {
        let seg = tx.exchanges().subrange(n, tx.exchanges().len() as int);
        assert(seg[0] == tx.exchanges()[n]);
    }
    let r = r?;
    if !r.is_ok() || r.data.len() != 8 {
        return Err(Error::Passport(step_error_message("GET CHALLENGE", &r)));
    }
    let rnd_icc = vstd::slice::slice_to_vec(r.data.as_slice());
    let ghost l1 = tx.exchanges();

    let rnd_ifd = random_bytes(8);
    let k_ifd = random_bytes(16);

    let mut s: Vec<u8> = Vec::new();
    s.extend_from_slice(rnd_ifd.as_slice());
    s.extend_from_slice(rnd_icc.as_slice());
    s.extend_from_slice(k_ifd.as_slice());
    assert(s@ =~= rnd_ifd@ + rnd_icc@ + k_ifd@);

    let eifd = tdes_cbc_encrypt(kenc.as_slice(), s.as_slice());
    let padded = pad(eifd.as_slice());
    let mifd = retail_mac(kmac.as_slice(), padded.as_slice());
    assert(kmac@.subrange(0, 16) =~= kmac@);

    let mut auth: Vec<u8> = vstd::slice::slice_to_vec(eifd.as_slice());
    auth.extend_from_slice(mifd.as_slice());
    assert(auth@ =~= auth_data(kenc@, kmac@, rnd_ifd@, rnd_icc@, k_ifd@));
    let ma = Apdu::case4(0x00, 0x82, 0x00, 0x00, auth.as_slice(), 0x28);
    let r2 = tx.transceive(&ma);
    proof {
        assert(tx.exchanges()[n] == l1[n]);
        assert(tx.exchanges()[n + 1].0 == case4_bytes(0x00, 0x82, 0x00, 0x00,
            auth_data(bac_kenc(*key), bac_kmac(*key), rnd_ifd@, r.data@, k_ifd@), 0x28));
    }
    let res = bac_finish(&kenc, &kmac, &rnd_icc, &rnd_ifd, &k_ifd, r2);
    proof {
        let seg = tx.exchanges().subrange(n, tx.exchanges().len() as int);
        assert(seg[0] == tx.exchanges()[n]);
        assert(seg[1] == tx.exchanges()[n + 1]);
        assert(bac_result(bac_kenc(*key), bac_kmac(*key), r.data@, rnd_ifd@, k_ifd@, seg[1].1, res));
    }
    res
}

/// The checks on the MUTUAL AUTHENTICATE reply and the session keys, as `bac_result` states.
fn bac_finish(
    kenc: &Vec<u8>,
    kmac: &Vec<u8>,
    rnd_icc: &Vec<u8>,
    rnd_ifd: &Vec<u8>,
    k_ifd: &Vec<u8>,
    reply: Result<ApduResponse, Error>,
) -> (res: Result<SecureSession, Error>)
    requires
        kenc@.len() == 16,
        kmac@.len() == 16,
        rnd_icc@.len() == 8,
        rnd_ifd@.len() == 8,
        k_ifd@.len() == 16,
    ensures
        bac_result(kenc@, kmac@, rnd_icc@, rnd_ifd@, k_ifd@, reply, res),
{
    let r = reply?;
    if !r.is_ok() || r.data.len() != 40 {
        return Err(Error::Passport(step_error_message("MUTUAL AUTHENTICATE", &r)));
    }
    let resp_enc = vstd::slice::slice_subrange(r.data.as_slice(), 0, 32);
    let resp_mac = vstd::slice::slice_subrange(r.data.as_slice(), 32, 40);
    let padded = pad(resp_enc);
    let computed = retail_mac(kmac.as_slice(), padded.as_slice());
    assert(kmac@.subrange(0, 16) =~= kmac@);
    if !bytes_eq(computed.as_slice(), resp_mac) {
        return Err(Error::Passport(to_owned_string("响应 MAC 校验失败")));
    }
    let dec = tdes_cbc_decrypt(kenc.as_slice(), resp_enc);
    if dec.len() != 32 {
        return Err(Error::Passport(to_owned_string("BAC 响应解密长度异常")));
    }
    let rnd_icc2 = vstd::slice::slice_subrange(dec.as_slice(), 0, 8);
    let rnd_ifd2 = vstd::slice::slice_subrange(dec.as_slice(), 8, 16);
    let k_icc = vstd::slice::slice_subrange(dec.as_slice(), 16, 32);
    if !bytes_eq(rnd_icc2, rnd_icc.as_slice()) {
        return Err(Error::Passport(to_owned_string("rnd.icc 不匹配")));
    }
    if !bytes_eq(rnd_ifd2, rnd_ifd.as_slice()) {
        return Err(Error::Passport(to_owned_string("rnd.ifd 不匹配（MRZ 密钥可能错误）")));
    }
    let mut kseed_new: [u8; 16] = [0u8; 16];
    let mut i: usize = 0;
    while i < 16
        invariant
            i <= 16,
            k_ifd@.len() == 16,
            k_icc@.len() == 16,
            forall|j: int| 0 <= j < i ==> kseed_new@[j] == k_ifd@[j] ^ k_icc@[j],
        decreases 16 - i,
    {
        kseed_new[i] = k_ifd[i] ^ k_icc[i];
        i = i + 1;
    }
    assert(kseed_new@ =~= xor16(k_ifd@, k_icc@));
    let ks_enc = derive_key(&kseed_new, 1);
    let ks_mac = derive_key(&kseed_new, 2);
    let mut ssc: [u8; 8] = [0u8; 8];
    ssc[0] = rnd_icc[4];
    ssc[1] = rnd_icc[5];
    ssc[2] = rnd_icc[6];
    ssc[3] = rnd_icc[7];
    ssc[4] = rnd_ifd[4];
    ssc[5] = rnd_ifd[5];
    ssc[6] = rnd_ifd[6];
    ssc[7] = rnd_ifd[7];
    assert(ssc@ =~= rnd_icc@.subrange(4, 8) + rnd_ifd@.subrange(4, 8));
    Ok(SecureSession::new(ks_enc, ks_mac, ssc))
}

/// Where the tag of a BER-TLV header ends, scanning from `p`: past the bytes that have the
/// high bit set.
pub open spec fn skip_tag_cont(h: Seq<u8>, p: int) -> int
    decreases h.len() - p,
{
    if 0 <= p < h.len() && h[p] & 0x80 != 0 {
        skip_tag_cont(h, p + 1)
    } else {
        p
    }
}

/// The length of the tag at the start of a BER-TLV header: one byte, or, where the first
/// byte's low five bits are all set, the continuation bytes and one more.
pub open spec fn tag_len(h: Seq<u8>) -> int {
    if h[0] & 0x1F == 0x1F {
        skip_tag_cont(h, 1) + 1
    } else {
        1
    }
}

/// The total size of the BER-TLV object whose header is `h` (tag, length and value), or why
/// the length cannot be read (also when the size does not fit in a `usize`).
pub open spec fn tlv_total_spec(h: Seq<u8>) -> Result<nat, Seq<char>> {
    let pos = tag_len(h);
    match parse_len_spec(h, pos) {
        Err(m) => Err(m),
        Ok((len, used)) => if pos + used + len > usize::MAX {
            Err("TLV 长度越界"@)
        } else {
            Ok((pos + used + len) as nat)
        },
    }
}

/// The size of a BER-TLV object from its header (tag and length).
pub fn tlv_total_len(header: &[u8]) -> (res: Result<usize, Error>)
    requires
        header@.len() > 0,
    ensures
        match tlv_total_spec(header@) {
            Ok(t) => res == Ok::<usize, Error>(t as usize),
            Err(m) => res matches Err(Error::Passport(s)) && s@ == m,
        },
{
    let mut pos: usize = 1;
    if header[0] & 0x1F == 0x1F {
        while pos < header.len() && header[pos] & 0x80 != 0
            invariant
                1 <= pos <= header@.len(),
                skip_tag_cont(header@, 1) == skip_tag_cont(header@, pos as int),
            decreases header@.len() - pos,
        {
            pos = pos + 1;
        }
        if pos >= header.len() {
            return Err(Error::Passport(to_owned_string("TLV 长度越界")));
        }
        pos = pos + 1;
    }
    assert(pos as int == tag_len(header@));
    let (content_len, len_bytes) = parse_len(header, pos)?;
    let sum = pos + len_bytes;
    match sum.checked_add(content_len) {
        Some(t) => Ok(t),
        None => Err(Error::Passport(to_owned_string("TLV 长度越界"))),
    }
}

/// The `Le` of the READ BINARY at offset `off` of a `total`-byte file: what is left, at most
/// `0xA0`.
pub open spec fn read_le(total: nat, off: nat) -> nat {
    if total - off < 0xA0 {
        (total - off) as nat
    } else {
        0xA0
    }
}

/// What reading the rest of a `total`-byte file leaves, from the part `file` already read and
/// counter `ssc`, over the exchanges `seg` it made: while the file is short, one READ BINARY at
/// the current offset for `read_le` bytes; a failure of the channel ends it with that error;
/// a status other than `9000`, an empty chunk or a chunk shorter than asked ends it with what
/// was read; the result is the file, and `ssc_end` the counter afterwards.
pub open spec fn chunks_read(
    enc: Seq<u8>,
    mac: Seq<u8>,
    total: nat,
    seg: Seq<Exchange>,
    ssc: Seq<u8>,
    file: Seq<u8>,
    res: Result<Vec<u8>, Error>,
    ssc_end: Seq<u8>,
) -> bool
    decreases seg.len(),
{
    if file.len() >= total {
        seg.len() == 0 && (res matches Ok(v) && v@ == file) && ssc_end == ssc
    } else if seg.len() == 0 {
        false
    } else {
        let off = file.len();
        let le = read_le(total, off);
        let o = sm_outcome(enc, mac, ssc, seg[0].1);
        &&& seg[0].0 == protect_spec(enc, mac, inc_spec(ssc), 0x00, 0xB0, ((off / 256) % 256) as u8,
            (off % 256) as u8, Seq::empty(), Some(le as u8))
        &&& match o.0 {
            Err(f) => seg.len() == 1 && (res matches Err(e) && failure_is(e, f)) && ssc_end == o.1,
            Ok((chunk, s1, s2)) => if s1 != 0x90 || s2 != 0x00 || chunk.len() == 0 {
                seg.len() == 1 && (res matches Ok(v) && v@ == file) && ssc_end == o.1
            } else if chunk.len() < le {
                seg.len() == 1 && (res matches Ok(v) && v@ == file + chunk) && ssc_end == o.1
            } else {
                chunks_read(enc, mac, total, seg.drop_first(), o.1, file + chunk, res, ssc_end)
            },
        }
    }
}

/// Reads the rest of the selected file, `total` bytes in all, after the part `file`.
fn read_chunks<T: Transceiver>(tx: &mut T, session: &mut SecureSession, total: usize, file: Vec<u8>) -> (res: Result<Vec<u8>, Error>)
    requires
        old(session).wf(),
    ensures
        final(session).wf(),
        final(session).enc_key() == old(session).enc_key(),
        final(session).mac_key() == old(session).mac_key(),
        log_extends(old(tx).exchanges(), final(tx).exchanges()),
        chunks_read(old(session).enc_key(), old(session).mac_key(), total as nat,
            final(tx).exchanges().subrange(old(tx).exchanges().len() as int, final(tx).exchanges().len() as int),
            old(session).counter(), file@, res, final(session).counter()),
    decreases (if file@.len() < total { total - file@.len() } else { 0 }),
{
    let ghost n = tx.exchanges().len() as int;
    if file.len() >= total {
        assert(tx.exchanges().subrange(n, n).len() == 0);
        return Ok(file);
    }
    let offset = file.len();
    let remaining = total - offset;
    let le: u8 = if remaining < 0xA0 { remaining as u8 } else { 0xA0 };
    let p1 = (offset >> 8) as u8;
    let p2 = (offset & 0xFF) as u8;
    assert(p1 == ((offset / 256) % 256) as u8 && p2 == (offset % 256) as u8) by (bit_vector)
        requires
            p1 == (offset >> 8) as u8,
            p2 == (offset & 0xFF) as u8,
    ;
    let empty: Vec<u8> = Vec::new();
    let r = session.send(tx, 0x00, 0xB0, p1, p2, empty.as_slice(), Some(le));
    let ghost l1 = tx.exchanges();
    let ghost c1 = session.counter();
    proof {
        let seg1 = l1.subrange(n, l1.len() as int);
        assert(seg1[0] == l1[n]);
        assert(seg1.len() == 1);
        assert(empty@ =~= Seq::<u8>::empty());
    }
    let (chunk, sw1, sw2) = match r {
        Ok(t) => t,
        Err(e) => {
            return Err(e);
        },
    };
    if sw1 != 0x90 || sw2 != 0x00 || chunk.len() == 0 {
        return Ok(file);
    }
    let got = chunk.len();
    let ghost before = file@;
    let mut file = file;
    file.extend_from_slice(chunk.as_slice());
    assert(file@ =~= before + chunk@);
    if got < le as usize {
        return Ok(file);
    }
    let res = read_chunks(tx, session, total, file);
    proof {
        let fl = tx.exchanges();
        let seg = fl.subrange(n, fl.len() as int);
        assert(seg[0] == l1[n]);
        assert(seg.drop_first() =~= fl.subrange(n + 1, fl.len() as int));
    }
    res
}

/// `READ BINARY header 失败: SW=XXXX`.
pub open spec fn header_error(s1: u8, s2: u8) -> Seq<char> {
    "READ BINARY header 失败: SW="@ + hex_upper(seq![s1, s2])
}

/// What reading the whole selected file leaves over the exchanges `seg` it made, from counter
/// `ssc`: READ BINARY of the first 4 bytes; a failure of the channel ends it with that error; a
/// status other than `9000` or an empty reply, or a header whose size cannot be read, with a
/// travel-document error; otherwise the rest is read as `chunks_read` states.
pub open spec fn binary_read(
    enc: Seq<u8>,
    mac: Seq<u8>,
    seg: Seq<Exchange>,
    ssc: Seq<u8>,
    res: Result<Vec<u8>, Error>,
    ssc_end: Seq<u8>,
) -> bool {
    let o = sm_outcome(enc, mac, ssc, seg[0].1);
    &&& seg.len() >= 1
    &&& seg[0].0 == protect_spec(enc, mac, inc_spec(ssc), 0x00, 0xB0, 0x00, 0x00, Seq::empty(), Some(4u8))
    &&& match o.0 {
        Err(f) => seg.len() == 1 && (res matches Err(e) && failure_is(e, f)) && ssc_end == o.1,
        Ok((header, s1, s2)) => if s1 != 0x90 || s2 != 0x00 || header.len() == 0 {
            seg.len() == 1 && (res matches Err(Error::Passport(m)) && m@ == header_error(s1, s2)) && ssc_end == o.1
        } else {
            match tlv_total_spec(header) {
                Err(m) => seg.len() == 1 && (res matches Err(Error::Passport(t)) && t@ == m) && ssc_end == o.1,
                Ok(total) => chunks_read(enc, mac, total, seg.drop_first(), o.1, header, res, ssc_end),
            }
        },
    }
}

/// Reads the whole selected file: its first 4 bytes give the size of the TLV object, the rest
/// is read in chunks.
fn read_binary_all<T: Transceiver>(tx: &mut T, session: &mut SecureSession) -> (res: Result<Vec<u8>, Error>)
    requires
        old(session).wf(),
    ensures
        final(session).wf(),
        final(session).enc_key() == old(session).enc_key(),
        final(session).mac_key() == old(session).mac_key(),
        log_extends(old(tx).exchanges(), final(tx).exchanges()),
        binary_read(old(session).enc_key(), old(session).mac_key(),
            final(tx).exchanges().subrange(old(tx).exchanges().len() as int, final(tx).exchanges().len() as int),
            old(session).counter(), res, final(session).counter()),
{
    let ghost n = tx.exchanges().len() as int;
    let empty: Vec<u8> = Vec::new();
    let r = session.send(tx, 0x00, 0xB0, 0x00, 0x00, empty.as_slice(), Some(0x04));
    let ghost l1 = tx.exchanges();
    proof {
        assert(l1.subrange(n, n + 1)[0] == l1[n]);
        assert(empty@ =~= Seq::<u8>::empty());
    }
    let (header, sw1, sw2) = match r {
        Ok(t) => t,
        Err(e) => {
            return Err(e);
        },
    };
    if sw1 != 0x90 || sw2 != 0x00 || header.len() == 0 {
        let sw: [u8; 2] = [sw1, sw2];
        assert(sw@ =~= seq![sw1, sw2]);
        let mut m = to_owned_string("READ BINARY header 失败: SW=");
        let h = encode_upper(&sw);
        push_str(&mut m, h.as_str());
        return Err(Error::Passport(m));
    }
    let total = match tlv_total_len(header.as_slice()) {
        Ok(t) => t,
        Err(e) => {
            return Err(e);
        },
    };
    let res = read_chunks(tx, session, total, header);
    proof {
        let fl = tx.exchanges();
        let seg = fl.subrange(n, fl.len() as int);
        assert(seg[0] == l1[n]);
        assert(seg.drop_first() =~= fl.subrange(n + 1, fl.len() as int));
    }
    res
}

/// `SELECT EF HHLL 失败: SW=XXXX`.
pub open spec fn select_ef_error(hi: u8, lo: u8, s1: u8, s2: u8) -> Seq<char> {
    "SELECT EF "@ + hex_upper(seq![hi, lo]) + " 失败: SW="@ + hex_upper(seq![s1, s2])
}

/// What reading the data group in file `hi lo` leaves over the exchanges `seg` it made, from
/// counter `ssc`: SELECT EF (`00 A4 02 0C` with the file identifier) through the channel; a
/// failure ends it with that error, a status other than `9000` with a travel-document error;
/// otherwise the file is read as `binary_read` states.
pub open spec fn group_read(
    enc: Seq<u8>,
    mac: Seq<u8>,
    hi: u8,
    lo: u8,
    seg: Seq<Exchange>,
    ssc: Seq<u8>,
    res: Result<Vec<u8>, Error>,
    ssc_end: Seq<u8>,
) -> bool {
    let o = sm_outcome(enc, mac, ssc, seg[0].1);
    &&& seg.len() >= 1
    &&& seg[0].0 == protect_spec(enc, mac, inc_spec(ssc), 0x00, 0xA4, 0x02, 0x0C, seq![hi, lo], None)
    &&& match o.0 {
        Err(f) => seg.len() == 1 && (res matches Err(e) && failure_is(e, f)) && ssc_end == o.1,
        Ok((_, s1, s2)) => if s1 != 0x90 || s2 != 0x00 {
            seg.len() == 1 && (res matches Err(Error::Passport(m)) && m@ == select_ef_error(hi, lo, s1, s2)) && ssc_end == o.1
        } else {
            binary_read(enc, mac, seg.drop_first(), o.1, res, ssc_end)
        },
    }
}

/// Selects the elementary file `hi lo` through the channel and reads all of it.
fn read_data_group<T: Transceiver>(tx: &mut T, session: &mut SecureSession, hi: u8, lo: u8) -> (res: Result<Vec<u8>, Error>)
    requires
        old(session).wf(),
    ensures
        final(session).wf(),
        final(session).enc_key() == old(session).enc_key(),
        final(session).mac_key() == old(session).mac_key(),
        log_extends(old(tx).exchanges(), final(tx).exchanges()),
        group_read(old(session).enc_key(), old(session).mac_key(), hi, lo,
            final(tx).exchanges().subrange(old(tx).exchanges().len() as int, final(tx).exchanges().len() as int),
            old(session).counter(), res, final(session).counter()),
{
    let ghost n = tx.exchanges().len() as int;
    let fid: [u8; 2] = [hi, lo];
    assert(fid@ =~= seq![hi, lo]);
    let r = session.send(tx, 0x00, 0xA4, 0x02, 0x0C, &fid, None);
    let ghost l1 = tx.exchanges();
    proof {
        let seg1 = l1.subrange(n, l1.len() as int);
        assert(seg1[0] == l1[n]);
    }
    let (_d, sw1, sw2) = match r {
        Ok(t) => t,
        Err(e) => {
            return Err(e);
        },
    };
    if sw1 != 0x90 || sw2 != 0x00 {
        let sw: [u8; 2] = [sw1, sw2];
        assert(sw@ =~= seq![sw1, sw2]);
        let mut m = to_owned_string("SELECT EF ");
        let h1 = encode_upper(&fid);
        push_str(&mut m, h1.as_str());
        push_str(&mut m, " 失败: SW=");
        let h2 = encode_upper(&sw);
        push_str(&mut m, h2.as_str());
        return Err(Error::Passport(m));
    }
    let res = read_binary_all(tx, session);
    proof {
        let fl = tx.exchanges();
        let seg = fl.subrange(n, fl.len() as int);
        assert(seg[0] == l1[n]);
        assert(seg.drop_first() =~= fl.subrange(n + 1, fl.len() as int));
    }
    res
}

/// The key under which data group number `k` of the reading order is stored.
pub open spec fn dg_name(k: int) -> Seq<char> {
    if k == 0 {
        "passport_com"@
    } else if k == 1 {
        "passport_dg1"@
    } else if k == 2 {
        "passport_dg2"@
    } else if k == 3 {
        "passport_dg11"@
    } else if k == 4 {
        "passport_dg12"@
    } else {
        "passport_sod"@
    }
}

/// The file identifier of data group number `k` of the reading order: EF.COM `011E`, DG1
/// `0101`, DG2 `0102`, DG11 `010B`, DG12 `010C`, EF.SOD `011D`.
pub open spec fn dg_file(k: int) -> (u8, u8) {
    if k == 0 {
        (0x01, 0x1E)
    } else if k == 1 {
        (0x01, 0x01)
    } else if k == 2 {
        (0x01, 0x02)
    } else if k == 3 {
        (0x01, 0x0B)
    } else if k == 4 {
        (0x01, 0x0C)
    } else {
        (0x01, 0x1D)
    }
}

/// Data group number `k` of the reading order: key, file identifier.
fn data_group(k: usize) -> (res: (&'static str, u8, u8))
    requires
        k < 6,
    ensures
        res.0@ == dg_name(k as int),
        (res.1, res.2) == dg_file(k as int),
{
    if k == 0 {
        ("passport_com", 0x01, 0x1E)
    } else if k == 1 {
        ("passport_dg1", 0x01, 0x01)
    } else if k == 2 {
        ("passport_dg2", 0x01, 0x02)
    } else if k == 3 {
        ("passport_dg11", 0x01, 0x0B)
    } else if k == 4 {
        ("passport_dg12", 0x01, 0x0C)
    } else {
        ("passport_sod", 0x01, 0x1D)
    }
}

/// The raw fields after data group `k` was read with result `r`: a non-empty file is stored
/// in hexadecimal under the group's key; an empty one or a failure stores nothing.
pub open spec fn group_stored(
    fields: Seq<(Seq<char>, Seq<char>)>,
    k: int,
    r: Result<Vec<u8>, Error>,
) -> Seq<(Seq<char>, Seq<char>)> {
    match r {
        Ok(v) => if v@.len() > 0 {
            fields.push((dg_name(k), hex_upper(v@)))
        } else {
            fields
        },
        Err(_) => fields,
    }
}

/// What reading data groups `k..6` leaves over the exchanges `seg` they made, from counter
/// `ssc`: each group is read as `group_read` states, from the counter the one before left, and
/// stored as `group_stored` states; a group that fails is skipped.
pub open spec fn groups_read(
    enc: Seq<u8>,
    mac: Seq<u8>,
    seg: Seq<Exchange>,
    ssc: Seq<u8>,
    k: int,
    before: Seq<(Seq<char>, Seq<char>)>,
    after: Seq<(Seq<char>, Seq<char>)>,
) -> bool
    decreases 6 - k,
{
    if k < 0 || k >= 6 {
        seg.len() == 0 && after == before
    } else {
        exists|j: int, r: Result<Vec<u8>, Error>, c: Seq<u8>|
            0 <= j <= seg.len()
            && #[trigger] group_read(enc, mac, dg_file(k).0, dg_file(k).1, seg.subrange(0, j), ssc, r, c)
            && groups_read(enc, mac, seg.subrange(j, seg.len() as int), c, k + 1, group_stored(before, k, r), after)
    }
}

/// Reads data groups `k..6` through the channel and stores each one that is not empty.
fn read_groups<T: Transceiver>(tx: &mut T, session: &mut SecureSession, k: usize, data: &mut RawCardData)
    requires
        old(session).wf(),
        k <= 6,
    ensures
        final(session).wf(),
        log_extends(old(tx).exchanges(), final(tx).exchanges()),
        groups_read(old(session).enc_key(), old(session).mac_key(),
            final(tx).exchanges().subrange(old(tx).exchanges().len() as int, final(tx).exchanges().len() as int),
            old(session).counter(), k as int, old(data).fields(), final(data).fields()),
        final(data).card_type == old(data).card_type,
        final(data).atr == old(data).atr,
        final(data).sub_cards == old(data).sub_cards,
        final(data).apdu_history == old(data).apdu_history,
    decreases 6 - k,
{
    let ghost n = tx.exchanges().len() as int;
    if k >= 6 {
        assert(tx.exchanges().subrange(n, n).len() == 0);
        return;
    }
    let ghost enc = session.enc_key();
    let ghost mac = session.mac_key();
    let ghost ssc0 = session.counter();
    let ghost f0 = data.fields();
    let (name, hi, lo) = data_group(k);
    let r = read_data_group(tx, session, hi, lo);
    let ghost l1 = tx.exchanges();
    let ghost c1 = session.counter();
    if let Ok(bytes) = &r {
        if bytes.len() > 0 {
            data.put(to_owned_string(name), encode_upper(bytes.as_slice()));
        }
    }
    assert(data.fields() == group_stored(f0, k as int, r));
    read_groups(tx, session, k + 1, data);
    proof {
        let fl = tx.exchanges();
        let seg = fl.subrange(n, fl.len() as int);
        let j = l1.len() - n;
        assert(seg.subrange(0, j) =~= l1.subrange(n, l1.len() as int));
        assert(seg.subrange(j, seg.len() as int) =~= fl.subrange(l1.len() as int, fl.len() as int));
        assert(group_read(enc, mac, dg_file(k as int).0, dg_file(k as int).1, seg.subrange(0, j), ssc0, r, c1));
    }
}

/// `SELECT eMRTD 失败: SW=XXXX`.
pub open spec fn select_emrtd_error(r: ApduResponse) -> Seq<char> {
    "SELECT eMRTD 失败: SW="@ + hex_upper(seq![r.sw1, r.sw2])
}

/// What reading a travel document leaves over the exchanges `seg` it made: an invalid key is
/// refused before anything is sent; otherwise the card type becomes `TravelDoc`, the eMRTD
/// application is selected (`00 A4 04 0C 07 <AID> 00`), BAC runs as `bac_done` states, and
/// with its session the sub-card `TravelDoc` is recorded and the data groups are read as
/// `groups_read` states. A failed step ends the read with its error.
pub open spec fn traveldoc_read(
    key: PassportKey,
    seg: Seq<Exchange>,
    before: RawCardData,
    after: RawCardData,
    res: Result<(), Error>,
) -> bool {
    match validate_spec(key.doc_number@, key.date_of_birth@, key.date_of_expiry@) {
        Err(m) => (res matches Err(Error::Passport(s)) && s@ == m) && seg.len() == 0 && after == before,
        Ok(_) => {
            &&& after.card_type@ == "TravelDoc"@
            &&& after.atr == before.atr
            &&& after.apdu_history == before.apdu_history
            &&& seg.len() >= 1
            &&& seg[0].0 == case4_bytes(0x00, 0xA4, 0x04, 0x0C, emrtd_aid(), 0x00)
            &&& match seg[0].1 {
                Err(e) => res == Err::<(), Error>(e) && seg.len() == 1 && after.fields() == before.fields()
                    && after.sub_cards == before.sub_cards,
                Ok(r) => if !response_ok(r) {
                    &&& seg.len() == 1
                    &&& res matches Err(Error::Passport(s)) && s@ == select_emrtd_error(r)
                    &&& after.fields() == before.fields()
                    &&& after.sub_cards == before.sub_cards
                } else {
                    exists|j: int, b: Result<SecureSession, Error>|
                        1 <= j <= seg.len() && #[trigger] bac_done(key, seg.subrange(1, j), b) && match b {
                            Err(e) => res == Err::<(), Error>(e) && j == seg.len() && after.fields() == before.fields()
                                && after.sub_cards == before.sub_cards,
                            Ok(sess) => res == Ok::<(), Error>(()) && after.subs() == before.subs().push("TravelDoc"@)
                                && groups_read(sess.enc_key(), sess.mac_key(), seg.subrange(j, seg.len() as int),
                                    sess.counter(), 0, before.fields(), after.fields()),
                        }
                },
            }
        },
    }
}

/// Reads a travel document (passport or travel permit alike): checks the key, selects the
/// eMRTD application, performs BAC and reads the data groups through the secure channel,
/// storing each non-empty one in hexadecimal (`traveldoc_read`).
pub fn read_traveldoc<T: Transceiver>(tx: &mut T, key: &PassportKey, data: &mut RawCardData) -> (res: Result<(), Error>)
    ensures
        log_extends(old(tx).exchanges(), final(tx).exchanges()),
        traveldoc_read(*key, final(tx).exchanges().subrange(old(tx).exchanges().len() as int,
            final(tx).exchanges().len() as int), *old(data), *final(data), res),
{
    let ghost n = tx.exchanges().len() as int;
    match key.validate() {
        Ok(()) => {},
        Err(m) => {
            assert(tx.exchanges().subrange(n, n).len() == 0);
            return Err(Error::Passport(m));
        },
    }
    data.card_type = to_owned_string("TravelDoc");
    let aid: [u8; 7] = [0xA0, 0x00, 0x00, 0x02, 0x47, 0x10, 0x01];
    assert(aid@ =~= emrtd_aid());
    let sel = Apdu::case4(0x00, 0xA4, 0x04, 0x0C, &aid, 0x00);
    let r = tx.transceive(&sel);
    let ghost l1 = tx.exchanges();
    proof {
        let seg1 = l1.subrange(n, l1.len() as int);
        assert(seg1[0] == l1[n]);
    }
    let r = match r {
        Ok(r) => r,
        Err(e) => {
            return Err(e);
        },
    };
    if !r.is_ok() {
        let sw: [u8; 2] = [r.sw1, r.sw2];
        assert(sw@ =~= seq![r.sw1, r.sw2]);
        let mut m = to_owned_string("SELECT eMRTD 失败: SW=");
        let h = encode_upper(&sw);
        push_str(&mut m, h.as_str());
        return Err(Error::Passport(m));
    }
    let b = perform_bac(tx, key);
    let ghost l2 = tx.exchanges();
    proof {
        let seg = l2.subrange(n, l2.len() as int);
        assert(seg[0] == l1[n]);
        assert(seg.subrange(1, l2.len() - n) =~= l2.subrange(n + 1, l2.len() as int));
        assert(bac_done(*key, seg.subrange(1, l2.len() - n), b));
    }
    let mut session = match b {
        Ok(s) => s,
        Err(e) => {
            return Err(e);
        },
    };
    let ghost sess0 = session;
    let ghost subs0 = data.subs();
    data.sub_cards.push(to_owned_string("TravelDoc"));
    assert(data.subs() =~= subs0.push("TravelDoc"@));
    read_groups(tx, &mut session, 0, data);
    proof {
        let fl = tx.exchanges();
        let seg = fl.subrange(n, fl.len() as int);
        let j = l2.len() - n;
        assert(seg[0] == l1[n]);
        assert(seg.subrange(1, j) =~= l2.subrange(n + 1, l2.len() as int));
        assert(seg.subrange(j, seg.len() as int) =~= fl.subrange(l2.len() as int, fl.len() as int));
        assert(bac_done(*key, seg.subrange(1, j), Ok::<SecureSession, Error>(sess0)));
    }
    Ok(())
}

} // verus!
