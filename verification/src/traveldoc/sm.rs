//! Secure messaging after BAC (ICAO 9303 Part 11 §9.8, 3DES mode): each command is encrypted
//! and MACed, each response is MAC-checked and decrypted, and an eight-byte send sequence
//! counter (SSC) advances with every message.
use vstd::prelude::*;
use crate::apdu::{Apdu, ApduResponse, case4_bytes};
use crate::error::Error;
use crate::model::{Transceiver, one_more};
use crate::text::to_owned_string;
use super::crypto::{pad, pad_spec, retail_mac, retail_mac_spec, tdes_cbc_decrypt, tdes_cbc_dec_spec, tdes_cbc_encrypt, tdes_cbc_enc_spec, unpad, unpad_spec};

verus! {

/// BER-TLV length encoding: one byte below `0x80`, `81 xx` up to `0xFF`, `82 xx xx` above
/// (two bytes, so lengths above `0xFFFF` keep only their low 16 bits).
pub open spec fn encode_len_spec(n: nat) -> Seq<u8> {
    if n < 0x80 {
        seq![n as u8]
    } else if n <= 0xFF {
        seq![0x81u8, n as u8]
    } else {
        seq![0x82u8, ((n / 256) % 256) as u8, (n % 256) as u8]
    }
}

/// BER-TLV length encoding (short form, `81` or `82` long form).
pub fn encode_len(len: usize) -> (res: Vec<u8>)
    ensures
        res@ == encode_len_spec(len as nat),
{
    if len < 0x80 {
        let res = vec![len as u8];
        assert(res@ =~= encode_len_spec(len as nat));
        res
    } else if len <= 0xFF {
        let res = vec![0x81, len as u8];
        assert(res@ =~= encode_len_spec(len as nat));
        res
    } else {
        let hi = (len >> 8) as u8;
        let lo = (len & 0xFF) as u8;
        assert(hi == ((len / 256) % 256) as u8 && lo == (len % 256) as u8) by (bit_vector)
            requires
                hi == (len >> 8) as u8,
                lo == (len & 0xFF) as u8,
        ;
        let res = vec![0x82, hi, lo];
        assert(res@ =~= encode_len_spec(len as nat));
        res
    }
}

/// Decoding of a BER-TLV length at `pos`: `(length, bytes used)`, or the reason it fails
/// (`pos` outside the data, or a long form that is not `81`/`82` or runs past the data).
pub open spec fn parse_len_spec(data: Seq<u8>, pos: int) -> Result<(nat, nat), Seq<char>> {
    if pos < 0 || pos >= data.len() {
        Err("TLV 长度越界"@)
    } else if data[pos] < 0x80 {
        Ok((data[pos] as nat, 1))
    } else {
        let n = data[pos] as int - 0x80;
        if n == 0 || n > 2 || pos + 1 + n > data.len() {
            Err("不支持的 TLV 长度形式"@)
        } else if n == 1 {
            Ok((data[pos + 1] as nat, 2))
        } else {
            Ok((data[pos + 1] as nat * 256 + data[pos + 2] as nat, 3))
        }
    }
}

/// Decodes a BER-TLV length starting at `data[pos]`: `(length, bytes used)`.
pub fn parse_len(data: &[u8], pos: usize) -> (res: Result<(usize, usize), Error>)
    ensures
        match parse_len_spec(data@, pos as int) {
            Ok((l, c)) => res == Ok::<(usize, usize), Error>((l as usize, c as usize)),
            Err(m) => res matches Err(Error::Passport(s)) && s@ == m,
        },
{
    if pos >= data.len() {
        return Err(Error::Passport(to_owned_string("TLV 长度越界")));
    }
    let first = data[pos];
    if first < 0x80 {
        return Ok((first as usize, 1));
    }
    let n = (first & 0x7F) as usize;
    assert(first >= 0x80 ==> (first & 0x7F) == first - 0x80) by (bit_vector);
    if n == 0 || n > 2 || data.len() - pos - 1 < n {
        return Err(Error::Passport(to_owned_string("不支持的 TLV 长度形式")));
    }
    if n == 1 {
        Ok((data[pos + 1] as usize, 2))
    } else {
        let hi = data[pos + 1] as usize;
        let lo = data[pos + 2] as usize;
        let v = (hi << 8) | lo;
        assert(v == hi * 256 + lo) by (bit_vector)
            requires
                hi < 256,
                lo < 256,
                v == (hi << 8) | lo,
        ;
        Ok((v, 3))
    }
}

/// An encoded length, wherever it stands, decodes to the length it encodes and the number of
/// bytes of its encoding (lengths up to `0xFFFF`).
pub proof fn law_parse_encode_len(a: Seq<u8>, n: nat, b: Seq<u8>)
    requires
        n <= 0xFFFF,
    ensures
        parse_len_spec(a + encode_len_spec(n) + b, a.len() as int) == Ok::<(nat, nat), Seq<char>>(
            (n, encode_len_spec(n).len()),
        ),
{
    let s = a + encode_len_spec(n) + b;
    let e = encode_len_spec(n);
    assert(s[a.len() as int] == e[0]);
    if n >= 0x80 {
        assert(s[a.len() as int + 1] == e[1]);
        if n > 0xFF {
            assert(s[a.len() as int + 2] == e[2]);
            assert(((n / 256) % 256) as u8 as nat * 256 + (n % 256) as u8 as nat == n);
        }
    }
}

/// Big-endian increment with wrap-around of a counter held in bytes.
pub open spec fn inc_spec(s: Seq<u8>) -> Seq<u8>
    decreases s.len(),
{
    if s.len() == 0 {
        s
    } else if s.last() == 0xFF {
        inc_spec(s.drop_last()).push(0)
    } else {
        s.drop_last().push((s.last() + 1) as u8)
    }
}

/// The value of a big-endian byte string.
pub open spec fn be_value(s: Seq<u8>) -> nat
    decreases s.len(),
{
    if s.len() == 0 {
        0
    } else {
        be_value(s.drop_last()) * 256 + s.last() as nat
    }
}

/// 256 to the power `n`.
pub open spec fn pow256(n: nat) -> nat
    decreases n,
{
    if n == 0 {
        1
    } else {
        256 * pow256((n - 1) as nat)
    }
}

proof fn lemma_be_value_bound(s: Seq<u8>)
    ensures
        be_value(s) < pow256(s.len()),
    decreases s.len(),
{
    if s.len() > 0 {
        lemma_be_value_bound(s.drop_last());
        let p = be_value(s.drop_last());
        let m = pow256((s.len() - 1) as nat);
        assert(p * 256 + s.last() < m * 256) by (nonlinear_arith)
            requires
                p < m,
                s.last() < 256,
        ;
    }
}

/// Incrementing the counter adds one to its big-endian value, modulo `256^len`.
pub proof fn law_inc_counter(s: Seq<u8>)
    ensures
        inc_spec(s).len() == s.len(),
        be_value(inc_spec(s)) == (be_value(s) + 1) % pow256(s.len()),
    decreases s.len(),
{
    if s.len() > 0 {
        let d = s.drop_last();
        law_inc_counter(d);
        lemma_be_value_bound(d);
        let p = be_value(d);
        let m = pow256(d.len());
        assert(inc_spec(s).drop_last() =~= if s.last() == 0xFF { inc_spec(d) } else { d });
        if s.last() == 0xFF {
            let q = (p + 1) % m;
            assert(be_value(inc_spec(s)) == q * 256);
            assert(((p * 256 + 255) + 1) % (256 * m) == ((p + 1) % m) * 256) by (nonlinear_arith)
                requires
                    m > 0,
                    p < m,
            ;
        } else {
            assert(be_value(inc_spec(s)) == p * 256 + s.last() + 1);
            assert(((p * 256 + s.last() + 1) as int) % ((256 * m) as int) == p * 256 + s.last() + 1) by (nonlinear_arith)
                requires
                    p < m,
                    s.last() < 255,
            ;
        }
    } else {
        assert(pow256(0) == 1);
    }
}

/// A secure-messaging session: the session keys and the send sequence counter.
pub struct SecureSession {
    ks_enc: Vec<u8>,
    ks_mac: Vec<u8>,
    ssc: [u8; 8],
}

/// The protected command for `CLA INS P1 P2`, data and optional `Le` under counter `ssc`:
/// `CLA | 0C`, then `DO87` (`01` and the 3DES-CBC encryption of the padded data, when there is
/// data), `DO97` (`97 01 Le`, when there is `Le`) and `DO8E` (the retail MAC of the padded
/// `SSC || padded header || DO87 || DO97`), with `Le = 00`.
pub open spec fn protect_spec(
    enc: Seq<u8>,
    mac: Seq<u8>,
    ssc: Seq<u8>,
    cla: u8,
    ins: u8,
    p1: u8,
    p2: u8,
    data: Seq<u8>,
    le: Option<u8>,
) -> Seq<u8> {
    let masked = cla | 0x0C;
    let header = pad_spec(seq![masked, ins, p1, p2]);
    let do87 = if data.len() == 0 {
        Seq::<u8>::empty()
    } else {
        let val = seq![0x01u8] + tdes_cbc_enc_spec(enc, pad_spec(data));
        seq![0x87u8] + encode_len_spec(val.len()) + val
    };
    let do97 = match le {
        Some(l) => seq![0x97u8, 0x01, l],
        None => Seq::<u8>::empty(),
    };
    let cc = retail_mac_spec(mac, pad_spec(ssc + header + do87 + do97));
    case4_bytes(masked, ins, p1, p2, do87 + do97 + seq![0x8Eu8, 0x08] + cc, 0x00)
}

/// The data objects of a protected response, scanned from `off`: each is a tag byte, a BER
/// length and a value; `87`, `99` and `8E` are kept (a later one replaces an earlier one),
/// others skipped; the scan stops at an object that runs past the end, and fails where a
/// length cannot be decoded.
pub open spec fn scan_objects(
    data: Seq<u8>,
    off: int,
    acc: (Seq<u8>, Seq<u8>, Seq<u8>),
) -> Result<(Seq<u8>, Seq<u8>, Seq<u8>), Seq<char>>
    decreases data.len() - off,
{
    if off < 0 || off >= data.len() {
        Ok(acc)
    } else {
        let tag = data[off];
        match parse_len_spec(data, off + 1) {
            Err(m) => Err(m),
            Ok((len, used)) => {
                let start = off + 1 + used;
                if start + len > data.len() {
                    Ok(acc)
                } else {
                    let val = data.subrange(start, start + len);
                    let next = if tag == 0x87 {
                        (val, acc.1, acc.2)
                    } else if tag == 0x99 {
                        (acc.0, val, acc.2)
                    } else if tag == 0x8E {
                        (acc.0, acc.1, val)
                    } else {
                        acc
                    };
                    scan_objects(data, start + len, next)
                }
            },
        }
    }
}

/// The MAC input of a response: `SSC || DO87 (as received, when present) || 99 02 <SW>`.
pub open spec fn response_mac_input(ssc: Seq<u8>, do87: Seq<u8>, do99: Seq<u8>) -> Seq<u8> {
    let d87 = if do87.len() == 0 {
        Seq::<u8>::empty()
    } else {
        seq![0x87u8] + encode_len_spec(do87.len()) + do87
    };
    ssc + d87 + seq![0x99u8, 0x02] + do99
}

/// Unprotecting a response under counter `ssc`: the plaintext and the status word of `DO99`,
/// or why it fails (a length that cannot be decoded, no two-byte `DO99`, no eight-byte `DO8E`
/// (every reply must carry its MAC), a `DO8E` that does not match the MAC, a `DO87` without the `01` indicator or whose ciphertext is not a whole number
/// of blocks).
pub open spec fn unprotect_spec(enc: Seq<u8>, mac: Seq<u8>, ssc: Seq<u8>, data: Seq<u8>) -> Result<(Seq<u8>, u8, u8), Seq<char>> {
    match scan_objects(data, 0, (Seq::empty(), Seq::empty(), Seq::empty())) {
        Err(m) => Err(m),
        Ok((do87, do99, do8e)) => if do99.len() != 2 {
            Err("响应缺少 DO'99 状态字"@)
        } else if do8e.len() != 8 {
            Err("响应缺少 8 字节的 DO'8E MAC"@)
        } else if retail_mac_spec(mac, pad_spec(response_mac_input(ssc, do87, do99))) != do8e {
            Err("响应 MAC 校验失败"@)
        } else if do87.len() != 0 && do87[0] != 0x01 {
            Err("DO'87 缺少填充指示字节"@)
        } else if do87.len() != 0 && (do87.len() - 1) % 8 != 0 {
            Err("DO'87 密文长度不是块长的整数倍"@)
        } else if do87.len() != 0 {
            Ok((unpad_spec(tdes_cbc_dec_spec(enc, do87.subrange(1, do87.len() as int))), do99[0], do99[1]))
        } else {
            Ok((Seq::empty(), do99[0], do99[1]))
        },
    }
}

/// Why a step through the secure channel failed: the transport's own error, passed on, or a
/// travel-document error with the given message.
pub enum StepFailure {
    Transport(Error),
    Message(Seq<char>),
}

/// `e` is the error that the failure `f` stands for.
pub open spec fn failure_is(e: Error, f: StepFailure) -> bool {
    match f {
        StepFailure::Transport(t) => e == t,
        StepFailure::Message(m) => e matches Error::Passport(s) && s@ == m,
    }
}

/// What a reply to a protected command gives, for a command sent when the counter stood at
/// `ssc`, and the counter afterwards: a transport error leaves the counter advanced once,
/// a reply advances it twice and is unprotected under the new value.
pub open spec fn sm_outcome(
    enc: Seq<u8>,
    mac: Seq<u8>,
    ssc: Seq<u8>,
    reply: Result<ApduResponse, Error>,
) -> (Result<(Seq<u8>, u8, u8), StepFailure>, Seq<u8>) {
    match reply {
        Err(e) => (Err(StepFailure::Transport(e)), inc_spec(ssc)),
        Ok(r) => {
            let c = inc_spec(inc_spec(ssc));
            match unprotect_spec(enc, mac, c, r.data@) {
                Ok(t) => (Ok(t), c),
                Err(m) => (Err(StepFailure::Message(m)), c),
            }
        },
    }
}

/// `res` is what the outcome `o` of a secure-channel step stands for.
pub open spec fn send_result_is(res: Result<(Vec<u8>, u8, u8), Error>, o: Result<(Seq<u8>, u8, u8), StepFailure>) -> bool {
    match o {
        Ok((p, s1, s2)) => res matches Ok((v, a, b)) && v@ == p && a == s1 && b == s2,
        Err(f) => res matches Err(e) && failure_is(e, f),
    }
}

impl SecureSession {
    /// The session encryption key.
    pub closed spec fn enc_key(&self) -> Seq<u8> {
        self.ks_enc@
    }

    /// The session MAC key.
    pub closed spec fn mac_key(&self) -> Seq<u8> {
        self.ks_mac@
    }

    /// The send sequence counter.
    pub closed spec fn counter(&self) -> Seq<u8> {
        self.ssc@
    }

    /// Whether both session keys are 16 bytes.
    pub open spec fn wf(&self) -> bool {
        self.enc_key().len() == 16 && self.mac_key().len() == 16 && self.counter().len() == 8
    }

    /// A session with the given keys and counter.
    pub fn new(ks_enc: Vec<u8>, ks_mac: Vec<u8>, ssc: [u8; 8]) -> (res: SecureSession)
        ensures
            res.enc_key() == ks_enc@,
            res.mac_key() == ks_mac@,
            res.counter() == ssc@,
            res.counter().len() == 8,
    {
        SecureSession { ks_enc, ks_mac, ssc }
    }

    /// Advances the counter: big-endian increment with wrap-around.
    fn increment_ssc(&mut self)
        ensures
            final(self).counter() == inc_spec(old(self).counter()),
            final(self).enc_key() == old(self).enc_key(),
            final(self).mac_key() == old(self).mac_key(),
    {
        let ghost orig = self.ssc@;
        let mut i: usize = 8;
        loop
            invariant
                0 <= i <= 8,
                orig.len() == 8,
                self.ks_enc == old(self).ks_enc,
                self.ks_mac == old(self).ks_mac,
                orig == old(self).ssc@,
                self.ssc@ == orig.subrange(0, i as int) + Seq::new((8 - i) as nat, |k: int| 0u8),
                forall|k: int| i <= k < 8 ==> orig[k] == 0xFF,
                inc_spec(orig) == inc_spec(orig.subrange(0, i as int)) + Seq::new((8 - i) as nat, |k: int| 0u8),
            decreases i,
        {
            if i == 0 {
                assert(inc_spec(orig.subrange(0, 0)) =~= Seq::<u8>::empty());
                assert(self.ssc@ =~= inc_spec(orig));
                return;
            }
            let j = i - 1;
            let ghost pre = orig.subrange(0, i as int);
            assert(pre.drop_last() =~= orig.subrange(0, j as int));
            if self.ssc[j] == 0xFF {
                self.ssc[j] = 0;
                i = j;
                assert(self.ssc@ =~= orig.subrange(0, i as int) + Seq::new((8 - i) as nat, |k: int| 0u8));
                assert(inc_spec(orig) =~= inc_spec(orig.subrange(0, i as int)) + Seq::new((8 - i) as nat, |k: int| 0u8));
            } else {
                let v = self.ssc[j] + 1;
                self.ssc[j] = v;
                assert(self.ssc@ =~= inc_spec(orig));
                return;
            }
        }
    }

    /// Sends one command through the channel: advances the counter, protects the command
    /// (`protect_spec`), sends it, advances the counter again and unprotects the reply's data
    /// (`unprotect_spec`); the result is the plaintext and the status word inside the reply.
    pub fn send<T: Transceiver>(
        &mut self,
        tx: &mut T,
        cla: u8,
        ins: u8,
        p1: u8,
        p2: u8,
        data: &[u8],
        le: Option<u8>,
    ) -> (res: Result<(Vec<u8>, u8, u8), Error>)
        requires
            old(self).wf(),
        ensures
            final(self).wf(),
            final(self).enc_key() == old(self).enc_key(),
            final(self).mac_key() == old(self).mac_key(),
            one_more(old(tx).exchanges(), final(tx).exchanges(), protect_spec(
                old(self).enc_key(), old(self).mac_key(), inc_spec(old(self).counter()),
                cla, ins, p1, p2, data@, le)),
            final(self).counter() == sm_outcome(old(self).enc_key(), old(self).mac_key(),
                old(self).counter(), final(tx).exchanges().last().1).1,
            send_result_is(res, sm_outcome(old(self).enc_key(), old(self).mac_key(),
                old(self).counter(), final(tx).exchanges().last().1).0),
    {
        self.increment_ssc();
        proof { law_inc_counter(old(self).counter()); }
        let masked_cla = cla | 0x0C;
        let hdr: [u8; 4] = [masked_cla, ins, p1, p2];
        let cmd_header = pad(&hdr);
        assert(hdr@ =~= seq![masked_cla, ins, p1, p2]);
        let mut do87: Vec<u8> = Vec::new();
        if data.len() > 0 {
            let padded = pad(data);
            let enc = tdes_cbc_encrypt(self.ks_enc.as_slice(), padded.as_slice());
            let mut val: Vec<u8> = vec![0x01];
            val.extend_from_slice(enc.as_slice());
            assert(val@ =~= seq![0x01u8] + enc@);
            do87.push(0x87);
            let l = encode_len(val.len());
            do87.extend_from_slice(l.as_slice());
            do87.extend_from_slice(val.as_slice());
            assert(do87@ =~= seq![0x87u8] + encode_len_spec(val@.len()) + val@);
        }
        let mut do97: Vec<u8> = Vec::new();
        if let Some(l) = le {
            do97.push(0x97);
            do97.push(0x01);
            do97.push(l);
            assert(do97@ =~= seq![0x97u8, 0x01, l]);
        }
        let mut mac_input: Vec<u8> = vstd::slice::slice_to_vec(self.ssc.as_slice());
        mac_input.extend_from_slice(cmd_header.as_slice());
        mac_input.extend_from_slice(do87.as_slice());
        mac_input.extend_from_slice(do97.as_slice());
        let ghost mi = self.ssc@ + cmd_header@ + do87@ + do97@;
        assert(mac_input@ =~= mi);
        let padded_mac = pad(mac_input.as_slice());
        let cc = retail_mac(self.ks_mac.as_slice(), padded_mac.as_slice());
        assert(self.ks_mac@.subrange(0, 16) =~= self.ks_mac@);
        let mut body: Vec<u8> = Vec::new();
        body.extend_from_slice(do87.as_slice());
        body.extend_from_slice(do97.as_slice());
        body.push(0x8E);
        body.push(0x08);
        body.extend_from_slice(cc.as_slice());
        assert(body@ =~= do87@ + do97@ + seq![0x8Eu8, 0x08] + cc@);
        let apdu = Apdu::case4(masked_cla, ins, p1, p2, body.as_slice(), 0x00);
        let r = tx.transceive(&apdu);
        assert(tx.exchanges().subrange(0, old(tx).exchanges().len() as int) =~= old(tx).exchanges());
        let resp = r?;
        self.increment_ssc();
        self.unprotect(resp.data.as_slice())
    }

    /// Checks and decrypts a protected response under the current counter.
    fn unprotect(&self, data: &[u8]) -> (res: Result<(Vec<u8>, u8, u8), Error>)
        requires
            self.wf(),
        ensures
            match unprotect_spec(self.enc_key(), self.mac_key(), self.counter(), data@) {
                Ok((p, s1, s2)) => res matches Ok((v, a, b)) && v@ == p && a == s1 && b == s2,
                Err(m) => res matches Err(Error::Passport(s)) && s@ == m,
            },
    {
        let mut do87: Vec<u8> = Vec::new();
        let mut do99: Vec<u8> = Vec::new();
        let mut do8e: Vec<u8> = Vec::new();
        let mut off: usize = 0;
        let mut stop = false;
        let ghost empty = (Seq::<u8>::empty(), Seq::<u8>::empty(), Seq::<u8>::empty());
        while off < data.len() && !stop
            invariant
                off <= data@.len(),
                empty == (Seq::<u8>::empty(), Seq::<u8>::empty(), Seq::<u8>::empty()),
                scan_objects(data@, 0, empty) == scan_objects(data@, off as int, (do87@, do99@, do8e@)),
                stop ==> scan_objects(data@, off as int, (do87@, do99@, do8e@)) == Ok::<(Seq<u8>, Seq<u8>, Seq<u8>), Seq<char>>((do87@, do99@, do8e@)),
            decreases data@.len() - off, (if stop { 0int } else { 1int }),
        {
            let ghost acc = (do87@, do99@, do8e@);
            let tag = data[off];
            let pl = parse_len(data, off + 1);
            let (len, consumed) = match pl {
                Ok(p) => p,
                Err(e) => {
                    proof {
                        let m = parse_len_spec(data@, off + 1)->Err_0;
                        assert(scan_objects(data@, off as int, acc) == Err::<(Seq<u8>, Seq<u8>, Seq<u8>), Seq<char>>(m));
                        assert(scan_objects(data@, 0, empty) == Err::<(Seq<u8>, Seq<u8>, Seq<u8>), Seq<char>>(m));
                        assert(empty == (Seq::<u8>::empty(), Seq::<u8>::empty(), Seq::<u8>::empty()));
                        assert(unprotect_spec(self.enc_key(), self.mac_key(), self.counter(), data@) == Err::<(Seq<u8>, u8, u8), Seq<char>>(m));
                    }
                    return Err(e);
                },
            };
            let start = off + 1 + consumed;
            if len > data.len() - start {
                stop = true;
            } else {
                let val = vstd::slice::slice_to_vec(vstd::slice::slice_subrange(data, start, start + len));
                if tag == 0x87 {
                    do87 = val;
                } else if tag == 0x99 {
                    do99 = val;
                } else if tag == 0x8E {
                    do8e = val;
                }
                off = start + len;
            }
        }
        let ghost scanned = (do87@, do99@, do8e@);
        assert(scan_objects(data@, 0, empty) == Ok::<(Seq<u8>, Seq<u8>, Seq<u8>), Seq<char>>(scanned));
        if do99.len() != 2 {
            return Err(Error::Passport(to_owned_string("响应缺少 DO'99 状态字")));
        }
        let rsw1 = do99[0];
        let rsw2 = do99[1];
        if do8e.len() != 8 {
            return Err(Error::Passport(to_owned_string("响应缺少 8 字节的 DO'8E MAC")));
        }
        {
            let mut mac_input: Vec<u8> = vstd::slice::slice_to_vec(self.ssc.as_slice());
            if do87.len() > 0 {
                mac_input.push(0x87);
                let l = encode_len(do87.len());
                mac_input.extend_from_slice(l.as_slice());
                mac_input.extend_from_slice(do87.as_slice());
            }
            mac_input.push(0x99);
            mac_input.push(0x02);
            mac_input.extend_from_slice(do99.as_slice());
            assert(mac_input@ =~= response_mac_input(self.ssc@, do87@, do99@));
            let padded = pad(mac_input.as_slice());
            let cc = retail_mac(self.ks_mac.as_slice(), padded.as_slice());
            assert(self.ks_mac@.subrange(0, 16) =~= self.ks_mac@);
            if !bytes_eq(cc.as_slice(), do8e.as_slice()) {
                return Err(Error::Passport(to_owned_string("响应 MAC 校验失败")));
            }
        }
        let mut plain: Vec<u8> = Vec::new();
        if do87.len() > 0 {
            if do87[0] != 0x01 {
                return Err(Error::Passport(to_owned_string("DO'87 缺少填充指示字节")));
            }
            if (do87.len() - 1) % 8 != 0 {
                return Err(Error::Passport(to_owned_string("DO'87 密文长度不是块长的整数倍")));
            }
            let ct = vstd::slice::slice_subrange(do87.as_slice(), 1, do87.len());
            let dec = tdes_cbc_decrypt(self.ks_enc.as_slice(), ct);
            plain = unpad(dec.as_slice());
        }
        Ok((plain, rsw1, rsw2))
    }
}

/// Whether two byte strings are equal.
pub fn bytes_eq(a: &[u8], b: &[u8]) -> (res: bool)
    ensures
        res == (a@ == b@),
{
    if a.len() != b.len() {
        return false;
    }
    let mut i: usize = 0;
    while i < a.len()
        invariant
            a@.len() == b@.len(),
            i <= a@.len(),
            forall|k: int| 0 <= k < i ==> a@[k] == b@[k],
        decreases a@.len() - i,
    {
        if a[i] != b[i] {
            return false;
        }
        i = i + 1;
    }
    assert(a@ =~= b@);
    true
}

} // verus!
