use tarot::parse::dates::{civil_from_days, days_from_civil, timestamp_for_date_time};
use tarot::apdu::{Apdu, ApduResponse};
use tarot::error::Error;
use tarot::model::{ApduLink, Channel};
use tarot::traveldoc::crypto::{derive_key, generate_kseed, pad, retail_mac, unpad};
use tarot::traveldoc::sm::{encode_len, parse_len, SecureSession};

#[test]
fn unpad_of_pad_gives_the_message_back() {
    for n in 0..20usize {
        let data: Vec<u8> = (0..n).map(|i| (i as u8).wrapping_mul(37).wrapping_add(1)).collect();
        let p = pad(&data);
        assert_eq!(p.len() % 8, 0);
        assert!(p.len() > data.len());
        assert_eq!(p[data.len()], 0x80);
        assert_eq!(unpad(&p), data);
    }
    assert_eq!(pad(&[1, 2, 3]), vec![1, 2, 3, 0x80, 0, 0, 0, 0]);
    assert_eq!(unpad(&[1, 2, 0x80, 0, 0]), vec![1, 2]);
    assert_eq!(unpad(&[1, 2, 3]), vec![1, 2, 3]);
}

#[test]
fn length_encoding_reads_back() {
    assert_eq!(encode_len(0x10), vec![0x10]);
    assert_eq!(encode_len(0x80), vec![0x81, 0x80]);
    assert_eq!(encode_len(0x1234), vec![0x82, 0x12, 0x34]);
    for n in [0usize, 1, 0x7F, 0x80, 0xFF, 0x100, 0xFFFF] {
        let mut bytes = vec![0xAA];
        bytes.extend(encode_len(n));
        bytes.push(0xBB);
        let (len, used) = parse_len(&bytes, 1).unwrap();
        assert_eq!(len, n);
        assert_eq!(used, encode_len(n).len());
    }
    assert!(parse_len(&[0x83, 0, 0, 0], 0).is_err());
    assert!(parse_len(&[0x82, 0x01], 0).is_err());
    assert!(parse_len(&[], 0).is_err());
}

#[test]
fn icao_sample_keys() {
    let kseed = generate_kseed("L898902C<369080619406236");
    assert_eq!(hex::encode_upper(&kseed), "239AB9CB282DAF66231DC5A4DF6BFBAE");
    let kenc = derive_key(&kseed, 1);
    let kmac = derive_key(&kseed, 2);
    assert_eq!(hex::encode_upper(&kenc), "AB94FDECF2674FDFB9B391F85D7F76F2");
    assert_eq!(hex::encode_upper(&kmac), "7962D9ECE03D1ACD4C76089DCE131543");
    for b in kenc.iter().chain(kmac.iter()) {
        assert_eq!(b.count_ones() % 2, 1);
    }
}

#[test]
fn civil_days_round_trip() {
    assert_eq!(days_from_civil(1970, 1, 1), Some(0));
    assert_eq!(days_from_civil(2000, 3, 1), Some(11017));
    assert_eq!(days_from_civil(2023, 2, 29), None);
    assert_eq!(days_from_civil(2024, 2, 29), Some(19782));
    assert_eq!(civil_from_days(19782), (2024, 2, 29));
    assert_eq!(civil_from_days(-1), (1969, 12, 31));
    for d in [-800_000i32, -1, 0, 1, 59, 60, 11016, 19782, 700_000] {
        let (y, m, day) = civil_from_days(d);
        assert_eq!(days_from_civil(y, m, day), Some(d));
    }
    assert_eq!(timestamp_for_date_time(2026, 7, 9, 8, 0, 0), Some(1_783_584_000));
    assert_eq!(timestamp_for_date_time(2026, 7, 9, 24, 0, 0), None);
}

struct OneReply(Vec<u8>);

impl ApduLink for OneReply {
    fn send(&mut self, _apdu: &Apdu) -> Result<ApduResponse, Error> {
        Ok(ApduResponse { data: self.0.clone(), sw1: 0x90, sw2: 0x00 })
    }
}

#[test]
fn reply_without_mac_is_rejected() {
    let mut s = SecureSession::new(vec![0u8; 16], vec![0u8; 16], [0u8; 8]);
    let mut tx = Channel::new(OneReply(vec![0x99, 0x02, 0x90, 0x00]));
    match s.send(&mut tx, 0x00, 0xB0, 0x00, 0x00, &[], Some(4)) {
        Err(Error::Passport(m)) => assert_eq!(m, "响应缺少 8 字节的 DO'8E MAC"),
        other => panic!("unexpected {:?}", other),
    }
}

#[test]
fn reply_with_a_valid_mac_is_accepted() {
    let mac_key = vec![0x11u8; 16];
    let mut ssc = [0u8; 8];
    ssc[7] = 2;
    let mut input = ssc.to_vec();
    input.extend_from_slice(&[0x99, 0x02, 0x90, 0x00]);
    let mac = retail_mac(&mac_key, &pad(&input));
    let mut reply = vec![0x99, 0x02, 0x90, 0x00, 0x8E, 0x08];
    reply.extend_from_slice(&mac);
    let mut s = SecureSession::new(vec![0u8; 16], mac_key, [0u8; 8]);
    let mut tx = Channel::new(OneReply(reply.clone()));
    assert_eq!(s.send(&mut tx, 0x00, 0xB0, 0x00, 0x00, &[], Some(4)).unwrap(), (vec![], 0x90, 0x00));
    let mut bad = reply;
    let last = bad.len() - 1;
    bad[last] ^= 1;
    let mut s = SecureSession::new(vec![0u8; 16], vec![0x11u8; 16], [0u8; 8]);
    let mut tx = Channel::new(OneReply(bad));
    match s.send(&mut tx, 0x00, 0xB0, 0x00, 0x00, &[], Some(4)) {
        Err(Error::Passport(m)) => assert_eq!(m, "响应 MAC 校验失败"),
        other => panic!("unexpected {:?}", other),
    }
}
