use tarot::apdu::{Apdu, ApduResponse};
use tarot::error::Error;
use tarot::hexfmt::{decode, encode_upper};
use tarot::passport::{check_digit, PassportKey};

#[test]
fn build_case2() {
    let a = Apdu::case2(0x80, 0x5C, 0x00, 0x02, 0x04);
    assert_eq!(a.to_hex(), "805C000204");
}

#[test]
fn build_case3() {
    let a = Apdu::case3(0x00, 0xA4, 0x04, 0x00, &[0x11, 0x22]);
    assert_eq!(a.to_hex(), "00A404000211 22".replace(' ', ""));
}

#[test]
fn build_case4() {
    let a = Apdu::case4(0x00, 0xA4, 0x04, 0x00, &[0xAA], 0x00);
    assert_eq!(a.to_hex(), "00A4040001AA00");
}

#[test]
fn parse_response_ok() {
    let r = ApduResponse::parse(&[0x12, 0x34, 0x90, 0x00]).unwrap();
    assert_eq!(r.data, vec![0x12, 0x34]);
    assert_eq!(r.sw(), 0x9000);
    assert!(r.is_ok());
    assert_eq!(r.data_hex(), "1234");
    assert_eq!(r.to_hex(), "12349000");
}

#[test]
fn parse_response_error_status() {
    let r = ApduResponse::parse(&[0x6A, 0x82]).unwrap();
    assert!(!r.is_ok());
    assert_eq!(r.sw(), 0x6A82);
    assert!(r.data.is_empty());
}

#[test]
fn parse_too_short() {
    assert!(ApduResponse::parse(&[0x90]).is_err());
}

#[test]
fn check_digit_icao_example() {
    assert_eq!(check_digit("D23145890"), '7');
    assert_eq!(check_digit("340727"), '5');
    assert_eq!(check_digit("950712"), '2');
    assert_eq!(check_digit("L898902C<"), '3');
    assert_eq!(check_digit("690806"), '1');
    assert_eq!(check_digit("940623"), '6');
}

#[test]
fn mrz_key_composition() {
    let k = PassportKey::new("L898902C", "690806", "940623");
    let key = k.mrz_key();
    assert!(key.starts_with("L898902C<"));
    assert_eq!(key.len(), 24);
}

#[test]
fn validate_rejects_bad_date() {
    let k = PassportKey::new("X1234567", "69080", "940623");
    assert!(k.validate().is_err());
}

#[test]
fn mrz_key_is_the_icao_sample() {
    let k = PassportKey::new(" l898902c ", "690806", "940623");
    assert_eq!(k.mrz_key(), "L898902C<369080619406236");
    assert!(k.validate().is_ok());
}

#[test]
fn validate_names_the_first_broken_rule() {
    assert_eq!(PassportKey::new("", "690806", "940623").validate(), Err("证件号不能为空".to_string()));
    assert_eq!(
        PassportKey::new("1234567890", "690806", "940623").validate(),
        Err("证件号超过 9 位（如为长号请咨询具体规范）".to_string())
    );
    assert_eq!(
        PassportKey::new("X1", "6908a6", "940623").validate(),
        Err("出生日期须为 YYMMDD 6 位数字".to_string())
    );
    assert_eq!(
        PassportKey::new("X1", "690806", "94062").validate(),
        Err("有效期须为 YYMMDD 6 位数字".to_string())
    );
}

#[test]
fn response_bytes_split_back() {
    let bytes = [0x01, 0x02, 0x03, 0x61, 0x10];
    let r = ApduResponse::parse(&bytes).unwrap();
    assert_eq!(r.data, vec![1, 2, 3]);
    assert_eq!((r.sw1, r.sw2), (0x61, 0x10));
    assert_eq!(r.to_hex(), "0102036110");
}

#[test]
fn ok_or_status_reports_the_status_word() {
    let r = ApduResponse { data: vec![], sw1: 0x6A, sw2: 0x82 };
    assert_eq!(r.ok_or_status().unwrap_err(), Error::ApduStatus { sw1: 0x6A, sw2: 0x82 });
    let ok = ApduResponse { data: vec![7], sw1: 0x90, sw2: 0x00 };
    assert_eq!(ok.ok_or_status().unwrap().data, vec![7]);
}

#[test]
fn hex_decode_of_encode_gives_the_bytes_back() {
    let bytes = vec![0x00, 0x7F, 0x80, 0xFF, 0x12];
    let text = encode_upper(&bytes);
    assert_eq!(text, "007F80FF12");
    assert_eq!(decode(&text), Some(bytes));
    assert_eq!(decode("abc"), None);
    assert_eq!(decode("zz"), None);
    assert_eq!(decode("0a0B"), Some(vec![0x0A, 0x0B]));
}

#[test]
fn apdu_from_hex_rejects_bad_text() {
    assert!(Apdu::from_hex("00A4").is_ok());
    assert!(matches!(Apdu::from_hex("00A"), Err(Error::Other(_))));
}

#[test]
fn error_texts() {
    assert_eq!(Error::ApduStatus { sw1: 0x6A, sw2: 0x82 }.text(), "card returned status 6A82");
    assert_eq!(Error::ShortResponse(1).text(), "response too short: 1 bytes");
    assert_eq!(Error::NoCard.text(), "no card present in reader");
    assert_eq!(Error::Pcsc("x".to_string()).text(), "PC/SC error: x");
    assert_eq!(Error::Other("boom".to_string()).text(), "boom");
}

#[test]
fn bad_hex_commands_name_the_fault() {
    match Apdu::from_hex("123") {
        Err(Error::Other(m)) => assert_eq!(m, "bad hex apdu: Odd number of digits"),
        other => panic!("unexpected {:?}", other),
    }
    match Apdu::from_hex("0G") {
        Err(Error::Other(m)) => assert_eq!(m, "bad hex apdu: Invalid character 'G' at position 1"),
        other => panic!("unexpected {:?}", other),
    }
    match Apdu::from_hex("00A4\n0") {
        Err(Error::Other(m)) => assert_eq!(m, "bad hex apdu: Invalid character '\\n' at position 4"),
        other => panic!("unexpected {:?}", other),
    }
}

#[test]
fn passport_key_removes_inner_spaces() {
    let k = PassportKey::new(" l898 902c ", " 690806", "940623 ");
    assert_eq!(k.doc_number, "L898902C");
    assert_eq!(k.date_of_birth, "690806");
    assert_eq!(k.date_of_expiry, "940623");
}
