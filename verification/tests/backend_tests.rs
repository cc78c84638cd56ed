use tarot::apdu::{Apdu, ApduResponse};
use tarot::error::Error;
use tarot::felica::{
    build_rc_s300_data_exchange, build_read_without_encryption, read_octopus, transport_for_reader, FelicaTransport,
};
use tarot::model::{ApduLink, CardStandard, Channel, RawCardData};
use tarot::reader::{exchange_next, first_reader, trace_of, ExchangeAction, ExchangePhase};
use tarot::helpers::{read_basic_info_file, read_pboc_balance_atc_trans};
use tarot::mifare::read_classic;
use tarot::transit::{probe_beijing, probe_macau_fallback, read_by_name, transceive_retry};
use tarot::cards::read_card;

struct MockTx {
    seen: Vec<String>,
    responses: Vec<ApduResponse>,
}

impl MockTx {
    fn new(responses: Vec<ApduResponse>) -> Self {
        Self { seen: Vec::new(), responses }
    }
}

impl ApduLink for MockTx {
    fn send(&mut self, apdu: &Apdu) -> Result<ApduResponse, Error> {
        self.seen.push(apdu.to_hex());
        Ok(self.responses.remove(0))
    }
}

#[derive(Default)]
struct FailingTx {
    seen: Vec<String>,
}

impl ApduLink for FailingTx {
    fn send(&mut self, apdu: &Apdu) -> Result<ApduResponse, Error> {
        self.seen.push(apdu.to_hex());
        Err(Error::Other("unsupported command".into()))
    }
}

fn ok_response(data: &[u8]) -> ApduResponse {
    ApduResponse { data: data.to_vec(), sw1: 0x90, sw2: 0x00 }
}

fn response(data: &[u8], sw1: u8, sw2: u8) -> ApduResponse {
    ApduResponse { data: data.to_vec(), sw1, sw2 }
}

#[test]
fn selects_data_exchange_for_rc_s300_names() {
    assert_eq!(
        transport_for_reader("Sony FeliCa Port/PaSoRi 4.0 00 00"),
        Some(FelicaTransport::RcS300DataExchange)
    );
    assert_eq!(transport_for_reader("RC-S300/P"), Some(FelicaTransport::RcS300DataExchange));
}

#[test]
fn does_not_match_other_sony_pasori_readers() {
    assert_eq!(transport_for_reader("SONY PaSoRi RC-S380"), None);
    assert_eq!(transport_for_reader("SONY FeliCa Reader"), None);
    assert_eq!(transport_for_reader("HID OMNIKEY 5022"), None);
}

#[test]
fn keeps_acr_direct_for_acs_names() {
    assert_eq!(transport_for_reader("ACS ACR1251U PICC Interface"), Some(FelicaTransport::AcrDirect));
    assert_eq!(transport_for_reader("ACS ACR1251 1S Dual Reader PICC 0"), Some(FelicaTransport::AcrDirect));
}

#[test]
fn unknown_reader_only_gets_idm() {
    let mut tx = Channel::new(MockTx::new(vec![ok_response(&[1, 2, 3, 4, 5, 6, 7, 8])]));
    let mut data = RawCardData::new();

    read_octopus(&mut tx, "HID OMNIKEY 5022", &mut data).unwrap();

    assert_eq!(tx.link.seen, vec!["FFCA000000"]);
    assert_eq!(data.get("felica_idm"), Some("0102030405060708"));
    assert_eq!(data.get("felica_transport"), None);
    assert_eq!(data.get("felica_unsupported_reader"), Some("HID OMNIKEY 5022"));
}

#[test]
fn unknown_reader_get_idm_failure_is_not_a_read_error() {
    let mut tx = Channel::new(FailingTx::default());
    let mut data = RawCardData::new();

    read_octopus(&mut tx, "HID OMNIKEY 5022", &mut data).unwrap();

    assert_eq!(tx.link.seen, vec!["FFCA000000"]);
    assert_eq!(data.card_type, "Felica");
    assert_eq!(data.get("felica_unsupported_reader"), Some("HID OMNIKEY 5022"));
}

#[test]
fn adapted_acr_reader_gets_felica_command() {
    let mut tx = Channel::new(MockTx::new(vec![ok_response(&[1, 2, 3, 4, 5, 6, 7, 8]), ok_response(&[0x1D, 0x07])]));
    let mut data = RawCardData::new();

    read_octopus(&mut tx, "ACS ACR1251U PICC Interface", &mut data).unwrap();

    assert_eq!(tx.link.seen, vec!["FFCA000000", "FF0000001010060102030405060708011701018000"]);
    assert_eq!(data.get("felica_transport"), Some("acr_direct"));
}

#[test]
fn builds_octopus_read_frame() {
    let frame = build_read_without_encryption(&[1, 2, 3, 4, 5, 6, 7, 8], 0x0117, 0);
    assert_eq!(hex::encode_upper(frame), "10060102030405060708011701018000");
}

#[test]
fn wraps_rc_s300_frame_in_direct_data_exchange() {
    let frame = build_read_without_encryption(&[1, 2, 3, 4, 5, 6, 7, 8], 0x0117, 0);
    assert_eq!(build_rc_s300_data_exchange(&frame).to_hex(), "FFFE0100101006010203040506070801170101800000");
}

#[test]
fn retry_6c_uses_suggested_le() {
    let mut tx = Channel::new(MockTx::new(vec![response(&[], 0x6C, 0x20), response(&[0x12], 0x90, 0x00)]));

    let r = transceive_retry(&mut tx, Apdu::from_bytes(vec![0x00, 0xB0, 0x84, 0x00, 0x3C])).unwrap();

    assert!(r.is_ok());
    assert_eq!(tx.link.seen, vec!["00B084003C", "00B0840020"]);
}

#[test]
fn retry_6700_uses_zero_le() {
    let mut tx = Channel::new(MockTx::new(vec![response(&[], 0x67, 0x00), response(&[0x34], 0x90, 0x00)]));

    let r = transceive_retry(&mut tx, Apdu::from_bytes(vec![0x80, 0x5C, 0x05, 0x02, 0x10])).unwrap();

    assert!(r.is_ok());
    assert_eq!(tx.link.seen, vec!["805C050210", "805C050200"]);
}

#[test]
fn first_reader_or_no_reader() {
    assert_eq!(first_reader(&vec![]), Err(Error::NoReader));
    assert_eq!(first_reader(&vec!["A".to_string(), "B".to_string()]), Ok("A".to_string()));
}

fn transmit_bytes(a: ExchangeAction) -> Vec<u8> {
    match a {
        ExchangeAction::Transmit(b) => b,
        ExchangeAction::Finish { .. } => panic!("expected a transmission"),
    }
}

#[test]
fn exchange_resends_with_suggested_length_then_collects() {
    let cmd = [0x00, 0xB2, 0x01, 0x0C, 0x00];
    let (phase, act) = exchange_next(&cmd, ExchangePhase::Sent, &[0x6C, 0x10]);
    assert_eq!(transmit_bytes(act), vec![0x00, 0xB2, 0x01, 0x0C, 0x10]);
    let (phase, act) = exchange_next(&cmd, phase, &[0xAA, 0x61, 0x02]);
    assert_eq!(transmit_bytes(act), vec![0x00, 0xC0, 0x00, 0x00, 0x02]);
    let (_, act) = exchange_next(&cmd, phase, &[0xBB, 0xCC, 0x90, 0x00]);
    match act {
        ExchangeAction::Finish { response, short } => {
            assert!(!short);
            assert_eq!(response.data, vec![0xAA, 0xBB, 0xCC]);
            assert_eq!((response.sw1, response.sw2), (0x90, 0x00));
        }
        ExchangeAction::Transmit(_) => panic!("expected the end"),
    }
}

#[test]
fn exchange_short_reply_is_an_empty_response() {
    let (_, act) = exchange_next(&[0x00, 0xA4], ExchangePhase::Sent, &[0x90]);
    match act {
        ExchangeAction::Finish { response, short } => {
            assert!(short);
            assert!(response.data.is_empty());
            assert_eq!((response.sw1, response.sw2), (0, 0));
        }
        ExchangeAction::Transmit(_) => panic!("expected the end"),
    }
}

#[test]
fn pboc_purse_read_stops_at_first_missing_record() {
    let mut tx = Channel::new(MockTx::new(vec![
        ok_response(&[0x00, 0x00, 0x03, 0xE8]),
        ok_response(&[0xAB; 23]),
        response(&[], 0x6A, 0x83),
        ok_response(&[0x01, 0x02]),
    ]));
    let mut data = RawCardData::new();
    read_pboc_balance_atc_trans(&mut tx, 2, &mut data, "sz_").unwrap();
    assert_eq!(
        tx.link.seen,
        vec!["805C000204", "00B201C417", "00B202C417", "805000020B0100000001000000000010"]
    );
    assert_eq!(data.get("sz_balance"), Some("000003E8"));
    assert_eq!(data.get("sz_trans_1"), Some("AB".repeat(23).as_str()));
    assert_eq!(data.get("sz_trans_2"), None);
    assert_eq!(data.get("sz_load_atc"), Some("0102"));
}

#[test]
fn pboc_purse_read_stops_after_ten_records() {
    let mut replies = vec![response(&[], 0x6A, 0x82)];
    for _ in 0..10 {
        replies.push(ok_response(&[0x11]));
    }
    replies.push(response(&[], 0x69, 0x85));
    let mut tx = Channel::new(MockTx::new(replies));
    let mut data = RawCardData::new();
    read_pboc_balance_atc_trans(&mut tx, 1, &mut data, "").unwrap();
    assert_eq!(tx.link.seen.len(), 12);
    assert_eq!(tx.link.seen[10], "00B20AC417");
    assert_eq!(data.get("balance"), None);
    assert_eq!(data.get("trans_10"), Some("11"));
    assert_eq!(data.get("load_atc"), None);
}

#[test]
fn pboc_purse_read_ends_on_a_failed_exchange() {
    let mut tx = Channel::new(FailingTx::default());
    let mut data = RawCardData::new();
    assert!(read_pboc_balance_atc_trans(&mut tx, 2, &mut data, "x_").is_err());
    assert_eq!(tx.link.seen, vec!["805C000204"]);
    assert!(data.raw_fields.is_empty());
}

#[test]
fn basic_info_file_is_stored_on_success() {
    let mut tx = Channel::new(MockTx::new(vec![ok_response(&[0x12, 0x34])]));
    let mut data = RawCardData::new();
    assert_eq!(read_basic_info_file(&mut tx, &mut data, "info").unwrap(), true);
    assert_eq!(tx.link.seen, vec!["00B095001E"]);
    assert_eq!(data.get("info"), Some("1234"));
    let mut tx = Channel::new(MockTx::new(vec![response(&[], 0x6A, 0x82)]));
    let mut data = RawCardData::new();
    assert_eq!(read_basic_info_file(&mut tx, &mut data, "info").unwrap(), false);
    assert_eq!(data.get("info"), None);
}

#[test]
fn classic_read_stops_at_a_refused_key() {
    let mut tx = Channel::new(MockTx::new(vec![
        ok_response(&[]),
        ok_response(&[]),
        ok_response(&[0x01; 16]),
        ok_response(&[0x02; 16]),
        response(&[], 0x6A, 0x82),
        ok_response(&[0x04; 16]),
        response(&[], 0x69, 0x82),
    ]));
    let mut data = RawCardData::new();
    read_classic(&mut tx, &mut data).unwrap();
    assert_eq!(
        tx.link.seen,
        vec![
            "FF82000006A0A1A2A3A4A5",
            "FF860000050100006000",
            "FFB0000010",
            "FFB0000110",
            "FFB0000210",
            "FFB0000310",
            "FF82000006D3F7D3F7D3F7",
        ]
    );
    assert_eq!(data.card_type, "MifareClassic");
    let expected = format!("{}{}{}", "01".repeat(16), "02".repeat(16), "04".repeat(16));
    assert_eq!(data.get("classic_data"), Some(expected.as_str()));
}

#[test]
fn classic_read_with_no_key_stores_nothing() {
    let mut tx = Channel::new(MockTx::new(vec![response(&[], 0x63, 0x00)]));
    let mut data = RawCardData::new();
    read_classic(&mut tx, &mut data).unwrap();
    assert_eq!(tx.link.seen.len(), 1);
    assert_eq!(data.card_type, "MifareClassic");
    assert!(data.raw_fields.is_empty());
    let mut tx = Channel::new(FailingTx::default());
    let mut data = RawCardData::new();
    assert!(read_classic(&mut tx, &mut data).is_err());
    assert!(data.raw_fields.is_empty());
}

struct ScriptTx {
    seen: Vec<String>,
    responses: Vec<ApduResponse>,
}

impl ApduLink for ScriptTx {
    fn send(&mut self, apdu: &Apdu) -> Result<ApduResponse, Error> {
        self.seen.push(apdu.to_hex());
        if self.responses.is_empty() {
            Ok(response(&[], 0x6A, 0x82))
        } else {
            Ok(self.responses.remove(0))
        }
    }
}

fn script(responses: Vec<ApduResponse>) -> Channel<ScriptTx> {
    Channel::new(ScriptTx { seen: Vec::new(), responses })
}

#[test]
fn tmoney_reads_balance_and_records_until_a_miss() {
    let mut tx = script(vec![ok_response(&[0, 0, 0x27, 0x10]), ok_response(&[0xAA]), ok_response(&[0xBB])]);
    let mut data = RawCardData::new();
    read_by_name(&mut tx, "TMoney", &mut data).unwrap();
    assert_eq!(tx.link.seen, vec!["904C000004", "00B201242E", "00B202242E", "00B203242E"]);
    assert_eq!(data.get("TMoney_balance"), Some("00002710"));
    assert_eq!(data.get("TMoney_trans_1"), Some("AA"));
    assert_eq!(data.get("TMoney_trans_2"), Some("BB"));
    assert_eq!(data.raw_fields.len(), 3);
}

#[test]
fn unknown_names_read_nothing() {
    let mut tx = script(vec![]);
    let mut data = RawCardData::new();
    read_by_name(&mut tx, "Octopus", &mut data).unwrap();
    assert!(tx.link.seen.is_empty());
    assert!(data.raw_fields.is_empty());
}

#[test]
fn city_union_plan_ends_with_the_chongqing_select() {
    let mut tx = script(vec![]);
    let mut data = RawCardData::new();
    read_by_name(&mut tx, "CityUnion", &mut data).unwrap();
    assert_eq!(
        tx.link.seen,
        vec![
            "00B084003C",
            "00B0850020",
            "00B0950046",
            "00B095001E",
            "805C000204",
            "805C050210",
            "805C000104",
            "805000020B0100000001000000000010",
            "00B201C417",
            "00B2018417",
            "00B2013C10",
            "00B2019C17",
            "00B206C830",
            "00A40000023F00",
        ]
    );
    assert!(data.raw_fields.is_empty());
}

#[test]
fn fixed_file_read_is_resent_with_the_suggested_length() {
    let mut tx = script(vec![response(&[], 0x6C, 0x20), ok_response(&[0x01, 0x02]), ok_response(&[0x03])]);
    let mut data = RawCardData::new();
    read_by_name(&mut tx, "SuXin", &mut data).unwrap();
    assert_eq!(&tx.link.seen[..4], &["00B084003C", "00B0840020", "00B0850020", "00B0950046"]);
    assert_eq!(data.get("SuXin_file04"), Some("0102"));
    assert_eq!(data.get("SuXin_file05"), Some("03"));
    assert_eq!(data.get("SuXin_file15"), None);
}

#[test]
fn a_failed_exchange_ends_the_transit_read() {
    let mut tx = Channel::new(FailingTx::default());
    let mut data = RawCardData::new();
    assert!(read_by_name(&mut tx, "TUnion", &mut data).is_err());
    assert_eq!(tx.link.seen, vec!["00B084003C"]);
}

#[test]
fn beijing_probe_without_the_marker_reads_nothing_more() {
    let mut tx = script(vec![ok_response(&[0x20, 0x00])]);
    let mut data = RawCardData::new();
    assert_eq!(probe_beijing(&mut tx, &mut data).unwrap(), false);
    assert_eq!(tx.link.seen, vec!["00B0840020"]);
    assert!(data.raw_fields.is_empty());
}

#[test]
fn beijing_card_is_read_and_recorded() {
    let mut tx = script(vec![ok_response(&[0x10, 0x00, 0x01]), ok_response(&[0x6F])]);
    let mut data = RawCardData::new();
    assert_eq!(probe_beijing(&mut tx, &mut data).unwrap(), true);
    assert_eq!(&tx.link.seen[..3], &["00B0840020", "00A40000021001", "805C000204"]);
    assert_eq!(tx.link.seen.len(), 10);
    assert_eq!(data.get("BMAC_file04"), Some("100001"));
    assert_eq!(data.get("BMAC_df"), Some("6F"));
    assert_eq!(data.sub_cards, vec!["BMAC".to_string()]);
}

#[test]
fn macau_fallback_is_skipped_when_macau_was_found() {
    let mut tx = script(vec![]);
    let mut data = RawCardData::new();
    data.sub_cards.push("MacauPass".to_string());
    probe_macau_fallback(&mut tx, &mut data).unwrap();
    assert!(tx.link.seen.is_empty());
}

#[test]
fn macau_fallback_stops_when_the_container_is_missing() {
    let mut tx = script(vec![]);
    let mut data = RawCardData::new();
    probe_macau_fallback(&mut tx, &mut data).unwrap();
    assert_eq!(tx.link.seen, vec!["00A404000B414D544A4156414341524400"]);
    assert!(data.raw_fields.is_empty());
}

#[test]
fn unknown_family_reads_nothing() {
    let mut tx = script(vec![]);
    let data = read_card(&mut tx, "R", CardStandard::Unknown, "3B00").unwrap();
    assert!(tx.link.seen.is_empty());
    assert_eq!(data.card_type, "Unknown");
    assert_eq!(data.atr, "3B00");
}

#[test]
fn type_a_chain_with_no_answer_probes_everything_once() {
    let mut tx = script(vec![]);
    let data = read_card(&mut tx, "R", CardStandard::Iso14443A, "3B8F").unwrap();
    assert_eq!(tx.link.seen.len(), 15);
    assert_eq!(tx.link.seen[0], "00B0840020");
    assert_eq!(tx.link.seen[1], "9060000000");
    assert_eq!(tx.link.seen[2], "00A4040007504159 2E535A5400".replace(' ', ""));
    assert_eq!(tx.link.seen[14], "00A404000E325041592E5359532E444446303100");
    assert_eq!(data.card_type, "Unknown");
    assert!(data.sub_cards.is_empty());
}

#[test]
fn failed_type_a_read_returns_the_error() {
    let mut tx = Channel::new(FailingTx::default());
    assert!(read_card(&mut tx, "R", CardStandard::Iso14443A, "3B8F").is_err());
    assert_eq!(tx.link.seen, vec!["00B0840020"]);
}

#[test]
fn exchange_traces_record_command_and_reply() {
    let r = ApduResponse { data: vec![0x12, 0x34], sw1: 0x90, sw2: 0x00 };
    let t = trace_of(&[0x00, 0xA4], &[0x12, 0x34, 0x90, 0x00], &r, false);
    assert_eq!(t.tx, "00A4");
    assert_eq!(t.rx, "12349000");
    assert_eq!(t.note, None);
    let empty = ApduResponse { data: vec![], sw1: 0, sw2: 0 };
    let t = trace_of(&[0x00, 0xB0], &[0x6A], &empty, true);
    assert_eq!(t.tx, "00B0");
    assert_eq!(t.rx, "6A");
    assert_eq!(t.note.as_deref(), Some("empty/short response"));
}

#[test]
fn macau_fallback_adds_macau_pass_once_when_both_selects_answer() {
    let mut tx = script(vec![ok_response(&[0x6F, 0x01]), ok_response(&[0x6F, 0x02])]);
    let mut data = RawCardData::new();
    probe_macau_fallback(&mut tx, &mut data).unwrap();
    assert_eq!(tx.link.seen[0], "00A404000B414D544A4156414341524400");
    assert_eq!(data.get("amtjavacard_fci"), Some("6F01"));
    assert_eq!(data.get("macau_fci"), Some("6F02"));
    assert_eq!(data.sub_cards, vec!["MacauPass".to_string()]);
    let seen = tx.link.seen.len();
    probe_macau_fallback(&mut tx, &mut data).unwrap();
    assert_eq!(tx.link.seen.len(), seen);
    assert_eq!(data.sub_cards, vec!["MacauPass".to_string()]);
}

#[test]
fn macau_fallback_adds_nothing_when_the_macau_select_fails() {
    let mut tx = script(vec![ok_response(&[0x6F, 0x01])]);
    let mut data = RawCardData::new();
    probe_macau_fallback(&mut tx, &mut data).unwrap();
    assert_eq!(tx.link.seen.len(), 2);
    assert_eq!(data.get("amtjavacard_fci"), Some("6F01"));
    assert!(data.sub_cards.is_empty());
}
