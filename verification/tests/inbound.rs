use soundcore_a3956::packets::{A3956StateUpdatePacket, EasyChatEvent, ParseError};
use soundcore_a3956::structures::TlvRecords;

/// Captured from a Liberty 5 Pro (body of the 0x0101 response, checksum stripped).
const CAPTURED_STATE_BODY: &str = "010101010201010302005d0402005c050530352e3531060530352e35310711313230333030374631443232333431450008020054090530312e35340a01310b02fefe0c2000000000000000000000000000000000000000000000000000000000000000000d02060f0f02020611020f0f1302040415020000170201010e02060f1002030612020f0f140205041602000018020101190201022a01011a01ff1b030841001c0101235c0000000000000000000000000000000000000000000000000000000000000000000000000000000000000000000000000000000000000000000000000000000000000000000000000000000000000000000000000000000000000000240300000025020501260200002703005a002906007f1d0f61702c030000012e01633001033101003202000133060001299f936a3428030152b8fe3f332b8845aaf1123f01000040bf665e174673684140010000804000c06a46f2d24d3e3501ff360201014401003a0102";

fn captured_state_body() -> Vec<u8> {
    (0..CAPTURED_STATE_BODY.len())
        .step_by(2)
        .map(|i| u8::from_str_radix(&CAPTURED_STATE_BODY[i..i + 2], 16).unwrap())
        .collect()
}

#[test]
fn parses_captured_state_packet() {
    let body = captured_state_body();
    let (remaining, packet) = A3956StateUpdatePacket::take(&body).expect("should parse");
    assert!(remaining.is_empty());
    let info = packet.info();
    assert_eq!(info.serial_number, "1203007F1D22341E");
    assert_eq!(info.firmware_left, "05.51");
    assert_eq!(info.firmware_right, "05.51");
    assert_eq!(info.battery_left, 93);
    assert_eq!(info.battery_right, 92);
    // round trip
    assert_eq!(packet.body(), body);
}

#[test]
fn parses_easy_chat_event() {
    // Captured on the Liberty 5 Pro: start = 00 01, end = 00 00 (checksum already stripped).
    let (_, start) = EasyChatEvent::take(&[0x00, 0x01]).unwrap();
    assert!(start.is_active);
    let (_, end) = EasyChatEvent::take(&[0x00, 0x00]).unwrap();
    assert!(!end.is_active);
}

#[test]
fn easy_chat_event_needs_two_bytes() {
    assert_eq!(EasyChatEvent::take(&[]), Err(ParseError::UnexpectedEndOfInput));
    assert_eq!(EasyChatEvent::take(&[0x00]), Err(ParseError::UnexpectedEndOfInput));
}

#[test]
fn easy_chat_event_flag_is_any_nonzero_second_byte_and_rest_is_kept() {
    let (rest, event) = EasyChatEvent::take(&[0x00, 0x05, 0x09]).unwrap();
    assert!(event.is_active);
    assert_eq!(rest, &[0x09]);
    let (rest, event) = EasyChatEvent::take(&[0x07, 0x00]).unwrap();
    assert!(!event.is_active);
    assert!(rest.is_empty());
}

#[test]
fn commands() {
    assert_eq!(EasyChatEvent::command().0, [0x31, 0x03]);
    assert_eq!(A3956StateUpdatePacket::default().command().0, [0x01, 0x01]);
}

#[test]
fn empty_body_has_no_records() {
    let (rest, packet) = A3956StateUpdatePacket::take(&[]).unwrap();
    assert!(rest.is_empty());
    assert!(packet.records.0.is_empty());
}

#[test]
fn parsing_stops_at_an_incomplete_record() {
    let (rest, packet) = A3956StateUpdatePacket::take(&[0x01, 0x02, 0xaa]).unwrap();
    assert!(packet.records.0.is_empty());
    assert_eq!(rest, &[0x01, 0x02, 0xaa]);

    let (rest, packet) = A3956StateUpdatePacket::take(&[0x01, 0x01, 0x05, 0x02]).unwrap();
    assert_eq!(packet.records, TlvRecords(vec![(0x01, vec![0x05])]));
    assert_eq!(rest, &[0x02]);

    let (rest, packet) = A3956StateUpdatePacket::take(&[0x09, 0x00, 0x08, 0x00]).unwrap();
    assert_eq!(packet.records, TlvRecords(vec![(0x09, vec![]), (0x08, vec![])]));
    assert!(rest.is_empty());
}

#[test]
fn written_records_read_back_the_same() {
    let records = TlvRecords(vec![(0x03, vec![0x00, 0x50]), (0x7f, vec![]), (0x07, b"AB\0".to_vec())]);
    let packet = A3956StateUpdatePacket { records: records.clone() };
    let body = packet.body();
    assert_eq!(body, vec![0x03, 0x02, 0x00, 0x50, 0x7f, 0x00, 0x07, 0x03, b'A', b'B', 0x00]);
    let (rest, back) = A3956StateUpdatePacket::take(&body).unwrap();
    assert!(rest.is_empty());
    assert_eq!(back.records, records);
}

#[test]
fn length_byte_wraps_for_long_values() {
    let packet = A3956StateUpdatePacket { records: TlvRecords(vec![(0x01, vec![0xee; 256])]) };
    let body = packet.body();
    assert_eq!(body.len(), 258);
    assert_eq!(&body[..2], &[0x01, 0x00]);
}

#[test]
fn default_state_packet_has_empty_body() {
    assert!(A3956StateUpdatePacket::default().body().is_empty());
}

#[test]
fn get_finds_the_first_record_with_the_tag() {
    let records = TlvRecords(vec![(0x01, vec![0x0a]), (0x02, vec![0x0b]), (0x01, vec![0x0c])]);
    assert_eq!(records.get(0x01), Some(&[0x0a][..]));
    assert_eq!(records.get(0x02), Some(&[0x0b][..]));
    assert_eq!(records.get(0x03), None);
    assert_eq!(TlvRecords::default().get(0x01), None);
}

#[test]
fn info_defaults_for_missing_or_short_records() {
    let packet = A3956StateUpdatePacket {
        records: TlvRecords(vec![(0x03, vec![]), (0x04, vec![0x40])]),
    };
    let info = packet.info();
    assert_eq!(info.serial_number, "");
    assert_eq!(info.firmware_left, "");
    assert_eq!(info.firmware_right, "");
    assert_eq!(info.battery_left, 0);
    assert_eq!(info.battery_right, 0x40);
}

#[test]
fn info_trims_trailing_nuls_only() {
    let packet = A3956StateUpdatePacket {
        records: TlvRecords(vec![
            (0x07, b"\0AB\0C\0\0".to_vec()),
            (0x05, b"\0\0".to_vec()),
            (0x06, b"1.0".to_vec()),
        ]),
    };
    let info = packet.info();
    assert_eq!(info.serial_number, "\0AB\0C");
    assert_eq!(info.firmware_left, "");
    assert_eq!(info.firmware_right, "1.0");
}

#[test]
fn info_replaces_invalid_utf8() {
    let packet = A3956StateUpdatePacket {
        records: TlvRecords(vec![(0x07, vec![0x41, 0xff, 0x42, 0x00]), (0x05, "é".as_bytes().to_vec())]),
    };
    let info = packet.info();
    assert_eq!(info.serial_number, "A\u{FFFD}B");
    assert_eq!(info.firmware_left, "é");
}

#[test]
fn info_ignores_unknown_and_appended_records() {
    let base = vec![(0x03, vec![0x00, 0x20]), (0x07, b"SN\0".to_vec()), (0x05, b"1.2".to_vec())];
    let p = A3956StateUpdatePacket { records: TlvRecords(base.clone()) };
    let mut inserted = base.clone();
    inserted.insert(1, (0x99, b"junk".to_vec()));
    inserted.insert(0, (0x02, vec![0x01]));
    let q = A3956StateUpdatePacket { records: TlvRecords(inserted) };
    assert_eq!(q.info(), p.info());
    let mut appended = base.clone();
    appended.push((0x03, vec![0x00, 0x55]));
    appended.push((0x07, b"OTHER".to_vec()));
    let r = A3956StateUpdatePacket { records: TlvRecords(appended) };
    assert_eq!(r.info(), p.info());
    // an appended record with a tag the list lacked does change the information
    let mut new_tag = base;
    new_tag.push((0x04, vec![0x00, 0x10]));
    let s = A3956StateUpdatePacket { records: TlvRecords(new_tag) };
    assert_eq!(s.info().battery_right, 0x10);
    assert_ne!(s.info(), p.info());
}

#[test]
fn get_over_joined_records() {
    let first = vec![(0x01, vec![0x0a])];
    let second = vec![(0x01, vec![0x0b]), (0x02, vec![0x0c])];
    let joined = TlvRecords([first.clone(), second.clone()].concat());
    assert_eq!(joined.get(0x01), TlvRecords(first).get(0x01));
    assert_eq!(joined.get(0x02), TlvRecords(second).get(0x02));
}
