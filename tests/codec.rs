use rp1210test::hex::{hex32, hex8, HexParseError};
use rp1210test::packet::{as_hex, J1939Packet, MalformedFrame, Packet};

#[test]
fn test_j1939packet_display() {
    assert_eq!(
        "      0.0000 18FFAAFA [3] 01 02 03 (TX)",
        J1939Packet::new(0x18FFAAFA, &[1, 2, 3]).to_string()
    );
    assert_eq!(
        "      0.0000 18FFAAF9 [8] 01 02 03 04 05 06 07 08 (TX)",
        J1939Packet::new(0x18FFAAF9, &[1, 2, 3, 4, 5, 6, 7, 8]).to_string()
    );
    assert_eq!(
        "      0.0000 18FFAAFB [8] FF 00 FF 00 FF 00 FF 00 (TX)",
        J1939Packet::new(0x18FFAAFB, &[0xFF, 00, 0xFF, 00, 0xFF, 00, 0xFF, 00]).to_string()
    );
}

#[test]
fn display_of_capture_shows_scaled_time_and_no_echo_mark() {
    // 1000 ticks of 1000 microseconds: one second.
    let raw = [0, 0, 0x03, 0xE8, 0, 0xF1, 0xFF, 0, 6, 0x25, 0, 0xAB];
    let p = J1939Packet::new_rp1210(&raw, 1000).unwrap();
    assert_eq!(p.time(), 1_000_000);
    assert_eq!("   1000.0000 18FFF125 [1] AB", p.to_string());
}

#[test]
fn display_time_keeps_four_decimals() {
    // 1234567 ticks of 1 microsecond: 1234.567 ms.
    let raw = [0, 0x12, 0xD6, 0x87, 1, 0xF1, 0xFF, 0, 6, 0x25, 0];
    let p = J1939Packet::new_rp1210(&raw, 1).unwrap();
    assert_eq!(p.time(), 1_234_567);
    assert_eq!("   1234.5670 18FFF125 [0]  (TX)", p.to_string());
}

#[test]
fn header_folds_destination_below_pdu2() {
    let p = J1939Packet::new_packet(6, 0xEF00, 0x25, 0xF9, &[1]);
    assert_eq!(p.header(), "18EF25F9");
    assert_eq!(p.data_str(), "01");
}

#[test]
fn packet_copies_bytes() {
    let p = Packet::new_rp1210(&[1, 2, 3]);
    assert_eq!(p.data, vec![1, 2, 3]);
}

#[test]
fn packet_lists_bytes_in_decimal() {
    assert_eq!(Packet::new_rp1210(&[1, 20, 255]).to_string(), "1, 20, 255, ");
    assert_eq!(Packet::new_rp1210(&[]).to_string(), "");
}

#[test]
fn as_hex_renders_pairs() {
    assert_eq!(as_hex(&[]), "");
    assert_eq!(as_hex(&[0x0A]), "0A");
    assert_eq!(as_hex(&[0xFF, 0x00, 0x0A, 0xB7]), "FF 00 0A B7");
}

#[test]
fn encode_writes_header_then_payload() {
    let p = J1939Packet::new_packet(6, 0xEF00, 0x25, 0xF9, &[9, 8]);
    assert_eq!(p.raw(), &[0x00, 0xEF, 0x00, 6, 0xF9, 0x25, 9, 8]);
    assert_eq!(p.length(), 2);
    assert_eq!(p.priority(), 6);
    assert_eq!(p.source(), 0xF9);
    assert_eq!(p.destination(), 0x25);
    assert_eq!(p.data(), &[9, 8]);
    // with the data page bit set the PGN is past the destination-specific range
    let q = J1939Packet::new_packet(6, 0x1EF00, 0x25, 0xF9, &[]);
    assert_eq!(q.raw(), &[0x00, 0xEF, 0x01, 6, 0xF9, 0x00]);
}

#[test]
fn round_trip_destination_specific() {
    let p = J1939Packet::new_packet(3, 0xEF00, 0x25, 0x10, &[1, 2, 3, 4]);
    assert_eq!(p.priority(), 3);
    assert_eq!(p.pgn(), 0xEF25);
    assert_eq!(p.source(), 0x10);
    assert_eq!(p.destination(), 0x25);
    assert_eq!(p.data(), &[1, 2, 3, 4]);
    // the adapter's capture of the same frame
    let mut raw = vec![0, 0, 0, 7, 1];
    raw.extend_from_slice(p.raw());
    let c = J1939Packet::new_rp1210(&raw, 10).unwrap();
    assert_eq!(c.priority(), 3);
    assert_eq!(c.pgn(), 0xEF25);
    assert_eq!(c.source(), 0x10);
    assert_eq!(c.data(), &[1, 2, 3, 4]);
    assert_eq!(c.time(), 70);
}

#[test]
fn round_trip_broadcast() {
    let p = J1939Packet::new_packet(7, 0x2FEF1, 0x33, 0x44, &[]);
    assert_eq!(p.priority(), 7);
    assert_eq!(p.pgn(), 0x2FEF1);
    assert_eq!(p.source(), 0x44);
    assert_eq!(p.data(), &[] as &[u8]);
}

#[test]
fn broadcast_pgn_drops_destination() {
    for da in [0u8, 1, 0x42, 0xFF] {
        let p = J1939Packet::new_packet(6, 0xFEF1, da, 0x10, &[1]);
        assert_eq!(p.destination(), 0);
        assert_eq!(p.pgn(), 0xFEF1);
    }
    let p = J1939Packet::new_packet(6, 0xF000, 0x42, 0x10, &[]);
    assert_eq!(p.destination(), 0);
}

#[test]
fn short_capture_is_malformed() {
    assert_eq!(
        J1939Packet::new_rp1210(&[0; 10], 1).err(),
        Some(MalformedFrame { len: 10 })
    );
    assert_eq!(J1939Packet::new_rp1210(&[], 1).err(), Some(MalformedFrame { len: 0 }));
    let p = J1939Packet::new_rp1210(&[0; 11], 1).unwrap();
    assert_eq!(p.length(), 0);
}

#[test]
fn echo_detection() {
    assert!(J1939Packet::new_packet(6, 0xFFF1, 0, 0xF9, &[1]).echo());
    assert!(J1939Packet::new(0x18FFAAFA, &[]).echo());
    let mut raw = [0u8, 0, 0, 0, 0, 0xF1, 0xFF, 0, 6, 0xF9, 0];
    assert!(!J1939Packet::new_rp1210(&raw, 1).unwrap().echo());
    raw[4] = 1;
    assert!(J1939Packet::new_rp1210(&raw, 1).unwrap().echo());
    raw[4] = 0x80;
    assert!(J1939Packet::new_rp1210(&raw, 1).unwrap().echo());
}

#[test]
fn sent_frame_has_time_zero() {
    assert_eq!(J1939Packet::new_packet(6, 0xFFF1, 0, 0xF9, &[1]).time(), 0);
}

#[test]
fn ping_scenario_decodes() {
    let sent = J1939Packet::new_packet(6, 0xFFF1, 0, 0xF9, &[1, 0, 0, 0, 0, 0, 0, 1]);
    assert_eq!(sent.pgn(), 0xFFF1);
    assert_eq!(sent.source(), 0xF9);
    assert_eq!(sent.data()[0], 1);
    let mut raw = vec![0, 0, 0, 0, 0];
    raw.extend_from_slice(sent.raw());
    let captured = J1939Packet::new_rp1210(&raw, 1000).unwrap();
    assert_eq!(captured.pgn(), 0xFFF1);
    assert_eq!(captured.source(), 0xF9);
    assert_eq!(captured.data()[0], 1);
}

#[test]
fn duplicate_keeps_everything() {
    let raw = [0, 0, 1, 0, 1, 0xF1, 0xFF, 0, 6, 0xF9, 0, 5];
    let p = J1939Packet::new_rp1210(&raw, 3).unwrap();
    let q = p.duplicate();
    assert_eq!(q.raw(), p.raw());
    assert_eq!(q.time(), 768);
    assert!(q.echo());
}

#[test]
fn hex8_parses_bytes() {
    assert_eq!(hex8("F9"), Ok(0xF9));
    assert_eq!(hex8("f9"), Ok(0xF9));
    assert_eq!(hex8("00"), Ok(0));
    assert_eq!(hex8("+A"), Ok(10));
    assert_eq!(hex8("0000FF"), Ok(0xFF));
}

#[test]
fn hex8_errors() {
    assert_eq!(hex8(""), Err(HexParseError::Empty));
    assert_eq!(hex8("+"), Err(HexParseError::InvalidDigit));
    assert_eq!(hex8("-1"), Err(HexParseError::InvalidDigit));
    assert_eq!(hex8("G1"), Err(HexParseError::InvalidDigit));
    assert_eq!(hex8("100"), Err(HexParseError::Overflow));
    assert_eq!(hex8("1G"), Err(HexParseError::InvalidDigit));
}

#[test]
fn hex32_parses_words() {
    assert_eq!(hex32("FFF1"), Ok(0xFFF1));
    assert_eq!(hex32("FFFFFFFF"), Ok(0xFFFF_FFFF));
    assert_eq!(hex32("100000000"), Err(HexParseError::Overflow));
    assert_eq!(hex32("12 3"), Err(HexParseError::InvalidDigit));
}
