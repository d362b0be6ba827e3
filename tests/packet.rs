use can_adapter::j1939_packet::{compose, pgn_of, J1939Packet};
use can_adapter::packet::{Packet, PacketState};
use can_adapter::pgn::Pgn;

#[test]
fn j1939_packet_test_j1939packet_display() {
    // channel is ignored on TX. The channel is set in `connection.send()`
    assert_eq!(
        "      0.0000 0 18FFAAFA [3] 01 02 03 (TX)",
        Packet::new(0x18FFAAFA, &[1, 2, 3]).to_string()
    );

    assert_eq!(
        "      0.5550 1 18FFAAFA [3] 01 02 03",
        Packet::new_rx(0x18FFAAFA, &[1, 2, 3], 555_000_000, 1).to_string()
    );
    assert_eq!(
        "      0.0000 0 18FFAAF9 [8] 01 02 03 04 05 06 07 08 (TX)",
        Packet::new(0x18FFAAF9, &[1, 2, 3, 4, 5, 6, 7, 8]).to_string()
    );
    assert_eq!(
        "      0.0000 0 18FFAAFB [8] FF 00 FF 00 FF 00 FF 00 (TX)",
        Packet::new(0x18FFAAFB, &[0xFF, 00, 0xFF, 00, 0xFF, 00, 0xFF, 00]).to_string()
    );
    assert_eq!(
        "      0.0000 0 0CFFAAFB [8] FF 00 FF 00 FF 00 FF 00 (TX)",
        Packet::new(0x0CFFAAFB, &[0xFF, 00, 0xFF, 00, 0xFF, 00, 0xFF, 00]).to_string()
    );
}

#[test]
fn display_rounds_and_pads_time() {
    // 12.34565 s rounds to 12.3457; a long time is not cut.
    let p = Packet::new_rx(0x18FEF100, &[], 12_345_650_000, 7);
    assert_eq!("     12.3457 7 18FEF100 [0] ", p.to_string());
    let p = Packet::new_rx(0x1, &[0xAB], 123_456_789_999_999_999, 0);
    assert_eq!("123456790.0000 0 00000001 [1] AB", p.to_string());
}

#[test]
fn accessors_of_rx_and_tx() {
    let tx = Packet::new(0x18EAFFF9, &[0xEC, 0xFE, 0x00]);
    assert!(tx.is_tx());
    assert_eq!(None, tx.time());
    assert_eq!(None, tx.channel());
    assert_eq!(3, tx.len());
    let rx = Packet::new_rx(0x18EAFFF9, &[0xEC, 0xFE, 0x00], 42, 3);
    assert!(!rx.is_tx());
    assert_eq!(Some(42), rx.time());
    assert_eq!(Some(3), rx.channel());
    assert_eq!(PacketState::Rx { time: 42, channel: 3 }, rx.state);
}

#[test]
fn payload_strings() {
    let p = Packet::new(0x100, &[0x0A, 0xFF, 0x00, 0x5C]);
    assert_eq!("0A FF 00 5C", p.payload_str());
    assert_eq!("0AFF005C", p.payload_str_nospace());
    let empty = Packet::new(0x100, &[]);
    assert_eq!("", empty.payload_str());
    assert_eq!("", empty.payload_str_nospace());
}

#[test]
fn j1939_fields() {
    let p = J1939Packet::new(0x18D3F903, &[1, 2]);
    assert_eq!(0x03, p.source());
    assert_eq!(0xF9, p.dest());
    assert_eq!(6, p.priority());
    assert_eq!(0xD300, p.pgn());
    assert_eq!("18D3F903", p.header());
    assert_eq!(0x18D3F903, p.id());
    assert_eq!(&[1u8, 2][..], p.data());
    assert_eq!(2, p.len());
    assert!(!p.is_empty());
    assert_eq!(None, p.time());
    assert_eq!(None, p.channel());
    assert_eq!("01 02", p.data_str());
    assert_eq!("0102", p.data_str_nospace());
    let b = J1939Packet::new(0x0CFEF100, &[]);
    assert_eq!(0xFEF1, b.pgn());
    assert_eq!(3, b.priority());
}

#[test]
fn header_bijection_on_values() {
    // Destination-specific PGN: the destination travels in the low PGN byte.
    let id = compose(6, 0xEA00, 0x21, 0xF9);
    assert_eq!(0x18EA21F9, id);
    assert_eq!(0xEA00, pgn_of(id));
    // Broadcast PGN: the destination is discarded.
    let id = compose(3, 0xFEF1, 0x21, 0x00);
    assert_eq!(0x0CFEF100, id);
    assert_eq!(0xFEF1, pgn_of(id));
    // Data page bit kept.
    let id = compose(7, 0x1FEF1, 0, 0x55);
    assert_eq!(0x1DFEF155, id);
    assert_eq!(0x1FEF1, pgn_of(id));
    // A non-canonical PDU1 PGN comes back with its destination byte cleared.
    let id = compose(0, 0xD3FF, 0x00, 0x00);
    assert_eq!(0xD300, pgn_of(id));
}

#[test]
fn new_packet_with_time_is_received() {
    let p = J1939Packet::new_packet(Some(10), 2, 6, 0xFEF1, 0x33, 0x00, &[9]);
    assert_eq!(0x18FEF100, p.id());
    assert_eq!(PacketState::Rx { time: 10, channel: 2 }, p.packet.state);
    let q = J1939Packet::new_packet(None, 2, 6, 0xEF00, 0x33, 0x44, &[9]);
    assert_eq!(0x18EF3344, q.id());
    assert!(q.packet.is_tx());
}

#[test]
fn pgn_bytes_round_trip() {
    let p = Pgn::from(0x00D3FFu32);
    assert_eq!([0xFF, 0xD3, 0x00], p.value);
    assert_eq!(0x00D3FFu32, u32::from(p));
    let q = Pgn::from(0x12345678u32);
    assert_eq!(0x345678u32, u32::from(q));
}
