use can_adapter::packet::{Packet, PacketState};
use can_adapter::rp1210::{connect_commands, is_error_code, read_packet, read_timestamp, send_buffer};
use can_adapter::slcan::{decode_hex, parse_line, setup, speed_index, take_lines, unparse};

#[test]
fn slcan_line_round_trip() {
    let p = Packet::new(0x0CF00A00, &[0xFF, 0xFF, 0x00, 0xFE, 0xFF, 0xFF, 0x00, 0x00]);
    let line = unparse(&p);
    assert_eq!("T0CF00A008FFFF00FEFFFF0000", line);
    let back = parse_line(line.as_bytes(), 99).unwrap();
    assert_eq!(p.id, back.id);
    assert_eq!(p.payload, back.payload);
    assert_eq!(PacketState::Rx { time: 99, channel: 0 }, back.state);
}

#[test]
fn slcan_lower_case_and_empty() {
    let p = parse_line(b"T18feef000", 0).unwrap();
    assert_eq!(0x18FEEF00, p.id);
    assert!(p.payload.is_empty());
    assert_eq!("T18FEEF000", unparse(&Packet::new(0x18FEEF00, &[])));
}

#[test]
fn slcan_malformed_lines() {
    assert!(parse_line(b"", 0).is_none());
    assert!(parse_line(b"V1013", 0).is_none());
    assert!(parse_line(b"T18FEEF0", 0).is_none());
    assert!(parse_line(b"T18FEEF002AA", 0).is_none());
    assert!(parse_line(b"T18FEEG001AA", 0).is_none());
    assert!(parse_line(b"T18FEEF001AZ", 0).is_none());
    assert!(parse_line(b"T18FEEF0090000000000000000", 0).is_none());
}

#[test]
fn slcan_speeds() {
    assert_eq!(Some(0), speed_index(10));
    assert_eq!(Some(5), speed_index(250));
    assert_eq!(Some(8), speed_index(1000));
    assert_eq!(None, speed_index(333));
}

#[test]
fn slcan_lines_split_on_carriage_return() {
    let mut buffer = b"T1\rT2\rpart".to_vec();
    let lines = take_lines(&mut buffer);
    assert_eq!(vec![b"T1".to_vec(), b"T2".to_vec()], lines);
    assert_eq!(b"part".to_vec(), buffer);
    let mut buffer = b"\r".to_vec();
    let lines = take_lines(&mut buffer);
    assert_eq!(vec![Vec::<u8>::new()], lines);
    assert!(buffer.is_empty());
}

#[test]
fn rp1210_read_buffer() {
    // timestamp 0x00000102, echo 1, PGN 0x00EA00 (PDU1), priority 6, SA F9, DA 00, payload.
    let buf = [0, 0, 1, 2, 1, 0x00, 0xEA, 0x00, 6, 0xF9, 0x00, 0xEC, 0xFE, 0x00];
    assert_eq!(0x102, read_timestamp(&buf));
    let p = read_packet(&buf, 5, 1).unwrap();
    assert_eq!(0x18EA00F9, p.id);
    assert_eq!(vec![0xEC, 0xFE, 0x00], p.payload);
    assert_eq!(Some(5), p.time());
    assert!(read_packet(&buf[..10], 0, 0).is_none());
    // PDU2: no destination byte; the payload starts right after the source.
    let buf = [0, 0, 0, 0, 0, 0xF1, 0xFE, 0x00, 3, 0x00, 0x55, 1];
    let p = read_packet(&buf, 0, 0).unwrap();
    assert_eq!(0x0CFEF100, p.id);
    assert_eq!(vec![0x55, 1], p.payload);
    assert_eq!(Vec::<u8>::new(), read_packet(&buf[..10], 0, 0).unwrap().payload);
    assert!(read_packet(&buf[..9], 0, 0).is_none());
}

#[test]
fn slcan_setup_commands() {
    let cmds = setup(500).unwrap();
    assert_eq!(vec![b"C".to_vec(), b"C".to_vec(), b"V".to_vec(), b"S6".to_vec(), b"O".to_vec()], cmds);
    assert!(setup(42).is_none());
}

#[test]
fn hex_arguments() {
    assert_eq!(Some(vec![0x01, 0xAB, 0xff]), decode_hex(b"01ABff"));
    assert_eq!(Some(vec![0x12, 0x34]), decode_hex(b"0x1234"));
    assert_eq!(Some(vec![]), decode_hex(b""));
    assert_eq!(None, decode_hex(b"123"));
    assert_eq!(None, decode_hex(b"12G4"));
}

#[test]
fn rp1210_send_buffer() {
    let p = Packet::new(0x18EA00F9, &[0xEC, 0xFE, 0x00]);
    assert_eq!(vec![0x00, 0xEA, 0x00, 6, 0xF9, 0x00, 0xEC, 0xFE, 0x00], send_buffer(&p));
    let b = Packet::new(0x0CFEF155, &[1]);
    assert_eq!(vec![0xF1, 0xFE, 0x00, 3, 0x55, 0x00, 1], send_buffer(&b));
}

#[test]
fn rp1210_connect_commands() {
    let cmds = connect_commands(0xF9, false);
    assert_eq!(3, cmds.len());
    assert_eq!((19, vec![0xF9, 0, 0, 0xE0, 0xFF, 0, 0x81, 0, 0, 0]), cmds[0]);
    assert_eq!((16, vec![1]), cmds[1]);
    assert_eq!((3, vec![]), cmds[2]);
    assert_eq!(2, connect_commands(0xF9, true).len());
    assert!(is_error_code(-1));
    assert!(is_error_code(128));
    assert!(!is_error_code(0));
    assert!(!is_error_code(127));
}

#[test]
fn slcan_lines_hold_no_carriage_return() {
    let mut buffer = b"\r\rT1\r\rT2".to_vec();
    let lines = take_lines(&mut buffer);
    assert_eq!(4, lines.len());
    assert!(lines.iter().all(|l| !l.contains(&b'\r')));
    assert_eq!(b"T2".to_vec(), buffer);
}
