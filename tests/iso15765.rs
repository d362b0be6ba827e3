use can_adapter::bus::PushBusIter;
use can_adapter::iso15765::{FlowControl, Iso15765, IsoTpError, RxStart};
use can_adapter::packet::Packet;
use can_adapter::sim::SimulatedConnection;

/// The next frame on the reader that `keep` accepts, if any was published.
fn next_matching(reader: &mut PushBusIter<Packet>, keep: &dyn Fn(&Packet) -> bool) -> Option<Packet> {
    loop {
        match reader.next() {
            None | Some(None) => return None,
            Some(Some(p)) => {
                if keep(&p) {
                    return Some(p);
                }
            }
        }
    }
}

/// Sends `data` from `tx` over the simulated bus; `rx` receives it. Returns the frames `tx` put
/// on the bus and what `rx` reassembled.
fn transfer(sim: &SimulatedConnection, tx: &Iso15765, rx: &Iso15765, data: &[u8]) -> (Vec<Packet>, Vec<u8>) {
    let mut rx_reader = sim.iter();
    let mut tx_reader = sim.iter();
    let mut sent = Vec::new();
    let opening = tx.send(data);
    sent.push(sim.send(&opening, 0));
    let start = next_matching(&mut rx_reader, &|p| rx.is_response(p) && !matches!(rx.receive(p), RxStart::Ignore)).unwrap();
    match rx.receive(&start) {
        RxStart::Single(d) => (sent, d),
        RxStart::First(mut reassembly) => {
            sim.send(&rx.flow_control_frame(), 0);
            let fc = next_matching(&mut tx_reader, &|p| tx.is_response(p)).unwrap();
            let control = tx.flow_control(&fc).unwrap();
            assert_eq!(FlowControl { block_size: 0, separation_us: 0 }, control);
            for cf in tx.consecutive_frames(data) {
                sent.push(sim.send(&cf, 0));
            }
            while !reassembly.is_complete() {
                let p = next_matching(&mut rx_reader, &|p| rx.is_response(p)).unwrap();
                reassembly.accept(&p);
            }
            (sent, reassembly.finish())
        }
        _ => panic!("no message"),
    }
}

#[test]
fn send8() {
    let connection = SimulatedConnection::new();
    let mut stream = connection.iter();
    let tp = Iso15765::new(0xDA00, 2000, 0xF9, 0);
    connection.send(&tp.send(&[1, 2, 3]), 0);
    let packet = next_matching(&mut stream, &|p| p.id == 0x18DA00F9).unwrap();
    assert_eq!(0x18DA00F9, packet.id);
    assert_eq!([0x03, 0x01, 0x02, 0x03, 0xFF, 0xFF, 0xFF, 0xFF], packet.payload[0..8]);
}

#[test]
fn send_receive() {
    let connection = SimulatedConnection::new();
    let client = Iso15765::new(0xDA00, 2000, 0xF9, 0);
    let server = Iso15765::new(0xDA00, 2000, 0, 0xF9);
    let (_, rx) = transfer(&connection, &client, &server, &[1, 2, 3]);
    let tx = rx.iter().map(|u| u + 3).collect::<Vec<u8>>();
    let (_, buf) = transfer(&connection, &server, &client, &tx);
    assert_eq!(vec![0x04u8, 0x05, 0x06], buf);
}

#[test]
fn send14() {
    let connection = SimulatedConnection::new();
    let tx_tp = Iso15765::new(0xDA00, 2000, 0xF9, 0);
    let rx_tp = Iso15765::new(0xDA00, 2000, 0, 0xF9);
    let (sent, packet) = transfer(&connection, &tx_tp, &rx_tp, &[0x55; 14]);
    assert_eq!([0x55; 14][..], packet);
    assert_eq!(3, sent.len());
    assert!(sent.iter().all(|p| p.id == 0x18DA00F9));
    assert_eq!(vec![0x10, 0x0E, 0x55, 0x55, 0x55, 0x55, 0x55, 0x55], sent[0].payload);
    assert_eq!(vec![0x21, 0x55, 0x55, 0x55, 0x55, 0x55, 0x55, 0x55], sent[1].payload);
    assert_eq!(vec![0x22, 0x55, 0xFF, 0xFF, 0xFF, 0xFF, 0xFF, 0xFF], sent[2].payload);
}

#[test]
fn send4000() {
    let connection = SimulatedConnection::new();
    let tx_tp = Iso15765::new(0xDA00, 2000, 0xF9, 0);
    let rx_tp = Iso15765::new(0xDA00, 2000, 0, 0xF9);
    let (_, packet) = transfer(&connection, &tx_tp, &rx_tp, &[0x55; 4000]);
    assert_eq!(4000, packet.len());
    assert_eq!([0x55; 4000][..], packet);
}

#[test]
fn round_trip_lengths() {
    let tx_tp = Iso15765::new(0xDA00, 2000, 0xF9, 0);
    let rx_tp = Iso15765::new(0xDA00, 2000, 0, 0xF9);
    for len in [1usize, 6, 7, 8, 13, 14, 20, 21, 111, 4095] {
        let connection = SimulatedConnection::new();
        let data: Vec<u8> = (0..len).map(|i| (i * 7 % 251) as u8).collect();
        let (_, back) = transfer(&connection, &tx_tp, &rx_tp, &data);
        assert_eq!(data, back, "length {len}");
    }
}

#[test]
fn sequence_numbers_wrap() {
    let tp = Iso15765::new(0xDA00, 2000, 0xF9, 0);
    let data = [0xA5u8; 6 + 7 * 17];
    let frames = tp.consecutive_frames(&data);
    assert_eq!(17, frames.len());
    let heads: Vec<u8> = frames.iter().map(|p| p.payload[0]).collect();
    let expected: Vec<u8> = (1..=17u8).map(|k| 0x20 | (k % 16)).collect();
    assert_eq!(expected, heads);
    assert_eq!(0x2F, heads[14]);
    assert_eq!(0x20, heads[15]);
    assert_eq!(0x21, heads[16]);
}

#[test]
fn headers() {
    let tp = Iso15765::new(0xDA00, 2000, 0xF9, 0x00);
    assert_eq!(0x18DA00F9, tp.send_header);
    assert_eq!(0xDAF900, tp.receive_header);
    assert!(tp.is_response(&Packet::new(0x18DAF900, &[0])));
    assert!(!tp.is_response(&Packet::new(0x18DA00F9, &[0])));
}

#[test]
fn flow_control_answers() {
    let tp = Iso15765::new(0xDA00, 2000, 0xF9, 0x00);
    let fc = |bytes: &[u8]| tp.flow_control(&Packet::new(0x18DAF900, bytes));
    assert!(matches!(fc(&[0x30, 0, 0x14, 0xFF]), Ok(FlowControl { block_size: 0, separation_us: 20_000 })));
    assert!(matches!(fc(&[0x30, 4, 0xF3]), Ok(FlowControl { block_size: 4, separation_us: 300 })));
    assert!(matches!(fc(&[0x30, 0, 0x7F]), Ok(FlowControl { block_size: 0, separation_us: 127_000 })));
    match fc(&[0x7F, 0x22, 0x31]) {
        Err(IsoTpError::Nack(p)) => assert_eq!(vec![0x7F, 0x22, 0x31], p),
        _ => panic!("expected a negative response"),
    }
    assert!(matches!(fc(&[0x21, 1, 2]), Err(IsoTpError::UnexpectedFrame(0x21))));
    assert!(matches!(fc(&[]), Err(IsoTpError::Malformed)));
    assert!(matches!(fc(&[0x30, 0]), Err(IsoTpError::Malformed)));
}

#[test]
fn receive_ignores_noise() {
    let rx = Iso15765::new(0xDA00, 2000, 0, 0xF9);
    assert!(matches!(rx.receive(&Packet::new(0x18FEF100, &[1, 2])), RxStart::Ignore));
    assert!(matches!(rx.receive(&Packet::new(0x18DA00F9, &[0x21, 2])), RxStart::Ignore));
    assert!(matches!(rx.receive(&Packet::new(0x18DA00F9, &[0x30, 0, 0])), RxStart::Ignore));
    assert!(matches!(rx.receive(&Packet::new(0x18DA00F9, &[0x05, 1, 2])), RxStart::Malformed));
    assert!(matches!(rx.receive(&Packet::new(0x18DA00F9, &[0x10])), RxStart::Malformed));
    match rx.receive(&Packet::new(0x18DA00F9, &[0x03, 0x7F, 0x22, 0x31, 0xFF, 0xFF, 0xFF, 0xFF])) {
        RxStart::Single(d) => assert_eq!(vec![0x7F, 0x22, 0x31], d),
        _ => panic!("expected a single frame"),
    }
}

#[test]
fn example() {
    // A peer at 0x03 that keeps a VIN and a session.
    let connection = SimulatedConnection::new();
    let client = Iso15765::new(0xDA00, 2000, 0xF9, 0x03);
    let server = Iso15765::new(0xDA00, 2000, 0x03, 0xF9);
    let mut vin: Vec<u8> = "12345678901234567".as_bytes().to_vec();
    let mut session = 1u8;
    let mut exchange = |request: &[u8]| -> Vec<u8> {
        let (_, buf) = transfer(&connection, &client, &server, request);
        let response = match buf[0] {
            0x10 => {
                session = buf[1];
                vec![0x50, session]
            }
            0x22 => {
                let did = u16::from_be_bytes([buf[1], buf[2]]);
                if did == 0xf190 {
                    [&[0x62, 0xF1, 0x90], &vin[..]].concat()
                } else {
                    vec![0x7F, 0x22, 0x20]
                }
            }
            0x2E => {
                let did = u16::from_be_bytes([buf[1], buf[2]]);
                if did == 0xf190 && session == 3 {
                    vin = buf[3..].to_vec();
                    vec![0x6E, 0xF1, 0x90]
                } else {
                    vec![0x7F, 0x22, if session == 3 { 0x20 } else { 0x32 }]
                }
            }
            _ => panic!("Unknown command"),
        };
        transfer(&connection, &server, &client, &response).1
    };
    assert_eq!("12345678901234567".as_bytes(), &exchange(&[0x22, 0xf1, 0x90])[3..]);
    exchange(&[0x10, 0x03]);
    exchange(&[&[0x2E, 0xF1, 0x90], "TEST VIN".as_bytes()].concat());
    exchange(&[0x10, 0x01]);
    assert_eq!("TEST VIN".as_bytes(), &exchange(&[0x22, 0xf1, 0x90])[3..]);
    assert_eq!(0x7F, exchange(&[&[0x2E, 0xF1, 0x90], "TEST VIN".as_bytes()].concat())[0]);
}

#[test]
fn block_size_limits_frames_per_flow_control() {
    let all = FlowControl { block_size: 0, separation_us: 0 };
    assert!(!all.block_full(0));
    assert!(!all.block_full(1000));
    let two = FlowControl { block_size: 2, separation_us: 0 };
    assert!(!two.block_full(1));
    assert!(two.block_full(2));
}
