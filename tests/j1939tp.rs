use can_adapter::j1939::{SendPlan, J1939};
use can_adapter::j1939tp::{on_reply, SenderStep, TpReceiver};
use can_adapter::packet::Packet;
use can_adapter::sim::SimulatedConnection;

fn message() -> Vec<u8> {
    [&[0, 0, 0, 1], "Something".as_bytes()].concat()
}

#[test]
fn send14_bam() {
    let rx_connection = SimulatedConnection::new();
    let tx_connection = rx_connection.clone();
    let mut iter = rx_connection.iter();

    let payload = message();
    let tx = Packet::new(0x18D3FF00, &payload);
    match J1939::send(&tx) {
        SendPlan::Broadcast(frames) => {
            for f in frames {
                tx_connection.send(&f, 1);
            }
        }
        _ => panic!("expected a broadcast transfer"),
    }
    let mut rx_tp = TpReceiver::new(0xF9, false);
    let mut rx = None;
    while let Some(Some(p)) = iter.next() {
        let out = rx_tp.receive(p);
        assert!(out.transmit.is_empty());
        for f in out.frames {
            if f.id & 0xFFFFFF == 0xD3FF00 {
                rx = Some(f);
            }
        }
    }
    assert_eq!(payload, rx.unwrap().payload);
}

#[test]
fn bam_frames_on_the_wire() {
    let payload = message();
    let frames = match J1939::send(&Packet::new(0x18D3FF00, &payload)) {
        SendPlan::Broadcast(frames) => frames,
        _ => panic!("expected a broadcast transfer"),
    };
    assert_eq!(3, frames.len());
    assert_eq!(0x18ECFF00, frames[0].id);
    assert_eq!(vec![0x20, 0x0D, 0x00, 0x02, 0xFF, 0xFF, 0xD3, 0x00], frames[0].payload);
    assert_eq!(0x18EBFF00, frames[1].id);
    assert_eq!(vec![0x01, 0, 0, 0, 1, b'S', b'o', b'm'], frames[1].payload);
    assert_eq!(0x18EBFF00, frames[2].id);
    assert_eq!(vec![0x02, b'e', b't', b'h', b'i', b'n', b'g', 0xFF], frames[2].payload);
}

#[test]
fn send14_ds() {
    let connection = SimulatedConnection::new();
    let mut rx_stream = connection.iter();
    let mut tx_stream = connection.iter();

    let payload = message();
    let tx = Packet::new(0x18D3F903, &payload);
    let rts = match J1939::send(&tx) {
        SendPlan::Handshake(rts) => rts,
        _ => panic!("expected a handshake"),
    };
    assert_eq!(0x18ECF903, rts.id);
    assert_eq!(vec![0x10, 0x0D, 0x00, 0x02, 0xFF, 0xFF, 0xD3, 0x00], rts.payload);
    connection.send(&rts, 1);

    let mut rx_tp = TpReceiver::new(0xF9, false);
    let mut transmitted: Vec<Packet> = Vec::new();
    let mut received: Option<Packet> = None;
    let mut complete = false;
    // Alternate between the receiver and the sender until the sender is done.
    for _round in 0..10 {
        while let Some(Some(p)) = rx_stream.next() {
            let out = rx_tp.receive(p);
            for f in out.frames {
                if f.id & 0xFFFFFF == 0xD3F903 {
                    received = Some(f);
                }
            }
            for t in out.transmit {
                transmitted.push(t.duplicate());
                connection.send(&t, 2);
            }
        }
        while let Some(Some(p)) = tx_stream.next() {
            match on_reply(&tx, &p) {
                SenderStep::Ignore => {}
                SenderStep::Complete => complete = true,
                SenderStep::Aborted => panic!("aborted"),
                SenderStep::Send(frames) => {
                    assert_eq!(2, frames.len());
                    assert!(frames.iter().all(|f| f.id == 0x18EBF903));
                    for f in frames {
                        connection.send(&f, 3);
                    }
                }
            }
        }
        if complete {
            break;
        }
    }
    assert!(complete);
    assert_eq!(payload, received.unwrap().payload);
    assert_eq!(2, transmitted.len());
    assert_eq!(0x18EC03F9, transmitted[0].id);
    assert_eq!(vec![0x11, 0x02, 0x01, 0xFF, 0xFF, 0xFF, 0xD3, 0x00], transmitted[0].payload);
    assert_eq!(0x18EC03F9, transmitted[1].id);
    assert_eq!(vec![0x13, 0x0D, 0x00, 0x02, 0xFF, 0xFF, 0xD3, 0x00], transmitted[1].payload);
}

#[test]
fn round_trip_lengths_both_modes() {
    for len in [9usize, 13, 14, 15, 100, 1784, 1785] {
        let data: Vec<u8> = (0..len).map(|i| (i % 253) as u8).collect();
        // broadcast
        let frames = match J1939::send(&Packet::new(0x18FECA00, &data)) {
            SendPlan::Broadcast(frames) => frames,
            _ => panic!("expected a broadcast transfer"),
        };
        assert_eq!(1 + (len + 6) / 7, frames.len());
        let mut rx = TpReceiver::new(0xF9, true);
        let mut got = Vec::new();
        for f in frames {
            let out = rx.receive(Packet::new_rx(f.id, &f.payload, 0, 0));
            got.extend(out.frames.into_iter().skip(1));
        }
        assert_eq!(1, got.len());
        assert_eq!(data, got[0].payload);
        assert_eq!(0x18FECA00, got[0].id);
        // destination specific
        let tx = Packet::new(0x18EF2211, &data);
        let rts = match J1939::send(&tx) {
            SendPlan::Handshake(rts) => rts,
            _ => panic!("expected a handshake"),
        };
        let mut rx = TpReceiver::new(0x22, false);
        let out = rx.receive(rts);
        assert_eq!(1, out.transmit.len());
        let frames = match on_reply(&tx, &out.transmit[0]) {
            SenderStep::Send(frames) => frames,
            _ => panic!("expected clearance"),
        };
        assert_eq!((len + 6) / 7, frames.len());
        let mut got = Vec::new();
        let mut acks = Vec::new();
        for f in frames {
            let out = rx.receive(f);
            got.extend(out.frames.into_iter().skip(1));
            acks.extend(out.transmit);
        }
        assert_eq!(1, got.len());
        assert_eq!(data, got[0].payload);
        assert_eq!(0x18EF2211, got[0].id);
        assert_eq!(1, acks.len());
        assert!(matches!(on_reply(&tx, &acks[0]), SenderStep::Complete));
    }
}

#[test]
fn out_of_sequence_and_abort() {
    let mut rx = TpReceiver::new(0xF9, true);
    let bam = Packet::new(0x18ECFF00, &[0x20, 9, 0, 2, 0xFF, 0xCA, 0xFE, 0]);
    rx.receive(bam);
    // sequence 2 before 1 is dropped
    let out = rx.receive(Packet::new(0x18EBFF00, &[2, 8, 9, 0xFF, 0xFF, 0xFF, 0xFF, 0xFF]));
    assert_eq!(1, out.frames.len());
    rx.receive(Packet::new(0x18EBFF00, &[1, 1, 2, 3, 4, 5, 6, 7]));
    let out = rx.receive(Packet::new(0x18EBFF00, &[2, 8, 9, 0xFF, 0xFF, 0xFF, 0xFF, 0xFF]));
    assert_eq!(2, out.frames.len());
    assert_eq!(vec![1, 2, 3, 4, 5, 6, 7, 8, 9], out.frames[1].payload);
    // abort clears the entry
    rx.receive(Packet::new(0x18ECFF00, &[0x20, 9, 0, 2, 0xFF, 0xCA, 0xFE, 0]));
    rx.receive(Packet::new(0x18EBFF00, &[1, 1, 2, 3, 4, 5, 6, 7]));
    rx.receive(Packet::new(0x18ECFF00, &[0xFF, 0xFF, 0xFF, 0xFF, 0xFF, 0xCA, 0xFE, 0]));
    let out = rx.receive(Packet::new(0x18EBFF00, &[2, 8, 9, 0xFF, 0xFF, 0xFF, 0xFF, 0xFF]));
    assert_eq!(1, out.frames.len());
}

#[test]
fn gap_longer_than_t1_drops_the_message() {
    let mut rx = TpReceiver::new(0xF9, true);
    rx.receive(Packet::new_rx(0x18ECFF00, &[0x20, 9, 0, 2, 0xFF, 0xCA, 0xFE, 0], 0, 0));
    rx.receive(Packet::new_rx(0x18EBFF00, &[1, 1, 2, 3, 4, 5, 6, 7], 100_000_000, 0));
    let out = rx.receive(Packet::new_rx(0x18EBFF00, &[2, 8, 9, 0xFF, 0xFF, 0xFF, 0xFF, 0xFF], 900_000_000, 0));
    assert_eq!(1, out.frames.len());
}

#[test]
fn request_and_response() {
    let p = J1939::request_packet(0xF9, 0x00, 0xFEEC);
    assert_eq!(0x18EA00F9, p.id);
    assert_eq!(vec![0xEC, 0xFE, 0x00], p.payload);
    assert_eq!(0xFEEC00, J1939::response_id(0xF9, 0x00, 0xFEEC));
    assert_eq!(0xD3F900, J1939::response_id(0xF9, 0x00, 0xD300));
    assert!(J1939::is_response(0xF9, 0x00, 0xFEEC, &Packet::new(0x18FEEC00, &[])));
    assert!(!J1939::is_response(0xF9, 0x00, 0xFEEC, &Packet::new(0x18FEEC01, &[])));
    assert!(matches!(J1939::send(&Packet::new(0x18FEEC00, &[1, 2, 3, 4, 5, 6, 7, 8])), SendPlan::Single(_)));
}

#[test]
fn cts_asks_for_existing_frames_only() {
    let tx = Packet::new(0x18EF2211, &[7u8; 20]);
    let cts = Packet::new(0x18EC1122, &[0x11, 5, 2, 0xFF, 0xFF, 0x00, 0xEF, 0x00]);
    match on_reply(&tx, &cts) {
        SenderStep::Send(frames) => {
            assert_eq!(2, frames.len());
            assert_eq!(2, frames[0].payload[0]);
            assert_eq!(3, frames[1].payload[0]);
        }
        _ => panic!("expected clearance"),
    }
    let abort = Packet::new(0x18EC1122, &[0xFF, 0xFF, 0xFF, 0xFF, 0xFF, 0x00, 0xEF, 0x00]);
    assert!(matches!(on_reply(&tx, &abort), SenderStep::Aborted));
    let other = Packet::new(0x18EC1133, &[0x13, 0, 0, 0, 0, 0, 0, 0]);
    assert!(matches!(on_reply(&tx, &other), SenderStep::Ignore));
}

#[test]
fn rts_cts_example_from_f9_to_03() {
    let payload = message();
    let tx = Packet::new(0x18D303F9, &payload);
    let rts = match J1939::send(&tx) {
        SendPlan::Handshake(rts) => rts,
        _ => panic!("expected a handshake"),
    };
    assert_eq!(0x18EC03F9, rts.id);
    assert_eq!(vec![0x10, 0x0D, 0x00, 0x02, 0xFF, 0xFF, 0xD3, 0x00], rts.payload);
    let mut rx = TpReceiver::new(0x03, false);
    let out = rx.receive(rts);
    assert_eq!(1, out.transmit.len());
    assert_eq!(0x18ECF903, out.transmit[0].id);
    assert_eq!(vec![0x11, 0x02, 0x01, 0xFF, 0xFF, 0xFF, 0xD3, 0x00], out.transmit[0].payload);
    let frames = match on_reply(&tx, &out.transmit[0]) {
        SenderStep::Send(frames) => frames,
        _ => panic!("expected clearance"),
    };
    assert_eq!(2, frames.len());
    assert!(frames.iter().all(|f| f.id == 0x18EB03F9));
    let mut eom = Vec::new();
    let mut whole = Vec::new();
    for f in frames {
        let out = rx.receive(f);
        eom.extend(out.transmit);
        whole.extend(out.frames.into_iter().skip(1));
    }
    assert_eq!(1, eom.len());
    assert_eq!(0x18ECF903, eom[0].id);
    assert_eq!(vec![0x13, 0x0D, 0x00, 0x02, 0xFF, 0xFF, 0xD3, 0x00], eom[0].payload);
    assert_eq!(payload, whole[0].payload);
    assert_eq!(0x18D303F9, whole[0].id);
    assert!(matches!(on_reply(&tx, &eom[0]), SenderStep::Complete));
}

#[test]
fn announcements_outside_the_transport_sizes_open_nothing() {
    let mut rx = TpReceiver::new(0xF9, false);
    // An RTS announcing 0 bytes gets no clear to send and opens no entry.
    let out = rx.receive(Packet::new(0x18ECF903, &[0x10, 0, 0, 0, 0xFF, 0x00, 0xD3, 0x00]));
    assert!(out.transmit.is_empty());
    let out = rx.receive(Packet::new(0x18EBF903, &[5, 1, 2, 3, 4, 5, 6, 7]));
    assert_eq!(1, out.frames.len());
    // Nor does one of 1786 bytes.
    let out = rx.receive(Packet::new(0x18ECF903, &[0x10, 0xFA, 0x06, 0xFF, 0xFF, 0x00, 0xD3, 0x00]));
    assert!(out.transmit.is_empty());
}

#[test]
fn response_to_a_data_page_pgn() {
    // PGN 0x1D300 is destination specific: its PDU-format byte is 0xD3.
    assert_eq!(0x1D3F900, J1939::response_id(0xF9, 0x00, 0x1D300));
    assert_eq!(0x1FEEC00, J1939::response_id(0xF9, 0x00, 0x1FEEC));
}
