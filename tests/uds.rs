use can_adapter::uds::{Iso14229Command, Uds};

#[test]
fn builder_fields_are_big_endian() {
    let c = Iso14229Command::build(500, 0x31)
        .u8(&[0x01])
        .u16(&[0x0203])
        .u24(&[0x00040506])
        .u32(&[0x0708090A])
        .u64(&[0x0B0C0D0E0F101112]);
    assert_eq!(
        vec![0x31, 0x01, 0x02, 0x03, 0x04, 0x05, 0x06, 0x07, 0x08, 0x09, 0x0A, 0x0B, 0x0C, 0x0D, 0x0E, 0x0F, 0x10, 0x11, 0x12],
        c.raw
    );
    assert_eq!(0xDA00, c.pgn);
    assert_eq!(500, c.duration);
}

#[test]
fn default_command() {
    let c = Iso14229Command::default();
    assert!(c.raw.is_empty());
    assert_eq!(0xDA00, c.pgn);
    assert_eq!(2000, c.duration);
}

#[test]
fn service_requests() {
    assert_eq!(vec![0x10, 0x03], Uds::S10 { session: 3 }.cmd(2000).raw);
    assert_eq!(vec![0x22, 0xF1, 0x90], Uds::S22 { did: 0xF190 }.cmd(2000).raw);
    assert_eq!(vec![0x2E, 0xF1, 0x90, b'A', b'B'], Uds::S2E { did: 0xF190, value: vec![b'A', b'B'] }.cmd(2000).raw);
    assert_eq!(vec![0x2F, 0x12, 0x34, 0x01], Uds::S2F { did: 0x1234, value: vec![1] }.cmd(2000).raw);
    assert_eq!(vec![0x27, 0x02, 0xAA, 0xBB], Uds::S27 { id: 2, key: vec![0xAA, 0xBB] }.cmd(2000).raw);
    let session = Uds::S10 { session: 1 }.cmd(1500).session(0xF9, 0x00);
    assert_eq!(0x18DA00F9, session.send_header);
    assert_eq!(1500, session.duration);
}
