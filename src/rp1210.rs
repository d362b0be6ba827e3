//! Frames as an RP1210 vendor driver hands them over: a 4-byte big-endian timestamp, an echo
//! flag, the PGN in three little-endian bytes, the priority, the source, the destination (for a
//! destination-specific PGN only), then the payload.
use vstd::prelude::*;

use crate::j1939_packet::{compose, compose_id, is_pdu1, id_dest, id_pgn, id_priority, id_source, pgn_of};
use crate::packet::{Packet, PacketState};

verus! {

/// The PGN a read buffer carries.
pub open spec fn buffer_pgn(data: Seq<u8>) -> u32 {
    (data[5] as int + 256 * data[6] as int + 65536 * data[7] as int) as u32
}

/// The destination a read buffer carries, for a destination-specific PGN; 0 otherwise.
pub open spec fn buffer_dest(data: Seq<u8>) -> u8 {
    if is_pdu1(buffer_pgn(data)) { data[10] } else { 0 }
}

/// Where the payload of a read buffer starts: after the destination byte, which only a
/// destination-specific PGN has.
pub open spec fn payload_start(data: Seq<u8>) -> int {
    if is_pdu1(buffer_pgn(data)) { 11 } else { 10 }
}

/// The timestamp of a read buffer, in adapter ticks.
pub fn read_timestamp(data: &[u8]) -> (r: u32)
    requires
        data@.len() >= 4,
    ensures
        r == data@[0] as int * 0x1000000 + data@[1] as int * 0x10000 + data@[2] as int * 0x100
            + data@[3] as int,
{
    (data[0] as u32) * 0x1000000 + (data[1] as u32) * 0x10000 + (data[2] as u32) * 0x100 + (
    data[3] as u32)
}

/// The frame a read buffer carries, stamped with `time` (nanoseconds since the adapter opened)
/// and `channel`; `None` when the buffer is shorter than its header (eleven bytes for a
/// destination-specific PGN, ten for a broadcast one).
pub fn read_packet(data: &[u8], time: u64, channel: u32) -> (r: Option<Packet>)
    ensures
        r is None <==> data@.len() < 8 || data@.len() < payload_start(data@),
        r is Some ==> r->Some_0.id == compose_id(
            data@[8] & 7,
            buffer_pgn(data@),
            buffer_dest(data@),
            data@[9],
        ) && r->Some_0.payload@ == data@.subrange(payload_start(data@), data@.len() as int)
            && r->Some_0.state == (PacketState::Rx { time, channel }),
{
    if data.len() < 8 {
        return None;
    }
    let pgn = (data[5] as u32) + 256 * (data[6] as u32) + 65536 * (data[7] as u32);
    let pdu1 = (pgn & 0xFF00) < 0xF000;
    let start: usize = if pdu1 {
        11
    } else {
        10
    };
    if data.len() < start {
        return None;
    }
    let da = if pdu1 {
        data[10]
    } else {
        0
    };
    let id = compose(data[8] & 7, pgn, da, data[9]);
    let mut payload: Vec<u8> = Vec::new();
    let mut i: usize = start;
    while i < data.len()
        invariant
            start <= i <= data@.len(),
            payload@ == data@.subrange(start as int, i as int),
        decreases data@.len() - i,
    {
        payload.push(data[i]);
        i = i + 1;
        assert(payload@ =~= data@.subrange(start as int, i as int));
    }
    Some(Packet { id, payload, state: PacketState::Rx { time, channel } })
}

/// The buffer a vendor driver's send call takes for a frame: the PGN in three little-endian
/// bytes, the priority, the source, the destination (0 for a broadcast PGN), then the payload.
/// The send call always takes the destination byte.
pub open spec fn send_buffer_of(id: u32, payload: Seq<u8>) -> Seq<u8> {
    let pgn = id_pgn(id);
    seq![
        (pgn % 256) as u8,
        (pgn / 256 % 256) as u8,
        (pgn / 65536 % 256) as u8,
        id_priority(id),
        id_source(id),
        if is_pdu1(pgn) { id_dest(id) } else { 0u8 },
    ] + payload
}

pub fn send_buffer(p: &Packet) -> (r: Vec<u8>)
    ensures
        r@ == send_buffer_of(p.id, p.payload@),
{
    let pgn = pgn_of(p.id);
    let mut r: Vec<u8> = Vec::new();
    r.push((pgn % 256) as u8);
    r.push((pgn / 256 % 256) as u8);
    r.push((pgn / 65536 % 256) as u8);
    r.push(((p.id >> 26u32) & 7) as u8);
    r.push((p.id & 0xFF) as u8);
    r.push(if (pgn & 0xFF00) < 0xF000 { ((p.id >> 8u32) & 0xFF) as u8 } else { 0 });
    let ghost head = r@;
    let mut i: usize = 0;
    while i < p.payload.len()
        invariant
            i <= p.payload@.len(),
            r@ == head + p.payload@.subrange(0, i as int),
        decreases p.payload@.len() - i,
    {
        r.push(p.payload[i]);
        i = i + 1;
        assert(r@ =~= head + p.payload@.subrange(0, i as int));
    }
    assert(p.payload@.subrange(0, p.payload@.len() as int) =~= p.payload@);
    assert(r@ =~= send_buffer_of(p.id, p.payload@));
    r
}

/// Driver command: claim and protect a J1939 address.
pub const CMD_PROTECT_J1939_ADDRESS: u16 = 19;
/// Driver command: echo transmitted frames back to the reader.
pub const CMD_ECHO_TRANSMITTED_MESSAGES: u16 = 16;
/// Driver command: let every frame through the filters.
pub const CMD_SET_ALL_FILTERS_STATES_TO_PASS: u16 = 3;

/// The commands, with their arguments, that prepare a fresh client: protect `address` (unless
/// the driver packetizes for the application), echo on, all filters open.
pub fn connect_commands(address: u8, app_packetize: bool) -> (r: Vec<(u16, Vec<u8>)>)
    ensures
        r@.len() == if app_packetize { 2int } else { 3int },
        !app_packetize ==> r@[0].0 == CMD_PROTECT_J1939_ADDRESS && r@[0].1@ == seq![
            address,
            0u8,
            0,
            0xE0,
            0xFF,
            0,
            0x81,
            0,
            0,
            0,
        ],
        r@[r@.len() - 2].0 == CMD_ECHO_TRANSMITTED_MESSAGES && r@[r@.len() - 2].1@ == seq![1u8],
        r@[r@.len() - 1].0 == CMD_SET_ALL_FILTERS_STATES_TO_PASS && r@[r@.len() - 1].1@.len() == 0,
{
    let mut r: Vec<(u16, Vec<u8>)> = Vec::new();
    if !app_packetize {
        let protect: Vec<u8> = vec![address, 0, 0, 0xE0, 0xFF, 0, 0x81, 0, 0, 0];
        assert(protect@ =~= seq![address, 0u8, 0, 0xE0, 0xFF, 0, 0x81, 0, 0, 0]);
        r.push((CMD_PROTECT_J1939_ADDRESS, protect));
    }
    let echo: Vec<u8> = vec![1u8];
    assert(echo@ =~= seq![1u8]);
    r.push((CMD_ECHO_TRANSMITTED_MESSAGES, echo));
    r.push((CMD_SET_ALL_FILTERS_STATES_TO_PASS, Vec::new()));
    r
}

/// Whether a driver's return value reports an error: values outside 0..=127.
pub fn is_error_code(v: i16) -> (r: bool)
    ensures
        r == (v < 0 || v > 127),
{
    v < 0 || v > 127
}

} // verus!
