//! The J1939 reading of a 29-bit CAN identifier: priority, PGN, destination and source.
use vstd::prelude::*;

use crate::packet::{Packet, PacketState, PacketView};
use crate::text::{hex_fixed, hex_plain, hex_spaced, push_hex_fixed, string_from_chars};

verus! {

/// A PGN whose PDU-format byte is below 0xF0 addresses one node (PDU1).
pub open spec fn is_pdu1(pgn: u32) -> bool {
    (pgn & 0xFF00) < 0xF000
}

/// The PGN with the destination byte cleared when it is destination specific.
pub open spec fn canonical_pgn(pgn: u32) -> u32 {
    if is_pdu1(pgn) {
        pgn & 0x3FF00
    } else {
        pgn
    }
}

/// The identifier made of a priority, a PGN, a destination and a source.
/// A broadcast (PDU2) PGN leaves no room for the destination.
pub open spec fn compose_id(priority: u8, pgn: u32, da: u8, sa: u8) -> u32 {
    ((priority as u32) << 26u32) | (canonical_pgn(pgn) << 8u32) | (if is_pdu1(pgn) {
        (da as u32) << 8u32
    } else {
        0u32
    }) | (sa as u32)
}

pub open spec fn id_source(id: u32) -> u8 {
    (id & 0xFF) as u8
}

pub open spec fn id_dest(id: u32) -> u8 {
    ((id >> 8u32) & 0xFF) as u8
}

pub open spec fn id_priority(id: u32) -> u8 {
    ((id >> 26u32) & 7) as u8
}

/// The 18 PGN bits of the identifier as they stand, destination byte included.
pub open spec fn id_pgn_raw(id: u32) -> u32 {
    (id >> 8u32) & 0x3FFFF
}

/// The PGN of the identifier in canonical form.
pub open spec fn id_pgn(id: u32) -> u32 {
    canonical_pgn(id_pgn_raw(id))
}

/// Composing an identifier from valid fields and reading the fields back gives them again;
/// the PGN comes back in canonical form, equal to the one given when that one was canonical,
/// and the destination comes back for destination-specific PGNs. Every 29-bit identifier is
/// composed again from its own fields.
pub proof fn lemma_header_bijection(priority: u8, pgn: u32, da: u8, sa: u8, id: u32)
    requires
        priority < 8,
        pgn <= 0x3FFFF,
        id < 0x2000_0000,
    ensures
        id_priority(compose_id(priority, pgn, da, sa)) == priority,
        id_pgn(compose_id(priority, pgn, da, sa)) == canonical_pgn(pgn),
        is_pdu1(pgn) ==> id_dest(compose_id(priority, pgn, da, sa)) == da,
        id_source(compose_id(priority, pgn, da, sa)) == sa,
        canonical_pgn(pgn) == pgn ==> id_pgn(compose_id(priority, pgn, da, sa)) == pgn,
        compose_id(id_priority(id), id_pgn(id), id_dest(id), id_source(id)) == id,
{
    let p = priority as u32;
    let d = da as u32;
    let s = sa as u32;
    assert(((((p << 26u32) | ((if (pgn & 0xFF00) < 0xF000 { pgn & 0x3FF00 } else { pgn })
        << 8u32) | (if (pgn & 0xFF00) < 0xF000 { d << 8u32 } else { 0u32 }) | s) >> 26u32) & 7)
        == p) by (bit_vector)
        requires
            p < 8,
            pgn <= 0x3FFFF,
            d < 256,
            s < 256,
    ;
    assert((((p << 26u32) | ((if (pgn & 0xFF00) < 0xF000 { pgn & 0x3FF00 } else { pgn })
        << 8u32) | (if (pgn & 0xFF00) < 0xF000 { d << 8u32 } else { 0u32 }) | s) & 0xFF) == s)
        by (bit_vector)
        requires
            p < 8,
            pgn <= 0x3FFFF,
            d < 256,
            s < 256,
    ;
    assert(((((p << 26u32) | ((if (pgn & 0xFF00) < 0xF000 { pgn & 0x3FF00 } else { pgn })
        << 8u32) | (if (pgn & 0xFF00) < 0xF000 { d << 8u32 } else { 0u32 }) | s) >> 8u32)
        & 0x3FFFF) == (if (pgn & 0xFF00) < 0xF000 { (pgn & 0x3FF00) | d } else { pgn }))
        by (bit_vector)
        requires
            p < 8,
            pgn <= 0x3FFFF,
            d < 256,
            s < 256,
    ;
    assert(((pgn & 0xFF00) < 0xF000) ==> ((((pgn & 0x3FF00) | d) & 0xFF00) < 0xF000 && ((
    (pgn & 0x3FF00) | d) & 0x3FF00) == (pgn & 0x3FF00) && (((pgn & 0x3FF00) | d) & 0xFF) == d))
        by (bit_vector)
        requires
            pgn <= 0x3FFFF,
            d < 256,
    ;
    assert(((((p << 26u32) | ((if (pgn & 0xFF00) < 0xF000 { pgn & 0x3FF00 } else { pgn })
        << 8u32) | (if (pgn & 0xFF00) < 0xF000 { d << 8u32 } else { 0u32 }) | s) >> 8u32) & 0xFF)
        == (if (pgn & 0xFF00) < 0xF000 { d } else { pgn & 0xFF })) by (bit_vector)
        requires
            p < 8,
            pgn <= 0x3FFFF,
            d < 256,
            s < 256,
    ;
    let r = (id >> 8u32) & 0x3FFFF;
    let c = if (r & 0xFF00) < 0xF000 {
        r & 0x3FF00
    } else {
        r
    };
    assert(((((id >> 26u32) & 7) << 26u32) | ((if (c & 0xFF00) < 0xF000 { c & 0x3FF00 } else {
        c
    }) << 8u32) | (if (c & 0xFF00) < 0xF000 { ((id >> 8u32) & 0xFF) << 8u32 } else { 0u32 }) | (
    id & 0xFF)) == id) by (bit_vector)
        requires
            id < 0x2000_0000,
            r == (id >> 8u32) & 0x3FFFF,
            c == (if (r & 0xFF00) < 0xF000 { r & 0x3FF00 } else { r }),
    ;
    assert((((id >> 26u32) & 7) as u8) as u32 == (id >> 26u32) & 7) by (bit_vector);
    assert((((id >> 8u32) & 0xFF) as u8) as u32 == (id >> 8u32) & 0xFF) by (bit_vector);
    assert(((id & 0xFF) as u8) as u32 == id & 0xFF) by (bit_vector);
    assert(((p as u8) as u32) == p);
}

/// The source and destination bytes of an identifier, widened again, are its low bytes.
pub proof fn lemma_id_bytes(id: u32)
    ensures
        id_source(id) as u32 == id & 0xFF,
        id_dest(id) as u32 == (id >> 8u32) & 0xFF,
{
    assert(((id >> 8u32) & 0xFF) as u8 as u32 == (id >> 8u32) & 0xFF) by (bit_vector);
    assert((id & 0xFF) as u8 as u32 == id & 0xFF) by (bit_vector);
}

/// The identifier made of a priority, a PGN, a destination and a source.
pub fn compose(priority: u8, pgn: u32, da: u8, sa: u8) -> (r: u32)
    ensures
        r == compose_id(priority, pgn, da, sa),
{
    let pgn_bits = if (pgn & 0xFF00) < 0xF000 {
        pgn & 0x3FF00
    } else {
        pgn
    };
    let da_bits = if (pgn & 0xFF00) < 0xF000 {
        (da as u32) << 8u32
    } else {
        0u32
    };
    ((priority as u32) << 26u32) | (pgn_bits << 8u32) | da_bits | (sa as u32)
}

pub fn source_of(id: u32) -> (r: u8)
    ensures
        r == id_source(id),
{
    (id & 0xFF) as u8
}

pub fn dest_of(id: u32) -> (r: u8)
    ensures
        r == id_dest(id),
{
    ((id >> 8u32) & 0xFF) as u8
}

pub fn priority_of(id: u32) -> (r: u8)
    ensures
        r == id_priority(id),
{
    ((id >> 26u32) & 7) as u8
}

pub fn pgn_raw_of(id: u32) -> (r: u32)
    ensures
        r == id_pgn_raw(id),
{
    (id >> 8u32) & 0x3FFFF
}

pub fn pgn_of(id: u32) -> (r: u32)
    ensures
        r == id_pgn(id),
{
    let raw = (id >> 8u32) & 0x3FFFF;
    if (raw & 0xFF00) < 0xF000 {
        raw & 0x3FF00
    } else {
        raw
    }
}

/// A CAN frame read through J1939 addressing.
#[derive(Debug)]
pub struct J1939Packet {
    pub packet: Packet,
}

impl View for J1939Packet {
    type V = PacketView;

    open spec fn view(&self) -> PacketView {
        self.packet@
    }
}

impl From<Packet> for J1939Packet {
    fn from(packet: Packet) -> (r: J1939Packet) {
        J1939Packet { packet }
    }
}

impl vstd::std_specs::convert::FromSpecImpl<Packet> for J1939Packet {
    open spec fn obeys_from_spec() -> bool {
        true
    }

    open spec fn from_spec(packet: Packet) -> J1939Packet {
        J1939Packet { packet }
    }
}

impl From<J1939Packet> for Packet {
    fn from(p: J1939Packet) -> (r: Packet) {
        p.packet
    }
}

impl vstd::std_specs::convert::FromSpecImpl<J1939Packet> for Packet {
    open spec fn obeys_from_spec() -> bool {
        true
    }

    open spec fn from_spec(p: J1939Packet) -> Packet {
        p.packet
    }
}

impl J1939Packet {
    /// A frame from its J1939 fields; with a time it is a received frame, without one a frame
    /// to transmit.
    pub fn new_packet(
        time: Option<u64>,
        channel: u32,
        priority: u8,
        pgn: u32,
        da: u8,
        sa: u8,
        data: &[u8],
    ) -> (r: J1939Packet)
        ensures
            r@.id == compose_id(priority, pgn, da, sa),
            r@.payload == data@,
            r@.state == match time {
                None => PacketState::Tx,
                Some(t) => PacketState::Rx { time: t, channel },
            },
    {
        let id = compose(priority, pgn, da, sa);
        let packet = match time {
            None => Packet::new(id, data),
            Some(t) => Packet::new_rx(id, data, t, channel),
        };
        J1939Packet { packet }
    }

    /// A frame to transmit.
    pub fn new(id: u32, payload: &[u8]) -> (r: J1939Packet)
        ensures
            r@.id == id,
            r@.payload == payload@,
            r@.state == PacketState::Tx,
    {
        J1939Packet { packet: Packet::new(id, payload) }
    }

    pub fn source(&self) -> (r: u8)
        ensures
            r == id_source(self@.id),
    {
        source_of(self.packet.id)
    }

    /// The PGN in canonical form: destination byte cleared for a destination-specific PGN.
    pub fn pgn(&self) -> (r: u32)
        ensures
            r == id_pgn(self@.id),
    {
        pgn_of(self.packet.id)
    }

    pub fn dest(&self) -> (r: u8)
        ensures
            r == id_dest(self@.id),
    {
        dest_of(self.packet.id)
    }

    pub fn priority(&self) -> (r: u8)
        ensures
            r == id_priority(self@.id),
    {
        priority_of(self.packet.id)
    }

    /// The identifier as eight hex digits.
    pub fn header(&self) -> (r: String)
        ensures
            r@ == hex_fixed(self@.id as nat, 8),
    {
        let mut out: Vec<char> = Vec::new();
        push_hex_fixed(&mut out, self.packet.id as u64, 8);
        assert(out@ =~= hex_fixed(self@.id as nat, 8));
        string_from_chars(out)
    }

    pub fn id(&self) -> (r: u32)
        ensures
            r == self@.id,
    {
        self.packet.id
    }

    pub fn len(&self) -> (r: usize)
        ensures
            r == self@.payload.len(),
    {
        self.packet.len()
    }

    pub fn is_empty(&self) -> (r: bool)
        ensures
            r == (self@.payload.len() == 0),
    {
        self.packet.len() == 0
    }

    /// Nanoseconds since the adapter opened, for a received frame.
    pub fn time(&self) -> (r: Option<u64>)
        ensures
            r == self.packet.time_of_state(),
    {
        self.packet.time()
    }

    /// The adapter channel, for a received frame.
    pub fn channel(&self) -> (r: Option<u32>)
        ensures
            r == self.packet.channel_of_state(),
    {
        self.packet.channel()
    }

    /// The payload as hex pairs separated by spaces.
    pub fn data_str(&self) -> (r: String)
        ensures
            r@ == hex_spaced(self@.payload),
    {
        self.packet.payload_str()
    }

    /// The payload as hex pairs with nothing between them.
    pub fn data_str_nospace(&self) -> (r: String)
        ensures
            r@ == hex_plain(self@.payload),
    {
        self.packet.payload_str_nospace()
    }

    pub fn data(&self) -> (r: &[u8])
        ensures
            r@ == self@.payload,
    {
        self.packet.payload.as_slice()
    }
}

} // verus!
