//! J1939 requests, and the choice between a single frame and the transport protocol.
use vstd::prelude::*;

use crate::j1939_packet::{id_dest, is_pdu1};
use crate::j1939tp::{
    bam_control_id, bam_data_id, bam_frames, tp_pgn, ds_control_id, rts_frame, tp_control, tp_count,
    tp_data, BAM, RTS,
};
use crate::j1939_packet::{id_pgn_raw, id_source};
use crate::packet::{Packet, PacketState};

verus! {

/// The J1939 operations this library composes.
#[derive(Debug, Clone, Copy, PartialEq, Eq, Structural)]
pub enum J1939 {
    /// Ask node `da` for PGN `pgn`, as node `sa`.
    Request { sa: u8, da: u8, pgn: u32 },
    AddressClaim { did: u16 },
}

/// The identifier, without priority, of the answer to a request for `pgn` sent by `sa` to `da`:
/// the PGN from `da`, addressed back to `sa` when the PGN is destination specific.
pub open spec fn response_id_of(sa: u8, da: u8, pgn: u32) -> u32 {
    if is_pdu1(pgn) {
        (pgn << 8u32) | ((sa as u32) << 8u32) | (da as u32)
    } else {
        (pgn << 8u32) | (da as u32)
    }
}

/// How a frame goes on the bus.
pub enum SendPlan {
    /// Eight bytes or fewer: the frame itself.
    Single(Packet),
    /// To everyone: the broadcast announcement and all data frames, in order.
    Broadcast(Vec<Packet>),
    /// To one node: this request to send, then the exchange driven by
    /// [`crate::j1939tp::on_reply`].
    Handshake(Packet),
}

impl J1939 {
    /// The request frame (PGN 0xEA00, priority 6) from `sa` to `da` for `pgn`, whose three
    /// bytes it carries least significant first.
    pub fn request_packet(sa: u8, da: u8, pgn: u32) -> (r: Packet)
        ensures
            r.id == 0x18EA0000u32 | ((da as u32) << 8u32) | (sa as u32),
            r.payload@ == seq![(pgn % 256) as u8, (pgn / 256 % 256) as u8, (pgn / 65536 % 256) as u8],
            r.state == PacketState::Tx,
    {
        let payload: Vec<u8> = vec![(pgn % 256) as u8, (pgn / 256 % 256) as u8, (pgn / 65536 % 256) as u8];
        Packet { id: 0x18EA0000u32 | ((da as u32) << 8u32) | (sa as u32), payload, state: PacketState::Tx }
    }

    /// See [`response_id_of`].
    pub fn response_id(sa: u8, da: u8, pgn: u32) -> (r: u32)
        ensures
            r == response_id_of(sa, da, pgn),
    {
        let mut id = (pgn << 8u32) | (da as u32);
        if (pgn & 0xFF00) < 0xF000 {
            id = id | ((sa as u32) << 8u32);
            assert(id == (pgn << 8u32) | ((sa as u32) << 8u32) | (da as u32)) by (bit_vector)
                requires
                    id == ((pgn << 8u32) | (da as u32)) | ((sa as u32) << 8u32),
            ;
        }
        id
    }

    /// Whether `p` answers a request for `pgn` sent by `sa` to `da`.
    pub fn is_response(sa: u8, da: u8, pgn: u32, p: &Packet) -> (r: bool)
        ensures
            r == (p.id & 0xFFFFFF == response_id_of(sa, da, pgn)),
    {
        p.id & 0xFFFFFF == J1939::response_id(sa, da, pgn)
    }

    /// How `packet` is sent: as it is when it fits in one frame, else by the transport
    /// protocol, broadcast when its PGN is a broadcast one or its destination is 0xFF.
    pub fn send(packet: &Packet) -> (r: SendPlan)
        requires
            packet.payload@.len() <= 1785,
        ensures
            packet.payload@.len() <= 8 ==> r is Single && r->Single_0@ == packet@,
            packet.payload@.len() > 8 && (id_dest(packet.id) == 0xFF || !is_pdu1(id_pgn_raw(packet.id))) ==> r is Broadcast && {
                let f = r->Broadcast_0@;
                &&& f.len() == 1 + tp_count(packet.payload@.len() as int)
                &&& f[0].id == bam_control_id(id_source(packet.id))
                &&& f[0].payload@ == tp_control(
                    BAM,
                    packet.payload@.len() as int,
                    tp_count(packet.payload@.len() as int),
                    tp_pgn(packet.id),
                )
                &&& forall|i: int|
                    1 <= i < f.len() ==> (#[trigger] f[i]).id == bam_data_id(id_source(packet.id))
                        && f[i].payload@ == tp_data(packet.payload@, i)
            },
            packet.payload@.len() > 8 && id_dest(packet.id) != 0xFF && is_pdu1(id_pgn_raw(packet.id)) ==> r is Handshake && {
                let p = r->Handshake_0;
                &&& p.id == ds_control_id(id_dest(packet.id), id_source(packet.id))
                &&& p.payload@ == tp_control(
                    RTS,
                    packet.payload@.len() as int,
                    tp_count(packet.payload@.len() as int),
                    tp_pgn(packet.id),
                )
            },
    {
        if packet.payload.len() <= 8 {
            SendPlan::Single(packet.duplicate())
        } else if (packet.id >> 8u32) & 0xFF == 0xFF || (((packet.id >> 8u32) & 0x3FFFF) & 0xFF00)
            >= 0xF000 {
            proof {
                crate::j1939_packet::lemma_id_bytes(packet.id);
            }
            SendPlan::Broadcast(bam_frames(packet))
        } else {
            proof {
                crate::j1939_packet::lemma_id_bytes(packet.id);
            }
            SendPlan::Handshake(rts_frame(packet))
        }
    }
}

} // verus!
