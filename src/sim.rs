//! A simulated adapter: every frame sent comes back as its echo on the bus, and a heartbeat
//! frame can be published with a running counter.
use vstd::prelude::*;

use crate::bus::{PushBus, PushBusIter};
use crate::j1939_packet::{
    compose, compose_id, id_dest, id_pgn, id_priority, id_source, lemma_header_bijection,
    pgn_of, priority_of, dest_of, source_of,
};
use crate::packet::{copy_bytes, Packet, PacketState, PacketView};
use crate::segment::{be_bytes, push_be};

verus! {

/// The PGN of the simulator's heartbeat frame.
pub const SIM_PGN: u32 = 0xFEF1;

/// The echo of a frame sent at time `now`: the frame rebuilt from its J1939 fields, received on
/// the channel it names.
pub open spec fn echo_of(p: PacketView, now: u64) -> PacketView {
    PacketView {
        id: compose_id(id_priority(p.id), id_pgn(p.id), id_dest(p.id), id_source(p.id)),
        payload: p.payload,
        state: PacketState::Rx {
            time: now,
            channel: match p.state {
                PacketState::Tx => 0,
                PacketState::Rx { time, channel } => channel,
            },
        },
    }
}

/// A connection to no hardware: what is sent is echoed to every reader. Clones share the bus.
#[derive(Clone)]
pub struct SimulatedConnection {
    pub bus: PushBus<Packet>,
}

impl SimulatedConnection {
    pub fn new() -> SimulatedConnection {
        SimulatedConnection { bus: PushBus::new("sim connection") }
    }

    /// The echo of `packet`, sent at time `now` (nanoseconds); a 29-bit identifier comes back
    /// unchanged.
    pub fn echo(packet: &Packet, now: u64) -> (r: Packet)
        ensures
            r@ == echo_of(packet@, now),
            packet.id < 0x2000_0000 ==> r.id == packet.id,
    {
        proof {
            if packet.id < 0x2000_0000 {
                lemma_header_bijection(0, 0, 0, 0, packet.id);
            }
        }
        let channel = match packet.state {
            PacketState::Tx => 0u32,
            PacketState::Rx { time, channel } => channel,
        };
        let id = compose(
            priority_of(packet.id),
            pgn_of(packet.id),
            dest_of(packet.id),
            source_of(packet.id),
        );
        Packet {
            id,
            payload: copy_bytes(packet.payload.as_slice()),
            state: PacketState::Rx { time: now, channel },
        }
    }

    /// Sends `packet` at time `now`: its echo goes to every reader and is returned.
    pub fn send(&self, packet: &Packet, now: u64) -> (r: Packet)
        ensures
            r@ == echo_of(packet@, now),
    {
        let echo = SimulatedConnection::echo(packet, now);
        self.bus.push(Some(echo.duplicate()));
        echo
    }

    /// The heartbeat frame with counter `seq` at time `now`: PGN 0xFEF1 from address 0 at
    /// priority 6, carrying the counter as eight big-endian bytes.
    pub fn heartbeat(seq: u64, now: u64) -> (r: Packet)
        ensures
            r.id == compose_id(6, SIM_PGN, 0, 0),
            r.payload@ == be_bytes(seq as nat, 8),
            r.state == (PacketState::Rx { time: now, channel: 0 }),
    {
        let mut payload: Vec<u8> = Vec::new();
        push_be(&mut payload, seq, 8);
        assert(payload@ =~= be_bytes(seq as nat, 8));
        Packet { id: compose(6, SIM_PGN, 0, 0), payload, state: PacketState::Rx { time: now, channel: 0 } }
    }

    /// Publishes the heartbeat frame with counter `seq` at time `now`.
    pub fn tick(&self, seq: u64, now: u64) {
        self.bus.push(Some(SimulatedConnection::heartbeat(seq, now)));
    }

    /// A new reader of everything published from now on.
    pub fn iter(&self) -> PushBusIter<Packet> {
        self.bus.iter()
    }

    /// Ends every reader.
    pub fn close(&self) {
        self.bus.close()
    }
}

} // verus!
