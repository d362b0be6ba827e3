//! The frames of the latency and bandwidth tests: numbered frames on two proprietary PGNs,
//! and the answers a test server gives.
use vstd::prelude::*;

use crate::j1939_packet::{compose, compose_id, id_pgn, id_source, pgn_of, source_of};
use crate::packet::{copy_bytes, Packet, PacketState};
use crate::segment::{be_bytes, push_be};

verus! {

/// PGN of the latency test: a ping, answered by a pong with the same payload.
pub const PING_PGN: u32 = 0xFF00;
/// PGN of the bandwidth test: frames numbered by a counter.
pub const SEND_PGN: u32 = 0xFF01;

/// The number that big-endian bytes spell.
pub open spec fn be_value(bytes: Seq<u8>) -> nat
    decreases bytes.len(),
{
    if bytes.len() == 0 {
        0
    } else {
        be_value(bytes.drop_last()) * 256 + bytes.last() as nat
    }
}

pub open spec fn pow256(n: nat) -> nat
    decreases n,
{
    if n == 0 { 1 } else { 256 * pow256((n - 1) as nat) }
}

proof fn lemma_pow256_bound(n: nat)
    requires
        n <= 8,
    ensures
        pow256(n) <= 0x1_0000_0000_0000_0000,
    decreases 8 - n,
{
    reveal_with_fuel(pow256, 9);
    if n < 8 {
        lemma_pow256_bound(n + 1);
    }
}

/// A test frame from `sa` to `da` on `pgn` carrying `seq` as eight big-endian bytes.
pub fn numbered(pgn: u32, sa: u8, da: u8, seq: u64) -> (r: Packet)
    ensures
        r.id == compose_id(6, pgn, da, sa),
        r.payload@ == be_bytes(seq as nat, 8),
        r.state == PacketState::Tx,
{
    let mut payload: Vec<u8> = Vec::new();
    push_be(&mut payload, seq, 8);
    assert(payload@ =~= be_bytes(seq as nat, 8));
    Packet { id: compose(6, pgn, da, sa), payload, state: PacketState::Tx }
}

/// The server's answer to a frame: a ping from another node is answered, to that node, with
/// the same payload; anything else gets no answer.
pub fn pong(p: &Packet, sa: u8) -> (r: Option<Packet>)
    ensures
        r is Some <==> id_pgn(p.id) == PING_PGN && id_source(p.id) != sa,
        r is Some ==> r->Some_0.id == compose_id(6, PING_PGN, id_source(p.id), sa)
            && r->Some_0.payload@ == p.payload@ && r->Some_0.state == PacketState::Tx,
{
    let source = source_of(p.id);
    if pgn_of(p.id) != PING_PGN || source == sa {
        return None;
    }
    Some(Packet { id: compose(6, PING_PGN, source, sa), payload: copy_bytes(p.payload.as_slice()), state: PacketState::Tx })
}

/// Whether a frame is the pong of node `da`.
pub fn is_pong(p: &Packet, da: u8) -> (r: bool)
    ensures
        r == (id_pgn(p.id) == PING_PGN && id_source(p.id) == da),
{
    pgn_of(p.id) == PING_PGN && source_of(p.id) == da
}

/// The counter of a bandwidth test frame from another node than `sa`.
pub fn counter(p: &Packet, sa: u8) -> (r: Option<u64>)
    ensures
        r is Some <==> id_pgn(p.id) == SEND_PGN && id_source(p.id) != sa && p.payload@.len() == 8,
        r is Some ==> r->Some_0 == be_value(p.payload@),
{
    if pgn_of(p.id) != SEND_PGN || source_of(p.id) == sa || p.payload.len() != 8 {
        return None;
    }
    let mut v: u64 = 0;
    let mut i: usize = 0;
    while i < 8
        invariant
            i <= 8,
            p.payload@.len() == 8,
            v == be_value(p.payload@.subrange(0, i as int)),
            v < pow256(i as nat),
        decreases 8 - i,
    {
        proof {
            lemma_pow256_bound((i + 1) as nat);
            assert(pow256((i + 1) as nat) == 256 * pow256(i as nat));
            assert(p.payload@.subrange(0, i + 1).drop_last() =~= p.payload@.subrange(0, i as int));
        }
        v = v * 256 + p.payload[i] as u64;
        i = i + 1;
    }
    assert(p.payload@.subrange(0, 8) =~= p.payload@);
    Some(v)
}

} // verus!
