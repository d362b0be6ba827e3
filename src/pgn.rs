//! A PGN as the three little-endian bytes that transport protocol control frames carry.
use vstd::prelude::*;

verus! {

/// A 24-bit PGN stored as three bytes, least significant first.
#[derive(Clone, Copy, Debug)]
pub struct Pgn {
    pub value: [u8; 3],
}

/// The value of three little-endian bytes.
pub open spec fn pgn_value(b0: u8, b1: u8, b2: u8) -> u32 {
    (b0 as int + 256 * b1 as int + 65536 * b2 as int) as u32
}

/// The low three bytes of `v`, least significant first.
pub open spec fn pgn_bytes(v: u32) -> [u8; 3] {
    [(v % 256) as u8, (v / 256 % 256) as u8, (v / 65536 % 256) as u8]
}

impl From<u32> for Pgn {
    /// Keeps the low 24 bits of `v`.
    fn from(v: u32) -> (r: Pgn) {
        Pgn { value: [(v % 256) as u8, (v / 256 % 256) as u8, (v / 65536 % 256) as u8] }
    }
}

impl vstd::std_specs::convert::FromSpecImpl<u32> for Pgn {
    open spec fn obeys_from_spec() -> bool {
        true
    }

    open spec fn from_spec(v: u32) -> Pgn {
        Pgn { value: pgn_bytes(v) }
    }
}

impl From<Pgn> for u32 {
    fn from(p: Pgn) -> (r: u32) {
        (p.value[0] as u32) + 256 * (p.value[1] as u32) + 65536 * (p.value[2] as u32)
    }
}

impl vstd::std_specs::convert::FromSpecImpl<Pgn> for u32 {
    open spec fn obeys_from_spec() -> bool {
        true
    }

    open spec fn from_spec(p: Pgn) -> u32 {
        pgn_value(p.value[0], p.value[1], p.value[2])
    }
}

/// Storing a PGN of up to 24 bits and reading it back gives it again.
pub proof fn lemma_pgn_round_trip(v: u32)
    requires
        v <= 0xFFFFFF,
    ensures
        ({
            let b = pgn_bytes(v);
            pgn_value(b[0], b[1], b[2]) == v
        }),
{
}

} // verus!
