//! ISO-14229 (UDS) request bodies: a service identifier followed by fixed-width big-endian
//! fields or raw byte runs.
use vstd::prelude::*;

use crate::iso15765::{receive_header_of, send_header_of, Iso15765};
use crate::segment::{be_bytes, be_run, push_be};

verus! {

/// The PGN UDS requests travel on.
pub const UDS_PGN: u32 = 0xDA00;

/// A UDS request under construction, with the PGN and the timeout of the exchange.
#[derive(Debug)]
pub struct Iso14229Command {
    pub raw: Vec<u8>,
    pub pgn: u32,
    /// Timeout of the exchange, in milliseconds.
    pub duration: u64,
}

impl Default for Iso14229Command {
    fn default() -> (r: Iso14229Command)
        ensures
            r.raw@.len() == 0,
            r.pgn == UDS_PGN,
            r.duration == 2000,
    {
        Iso14229Command { raw: Vec::new(), pgn: UDS_PGN, duration: 2000 }
    }
}

/// The values of a run of 16-bit fields.
pub open spec fn values16(data: Seq<u16>) -> Seq<nat> {
    data.map_values(|d: u16| d as nat)
}

pub open spec fn values32(data: Seq<u32>) -> Seq<nat> {
    data.map_values(|d: u32| d as nat)
}

pub open spec fn values64(data: Seq<u64>) -> Seq<nat> {
    data.map_values(|d: u64| d as nat)
}

impl Iso14229Command {
    /// A request for service `command`.
    pub fn build(duration: u64, command: u8) -> (r: Iso14229Command)
        ensures
            r.raw@ == seq![command],
            r.pgn == UDS_PGN,
            r.duration == duration,
    {
        let mut raw: Vec<u8> = Vec::new();
        raw.push(command);
        Iso14229Command { raw, pgn: UDS_PGN, duration }
    }

    /// Appends raw bytes.
    pub fn u8(self, data: &[u8]) -> (r: Iso14229Command)
        ensures
            r.raw@ == self.raw@ + data@,
            r.pgn == self.pgn,
            r.duration == self.duration,
    {
        let mut s = self;
        let ghost start = s.raw@;
        let mut i: usize = 0;
        while i < data.len()
            invariant
                i <= data@.len(),
                s.raw@ == start + data@.subrange(0, i as int),
                s.pgn == self.pgn,
                s.duration == self.duration,
            decreases data@.len() - i,
        {
            s.raw.push(data[i]);
            i = i + 1;
            assert(s.raw@ =~= start + data@.subrange(0, i as int));
        }
        assert(data@.subrange(0, data@.len() as int) =~= data@);
        s
    }

    /// Appends each value as two big-endian bytes.
    pub fn u16(self, data: &[u16]) -> (r: Iso14229Command)
        ensures
            r.raw@ == self.raw@ + be_run(values16(data@), 2),
            r.pgn == self.pgn,
            r.duration == self.duration,
    {
        let mut s = self;
        let ghost start = s.raw@;
        let mut i: usize = 0;
        while i < data.len()
            invariant
                i <= data@.len(),
                s.raw@ == start + be_run(values16(data@.subrange(0, i as int)), 2),
                s.pgn == self.pgn,
                s.duration == self.duration,
            decreases data@.len() - i,
        {
            push_be(&mut s.raw, data[i] as u64, 2);
            proof {
                let next = values16(data@.subrange(0, i + 1));
                assert(next.drop_last() =~= values16(data@.subrange(0, i as int)));
            }
            i = i + 1;
        }
        assert(data@.subrange(0, data@.len() as int) =~= data@);
        s
    }

    /// Appends the low 24 bits of each value as three big-endian bytes.
    pub fn u24(self, data: &[u32]) -> (r: Iso14229Command)
        ensures
            r.raw@ == self.raw@ + be_run(values32(data@), 3),
            r.pgn == self.pgn,
            r.duration == self.duration,
    {
        let mut s = self;
        let ghost start = s.raw@;
        let mut i: usize = 0;
        while i < data.len()
            invariant
                i <= data@.len(),
                s.raw@ == start + be_run(values32(data@.subrange(0, i as int)), 3),
                s.pgn == self.pgn,
                s.duration == self.duration,
            decreases data@.len() - i,
        {
            push_be(&mut s.raw, data[i] as u64, 3);
            proof {
                let next = values32(data@.subrange(0, i + 1));
                assert(next.drop_last() =~= values32(data@.subrange(0, i as int)));
            }
            i = i + 1;
        }
        assert(data@.subrange(0, data@.len() as int) =~= data@);
        s
    }

    /// Appends each value as four big-endian bytes.
    pub fn u32(self, data: &[u32]) -> (r: Iso14229Command)
        ensures
            r.raw@ == self.raw@ + be_run(values32(data@), 4),
            r.pgn == self.pgn,
            r.duration == self.duration,
    {
        let mut s = self;
        let ghost start = s.raw@;
        let mut i: usize = 0;
        while i < data.len()
            invariant
                i <= data@.len(),
                s.raw@ == start + be_run(values32(data@.subrange(0, i as int)), 4),
                s.pgn == self.pgn,
                s.duration == self.duration,
            decreases data@.len() - i,
        {
            push_be(&mut s.raw, data[i] as u64, 4);
            proof {
                let next = values32(data@.subrange(0, i + 1));
                assert(next.drop_last() =~= values32(data@.subrange(0, i as int)));
            }
            i = i + 1;
        }
        assert(data@.subrange(0, data@.len() as int) =~= data@);
        s
    }

    /// Appends each value as eight big-endian bytes.
    pub fn u64(self, data: &[u64]) -> (r: Iso14229Command)
        ensures
            r.raw@ == self.raw@ + be_run(values64(data@), 8),
            r.pgn == self.pgn,
            r.duration == self.duration,
    {
        let mut s = self;
        let ghost start = s.raw@;
        let mut i: usize = 0;
        while i < data.len()
            invariant
                i <= data@.len(),
                s.raw@ == start + be_run(values64(data@.subrange(0, i as int)), 8),
                s.pgn == self.pgn,
                s.duration == self.duration,
            decreases data@.len() - i,
        {
            push_be(&mut s.raw, data[i], 8);
            proof {
                let next = values64(data@.subrange(0, i + 1));
                assert(next.drop_last() =~= values64(data@.subrange(0, i as int)));
            }
            i = i + 1;
        }
        assert(data@.subrange(0, data@.len() as int) =~= data@);
        s
    }

    /// The ISO-TP session the request is exchanged on, from `sa` to `da`.
    pub fn session(&self, sa: u8, da: u8) -> (r: Iso15765)
        requires
            self.pgn <= 0x3FFFF,
        ensures
            r.send_header == send_header_of(self.pgn, sa, da),
            r.receive_header == receive_header_of(self.pgn, sa, da),
            r.duration == self.duration,
    {
        Iso15765::new(self.pgn, self.duration, sa, da)
    }
}

/// The UDS services this library composes.
#[derive(Debug)]
pub enum Uds {
    /// 0x10 sessionControl.
    S10 { session: u8 },
    /// 0x22 readDataByIdentifier.
    S22 { did: u16 },
    /// 0x2E writeDataByIdentifier.
    S2E { did: u16, value: Vec<u8> },
    /// 0x2F inputOutputControl.
    S2F { did: u16, value: Vec<u8> },
    /// 0x27 securityAccess.
    S27 { id: u8, key: Vec<u8> },
}

/// The request body of a service.
pub open spec fn request_bytes(u: Uds) -> Seq<u8> {
    match u {
        Uds::S10 { session } => seq![0x10u8, session],
        Uds::S22 { did } => seq![0x22u8] + be_bytes(did as nat, 2),
        Uds::S2E { did, value } => seq![0x2Eu8] + be_bytes(did as nat, 2) + value@,
        Uds::S2F { did, value } => seq![0x2Fu8] + be_bytes(did as nat, 2) + value@,
        Uds::S27 { id, key } => seq![0x27u8, id] + key@,
    }
}

/// A run of one 16-bit field is that field's two big-endian bytes.
proof fn lemma_one_field(data: Seq<u16>, did: u16)
    requires
        data =~= seq![did],
    ensures
        be_run(values16(data), 2) == be_bytes(did as nat, 2),
{
    assert(values16(data).drop_last() =~= Seq::<nat>::empty());
    assert(be_run(Seq::<nat>::empty(), 2) =~= Seq::<u8>::empty());
    assert(values16(data).last() == did as nat);
    assert(be_run(values16(data), 2) =~= be_bytes(did as nat, 2));
}

impl Uds {
    /// The request of this service, with the given exchange timeout in milliseconds.
    pub fn cmd(&self, duration: u64) -> (r: Iso14229Command)
        ensures
            r.raw@ == request_bytes(*self),
            r.pgn == UDS_PGN,
            r.duration == duration,
    {
        match self {
            Uds::S10 { session } => {
                let s = [*session];
                let r = Iso14229Command::build(duration, 0x10).u8(&s);
                assert(r.raw@ =~= request_bytes(*self));
                r
            },
            Uds::S22 { did } => {
                let d = [*did];
                let r = Iso14229Command::build(duration, 0x22).u16(&d);
                proof {
                    lemma_one_field(d@, *did);
                    assert(r.raw@ =~= request_bytes(*self));
                }
                r
            },
            Uds::S2E { did, value } => {
                let d = [*did];
                let r = Iso14229Command::build(duration, 0x2E).u16(&d).u8(value.as_slice());
                proof {
                    lemma_one_field(d@, *did);
                    assert(r.raw@ =~= request_bytes(*self));
                }
                r
            },
            Uds::S2F { did, value } => {
                let d = [*did];
                let r = Iso14229Command::build(duration, 0x2F).u16(&d).u8(value.as_slice());
                proof {
                    lemma_one_field(d@, *did);
                    assert(r.raw@ =~= request_bytes(*self));
                }
                r
            },
            Uds::S27 { id, key } => {
                let i = [*id];
                let r = Iso14229Command::build(duration, 0x27).u8(&i).u8(key.as_slice());
                assert(r.raw@ =~= request_bytes(*self));
                r
            },
        }
    }
}

} // verus!
