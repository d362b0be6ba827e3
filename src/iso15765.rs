//! ISO-15765-2 (ISO-TP) segmentation and reassembly on 29-bit J1939-style headers.
use vstd::prelude::*;

use crate::packet::{copy_bytes, Packet, PacketState};
use crate::segment::{
    build_data_frame, concat_tails, data_frame, lemma_concat_windows, lemma_data_frame_tail,
    pad_ff, tail, take, window,
};

verus! {

/// Single frame: the length, the data, 0xFF up to eight bytes.
pub open spec fn single_frame(data: Seq<u8>) -> Seq<u8> {
    pad_ff(seq![data.len() as u8] + data, 8)
}

/// First frame: 0x1 and a 12-bit length, then the first six data bytes.
pub open spec fn first_frame(data: Seq<u8>) -> Seq<u8> {
    seq![(0x10 + data.len() / 256) as u8, (data.len() % 256) as u8] + data.subrange(0, 6)
}

/// The leading byte of the `k`-th consecutive frame: 0x2 and the sequence nibble `k mod 16`.
pub open spec fn consecutive_head(k: int) -> u8 {
    (0x20 + k % 16) as u8
}

/// The `k`-th consecutive frame (counting from 1) of a segmented message.
pub open spec fn consecutive_frame(data: Seq<u8>, k: int) -> Seq<u8> {
    data_frame(consecutive_head(k), data, 6 + 7 * (k - 1))
}

/// How many consecutive frames follow a first frame announcing `len` bytes: enough for the
/// `len - 6` bytes left after the first frame, seven at a time.
pub open spec fn consecutive_count(len: int) -> int {
    len / 7
}

/// All consecutive frames of a segmented message, in order.
pub open spec fn consecutive_frames_of(data: Seq<u8>) -> Seq<Seq<u8>> {
    Seq::new(consecutive_count(data.len() as int) as nat, |i: int| consecutive_frame(data, i + 1))
}

/// The data a single frame carries.
pub open spec fn single_frame_data(frame: Seq<u8>) -> Seq<u8> {
    frame.subrange(1, 1 + frame[0] as int)
}

/// The length a first frame announces.
pub open spec fn first_frame_len(frame: Seq<u8>) -> int {
    (frame[0] % 16) as int * 256 + frame[1] as int
}

/// The message rebuilt from a first frame and the consecutive frames that followed it.
pub open spec fn collect(first: Seq<u8>, frames: Seq<Seq<u8>>) -> Seq<u8> {
    take(first.subrange(2, first.len() as int) + concat_tails(frames), first_frame_len(first))
}

/// The flow-control frame a receiver sends: continue, no block limit, no separation time.
pub open spec fn flow_control_continue() -> Seq<u8> {
    seq![0x30u8, 0, 0, 0xFF, 0xFF, 0xFF, 0xFF, 0xFF]
}

/// The minimum separation time of a flow-control frame, in microseconds: 0xF1 to 0xF9 are
/// hundreds of microseconds, other values milliseconds.
pub open spec fn separation_micros(st_min: u8) -> u64 {
    if 0xF0 < st_min && st_min < 0xFA {
        (100 * (st_min % 16)) as u64
    } else {
        (1000 * st_min) as u64
    }
}

pub open spec fn send_header_of(pgn: u32, sa: u8, da: u8) -> u32 {
    0x18000000u32 | (pgn << 8u32) | ((da as u32) << 8u32) | (sa as u32)
}

pub open spec fn receive_header_of(pgn: u32, sa: u8, da: u8) -> u32 {
    (pgn << 8u32) | ((sa as u32) << 8u32) | (da as u32)
}

/// Segmenting a message and reassembling its frames gives the message back: a short message
/// travels in one single frame, a longer one in a first frame and as many consecutive frames
/// as its announced length calls for.
pub proof fn lemma_round_trip(data: Seq<u8>)
    requires
        1 <= data.len() <= 4095,
    ensures
        data.len() <= 7 ==> single_frame(data)[0] / 16 == 0 && single_frame_data(single_frame(data))
            == data,
        data.len() > 7 ==> first_frame(data)[0] / 16 == 1 && first_frame_len(first_frame(data))
            == data.len() && consecutive_frames_of(data).len() == consecutive_count(
            first_frame_len(first_frame(data)),
        ) && collect(first_frame(data), consecutive_frames_of(data)) == data,
{
    let n = data.len() as int;
    if n <= 7 {
        assert(single_frame_data(single_frame(data)) =~= data);
    } else {
        let first = first_frame(data);
        assert(first_frame_len(first) == n);
        let frames = consecutive_frames_of(data);
        assert forall|k: int| 0 <= k < frames.len() implies #[trigger] tail(frames[k]) == pad_ff(
            window(data, 6 + 7 * k, 6 + 7 * k + 7),
            7,
        ) by {
            lemma_data_frame_tail(consecutive_head(k + 1), data, 6 + 7 * (k + 1 - 1));
        }
        lemma_concat_windows(frames, data, 6);
        let rest = concat_tails(frames);
        assert(take(rest, n - 6) == data.subrange(6, n));
        let head = first.subrange(2, first.len() as int);
        assert(head =~= data.subrange(0, 6));
        assert(rest.len() >= n - 6) by {
            assert(take(rest, n - 6).len() == n - 6);
        }
        assert(take(head + rest, n) =~= head + take(rest, n - 6));
        assert(collect(first, frames) =~= data);
    }
}

/// The frames one end of a session sends are the frames the other end listens for: a session
/// from `sa` to `da` sends on the header that the session from `da` to `sa` receives, for a
/// PGN of up to 16 bits.
pub proof fn lemma_sessions_match(pgn: u32, sa: u8, da: u8)
    requires
        pgn <= 0xFFFF,
    ensures
        send_header_of(pgn, sa, da) & 0xFFFFFF == receive_header_of(pgn, da, sa),
{
    let s = sa as u32;
    let d = da as u32;
    assert((0x18000000u32 | (pgn << 8u32) | (d << 8u32) | s) & 0xFFFFFF == (pgn << 8u32) | (d
        << 8u32) | s) by (bit_vector)
        requires
            pgn <= 0xFFFF,
            s < 256,
            d < 256,
    ;
}

/// Consecutive frames carry the sequence numbers 1, 2, ..., 15, 0, 1, ... in their low nibble,
/// under the high nibble 2.
pub proof fn lemma_sequence_wrap(data: Seq<u8>, k: int)
    requires
        1 <= k,
    ensures
        consecutive_frame(data, k)[0] % 16 == k % 16,
        consecutive_frame(data, k)[0] / 16 == 2,
{
    lemma_data_frame_tail(consecutive_head(k), data, 6 + 7 * (k - 1));
}

/// Why a transfer failed.
#[derive(Debug)]
pub enum IsoTpError {
    /// Nothing matching arrived before the deadline.
    NoResponse,
    /// The sender of a long message saw no flow control in time.
    FlowControlMissing,
    /// The peer answered with a negative response; its payload.
    Nack(Vec<u8>),
    /// The peer answered with a frame of an unknown kind; its leading byte.
    UnexpectedFrame(u8),
    /// A frame too short for what its leading byte announces.
    Malformed,
}

/// The parameters of a flow-control frame.
#[derive(Clone, Copy, Debug, PartialEq, Eq, Structural)]
pub struct FlowControl {
    pub block_size: u8,
    pub separation_us: u64,
}

impl FlowControl {
    /// Whether the sender, having sent `sent_in_block` consecutive frames under this flow
    /// control, must wait for the next one: a block size of 0 lets every frame through, any
    /// other block size that many.
    pub fn block_full(&self, sent_in_block: usize) -> (r: bool)
        ensures
            r == (self.block_size != 0 && sent_in_block >= self.block_size),
    {
        self.block_size != 0 && sent_in_block >= self.block_size as usize
    }
}

/// What a frame means to a receiver waiting for a message.
pub enum RxStart {
    /// Not addressed to this session, or neither a single nor a first frame.
    Ignore,
    /// A whole message in one frame.
    Single(Vec<u8>),
    /// The start of a segmented message; the flow-control frame is to be sent next.
    First(IsoTpReassembly),
    /// A single or first frame too short for what it announces.
    Malformed,
}

/// One ISO-TP session between this node and a peer.
pub struct Iso15765 {
    pub send_header: u32,
    pub receive_header: u32,
    /// Overall timeout of a receive, in milliseconds.
    pub duration: u64,
}

impl Iso15765 {
    pub fn new(pgn: u32, duration: u64, sa: u8, da: u8) -> (r: Iso15765)
        ensures
            r.send_header == send_header_of(pgn, sa, da),
            r.receive_header == receive_header_of(pgn, sa, da),
            r.duration == duration,
    {
        let sa32 = sa as u32;
        let da32 = da as u32;
        Iso15765 {
            send_header: 0x18000000u32 | (pgn << 8u32) | (da32 << 8u32) | sa32,
            receive_header: (pgn << 8u32) | (sa32 << 8u32) | da32,
            duration,
        }
    }

    /// Whether a frame comes from the peer of this session.
    pub fn is_response(&self, p: &Packet) -> (r: bool)
        ensures
            r == (p.id & 0xFFFFFF == self.receive_header),
    {
        p.id & 0xFFFFFF == self.receive_header
    }

    /// The frame that opens the transfer of `request`: a single frame for up to seven bytes,
    /// else a first frame, after which the peer's flow control is awaited.
    pub fn send(&self, request: &[u8]) -> (r: Packet)
        requires
            request@.len() <= 4095,
        ensures
            r.id == self.send_header,
            r.state == PacketState::Tx,
            request@.len() <= 7 ==> r.payload@ == single_frame(request@),
            request@.len() > 7 ==> r.payload@ == first_frame(request@),
    {
        let n = request.len();
        let mut payload: Vec<u8> = Vec::with_capacity(8);
        if n <= 7 {
            payload.push(n as u8);
            let mut i: usize = 0;
            while i < n
                invariant
                    n == request@.len(),
                    i <= n,
                    payload@ == seq![n as u8] + request@.subrange(0, i as int),
                decreases n - i,
            {
                payload.push(request[i]);
                i = i + 1;
                assert(payload@ =~= seq![n as u8] + request@.subrange(0, i as int));
            }
            assert(request@.subrange(0, n as int) =~= request@);
            let ghost filled = payload@;
            while payload.len() < 8
                invariant
                    filled.len() <= 8,
                    payload@.len() <= 8,
                    payload@ == filled + Seq::new(
                        (payload@.len() - filled.len()) as nat,
                        |k: int| 0xFFu8,
                    ),
                decreases 8 - payload@.len(),
            {
                payload.push(0xFF);
                assert(payload@ =~= filled + Seq::new(
                    (payload@.len() - filled.len()) as nat,
                    |k: int| 0xFFu8,
                ));
            }
            assert(payload@ =~= single_frame(request@));
        } else {
            payload.push((0x10 + n / 256) as u8);
            payload.push((n % 256) as u8);
            let mut i: usize = 0;
            while i < 6
                invariant
                    n == request@.len(),
                    n > 7,
                    i <= 6,
                    payload@ == seq![(0x10 + n / 256) as u8, (n % 256) as u8] + request@.subrange(
                        0,
                        i as int,
                    ),
                decreases 6 - i,
            {
                payload.push(request[i]);
                i = i + 1;
                assert(payload@ =~= seq![(0x10 + n / 256) as u8, (n % 256) as u8]
                    + request@.subrange(0, i as int));
            }
            assert(payload@ =~= first_frame(request@));
        }
        Packet { id: self.send_header, payload, state: PacketState::Tx }
    }

    /// The consecutive frames of a segmented `request`, in the order they are sent.
    pub fn consecutive_frames(&self, request: &[u8]) -> (r: Vec<Packet>)
        requires
            8 <= request@.len() <= 4095,
        ensures
            r@.len() == consecutive_count(request@.len() as int),
            forall|i: int|
                0 <= i < r@.len() ==> (#[trigger] r@[i]).id == self.send_header && r@[i].state
                    == PacketState::Tx && r@[i].payload@ == consecutive_frame(request@, i + 1),
    {
        let count = request.len() / 7;
        let mut r: Vec<Packet> = Vec::with_capacity(count);
        let mut k: usize = 1;
        while k <= count
            invariant
                count == request@.len() / 7,
                count <= 585,
                1 <= k <= count + 1,
                r@.len() == k - 1,
                forall|i: int|
                    0 <= i < r@.len() ==> (#[trigger] r@[i]).id == self.send_header
                        && r@[i].state == PacketState::Tx && r@[i].payload@ == consecutive_frame(
                        request@,
                        i + 1,
                    ),
            decreases count + 1 - k,
        {
            let head = (0x20 + k % 16) as u8;
            let payload = build_data_frame(head, request, 6 + 7 * (k - 1));
            r.push(Packet { id: self.send_header, payload, state: PacketState::Tx });
            k = k + 1;
        }
        r
    }

    /// The flow-control frame a receiver sends after a first frame.
    pub fn flow_control_frame(&self) -> (r: Packet)
        ensures
            r.id == self.send_header,
            r.state == PacketState::Tx,
            r.payload@ == flow_control_continue(),
    {
        let payload: Vec<u8> = vec![0x30u8, 0, 0, 0xFF, 0xFF, 0xFF, 0xFF, 0xFF];
        assert(payload@ =~= flow_control_continue());
        Packet { id: self.send_header, payload, state: PacketState::Tx }
    }

    /// What a sender makes of the peer's answer to its first frame: go on with the
    /// consecutive frames, or stop.
    pub fn flow_control(&self, p: &Packet) -> (r: Result<FlowControl, IsoTpError>)
        ensures
            p.payload@.len() == 0 ==> r is Err && r->Err_0 is Malformed,
            p.payload@.len() > 0 && p.payload@[0] == 0x7F ==> r is Err && r->Err_0 is Nack
                && r->Err_0->Nack_0@ == p.payload@,
            p.payload@.len() > 0 && p.payload@[0] == 0x30 && p.payload@.len() < 3 ==> r is Err
                && r->Err_0 is Malformed,
            p.payload@.len() >= 3 && p.payload@[0] == 0x30 ==> r == Ok::<FlowControl, IsoTpError>(
                FlowControl {
                    block_size: p.payload@[1],
                    separation_us: separation_micros(p.payload@[2]),
                },
            ),
            p.payload@.len() > 0 && p.payload@[0] != 0x30 && p.payload@[0] != 0x7F ==> r is Err
                && r->Err_0 is UnexpectedFrame && r->Err_0->UnexpectedFrame_0 == p.payload@[0],
    {
        if p.payload.len() == 0 {
            return Err(IsoTpError::Malformed);
        }
        let head = p.payload[0];
        if head == 0x7F {
            Err(IsoTpError::Nack(copy_bytes(p.payload.as_slice())))
        } else if head != 0x30 {
            Err(IsoTpError::UnexpectedFrame(head))
        } else if p.payload.len() < 3 {
            Err(IsoTpError::Malformed)
        } else {
            let st_min = p.payload[2];
            let separation_us: u64 = if 0xF0 < st_min && st_min < 0xFA {
                100 * ((st_min % 16) as u64)
            } else {
                1000 * (st_min as u64)
            };
            Ok(FlowControl { block_size: p.payload[1], separation_us })
        }
    }

    /// What a frame means to a receiver waiting for a message of this session.
    pub fn receive(&self, p: &Packet) -> (r: RxStart)
        ensures
            !(p.id & 0xFFFFFF == self.receive_header && p.payload@.len() > 0 && p.payload@[0] / 16
                <= 1) ==> r is Ignore,
            p.id & 0xFFFFFF == self.receive_header && p.payload@.len() > 0 && p.payload@[0] / 16
                == 0 ==> if 1 + p.payload@[0] <= p.payload@.len() {
                r is Single && r->Single_0@ == single_frame_data(p.payload@)
            } else {
                r is Malformed
            },
            p.id & 0xFFFFFF == self.receive_header && p.payload@.len() > 0 && p.payload@[0] / 16
                == 1 ==> if p.payload@.len() >= 2 {
                r is First && r->First_0.wf() && r->First_0.first() == p.payload@
                    && r->First_0.frames().len() == 0
            } else {
                r is Malformed
            },
    {
        if !(p.id & 0xFFFFFF == self.receive_header) || p.payload.len() == 0 || p.payload[0] / 16
            > 1 {
            return RxStart::Ignore;
        }
        let head = p.payload[0];
        if head / 16 == 0 {
            let n = head as usize;
            if 1 + n > p.payload.len() {
                return RxStart::Malformed;
            }
            let mut data: Vec<u8> = Vec::with_capacity(n);
            let mut i: usize = 1;
            while i < 1 + n
                invariant
                    n <= 255,
                    1 <= i <= 1 + n,
                    1 + n <= p.payload@.len(),
                    data@ == p.payload@.subrange(1, i as int),
                decreases 1 + n - i,
            {
                data.push(p.payload[i]);
                i = i + 1;
                assert(data@ =~= p.payload@.subrange(1, i as int));
            }
            RxStart::Single(data)
        } else {
            if p.payload.len() < 2 {
                return RxStart::Malformed;
            }
            let len = ((head % 16) as usize) * 256 + (p.payload[1] as usize);
            let mut data: Vec<u8> = Vec::new();
            let mut i: usize = 2;
            while i < p.payload.len()
                invariant
                    2 <= i <= p.payload@.len(),
                    data@ == p.payload@.subrange(2, i as int),
                decreases p.payload@.len() - i,
            {
                data.push(p.payload[i]);
                i = i + 1;
                assert(data@ =~= p.payload@.subrange(2, i as int));
            }
            let r = IsoTpReassembly {
                len,
                remaining: len / 7,
                data,
                first_frame: Ghost(p.payload@),
                received: Ghost(Seq::empty()),
            };
            assert(r.data@ =~= p.payload@.subrange(2, p.payload@.len() as int) + concat_tails(
                Seq::empty(),
            ));
            RxStart::First(r)
        }
    }
}

/// A segmented message being received.
pub struct IsoTpReassembly {
    len: usize,
    remaining: usize,
    data: Vec<u8>,
    first_frame: Ghost<Seq<u8>>,
    received: Ghost<Seq<Seq<u8>>>,
}

impl IsoTpReassembly {
    /// The first frame's payload.
    pub closed spec fn first(&self) -> Seq<u8> {
        self.first_frame@
    }

    /// The payloads of the consecutive frames taken so far.
    pub closed spec fn frames(&self) -> Seq<Seq<u8>> {
        self.received@
    }

    pub closed spec fn wf(&self) -> bool {
        &&& self.first_frame@.len() >= 2
        &&& self.len == first_frame_len(self.first_frame@)
        &&& self.remaining + self.received@.len() == consecutive_count(self.len as int)
        &&& self.data@ == self.first_frame@.subrange(2, self.first_frame@.len() as int)
            + concat_tails(self.received@)
    }

    /// Whether every consecutive frame the first frame announced has arrived.
    pub fn is_complete(&self) -> (r: bool)
        requires
            self.wf(),
        ensures
            r == (self.frames().len() == consecutive_count(first_frame_len(self.first()))),
    {
        self.remaining == 0
    }

    /// Takes the next consecutive frame of the message.
    pub fn accept(&mut self, p: &Packet)
        requires
            old(self).wf(),
            old(self).frames().len() < consecutive_count(first_frame_len(old(self).first())),
        ensures
            final(self).wf(),
            final(self).first() == old(self).first(),
            final(self).frames() == old(self).frames().push(p.payload@),
    {
        let ghost start = self.data@;
        let n = p.payload.len();
        let mut i: usize = 1;
        while i < n
            invariant
                n == p.payload@.len(),
                1 <= i,
                i <= n || n == 0,
                n > 0 ==> self.data@ == start + p.payload@.subrange(1, i as int),
                n == 0 ==> self.data@ == start,
                self.len == old(self).len,
                self.remaining == old(self).remaining,
                self.first_frame == old(self).first_frame,
                self.received == old(self).received,
            decreases n - i,
        {
            self.data.push(p.payload[i]);
            i = i + 1;
            assert(self.data@ =~= start + p.payload@.subrange(1, i as int));
        }
        if n == 0 {
            assert(self.data@ =~= start + tail(p.payload@));
        } else {
            assert(self.data@ =~= start + tail(p.payload@));
        }
        self.remaining = self.remaining - 1;
        let ghost old_frames = self.received@;
        self.received = Ghost(self.received@.push(p.payload@));
        proof {
            assert(self.received@.drop_last() =~= old_frames);
            assert(self.data@ =~= self.first_frame@.subrange(2, self.first_frame@.len() as int)
                + concat_tails(self.received@));
        }
    }

    /// The message: the bytes gathered, cut to the announced length.
    pub fn finish(self) -> (r: Vec<u8>)
        requires
            self.wf(),
        ensures
            r@ == collect(self.first(), self.frames()),
    {
        let mut data = self.data;
        data.truncate(self.len);
        data
    }
}

} // verus!
