//! SAE J1939-21 transport protocol: BAM and RTS/CTS senders, and a receiver that reassembles
//! multi-frame messages in the stream of frames it is handed.
use vstd::prelude::*;

use crate::j1939_packet::{
    compose, compose_id, id_dest, id_pgn, id_pgn_raw, id_priority, id_source, is_pdu1, lemma_id_bytes,
};
use crate::packet::{Packet, PacketState, PacketView};
use crate::segment::{build_data_frame, data_frame, lemma_data_frame_tail, pad_ff, tail, window};

verus! {

/// Connection management command: request to send.
pub const RTS: u8 = 0x10;
/// Connection management command: clear to send.
pub const CTS: u8 = 0x11;
/// Connection management command: end of message acknowledgement.
pub const EOM_ACK: u8 = 0x13;
/// Connection management command: broadcast announce.
pub const BAM: u8 = 0x20;
/// Connection management command: connection abort.
pub const ABORT: u8 = 0xFF;

/// Response time (Tr), in milliseconds.
pub const TR_MILLIS: u64 = 200;
/// Hold time (Th), in milliseconds.
pub const TH_MILLIS: u64 = 500;
/// Longest gap between two data frames of one message (T1), in milliseconds.
pub const T1_MILLIS: u64 = 750;
/// Longest wait for a data frame after a clear to send (T2), in milliseconds.
pub const T2_MILLIS: u64 = 1250;
/// Longest wait of a sender for a clear to send (T3), in milliseconds.
pub const T3_MILLIS: u64 = 1250;
/// Longest wait for the next clear to send after a hold (T4), in milliseconds.
pub const T4_MILLIS: u64 = 1050;
/// T1 in nanoseconds, the unit of frame times.
pub const T1_NANOS: u64 = 750_000_000;

/// The PGN that the control frames of a transfer of frame `id` announce: a broadcast PGN as
/// it stands; a destination-specific one with its destination byte set to the global address
/// 0xFF, since the control frames carry the addresses themselves.
pub open spec fn tp_pgn(id: u32) -> u32 {
    if is_pdu1(id_pgn_raw(id)) {
        id_pgn(id) | 0xFF
    } else {
        id_pgn_raw(id)
    }
}

/// See [`tp_pgn`].
pub fn tp_pgn_of(id: u32) -> (r: u32)
    ensures
        r == tp_pgn(id),
{
    let raw = (id >> 8u32) & 0x3FFFF;
    if (raw & 0xFF00) < 0xF000 {
        (raw & 0x3FF00) | 0xFF
    } else {
        raw
    }
}

/// The number of seven-byte data frames a message of `size` bytes takes.
pub open spec fn tp_count(size: int) -> int {
    (size + 6) / 7
}

/// A connection management frame: command, size (little endian), frame count, 0xFF,
/// PGN (24 bits, little endian).
pub open spec fn tp_control(command: u8, size: int, count: int, pgn: u32) -> Seq<u8> {
    seq![
        command,
        (size % 256) as u8,
        (size / 256 % 256) as u8,
        count as u8,
        0xFFu8,
        (pgn % 256) as u8,
        (pgn / 256 % 256) as u8,
        (pgn / 65536 % 256) as u8,
    ]
}

/// The data frame with sequence number `seq` (counting from 1) of a message.
pub open spec fn tp_data(data: Seq<u8>, seq: int) -> Seq<u8> {
    data_frame(seq as u8, data, 7 * (seq - 1))
}

/// All data frames of a message, in order.
pub open spec fn tp_data_frames(data: Seq<u8>) -> Seq<Seq<u8>> {
    Seq::new(tp_count(data.len() as int) as nat, |i: int| tp_data(data, i + 1))
}

/// Identifier of a broadcast control frame from `sa`.
pub open spec fn bam_control_id(sa: u8) -> u32 {
    0x18ECFF00u32 | (sa as u32)
}

/// Identifier of a broadcast data frame from `sa`.
pub open spec fn bam_data_id(sa: u8) -> u32 {
    0x18EBFF00u32 | (sa as u32)
}

/// Identifier of a destination-specific control frame from `sa` to `da`.
pub open spec fn ds_control_id(da: u8, sa: u8) -> u32 {
    0x18EC0000u32 | ((da as u32) << 8u32) | (sa as u32)
}

/// Identifier of a destination-specific data frame from `sa` to `da`.
pub open spec fn ds_data_id(da: u8, sa: u8) -> u32 {
    0x18EB0000u32 | ((da as u32) << 8u32) | (sa as u32)
}

/// A message being reassembled, as mathematical values.
pub struct DescriptorView {
    pub size: u16,
    pub count: u8,
    pub pgn: u32,
    pub data: Seq<u8>,
    pub timestamp: Option<u64>,
}

/// The size a connection management frame announces.
pub open spec fn announced_size(payload: Seq<u8>) -> int {
    payload[1] as int + 256 * payload[2] as int
}

/// Whether a control frame opens a transfer: a request to send or a broadcast announcement of
/// 9 to 1785 bytes.
pub open spec fn opens_transfer(payload: Seq<u8>) -> bool {
    &&& payload.len() >= 8
    &&& (payload[0] == RTS || payload[0] == BAM)
    &&& 9 <= announced_size(payload) <= 1785
}

/// The reassembly entry a control frame leaves behind, given the entry it found.
/// An RTS or BAM of 9 to 1785 bytes opens a new entry, an abort drops it, anything else keeps
/// it.
pub open spec fn control_step(
    entry: Option<DescriptorView>,
    payload: Seq<u8>,
    time: Option<u64>,
) -> Option<DescriptorView> {
    if payload.len() < 8 {
        entry
    } else if opens_transfer(payload) {
        Some(
            DescriptorView {
                size: (payload[1] as int + 256 * payload[2] as int) as u16,
                count: payload[3],
                pgn: (payload[5] as int + 256 * payload[6] as int + 65536 * payload[7] as int) as u32,
                data: Seq::empty(),
                timestamp: time,
            },
        )
    } else if payload[0] == ABORT {
        None
    } else {
        entry
    }
}

/// Whether more than T1 passed since the entry last grew.
pub open spec fn expired(d: DescriptorView, time: Option<u64>) -> bool {
    match (d.timestamp, time) {
        (Some(t0), Some(t)) => t > t0 + T1_NANOS,
        _ => false,
    }
}

/// Whether a data frame carries the next sequence number the entry waits for.
pub open spec fn in_sequence(d: DescriptorView, payload: Seq<u8>) -> bool {
    payload.len() > 0 && payload[0] as int == (1 + d.data.len() / 7) % 256
}

/// The entry after a data frame, before the completeness check.
pub open spec fn grown(d: DescriptorView, payload: Seq<u8>, time: Option<u64>) -> DescriptorView {
    if in_sequence(d, payload) {
        DescriptorView {
            data: d.data + tail(payload),
            timestamp: if time is Some { time } else { d.timestamp },
            ..d
        }
    } else {
        d
    }
}

/// What a data frame does to the entry of its source: the entry left behind, and the message
/// when this frame completed it. Only a frame in sequence can complete a message; one out of
/// sequence is dropped and the entry kept.
pub open spec fn data_step(entry: Option<DescriptorView>, payload: Seq<u8>, time: Option<u64>) -> (
    Option<DescriptorView>,
    Option<Seq<u8>>,
) {
    match entry {
        None => (None, None),
        Some(d) => if expired(d, time) {
            (None, None)
        } else {
            let g = grown(d, payload, time);
            if in_sequence(d, payload) && g.data.len() >= g.size {
                (None, Some(g.data.subrange(0, g.size as int)))
            } else {
                (Some(g), None)
            }
        },
    }
}

/// Data frames fed one after the other to an entry, each at its time: the entry left behind
/// and the messages completed on the way.
pub open spec fn feed(
    entry: Option<DescriptorView>,
    payloads: Seq<Seq<u8>>,
    times: Seq<Option<u64>>,
) -> (Option<DescriptorView>, Seq<Seq<u8>>)
    decreases payloads.len(),
{
    if payloads.len() == 0 {
        (entry, Seq::empty())
    } else {
        let n = payloads.len() - 1;
        let (e, done) = feed(entry, payloads.drop_last(), times.subrange(0, n));
        let (e2, m) = data_step(e, payloads.last(), times[n]);
        (e2, if m is Some { done.push(m->Some_0) } else { done })
    }
}

/// Whether `time` comes more than T1 after `since`, both being known.
pub open spec fn late(since: Option<u64>, time: Option<u64>) -> bool {
    match (since, time) {
        (Some(t0), Some(t)) => t > t0 + T1_NANOS,
        _ => false,
    }
}

/// The last known time among `start` and then `times`.
pub open spec fn latest(start: Option<u64>, times: Seq<Option<u64>>) -> Option<u64>
    decreases times.len(),
{
    if times.len() == 0 {
        start
    } else if times.last() is Some {
        times.last()
    } else {
        latest(start, times.drop_last())
    }
}

/// Whether every frame comes within T1 of the last known time before it.
#[verifier::opaque]
pub open spec fn prompt(start: Option<u64>, times: Seq<Option<u64>>) -> bool {
    forall|k: int| 0 <= k < times.len() ==> !late(latest(start, times.subrange(0, k)), #[trigger] times[k])
}

/// The entry a control frame opens for `data`.
pub open spec fn opened(data: Seq<u8>, pgn: u32, time: Option<u64>) -> DescriptorView {
    DescriptorView {
        size: data.len() as u16,
        count: tp_count(data.len() as int) as u8,
        pgn,
        data: Seq::empty(),
        timestamp: time,
    }
}

proof fn lemma_prompt_at(start: Option<u64>, times: Seq<Option<u64>>, k: int)
    requires
        prompt(start, times),
        0 <= k < times.len(),
    ensures
        !late(latest(start, times.subrange(0, k)), times[k]),
{
    reveal(prompt);
}

proof fn lemma_feed_prefix(data: Seq<u8>, pgn: u32, start: Option<u64>, times: Seq<Option<u64>>, k: int)
    requires
        9 <= data.len() <= 1785,
        times.len() == tp_count(data.len() as int),
        prompt(start, times),
        0 <= k,
        7 * k < data.len(),
    ensures
        feed(Some(opened(data, pgn, start)), tp_data_frames(data).subrange(0, k), times.subrange(0, k))
            == (
            Some(
                DescriptorView {
                    data: data.subrange(0, 7 * k),
                    timestamp: latest(start, times.subrange(0, k)),
                    ..opened(data, pgn, start)
                },
            ),
            Seq::<Seq<u8>>::empty(),
        ),
    decreases k,
{
    let frames = tp_data_frames(data).subrange(0, k);
    if k == 0 {
        assert(data.subrange(0, 0) =~= Seq::<u8>::empty());
        assert(frames.len() == 0);
    } else {
        lemma_feed_prefix(data, pgn, start, times, k - 1);
        assert(frames.drop_last() =~= tp_data_frames(data).subrange(0, k - 1));
        assert(times.subrange(0, k).subrange(0, k - 1) =~= times.subrange(0, k - 1));
        assert(times.subrange(0, k)[k - 1] == times[k - 1]);
        let d = DescriptorView {
            data: data.subrange(0, 7 * (k - 1)),
            timestamp: latest(start, times.subrange(0, k - 1)),
            ..opened(data, pgn, start)
        };
        let f = frames.last();
        assert(f == tp_data(data, k));
        lemma_data_frame_tail(k as u8, data, 7 * (k - 1));
        assert((7 * (k - 1)) / 7 == k - 1);
        assert(in_sequence(d, f));
        assert(tail(f) =~= data.subrange(7 * (k - 1), 7 * k));
        assert(d.data + tail(f) =~= data.subrange(0, 7 * k));
        lemma_prompt_at(start, times, k - 1);
        assert(!expired(d, times[k - 1]));
        assert(times.subrange(0, k).drop_last() =~= times.subrange(0, k - 1));
    }
}

/// Reassembling the data frames of a message, opened by its RTS or BAM control frame, gives the
/// message back, once, when its last frame arrives, and leaves no entry behind, whenever each
/// frame arrives within T1 of the frame before it.
pub proof fn lemma_round_trip(
    data: Seq<u8>,
    command: u8,
    pgn: u32,
    start: Option<u64>,
    times: Seq<Option<u64>>,
)
    requires
        9 <= data.len() <= 1785,
        command == RTS || command == BAM,
        pgn <= 0xFFFFFF,
        times.len() == tp_count(data.len() as int),
        prompt(start, times),
    ensures
        control_step(
            None,
            tp_control(command, data.len() as int, tp_count(data.len() as int), pgn),
            start,
        ) == Some(opened(data, pgn, start)),
        feed(Some(opened(data, pgn, start)), tp_data_frames(data), times) == (
            None::<DescriptorView>,
            seq![data],
        ),
{
    let n = data.len() as int;
    let count = tp_count(n);
    let c = tp_control(command, n, count, pgn);
    assert((c[1] as int + 256 * c[2] as int) == n);
    assert((c[5] as int + 256 * c[6] as int + 65536 * c[7] as int) == pgn);
    assert(control_step(None, c, start) == Some(opened(data, pgn, start)));
    let frames = tp_data_frames(data);
    lemma_feed_prefix(data, pgn, start, times, count - 1);
    assert(frames.drop_last() =~= frames.subrange(0, count - 1));
    assert(times.subrange(0, count - 1) =~= times.subrange(0, times.len() - 1));
    let d = DescriptorView {
        data: data.subrange(0, 7 * (count - 1)),
        timestamp: latest(start, times.subrange(0, count - 1)),
        ..opened(data, pgn, start)
    };
    let f = frames.last();
    assert(f == tp_data(data, count));
    lemma_data_frame_tail(count as u8, data, 7 * (count - 1));
    assert((7 * (count - 1)) / 7 == count - 1);
    assert(in_sequence(d, f));
    lemma_prompt_at(start, times, count - 1);
    assert(!expired(d, times[count - 1]));
    let g = grown(d, f, times[count - 1]);
    assert(g.data =~= data.subrange(0, 7 * (count - 1)) + pad_ff(
        window(data, 7 * (count - 1), 7 * count),
        7,
    ));
    assert(g.data.subrange(0, n) =~= data);
    assert(seq![data] =~= Seq::<Seq<u8>>::empty().push(data));
}

/// The payload of a connection management frame.
fn control_payload(command: u8, size: u16, count: u8, pgn: u32) -> (r: Vec<u8>)
    ensures
        r@ == tp_control(command, size as int, count as int, pgn),
{
    let r: Vec<u8> = vec![
        command,
        (size % 256) as u8,
        (size / 256) as u8,
        count,
        0xFF,
        (pgn % 256) as u8,
        (pgn / 256 % 256) as u8,
        (pgn / 65536 % 256) as u8,
    ];
    assert(r@ =~= tp_control(command, size as int, count as int, pgn));
    r
}

/// The frames of a broadcast (BAM) transfer of a long frame: the announcement, then every
/// data frame, all from the frame's source.
pub fn bam_frames(packet: &Packet) -> (r: Vec<Packet>)
    requires
        9 <= packet.payload@.len() <= 1785,
    ensures
        r@.len() == 1 + tp_count(packet.payload@.len() as int),
        r@[0].id == bam_control_id(id_source(packet.id)),
        r@[0].payload@ == tp_control(
            BAM,
            packet.payload@.len() as int,
            tp_count(packet.payload@.len() as int),
            tp_pgn(packet.id),
        ),
        r@[0].state == PacketState::Tx,
        forall|i: int|
            1 <= i < r@.len() ==> (#[trigger] r@[i]).id == bam_data_id(id_source(packet.id))
                && r@[i].payload@ == tp_data(packet.payload@, i) && r@[i].state == PacketState::Tx,
{
    let size = packet.payload.len();
    let count = (size + 6) / 7;
    let sa = (packet.id & 0xFF) as u8;
    let pgn = tp_pgn_of(packet.id);
    let mut r: Vec<Packet> = Vec::new();
    r.push(
        Packet {
            id: 0x18ECFF00u32 | (sa as u32),
            payload: control_payload(BAM, size as u16, count as u8, pgn),
            state: PacketState::Tx,
        },
    );
    let data_id = 0x18EBFF00u32 | (sa as u32);
    let mut seq: usize = 1;
    while seq <= count
        invariant
            size == packet.payload@.len(),
            9 <= size <= 1785,
            count == tp_count(size as int),
            1 <= seq <= count + 1,
            r@.len() == seq,
            data_id == bam_data_id(id_source(packet.id)),
            r@[0].id == bam_control_id(id_source(packet.id)),
            r@[0].payload@ == tp_control(BAM, size as int, count as int, tp_pgn(packet.id)),
            r@[0].state == PacketState::Tx,
            forall|i: int|
                1 <= i < r@.len() ==> (#[trigger] r@[i]).id == data_id && r@[i].payload@
                    == tp_data(packet.payload@, i) && r@[i].state == PacketState::Tx,
        decreases count + 1 - seq,
    {
        let payload = build_data_frame(seq as u8, packet.payload.as_slice(), 7 * (seq - 1));
        r.push(Packet { id: data_id, payload, state: PacketState::Tx });
        seq = seq + 1;
    }
    r
}

/// The request to send that opens a destination-specific transfer of a long frame.
pub fn rts_frame(packet: &Packet) -> (r: Packet)
    requires
        9 <= packet.payload@.len() <= 1785,
    ensures
        r.id == ds_control_id(id_dest(packet.id), id_source(packet.id)),
        r.payload@ == tp_control(
            RTS,
            packet.payload@.len() as int,
            tp_count(packet.payload@.len() as int),
            tp_pgn(packet.id),
        ),
        r.state == PacketState::Tx,
{
    let size = packet.payload.len();
    let count = (size + 6) / 7;
    let sa = (packet.id & 0xFF) as u32;
    let da = (packet.id >> 8u32) & 0xFF;
    proof {
        lemma_id_bytes(packet.id);
    }
    Packet {
        id: 0x18EC0000u32 | (da << 8u32) | sa,
        payload: control_payload(RTS, size as u16, count as u8, tp_pgn_of(packet.id)),
        state: PacketState::Tx,
    }
}

/// The identifier, without priority, of the answers a destination-specific sender waits for.
pub open spec fn reply_id(packet_id: u32) -> u32 {
    0xEC0000u32 | ((id_source(packet_id) as u32) << 8u32) | (id_dest(packet_id) as u32)
}

/// What a destination-specific sender does on an answer from its peer.
pub enum SenderStep {
    /// The answer is not a connection management frame of this transfer.
    Ignore,
    /// The peer acknowledged the whole message.
    Complete,
    /// The peer aborted the transfer.
    Aborted,
    /// The peer cleared these data frames to be sent; then the next answer is awaited.
    Send(Vec<Packet>),
}

/// The data frames with sequence numbers `first..=last` of a destination-specific transfer.
fn ds_data_frames(packet: &Packet, first: usize, last: usize) -> (r: Vec<Packet>)
    requires
        9 <= packet.payload@.len() <= 1785,
        1 <= first,
        last <= tp_count(packet.payload@.len() as int),
    ensures
        r@.len() == if first <= last { last - first + 1 } else { 0 },
        forall|i: int|
            0 <= i < r@.len() ==> (#[trigger] r@[i]).id == ds_data_id(
                id_dest(packet.id),
                id_source(packet.id),
            ) && r@[i].payload@ == tp_data(packet.payload@, first + i) && r@[i].state
                == PacketState::Tx,
{
    let sa = (packet.id & 0xFF) as u32;
    let da = (packet.id >> 8u32) & 0xFF;
    proof {
        lemma_id_bytes(packet.id);
    }
    let data_id = 0x18EB0000u32 | (da << 8u32) | sa;
    let mut r: Vec<Packet> = Vec::new();
    let mut seq: usize = first;
    while seq <= last
        invariant
            1 <= first,
            last <= 255,
            first <= seq,
            seq <= last + 1 || seq == first,
            r@.len() == seq - first,
            data_id == ds_data_id(id_dest(packet.id), id_source(packet.id)),
            forall|i: int|
                0 <= i < r@.len() ==> (#[trigger] r@[i]).id == data_id && r@[i].payload@
                    == tp_data(packet.payload@, first + i) && r@[i].state == PacketState::Tx,
        decreases last + 1 - seq,
    {
        let payload = build_data_frame(seq as u8, packet.payload.as_slice(), 7 * (seq - 1));
        r.push(Packet { id: data_id, payload, state: PacketState::Tx });
        seq = seq + 1;
    }
    r
}

/// The decision of a destination-specific sender of `packet` on a frame `reply` from its peer:
/// an end of message acknowledgement completes the transfer, an abort ends it, and a clear to
/// send `[0x11, n, next, ..]` asks for the data frames `next..next + n` (those of them that
/// exist).
pub fn on_reply(packet: &Packet, reply: &Packet) -> (r: SenderStep)
    requires
        9 <= packet.payload@.len() <= 1785,
    ensures
        !(reply.id & 0xFFFFFF == reply_id(packet.id) && reply.payload@.len() >= 3) ==> r is Ignore,
        reply.id & 0xFFFFFF == reply_id(packet.id) && reply.payload@.len() >= 3 ==> {
            let c = reply.payload@;
            let first = if c[2] == 0 { 1 } else { c[2] as int };
            let end = c[2] as int + c[1] as int - 1;
            let last = if end < tp_count(packet.payload@.len() as int) {
                end
            } else {
                tp_count(packet.payload@.len() as int)
            };
            if c[0] == EOM_ACK {
                r is Complete
            } else if c[0] == ABORT {
                r is Aborted
            } else if c[0] == CTS {
                r is Send && r->Send_0@.len() == (if first <= last {
                    last - first + 1
                } else {
                    0
                }) && forall|i: int|
                    0 <= i < r->Send_0@.len() ==> (#[trigger] r->Send_0@[i]).id == ds_data_id(
                        id_dest(packet.id),
                        id_source(packet.id),
                    ) && r->Send_0@[i].payload@ == tp_data(packet.payload@, first + i)
                        && r->Send_0@[i].state == PacketState::Tx
            } else {
                r is Ignore
            }
        },
{
    let sa = packet.id & 0xFF;
    let da = (packet.id >> 8u32) & 0xFF;
    proof {
        lemma_id_bytes(packet.id);
    }
    let expected = 0xEC0000u32 | (sa << 8u32) | da;
    if reply.id & 0xFFFFFF != expected || reply.payload.len() < 3 {
        return SenderStep::Ignore;
    }
    let command = reply.payload[0];
    if command == EOM_ACK {
        SenderStep::Complete
    } else if command == ABORT {
        SenderStep::Aborted
    } else if command == CTS {
        let count = (packet.payload.len() + 6) / 7;
        let n = reply.payload[1] as usize;
        let next = reply.payload[2] as usize;
        let first = if next == 0 {
            1
        } else {
            next
        };
        let last = if next + n == 0 {
            0
        } else if next + n < count + 1 {
            next + n - 1
        } else {
            count
        };
        SenderStep::Send(ds_data_frames(packet, first, last))
    } else {
        SenderStep::Ignore
    }
}

/// A message being reassembled from one source.
pub struct TpDescriptor {
    pub size: u16,
    pub count: u8,
    pub pgn: u32,
    pub data: Vec<u8>,
    /// Time of the frame that last grew the message, when known.
    pub timestamp: Option<u64>,
}

impl View for TpDescriptor {
    type V = DescriptorView;

    open spec fn view(&self) -> DescriptorView {
        DescriptorView {
            size: self.size,
            count: self.count,
            pgn: self.pgn,
            data: self.data@,
            timestamp: self.timestamp,
        }
    }
}

pub open spec fn entry_view(e: Option<TpDescriptor>) -> Option<DescriptorView> {
    match e {
        None => None,
        Some(d) => Some(d@),
    }
}

pub open spec fn table_view(t: Seq<Option<TpDescriptor>>) -> Seq<Option<DescriptorView>> {
    t.map_values(|e: Option<TpDescriptor>| entry_view(e))
}

/// The entry a control frame leaves behind (see [`control_step`]).
fn apply_control(entry: Option<TpDescriptor>, payload: &[u8], time: Option<u64>) -> (r: Option<
    TpDescriptor,
>)
    ensures
        entry_view(r) == control_step(entry_view(entry), payload@, time),
{
    if payload.len() < 8 {
        entry
    } else if (payload[0] == RTS || payload[0] == BAM) && 9 <= (payload[1] as u16) + 256 * (
    payload[2] as u16) && (payload[1] as u16) + 256 * (payload[2] as u16) <= 1785 {
        let size = (payload[1] as u16) + 256 * (payload[2] as u16);
        let pgn = (payload[5] as u32) + 256 * (payload[6] as u32) + 65536 * (payload[7] as u32);
        let r = TpDescriptor { size, count: payload[3], pgn, data: Vec::new(), timestamp: time };
        assert(r@.data =~= Seq::<u8>::empty());
        Some(r)
    } else if payload[0] == ABORT {
        None
    } else {
        entry
    }
}

/// The entry a data frame leaves behind, and the message it completed (see [`data_step`]).
fn apply_data(entry: Option<TpDescriptor>, payload: &[u8], time: Option<u64>) -> (r: (
    Option<TpDescriptor>,
    Option<Vec<u8>>,
))
    ensures
        (entry_view(r.0), match r.1 {
            None => None,
            Some(m) => Some(m@),
        }) == data_step(entry_view(entry), payload@, time),
{
    match entry {
        None => (None, None),
        Some(d) => {
            let late = match (d.timestamp, time) {
                (Some(t0), Some(t)) => t >= t0 && t - t0 > T1_NANOS,
                _ => false,
            };
            if late {
                return (None, None);
            }
            let mut d = d;
            let ghost d0 = d@;
            let accepted = payload.len() > 0 && payload[0] as usize == (1 + d.data.len() / 7) % 256;
            if accepted {
                let mut i: usize = 1;
                while i < payload.len()
                    invariant
                        1 <= i <= payload@.len(),
                        d.data@ == d0.data + payload@.subrange(1, i as int),
                        d.size == d0.size,
                        d.count == d0.count,
                        d.pgn == d0.pgn,
                        d.timestamp == d0.timestamp,
                    decreases payload@.len() - i,
                {
                    d.data.push(payload[i]);
                    i = i + 1;
                    assert(d.data@ =~= d0.data + payload@.subrange(1, i as int));
                }
                if time.is_some() {
                    d.timestamp = time;
                }
                assert(in_sequence(d0, payload@));
            } else {
                assert(!in_sequence(d0, payload@));
            }
            assert(d@ == grown(d0, payload@, time));
            if accepted && d.data.len() >= d.size as usize {
                let mut m = d.data;
                m.truncate(d.size as usize);
                assert(m@ =~= grown(d0, payload@, time).data.subrange(0, d0.size as int));
                (None, Some(m))
            } else {
                (Some(d), None)
            }
        },
    }
}

/// The frames a receiver step hands on: the frame it was given, then any message it completed;
/// and the frames it wants transmitted (clear to send, end of message acknowledgement).
pub struct TpOutput {
    pub frames: Vec<Packet>,
    pub transmit: Vec<Packet>,
}

/// The part of the transport protocol a frame belongs to.
#[derive(Clone, Copy, Debug, PartialEq, Eq, Structural)]
pub enum TpKind {
    BroadcastControl,
    DirectControl,
    BroadcastData,
    DirectData,
    Other,
}

/// Which part of the transport protocol a frame belongs to, for a receiver at `addr`.
pub open spec fn frame_kind(addr: u8, id: u32) -> TpKind {
    if id & 0xFFFF00 == 0xECFF00 {
        TpKind::BroadcastControl
    } else if id & 0xFFFF00 == 0xEC0000u32 | ((addr as u32) << 8u32) {
        TpKind::DirectControl
    } else if id & 0xFFFF00 == 0xEBFF00 {
        TpKind::BroadcastData
    } else if id & 0xFFFF00 == 0xEB0000u32 | ((addr as u32) << 8u32) {
        TpKind::DirectData
    } else {
        TpKind::Other
    }
}

/// The clear to send a receiver answers a request to send with: all frames, from the first.
pub open spec fn cts_for(rts: PacketView) -> PacketView {
    PacketView {
        id: 0x18EC0000u32 | ((id_source(rts.id) as u32) << 8u32) | (id_dest(rts.id) as u32),
        payload: seq![CTS, rts.payload[3], 1u8, 0xFFu8, 0xFFu8, rts.payload[5], rts.payload[6], rts.payload[7]],
        state: PacketState::Tx,
    }
}

/// The acknowledgement a receiver sends when the message of `d` is complete.
pub open spec fn eom_for(d: DescriptorView, last: PacketView) -> PacketView {
    PacketView {
        id: 0x18EC0000u32 | ((id_source(last.id) as u32) << 8u32) | (id_dest(last.id) as u32),
        payload: tp_control(EOM_ACK, d.size as int, d.count as int, d.pgn),
        state: PacketState::Tx,
    }
}

/// The frame that carries a reassembled message: the PGN announced, between the addresses of
/// its last data frame, at that frame's priority and time.
pub open spec fn reassembled(d: DescriptorView, message: Seq<u8>, last: PacketView) -> PacketView {
    PacketView {
        id: compose_id(id_priority(last.id), d.pgn, id_dest(last.id), id_source(last.id)),
        payload: message,
        state: last.state,
    }
}

pub open spec fn time_of(p: PacketView) -> Option<u64> {
    match p.state {
        PacketState::Tx => None,
        PacketState::Rx { time, channel } => Some(time),
    }
}

/// The J1939-21 transport protocol receiver of the node at `addr`: it keeps one reassembly
/// table for broadcast transfers and one for transfers addressed to it, both keyed by source.
/// A passive receiver only listens; an active one answers requests to send and acknowledges
/// complete messages.
pub struct TpReceiver {
    pub addr: u8,
    pub passive: bool,
    pub bam: Vec<Option<TpDescriptor>>,
    pub ds: Vec<Option<TpDescriptor>>,
}

impl TpReceiver {
    /// The broadcast reassembly table, by source address.
    pub open spec fn bam_table(&self) -> Seq<Option<DescriptorView>> {
        table_view(self.bam@)
    }

    /// The destination-specific reassembly table, by source address.
    pub open spec fn ds_table(&self) -> Seq<Option<DescriptorView>> {
        table_view(self.ds@)
    }

    pub open spec fn wf(&self) -> bool {
        self.bam@.len() == 256 && self.ds@.len() == 256
    }

    pub fn new(addr: u8, passive: bool) -> (r: TpReceiver)
        ensures
            r.wf(),
            r.addr == addr,
            r.passive == passive,
            r.bam_table() == Seq::new(256, |i: int| None::<DescriptorView>),
            r.ds_table() == Seq::new(256, |i: int| None::<DescriptorView>),
    {
        let mut bam: Vec<Option<TpDescriptor>> = Vec::new();
        let mut ds: Vec<Option<TpDescriptor>> = Vec::new();
        let mut i: usize = 0;
        while i < 256
            invariant
                i <= 256,
                bam@.len() == i,
                ds@.len() == i,
                forall|k: int| 0 <= k < i ==> (#[trigger] bam@[k]) is None && ds@[k] is None,
            decreases 256 - i,
        {
            bam.push(None);
            ds.push(None);
            i = i + 1;
        }
        let r = TpReceiver { addr, passive, bam, ds };
        assert(r.bam_table() =~= Seq::new(256, |i: int| None::<DescriptorView>));
        assert(r.ds_table() =~= Seq::new(256, |i: int| None::<DescriptorView>));
        r
    }

    /// Takes the next frame of the stream. Control and data frames of the transport protocol
    /// update the table of their kind at their source; a data frame that completes a message
    /// adds the reassembled frame after the frame itself.
    pub fn receive(&mut self, p: Packet) -> (r: TpOutput)
        requires
            old(self).wf(),
        ensures
            final(self).wf(),
            final(self).addr == old(self).addr,
            final(self).passive == old(self).passive,
            r.frames@.len() >= 1,
            r.frames@[0]@ == p@,
            ({
                let kind = frame_kind(old(self).addr, p.id);
                let src = id_source(p.id) as int;
                let time = time_of(p@);
                let bam0 = old(self).bam_table();
                let ds0 = old(self).ds_table();
                if kind == TpKind::BroadcastControl {
                    &&& final(self).bam_table() == bam0.update(src, control_step(bam0[src], p.payload@, time))
                    &&& final(self).ds_table() == ds0
                    &&& r.frames@.len() == 1
                    &&& r.transmit@.len() == 0
                } else if kind == TpKind::DirectControl {
                    &&& final(self).bam_table() == bam0
                    &&& final(self).ds_table() == ds0.update(src, control_step(ds0[src], p.payload@, time))
                    &&& r.frames@.len() == 1
                    &&& if !old(self).passive && opens_transfer(p.payload@) {
                        r.transmit@.len() == 1 && r.transmit@[0]@ == cts_for(p@)
                    } else {
                        r.transmit@.len() == 0
                    }
                } else if kind == TpKind::BroadcastData {
                    let (e, m) = data_step(bam0[src], p.payload@, time);
                    &&& final(self).bam_table() == bam0.update(src, e)
                    &&& final(self).ds_table() == ds0
                    &&& r.transmit@.len() == 0
                    &&& if m is Some {
                        r.frames@.len() == 2 && r.frames@[1]@ == reassembled(bam0[src]->Some_0, m->Some_0, p@)
                    } else {
                        r.frames@.len() == 1
                    }
                } else if kind == TpKind::DirectData {
                    let (e, m) = data_step(ds0[src], p.payload@, time);
                    &&& final(self).bam_table() == bam0
                    &&& final(self).ds_table() == ds0.update(src, e)
                    &&& if m is Some {
                        &&& r.frames@.len() == 2
                        &&& r.frames@[1]@ == reassembled(ds0[src]->Some_0, m->Some_0, p@)
                        &&& if old(self).passive {
                            r.transmit@.len() == 0
                        } else {
                            r.transmit@.len() == 1 && r.transmit@[0]@ == eom_for(ds0[src]->Some_0, p@)
                        }
                    } else {
                        r.frames@.len() == 1 && r.transmit@.len() == 0
                    }
                } else {
                    &&& final(self).bam_table() == bam0
                    &&& final(self).ds_table() == ds0
                    &&& r.frames@.len() == 1
                    &&& r.transmit@.len() == 0
                }
            }),
    {
        let masked = p.id & 0xFFFF00;
        let addr = self.addr as u32;
        let src = (p.id & 0xFF) as usize;
        let time = p.time();
        proof {
            lemma_id_bytes(p.id);
        }
        let mut transmit: Vec<Packet> = Vec::new();
        let mut extra: Option<Packet> = None;
        if masked == 0xECFF00 {
            let mut entry: Option<TpDescriptor> = None;
            std::mem::swap(&mut self.bam[src], &mut entry);
            let next = apply_control(entry, p.payload.as_slice(), time);
            self.bam[src] = next;
        } else if masked == 0xEC0000u32 | (addr << 8u32) {
            let mut entry: Option<TpDescriptor> = None;
            std::mem::swap(&mut self.ds[src], &mut entry);
            let next = apply_control(entry, p.payload.as_slice(), time);
            self.ds[src] = next;
            if !self.passive && p.payload.len() >= 8 && (p.payload[0] == RTS || p.payload[0] == BAM)
                && 9 <= (p.payload[1] as u16) + 256 * (p.payload[2] as u16) && (p.payload[1] as u16)
                + 256 * (p.payload[2] as u16) <= 1785 {
                let payload: Vec<u8> = vec![
                    CTS,
                    p.payload[3],
                    1,
                    0xFF,
                    0xFF,
                    p.payload[5],
                    p.payload[6],
                    p.payload[7],
                ];
                let cts = Packet {
                    id: 0x18EC0000u32 | ((p.id & 0xFF) << 8u32) | ((p.id >> 8u32) & 0xFF),
                    payload,
                    state: PacketState::Tx,
                };
                assert(cts@ =~= cts_for(p@));
                transmit.push(cts);
            }
        } else if masked == 0xEBFF00 || masked == 0xEB0000u32 | (addr << 8u32) {
            let broadcast = masked == 0xEBFF00;
            let mut entry: Option<TpDescriptor> = None;
            if broadcast {
                std::mem::swap(&mut self.bam[src], &mut entry);
            } else {
                std::mem::swap(&mut self.ds[src], &mut entry);
            }
            let ghost before = entry_view(entry);
            let (size, count, pgn) = match &entry {
                Some(d) => (d.size, d.count, d.pgn),
                None => (0u16, 0u8, 0u32),
            };
            let (next, message) = apply_data(entry, p.payload.as_slice(), time);
            if broadcast {
                self.bam[src] = next;
            } else {
                self.ds[src] = next;
            }
            match message {
                Some(m) => {
                    let id = compose(
                        ((p.id >> 26u32) & 7) as u8,
                        pgn,
                        ((p.id >> 8u32) & 0xFF) as u8,
                        (p.id & 0xFF) as u8,
                    );
                    let whole = Packet { id, payload: m, state: p.state };
                    extra = Some(whole);
                    if !broadcast && !self.passive {
                        let eom = Packet {
                            id: 0x18EC0000u32 | ((p.id & 0xFF) << 8u32) | ((p.id >> 8u32) & 0xFF),
                            payload: control_payload(EOM_ACK, size, count, pgn),
                            state: PacketState::Tx,
                        };
                        transmit.push(eom);
                    }
                },
                None => {},
            }
        }
        let mut frames: Vec<Packet> = Vec::new();
        frames.push(p);
        match extra {
            Some(x) => frames.push(x),
            None => {},
        }
        assert(self.bam_table() =~= old(self).bam_table().update(
            src as int,
            entry_view(self.bam@[src as int]),
        ));
        assert(self.ds_table() =~= old(self).ds_table().update(
            src as int,
            entry_view(self.ds@[src as int]),
        ));
        TpOutput { frames, transmit }
    }
}

/// The clear to send that an active receiver answers a request to send with comes back to the
/// sender as an answer to its transfer, and clears every data frame, from the first: on it the
/// sender sends the whole message (see [`on_reply`]).
pub proof fn lemma_handshake(packet_id: u32, size: int, pgn: u32)
    requires
        9 <= size <= 1785,
    ensures
        ({
            let rts = PacketView {
                id: ds_control_id(id_dest(packet_id), id_source(packet_id)),
                payload: tp_control(RTS, size, tp_count(size), pgn),
                state: PacketState::Tx,
            };
            let cts = cts_for(rts);
            &&& cts.id & 0xFFFFFF == reply_id(packet_id)
            &&& cts.payload.len() == 8
            &&& cts.payload[0] == CTS
            &&& cts.payload[1] as int == tp_count(size)
            &&& cts.payload[2] == 1
        }),
{
    let d = id_dest(packet_id) as u32;
    let s = id_source(packet_id) as u32;
    let rts_id = 0x18EC0000u32 | (d << 8u32) | s;
    lemma_id_bytes(rts_id);
    assert(d < 256 && s < 256);
    assert((rts_id & 0xFF) == s && ((rts_id >> 8u32) & 0xFF) == d) by (bit_vector)
        requires
            rts_id == 0x18EC0000u32 | (d << 8u32) | s,
            d < 256,
            s < 256,
    ;
    assert(((0x18EC0000u32 | (s << 8u32) | d) & 0xFFFFFF) == (0xEC0000u32 | (s << 8u32) | d))
        by (bit_vector)
        requires
            d < 256,
            s < 256,
    ;
}

} // verus!
