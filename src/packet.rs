use vstd::prelude::*;

use crate::text::{
    decimal, decimal_fixed, hex_fixed, hex_plain, hex_spaced, pad_left, push_decimal,
    push_decimal_fixed, push_hex_fixed, push_hex_plain, push_hex_spaced, push_padded,
    string_from_chars,
};

verus! {

/// Whether a frame was made by this application for transmit, or came from an adapter.
#[derive(Clone, Copy, Debug, PartialEq, Eq, Structural)]
pub enum PacketState {
    Tx,
    /// `time` is nanoseconds since the adapter was opened.
    Rx { time: u64, channel: u32 },
}

/// A CAN frame: a 29-bit identifier and its payload.
#[derive(Clone, Debug)]
pub struct Packet {
    pub id: u32,
    pub payload: Vec<u8>,
    pub state: PacketState,
}

/// What a frame holds, as mathematical values.
pub struct PacketView {
    pub id: u32,
    pub payload: Seq<u8>,
    pub state: PacketState,
}

impl View for Packet {
    type V = PacketView;

    open spec fn view(&self) -> PacketView {
        PacketView { id: self.id, payload: self.payload@, state: self.state }
    }
}

/// A fresh vector that holds the same bytes.
pub fn copy_bytes(bytes: &[u8]) -> (r: Vec<u8>)
    ensures
        r@ == bytes@,
{
    let mut r: Vec<u8> = Vec::with_capacity(bytes.len());
    let mut i: usize = 0;
    while i < bytes.len()
        invariant
            i <= bytes@.len(),
            r@ == bytes@.subrange(0, i as int),
        decreases bytes@.len() - i,
    {
        r.push(bytes[i]);
        i = i + 1;
        assert(r@ =~= bytes@.subrange(0, i as int));
    }
    assert(bytes@.subrange(0, bytes@.len() as int) =~= bytes@);
    r
}

/// Seconds with four decimals, rounded to the nearest tenth of a millisecond.
pub open spec fn time_text(t: u64) -> Seq<char> {
    let secs: int = t as int / 1_000_000_000;
    let sub: int = t as int % 1_000_000_000;
    let q: int = if sub % 100_000 >= 50_000 { sub / 100_000 + 1 } else { sub / 100_000 };
    if q == 10000 {
        decimal((secs + 1) as nat) + seq!['.'] + decimal_fixed(0, 4)
    } else {
        decimal(secs as nat) + seq!['.'] + decimal_fixed(q as nat, 4)
    }
}

/// The text `" (TX)"`.
pub open spec fn tx_mark() -> Seq<char> {
    seq![' ', '(', 'T', 'X', ')']
}

impl Packet {
    /// The time of a received frame, zero for one to transmit.
    pub open spec fn time_or_zero(&self) -> u64 {
        match self.state {
            PacketState::Tx => 0,
            PacketState::Rx { time, channel } => time,
        }
    }

    /// The channel of a received frame, zero for one to transmit.
    pub open spec fn channel_or_zero(&self) -> u32 {
        match self.state {
            PacketState::Tx => 0,
            PacketState::Rx { time, channel } => channel,
        }
    }

    /// The log line of a frame:
    /// `<seconds, width 12, 4 decimals> <channel> <id, 8 hex digits> [<len>] <hex bytes>[ (TX)]`.
    pub open spec fn display(&self) -> Seq<char> {
        pad_left(time_text(self.time_or_zero()), 12) + seq![' '] + decimal(
            self.channel_or_zero() as nat,
        ) + seq![' '] + hex_fixed(self.id as nat, 8) + seq![' ', '['] + decimal(
            self.payload@.len(),
        ) + seq![']', ' '] + hex_spaced(self.payload@) + if self.state == PacketState::Tx {
            tx_mark()
        } else {
            Seq::empty()
        }
    }

    /// Creates a frame for transmit. Applications use this.
    pub fn new(id: u32, payload: &[u8]) -> (r: Packet)
        ensures
            r.id == id,
            r.payload@ == payload@,
            r.state == PacketState::Tx,
    {
        Packet { id, payload: copy_bytes(payload), state: PacketState::Tx }
    }

    /// Creates a received frame. Connections use this.
    pub fn new_rx(id: u32, payload: &[u8], time: u64, channel: u32) -> (r: Packet)
        ensures
            r.id == id,
            r.payload@ == payload@,
            r.state == (PacketState::Rx { time, channel }),
    {
        Packet { id, payload: copy_bytes(payload), state: PacketState::Rx { time, channel } }
    }

    /// A frame equal to this one.
    pub fn duplicate(&self) -> (r: Packet)
        ensures
            r@ == self@,
    {
        Packet { id: self.id, payload: copy_bytes(self.payload.as_slice()), state: self.state }
    }

    /// The time of a received frame.
    pub open spec fn time_of_state(&self) -> Option<u64> {
        match self.state {
            PacketState::Tx => None,
            PacketState::Rx { time, channel } => Some(time),
        }
    }

    /// The channel of a received frame.
    pub open spec fn channel_of_state(&self) -> Option<u32> {
        match self.state {
            PacketState::Tx => None,
            PacketState::Rx { time, channel } => Some(channel),
        }
    }

    /// Nanoseconds since the adapter opened, for a received frame.
    pub fn time(&self) -> (r: Option<u64>)
        ensures
            r == self.time_of_state(),
    {
        match self.state {
            PacketState::Tx => None,
            PacketState::Rx { time, channel } => Some(time),
        }
    }

    /// The adapter channel, for a received frame.
    pub fn channel(&self) -> (r: Option<u32>)
        ensures
            r == self.channel_of_state(),
    {
        match self.state {
            PacketState::Tx => None,
            PacketState::Rx { time, channel } => Some(channel),
        }
    }

    /// Whether the frame was made by this application.
    pub fn is_tx(&self) -> (r: bool)
        ensures
            r == (self.state == PacketState::Tx),
    {
        match self.state {
            PacketState::Tx => true,
            PacketState::Rx { .. } => false,
        }
    }

    /// The payload as hex pairs with nothing between them.
    pub fn payload_str_nospace(&self) -> (r: String)
        ensures
            r@ == hex_plain(self.payload@),
    {
        let mut out: Vec<char> = Vec::new();
        push_hex_plain(&mut out, self.payload.as_slice());
        assert(out@ =~= hex_plain(self.payload@));
        string_from_chars(out)
    }

    /// The payload as hex pairs separated by spaces.
    pub fn payload_str(&self) -> (r: String)
        ensures
            r@ == hex_spaced(self.payload@),
    {
        let mut out: Vec<char> = Vec::new();
        push_hex_spaced(&mut out, self.payload.as_slice());
        assert(out@ =~= hex_spaced(self.payload@));
        string_from_chars(out)
    }

    /// The payload length.
    pub fn len(&self) -> (r: usize)
        ensures
            r == self.payload@.len(),
    {
        self.payload.len()
    }

    /// The log line of the frame (see [`Packet::display`]).
    pub fn to_string(&self) -> (r: String)
        ensures
            r@ == self.display(),
    {
        let t = match self.state {
            PacketState::Tx => 0u64,
            PacketState::Rx { time, channel } => time,
        };
        let ch = match self.state {
            PacketState::Tx => 0u32,
            PacketState::Rx { time, channel } => channel,
        };
        let secs = t / 1_000_000_000;
        let sub = t % 1_000_000_000;
        let mut q = sub / 100_000;
        if sub % 100_000 >= 50_000 {
            q = q + 1;
        }
        let mut time_chars: Vec<char> = Vec::new();
        if q == 10000 {
            push_decimal(&mut time_chars, secs + 1);
            time_chars.push('.');
            push_decimal_fixed(&mut time_chars, 0, 4);
        } else {
            push_decimal(&mut time_chars, secs);
            time_chars.push('.');
            push_decimal_fixed(&mut time_chars, q, 4);
        }
        assert(time_chars@ =~= time_text(t));
        let mut out: Vec<char> = Vec::new();
        push_padded(&mut out, &time_chars, 12);
        out.push(' ');
        push_decimal(&mut out, ch as u64);
        out.push(' ');
        push_hex_fixed(&mut out, self.id as u64, 8);
        out.push(' ');
        out.push('[');
        push_decimal(&mut out, self.payload.len() as u64);
        out.push(']');
        out.push(' ');
        push_hex_spaced(&mut out, self.payload.as_slice());
        let ghost before_mark = out@;
        if self.is_tx() {
            out.push(' ');
            out.push('(');
            out.push('T');
            out.push('X');
            out.push(')');
            assert(out@ =~= before_mark + tx_mark());
        } else {
            assert(out@ =~= before_mark + Seq::<char>::empty());
        }
        assert(out@ =~= self.display());
        string_from_chars(out)
    }
}

} // verus!
