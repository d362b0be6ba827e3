//! The serial-line CAN (SLCAN) text protocol: `T<8 hex id><1 hex length><2 hex digits per byte>`
//! lines terminated by a carriage return.
use vstd::prelude::*;

use crate::packet::{Packet, PacketState};
use crate::text::{hex_char, hex_fixed, hex_plain, push_hex_fixed, push_hex_plain, string_from_chars};

verus! {

/// CAN bus speeds an SLCAN adapter offers, in kbaud; the `S<n>` command takes the index.
pub const CAN_SPEEDS: [u32; 9] = [10, 20, 50, 100, 125, 250, 500, 800, 1000];

pub open spec fn can_speeds() -> Seq<u32> {
    seq![10u32, 20, 50, 100, 125, 250, 500, 800, 1000]
}

/// The index of `speed` among the adapter speeds.
pub fn speed_index(speed: u32) -> (r: Option<usize>)
    ensures
        r is Some ==> r->Some_0 < 9 && can_speeds()[r->Some_0 as int] == speed,
        r is None ==> forall|i: int| 0 <= i < 9 ==> can_speeds()[i] != speed,
{
    let speeds: [u32; 9] = CAN_SPEEDS;
    assert(speeds@ =~= can_speeds());
    let mut i: usize = 0;
    while i < 9
        invariant
            i <= 9,
            speeds@ == can_speeds(),
            forall|k: int| 0 <= k < i ==> can_speeds()[k] != speed,
        decreases 9 - i,
    {
        if speeds[i] == speed {
            return Some(i);
        }
        i = i + 1;
    }
    None
}

/// The commands that open an adapter at the speed with index `index`, each to be sent with a
/// carriage return: close (twice, as some adapters need), version, speed, open.
pub open spec fn setup_commands(index: int) -> Seq<Seq<u8>> {
    seq![seq![67u8], seq![67u8], seq![86u8], seq![83u8, (48 + index) as u8], seq![79u8]]
}

/// The commands that open an adapter at `speed` kbaud; `None` for a speed it does not offer.
pub fn setup(speed: u32) -> (r: Option<Vec<Vec<u8>>>)
    ensures
        r is None <==> forall|i: int| 0 <= i < 9 ==> can_speeds()[i] != speed,
        r is Some ==> exists|i: int|
            0 <= i < 9 && can_speeds()[i] == speed && r->Some_0@.map_values(|c: Vec<u8>| c@)
                == setup_commands(i),
{
    match speed_index(speed) {
        None => None,
        Some(i) => {
            let close1: Vec<u8> = vec![67u8];
            let close2: Vec<u8> = vec![67u8];
            let version: Vec<u8> = vec![86u8];
            let rate: Vec<u8> = vec![83u8, (48 + i) as u8];
            let open: Vec<u8> = vec![79u8];
            let ghost cmds = setup_commands(i as int);
            assert(close1@ =~= cmds[0]);
            assert(close2@ =~= cmds[1]);
            assert(version@ =~= cmds[2]);
            assert(rate@ =~= cmds[3]);
            assert(open@ =~= cmds[4]);
            let mut r: Vec<Vec<u8>> = Vec::new();
            r.push(close1);
            r.push(close2);
            r.push(version);
            r.push(rate);
            r.push(open);
            assert(r@.map_values(|c: Vec<u8>| c@) =~= cmds);
            Some(r)
        },
    }
}

/// The value of an upper- or lower-case hex digit.
pub open spec fn hex_value(c: u8) -> Option<u8> {
    if 48 <= c <= 57 {
        Some((c - 48) as u8)
    } else if 65 <= c <= 70 {
        Some((c - 55) as u8)
    } else if 97 <= c <= 102 {
        Some((c - 87) as u8)
    } else {
        None
    }
}

pub fn hex_digit_value(c: u8) -> (r: Option<u8>)
    ensures
        r == hex_value(c),
{
    if 48 <= c && c <= 57 {
        Some(c - 48)
    } else if 65 <= c && c <= 70 {
        Some(c - 55)
    } else if 97 <= c && c <= 102 {
        Some(c - 87)
    } else {
        None
    }
}

/// Whether every character of `s[start..end]` is a hex digit.
pub open spec fn all_hex(s: Seq<u8>, start: int, end: int) -> bool {
    forall|i: int| start <= i < end ==> (#[trigger] hex_value(s[i])) is Some
}

/// The number the hex digits `s[start..end]` spell.
pub open spec fn hex_number(s: Seq<u8>, start: int, end: int) -> nat
    decreases end - start,
{
    if end <= start {
        0
    } else {
        hex_number(s, start, end - 1) * 16 + hex_value(s[end - 1])->Some_0 as nat
    }
}

/// The bytes the hex digit pairs `s[start..start + 2n]` spell.
pub open spec fn hex_bytes(s: Seq<u8>, start: int, n: nat) -> Seq<u8> {
    Seq::new(n, |i: int| hex_number(s, start + 2 * i, start + 2 * i + 2) as u8)
}

/// Whether `line` is a well-formed frame line: `T`, eight hex digits, a length digit up to 8,
/// and that many bytes as hex pairs.
pub open spec fn is_frame_line(line: Seq<u8>) -> bool {
    &&& line.len() >= 10
    &&& line[0] == 84
    &&& all_hex(line, 1, 10)
    &&& hex_value(line[9])->Some_0 <= 8
    &&& line.len() == 10 + 2 * hex_value(line[9])->Some_0
    &&& all_hex(line, 10, line.len() as int)
}

fn parse_hex(s: &[u8], start: usize, end: usize) -> (r: Option<u64>)
    requires
        start <= end <= s@.len(),
        end - start <= 8,
    ensures
        r is Some <==> all_hex(s@, start as int, end as int),
        r is Some ==> r->Some_0 == hex_number(s@, start as int, end as int) && r->Some_0 < pow16(
            (end - start) as nat,
        ),
{
    let mut v: u64 = 0;
    let mut i: usize = start;
    while i < end
        invariant
            start <= i <= end,
            end <= s@.len(),
            end - start <= 8,
            all_hex(s@, start as int, i as int),
            v == hex_number(s@, start as int, i as int),
            v < pow16((i - start) as nat),
        decreases end - i,
    {
        match hex_digit_value(s[i]) {
            None => {
                return None;
            },
            Some(d) => {
                proof {
                    lemma_pow16_bound((i - start + 1) as nat);
                    assert(pow16((i - start + 1) as nat) == 16 * pow16((i - start) as nat));
                }
                v = v * 16 + d as u64;
                i = i + 1;
            },
        }
    }
    Some(v)
}

pub open spec fn pow16(n: nat) -> nat
    decreases n,
{
    if n == 0 { 1 } else { 16 * pow16((n - 1) as nat) }
}

proof fn lemma_pow16_bound(n: nat)
    requires
        n <= 8,
    ensures
        pow16(n) <= 0x1_0000_0000,
        pow16(2) == 256,
    decreases 8 - n,
{
    reveal_with_fuel(pow16, 9);
    if n < 8 {
        lemma_pow16_bound(n + 1);
        assert(pow16(n + 1) == 16 * pow16(n));
    }
}

/// The frame a line carries, received at time `now` (nanoseconds) on channel 0; `None` for a
/// malformed line.
pub fn parse_line(line: &[u8], now: u64) -> (r: Option<Packet>)
    ensures
        r is Some <==> is_frame_line(line@),
        r is Some ==> r->Some_0.id == hex_number(line@, 1, 9) && r->Some_0.payload@ == hex_bytes(
            line@,
            10,
            hex_value(line@[9])->Some_0 as nat,
        ) && r->Some_0.state == (PacketState::Rx { time: now, channel: 0 }),
{
    if line.len() < 10 || line[0] != 84 {
        return None;
    }
    let id = match parse_hex(line, 1, 9) {
        None => {
            return None;
        },
        Some(v) => v,
    };
    let n = match hex_digit_value(line[9]) {
        None => {
            proof {
                assert(!all_hex(line@, 1, 10));
            }
            return None;
        },
        Some(d) => d as usize,
    };
    proof {
        assert(all_hex(line@, 1, 10));
    }
    if n > 8 || line.len() != 10 + 2 * n {
        return None;
    }
    let mut payload: Vec<u8> = Vec::new();
    let mut k: usize = 0;
    while k < n
        invariant
            k <= n <= 8,
            line@.len() == 10 + 2 * n,
            payload@ == hex_bytes(line@, 10, k as nat),
            all_hex(line@, 10, 10 + 2 * k),
        decreases n - k,
    {
        match parse_hex(line, 10 + 2 * k, 12 + 2 * k) {
            None => {
                proof {
                    assert(!all_hex(line@, 10, line@.len() as int));
                }
                return None;
            },
            Some(b) => {
                proof {
                    lemma_pow16_bound(2);
                    assert(forall|i: int|
                        10 <= i < 10 + 2 * k ==> (#[trigger] hex_value(line@[i])) is Some);
                    assert(forall|i: int|
                        10 + 2 * k <= i < 12 + 2 * k ==> (#[trigger] hex_value(line@[i])) is Some);
                }
                payload.push(b as u8);
                k = k + 1;
                assert(payload@ =~= hex_bytes(line@, 10, k as nat));
            },
        }
    }
    proof {
        lemma_pow16_bound(8);
    }
    Some(Packet { id: id as u32, payload, state: PacketState::Rx { time: now, channel: 0 } })
}

/// Whether `s` starts with `0x` or `0X`.
pub open spec fn has_hex_prefix(s: Seq<u8>) -> bool {
    s.len() >= 2 && s[0] == 48 && (s[1] == 120 || s[1] == 88)
}

/// The bytes an even run of hex digits spells, after an optional `0x`; `None` for an odd run
/// or a character that is not a hex digit.
pub fn decode_hex(s: &[u8]) -> (r: Option<Vec<u8>>)
    ensures
        ({
            let start: int = if has_hex_prefix(s@) { 2 } else { 0 };
            &&& r is Some <==> (s@.len() - start) % 2 == 0 && all_hex(s@, start, s@.len() as int)
            &&& r is Some ==> r->Some_0@ == hex_bytes(s@, start, ((s@.len() - start) / 2) as nat)
        }),
{
    let start: usize = if s.len() >= 2 && s[0] == 48 && (s[1] == 120 || s[1] == 88) {
        2
    } else {
        0
    };
    assert(start as int == (if has_hex_prefix(s@) { 2int } else { 0int }));
    if (s.len() - start) % 2 != 0 {
        return None;
    }
    let n = (s.len() - start) / 2;
    let mut out: Vec<u8> = Vec::new();
    let mut k: usize = 0;
    while k < n
        invariant
            k <= n,
            start <= 2,
            s@.len() == start + 2 * n,
            s@.len() <= usize::MAX,
            start as int == (if has_hex_prefix(s@) { 2int } else { 0int }),
            out@ == hex_bytes(s@, start as int, k as nat),
            all_hex(s@, start as int, start + 2 * k),
        decreases n - k,
    {
        match parse_hex(s, start + 2 * k, start + 2 * k + 2) {
            None => {
                proof {
                    if all_hex(s@, start as int, s@.len() as int) {
                        assert(all_hex(s@, (start + 2 * k) as int, (start + 2 * k + 2) as int));
                    }
                }
                return None;
            },
            Some(b) => {
                proof {
                    lemma_pow16_bound(2);
                }
                out.push(b as u8);
                k = k + 1;
                assert(out@ =~= hex_bytes(s@, start as int, k as nat));
            },
        }
    }
    Some(out)
}

/// The line that transmits a frame: `T`, the identifier as eight hex digits, the length, the
/// payload as hex pairs.
pub open spec fn frame_line(id: u32, payload: Seq<u8>) -> Seq<char> {
    seq!['T'] + hex_fixed(id as nat, 8) + seq![hex_char(payload.len() as int)] + hex_plain(payload)
}

pub fn unparse(p: &Packet) -> (r: String)
    requires
        p.payload@.len() <= 8,
    ensures
        r@ == frame_line(p.id, p.payload@),
{
    let mut out: Vec<char> = Vec::new();
    out.push('T');
    push_hex_fixed(&mut out, p.id as u64, 8);
    push_hex_fixed(&mut out, p.payload.len() as u64, 1);
    push_hex_plain(&mut out, p.payload.as_slice());
    proof {
        assert(hex_fixed(p.payload@.len() as nat / 16, 0) =~= Seq::<char>::empty());
        assert(hex_fixed(p.payload@.len() as nat, 1) =~= seq![hex_char(p.payload@.len() as int)]);
    }
    assert(out@ =~= frame_line(p.id, p.payload@));
    string_from_chars(out)
}

/// Cuts the complete lines (terminated by a carriage return) off the front of `buffer`;
/// returns them, without their terminators, and leaves what follows the last one.
pub fn take_lines(buffer: &mut Vec<u8>) -> (lines: Vec<Vec<u8>>)
    ensures
        final(buffer)@.len() <= old(buffer)@.len(),
        !final(buffer)@.contains(13u8),
        forall|i: int| 0 <= i < lines@.len() ==> !(#[trigger] lines@[i])@.contains(13u8),
        lines_of(lines@) + final(buffer)@ == old(buffer)@,
{
    let mut lines: Vec<Vec<u8>> = Vec::new();
    let mut current: Vec<u8> = Vec::new();
    let mut i: usize = 0;
    while i < buffer.len()
        invariant
            i <= buffer@.len(),
            buffer@ == old(buffer)@,
            !current@.contains(13u8),
            forall|k: int| 0 <= k < lines@.len() ==> !(#[trigger] lines@[k])@.contains(13u8),
            lines_of(lines@) + current@ == buffer@.subrange(0, i as int),
        decreases buffer@.len() - i,
    {
        let c = buffer[i];
        let ghost prefix = lines_of(lines@) + current@;
        proof {
            assert(buffer@.subrange(0, i as int + 1) =~= buffer@.subrange(0, i as int).push(c));
        }
        if c == 13 {
            let ghost before = lines_of(lines@);
            let ghost old_lines = lines@;
            let mut line: Vec<u8> = Vec::new();
            std::mem::swap(&mut line, &mut current);
            let ghost line_view = line@;
            lines.push(line);
            proof {
                assert(lines@.drop_last() =~= old_lines);
                assert(lines@.last()@ == line_view);
                assert(!line_view.contains(13u8));
                assert forall|k: int| 0 <= k < lines@.len() implies !(#[trigger] lines@[k])@.contains(
                    13u8,
                ) by {
                    if k < old_lines.len() {
                        assert(lines@[k] == old_lines[k]);
                    }
                }
                assert(lines_of(lines@) =~= before + line_view + seq![13u8]);
                assert(current@ =~= Seq::<u8>::empty());
                assert(lines_of(lines@) + current@ =~= prefix.push(c));
            }
        } else {
            current.push(c);
            assert(lines_of(lines@) + current@ =~= prefix.push(c));
        }
        i = i + 1;
        assert(lines_of(lines@) + current@ =~= buffer@.subrange(0, i as int));
    }
    assert(buffer@.subrange(0, buffer@.len() as int) =~= buffer@);
    *buffer = current;
    lines
}

/// The lines with their terminators put back, one after the other.
pub open spec fn lines_of(lines: Seq<Vec<u8>>) -> Seq<u8>
    decreases lines.len(),
{
    if lines.len() == 0 {
        Seq::empty()
    } else {
        lines_of(lines.drop_last()) + lines.last()@ + seq![13u8]
    }
}

} // verus!
