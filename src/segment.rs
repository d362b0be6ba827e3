//! Cutting a byte run into eight-byte frames and gluing frame tails back together.
use vstd::prelude::*;

verus! {

/// The bytes of `data` from `start` to `end`, both clipped to the end of `data`.
pub open spec fn window(data: Seq<u8>, start: int, end: int) -> Seq<u8> {
    let s = if start < data.len() { start } else { data.len() as int };
    let e = if end < data.len() { end } else { data.len() as int };
    if s <= e { data.subrange(s, e) } else { Seq::empty() }
}

/// `s` followed by 0xFF up to `n` bytes.
pub open spec fn pad_ff(s: Seq<u8>, n: nat) -> Seq<u8> {
    if s.len() >= n {
        s
    } else {
        s + Seq::new((n - s.len()) as nat, |i: int| 0xFFu8)
    }
}

/// A frame payload: a leading byte, then `data[start..start + 7]`, padded with 0xFF to eight bytes.
pub open spec fn data_frame(head: u8, data: Seq<u8>, start: int) -> Seq<u8> {
    pad_ff(seq![head] + window(data, start, start + 7), 8)
}

/// Everything but the first byte.
pub open spec fn tail(s: Seq<u8>) -> Seq<u8> {
    if s.len() == 0 { s } else { s.subrange(1, s.len() as int) }
}

/// The tails of the frames, one after the other.
pub open spec fn concat_tails(frames: Seq<Seq<u8>>) -> Seq<u8>
    decreases frames.len(),
{
    if frames.len() == 0 {
        Seq::empty()
    } else {
        concat_tails(frames.drop_last()) + tail(frames.last())
    }
}

/// The first `n` bytes, or all of them when there are fewer.
pub open spec fn take(s: Seq<u8>, n: int) -> Seq<u8> {
    if n < s.len() { s.subrange(0, n) } else { s }
}

/// The tail of a data frame is its seven bytes of data, padded.
pub proof fn lemma_data_frame_tail(head: u8, data: Seq<u8>, start: int)
    requires
        0 <= start,
    ensures
        tail(data_frame(head, data, start)) == pad_ff(window(data, start, start + 7), 7),
        data_frame(head, data, start).len() == 8,
        data_frame(head, data, start)[0] == head,
{
    let w = window(data, start, start + 7);
    assert(w.len() <= 7);
    let f = data_frame(head, data, start);
    assert(tail(f) =~= pad_ff(w, 7));
}

/// Frames that carry `data` seven bytes at a time from `base` on glue back into `data`:
/// whole, while every window is full, and up to the end of `data` once the last window
/// reaches it.
pub proof fn lemma_concat_windows(frames: Seq<Seq<u8>>, data: Seq<u8>, base: int)
    requires
        0 <= base <= data.len(),
        forall|k: int|
            0 <= k < frames.len() ==> #[trigger] tail(frames[k]) == pad_ff(
                window(data, base + 7 * k, base + 7 * k + 7),
                7,
            ),
    ensures
        base + 7 * frames.len() <= data.len() ==> concat_tails(frames) == data.subrange(
            base,
            base + 7 * frames.len(),
        ),
        base + 7 * frames.len() - 7 < data.len() <= base + 7 * frames.len() ==> take(
            concat_tails(frames),
            data.len() - base,
        ) == data.subrange(base, data.len() as int),
    decreases frames.len(),
{
    let m = frames.len() as int;
    if m > 0 {
        let init = frames.drop_last();
        assert forall|k: int| 0 <= k < init.len() implies #[trigger] tail(init[k]) == pad_ff(
            window(data, base + 7 * k, base + 7 * k + 7),
            7,
        ) by {
            assert(init[k] == frames[k]);
        }
        lemma_concat_windows(init, data, base);
        if base + 7 * (m - 1) <= data.len() {
            assert(concat_tails(init) == data.subrange(base, base + 7 * (m - 1)));
            assert(tail(frames[m - 1]) == pad_ff(window(data, base + 7 * (m - 1), base + 7 * m), 7));
            if base + 7 * m <= data.len() {
                assert(concat_tails(frames) =~= data.subrange(base, base + 7 * m));
            }
            if base + 7 * m - 7 < data.len() <= base + 7 * m {
                assert(take(concat_tails(frames), data.len() - base) =~= data.subrange(
                    base,
                    data.len() as int,
                ));
            }
        }
    } else {
        assert(concat_tails(frames) =~= data.subrange(base, base));
    }
}

/// Builds the frame payload `[head] ++ data[start..start + 7] ++ 0xFF padding`.
pub fn build_data_frame(head: u8, data: &[u8], start: usize) -> (r: Vec<u8>)
    ensures
        r@ == data_frame(head, data@, start as int),
        r@.len() == 8,
{
    let mut r: Vec<u8> = Vec::with_capacity(8);
    r.push(head);
    let end: usize = if start < data.len() && data.len() - start > 7 {
        start + 7
    } else {
        data.len()
    };
    let mut i: usize = start;
    while i < end
        invariant
            start <= i || end <= i,
            end <= data@.len(),
            r@ == seq![head] + window(data@, start as int, i as int),
            i <= end || start >= data@.len(),
        decreases end - i,
    {
        r.push(data[i]);
        i = i + 1;
        assert(r@ =~= seq![head] + window(data@, start as int, i as int));
    }
    assert(r@ =~= seq![head] + window(data@, start as int, start + 7));
    let ghost filled = r@;
    while r.len() < 8
        invariant
            filled.len() <= 8,
            r@.len() <= 8,
            r@ == filled + Seq::new((r@.len() - filled.len()) as nat, |k: int| 0xFFu8),
        decreases 8 - r@.len(),
    {
        r.push(0xFF);
        assert(r@ =~= filled + Seq::new((r@.len() - filled.len()) as nat, |k: int| 0xFFu8));
    }
    assert(r@ =~= data_frame(head, data@, start as int));
    r
}

/// The low `width` bytes of `v`, most significant first.
pub open spec fn be_bytes(v: nat, width: nat) -> Seq<u8>
    decreases width,
{
    if width == 0 {
        Seq::empty()
    } else {
        be_bytes(v / 256, (width - 1) as nat) + seq![(v % 256) as u8]
    }
}

/// Each value as `width` big-endian bytes, one after the other.
pub open spec fn be_run(values: Seq<nat>, width: nat) -> Seq<u8>
    decreases values.len(),
{
    if values.len() == 0 {
        Seq::empty()
    } else {
        be_run(values.drop_last(), width) + be_bytes(values.last(), width)
    }
}

/// Appends the low `width` bytes of `v`, most significant first.
pub fn push_be(out: &mut Vec<u8>, v: u64, width: usize)
    ensures
        final(out)@ == old(out)@ + be_bytes(v as nat, width as nat),
    decreases width,
{
    if width > 0 {
        push_be(out, v / 256, width - 1);
        out.push((v % 256) as u8);
        assert(final(out)@ =~= old(out)@ + be_bytes(v as nat, width as nat));
    }
}

} // verus!
