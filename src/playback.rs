use vstd::prelude::*;

verus! {

/// Where a frame of `channels` samples may start: one that would run past
/// the end of a source of `total` samples loops back to the beginning.
pub open spec fn wrap_frame(pos: int, channels: int, total: int) -> int {
    if pos + channels > total { 0 } else { pos }
}

/// Start positions of `count` consecutive frames read from `pos` on.
pub open spec fn frame_starts(pos: int, channels: int, total: int, count: nat) -> Seq<int>
    decreases count,
{
    if count == 0 {
        Seq::empty()
    } else {
        let s = wrap_frame(pos, channels, total);
        seq![s] + frame_starts(s + channels, channels, total, (count - 1) as nat)
    }
}

/// Read position after `count` frames read from `pos` on.
pub open spec fn position_after(pos: int, channels: int, total: int, count: nat) -> int
    decreases count,
{
    if count == 0 {
        pos
    } else {
        position_after(wrap_frame(pos, channels, total) + channels, channels, total, (count - 1) as nat)
    }
}

/// Start positions of the next `frames` frames of a looped source of
/// `total` interleaved samples with `channels` samples per frame, read from
/// `pos` on, and the read position after them. Every frame lies wholly
/// inside the source.
pub fn plan_frames(pos: usize, frames: usize, channels: usize, total: usize) -> (r: (
    Vec<usize>,
    usize,
))
    requires
        1 <= channels <= total,
        pos <= total,
    ensures
        r.0@.len() == frames,
        forall|k: int|
            0 <= k < frames ==> #[trigger] r.0@[k] == frame_starts(pos as int, channels as int, total as int, frames as nat)[k],
        forall|k: int| 0 <= k < frames ==> #[trigger] r.0@[k] + channels <= total,
        r.1 == position_after(pos as int, channels as int, total as int, frames as nat),
        r.1 <= total,
{
    let mut starts: Vec<usize> = Vec::with_capacity(frames);
    let mut cur: usize = pos;
    let mut i: usize = 0;
    while i < frames
        invariant
            1 <= channels <= total,
            cur <= total,
            i <= frames,
            starts@.len() == i,
            forall|k: int| 0 <= k < i ==> #[trigger] starts@[k] + channels <= total,
            starts@.map_values(|x: usize| x as int) + frame_starts(cur as int, channels as int, total as int, (frames - i) as nat)
                == frame_starts(pos as int, channels as int, total as int, frames as nat),
            position_after(cur as int, channels as int, total as int, (frames - i) as nat)
                == position_after(pos as int, channels as int, total as int, frames as nat),
        decreases frames - i,
    {
        let ghost rest = (frames - i) as nat;
        let ghost old_starts = starts@;
        let ghost old_cur = cur as int;
        let s: usize = if cur > total - channels { 0 } else { cur };
        assert(s as int == wrap_frame(cur as int, channels as int, total as int));
        starts.push(s);
        cur = s + channels;
        i = i + 1;
        proof {
            let tail = frame_starts(cur as int, channels as int, total as int, (frames - i) as nat);
            assert(frame_starts(old_cur, channels as int, total as int, rest) == seq![s as int] + tail);
            assert(starts@.map_values(|x: usize| x as int) =~= old_starts.map_values(|x: usize| x as int).push(s as int));
            assert(starts@.map_values(|x: usize| x as int) + tail =~= old_starts.map_values(|x: usize| x as int) + (seq![s as int] + tail));
        }
    }
    proof {
        let full = frame_starts(pos as int, channels as int, total as int, frames as nat);
        assert(starts@.map_values(|x: usize| x as int) + frame_starts(cur as int, channels as int, total as int, 0) =~= starts@.map_values(|x: usize| x as int));
        assert forall|k: int| 0 <= k < frames implies starts@[k] == #[trigger] full[k] by {
            assert(starts@.map_values(|x: usize| x as int)[k] == starts@[k] as int);
        }
    }
    (starts, cur)
}

/// Index in the source of the sample that output channel `out_channel`
/// plays from a frame starting at `start`: output channels beyond the
/// source's own repeat its channels in turn.
pub fn source_index(start: usize, out_channel: usize, src_channels: usize) -> (r: usize)
    requires
        src_channels >= 1,
        start + src_channels <= usize::MAX,
    ensures
        r == start + out_channel % src_channels,
        start <= r < start + src_channels,
{
    start + out_channel % src_channels
}

} // verus!
