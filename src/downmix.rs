use vstd::prelude::*;

verus! {

/// Number of frames in `len` interleaved samples of `channels` channels; a
/// trailing partial frame counts as one.
pub open spec fn frame_count(len: int, channels: int) -> int {
    if len % channels == 0 {
        len / channels
    } else {
        len / channels + 1
    }
}

/// One past the last sample of frame `k`: a full frame ends `channels`
/// samples after its start, a trailing partial one at `len`.
pub open spec fn frame_end(k: int, channels: int, len: int) -> int {
    if (k + 1) * channels < len {
        (k + 1) * channels
    } else {
        len
    }
}

proof fn lemma_frame_inside(k: int, channels: int, len: int)
    requires
        channels >= 1,
        len >= 0,
        0 <= k < frame_count(len, channels),
    ensures
        0 <= k * channels < len,
        (k + 1) * channels == k * channels + channels,
{
    let q = len / channels;
    let r = len % channels;
    vstd::arithmetic::div_mod::lemma_fundamental_div_mod(len, channels);
    assert(0 <= r < channels);
    assert(len == channels * q + r);
    if r == 0 {
        assert(k * channels < len) by (nonlinear_arith)
            requires k < q, len == channels * q, channels >= 1, k >= 0;
    } else {
        assert(k * channels < len) by (nonlinear_arith)
            requires k <= q, len == channels * q + r, r > 0, channels >= 1, k >= 0;
    }
    assert(0 <= k * channels) by (nonlinear_arith)
        requires k >= 0, channels >= 1;
    assert((k + 1) * channels == k * channels + channels) by (nonlinear_arith);
}

/// Turns interleaved samples into one value per frame.
///
/// With one channel (or none) the samples are already mono and come back
/// as they are. Otherwise frame `k` covers `data[k * channels ..
/// frame_end(k)]` and its value is whatever `mix(data, start, end)` returns
/// for that span, typically the mean of the channel values.
pub fn downmix<T: Copy, F: Fn(&[T], usize, usize) -> T>(data: &[T], channels: usize, mix: F) -> (r: Vec<T>)
    requires
        channels > 1 ==> forall|a: usize, b: usize|
            a <= b <= data@.len() ==> #[trigger] mix.requires((data, a, b)),
    ensures
        channels <= 1 ==> r@ == data@,
        channels > 1 ==> r@.len() == frame_count(data@.len() as int, channels as int),
        channels > 1 ==> forall|k: int|
            0 <= k < r@.len() ==> mix.ensures(
                (data, (k * channels) as usize, frame_end(k, channels as int, data@.len() as int) as usize),
                #[trigger] r@[k],
            ),
{
    let len = data.len();
    let mut out: Vec<T> = Vec::new();
    if channels <= 1 {
        let mut i: usize = 0;
        while i < len
            invariant
                len == data@.len(),
                i <= len,
                out@ == data@.subrange(0, i as int),
            decreases len - i,
        {
            out.push(data[i]);
            i = i + 1;
            assert(out@ =~= data@.subrange(0, i as int));
        }
        assert(out@ =~= data@);
        return out;
    }
    proof {
        vstd::arithmetic::div_mod::lemma_div_is_ordered_by_denominator(len as int, 2, channels as int);
    }
    let frames: usize = if len % channels == 0 { len / channels } else { len / channels + 1 };
    let mut k: usize = 0;
    while k < frames
        invariant
            channels > 1,
            len == data@.len(),
            frames == frame_count(len as int, channels as int),
            k <= frames,
            out@.len() == k,
            forall|a: usize, b: usize| a <= b <= data@.len() ==> #[trigger] mix.requires((data, a, b)),
            forall|j: int|
                0 <= j < k ==> mix.ensures(
                    (data, (j * channels) as usize, frame_end(j, channels as int, len as int) as usize),
                    #[trigger] out@[j],
                ),
        decreases frames - k,
    {
        proof {
            lemma_frame_inside(k as int, channels as int, len as int);
        }
        let start: usize = k * channels;
        let end: usize = if len - start > channels { start + channels } else { len };
        assert(end as int == frame_end(k as int, channels as int, len as int));
        let m = mix(data, start, end);
        out.push(m);
        k = k + 1;
    }
    out
}

} // verus!
