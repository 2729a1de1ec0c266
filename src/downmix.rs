//! Down-mixing of interleaved multi-channel frames to mono.

use vstd::arithmetic::div_mod::{
    lemma_div_is_ordered, lemma_div_is_ordered_by_denominator, lemma_div_multiples_vanish,
    lemma_fundamental_div_mod,
};
use vstd::prelude::*;

verus! {

/// Sum of the samples of `s`.
pub open spec fn sum(s: Seq<i32>) -> int
    decreases s.len(),
{
    if s.len() == 0 {
        0
    } else {
        sum(s.drop_last()) + s.last()
    }
}

/// Number of frames in `len` interleaved samples of `channels` channels; a
/// trailing partial frame counts as one.
pub open spec fn frame_count(len: nat, channels: nat) -> nat {
    if len % channels == 0 { len / channels } else { len / channels + 1 }
}

/// The samples of frame `f`: `channels` of them, or fewer for a trailing partial frame.
pub open spec fn frame(s: Seq<i32>, channels: nat, f: int) -> Seq<i32> {
    let start = f * channels;
    let end = if start + channels <= s.len() { start + channels } else { s.len() as int };
    s.subrange(start, end)
}

/// The mono signal of interleaved `s`: each frame's sum divided by the channel
/// count, rounded down.
pub open spec fn downmixed(s: Seq<i32>, channels: nat) -> Seq<i32> {
    Seq::new(
        frame_count(s.len(), channels),
        |f: int| (sum(frame(s, channels, f)) / (channels as int)) as i32,
    )
}

proof fn lemma_sum_bounds(s: Seq<i32>)
    ensures
        s.len() * i32::MIN <= sum(s) <= s.len() * i32::MAX,
    decreases s.len(),
{
    if s.len() > 0 {
        lemma_sum_bounds(s.drop_last());
    }
}

proof fn lemma_frame_starts_inside(len: nat, channels: nat, f: int)
    requires
        channels > 0,
        0 <= f < frame_count(len, channels),
    ensures
        0 <= f * channels < len,
{
    let q = len / channels;
    let r = len % channels;
    lemma_fundamental_div_mod(len as int, channels as int);
    assert(0 <= f * channels < len) by (nonlinear_arith)
        requires
            channels > 0,
            len == channels * q + r,
            0 <= r < channels,
            0 <= f,
            r == 0 ==> f < q,
            r != 0 ==> f <= q,
    ;
}

proof fn lemma_mean_in_range(total: int, n: nat, channels: nat)
    requires
        0 < n <= channels,
        n * i32::MIN <= total <= n * i32::MAX,
    ensures
        i32::MIN <= total / (channels as int) <= i32::MAX,
{
    let c = channels as int;
    assert(c * i32::MIN <= total <= c * i32::MAX) by (nonlinear_arith)
        requires
            0 < n <= c,
            n * i32::MIN <= total <= n * i32::MAX,
    ;
    lemma_div_multiples_vanish(i32::MIN as int, c);
    lemma_div_multiples_vanish(i32::MAX as int, c);
    lemma_div_is_ordered(c * i32::MIN, total, c);
    lemma_div_is_ordered(total, c * i32::MAX, c);
}

/// Mixes interleaved frames of `channels` channels down to one sample per frame,
/// the mean of the frame's samples (a trailing partial frame is still divided by
/// `channels`).
pub fn downmix(data: &[i32], channels: usize) -> (mono: Vec<i32>)
    requires
        channels > 0,
    ensures
        mono@ == downmixed(data@, channels as nat),
{
    let ghost s = data@;
    let ghost ch = channels as nat;
    let len: usize = data.len();
    let n_frames: usize = if len % channels == 0 {
        len / channels
    } else {
        proof {
            lemma_div_is_ordered_by_denominator(len as int, 2, channels as int);
        }
        len / channels + 1
    };
    let mut mono: Vec<i32> = Vec::with_capacity(n_frames);
    let mut f: usize = 0;
    while f < n_frames
        invariant
            s == data@,
            ch == channels,
            channels > 0,
            len == s.len(),
            n_frames == frame_count(len as nat, ch),
            f <= n_frames,
            mono@.len() == f,
            forall|g: int| 0 <= g < f ==> mono@[g] == downmixed(s, ch)[g],
        decreases n_frames - f,
    {
        proof {
            lemma_frame_starts_inside(len as nat, ch, f as int);
        }
        let start: usize = f * channels;
        let end: usize = if len - start >= channels { start + channels } else { len };
        let ghost fr = frame(s, ch, f as int);
        let mut total: i128 = 0;
        let mut k: usize = start;
        while k < end
            invariant
                s == data@,
                start <= k <= end <= len,
                len == s.len(),
                end - start <= channels,
                total == sum(s.subrange(start as int, k as int)),
                (k - start) * i32::MIN <= total <= (k - start) * i32::MAX,
            decreases end - k,
        {
            assert(s.subrange(start as int, k + 1).drop_last() =~= s.subrange(start as int, k as int));
            assert((k - start) <= usize::MAX);
            total = total + data[k] as i128;
            k = k + 1;
        }
        assert(fr =~= s.subrange(start as int, end as int));
        proof {
            lemma_sum_bounds(fr);
            lemma_mean_in_range(total as int, fr.len(), ch);
        }
        let mean: i128 = total.checked_div_euclid(channels as i128).unwrap();
        mono.push(mean as i32);
        f = f + 1;
    }
    assert(mono@ =~= downmixed(s, ch));
    mono
}

} // verus!
