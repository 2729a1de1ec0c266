//! Removal of the quiet lead-in and tail of a clip.

use vstd::prelude::*;

verus! {

/// Samples kept on each side of the loud part of a clip: 0.2 s at the delivery rate.
pub const TRIM_PADDING: usize = 3200;

/// Absolute value of `x`.
pub open spec fn abs(x: int) -> int {
    if x < 0 { -x } else { x }
}

/// A sample is loud when its amplitude exceeds the threshold.
pub open spec fn is_loud(x: i32, threshold: i32) -> bool {
    abs(x as int) > threshold as int
}

/// `s` holds a loud sample.
pub open spec fn has_loud(s: Seq<i32>, threshold: i32) -> bool {
    exists|k: int| 0 <= k < s.len() && is_loud(#[trigger] s[k], threshold)
}

/// `k` is the index of the first loud sample of `s`.
pub open spec fn is_first_loud(s: Seq<i32>, threshold: i32, k: int) -> bool {
    &&& 0 <= k < s.len()
    &&& is_loud(s[k], threshold)
    &&& forall|j: int| 0 <= j < k ==> !is_loud(#[trigger] s[j], threshold)
}

/// `k` is the index of the last loud sample of `s`.
pub open spec fn is_last_loud(s: Seq<i32>, threshold: i32, k: int) -> bool {
    &&& 0 <= k < s.len()
    &&& is_loud(s[k], threshold)
    &&& forall|j: int| k < j < s.len() ==> !is_loud(#[trigger] s[j], threshold)
}

/// Index of the first loud sample (meaningful when there is one).
pub open spec fn first_loud(s: Seq<i32>, threshold: i32) -> int {
    choose|k: int| is_first_loud(s, threshold, k)
}

/// Index of the last loud sample (meaningful when there is one).
pub open spec fn last_loud(s: Seq<i32>, threshold: i32) -> int {
    choose|k: int| is_last_loud(s, threshold, k)
}

/// The clip `s` with its quiet ends removed: from `pad` samples before the first
/// loud sample to `pad` samples after the last one (end exclusive), clamped to
/// the clip. Empty when fewer than two samples are loud.
pub open spec fn trimmed(s: Seq<i32>, threshold: i32, pad: nat) -> Seq<i32> {
    let first = first_loud(s, threshold);
    let last = last_loud(s, threshold);
    if has_loud(s, threshold) && first < last {
        let start = if first >= pad { first - pad } else { 0 };
        let end = if last + pad <= s.len() { last + pad } else { s.len() as int };
        s.subrange(start, end)
    } else {
        Seq::empty()
    }
}

proof fn lemma_first_loud_unique(s: Seq<i32>, threshold: i32, k: int)
    requires
        is_first_loud(s, threshold, k),
    ensures
        has_loud(s, threshold),
        first_loud(s, threshold) == k,
{
    assert(is_loud(s[k], threshold));
    let f = first_loud(s, threshold);
    assert(is_first_loud(s, threshold, f));
    if f < k {
        assert(!is_loud(s[f], threshold));
    }
    if k < f {
        assert(!is_loud(s[k], threshold));
    }
}

proof fn lemma_last_loud_unique(s: Seq<i32>, threshold: i32, k: int)
    requires
        is_last_loud(s, threshold, k),
    ensures
        last_loud(s, threshold) == k,
{
    let l = last_loud(s, threshold);
    assert(is_last_loud(s, threshold, l));
    if l < k {
        assert(!is_loud(s[k], threshold));
    }
    if k < l {
        assert(!is_loud(s[l], threshold));
    }
}

/// A clip of zeros is all silence: trimming leaves nothing.
pub proof fn lemma_zero_clip_trims_to_empty(s: Seq<i32>, threshold: i32, pad: nat)
    requires
        threshold >= 0,
        forall|i: int| 0 <= i < s.len() ==> s[i] == 0,
    ensures
        trimmed(s, threshold, pad) == Seq::<i32>::empty(),
{
    assert(!has_loud(s, threshold));
}

/// A clip with a single loud sample has no loud span, so trimming leaves nothing.
pub proof fn lemma_single_loud_sample_trims_to_empty(s: Seq<i32>, threshold: i32, pad: nat, k: int)
    requires
        0 <= k < s.len(),
        is_loud(s[k], threshold),
        forall|j: int| 0 <= j < s.len() && j != k ==> !is_loud(#[trigger] s[j], threshold),
    ensures
        trimmed(s, threshold, pad) == Seq::<i32>::empty(),
{
    assert(is_first_loud(s, threshold, k));
    assert(is_last_loud(s, threshold, k));
    lemma_first_loud_unique(s, threshold, k);
    lemma_last_loud_unique(s, threshold, k);
}

/// With its first loud sample at `first` and its last at `last > first`, a clip
/// of length `n` keeps exactly `[max(0, first - pad), min(n, last + pad))`.
pub proof fn lemma_trim_keeps_padded_span(s: Seq<i32>, threshold: i32, pad: nat, first: int, last: int)
    requires
        first < last,
        is_first_loud(s, threshold, first),
        is_last_loud(s, threshold, last),
    ensures
        trimmed(s, threshold, pad) == s.subrange(
            if first >= pad { first - pad } else { 0 },
            if last + pad <= s.len() { last + pad } else { s.len() as int },
        ),
{
    lemma_first_loud_unique(s, threshold, first);
    lemma_last_loud_unique(s, threshold, last);
}

fn loud(x: i32, threshold: i32) -> (r: bool)
    ensures
        r == is_loud(x, threshold),
{
    let magnitude: i64 = if x < 0 { -(x as i64) } else { x as i64 };
    magnitude > threshold as i64
}

/// Strips the quiet lead-in and tail of `samples`, keeping `TRIM_PADDING`
/// samples around the loud part; empties it when fewer than two samples have an
/// amplitude above `threshold`.
pub fn trim_silence(samples: &mut Vec<i32>, threshold: i32)
    ensures
        final(samples)@ == trimmed(old(samples)@, threshold, TRIM_PADDING as nat),
{
    let ghost s = samples@;
    let len: usize = samples.len();
    let mut first: usize = 0;
    while first < len && !loud(samples[first], threshold)
        invariant
            s == samples@,
            len == s.len(),
            first <= len,
            forall|j: int| 0 <= j < first ==> !is_loud(#[trigger] s[j], threshold),
        decreases len - first,
    {
        first = first + 1;
    }
    if first == len {
        assert(!has_loud(s, threshold));
        samples.clear();
        assert(samples@ =~= trimmed(s, threshold, TRIM_PADDING as nat));
        return;
    }
    proof {
        lemma_first_loud_unique(s, threshold, first as int);
    }
    let mut last: usize = len - 1;
    while !loud(samples[last], threshold)
        invariant
            s == samples@,
            len == s.len(),
            first <= last < len,
            is_loud(s[first as int], threshold),
            forall|j: int| last < j < len ==> !is_loud(#[trigger] s[j], threshold),
        decreases last,
    {
        last = last - 1;
    }
    proof {
        lemma_last_loud_unique(s, threshold, last as int);
    }
    if first >= last {
        samples.clear();
        assert(samples@ =~= trimmed(s, threshold, TRIM_PADDING as nat));
        return;
    }
    let start: usize = if first >= TRIM_PADDING { first - TRIM_PADDING } else { 0 };
    let end: usize = if len >= TRIM_PADDING && last <= len - TRIM_PADDING {
        last + TRIM_PADDING
    } else {
        len
    };
    let kept = vstd::slice::slice_to_vec(vstd::slice::slice_subrange(samples.as_slice(), start, end));
    *samples = kept;
}

} // verus!
