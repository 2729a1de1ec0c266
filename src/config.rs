//! The choice of a capture configuration.

use vstd::prelude::*;

verus! {

/// The range of sample rates, in Hz, that one supported input configuration accepts.
#[derive(Clone, Copy, Debug, PartialEq, Eq, Structural)]
pub struct RateRange {
    pub min_sample_rate: u32,
    pub max_sample_rate: u32,
}

/// `range` accepts `rate`.
pub open spec fn covers(range: RateRange, rate: u32) -> bool {
    range.min_sample_rate <= rate <= range.max_sample_rate
}

/// `i` is the first of `ranges` that accepts `rate`.
pub open spec fn is_first_covering(ranges: Seq<RateRange>, rate: u32, i: int) -> bool {
    &&& 0 <= i < ranges.len()
    &&& covers(ranges[i], rate)
    &&& forall|j: int| 0 <= j < i ==> !covers(#[trigger] ranges[j], rate)
}

/// Index of the first supported configuration whose rate range holds `rate`;
/// `None` when none does, and the device's default configuration is to be used.
pub fn get_preferred_config(ranges: &[RateRange], rate: u32) -> (choice: Option<usize>)
    ensures
        choice matches Some(i) ==> is_first_covering(ranges@, rate, i as int),
        choice is None <==> forall|j: int| 0 <= j < ranges@.len() ==> !covers(#[trigger] ranges@[j], rate),
{
    let mut i: usize = 0;
    while i < ranges.len()
        invariant
            i <= ranges@.len(),
            forall|j: int| 0 <= j < i ==> !covers(#[trigger] ranges@[j], rate),
        decreases ranges@.len() - i,
    {
        let r = ranges[i];
        if r.min_sample_rate <= rate && rate <= r.max_sample_rate {
            return Some(i);
        }
        i = i + 1;
    }
    None
}

} // verus!
