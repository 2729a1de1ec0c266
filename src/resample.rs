//! Sample-rate conversion by linear interpolation.

use vstd::arithmetic::div_mod::{lemma_div_is_ordered, lemma_div_multiples_vanish, lemma_fundamental_div_mod};
use vstd::prelude::*;

verus! {

/// Length of a buffer of `len` samples at `in_rate` once converted to `out_rate`:
/// `floor(len / (in_rate / out_rate))`.
pub open spec fn resampled_len(len: nat, in_rate: nat, out_rate: nat) -> nat {
    len * out_rate / in_rate
}

/// The point at fraction `num / den` of the way from `a` to `b`, rounded down.
pub open spec fn lerp(a: int, b: int, num: int, den: int) -> int {
    (a * (den - num) + b * num) / den
}

/// Index of the input sample at or just before output sample `i`.
pub open spec fn lower_neighbor(i: int, in_rate: nat, out_rate: nat) -> int {
    (i * in_rate) / (out_rate as int)
}

/// Index of the input sample just after output sample `i`, clamped to the last input index.
pub open spec fn upper_neighbor(len: nat, i: int, in_rate: nat, out_rate: nat) -> int {
    let lo = lower_neighbor(i, in_rate, out_rate);
    if lo + 1 < len { lo + 1 } else { len - 1 }
}

/// Output sample `i`: input position `i * in_rate / out_rate`, interpolated
/// between its two neighbors.
pub open spec fn resampled_at(s: Seq<i32>, in_rate: nat, out_rate: nat, i: int) -> int {
    lerp(
        s[lower_neighbor(i, in_rate, out_rate)] as int,
        s[upper_neighbor(s.len(), i, in_rate, out_rate)] as int,
        (i * in_rate) % (out_rate as int),
        out_rate as int,
    )
}

/// `s`, taken at `in_rate`, converted to `out_rate`; unchanged when the rates agree.
pub open spec fn resampled(s: Seq<i32>, in_rate: nat, out_rate: nat) -> Seq<i32> {
    if in_rate == out_rate {
        s
    } else {
        Seq::new(
            resampled_len(s.len(), in_rate, out_rate),
            |i: int| resampled_at(s, in_rate, out_rate, i) as i32,
        )
    }
}

/// An interpolated point lies between its two ends.
pub proof fn lemma_lerp_between(a: int, b: int, num: int, den: int)
    requires
        0 <= num <= den,
        0 < den,
    ensures
        a <= b ==> a <= lerp(a, b, num, den) <= b,
        b <= a ==> b <= lerp(a, b, num, den) <= a,
{
    let sum = a * (den - num) + b * num;
    assert(a <= b ==> den * a <= sum <= den * b) by (nonlinear_arith)
        requires
            0 <= num <= den,
            sum == a * (den - num) + b * num,
    ;
    assert(b <= a ==> den * b <= sum <= den * a) by (nonlinear_arith)
        requires
            0 <= num <= den,
            sum == a * (den - num) + b * num,
    ;
    lemma_div_multiples_vanish(a, den);
    lemma_div_multiples_vanish(b, den);
    if a <= b {
        lemma_div_is_ordered(den * a, sum, den);
        lemma_div_is_ordered(sum, den * b, den);
    } else {
        lemma_div_is_ordered(den * b, sum, den);
        lemma_div_is_ordered(sum, den * a, den);
    }
}

/// Every output index of the conversion reads input samples that exist.
pub proof fn lemma_neighbors_in_range(len: nat, i: int, in_rate: nat, out_rate: nat)
    requires
        in_rate > 0,
        out_rate > 0,
        0 <= i < resampled_len(len, in_rate, out_rate),
    ensures
        0 <= lower_neighbor(i, in_rate, out_rate) < len,
        0 <= upper_neighbor(len, i, in_rate, out_rate) < len,
{
    let q = resampled_len(len, in_rate, out_rate) as int;
    let total = (len * out_rate) as int;
    let pos = i * in_rate;
    lemma_fundamental_div_mod(total, in_rate as int);
    assert(0 <= pos < len * out_rate) by (nonlinear_arith)
        requires
            0 <= i < q,
            in_rate > 0,
            total == len * out_rate,
            total == in_rate * q + total % (in_rate as int),
            0 <= total % (in_rate as int),
            pos == i * in_rate,
    ;
    let lo = pos / (out_rate as int);
    lemma_fundamental_div_mod(pos, out_rate as int);
    assert(0 <= lo < len) by (nonlinear_arith)
        requires
            0 <= pos < len * out_rate,
            out_rate > 0,
            pos == out_rate * lo + pos % (out_rate as int),
            0 <= pos % (out_rate as int) < out_rate,
    ;
}

/// `x` lies between `a` and `b`, whichever of the two is larger.
pub open spec fn between(x: int, a: int, b: int) -> bool {
    (a <= b ==> a <= x <= b) && (b <= a ==> b <= x <= a)
}

/// Converting a buffer to the rate it already has leaves it unchanged.
pub proof fn lemma_same_rate_is_identity(s: Seq<i32>, rate: nat)
    ensures
        resampled(s, rate, rate) == s,
{
}

/// A conversion yields `floor(len * out_rate / in_rate)` samples, and each lies
/// between the two input samples around its position.
pub proof fn lemma_resampled_shape(s: Seq<i32>, in_rate: nat, out_rate: nat)
    requires
        in_rate > 0,
    ensures
        resampled(s, in_rate, out_rate).len() == resampled_len(s.len(), in_rate, out_rate),
        forall|i: int|
            0 <= i < resampled(s, in_rate, out_rate).len() ==> between(
                #[trigger] resampled(s, in_rate, out_rate)[i] as int,
                s[lower_neighbor(i, in_rate, out_rate)] as int,
                s[upper_neighbor(s.len(), i, in_rate, out_rate)] as int,
            ),
{
    let r = resampled(s, in_rate, out_rate);
    if in_rate == out_rate {
        lemma_div_multiples_vanish(s.len() as int, in_rate as int);
        assert(s.len() * out_rate == in_rate * s.len());
        assert forall|i: int| 0 <= i < r.len() implies between(
            r[i] as int,
            s[lower_neighbor(i, in_rate, out_rate)] as int,
            s[upper_neighbor(s.len(), i, in_rate, out_rate)] as int,
        ) by {
            lemma_div_multiples_vanish(i, in_rate as int);
            assert(i * in_rate == in_rate * i);
            assert(lower_neighbor(i, in_rate, out_rate) == i);
        }
    } else {
        assert forall|i: int| 0 <= i < r.len() implies between(
            r[i] as int,
            s[lower_neighbor(i, in_rate, out_rate)] as int,
            s[upper_neighbor(s.len(), i, in_rate, out_rate)] as int,
        ) by {
            if out_rate > 0 {
                lemma_neighbors_in_range(s.len(), i, in_rate, out_rate);
                lemma_fundamental_div_mod(i * in_rate, out_rate as int);
                lemma_lerp_between(
                    s[lower_neighbor(i, in_rate, out_rate)] as int,
                    s[upper_neighbor(s.len(), i, in_rate, out_rate)] as int,
                    (i * in_rate) % (out_rate as int),
                    out_rate as int,
                );
            } else {
                assert(s.len() * out_rate == 0);
            }
        }
    }
}

/// A constant signal stays the same constant at any rate.
pub proof fn lemma_constant_resamples_to_constant(s: Seq<i32>, c: i32, in_rate: nat, out_rate: nat)
    requires
        in_rate > 0,
        forall|i: int| 0 <= i < s.len() ==> s[i] == c,
    ensures
        forall|i: int|
            0 <= i < resampled(s, in_rate, out_rate).len() ==> #[trigger] resampled(
                s,
                in_rate,
                out_rate,
            )[i] == c,
{
    lemma_resampled_shape(s, in_rate, out_rate);
    let r = resampled(s, in_rate, out_rate);
    assert forall|i: int| 0 <= i < r.len() implies r[i] == c by {
        if in_rate != out_rate {
            lemma_neighbors_in_range(s.len(), i, in_rate, out_rate);
        }
        assert(between(
            r[i] as int,
            s[lower_neighbor(i, in_rate, out_rate)] as int,
            s[upper_neighbor(s.len(), i, in_rate, out_rate)] as int,
        ));
    }
}

/// Converts `input`, sampled at `in_rate` Hz, to `out_rate` Hz: identity when the
/// rates agree, else `floor(len * out_rate / in_rate)` samples, each interpolated
/// linearly between the two input samples around its position.
pub fn resample_simple(input: &[i32], in_rate: u32, out_rate: u32) -> (output: Vec<i32>)
    requires
        in_rate > 0,
        resampled_len(input@.len(), in_rate as nat, out_rate as nat) <= usize::MAX,
    ensures
        output@ == resampled(input@, in_rate as nat, out_rate as nat),
{
    if in_rate == out_rate {
        return vstd::slice::slice_to_vec(input);
    }
    let ghost s = input@;
    let ghost (rin, rout) = (in_rate as nat, out_rate as nat);
    if out_rate == 0 {
        assert(s.len() * rout == 0);
        assert(resampled(s, rin, rout) =~= Seq::<i32>::empty());
        return Vec::new();
    }
    let len: usize = input.len();
    assert((len as u128) * (out_rate as u128) < 0x1_0000_0000_0000_0000_0000_0000) by (nonlinear_arith)
        requires
            len <= u64::MAX,
            out_rate <= u32::MAX,
    ;
    let out_len: usize = ((len as u128) * (out_rate as u128) / (in_rate as u128)) as usize;
    let mut output: Vec<i32> = Vec::with_capacity(out_len);
    let mut i: usize = 0;
    while i < out_len
        invariant
            s == input@,
            len == s.len(),
            rin == in_rate,
            rout == out_rate,
            in_rate > 0,
            out_rate > 0,
            out_len == resampled_len(len as nat, rin, rout),
            i <= out_len,
            output@.len() == i,
            forall|j: int| 0 <= j < i ==> output@[j] == resampled_at(s, rin, rout, j) as i32,
        decreases out_len - i,
    {
        proof {
            lemma_neighbors_in_range(len as nat, i as int, rin, rout);
        }
        assert((i as u128) * (in_rate as u128) < 0x1_0000_0000_0000_0000_0000_0000) by (nonlinear_arith)
            requires
                i <= u64::MAX,
                in_rate <= u32::MAX,
        ;
        let pos: u128 = (i as u128) * (in_rate as u128);
        let lo: usize = (pos / (out_rate as u128)) as usize;
        let frac: u128 = pos % (out_rate as u128);
        let hi: usize = if lo + 1 < len { lo + 1 } else { len - 1 };
        let a: i128 = input[lo] as i128;
        let b: i128 = input[hi] as i128;
        let den: i128 = out_rate as i128;
        let num: i128 = frac as i128;
        assert(-0x1_0000_0000_0000_0000 <= a * (den - num) <= 0x1_0000_0000_0000_0000) by (nonlinear_arith)
            requires
                -0x8000_0000 <= a < 0x8000_0000,
                0 <= num < den <= u32::MAX,
        ;
        assert(-0x1_0000_0000_0000_0000 <= b * num <= 0x1_0000_0000_0000_0000) by (nonlinear_arith)
            requires
                -0x8000_0000 <= b < 0x8000_0000,
                0 <= num < den <= u32::MAX,
        ;
        let sum: i128 = a * (den - num) + b * num;
        proof {
            lemma_lerp_between(a as int, b as int, num as int, den as int);
        }
        let value: i128 = sum.checked_div_euclid(den).unwrap();
        assert(value == resampled_at(s, rin, rout, i as int));
        output.push(value as i32);
        i = i + 1;
    }
    assert(output@ =~= resampled(s, rin, rout));
    output
}

} // verus!
