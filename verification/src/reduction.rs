//! Planning the reduction of an ordered source palette to a given number of
//! output colours.
//!
//! The colours themselves are mixed in the OKLab space; the plan says, for
//! each output colour, which source colours go into it and with which
//! weights.

use vstd::prelude::*;
use crate::palette::Reduction;

verus! {

/// How one output colour is made from the source colours.
#[derive(Debug, PartialEq, Eq)]
pub enum Mix {
    /// The mean of all source colours, each weighted equally.
    Average,
    /// The source colour at this index, unchanged.
    Source(usize),
    /// Linear interpolation between the source colours at `index` and
    /// `index + 1`, at the position `numerator / denominator` of the source
    /// palette; `index` is the integer part of that position.
    Lerp { index: usize, numerator: u128, denominator: usize },
    /// A weighted mean of source colours, as `(source index, weight)` pairs in
    /// ascending index order; every weight is positive.
    Weighted(Vec<(usize, usize)>),
}

/// The length of the overlap of source cell `[j, j + 1)` with output segment
/// `[i * n / count, (i + 1) * n / count)`, scaled by `count`.
pub open spec fn overlap(n: int, count: int, i: int, j: int) -> int {
    let lo = if i * n > j * count { i * n } else { j * count };
    let hi = if (i + 1) * n < (j + 1) * count { (i + 1) * n } else { (j + 1) * count };
    if hi > lo { hi - lo } else { 0 }
}

/// The source colours that overlap output segment `i` when `n` sources are
/// averaged into `count` outputs, with their scaled overlaps as weights.
pub open spec fn mean_weights(n: nat, count: nat, i: nat) -> Seq<(usize, usize)> {
    Seq::new(n, |j: int| (j as usize, overlap(n as int, count as int, i as int, j) as usize)).filter(
        |p: (usize, usize)| p.1 > 0,
    )
}

/// What output colour `i` of `count` is made of, for `n` source colours.
pub open spec fn is_planned_mix(m: Mix, n: nat, count: nat, method: Reduction, i: nat) -> bool {
    if count == 1 {
        m is Average
    } else {
        match method {
            Reduction::Mean => m matches Mix::Weighted(w) && w@ == mean_weights(n, count, i),
            Reduction::Resample => {
                let numerator: int = i * (n - 1);
                let index: int = numerator / (count - 1);
                if index >= n - 1 {
                    m == Mix::Source((n - 1) as usize)
                } else {
                    m == Mix::Lerp {
                        index: index as usize,
                        numerator: numerator as u128,
                        denominator: (count - 1) as usize,
                    }
                }
            },
        }
    }
}

/// The product of two `usize` values fits in a `u128`.
proof fn lemma_usize_product_fits(a: int, b: int)
    requires
        0 <= a <= usize::MAX,
        0 <= b <= usize::MAX,
    ensures
        a * b <= u128::MAX,
{
    assert(a * b <= usize::MAX * usize::MAX) by (nonlinear_arith)
        requires
            0 <= a <= usize::MAX,
            0 <= b <= usize::MAX,
    ;
    assert(usize::MAX * usize::MAX <= u128::MAX) by (nonlinear_arith)
        requires
            usize::MAX <= 0xffff_ffff_ffff_ffff,
    ;
}

fn mean_mix(n: usize, count: usize, i: usize) -> (w: Vec<(usize, usize)>)
    requires
        i < count,
    ensures
        w@ == mean_weights(n as nat, count as nat, i as nat),
{
    let ghost f = |j: int| (j as usize, overlap(n as int, count as int, i as int, j) as usize);
    let ghost pred = |p: (usize, usize)| p.1 > 0;
    let mut w: Vec<(usize, usize)> = Vec::new();
    let mut j: usize = 0;
    while j < n
        invariant
            j <= n,
            i < count,
            w@ == Seq::new(j as nat, f).filter(pred),
            f == |j: int| (j as usize, overlap(n as int, count as int, i as int, j) as usize),
            pred == |p: (usize, usize)| p.1 > 0,
        decreases n - j,
    {
        proof {
            lemma_usize_product_fits(i as int, n as int);
            lemma_usize_product_fits(j as int, count as int);
            lemma_usize_product_fits(i + 1, n as int);
            lemma_usize_product_fits(j + 1, count as int);
        }
        let a = i as u128 * n as u128;
        let b = j as u128 * count as u128;
        let c = (i as u128 + 1) * n as u128;
        let d = (j as u128 + 1) * count as u128;
        let lo = if a > b { a } else { b };
        let hi = if c < d { c } else { d };
        let ghost ov = overlap(n as int, count as int, i as int, j as int);
        assert(Seq::new((j + 1) as nat, f) =~= Seq::new(j as nat, f).push(f(j as int)));
        proof {
            Seq::new(j as nat, f).lemma_filter_push(f(j as int), pred);
            assert(ov == if hi > lo { hi - lo } else { 0 });
        }
        if hi > lo {
            proof {
                assert(hi - lo <= count) by (nonlinear_arith)
                    requires hi <= d, lo >= b, d == (j + 1) * count, b == j * count;
            }
            w.push((j, (hi - lo) as usize));
        }
        j += 1;
    }
    w
}

/// The plan for reducing `n` ordered source colours to `count` output
/// colours: a single output is the mean of all sources; otherwise `Resample`
/// samples the source palette at `count` evenly spaced positions from the
/// first colour to the last, and `Mean` averages each of `count` equal
/// segments of it, weighted by overlap.
pub fn reduction_plan(n: usize, count: usize, method: Reduction) -> (plan: Vec<Mix>)
    requires
        method == Reduction::Resample && count >= 2 ==> n >= 1,
    ensures
        plan@.len() == count,
        forall|i: int| 0 <= i < count ==> is_planned_mix(#[trigger] plan@[i], n as nat, count as nat, method, i as nat),
{
    let mut plan: Vec<Mix> = Vec::new();
    let mut i: usize = 0;
    while i < count
        invariant
            i <= count,
            method == Reduction::Resample && count >= 2 ==> n >= 1,
            plan@.len() == i,
            forall|k: int| 0 <= k < i ==> is_planned_mix(#[trigger] plan@[k], n as nat, count as nat, method, k as nat),
        decreases count - i,
    {
        let mix = if count == 1 {
            Mix::Average
        } else {
            match method {
                Reduction::Mean => Mix::Weighted(mean_mix(n, count, i)),
                Reduction::Resample => {
                    proof {
                        lemma_usize_product_fits(i as int, n - 1);
                    }
                    let numerator = i as u128 * (n - 1) as u128;
                    let index = numerator / (count - 1) as u128;
                    if index >= (n - 1) as u128 {
                        Mix::Source(n - 1)
                    } else {
                        Mix::Lerp { index: index as usize, numerator, denominator: count - 1 }
                    }
                },
            }
        };
        plan.push(mix);
        i += 1;
    }
    plan
}

/// The source index an output colour starts from: the source it copies, or
/// the first of the two it interpolates between.
pub open spec fn mix_start(m: Mix) -> int {
    match m {
        Mix::Source(k) => k as int,
        Mix::Lerp { index, .. } => index as int,
        _ => 0,
    }
}

/// Resampling keeps the ends of the palette: the first output colour is the
/// first source colour (an interpolation at position 0, or the only source),
/// and the last output colour is the last source colour.
pub proof fn law_resample_keeps_endpoints(plan: Seq<Mix>, n: nat, count: nat)
    requires
        count >= 2,
        n >= 1,
        plan.len() == count,
        forall|i: int| 0 <= i < count ==> is_planned_mix(#[trigger] plan[i], n, count, Reduction::Resample, i as nat),
    ensures
        plan[count - 1] == Mix::Source((n - 1) as usize),
        n == 1 ==> plan[0] == Mix::Source(0),
        n >= 2 ==> plan[0] == (Mix::Lerp { index: 0, numerator: 0, denominator: (count - 1) as usize }),
{
    assert(is_planned_mix(plan[0], n, count, Reduction::Resample, 0));
    assert(is_planned_mix(plan[count - 1], n, count, Reduction::Resample, (count - 1) as nat));
    let last: int = (count - 1) * (n - 1);
    assert(last / (count - 1) as int == n - 1) by (nonlinear_arith)
        requires last == (count - 1) * (n - 1), count >= 2, n >= 1;
    assert(0int * (n - 1) == 0);
}

/// Resampling keeps the order of the palette: the source index each output
/// colour starts from never decreases from one output to the next.
pub proof fn law_resample_keeps_order(plan: Seq<Mix>, n: nat, count: nat, i: int, j: int)
    requires
        count >= 2,
        1 <= n <= usize::MAX,
        plan.len() == count,
        forall|k: int| 0 <= k < count ==> is_planned_mix(#[trigger] plan[k], n, count, Reduction::Resample, k as nat),
        0 <= i <= j < count,
    ensures
        mix_start(plan[i]) <= mix_start(plan[j]),
{
    assert(is_planned_mix(plan[i], n, count, Reduction::Resample, i as nat));
    assert(is_planned_mix(plan[j], n, count, Reduction::Resample, j as nat));
    let a: int = i * (n - 1);
    let b: int = j * (n - 1);
    let d: int = count - 1;
    assert(a <= b) by (nonlinear_arith)
        requires a == i * (n - 1), b == j * (n - 1), 0 <= i <= j, n >= 1;
    assert(a / d <= b / d) by (nonlinear_arith)
        requires 0 <= a <= b, d >= 1;
    assert(a >= 0) by (nonlinear_arith)
        requires a == i * (n - 1), i >= 0, n >= 1;
}

/// Resampling interpolates at evenly spaced positions: with at least two
/// sources, every output colour but the last lies at position
/// `i * (n - 1) / (count - 1)` of the source palette, given exactly as that
/// fraction, and interpolates between the source at the integer part of the
/// position and the next one; the last output colour, and every output of a
/// one-colour palette, is the last source colour.
pub proof fn law_resample_interpolates_evenly(plan: Seq<Mix>, n: nat, count: nat, i: int)
    requires
        count >= 2,
        1 <= n <= usize::MAX,
        count <= usize::MAX,
        plan.len() == count,
        forall|k: int| 0 <= k < count ==> is_planned_mix(#[trigger] plan[k], n, count, Reduction::Resample, k as nat),
        0 <= i < count,
    ensures
        n >= 2 && i < count - 1 ==> ({
            &&& plan[i] is Lerp
            &&& plan[i]->numerator == i * (n - 1)
            &&& plan[i]->denominator == count - 1
            &&& plan[i]->index * (count - 1) <= plan[i]->numerator < (plan[i]->index + 1) * (count - 1)
            &&& plan[i]->index + 1 < n
        }),
        n == 1 || i == count - 1 ==> plan[i] == Mix::Source((n - 1) as usize),
{
    assert(is_planned_mix(plan[i], n, count, Reduction::Resample, i as nat));
    let num: int = i * (n - 1);
    let d: int = count - 1;
    let q: int = num / d;
    assert(q * d <= num < (q + 1) * d) by (nonlinear_arith)
        requires q == num / d, d >= 1;
    assert(num >= 0) by (nonlinear_arith)
        requires num == i * (n - 1), i >= 0, n >= 1;
    if n == 1 {
        assert(num == 0) by (nonlinear_arith)
            requires num == i * (n - 1), n == 1;
    } else if i == count - 1 {
        assert(q == n - 1) by (nonlinear_arith)
            requires q == num / d, num == i * (n - 1), i == d, d >= 1;
    } else {
        assert(num + (n - 1) <= d * (n - 1)) by (nonlinear_arith)
            requires num == i * (n - 1), i <= d - 1, n >= 2;
        assert(q < n - 1) by (nonlinear_arith)
            requires q * d <= num, num + (n - 1) <= d * (n - 1), n >= 2, d >= 1;
        lemma_usize_product_fits(i, n - 1);
        assert(plan[i] == Mix::Lerp { index: q as usize, numerator: num as u128, denominator: d as usize });
        assert(plan[i]->index == q);
        assert(plan[i]->numerator == num);
    }
}

/// The mean weights of output segment `i` from the first `m` sources.
spec fn mean_prefix(n: nat, count: nat, i: nat, m: nat) -> Seq<(usize, usize)> {
    Seq::new(m, |j: int| (j as usize, overlap(n as int, count as int, i as int, j) as usize)).filter(
        |p: (usize, usize)| p.1 > 0,
    )
}

/// The total weight of a weighted mean.
pub open spec fn weight_sum(w: Seq<(usize, usize)>) -> int
    decreases w.len(),
{
    if w.len() == 0 {
        0
    } else {
        weight_sum(w.drop_last()) + w.last().1
    }
}

/// How much of output segment `i` the first `m` source cells cover, scaled
/// by `count`.
spec fn covered(n: nat, count: nat, i: nat, m: nat) -> int {
    let a = i * n;
    let b = (i + 1) * n;
    let x = m * count;
    let top = if b < x { b } else { x };
    if top > a { top - a } else { 0 }
}

proof fn lemma_mean_prefix(n: nat, count: nat, i: nat, m: nat)
    requires
        m <= n,
        i < count,
        n <= usize::MAX,
        count <= usize::MAX,
    ensures
        ({
            let w = mean_prefix(n, count, i, m);
            &&& forall|k: int|
                0 <= k < w.len() ==> {
                    &&& (#[trigger] w[k]).0 < m
                    &&& w[k].1 > 0
                    &&& w[k].1 == overlap(n as int, count as int, i as int, w[k].0 as int)
                }
            &&& forall|k: int, l: int| 0 <= k < l < w.len() ==> (#[trigger] w[k]).0 < (#[trigger] w[l]).0
            &&& forall|j: int|
                0 <= j < m && #[trigger] overlap(n as int, count as int, i as int, j) > 0 ==> exists|k: int|
                    0 <= k < w.len() && #[trigger] w[k] == (j as usize, overlap(n as int, count as int, i as int, j) as usize)
            &&& weight_sum(w) == covered(n, count, i, m)
        }),
    decreases m,
{
    let f = |j: int| (j as usize, overlap(n as int, count as int, i as int, j) as usize);
    let pred = |p: (usize, usize)| p.1 > 0;
    if m == 0 {
        assert(Seq::new(0, f) =~= Seq::<(usize, usize)>::empty());
        assert(mean_prefix(n, count, i, 0) =~= Seq::<(usize, usize)>::empty());
        assert(0 * count == 0);
    } else {
        let p: nat = (m - 1) as nat;
        lemma_mean_prefix(n, count, i, p);
        let w = mean_prefix(n, count, i, p);
        let ov = overlap(n as int, count as int, i as int, p as int);
        let a: int = (i * n) as int;
        let b: int = ((i + 1) * n) as int;
        let x: int = (p * count) as int;
        let y: int = (m * count) as int;
        assert(b == a + n) by (nonlinear_arith)
            requires a == i * n, b == (i + 1) * n;
        assert(y == x + count) by (nonlinear_arith)
            requires x == p * count, y == m * count, m == p + 1;
        assert(0 <= ov <= count);
        assert(Seq::new(m, f) =~= Seq::new(p, f).push(f(p as int)));
        Seq::new(p, f).lemma_filter_push(f(p as int), pred);
        assert(covered(n, count, i, m) == covered(n, count, i, p) + ov);
        let w2 = mean_prefix(n, count, i, m);
        if ov > 0 {
            assert(w2 == w.push(f(p as int)));
            assert(w2.drop_last() =~= w);
            assert forall|j: int|
                0 <= j < m && #[trigger] overlap(n as int, count as int, i as int, j) > 0 implies exists|k: int|
                    0 <= k < w2.len() && #[trigger] w2[k] == (j as usize, overlap(n as int, count as int, i as int, j) as usize) by {
                if j < p {
                    let k = choose|k: int|
                        0 <= k < w.len() && #[trigger] w[k] == (j as usize, overlap(n as int, count as int, i as int, j) as usize);
                    assert(w2[k] == w[k]);
                } else {
                    assert(w2[w.len() as int] == f(p as int));
                }
            }
        } else {
            assert(w2 == w);
        }
    }
}

/// Source cell `[j, j + 1)` meets output segment
/// `[i * n / count, (i + 1) * n / count)` in more than a point (both scaled
/// by `count`).
pub open spec fn cell_meets_segment(n: int, count: int, i: int, j: int) -> bool {
    j * count < (i + 1) * n && (j + 1) * count > i * n
}

/// The length that source cell `j` shares with output segment `i`, scaled
/// by `count`: the lower of the two ends minus the higher of the two starts.
pub open spec fn shared_length(n: int, count: int, i: int, j: int) -> int {
    let start = if i * n > j * count { i * n } else { j * count };
    let end = if (i + 1) * n < (j + 1) * count { (i + 1) * n } else { (j + 1) * count };
    end - start
}

/// Mean reduction averages each output segment over exactly the source
/// colours that cover it: output `i` weighs every source cell `[j, j + 1)`
/// that meets the segment `[i * n / count, (i + 1) * n / count)` by the
/// length they share (scaled by `count`), lists them in source order, holds
/// no other source, and its weights add up to the whole segment (`n`, the
/// segment's length scaled by `count`).
pub proof fn law_mean_covers_segments(plan: Seq<Mix>, n: nat, count: nat, i: int)
    requires
        count >= 2,
        n <= usize::MAX,
        count <= usize::MAX,
        plan.len() == count,
        forall|k: int| 0 <= k < count ==> is_planned_mix(#[trigger] plan[k], n, count, Reduction::Mean, k as nat),
        0 <= i < count,
    ensures
        plan[i] is Weighted,
        forall|k: int|
            0 <= k < plan[i]->Weighted_0@.len() ==> {
                let (j, weight) = #[trigger] plan[i]->Weighted_0@[k];
                &&& j < n
                &&& cell_meets_segment(n as int, count as int, i, j as int)
                &&& weight == shared_length(n as int, count as int, i, j as int)
            },
        forall|k: int, l: int|
            0 <= k < l < plan[i]->Weighted_0@.len() ==> (#[trigger] plan[i]->Weighted_0@[k]).0
                < (#[trigger] plan[i]->Weighted_0@[l]).0,
        forall|j: int|
            0 <= j < n && #[trigger] cell_meets_segment(n as int, count as int, i, j) ==> exists|k: int|
                0 <= k < plan[i]->Weighted_0@.len() && #[trigger] plan[i]->Weighted_0@[k] == (
                    j as usize,
                    shared_length(n as int, count as int, i, j) as usize,
                ),
        weight_sum(plan[i]->Weighted_0@) == n,
{
    assert(is_planned_mix(plan[i], n, count, Reduction::Mean, i as nat));
    lemma_mean_prefix(n, count, i as nat, n);
    assert(mean_prefix(n, count, i as nat, n) == mean_weights(n, count, i as nat));
    let w = plan[i]->Weighted_0@;
    assert((i + 1) * n <= n * count) by (nonlinear_arith)
        requires i + 1 <= count, n >= 0;
    assert(covered(n, count, i as nat, n) == n) by {
        assert((i + 1) * n == i * n + n) by (nonlinear_arith);
    }
    assert forall|j: int| 0 <= j < n implies (#[trigger] cell_meets_segment(n as int, count as int, i, j)
        <==> overlap(n as int, count as int, i, j) > 0) && (cell_meets_segment(n as int, count as int, i, j)
        ==> overlap(n as int, count as int, i, j) == shared_length(n as int, count as int, i, j)) by {
        assert((j + 1) * count == j * count + count) by (nonlinear_arith);
        assert((i + 1) * n == i * n + n) by (nonlinear_arith);
    }
}

} // verus!
