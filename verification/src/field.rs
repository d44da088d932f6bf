//! The ray-field evaluator: marches a whole ordered field of probe rays
//! through one shared barrier set, group by group, and merges the per-group
//! results back into one ordered buffer of distances. Groups touch disjoint
//! index ranges, so any grouping, merge order or repetition produces the
//! same buffer; the frame contract below pins every slot down.

use vstd::prelude::*;

use crate::space::{rtx, rtx_pre, march_spec, seg_views, Line, Seg};

verus! {

/// What a finished frame holds: one marched distance per probe ray, each
/// slot determined by its own ray, the barrier set and the travel budget.
pub open spec fn frame_post(arrows: Seq<Seg>, bs: Seq<Seg>, max: int, out: Seq<i64>) -> bool {
    &&& out.len() == arrows.len()
    &&& forall|i: int|
        0 <= i < out.len() ==> (#[trigger] out[i]) as int == march_spec(arrows[i], bs, 0, max)
}

/// Every probe ray of the frame satisfies the marching precondition.
pub open spec fn frame_pre(arrows: Seq<Seg>, bs: Seq<Seg>, max: int) -> bool {
    forall|i: int| 0 <= i < arrows.len() ==> rtx_pre(#[trigger] arrows[i], bs, max)
}

/// March every ray of one contiguous index group `[lo, hi)`, producing the
/// group's results in ray order, independently of every other group.
pub fn evaluate_group(
    arrows: &Vec<Line>,
    lo: usize,
    hi: usize,
    barriers: &Vec<Line>,
    max_dist: i64,
) -> (r: Vec<i64>)
    requires
        lo <= hi <= arrows@.len(),
        frame_pre(seg_views(arrows@), seg_views(barriers@), max_dist as int),
    ensures
        r@.len() == hi - lo,
        forall|j: int|
            0 <= j < r@.len() ==> (#[trigger] r@[j]) as int == march_spec(
                seg_views(arrows@)[lo + j],
                seg_views(barriers@),
                0,
                max_dist as int,
            ),
{
    let mut out: Vec<i64> = Vec::new();
    let mut i: usize = lo;
    while i < hi
        invariant
            lo <= i <= hi <= arrows@.len(),
            frame_pre(seg_views(arrows@), seg_views(barriers@), max_dist as int),
            out@.len() == i - lo,
            forall|j: int|
                0 <= j < out@.len() ==> (#[trigger] out@[j]) as int == march_spec(
                    seg_views(arrows@)[lo + j],
                    seg_views(barriers@),
                    0,
                    max_dist as int,
                ),
        decreases hi - i,
    {
        proof {
            assert(seg_views(arrows@)[i as int] == arrows@[i as int]@);
        }
        let d = rtx(arrows[i], barriers, max_dist);
        out.push(d);
        i = i + 1;
    }
    out
}

/// Write one group's results into the shared buffer at the group's own
/// indices, leaving every slot outside `[lo, lo + part.len())` untouched.
pub fn merge_group(buffer: &mut Vec<i64>, lo: usize, part: &Vec<i64>)
    requires
        lo + part@.len() <= old(buffer)@.len(),
    ensures
        final(buffer)@.len() == old(buffer)@.len(),
        forall|j: int| 0 <= j < part@.len() ==> final(buffer)@[lo + j] == part@[j],
        forall|i: int|
            0 <= i < old(buffer)@.len() && !(lo <= i < lo + part@.len()) ==> final(buffer)@[i]
                == old(buffer)@[i],
{
    let hi = buffer.len();
    let mut j: usize = 0;
    while j < part.len()
        invariant
            j <= part@.len(),
            lo + part@.len() <= buffer@.len(),
            hi == buffer@.len(),
            buffer@.len() == old(buffer)@.len(),
            forall|k: int| 0 <= k < j ==> buffer@[lo + k] == part@[k],
            forall|i: int|
                0 <= i < buffer@.len() && !(lo <= i < lo + j) ==> buffer@[i] == old(buffer)@[i],
        decreases part@.len() - j,
    {
        buffer[lo + j] = part[j];
        j = j + 1;
    }
}

/// Evaluate a whole frame: partition the `group_count * group_size` rays
/// into contiguous groups, march every group, and merge the group results
/// into one buffer holding the marched distance of every ray.
pub fn evaluate_frame(
    arrows: &Vec<Line>,
    barriers: &Vec<Line>,
    max_dist: i64,
    group_count: usize,
    group_size: usize,
) -> (r: Vec<i64>)
    requires
        arrows@.len() == group_count * group_size,
        frame_pre(seg_views(arrows@), seg_views(barriers@), max_dist as int),
    ensures
        frame_post(seg_views(arrows@), seg_views(barriers@), max_dist as int, r@),
{
    let n = arrows.len();
    let mut buffer: Vec<i64> = Vec::new();
    let mut i: usize = 0;
    while i < n
        invariant
            i <= n,
            buffer@.len() == i,
        decreases n - i,
    {
        buffer.push(0);
        i = i + 1;
    }
    let mut g: usize = 0;
    let mut lo: usize = 0;
    while g < group_count
        invariant
            g <= group_count,
            lo == g * group_size,
            n == arrows@.len() == group_count * group_size,
            buffer@.len() == n,
            frame_pre(seg_views(arrows@), seg_views(barriers@), max_dist as int),
            forall|i: int|
                0 <= i < lo ==> (#[trigger] buffer@[i]) as int == march_spec(
                    seg_views(arrows@)[i],
                    seg_views(barriers@),
                    0,
                    max_dist as int,
                ),
        decreases group_count - g,
    {
        proof {
            assert((g + 1) * group_size == g * group_size + group_size) by (nonlinear_arith);
            vstd::arithmetic::mul::lemma_mul_inequality(
                g as int + 1,
                group_count as int,
                group_size as int,
            );
        }
        let part = evaluate_group(arrows, lo, lo + group_size, barriers, max_dist);
        merge_group(&mut buffer, lo, &part);
        proof {
            assert forall|i: int| 0 <= i < lo + group_size implies (#[trigger] buffer@[i]) as int
                == march_spec(
                seg_views(arrows@)[i],
                seg_views(barriers@),
                0,
                max_dist as int,
            ) by {
                if lo <= i {
                    let j = i - lo;
                    assert(buffer@[lo + j] == part@[j]);
                    assert(part@[j] as int == march_spec(
                        seg_views(arrows@)[lo + j],
                        seg_views(barriers@),
                        0,
                        max_dist as int,
                    ));
                }
            }
        }
        g = g + 1;
        lo = lo + group_size;
    }
    buffer
}

/// A frame's buffer is entirely determined by the probe rays, the barrier
/// set and the travel budget: any two buffers that satisfy the frame
/// contract agree slot for slot. Hence neither the choice of a valid
/// partition into groups, nor the order in which disjoint groups are
/// merged, nor evaluating the same frame a second time can ever change
/// the output.
pub proof fn lemma_frame_determined(
    arrows: Seq<Seg>,
    bs: Seq<Seg>,
    max: int,
    r1: Seq<i64>,
    r2: Seq<i64>,
)
    requires
        frame_post(arrows, bs, max, r1),
        frame_post(arrows, bs, max, r2),
    ensures
        r1 == r2,
{
    assert forall|i: int| 0 <= i < r1.len() implies r1[i] == r2[i] by {
        assert(r1[i] as int == march_spec(arrows[i], bs, 0, max));
        assert(r2[i] as int == march_spec(arrows[i], bs, 0, max));
    }
    assert(r1 =~= r2);
}

} // verus!
