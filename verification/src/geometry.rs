//! The window planner and the visibility filter: the reference-axis
//! interval a chain's plot shows, and the background anchors whose whole
//! k-mer footprint lies inside it.

use vstd::prelude::*;
use crate::records::Anchor;

verus! {

/// The saturating-at-zero subtraction of the window planner: the window's
/// left edge is floored at reference coordinate 0 rather than underflowing.
pub open spec fn sat_sub_u32(a: u32, b: u32) -> u32 {
    if a >= b {
        (a - b) as u32
    } else {
        0u32
    }
}

pub fn saturating_sub_u32(a: u32, b: u32) -> (r: u32)
    ensures
        r == sat_sub_u32(a, b),
{
    if a >= b {
        a - b
    } else {
        0
    }
}

pub open spec fn min_u32(a: u32, b: u32) -> u32 {
    if a <= b {
        a
    } else {
        b
    }
}

pub open spec fn max_u32(a: u32, b: u32) -> u32 {
    if a >= b {
        a
    } else {
        b
    }
}

/// The padding both planner modes derive from the read length.
pub open spec fn spec_pad(read_len: u32) -> u32 {
    (read_len / 10) as u32
}

/// Simple mode: pad the chain's reference span on both sides by a tenth of
/// the read length, flooring the left edge at 0.
pub fn plan_window_simple(rspan0: u32, rspan1: u32, read_len: u32) -> (w: (u32, u32))
    requires
        rspan1 + read_len / 10 <= u32::MAX,
    ensures
        w.0 == sat_sub_u32(rspan0, spec_pad(read_len)),
        w.1 == rspan1 + spec_pad(read_len),
{
    let pad = read_len / 10;
    (saturating_sub_u32(rspan0, pad), rspan1 + pad)
}

/// Dual-alignment mode: widen the window so that both the primary chain's
/// start and the secondary alignment's start are shown, with room for the
/// secondary alignment's full extent (one read length past the later start).
pub fn plan_window_dual(rspan0: u32, secondary_ref_start: u32, read_len: u32) -> (w: (u32, u32))
    requires
        max_u32(rspan0, secondary_ref_start) + read_len / 10 + read_len <= u32::MAX,
    ensures
        w.0 == sat_sub_u32(min_u32(rspan0, secondary_ref_start), spec_pad(read_len)),
        w.1 == max_u32(rspan0, secondary_ref_start) + spec_pad(read_len) + read_len,
{
    let pad = read_len / 10;
    let lo = if rspan0 <= secondary_ref_start {
        rspan0
    } else {
        secondary_ref_start
    };
    let hi = if rspan0 >= secondary_ref_start {
        rspan0
    } else {
        secondary_ref_start
    };
    (saturating_sub_u32(lo, pad), hi + pad + read_len)
}

/// The plot window for one chain, with the mode picked by whether a
/// secondary reference start exists: simple mode without one, dual-alignment
/// mode with one. `None` exactly when the window's right edge would not fit
/// in the coordinate range.
pub fn plan_window(
    rspan0: u32,
    rspan1: u32,
    secondary_ref_start: Option<u32>,
    read_len: u32,
) -> (r: Option<(u32, u32)>)
    ensures
        match secondary_ref_start {
            None => {
                &&& (r is Some <==> rspan1 + read_len / 10 <= u32::MAX)
                &&& (r matches Some(w) ==> w.0 == sat_sub_u32(rspan0, spec_pad(read_len)) && w.1
                    == rspan1 + read_len / 10)
            },
            Some(s) => {
                &&& (r is Some <==> max_u32(rspan0, s) + read_len / 10 + read_len <= u32::MAX)
                &&& (r matches Some(w) ==> w.0 == sat_sub_u32(min_u32(rspan0, s), spec_pad(read_len))
                    && w.1 == max_u32(rspan0, s) + read_len / 10 + read_len)
            },
        },
{
    let pad = (read_len / 10) as u64;
    match secondary_ref_start {
        None => {
            if (rspan1 as u64) + pad <= u32::MAX as u64 {
                Some(plan_window_simple(rspan0, rspan1, read_len))
            } else {
                None
            }
        },
        Some(s) => {
            let hi = if rspan0 >= s {
                rspan0
            } else {
                s
            };
            if (hi as u64) + pad + (read_len as u64) <= u32::MAX as u64 {
                Some(plan_window_dual(rspan0, s, read_len))
            } else {
                None
            }
        },
    }
}

/// Whether an anchor's full k-mer footprint `[ref_start, ref_start + k)`
/// lies inside the window `[w0, w1]`. An anchor that only partially overlaps
/// the window is excluded, not clipped.
pub open spec fn anchor_visible(a: Anchor, k: u32, w0: u32, w1: u32) -> bool {
    a.ref_start >= w0 && a.ref_start + k <= w1
}

pub open spec fn visible_pred(k: u32, w0: u32, w1: u32) -> spec_fn(Anchor) -> bool {
    |a: Anchor| anchor_visible(a, k, w0, w1)
}

proof fn lemma_filter_push(s: Seq<Anchor>, pred: spec_fn(Anchor) -> bool, v: Anchor)
    ensures
        s.push(v).filter(pred) == if pred(v) {
            s.filter(pred).push(v)
        } else {
            s.filter(pred)
        },
{
    reveal(Seq::filter);
    assert(s.push(v).drop_last() =~= s);
    assert(s.push(v).last() == v);
}

/// Select, in order, the background anchors visible in the window.
pub fn filter_visible_anchors(anchors: &Vec<Anchor>, k: u32, w0: u32, w1: u32) -> (r: Vec<
    Anchor,
>)
    ensures
        r@ == anchors@.filter(visible_pred(k, w0, w1)),
{
    let ghost pred = visible_pred(k, w0, w1);
    let mut out: Vec<Anchor> = Vec::new();
    let mut i: usize = 0;
    while i < anchors.len()
        invariant
            i <= anchors.len(),
            pred == visible_pred(k, w0, w1),
            out@ == anchors@.subrange(0, i as int).filter(pred),
        decreases anchors.len() - i,
    {
        let a = anchors[i];
        let keep = a.ref_start >= w0 && (a.ref_start as u64) + (k as u64) <= (w1 as u64);
        proof {
            assert(anchors@.subrange(0, i + 1) =~= anchors@.subrange(0, i as int).push(a));
            lemma_filter_push(anchors@.subrange(0, i as int), pred, a);
            assert(visible_pred(k, w0, w1)(a) == anchor_visible(a, k, w0, w1));
            assert(keep == anchor_visible(a, k, w0, w1));
        }
        if keep {
            out.push(a);
        }
        i = i + 1;
    }
    proof {
        assert(anchors@.subrange(0, anchors@.len() as int) =~= anchors@);
    }
    out
}

} // verus!
