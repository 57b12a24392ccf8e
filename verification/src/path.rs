//! The path reconstructor: walks a CIGAR string into an ordered vertex
//! sequence on the (reference, query) plane.
//!
//! A CIGAR is a run-length encoding: a decimal count followed by an
//! operation code, repeated. Match-like runs (`M`, `=`, `X`) advance both
//! axes, insertions and soft clips (`I`, `S`) advance only the query axis,
//! deletions and skips (`D`, `N`) advance only the reference axis. A vertex
//! is appended after each recognized run; unrecognized codes and malformed
//! or missing counts (taken as 0) advance nothing, deliberately lenient.
//! Coordinate advances saturate at the top of the `u32` range.

use vstd::prelude::*;
use crate::cursor::{dec_val, is_digit};

verus! {

pub open spec fn sat_add_u32(a: u32, b: u32) -> u32 {
    if a + b <= u32::MAX {
        (a + b) as u32
    } else {
        u32::MAX
    }
}

pub fn saturating_add_u32(a: u32, b: u32) -> (r: u32)
    ensures
        r == sat_add_u32(a, b),
{
    if b <= u32::MAX - a {
        a + b
    } else {
        u32::MAX
    }
}

/// The first position at or after `i` that does not hold a decimal digit.
pub open spec fn digits_end(s: Seq<u8>, i: int) -> int
    decreases s.len() - i,
{
    if i < 0 || i >= s.len() {
        i
    } else if is_digit(s[i]) {
        digits_end(s, i + 1)
    } else {
        i
    }
}

/// The count of one run: the numeral's value where it is nonempty and fits
/// in a `u32`, and 0 otherwise (the lenient parse-or-default policy).
pub open spec fn run_count(s: Seq<u8>) -> u32 {
    if s.len() > 0 && dec_val(s) <= u32::MAX {
        dec_val(s) as u32
    } else {
        0
    }
}

/// The vertex one recognized run moves to from `(rp, qp)`, or `None` for an
/// unrecognized operation code.
pub open spec fn step_vertex(op: u8, count: u32, rp: u32, qp: u32) -> Option<(u32, u32)> {
    if op == 77 || op == 61 || op == 88 {  // 'M', '=', 'X'
        Some((sat_add_u32(rp, count), sat_add_u32(qp, count)))
    } else if op == 73 || op == 83 {  // 'I', 'S'
        Some((rp, sat_add_u32(qp, count)))
    } else if op == 68 || op == 78 {  // 'D', 'N'
        Some((sat_add_u32(rp, count), qp))
    } else {
        None
    }
}

/// The vertices contributed by the runs from position `i` on, starting at
/// `(rp, qp)`. Trailing digits with no operation code contribute nothing.
pub open spec fn path_from(s: Seq<u8>, i: int, rp: u32, qp: u32) -> Seq<(u32, u32)>
    decreases s.len() - i,
{
    if i < 0 || i >= s.len() {
        Seq::empty()
    } else {
        let j = digits_end(s, i);
        if !(i <= j < s.len()) {
            Seq::empty()
        } else {
            let count = run_count(s.subrange(i, j));
            match step_vertex(s[j], count, rp, qp) {
                Some(v) => seq![v] + path_from(s, j + 1, v.0, v.1),
                None => path_from(s, j + 1, rp, qp),
            }
        }
    }
}

/// The full alignment path of a CIGAR: it always begins at `(ref_start, 0)`,
/// and one vertex follows per recognized run. A path of length 1 signals
/// that there is nothing to draw.
pub open spec fn cigar_path(s: Seq<u8>, ref_start: u32) -> Seq<(u32, u32)> {
    seq![(ref_start, 0u32)] + path_from(s, 0, ref_start, 0u32)
}

pub fn reconstruct_path(cigar: &[u8], ref_start: u32) -> (r: Vec<(u32, u32)>)
    ensures
        r@ == cigar_path(cigar@, ref_start),
        r@.len() >= 1,
        r@[0] == (ref_start, 0u32),
{
    let mut path: Vec<(u32, u32)> = Vec::new();
    path.push((ref_start, 0));
    let mut rp = ref_start;
    let mut qp: u32 = 0;
    let mut i: usize = 0;
    while i < cigar.len()
        invariant
            i <= cigar.len(),
            path@.len() >= 1,
            path@[0] == (ref_start, 0u32),
            cigar_path(cigar@, ref_start) == path@ + path_from(cigar@, i as int, rp, qp),
        decreases cigar.len() - i,
    {
        let ghost s = cigar@;
        let mut j = i;
        let mut acc: u64 = 0;
        let mut over = false;
        while j < cigar.len() && cigar[j] >= 48 && cigar[j] <= 57
            invariant
                i <= j <= cigar.len(),
                digits_end(s, i as int) == digits_end(s, j as int),
                s == cigar@,
                !over ==> acc == dec_val(s.subrange(i as int, j as int)) && acc <= u32::MAX,
                over ==> dec_val(s.subrange(i as int, j as int)) > u32::MAX,
            decreases cigar.len() - j,
        {
            let b = cigar[j];
            proof {
                assert(s.subrange(i as int, j + 1).drop_last() =~= s.subrange(i as int, j as int));
                assert(s.subrange(i as int, j + 1).last() == s[j as int]);
            }
            if !over {
                let acc2 = acc * 10 + ((b - 48) as u64);
                if acc2 > u32::MAX as u64 {
                    over = true;
                } else {
                    acc = acc2;
                }
            }
            j = j + 1;
        }
        proof {
            assert(digits_end(s, j as int) == j);
        }
        if j >= cigar.len() {
            // trailing digits without an operation code: no further vertex
            proof {
                assert(path_from(s, i as int, rp, qp) =~= Seq::<(u32, u32)>::empty());
                assert(path@ + Seq::<(u32, u32)>::empty() =~= path@);
            }
            return path;
        }
        let op = cigar[j];
        let count: u32 = if j > i && !over {
            acc as u32
        } else {
            0
        };
        proof {
            assert(count == run_count(s.subrange(i as int, j as int)));
        }
        let ghost rp0 = rp;
        let ghost qp0 = qp;
        let mut recognized = true;
        if op == 77 || op == 61 || op == 88 {
            rp = saturating_add_u32(rp, count);
            qp = saturating_add_u32(qp, count);
        } else if op == 73 || op == 83 {
            qp = saturating_add_u32(qp, count);
        } else if op == 68 || op == 78 {
            rp = saturating_add_u32(rp, count);
        } else {
            recognized = false;
        }
        let ghost path0 = path@;
        if recognized {
            path.push((rp, qp));
        }
        proof {
            if recognized {
                assert(step_vertex(s[j as int], count, rp0, qp0) == Some((rp, qp)));
                assert(path_from(s, i as int, rp0, qp0) == seq![(rp, qp)] + path_from(
                    s,
                    j + 1,
                    rp,
                    qp,
                ));
                assert(path0 + (seq![(rp, qp)] + path_from(s, j + 1, rp, qp)) =~= path0.push(
                    (rp, qp),
                ) + path_from(s, j + 1, rp, qp));
            } else {
                assert(step_vertex(s[j as int], count, rp0, qp0) is None);
                assert(path_from(s, i as int, rp0, qp0) == path_from(s, j + 1, rp, qp));
            }
        }
        i = j + 1;
    }
    proof {
        assert(path_from(cigar@, i as int, rp, qp) =~= Seq::<(u32, u32)>::empty());
        assert(path@ + Seq::<(u32, u32)>::empty() =~= path@);
    }
    path
}

} // verus!
