//! Walking the whole token ring of the store in contiguous ranges.
use vstd::prelude::*;

verus! {

/// The end of the range that starts at `t1` with width `td`, capped at the
/// top of the ring.
pub open spec fn range_end(t1: i64, td: i64) -> i64 {
    if t1 < i64::MAX - td {
        (t1 + td) as i64
    } else {
        i64::MAX
    }
}

pub fn next_range_end(t1: i64, td: i64) -> (r: i64)
    requires
        td >= 0,
    ensures
        r == range_end(t1, td),
        t1 <= r,
{
    if t1 < i64::MAX - td {
        t1 + td
    } else {
        i64::MAX
    }
}

/// Ranges that cover the token ring from `i64::MIN` to `i64::MAX` without
/// gap or overlap, each `i64::MAX / parts` wide but the last.
pub fn token_ranges(parts: i64) -> (r: Vec<(i64, i64)>)
    requires
        1 <= parts,
    ensures
        r@.len() > 0,
        r@[0].0 == i64::MIN,
        r@.last().1 == i64::MAX,
        forall|k: int| 0 <= k < r@.len() ==> (#[trigger] r@[k]).0 <= r@[k].1,
        forall|k: int| 0 <= k < r@.len() ==> (#[trigger] r@[k]).1 == range_end(r@[k].0, (i64::MAX / parts) as i64),
        forall|k: int| 0 <= k < r@.len() - 1 ==> (#[trigger] r@[k + 1]).0 == r@[k].1 + 1,
        forall|k: int| 0 <= k < r@.len() - 1 ==> (#[trigger] r@[k]).1 < i64::MAX,
{
    let td = i64::MAX / parts;
    let mut out: Vec<(i64, i64)> = Vec::new();
    let mut t1 = i64::MIN;
    loop
        invariant_except_break
            out@.len() == 0 ==> t1 == i64::MIN,
            out@.len() > 0 ==> out@.last().1 < i64::MAX && t1 == out@.last().1 + 1,
        invariant
            td == i64::MAX / parts,
            td >= 0,
            out@.len() > 0 ==> out@[0].0 == i64::MIN,
            forall|k: int| 0 <= k < out@.len() ==> (#[trigger] out@[k]).0 <= out@[k].1,
            forall|k: int| 0 <= k < out@.len() ==> (#[trigger] out@[k]).1 == range_end(out@[k].0, td),
            forall|k: int| 0 <= k < out@.len() - 1 ==> (#[trigger] out@[k + 1]).0 == out@[k].1 + 1,
            forall|k: int| 0 <= k < out@.len() - 1 ==> (#[trigger] out@[k]).1 < i64::MAX,
        ensures
            out@.len() > 0,
            out@.last().1 == i64::MAX,
        decreases i64::MAX - t1,
    {
        let t2 = next_range_end(t1, td);
        let ghost before = out@;
        out.push((t1, t2));
        proof {
            assert(out@[out@.len() - 1] == (t1, t2));
            if before.len() > 0 {
                assert(out@[before.len() as int] == (t1, t2));
                assert(out@[before.len() - 1] == before.last());
            }
        }
        if t2 == i64::MAX {
            break ;
        }
        t1 = t2 + 1;
    }
    out
}

/// How far `t1` is through the ring, in thousandths of a percent.
pub fn token_progress(t1: i64) -> (r: u64)
    ensures
        r as int == (t1 as int - i64::MIN as int) / (u64::MAX as int / 100000),
{
    let off = (t1 as i128 - i64::MIN as i128) as u64;
    off / (u64::MAX / 100000)
}

} // verus!
