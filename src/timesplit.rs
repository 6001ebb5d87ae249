//! Splitting of a nanosecond timestamp into a coarse partition key
//! (`ts_msp`) and a fine remainder (`ts_lsp`).
use vstd::prelude::*;

verus! {

/// Nanoseconds in one second.
pub const SEC: u64 = 1_000_000_000;

/// Timestamps below this bound are not partitioned: they split to `(0, 0)`.
pub const TS_SPLIT_MIN: u64 = 0x1_0000_0000;

/// The split of `ts` for `series` with partitions of `bucket` nanoseconds.
pub open spec fn split_spec(ts: nat, series: nat, bucket: nat) -> (nat, nat)
    recommends
        bucket > 0,
{
    if ts < TS_SPLIT_MIN {
        (0, 0)
    } else {
        let off = series % bucket;
        let a = (ts - off) as nat;
        ((a / bucket) * bucket + off, a % bucket)
    }
}

/// Splits `ts` into `(ts_msp, ts_lsp)`. The per-series offset `series mod fak`
/// keeps different series from rolling over on the same boundary.
pub fn ts_msp_lsp_gen(ts: u64, series: u32, fak: u64) -> (r: (u64, u64))
    requires
        fak > 0,
    ensures
        (r.0 as nat, r.1 as nat) == split_spec(ts as nat, series as nat, fak as nat),
        ts < TS_SPLIT_MIN ==> r == (0u64, 0u64),
        ts >= TS_SPLIT_MIN ==> r.1 < fak && r.0 as int + r.1 as int == ts as int,
{
    if ts < TS_SPLIT_MIN {
        return (0, 0);
    }
    let off = series as u64 % fak;
    assert(off <= series) by (nonlinear_arith)
        requires
            off == series as u64 % fak,
            fak > 0,
    ;
    let ts_a = ts - off;
    let ts_b = ts_a / fak;
    let ts_lsp = ts_a % fak;
    proof {
        assert(ts_b * fak + ts_lsp == ts_a) by (nonlinear_arith)
            requires
                ts_b == ts_a / fak,
                ts_lsp == ts_a % fak,
                fak > 0,
        ;
    }
    let ts_msp = ts_b * fak + off;
    (ts_msp, ts_lsp)
}

/// Split for scalar channels: partitions of 100 seconds.
pub fn ts_msp_lsp_1(ts: u64, series: u32) -> (r: (u64, u64))
    ensures
        (r.0 as nat, r.1 as nat) == split_spec(ts as nat, series as nat, (100 * SEC) as nat),
{
    ts_msp_lsp_gen(ts, series, 100 * SEC)
}

/// Split for waveform channels: partitions of 10 seconds.
pub fn ts_msp_lsp_2(ts: u64, series: u32) -> (r: (u64, u64))
    ensures
        (r.0 as nat, r.1 as nat) == split_spec(ts as nat, series as nat, (10 * SEC) as nat),
{
    ts_msp_lsp_gen(ts, series, 10 * SEC)
}

} // verus!
