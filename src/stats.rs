//! A throttle that lets an action through at most once per interval.
use vstd::prelude::*;

verus! {

/// Remembers when it last fired; fires again once `dt_ns` nanoseconds have
/// passed on the caller's clock.
pub struct CheckEvery {
    ts_last_ns: u64,
    dt_ns: u64,
}

impl CheckEvery {
    pub closed spec fn spec_last(&self) -> u64 {
        self.ts_last_ns
    }

    pub closed spec fn spec_dt(&self) -> u64 {
        self.dt_ns
    }

    /// Starts the interval at `now_ns`.
    pub fn new(dt_ns: u64, now_ns: u64) -> (r: Self)
        ensures
            r.spec_last() == now_ns,
            r.spec_dt() == dt_ns,
    {
        CheckEvery { ts_last_ns: now_ns, dt_ns }
    }

    /// At `now_ns`: when the interval has passed, restarts it and returns the
    /// time since it last fired; else `None`. A clock reading before the last
    /// firing counts as no time passed.
    pub fn is_elapsed_at(&mut self, now_ns: u64) -> (r: Option<u64>)
        ensures
            final(self).spec_dt() == old(self).spec_dt(),
            ({
                let dt = if now_ns >= old(self).spec_last() {
                    (now_ns - old(self).spec_last()) as u64
                } else {
                    0u64
                };
                if dt >= old(self).spec_dt() {
                    r == Some(dt) && final(self).spec_last() == now_ns
                } else {
                    r is None && final(self).spec_last() == old(self).spec_last()
                }
            }),
    {
        let dt = if now_ns >= self.ts_last_ns {
            now_ns - self.ts_last_ns
        } else {
            0
        };
        if dt >= self.dt_ns {
            self.ts_last_ns = now_ns;
            Some(dt)
        } else {
            None
        }
    }
}

} // verus!
