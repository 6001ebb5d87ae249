//! Runtime-tunable settings shared with the admin surface.
use vstd::prelude::*;

verus! {

/// Replication of certain insert groups: pairs of `(group, copies)`.
pub struct ExtraInsertsConf {
    pub copies: Vec<(u64, u64)>,
}

impl ExtraInsertsConf {
    pub fn new() -> (r: Self)
        ensures
            r.copies@.len() == 0,
    {
        ExtraInsertsConf { copies: Vec::new() }
    }
}

} // verus!
