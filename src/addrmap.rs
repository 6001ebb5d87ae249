//! A map keyed by IPv4 socket address, kept in ascending address order.
use vstd::prelude::*;

verus! {

/// An IPv4 socket address: the address as a big-endian integer and a port.
#[derive(Clone, Copy, Debug, PartialEq, Eq, Structural)]
pub struct Addr {
    pub ip: u32,
    pub port: u16,
}

/// The position of an address in the order of addresses: by ip, then port.
pub open spec fn addr_key(a: Addr) -> nat {
    a.ip as nat * 65536 + a.port as nat
}

pub proof fn lemma_addr_key_injective(a: Addr, b: Addr)
    ensures
        addr_key(a) == addr_key(b) ==> a == b,
{
    if addr_key(a) == addr_key(b) {
        vstd::arithmetic::div_mod::lemma_fundamental_div_mod_converse(
            addr_key(a) as int,
            65536,
            a.ip as int,
            a.port as int,
        );
        vstd::arithmetic::div_mod::lemma_fundamental_div_mod_converse(
            addr_key(b) as int,
            65536,
            b.ip as int,
            b.port as int,
        );
    }
}

impl Addr {
    pub fn key(&self) -> (r: u64)
        ensures
            r as nat == addr_key(*self),
    {
        self.ip as u64 * 65536 + self.port as u64
    }
}

/// Keys strictly ascending.
pub open spec fn sorted_entries<V>(s: Seq<(Addr, V)>) -> bool {
    forall|i: int, j: int| 0 <= i < j < s.len() ==> addr_key(s[i].0) < addr_key(s[j].0)
}

pub open spec fn has_key<V>(s: Seq<(Addr, V)>, a: Addr) -> bool {
    exists|i: int| 0 <= i < s.len() && s[i].0 == a
}

pub open spec fn has_entry<V>(s: Seq<(Addr, V)>, e: (Addr, V)) -> bool {
    exists|i: int| 0 <= i < s.len() && s[i] == e
}

/// Entries in ascending address order, one per address.
pub struct AddrMap<V> {
    entries: Vec<(Addr, V)>,
}

impl<V> AddrMap<V> {
    pub closed spec fn entries(&self) -> Seq<(Addr, V)> {
        self.entries@
    }

    pub open spec fn wf(&self) -> bool {
        sorted_entries(self.entries())
    }

    /// The addresses in ascending order.
    pub open spec fn keys(&self) -> Seq<Addr> {
        self.entries().map_values(|e: (Addr, V)| e.0)
    }

    pub fn new() -> (r: Self)
        ensures
            r.wf(),
            r.entries().len() == 0,
    {
        AddrMap { entries: Vec::new() }
    }

    pub fn len(&self) -> (r: usize)
        ensures
            r == self.entries().len(),
    {
        self.entries.len()
    }

    /// The first position whose address is not below `a`.
    fn lower_bound(&self, a: Addr) -> (r: usize)
        requires
            self.wf(),
        ensures
            r <= self.entries().len(),
            forall|i: int| 0 <= i < r ==> addr_key(#[trigger] self.entries()[i].0) < addr_key(a),
            forall|i: int|
                r <= i < self.entries().len() ==> addr_key(a) <= addr_key(#[trigger] self.entries()[i].0),
    {
        let k = a.key();
        let mut i: usize = 0;
        while i < self.entries.len()
            invariant
                i <= self.entries@.len(),
                self.wf(),
                k as nat == addr_key(a),
                forall|j: int| 0 <= j < i ==> addr_key(#[trigger] self.entries@[j].0) < addr_key(a),
            decreases self.entries@.len() - i,
        {
            if self.entries[i].0.key() >= k {
                return i;
            }
            i = i + 1;
        }
        i
    }

    /// The position of `a`, if present.
    pub fn find(&self, a: Addr) -> (r: Option<usize>)
        requires
            self.wf(),
        ensures
            match r {
                Some(i) => i < self.entries().len() && self.entries()[i as int].0 == a,
                None => !has_key(self.entries(), a),
            },
    {
        let p = self.lower_bound(a);
        if p < self.entries.len() && self.entries[p].0 == a {
            Some(p)
        } else {
            proof {
                if has_key(self.entries(), a) {
                    let i = choose|i: int| 0 <= i < self.entries().len() && self.entries()[i].0 == a;
                    if i > p as int {
                        assert(addr_key(self.entries()[p as int].0) < addr_key(self.entries()[i].0));
                    }
                    if i == p as int {
                    }
                }
            }
            None
        }
    }

    pub fn contains_key(&self, a: Addr) -> (r: bool)
        requires
            self.wf(),
        ensures
            r == has_key(self.entries(), a),
    {
        self.find(a).is_some()
    }

    /// The value stored for `a`.
    pub fn get(&self, a: Addr) -> (r: Option<&V>)
        requires
            self.wf(),
        ensures
            match r {
                Some(v) => has_entry(self.entries(), (a, *v)),
                None => !has_key(self.entries(), a),
            },
    {
        match self.find(a) {
            Some(i) => Some(&self.entries[i].1),
            None => None,
        }
    }

    /// Stores `v` for `a`, replacing and returning what was stored for it.
    pub fn insert(&mut self, a: Addr, v: V) -> (r: Option<V>)
        requires
            old(self).wf(),
        ensures
            final(self).wf(),
            has_entry(final(self).entries(), (a, v)),
            forall|e: (Addr, V)|
                e.0 != a ==> (has_entry(final(self).entries(), e) <==> has_entry(old(self).entries(), e)),
            has_key(old(self).entries(), a) <==> r is Some,
            r matches Some(x) ==> has_entry(old(self).entries(), (a, x)),
            final(self).entries().len() == old(self).entries().len() + (if r is Some {
                0int
            } else {
                1int
            }),
    {
        let p = self.lower_bound(a);
        let ghost s0 = self.entries@;
        if p < self.entries.len() && self.entries[p].0 == a {
            let old_e = self.entries.remove(p);
            self.entries.insert(p, (a, v));
            proof {
                let s1 = self.entries@;
                assert(s1 =~= s0.update(p as int, (a, v)));
                assert(s1[p as int] == (a, v));
                assert forall|e: (Addr, V)| e.0 != a implies (has_entry(s1, e) <==> has_entry(s0, e)) by {
                    if has_entry(s1, e) {
                        let i = choose|i: int| 0 <= i < s1.len() && s1[i] == e;
                        assert(s0[i] == e);
                    }
                    if has_entry(s0, e) {
                        let i = choose|i: int| 0 <= i < s0.len() && s0[i] == e;
                        assert(s1[i] == e);
                    }
                }
                assert(s0[p as int] == (a, old_e.1));
            }
            Some(old_e.1)
        } else {
            self.entries.insert(p, (a, v));
            proof {
                let s1 = self.entries@;
                assert(s1 =~= s0.insert(p as int, (a, v)));
                assert(s1[p as int] == (a, v));
                if has_key(s0, a) {
                    let i = choose|i: int| 0 <= i < s0.len() && s0[i].0 == a;
                    if i > p as int {
                        assert(addr_key(s0[p as int].0) < addr_key(s0[i].0));
                    }
                    if i == p as int {
                        assert(s0[p as int].0 == a);
                    }
                }
                assert forall|e: (Addr, V)| e.0 != a implies (has_entry(s1, e) <==> has_entry(s0, e)) by {
                    if has_entry(s1, e) {
                        let i = choose|i: int| 0 <= i < s1.len() && s1[i] == e;
                        if i < p {
                            assert(s0[i] == e);
                        } else {
                            assert(i != p);
                            assert(s0[i - 1] == e);
                        }
                    }
                    if has_entry(s0, e) {
                        let i = choose|i: int| 0 <= i < s0.len() && s0[i] == e;
                        if i < p {
                            assert(s1[i] == e);
                        } else {
                            assert(s1[i + 1] == e);
                        }
                    }
                }
                if p < s0.len() {
                    assert(addr_key(a) < addr_key(s0[p as int].0)) by {
                        assert(addr_key(a) <= addr_key(s0[p as int].0));
                        lemma_addr_key_injective(a, s0[p as int].0);
                    }
                }
                assert(sorted_entries(s1)) by {
                    assert forall|i: int, j: int| 0 <= i < j < s1.len() implies addr_key(s1[i].0) < addr_key(
                        s1[j].0,
                    ) by {
                        if j < p {
                        } else if j == p {
                        } else if i < p {
                            assert(s1[j] == s0[j - 1]);
                        } else if i == p {
                            assert(s1[j] == s0[j - 1]);
                            assert(addr_key(s0[p as int].0) <= addr_key(s0[j - 1].0));
                        } else {
                            assert(s1[j] == s0[j - 1]);
                            assert(s1[i] == s0[i - 1]);
                        }
                    }
                }
            }
            None
        }
    }

    /// The address at position `i` of the ascending order.
    pub fn nth_key(&self, i: usize) -> (r: Addr)
        requires
            i < self.entries().len(),
        ensures
            r == self.entries()[i as int].0,
    {
        self.entries[i].0
    }

    /// The value at position `i` of the ascending order.
    pub fn nth_value(&self, i: usize) -> (r: &V)
        requires
            i < self.entries().len(),
        ensures
            *r == self.entries()[i as int].1,
    {
        &self.entries[i].1
    }

    /// Empties the map and hands out its entries in ascending address order.
    pub fn take_all(&mut self) -> (r: Vec<(Addr, V)>)
        ensures
            r@ == old(self).entries(),
            final(self).entries().len() == 0,
            final(self).wf(),
    {
        let mut out: Vec<(Addr, V)> = Vec::new();
        core::mem::swap(&mut out, &mut self.entries);
        out
    }

    /// Keeps the entries whose flag is false, in order.
    pub fn remove_flagged(&mut self, flags: &Vec<bool>)
        requires
            old(self).wf(),
            flags@.len() == old(self).entries().len(),
        ensures
            final(self).wf(),
            final(self).entries() == keep_unflagged(old(self).entries(), flags@),
    {
        let mut rest: Vec<(Addr, V)> = Vec::new();
        core::mem::swap(&mut rest, &mut self.entries);
        let ghost s0 = rest@;
        let n0 = rest.len();
        let mut kept: Vec<(Addr, V)> = Vec::new();
        let mut i: usize = 0;
        while rest.len() > 0
            invariant
                i <= s0.len(),
                n0 == s0.len(),
                flags@.len() == s0.len(),
                sorted_entries(s0),
                rest@ == s0.subrange(i as int, s0.len() as int),
                kept@ == keep_unflagged(s0.subrange(0, i as int), flags@.subrange(0, i as int)),
                sorted_entries(kept@),
                i < s0.len() ==> forall|k: int|
                    0 <= k < kept@.len() ==> addr_key(#[trigger] kept@[k].0) < addr_key(s0[i as int].0),
            decreases rest@.len(),
        {
            let e = rest.remove(0);
            proof {
                assert(e == s0[i as int]);
            }
            if !flags[i] {
                kept.push(e);
            }
            proof {
                lemma_keep_step(s0, flags@, i as int);
                if i + 1 < s0.len() {
                    assert(addr_key(s0[i as int].0) < addr_key(s0[i + 1].0));
                }
                assert(rest@ =~= s0.subrange(i + 1, s0.len() as int));
            }
            i = i + 1;
        }
        proof {
            assert(i == s0.len());
            assert(s0.subrange(0, i as int) =~= s0);
            assert(flags@.subrange(0, i as int) =~= flags@);
        }
        self.entries = kept;
    }
}

/// The entries of `s` whose flag in `f` is false, in order.
pub open spec fn keep_unflagged<V>(s: Seq<(Addr, V)>, f: Seq<bool>) -> Seq<(Addr, V)>
    decreases s.len(),
{
    if s.len() == 0 || f.len() != s.len() {
        seq![]
    } else {
        let r = keep_unflagged(s.drop_last(), f.drop_last());
        if f.last() {
            r
        } else {
            r.push(s.last())
        }
    }
}

proof fn lemma_keep_step<V>(s: Seq<(Addr, V)>, f: Seq<bool>, i: int)
    requires
        0 <= i < s.len(),
        f.len() == s.len(),
    ensures
        keep_unflagged(s.subrange(0, i + 1), f.subrange(0, i + 1)) == if f[i] {
            keep_unflagged(s.subrange(0, i), f.subrange(0, i))
        } else {
            keep_unflagged(s.subrange(0, i), f.subrange(0, i)).push(s[i])
        },
{
    let s1 = s.subrange(0, i + 1);
    let f1 = f.subrange(0, i + 1);
    assert(s1.drop_last() =~= s.subrange(0, i));
    assert(f1.drop_last() =~= f.subrange(0, i));
}

} // verus!
