//! The connection set: per-address connection resources, the command-queue
//! index, and the queue of connections awaited at shutdown.
use vstd::prelude::*;
use crate::addrmap::{has_entry, has_key, keep_unflagged, Addr, AddrMap};

verus! {

/// The resources of each connection, keyed by the IOC's address. `R` is the
/// bundle of command sender, statistics and task handle, which is created
/// and removed as one entry.
pub struct CaConnSet<R> {
    ca_conn_ress: AddrMap<R>,
}

impl<R> CaConnSet<R> {
    pub closed spec fn entries(&self) -> Seq<(Addr, R)> {
        self.ca_conn_ress.entries()
    }

    pub closed spec fn wf(&self) -> bool {
        self.ca_conn_ress.wf()
    }

    /// The addresses in ascending order.
    pub open spec fn keys(&self) -> Seq<Addr> {
        self.entries().map_values(|e: (Addr, R)| e.0)
    }

    pub fn new() -> (r: Self)
        ensures
            r.wf(),
            r.entries().len() == 0,
    {
        CaConnSet { ca_conn_ress: AddrMap::new() }
    }

    pub fn len(&self) -> (r: usize)
        ensures
            r == self.entries().len(),
    {
        self.ca_conn_ress.len()
    }

    /// Stores the resources of a new connection to `addr`; those of an
    /// earlier connection to the same address are replaced and handed back.
    pub fn insert_ress(&mut self, addr: Addr, ress: R) -> (r: Option<R>)
        requires
            old(self).wf(),
        ensures
            final(self).wf(),
            has_entry(final(self).entries(), (addr, ress)),
            forall|e: (Addr, R)|
                e.0 != addr ==> (has_entry(final(self).entries(), e) <==> has_entry(old(self).entries(), e)),
            has_key(old(self).entries(), addr) <==> r is Some,
            r matches Some(x) ==> has_entry(old(self).entries(), (addr, x)),
    {
        self.ca_conn_ress.insert(addr, ress)
    }

    pub fn has_addr(&self, addr: Addr) -> (r: bool)
        requires
            self.wf(),
        ensures
            r == has_key(self.entries(), addr),
    {
        self.ca_conn_ress.contains_key(addr)
    }

    /// The resources of the connection to `addr`.
    pub fn get(&self, addr: Addr) -> (r: Option<&R>)
        requires
            self.wf(),
        ensures
            match r {
                Some(v) => has_entry(self.entries(), (addr, *v)),
                None => !has_key(self.entries(), addr),
            },
    {
        self.ca_conn_ress.get(addr)
    }

    /// The resources at position `i` of the ascending address order.
    pub fn nth_ress(&self, i: usize) -> (r: &R)
        requires
            i < self.entries().len(),
        ensures
            *r == self.entries()[i as int].1,
    {
        self.ca_conn_ress.nth_value(i)
    }

    /// The `n`-th address, counted modulo the number of connections, in
    /// ascending address order; `None` when there is no connection.
    pub fn addr_nth_mod(&self, n: usize) -> (r: Option<Addr>)
        ensures
            self.entries().len() == 0 ==> r is None,
            self.entries().len() > 0 ==> r == Some(self.keys()[(n as int) % (self.entries().len() as int)]),
    {
        let len = self.ca_conn_ress.len();
        if len < 1 {
            return None;
        }
        Some(self.ca_conn_ress.nth_key(n % len))
    }

    /// A snapshot of the addresses, in ascending order.
    pub fn addrs(&self) -> (r: Vec<Addr>)
        ensures
            r@ == self.keys(),
    {
        let mut out: Vec<Addr> = Vec::new();
        let mut i: usize = 0;
        while i < self.ca_conn_ress.len()
            invariant
                i <= self.entries().len(),
                out@ == self.keys().subrange(0, i as int),
            decreases self.entries().len() - i,
        {
            out.push(self.ca_conn_ress.nth_key(i));
            proof {
                assert(out@ =~= self.keys().subrange(0, i + 1));
            }
            i = i + 1;
        }
        proof {
            assert(self.keys().subrange(0, i as int) =~= self.keys());
        }
        out
    }

    /// Empties the set and hands out every connection's resources, in
    /// ascending address order, to be awaited.
    pub fn take_all(&mut self) -> (r: Vec<(Addr, R)>)
        ensures
            r@ == old(self).entries(),
            final(self).entries().len() == 0,
            final(self).wf(),
    {
        self.ca_conn_ress.take_all()
    }
}

/// The command senders of the connections, keyed by address. Senders whose
/// receiving side has closed are dropped on each read of the index.
pub struct CommandQueueSet<S> {
    queues: AddrMap<S>,
}

impl<S> CommandQueueSet<S> {
    pub closed spec fn entries(&self) -> Seq<(Addr, S)> {
        self.queues.entries()
    }

    pub closed spec fn wf(&self) -> bool {
        self.queues.wf()
    }

    pub fn new() -> (r: Self)
        ensures
            r.wf(),
            r.entries().len() == 0,
    {
        CommandQueueSet { queues: AddrMap::new() }
    }

    pub fn len(&self) -> (r: usize)
        ensures
            r == self.entries().len(),
    {
        self.queues.len()
    }

    pub fn insert(&mut self, addr: Addr, sender: S) -> (r: Option<S>)
        requires
            old(self).wf(),
        ensures
            final(self).wf(),
            has_entry(final(self).entries(), (addr, sender)),
            forall|e: (Addr, S)|
                e.0 != addr ==> (has_entry(final(self).entries(), e) <==> has_entry(old(self).entries(), e)),
            has_key(old(self).entries(), addr) <==> r is Some,
    {
        self.queues.insert(addr, sender)
    }

    /// The sender at position `i` of the ascending address order.
    pub fn nth_sender(&self, i: usize) -> (r: &S)
        requires
            i < self.entries().len(),
        ensures
            *r == self.entries()[i as int].1,
    {
        self.queues.nth_value(i)
    }

    /// The sender for `addr`.
    pub fn get(&self, addr: Addr) -> (r: Option<&S>)
        requires
            self.wf(),
        ensures
            match r {
                Some(v) => has_entry(self.entries(), (addr, *v)),
                None => !has_key(self.entries(), addr),
            },
    {
        self.queues.get(addr)
    }

    /// Drops the senders flagged as closed, position by position, and keeps
    /// the others in order.
    pub fn queues_locked(&mut self, closed: &Vec<bool>)
        requires
            old(self).wf(),
            closed@.len() == old(self).entries().len(),
        ensures
            final(self).wf(),
            final(self).entries() == keep_unflagged(old(self).entries(), closed@),
    {
        self.queues.remove_flagged(closed)
    }
}

/// The connections still awaited at shutdown, in the order they are polled.
/// One that does not finish within a round goes to the back.
pub struct StopQueue<J> {
    pending: Vec<J>,
}

impl<J> StopQueue<J> {
    pub closed spec fn pending(&self) -> Seq<J> {
        self.pending@
    }

    pub fn new(handles: Vec<J>) -> (r: Self)
        ensures
            r.pending() == handles@,
    {
        StopQueue { pending: handles }
    }

    pub fn len(&self) -> (r: usize)
        ensures
            r == self.pending().len(),
    {
        self.pending.len()
    }

    /// The next connection to await, or `None` once all have stopped.
    pub fn pop_front(&mut self) -> (r: Option<J>)
        ensures
            old(self).pending().len() == 0 ==> r is None && final(self).pending().len() == 0,
            old(self).pending().len() > 0 ==> r == Some(old(self).pending()[0]) && final(self).pending()
                == old(self).pending().drop_first(),
    {
        if self.pending.len() == 0 {
            None
        } else {
            let j = self.pending.remove(0);
            proof {
                assert(self.pending@ =~= old(self).pending().drop_first());
            }
            Some(j)
        }
    }

    /// Puts a connection that did not stop within the round at the back, and
    /// returns how many are still awaited.
    pub fn requeue(&mut self, j: J) -> (r: usize)
        requires
            old(self).pending().len() < usize::MAX,
        ensures
            final(self).pending() == old(self).pending().push(j),
            r == final(self).pending().len(),
    {
        self.pending.push(j);
        self.pending.len()
    }
}

} // verus!
