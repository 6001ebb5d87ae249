//! Decisions of the IOC search: which name goes out next and to which
//! gateway, which query has timed out and is retried or given up, and which
//! reply is passed on. Sending and receiving datagrams is the caller's.
use vstd::prelude::*;
use crate::addrmap::Addr;
use crate::search::{blocked, is_blacklisted, names_blocked, SearchResult};

verus! {

/// One query on the wire: its id, the channel, and the gateway asked.
pub struct SearchRequest {
    pub id: u32,
    pub channel: String,
    pub gateway: Addr,
}

/// A query awaiting its reply.
pub struct InFlight {
    pub id: u32,
    pub channel: String,
    pub deadline_ns: u64,
    pub tries: u32,
    pub gateway: Addr,
}

/// An in-flight query as plain values: id, channel, deadline, retries made
/// and gateway.
pub type InFlightView = (u32, Seq<char>, u64, u32, Addr);

impl View for InFlight {
    type V = InFlightView;

    open spec fn view(&self) -> InFlightView {
        (self.id, self.channel@, self.deadline_ns, self.tries, self.gateway)
    }
}

pub open spec fn flights_of(v: Seq<InFlight>) -> Seq<InFlightView> {
    v.map_values(|f: InFlight| f@)
}

/// Strings as their views, in order.
pub open spec fn names_of(v: Seq<String>) -> Seq<Seq<char>> {
    v.map_values(|s: String| s@)
}

/// What a timed-out query comes to: retried (same id, channel and gateway,
/// one more try, a fresh deadline), or given up.
pub open spec fn expired(f: InFlightView, now: u64) -> bool {
    f.2 <= now
}

/// The in-flight queries after the timeouts at `now`.
pub open spec fn after_expiry(s: Seq<InFlightView>, now: u64, timeout: u64, retries: u32) -> Seq<InFlightView>
    decreases s.len(),
{
    if s.len() == 0 {
        s
    } else {
        let r = after_expiry(s.drop_last(), now, timeout, retries);
        let f = s.last();
        if !expired(f, now) {
            r.push(f)
        } else if f.3 < retries {
            r.push((f.0, f.1, now.saturating_add(timeout), (f.3 + 1) as u32, f.4))
        } else {
            r
        }
    }
}

/// The queries sent again at `now`: id, channel and gateway.
pub open spec fn resent(s: Seq<InFlightView>, now: u64, retries: u32) -> Seq<(u32, Seq<char>, Addr)>
    decreases s.len(),
{
    if s.len() == 0 {
        seq![]
    } else {
        let r = resent(s.drop_last(), now, retries);
        let f = s.last();
        if expired(f, now) && f.3 < retries {
            r.push((f.0, f.1, f.4))
        } else {
            r
        }
    }
}

/// The channels given up at `now`.
pub open spec fn given_up(s: Seq<InFlightView>, now: u64, retries: u32) -> Seq<Seq<char>>
    decreases s.len(),
{
    if s.len() == 0 {
        seq![]
    } else {
        let r = given_up(s.drop_last(), now, retries);
        let f = s.last();
        if expired(f, now) && f.3 >= retries {
            r.push(f.1)
        } else {
            r
        }
    }
}

/// The position of the first in-flight query with `id`.
pub open spec fn first_with_id(s: Seq<InFlightView>, id: u32) -> int {
    choose|i: int| 0 <= i < s.len() && s[i].0 == id && forall|j: int| 0 <= j < i ==> s[j].0 != id
}

pub open spec fn has_id(s: Seq<InFlightView>, id: u32) -> bool {
    exists|i: int| 0 <= i < s.len() && s[i].0 == id
}

/// The search engine's state: gateways asked in turn, the blacklist, the
/// per-query timeout, the bound on queries in flight, the retries allowed,
/// the names not yet sent and the queries in flight.
pub struct FindIoc {
    gateways: Vec<Addr>,
    blacklist: Vec<Addr>,
    timeout_ns: u64,
    max_in_flight: usize,
    retries: u32,
    pending: Vec<String>,
    in_flight: Vec<InFlight>,
    next_id: u32,
    next_gw: usize,
}

impl FindIoc {
    pub closed spec fn spec_gateways(&self) -> Seq<Addr> {
        self.gateways@
    }

    pub closed spec fn spec_blacklist(&self) -> Seq<Addr> {
        self.blacklist@
    }

    pub closed spec fn spec_timeout(&self) -> u64 {
        self.timeout_ns
    }

    pub closed spec fn spec_max_in_flight(&self) -> usize {
        self.max_in_flight
    }

    pub closed spec fn spec_retries(&self) -> u32 {
        self.retries
    }

    pub closed spec fn spec_pending(&self) -> Seq<Seq<char>> {
        names_of(self.pending@)
    }

    pub closed spec fn spec_in_flight(&self) -> Seq<InFlightView> {
        flights_of(self.in_flight@)
    }

    pub closed spec fn spec_next_gw(&self) -> usize {
        self.next_gw
    }

    /// The configuration is the same in `a` and `b`.
    pub open spec fn same_conf(a: &Self, b: &Self) -> bool {
        &&& a.spec_gateways() == b.spec_gateways()
        &&& a.spec_blacklist() == b.spec_blacklist()
        &&& a.spec_timeout() == b.spec_timeout()
        &&& a.spec_max_in_flight() == b.spec_max_in_flight()
        &&& a.spec_retries() == b.spec_retries()
    }

    pub open spec fn wf(&self) -> bool {
        self.spec_in_flight().len() <= self.spec_max_in_flight()
    }

    pub fn new(gateways: Vec<Addr>, blacklist: Vec<Addr>, timeout_ns: u64, max_in_flight: usize, retries: u32) -> (r: Self)
        ensures
            r.wf(),
            r.spec_gateways() == gateways@,
            r.spec_blacklist() == blacklist@,
            r.spec_timeout() == timeout_ns,
            r.spec_max_in_flight() == max_in_flight,
            r.spec_retries() == retries,
            r.spec_pending().len() == 0,
            r.spec_in_flight().len() == 0,
    {
        let r = FindIoc {
            gateways,
            blacklist,
            timeout_ns,
            max_in_flight,
            retries,
            pending: Vec::new(),
            in_flight: Vec::new(),
            next_id: 0,
            next_gw: 0,
        };
        proof {
            assert(r.spec_pending() =~= Seq::<Seq<char>>::empty());
            assert(r.spec_in_flight() =~= Seq::<InFlightView>::empty());
        }
        r
    }

    /// Queues a channel name for searching.
    pub fn push(&mut self, channel: String)
        ensures
            Self::same_conf(old(self), final(self)),
            final(self).spec_pending() == old(self).spec_pending().push(channel@),
            final(self).spec_in_flight() == old(self).spec_in_flight(),
    {
        self.pending.push(channel);
        proof {
            assert(names_of(self.pending@) =~= names_of(old(self).pending@).push(channel@));
        }
    }

    /// Names waiting and queries in flight.
    pub fn quick_state(&self) -> (r: (usize, usize))
        ensures
            r == (self.spec_pending().len() as usize, self.spec_in_flight().len() as usize),
    {
        (self.pending.len(), self.in_flight.len())
    }

    /// The sequence ends once no name waits and no query is in flight.
    pub fn is_done(&self) -> (r: bool)
        ensures
            r == (self.spec_pending().len() == 0 && self.spec_in_flight().len() == 0),
    {
        self.pending.len() == 0 && self.in_flight.len() == 0
    }

    /// At `now`: sends the next waiting name to the next gateway in turn,
    /// where fewer than the bound are in flight. Its deadline is `now` plus
    /// the timeout.
    pub fn next_request(&mut self, now: u64) -> (r: Option<SearchRequest>)
        requires
            old(self).wf(),
        ensures
            final(self).wf(),
            Self::same_conf(old(self), final(self)),
            ({
                let go = old(self).spec_pending().len() > 0 && old(self).spec_in_flight().len()
                    < old(self).spec_max_in_flight() && old(self).spec_gateways().len() > 0;
                if go {
                    r matches Some(q) && {
                        let gw = old(self).spec_gateways()[old(self).spec_next_gw() as int
                            % old(self).spec_gateways().len() as int];
                        &&& q.channel@ == old(self).spec_pending()[0]
                        &&& q.gateway == gw
                        &&& final(self).spec_pending() == old(self).spec_pending().drop_first()
                        &&& final(self).spec_in_flight() == old(self).spec_in_flight().push(
                            (q.id, q.channel@, now.saturating_add(old(self).spec_timeout()), 0u32, gw),
                        )
                    }
                } else {
                    &&& r is None
                    &&& final(self).spec_pending() == old(self).spec_pending()
                    &&& final(self).spec_in_flight() == old(self).spec_in_flight()
                }
            }),
    {
        let ng = self.gateways.len();
        if self.pending.len() == 0 || self.in_flight.len() >= self.max_in_flight || ng == 0 {
            return None;
        }
        let gw = self.gateways[self.next_gw % ng];
        self.next_gw = if self.next_gw % ng + 1 < ng {
            self.next_gw % ng + 1
        } else {
            0
        };
        let ghost p0 = self.pending@;
        let channel = self.pending.remove(0);
        proof {
            assert(names_of(self.pending@) =~= names_of(p0).drop_first());
        }
        let id = self.next_id;
        self.next_id = self.next_id.wrapping_add(1);
        let deadline = now.saturating_add(self.timeout_ns);
        let request = SearchRequest { id, channel: channel.clone(), gateway: gw };
        let f = InFlight { id, channel, deadline_ns: deadline, tries: 0, gateway: gw };
        let ghost fl0 = self.in_flight@;
        self.in_flight.push(f);
        proof {
            assert(flights_of(self.in_flight@) =~= flights_of(fl0).push(f@));
        }
        Some(request)
    }

    /// The position of the first query in flight with `id`.
    fn position_of_id(&self, id: u32) -> (r: Option<usize>)
        ensures
            match r {
                Some(i) => i < self.spec_in_flight().len() && self.spec_in_flight()[i as int].0 == id
                    && forall|j: int| 0 <= j < i ==> self.spec_in_flight()[j].0 != id,
                None => !has_id(self.spec_in_flight(), id),
            },
    {
        let mut i: usize = 0;
        while i < self.in_flight.len()
            invariant
                i <= self.in_flight@.len(),
                forall|j: int| 0 <= j < i ==> self.in_flight@[j].id != id,
            decreases self.in_flight@.len() - i,
        {
            if self.in_flight[i].id == id {
                proof {
                    assert forall|j: int| 0 <= j < i implies self.spec_in_flight()[j].0 != id by {
                        assert(self.spec_in_flight()[j] == self.in_flight@[j]@);
                    }
                }
                return Some(i);
            }
            i = i + 1;
        }
        proof {
            if has_id(self.spec_in_flight(), id) {
                let k = choose|k: int| 0 <= k < self.spec_in_flight().len() && self.spec_in_flight()[k].0 == id;
                assert(self.spec_in_flight()[k] == self.in_flight@[k]@);
            }
        }
        None
    }

    /// A reply to query `id`: the query leaves the table; the result is
    /// passed on unless it names a blacklisted gateway. A reply to no query
    /// in flight changes nothing.
    pub fn on_reply(&mut self, id: u32, response_addr: Option<Addr>, addr: Option<Addr>) -> (r: Option<SearchResult>)
        requires
            old(self).wf(),
        ensures
            final(self).wf(),
            Self::same_conf(old(self), final(self)),
            final(self).spec_pending() == old(self).spec_pending(),
            !has_id(old(self).spec_in_flight(), id) ==> r is None && final(self).spec_in_flight()
                == old(self).spec_in_flight(),
            has_id(old(self).spec_in_flight(), id) ==> ({
                let i = first_with_id(old(self).spec_in_flight(), id);
                &&& final(self).spec_in_flight() == old(self).spec_in_flight().remove(i)
                &&& match r {
                    Some(x) => x.channel@ == old(self).spec_in_flight()[i].1 && x.response_addr
                        == response_addr && x.addr == addr,
                    None => names_blocked(response_addr, addr, old(self).spec_blacklist()),
                }
            }),
            r matches Some(x) ==> !blocked(x, old(self).spec_blacklist()),
    {
        let found = self.position_of_id(id);
        let ghost s0 = self.spec_in_flight();
        let i = match found {
            None => {
                return None;
            },
            Some(i) => i,
        };
        proof {
            assert(has_id(s0, id));
            let k = first_with_id(s0, id);
            assert(0 <= k < s0.len() && s0[k].0 == id && forall|j: int| 0 <= j < k ==> s0[j].0 != id);
            if k < i {
                assert(s0[k].0 != id);
            }
            if k > i {
                assert(s0[i as int].0 != id);
            }
        }
        let f = self.in_flight.remove(i);
        proof {
            assert(flights_of(self.in_flight@) =~= s0.remove(i as int));
        }
        let item = SearchResult { channel: f.channel, response_addr, addr };
        if is_blacklisted(&item, &self.blacklist) {
            None
        } else {
            Some(item)
        }
    }

    /// At `now`: every query past its deadline is sent again while retries
    /// remain, else given up and reported with neither address.
    pub fn expire(&mut self, now: u64) -> (r: (Vec<SearchRequest>, Vec<SearchResult>))
        requires
            old(self).wf(),
        ensures
            final(self).wf(),
            Self::same_conf(old(self), final(self)),
            final(self).spec_pending() == old(self).spec_pending(),
            final(self).spec_in_flight() == after_expiry(
                old(self).spec_in_flight(),
                now,
                old(self).spec_timeout(),
                old(self).spec_retries(),
            ),
            r.0@.map_values(|q: SearchRequest| (q.id, q.channel@, q.gateway)) == resent(
                old(self).spec_in_flight(),
                now,
                old(self).spec_retries(),
            ),
            r.1@.map_values(|x: SearchResult| x.channel@) == given_up(
                old(self).spec_in_flight(),
                now,
                old(self).spec_retries(),
            ),
            forall|k: int|
                0 <= k < r.1@.len() ==> (#[trigger] r.1@[k]).response_addr is None && r.1@[k].addr is None,
            forall|k: int| 0 <= k < r.1@.len() ==> !blocked(#[trigger] r.1@[k], old(self).spec_blacklist()),
    {
        let mut rest: Vec<InFlight> = Vec::new();
        core::mem::swap(&mut rest, &mut self.in_flight);
        let ghost s0 = flights_of(rest@);
        let ghost v0 = rest@;
        let n = rest.len();
        let timeout = self.timeout_ns;
        let retries = self.retries;
        let mut kept: Vec<InFlight> = Vec::new();
        let mut again: Vec<SearchRequest> = Vec::new();
        let mut lost: Vec<SearchResult> = Vec::new();
        let mut i: usize = 0;
        proof {
            assert(s0.subrange(0, 0) =~= Seq::<InFlightView>::empty());
            assert(flights_of(kept@) =~= Seq::<InFlightView>::empty());
            assert(again@.map_values(|q: SearchRequest| (q.id, q.channel@, q.gateway)) =~= Seq::<
                (u32, Seq<char>, Addr),
            >::empty());
            assert(lost@.map_values(|x: SearchResult| x.channel@) =~= Seq::<Seq<char>>::empty());
        }
        while rest.len() > 0
            invariant
                i <= n,
                n == s0.len(),
                s0 == flights_of(v0),
                timeout == old(self).spec_timeout(),
                retries == old(self).spec_retries(),
                flights_of(rest@) == s0.subrange(i as int, n as int),
                flights_of(kept@) == after_expiry(s0.subrange(0, i as int), now, timeout, retries),
                again@.map_values(|q: SearchRequest| (q.id, q.channel@, q.gateway)) == resent(
                    s0.subrange(0, i as int),
                    now,
                    retries,
                ),
                lost@.map_values(|x: SearchResult| x.channel@) == given_up(
                    s0.subrange(0, i as int),
                    now,
                    retries,
                ),
                forall|k: int|
                    0 <= k < lost@.len() ==> (#[trigger] lost@[k]).response_addr is None
                        && lost@[k].addr is None,
                kept@.len() <= i,
            decreases rest@.len(),
        {
            let ghost r0 = rest@;
            let f = rest.remove(0);
            proof {
                assert(flights_of(r0).len() == r0.len());
                assert(i < n);
                assert(r0[0]@ == flights_of(r0)[0]);
                assert(flights_of(r0) == s0.subrange(i as int, n as int));
                assert(s0.subrange(i as int, n as int)[0] == s0[i as int]);
                assert(f@ == s0[i as int]);
                assert forall|k: int| 0 <= k < rest@.len() implies flights_of(rest@)[k] == s0.subrange(
                    i + 1,
                    n as int,
                )[k] by {
                    assert(rest@[k] == r0[k + 1]);
                    assert(flights_of(r0)[k + 1] == r0[k + 1]@);
                    assert(s0.subrange(i as int, n as int)[k + 1] == s0[i + 1 + k]);
                }
                assert(flights_of(rest@) =~= s0.subrange(i + 1, n as int));
                let pre = s0.subrange(0, i as int);
                let next = s0.subrange(0, i + 1);
                assert(next.drop_last() =~= pre);
                assert(next.last() == f@);
            }
            let ghost k0 = kept@;
            let ghost a0 = again@;
            let ghost l0 = lost@;
            if f.deadline_ns > now {
                kept.push(f);
                proof {
                    assert(flights_of(kept@) =~= flights_of(k0).push(f@));
                }
            } else if f.tries < retries {
                again.push(SearchRequest { id: f.id, channel: f.channel.clone(), gateway: f.gateway });
                let g = InFlight {
                    id: f.id,
                    channel: f.channel,
                    deadline_ns: now.saturating_add(timeout),
                    tries: f.tries + 1,
                    gateway: f.gateway,
                };
                kept.push(g);
                proof {
                    assert(flights_of(kept@) =~= flights_of(k0).push(g@));
                    assert(again@.map_values(|q: SearchRequest| (q.id, q.channel@, q.gateway)) =~= a0.map_values(
                        |q: SearchRequest| (q.id, q.channel@, q.gateway),
                    ).push((f.id, f.channel@, f.gateway)));
                }
            } else {
                lost.push(SearchResult { channel: f.channel, response_addr: None, addr: None });
                proof {
                    assert(lost@.map_values(|x: SearchResult| x.channel@) =~= l0.map_values(
                        |x: SearchResult| x.channel@,
                    ).push(f.channel@));
                }
            }
            i = i + 1;
        }
        proof {
            assert(s0.subrange(0, i as int) =~= s0);
        }
        self.in_flight = kept;
        (again, lost)
    }
}

} // verus!
