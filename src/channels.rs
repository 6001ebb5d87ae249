//! The channels of one IOC connection, by name, with their state.
use vstd::prelude::*;
use crate::addrmap::Addr;

verus! {

/// Where a channel stands in its subscription.
#[derive(Clone, Copy, Debug, PartialEq, Eq, Structural)]
pub enum ChannelState {
    Init,
    Creating,
    Created,
    Monitoring,
    Closing,
}

/// What the connection knows of one channel.
pub struct ChannelStateInfo {
    pub address: Addr,
    pub channel_name: String,
    pub state: ChannelState,
    pub interest_score: u32,
    pub last_activity_ns: u64,
}

/// A channel's information as plain values: address, name, state, interest
/// and time of last activity.
pub type InfoView = (Addr, Seq<char>, ChannelState, u32, u64);

impl View for ChannelStateInfo {
    type V = InfoView;

    open spec fn view(&self) -> InfoView {
        (self.address, self.channel_name@, self.state, self.interest_score, self.last_activity_ns)
    }
}

impl ChannelStateInfo {
    pub fn copy(&self) -> (r: Self)
        ensures
            r@ == self@,
    {
        ChannelStateInfo {
            address: self.address,
            channel_name: self.channel_name.clone(),
            state: self.state,
            interest_score: self.interest_score,
            last_activity_ns: self.last_activity_ns,
        }
    }
}

/// The views of `v`, in order.
pub open spec fn infos_of(v: Seq<ChannelStateInfo>) -> Seq<InfoView> {
    v.map_values(|c: ChannelStateInfo| c@)
}

pub open spec fn has_channel(s: Seq<InfoView>, name: Seq<char>) -> bool {
    exists|i: int| 0 <= i < s.len() && s[i].1 == name
}

/// Each name at most once.
pub open spec fn unique_names(s: Seq<InfoView>) -> bool {
    forall|i: int, j: int| 0 <= i < j < s.len() ==> s[i].1 != s[j].1
}

/// The position of `name`, where present.
pub open spec fn position_of(s: Seq<InfoView>, name: Seq<char>) -> int {
    choose|i: int| 0 <= i < s.len() && s[i].1 == name
}

/// The information of a channel just added.
pub open spec fn fresh_info(address: Addr, name: Seq<char>) -> InfoView {
    (address, name, ChannelState::Init, 0u32, 0u64)
}

/// The channels after adding `name`: unchanged where it is present.
pub open spec fn added(s: Seq<InfoView>, address: Addr, name: Seq<char>) -> Seq<InfoView> {
    if has_channel(s, name) {
        s
    } else {
        s.push(fresh_info(address, name))
    }
}

/// The channels after removing `name`: unchanged where it is absent.
pub open spec fn removed(s: Seq<InfoView>, name: Seq<char>) -> Seq<InfoView> {
    if has_channel(s, name) {
        s.remove(position_of(s, name))
    } else {
        s
    }
}

/// Scores descending.
pub open spec fn by_interest(s: Seq<InfoView>) -> bool {
    forall|i: int, j: int| 0 <= i < j < s.len() ==> s[i].3 >= s[j].3
}

/// The channels of the connection to one address.
pub struct ConnChannels {
    address: Addr,
    channels: Vec<ChannelStateInfo>,
}

impl ConnChannels {
    pub closed spec fn spec_address(&self) -> Addr {
        self.address
    }

    pub closed spec fn infos(&self) -> Seq<InfoView> {
        infos_of(self.channels@)
    }

    pub open spec fn wf(&self) -> bool {
        unique_names(self.infos())
    }

    pub fn new(address: Addr) -> (r: Self)
        ensures
            r.wf(),
            r.infos().len() == 0,
            r.spec_address() == address,
    {
        ConnChannels { address, channels: Vec::new() }
    }

    pub fn len(&self) -> (r: usize)
        ensures
            r == self.infos().len(),
    {
        self.channels.len()
    }

    fn find(&self, name: &String) -> (r: Option<usize>)
        ensures
            match r {
                Some(i) => i < self.infos().len() && self.infos()[i as int].1 == name@,
                None => !has_channel(self.infos(), name@),
            },
    {
        let mut i: usize = 0;
        while i < self.channels.len()
            invariant
                i <= self.infos().len(),
                self.infos().len() == self.channels@.len(),
                forall|j: int| 0 <= j < i ==> self.infos()[j].1 != name@,
            decreases self.channels@.len() - i,
        {
            if self.channels[i].channel_name == *name {
                return Some(i);
            }
            i = i + 1;
        }
        None
    }

    /// Subscribes `name`; true iff it was not there before.
    pub fn channel_add(&mut self, name: String) -> (r: bool)
        requires
            old(self).wf(),
        ensures
            final(self).wf(),
            final(self).spec_address() == old(self).spec_address(),
            r == !has_channel(old(self).infos(), name@),
            final(self).infos() == added(old(self).infos(), old(self).spec_address(), name@),
    {
        match self.find(&name) {
            Some(_) => false,
            None => {
                let info = ChannelStateInfo {
                    address: self.address,
                    channel_name: name,
                    state: ChannelState::Init,
                    interest_score: 0,
                    last_activity_ns: 0,
                };
                let ghost before = self.infos();
                self.channels.push(info);
                proof {
                    assert(self.infos() =~= before.push(fresh_info(self.address, info.channel_name@)));
                }
                true
            },
        }
    }

    /// Unsubscribes `name`; true iff it was there.
    pub fn channel_remove(&mut self, name: &String) -> (r: bool)
        requires
            old(self).wf(),
        ensures
            final(self).wf(),
            final(self).spec_address() == old(self).spec_address(),
            r == has_channel(old(self).infos(), name@),
            final(self).infos() == removed(old(self).infos(), name@),
            !has_channel(final(self).infos(), name@),
    {
        let ghost s0 = self.infos();
        match self.find(name) {
            None => false,
            Some(i) => {
                self.channels.remove(i);
                proof {
                    let p = position_of(s0, name@);
                    assert(0 <= p < s0.len() && s0[p].1 == name@);
                    assert(p == i);
                    assert(self.infos() =~= s0.remove(i as int));
                    lemma_removed_absent(s0, name@);
                }
                true
            },
        }
    }

    /// The information of `name`, where subscribed.
    pub fn channel_state(&self, name: &String) -> (r: Option<ChannelStateInfo>)
        requires
            self.wf(),
        ensures
            match r {
                Some(info) => has_channel(self.infos(), name@) && info@ == self.infos()[position_of(
                    self.infos(),
                    name@,
                )],
                None => !has_channel(self.infos(), name@),
            },
    {
        match self.find(name) {
            None => None,
            Some(i) => {
                proof {
                    assert(position_of(self.infos(), name@) == i);
                }
                Some(self.channels[i].copy())
            },
        }
    }

    /// All channels, highest interest first; equal scores keep their order.
    pub fn channel_states_all(&self) -> (r: Vec<ChannelStateInfo>)
        ensures
            r@.len() == self.infos().len(),
            by_interest(infos_of(r@)),
            forall|k: int|
                0 <= k < r@.len() ==> self.infos().contains(#[trigger] infos_of(r@)[k]),
    {
        let mut out: Vec<ChannelStateInfo> = Vec::new();
        let mut i: usize = 0;
        while i < self.channels.len()
            invariant
                i <= self.infos().len(),
                self.infos().len() == self.channels@.len(),
                out@.len() == i,
                by_interest(infos_of(out@)),
                forall|k: int|
                    0 <= k < out@.len() ==> self.infos().contains(#[trigger] infos_of(out@)[k]),
            decreases self.channels@.len() - i,
        {
            let c = self.channels[i].copy();
            let score = c.interest_score;
            let mut p: usize = 0;
            while p < out.len() && out[p].interest_score >= score
                invariant
                    p <= out@.len(),
                    forall|k: int| 0 <= k < p ==> (#[trigger] out@[k]).interest_score >= score,
                decreases out@.len() - p,
            {
                p = p + 1;
            }
            let ghost o0 = infos_of(out@);
            proof {
                assert(self.infos()[i as int] == c@);
            }
            out.insert(p, c);
            proof {
                let o1 = infos_of(out@);
                assert(o1 =~= o0.insert(p as int, c@));
                assert forall|a: int, b: int| 0 <= a < b < o1.len() implies o1[a].3 >= o1[b].3 by {
                    if b < p {
                    } else if b == p {
                        assert(o1[a] == o0[a]);
                    } else if a < p {
                        assert(o1[b] == o0[b - 1]);
                        if b - 1 >= p {
                            if p < o0.len() {
                                assert(o0[p as int].3 < score);
                                assert(o0[p as int].3 >= o0[b - 1].3);
                            }
                        }
                    } else if a == p {
                        assert(o1[b] == o0[b - 1]);
                        assert(o0[p as int].3 < score);
                        if b - 1 > p {
                            assert(o0[p as int].3 >= o0[b - 1].3);
                        }
                    } else {
                        assert(o1[b] == o0[b - 1]);
                        assert(o1[a] == o0[a - 1]);
                    }
                }
                assert forall|k: int| 0 <= k < o1.len() implies self.infos().contains(#[trigger] o1[k]) by {
                    if k < p {
                        assert(o1[k] == o0[k]);
                    } else if k == p {
                        assert(self.infos()[i as int] == o1[k]);
                    } else {
                        assert(o1[k] == o0[k - 1]);
                    }
                }
            }
            i = i + 1;
        }
        out
    }
}

proof fn lemma_removed_absent(s: Seq<InfoView>, name: Seq<char>)
    requires
        unique_names(s),
    ensures
        unique_names(removed(s, name)),
        !has_channel(removed(s, name), name),
{
    if has_channel(s, name) {
        let p = position_of(s, name);
        let r = s.remove(p);
        assert forall|i: int| 0 <= i < r.len() implies r[i].1 != name by {
            if i < p {
                assert(r[i] == s[i]);
            } else {
                assert(r[i] == s[i + 1]);
            }
        }
        assert forall|i: int, j: int| 0 <= i < j < r.len() implies r[i].1 != r[j].1 by {
            let si = if i < p { i } else { i + 1 };
            let sj = if j < p { j } else { j + 1 };
            assert(r[i] == s[si]);
            assert(r[j] == s[sj]);
        }
    }
}

/// Adding a channel and then removing it leaves no such channel; where it
/// was not there before, the channels are as they were.
pub proof fn lemma_add_remove_round_trip(s: Seq<InfoView>, address: Addr, name: Seq<char>)
    requires
        unique_names(s),
    ensures
        !has_channel(removed(added(s, address, name), name), name),
        !has_channel(s, name) ==> removed(added(s, address, name), name) == s,
{
    if has_channel(s, name) {
        lemma_removed_absent(s, name);
    } else {
        let t = s.push(fresh_info(address, name));
        assert(t[s.len() as int].1 == name);
        assert(has_channel(t, name));
        let p = position_of(t, name);
        if p < s.len() {
            assert(t[p] == s[p]);
        }
        assert(p == s.len());
        assert(t.remove(p) =~= s);
    }
}

} // verus!
